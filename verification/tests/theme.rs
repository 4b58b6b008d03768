use event_modeler::data_model::NodeType;
use event_modeler::renderer::{get_node_fill, standard_theme, Color};

#[test]
fn to_rgb_string_writes_each_channel_in_decimal() {
    assert_eq!(Color(30, 30, 30).to_rgb_string(), "rgb(30, 30, 30)");
    assert_eq!(Color(0, 5, 100).to_rgb_string(), "rgb(0, 5, 100)");
    assert_eq!(Color(255, 150, 75).to_rgb_string(), "rgb(255, 150, 75)");
    assert_eq!(Color(9, 10, 99).to_rgb_string(), "rgb(9, 10, 99)");
}

#[test]
fn each_node_kind_has_its_theme_fill() {
    assert_eq!(get_node_fill(&NodeType::Command), Color(100, 200, 255));
    assert_eq!(get_node_fill(&NodeType::Aggregate), Color(200, 200, 100));
    assert_eq!(get_node_fill(&NodeType::Event), Color(255, 150, 75));
    assert_eq!(get_node_fill(&NodeType::Policy), Color(200, 100, 200));
}

#[test]
fn the_background_is_dark_grey() {
    assert_eq!(standard_theme().background_color, Color(30, 30, 30));
    assert_eq!(standard_theme().background_color.to_rgb_string(), "rgb(30, 30, 30)");
}
