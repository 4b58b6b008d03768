use event_modeler::data_model::{DataModel, Link, Node, NodeType};
use event_modeler::layout::create_layout;

fn node(id: &str, node_type: NodeType, text: &str) -> Node {
    Node { id: String::from(id), node_type, text: String::from(text) }
}

fn link(start_id: &str, end_id: &str) -> Link {
    Link { start_id: String::from(start_id), end_id: String::from(end_id) }
}

#[test]
fn nodes_are_placed_left_to_right_in_declaration_order() {
    let data_model = DataModel {
        nodes: vec![
            node("a", NodeType::Command, "A"),
            node("b", NodeType::Aggregate, "B"),
            node("c", NodeType::Event, "C"),
        ],
        links: vec![],
    };

    let layout = create_layout(data_model);

    assert_eq!(layout.node_layouts.len(), 3);
    assert_eq!(layout.node_layouts[0].position.x, 50);
    assert_eq!(layout.node_layouts[1].position.x, 300);
    assert_eq!(layout.node_layouts[2].position.x, 550);
    for node_layout in &layout.node_layouts {
        assert_eq!(node_layout.position.y, 50);
        assert_eq!(node_layout.size.width, 200);
        assert_eq!(node_layout.size.height, 200);
    }
}

#[test]
fn link_anchors_sit_on_the_tiles_facing_edges() {
    let data_model = DataModel {
        nodes: vec![node("a", NodeType::Command, "A"), node("b", NodeType::Aggregate, "B")],
        links: vec![link("a", "b")],
    };

    let layout = create_layout(data_model);

    // node a: x=50, y=50, 200 by 200; node b: x=300, y=50, 200 by 200
    assert_eq!(layout.link_layouts.len(), 1);
    assert_eq!(layout.link_layouts[0].start_position.x, 250);
    assert_eq!(layout.link_layouts[0].start_position.y, 150);
    assert_eq!(layout.link_layouts[0].end_position.x, 300);
    assert_eq!(layout.link_layouts[0].end_position.y, 150);
}

#[test]
fn canvas_size_is_fixed() {
    let data_model = DataModel { nodes: vec![], links: vec![] };

    let layout = create_layout(data_model);

    assert_eq!(layout.size.width, 2560);
    assert_eq!(layout.size.height, 1440);
    assert_eq!(layout.node_layouts.len(), 0);
    assert_eq!(layout.link_layouts.len(), 0);
}

#[test]
fn a_document_flows_end_to_end_into_a_diagram() {
    let string = "command(c1): \"Add\"
aggregate(a1): \"Thing\"
event(e1): \"Added\"
link: c1 -> a1
link: a1 -> e1
";

    let data_model = DataModel::from(string.to_string()).unwrap();

    assert_eq!(data_model.nodes.len(), 3);
    assert_eq!(data_model.links.len(), 2);
    assert_eq!(data_model.nodes[0].id, "c1");
    assert_eq!(data_model.nodes[1].id, "a1");
    assert_eq!(data_model.nodes[2].id, "e1");
    assert!(data_model.all_links_resolve());

    let layout = create_layout(data_model);

    // three tiles, left to right
    assert_eq!(layout.node_layouts.len(), 3);
    assert_eq!(layout.node_layouts[0].position.x, 50);
    assert_eq!(layout.node_layouts[1].position.x, 300);
    assert_eq!(layout.node_layouts[2].position.x, 550);
    assert_eq!(layout.node_layouts[0].node.text, "Add");
    assert_eq!(layout.node_layouts[1].node.text, "Thing");
    assert_eq!(layout.node_layouts[2].node.text, "Added");

    // two connecting segments, each from a right edge to a left edge
    assert_eq!(layout.link_layouts.len(), 2);
    assert_eq!(layout.link_layouts[0].start_position.x, 250);
    assert_eq!(layout.link_layouts[0].end_position.x, 300);
    assert_eq!(layout.link_layouts[1].start_position.x, 500);
    assert_eq!(layout.link_layouts[1].end_position.x, 550);
    assert_eq!(layout.link_layouts[0].start_position.y, 150);
    assert_eq!(layout.link_layouts[1].end_position.y, 150);
}

#[test]
fn links_resolve_to_the_first_node_carrying_the_id() {
    let data_model = DataModel {
        nodes: vec![node("a", NodeType::Command, "A"), node("b", NodeType::Event, "B")],
        links: vec![link("b", "a")],
    };

    let layout = create_layout(data_model);

    // start node b sits at x=300, end node a at x=50
    assert_eq!(layout.link_layouts[0].start_position.x, 500);
    assert_eq!(layout.link_layouts[0].end_position.x, 50);
}
