use event_modeler::data_model::{Construct, DataModel, Link, Node, NodeType, ParseError};

fn node(id: &str, node_type: NodeType, text: &str) -> Node {
    Node { id: String::from(id), node_type, text: String::from(text) }
}

fn link(start_id: &str, end_id: &str) -> Link {
    Link { start_id: String::from(start_id), end_id: String::from(end_id) }
}

#[test]
fn parsing_a_valid_string_works() {
    let string = "command(addCustomerCommand): \"Add Customer\"
aggregate(addCustomerAggregate): \"Customer\"
event(addCustomerEvent): \"Customer Added\"
policy(verifyCustomerPolicy): \"Verify Customer Policy\"
command(deleteCustomerCommand): \"Delete Customer\"
aggregate(deleteCustomerAggregate): \"Customer\"
event(deleteCustomerEvent): \"Customer Deleted\"

link: addCustomerCommand -> addCustomerAggregate
link: addCustomerAggregate -> addCustomerEvent
link: addCustomerEvent -> verifyCustomerPolicy
link: deleteCustomerCommand -> deleteCustomerAggregate
link: deleteCustomerAggregate -> deleteCustomerEvent
";

    let data_model = DataModel::from(string.to_string()).unwrap();

    assert_eq!(
        data_model,
        DataModel {
            nodes: vec![
                node("addCustomerCommand", NodeType::Command, "Add Customer"),
                node("addCustomerAggregate", NodeType::Aggregate, "Customer"),
                node("addCustomerEvent", NodeType::Event, "Customer Added"),
                node("verifyCustomerPolicy", NodeType::Policy, "Verify Customer Policy"),
                node("deleteCustomerCommand", NodeType::Command, "Delete Customer"),
                node("deleteCustomerAggregate", NodeType::Aggregate, "Customer"),
                node("deleteCustomerEvent", NodeType::Event, "Customer Deleted"),
            ],
            links: vec![
                link("addCustomerCommand", "addCustomerAggregate"),
                link("addCustomerAggregate", "addCustomerEvent"),
                link("addCustomerEvent", "verifyCustomerPolicy"),
                link("deleteCustomerCommand", "deleteCustomerAggregate"),
                link("deleteCustomerAggregate", "deleteCustomerEvent"),
            ],
        }
    );
}

#[test]
fn parsing_a_string_with_a_duplicate_id_fails() {
    let string = "command(addCustomer): \"Add Customer\"\n\naggregate(addCustomer): \"Customer\"\n";

    let result = DataModel::from(string.to_string());

    assert_eq!(
        result,
        Err(ParseError::DuplicateId { id: String::from("addCustomer"), line_number: 3 })
    );
}

#[test]
fn parsing_a_string_with_a_link_to_a_missing_id_fails() {
    let string = "link: a -> b\n";

    let result = DataModel::from(string.to_string());

    assert_eq!(
        result,
        Err(ParseError::DanglingReference { id: String::from("a"), line_number: 1 })
    );
}

#[test]
fn parsing_the_same_text_twice_yields_equal_models() {
    let string = "command(c1): \"Add\"\naggregate(a1): \"Thing\"\nlink: c1 -> a1\n";

    let first = DataModel::from(string.to_string()).unwrap();
    let second = DataModel::from(string.to_string()).unwrap();

    assert_eq!(first, second);
}

#[test]
fn duplicate_id_is_reported_whatever_the_kind() {
    let string = "event(x1): \"One\"\npolicy(x1): \"Two\"\n";

    let result = DataModel::from(string.to_string());

    assert_eq!(result, Err(ParseError::DuplicateId { id: String::from("x1"), line_number: 2 }));
}

#[test]
fn link_to_an_id_declared_later_is_still_dangling() {
    let string = "link: c1 -> a1\ncommand(c1): \"Add\"\naggregate(a1): \"Thing\"\n";

    let result = DataModel::from(string.to_string());

    assert_eq!(
        result,
        Err(ParseError::DanglingReference { id: String::from("c1"), line_number: 1 })
    );
}

#[test]
fn link_with_a_missing_end_id_names_that_id() {
    let string = "command(c1): \"Add\"\nlink: c1 -> zz\n";

    let result = DataModel::from(string.to_string());

    assert_eq!(
        result,
        Err(ParseError::DanglingReference { id: String::from("zz"), line_number: 2 })
    );
}

#[test]
fn unrecognized_line_cites_its_line_number() {
    let string = "command(c1): \"Add\"\n\nwhat is this\n";

    let result = DataModel::from(string.to_string());

    assert_eq!(
        result,
        Err(ParseError::Syntax {
            construct: None,
            line_number: 3,
            line: String::from("what is this"),
        })
    );
}

#[test]
fn node_line_that_fails_its_grammar_names_the_construct() {
    let string = "command c1: \"Add\"\n";

    let result = DataModel::from(string.to_string());

    assert_eq!(
        result,
        Err(ParseError::Syntax {
            construct: Some(Construct::Command),
            line_number: 1,
            line: String::from("command c1: \"Add\""),
        })
    );
}

#[test]
fn link_line_that_fails_its_grammar_names_the_construct() {
    let string = "command(c1): \"Add\"\nlink: c1\n";

    let result = DataModel::from(string.to_string());

    assert_eq!(
        result,
        Err(ParseError::Syntax {
            construct: Some(Construct::Link),
            line_number: 2,
            line: String::from("link: c1"),
        })
    );
}

#[test]
fn keywords_match_case_insensitively() {
    let string = "COMMAND(c1): \"Add\"\nAggregate(a1): \"Thing\"\nLINK: c1 -> a1\n";

    let data_model = DataModel::from(string.to_string()).unwrap();

    assert_eq!(
        data_model,
        DataModel {
            nodes: vec![
                node("c1", NodeType::Command, "Add"),
                node("a1", NodeType::Aggregate, "Thing"),
            ],
            links: vec![link("c1", "a1")],
        }
    );
}

#[test]
fn blank_lines_are_skipped_but_counted_for_numbering() {
    let string = "\n   \ncommand(c1): \"Add\"\n\nnonsense\n";

    let result = DataModel::from(string.to_string());

    assert_eq!(
        result,
        Err(ParseError::Syntax {
            construct: None,
            line_number: 5,
            line: String::from("nonsense"),
        })
    );
}

#[test]
fn surrounding_whitespace_is_trimmed() {
    let string = "   command(c1): \"Add\"   \n\t link: c1 -> c1 \n";

    let data_model = DataModel::from(string.to_string()).unwrap();

    assert_eq!(
        data_model,
        DataModel {
            nodes: vec![node("c1", NodeType::Command, "Add")],
            links: vec![link("c1", "c1")],
        }
    );
}

#[test]
fn node_id_may_be_empty() {
    let string = "command(): \"Add\"\n";

    let data_model = DataModel::from(string.to_string()).unwrap();

    assert_eq!(
        data_model,
        DataModel { nodes: vec![node("", NodeType::Command, "Add")], links: vec![] }
    );
}

#[test]
fn closing_parenthesis_is_optional() {
    let string = "command(c1: \"Add\"\n";

    let data_model = DataModel::from(string.to_string()).unwrap();

    assert_eq!(
        data_model,
        DataModel { nodes: vec![node("c1", NodeType::Command, "Add")], links: vec![] }
    );
}

#[test]
fn label_reaches_the_last_quote_of_the_line() {
    let string = "command(c1): \"say \"hi\" twice\"\n";

    let data_model = DataModel::from(string.to_string()).unwrap();

    assert_eq!(
        data_model,
        DataModel { nodes: vec![node("c1", NodeType::Command, "say \"hi\" twice")], links: vec![] }
    );
}

#[test]
fn link_ids_may_be_empty_and_resolve_to_an_empty_node_id() {
    let string = "command(): \"Add\"\nlink:  -> \n";

    let data_model = DataModel::from(string.to_string()).unwrap();

    assert_eq!(
        data_model,
        DataModel { nodes: vec![node("", NodeType::Command, "Add")], links: vec![link("", "")] }
    );
}

#[test]
fn empty_link_id_without_a_matching_node_is_dangling() {
    let string = "command(c1): \"Add\"\nlink:  -> c1\n";

    let result = DataModel::from(string.to_string());

    assert_eq!(
        result,
        Err(ParseError::DanglingReference { id: String::new(), line_number: 2 })
    );
}

#[test]
fn carriage_return_line_endings_are_accepted() {
    let string = "command(c1): \"Add\"\r\nlink: c1 -> c1\r\n";

    let data_model = DataModel::from(string.to_string()).unwrap();

    assert_eq!(
        data_model,
        DataModel {
            nodes: vec![node("c1", NodeType::Command, "Add")],
            links: vec![link("c1", "c1")],
        }
    );
}

#[test]
fn labels_keep_their_text_verbatim() {
    let string = "command(c1): \"Héllo — ångström ✓\"\n";

    let data_model = DataModel::from(string.to_string()).unwrap();

    assert_eq!(
        data_model,
        DataModel {
            nodes: vec![node("c1", NodeType::Command, "Héllo — ångström ✓")],
            links: vec![],
        }
    );
}

#[test]
fn empty_document_parses_to_an_empty_model() {
    let data_model = DataModel::from(String::new()).unwrap();

    assert_eq!(data_model, DataModel { nodes: vec![], links: vec![] });
}

#[test]
fn all_links_resolve_on_parsed_and_hand_built_models() {
    let parsed =
        DataModel::from("command(c1): \"Add\"\nlink: c1 -> c1\n".to_string()).unwrap();
    assert!(parsed.all_links_resolve());

    let broken = DataModel {
        nodes: vec![node("c1", NodeType::Command, "Add")],
        links: vec![link("c1", "zz")],
    };
    assert!(!broken.all_links_resolve());
}
