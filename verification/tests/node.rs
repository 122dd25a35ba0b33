use glue::node::GlueNode;

const SIMPLE_COMMAND: &str = "get http://example.com";
const SPACED_COMMAND_WITH_BODY: &str =
    r#"get http://example.com ~username=admin ~password="xxx-?|>^-*~xx""#;
const SPACED_COMMAND_WITH_HEADERS: &str =
    r#"get http://example.com *Authorization="Bearer xxx-?|>^-*~xx""#;
const WITH_SELECTOR_NESTED_COMMAND: &str = "get http://example.com/{post http://test.com ^$.id}/";

fn get_node(command: String) -> GlueNode {
    GlueNode::from_string(&command).unwrap()
}

#[test]
fn it_parses_simple_request() {
    let node = get_node(SIMPLE_COMMAND.to_string());
    assert_eq!(node.predicate, SIMPLE_COMMAND.to_string());
}

#[test]
fn it_resolves_method_correctly() {
    let mut node = get_node(SIMPLE_COMMAND.to_string());
    node.resolve_predicate().unwrap();
    assert_eq!(node.method, "get".to_string());
}

#[test]
fn it_resolves_url_correctly() {
    let mut node = get_node(SIMPLE_COMMAND.to_string());
    node.resolve_predicate().unwrap();
    assert_eq!("http://example.com".to_string(), node.url);
}

#[test]
fn it_resolves_dependency_substitution() {
    let mut node = get_node(WITH_SELECTOR_NESTED_COMMAND.to_string());
    assert_eq!(node.dependencies.len(), 1);
    assert_eq!(node.dependencies[0].url, "http://test.com");
    assert_eq!(node.dependencies[0].method, "post");
    assert_eq!(node.dependencies[0].result_selector, "$.id");

    node.dependencies[0].result = "test".to_string();
    node.resolve_dependencies();
    node.resolve_predicate().unwrap();

    assert_eq!(node.url, "http://example.com/test/".to_string());
}

#[test]
fn it_resolves_body_correctly() {
    let mut node = get_node(SPACED_COMMAND_WITH_BODY.to_string());
    node.resolve_predicate().unwrap();
    let body = node.body.clone().unwrap();
    assert_eq!(
        body.value,
        vec![
            ("username".to_string(), "admin".to_string()),
            ("password".to_string(), "xxx-?|>^-*~xx".to_string()),
        ]
    );
}

#[test]
fn it_resolves_headers_correctly() {
    let mut node = get_node(SPACED_COMMAND_WITH_HEADERS.to_string());
    node.resolve_predicate().unwrap();
    assert_eq!(
        node.headers.clone().unwrap(),
        vec![(
            "authorization".to_string(),
            "Bearer xxx-?|>^-*~xx".to_string()
        )]
    );
}

#[test]
fn it_keeps_the_last_duplicate_header() {
    let mut node = get_node("get http://example.com *x-a=1 *x-a=2".to_string());
    node.resolve_predicate().unwrap();
    assert_eq!(
        node.headers.clone().unwrap(),
        vec![("x-a".to_string(), "2".to_string())]
    );
}

#[test]
fn it_parses_a_raw_json_body() {
    let mut node = get_node(r#"post http://example.com ~#-{"a": 1}-#"#.to_string());
    node.resolve_predicate().unwrap();
    let body = node.body.clone().unwrap();
    assert_eq!(body.body_type, glue::request_body::RequestBodyType::ARBITRARY);
    assert_eq!(body.raw, r#"{"a": 1}"#.to_string());
    assert!(body.value.is_empty());
}

#[test]
fn it_counts_one_hole_per_dependency() {
    let node = get_node(
        "get http://example.com/{get http://a.com}/{get http://b.com}/".to_string(),
    );
    let holes = node.predicate.matches("{}").count();
    assert_eq!(node.dependencies.len(), 2);
    assert_eq!(holes, 2);
}

#[test]
fn it_assigns_incremental_depths() {
    let node = get_node("get http://a.com/{get http://b.com/{get http://c.com}}".to_string());
    assert_eq!(node.depth, 0);
    assert_eq!(node.dependencies[0].depth, 1);
    assert_eq!(node.dependencies[0].dependencies[0].depth, 2);
}
