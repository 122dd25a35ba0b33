use glue::expression::Expression;
use glue::parser::Parser;
use glue::token::{Attribute, Token, Value};

const SIMPLE_COMMAND: &str =
    "get http://example.com ^$.a.selector ~body=example *header=example >save_example";

const WITH_SELECTOR_NESTED_COMMAND: &str = "get http://example.com/{post http://test.com ^$.id}/";

#[test]
fn it_should_create_expression_from_string() {
    let expression = Expression::from_string(SIMPLE_COMMAND.to_string()).unwrap();

    assert_eq!(expression.tokens.len(), 6);
    assert_eq!(
        expression.token_at(0).unwrap(),
        &Token::Method(Value::new("get".to_string()))
    );
    assert_eq!(
        expression.token_at(1).unwrap(),
        &Token::Url(Value::new("http://example.com".to_string()))
    );
    assert_eq!(
        expression.token_at(2).unwrap(),
        &Token::Selector(Value::new("$.a.selector".to_string()))
    );
    assert_eq!(
        expression.token_at(3).unwrap(),
        &Token::BodyAttribute(Attribute::new("body=example".to_string()))
    );
    assert_eq!(
        expression.token_at(4).unwrap(),
        &Token::HeaderAttribute(Attribute::new("header=example".to_string()))
    );
    assert_eq!(
        expression.token_at(5).unwrap(),
        &Token::SaveAs(Value::new("save_example".to_string()))
    );
}

#[test]
fn it_should_correctly_create_node() {
    let nodes = Parser::parse(SIMPLE_COMMAND.to_string())
        .unwrap()
        .to_nodes()
        .unwrap();

    assert_eq!(nodes.len(), 1);
    assert_eq!(nodes[0].method, "get".to_string());
    assert_eq!(nodes[0].url, "http://example.com".to_string());
    assert_eq!(nodes[0].result_selector, "$.a.selector".to_string());
    assert_eq!(
        nodes[0].save_as.clone().unwrap(),
        "save_example".to_string()
    );
    let body = nodes[0].body.clone().unwrap();
    assert_eq!(
        body.value,
        vec![("body".to_string(), "example".to_string())]
    );
}

#[test]
fn it_should_correctly_parse_references() {
    let nodes = Parser::parse(WITH_SELECTOR_NESTED_COMMAND.to_string())
        .unwrap()
        .to_nodes()
        .unwrap();

    assert_eq!(nodes[0].dependencies.len(), 1);
    assert_eq!(
        nodes[0].dependencies[0].url,
        "http://test.com".to_string()
    );
}

#[test]
fn it_splits_scripts_on_semicolons() {
    let parser = Parser::parse("get http://a.com ; get http://b.com;".to_string()).unwrap();
    let nodes = parser.to_nodes().unwrap();
    assert_eq!(nodes.len(), 2);
    assert_eq!(nodes[0].url, "http://a.com");
    assert_eq!(nodes[1].url, "http://b.com");
}

#[test]
fn it_rejects_an_unknown_method() {
    // an unrecognized first token is neither a method nor at the URL slot
    let err = glue::node::GlueNode::from_string(&"fetch http://example.com".to_string())
        .unwrap_err();
    assert_eq!(err.error, glue::errors::ParserErrorType::InvalidToken);
}

#[test]
fn it_rejects_a_malformed_attribute() {
    let err = glue::node::GlueNode::from_string(&"get http://example.com ~broken".to_string())
        .unwrap_err();
    assert_eq!(err.error, glue::errors::ParserErrorType::MalformedAttribute);
}

#[test]
fn it_reports_a_missing_method() {
    let err = glue::node::GlueNode::from_string(&"^$.a".to_string()).unwrap_err();
    assert_eq!(err.error, glue::errors::ParserErrorType::UnresolvedMethod);
}

#[test]
fn it_reports_a_missing_url() {
    let err = glue::node::GlueNode::from_string(&"get".to_string()).unwrap_err();
    assert_eq!(err.error, glue::errors::ParserErrorType::UnresolvedUrl);
}

#[test]
fn it_rejects_unmatched_braces() {
    let open_err =
        glue::node::GlueNode::from_string(&"get http://x/{get http://y".to_string()).unwrap_err();
    assert_eq!(open_err.error, glue::errors::ParserErrorType::InvalidToken);

    let close_err =
        glue::node::GlueNode::from_string(&"get http://x }".to_string()).unwrap_err();
    assert_eq!(close_err.error, glue::errors::ParserErrorType::InvalidToken);
}

#[test]
fn it_ignores_braces_inside_quotes() {
    let node =
        glue::node::GlueNode::from_string(&r#"get http://x ~v="}{ s""#.to_string()).unwrap();
    assert_eq!(node.dependencies.len(), 0);
}
