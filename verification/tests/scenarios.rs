use glue::errors::RunError;
use glue::heap::{heap, Heap};
use glue::node::GlueNode;
use glue::runner::Runner;
use glue::selector::get_response_value;
use glue::stack::Stack;

/// Drives every layer of one runner in a stack, answering each HTTP call
/// from `responses` by URL.
fn drive(stack: &mut Stack, ri: usize, responses: &[(&str, &str)]) -> Result<(), RunError> {
    let layer_count = stack.runner_layer_count(ri);
    for li in 0..layer_count {
        for ni in stack.runner_layer(ri, li) {
            if let Some(call) = stack.resolve_node(ri, ni)? {
                let response = responses
                    .iter()
                    .find(|(url, _)| *url == call.url)
                    .map(|(_, body)| body.to_string())
                    .unwrap_or_default();
                stack.complete_node(ri, call.node_id, response)?;
            }
        }
    }
    Ok(())
}

#[test]
fn simple_get_runs_and_returns_the_body_verbatim() {
    let mut runner = Runner::from_string(&"get http://example.com".to_string(), false).unwrap();
    let mut h = heap();
    assert_eq!(runner.layer_count(), 1);
    let layer = runner.layer(0);
    assert_eq!(layer.len(), 1);
    let call = runner.resolve_node(layer[0], &mut h).unwrap().unwrap();
    assert_eq!(call.method, "get");
    assert_eq!(call.url, "http://example.com");
    assert!(call.headers.is_none());
    assert!(call.body.is_none());
    runner
        .complete_node(call.node_id, "plain body".to_string(), &mut h)
        .unwrap();
    assert_eq!(runner.result, Some("plain body".to_string()));
}

#[test]
fn nested_dependency_substitutes_the_selected_value() {
    let mut runner = Runner::from_string(
        &"get http://example.com/{post http://test.com ^$.id}/".to_string(),
        false,
    )
    .unwrap();
    let mut h = heap();
    assert_eq!(runner.layer_count(), 2);

    // deepest layer first: the inner POST
    let inner_layer = runner.layer(0);
    assert_eq!(inner_layer.len(), 1);
    let inner_call = runner.resolve_node(inner_layer[0], &mut h).unwrap().unwrap();
    assert_eq!(inner_call.method, "post");
    assert_eq!(inner_call.url, "http://test.com");
    runner
        .complete_node(inner_call.node_id, r#"{"id": "42"}"#.to_string(), &mut h)
        .unwrap();

    // the root sees the substituted URL
    let root_layer = runner.layer(1);
    assert_eq!(root_layer.len(), 1);
    let root_call = runner.resolve_node(root_layer[0], &mut h).unwrap().unwrap();
    assert_eq!(root_call.method, "get");
    assert_eq!(root_call.url, "http://example.com/42/");
}

#[test]
fn quoted_sigils_stay_inside_body_values() {
    let mut node = GlueNode::from_string(
        &r#"get http://example.com ~username=admin ~password="xxx-?|>^-*~xx""#.to_string(),
    )
    .unwrap();
    node.resolve_predicate().unwrap();
    assert_eq!(node.method, "get");
    assert_eq!(node.url, "http://example.com");
    assert_eq!(node.result_selector, "");
    assert!(node.save_as.is_none());
    assert!(node.headers.is_none());
    let body = node.body.unwrap();
    assert_eq!(
        body.value,
        vec![
            ("username".to_string(), "admin".to_string()),
            ("password".to_string(), "xxx-?|>^-*~xx".to_string()),
        ]
    );
}

#[test]
fn header_attributes_are_lowercased_and_unquoted() {
    let mut node = GlueNode::from_string(
        &r#"get http://example.com *Authorization="Bearer xxx-?|>^-*~xx""#.to_string(),
    )
    .unwrap();
    node.resolve_predicate().unwrap();
    assert_eq!(
        node.headers.unwrap(),
        vec![(
            "authorization".to_string(),
            "Bearer xxx-?|>^-*~xx".to_string()
        )]
    );
}

#[test]
fn save_and_reuse_across_runners() {
    let mut stack = Stack::new();
    stack
        .push_runner_from_string(&"get http://service/id ^$.id >token".to_string(), false)
        .unwrap();
    stack
        .push_runner_from_string(&"req token".to_string(), false)
        .unwrap();

    let first = stack.execute_next().unwrap();
    assert_eq!(first, 0);
    drive(&mut stack, first, &[("http://service/id", r#"{"id": "abc123"}"#)]).unwrap();
    let saved = stack.runner_result(first).unwrap();
    assert!(saved.contains("abc123"));
    assert_eq!(stack.heap_get(&"token".to_string()), Some(saved.clone()));

    let second = stack.execute_next().unwrap();
    assert_eq!(second, 1);
    // `req` reads the heap: no HTTP call is asked for
    drive(&mut stack, second, &[]).unwrap();
    assert_eq!(stack.runner_result(second), Some(saved));
}

#[test]
fn a_failing_runner_does_not_block_the_next() {
    let mut stack = Stack::new();
    stack
        .push_runner_from_string(&"req nothing_saved_here".to_string(), false)
        .unwrap();
    stack
        .push_runner_from_string(&"get http://ok.example".to_string(), false)
        .unwrap();

    let first = stack.execute_next().unwrap();
    let err = drive(&mut stack, first, &[]).unwrap_err();
    assert_eq!(
        err,
        RunError::UnresolvedVariable("nothing_saved_here".to_string())
    );

    // the cursor moved before the failure: the next runner still executes
    let second = stack.execute_next().unwrap();
    assert_eq!(second, 1);
    drive(&mut stack, second, &[("http://ok.example", "fine")]).unwrap();
    assert_eq!(stack.runner_result(second), Some("fine".to_string()));
    assert!(stack.execute_next().is_none());
}

#[test]
fn layers_run_deepest_first_and_the_root_last() {
    let runner = Runner::from_string(
        &"get http://a.com/{get http://b.com/{get http://c.com}}/{get http://d.com}".to_string(),
        false,
    )
    .unwrap();
    assert_eq!(runner.layer_count(), 3);
    let depth_of = |ni: usize| runner.nodes[ni].node.depth;
    for li in 0..runner.layer_count() {
        for ni in runner.layer(li) {
            assert_eq!(depth_of(ni), runner.layer_count() - 1 - li);
        }
    }
    let last = runner.layer(runner.layer_count() - 1);
    assert_eq!(last, vec![runner.nodes.len() - 1]);
    assert_eq!(depth_of(last[0]), 0);
}

#[test]
fn selector_modes_and_errors() {
    // empty selector: the response comes back unchanged
    let r = get_response_value(&"".to_string(), &"raw text".to_string(), false, false);
    assert_eq!(r.unwrap(), "raw text");

    // first match, as a plain string
    let r = get_response_value(
        &"$.id".to_string(),
        &r#"{"id": "42", "x": 1}"#.to_string(),
        true,
        false,
    );
    assert_eq!(r.unwrap(), "42");

    // all matches, compact
    let r = get_response_value(
        &"$.a[*]".to_string(),
        &r#"{"a": ["x", "y"]}"#.to_string(),
        false,
        false,
    );
    assert_eq!(r.unwrap(), r#"["x","y"]"#);

    // no match in first-only mode
    let r = get_response_value(&"$.nope".to_string(), &"{}".to_string(), true, false);
    assert!(matches!(r.unwrap_err(), RunError::SelectorNoMatch(_)));

    // a response that is not JSON
    let r = get_response_value(&"$.id".to_string(), &"not json".to_string(), true, false);
    assert!(matches!(r.unwrap_err(), RunError::SelectorInvalid(_)));
}

#[test]
fn heap_saves_and_reads_back() {
    let mut h = Heap::new();
    assert_eq!(h.get(&"k".to_string()), None);
    h.insert("k".to_string(), "v1".to_string());
    h.insert("other".to_string(), "w".to_string());
    assert_eq!(h.get(&"k".to_string()), Some("v1".to_string()));
    h.insert("k".to_string(), "v2".to_string());
    assert_eq!(h.get(&"k".to_string()), Some("v2".to_string()));
    assert_eq!(h.get(&"other".to_string()), Some("w".to_string()));
}

#[test]
fn multiple_holes_fill_in_positional_order() {
    let mut runner = Runner::from_string(
        &"get http://a.com/{get http://b.com}/{get http://c.com}".to_string(),
        false,
    )
    .unwrap();
    let mut h = heap();
    assert_eq!(runner.layer_count(), 2);
    for ni in runner.layer(0) {
        let call = runner.resolve_node(ni, &mut h).unwrap().unwrap();
        let response = if call.url == "http://b.com" { "B" } else { "C" };
        runner
            .complete_node(call.node_id, response.to_string(), &mut h)
            .unwrap();
    }
    let root = runner.layer(1)[0];
    let call = runner.resolve_node(root, &mut h).unwrap().unwrap();
    assert_eq!(call.url, "http://a.com/B/C");
}

#[test]
fn oversized_selector_numbers_are_rejected_before_evaluation() {
    let r = get_response_value(
        &"$[1::9223372036854775807]".to_string(),
        &r#"["a", "b"]"#.to_string(),
        false,
        false,
    );
    assert!(matches!(r.unwrap_err(), RunError::SelectorInvalid(_)));

    // nine-digit literals stay within the guard
    let r = get_response_value(
        &"$[0:2:123456789]".to_string(),
        &r#"["a", "b"]"#.to_string(),
        false,
        false,
    );
    assert_eq!(r.unwrap(), r#"["a"]"#);
}
