use std::rc::Rc;
use which_cmd::node::Node;
use which_cmd::path::{compose_command, pop_to_first_non_is_fleeting};

fn create_test_node(
    id: &str,
    key: &str,
    name: &str,
    value: &str,
    is_anchor: bool,
    is_fleeting: bool,
) -> Rc<Node> {
    Rc::new(Node {
        id: id.into(),
        key: key.into(),
        name: name.into(),
        value: value.into(),
        is_immediate: false,
        is_fleeting,
        is_anchor,
        is_loop: false,
        is_repeatable: false,
        keys: vec![],
        choices: vec![],
        input_type: None,
    })
}

#[test]
fn test_compose_command_no_anchor() {
    let node1 = create_test_node("g", "g", "git", "git", false, false);
    let node2 = create_test_node("s", "s", "status", "status", false, false);
    let path = vec![node1, node2];
    let command = compose_command(&path);
    assert_eq!(command, "git status");
}

#[test]
fn test_compose_command_with_anchor() {
    let node1 = create_test_node("g", "g", "git", "git", false, false);
    let node2 = create_test_node("h", "h", "GitHub", "gh", true, false);
    let node3 = create_test_node("p", "p", "pull request", "pr", false, false);
    let path = vec![node1, node2, node3];
    let command = compose_command(&path);
    assert_eq!(command, "gh pr");
}

#[test]
fn test_compose_command_empty_path() {
    let path: Vec<Rc<Node>> = vec![];
    let command = compose_command(&path);
    assert_eq!(command, "");
}

#[test]
fn test_compose_command_single_node() {
    let node = create_test_node("g", "g", "git", "git", false, false);
    let path = vec![node];
    let command = compose_command(&path);
    assert_eq!(command, "git");
}

#[test]
fn test_compose_command_with_empty_values() {
    let node1 = create_test_node("g", "g", "git", "git", false, false);
    let node2 = Rc::new(Node {
        id: "s".into(),
        key: "s".into(),
        name: "status".into(),
        value: "".into(), // Empty value
        is_immediate: false,
        is_fleeting: false,
        is_anchor: false,
        is_loop: false,
        is_repeatable: false,
        keys: vec![],
        choices: vec![],
        input_type: None,
    });
    let path = vec![node1, node2];
    let command = compose_command(&path);
    assert_eq!(command, "git ");
}

#[test]
fn test_pop_to_first_non_is_fleeting_empty_path() {
    let mut path: Vec<Rc<Node>> = vec![];
    pop_to_first_non_is_fleeting(&mut path);
    assert_eq!(path.len(), 0);
}

#[test]
fn test_pop_to_first_non_is_fleeting_no_fleeting() {
    let node1 = create_test_node("g", "g", "git", "git", false, false);
    let node2 = create_test_node("s", "s", "status", "status", false, false);

    let mut path = vec![Rc::clone(&node1), Rc::clone(&node2)];
    pop_to_first_non_is_fleeting(&mut path);

    // The last node is popped and put back, so both nodes remain
    assert_eq!(path.len(), 2);
    assert_eq!(path[1].id, "s");
}

#[test]
fn test_pop_to_first_non_is_fleeting_with_fleeting() {
    let node1 = create_test_node("g", "g", "git", "git", false, false);
    let node2 = create_test_node("choice", "c", "choice", "branch-name", false, true);

    let mut path = vec![Rc::clone(&node1), node2];
    pop_to_first_non_is_fleeting(&mut path);

    // Pops through fleeting nodes and stops at the first non-fleeting
    assert_eq!(path.len(), 1);
    assert_eq!(path[0].id, "g");
}

#[test]
fn test_pop_to_first_non_is_fleeting_multiple_fleeting() {
    let node1 = create_test_node("g", "g", "git", "git", false, false);
    let node2 = create_test_node("f1", "f1", "fleeting1", "fleeting1", false, true);
    let node3 = create_test_node("f2", "f2", "fleeting2", "fleeting2", false, true);

    let mut path = vec![Rc::clone(&node1), node2, node3];
    pop_to_first_non_is_fleeting(&mut path);

    // Pops through all fleeting nodes
    assert_eq!(path.len(), 1);
    assert_eq!(path[0].id, "g");
}

#[test]
fn test_pop_to_first_non_is_fleeting_all_fleeting() {
    let node1 = create_test_node("f1", "f1", "fleeting1", "fleeting1", false, true);

    let mut path = vec![node1];
    pop_to_first_non_is_fleeting(&mut path);

    // Every node is fleeting, so the path ends up empty
    assert_eq!(path.len(), 0);
}

#[test]
fn test_compose_command_restarts_at_last_of_two_anchors() {
    let node1 = create_test_node("a", "a", "a", "one", true, false);
    let node2 = create_test_node("ab", "b", "b", "two", false, false);
    let node3 = create_test_node("abc", "c", "c", "three", true, false);
    let node4 = create_test_node("abcd", "d", "d", "four", false, false);
    let path = vec![node1, node2, node3, node4];
    assert_eq!(compose_command(&path), "three four");
}

#[test]
fn test_compose_command_anchor_first_keeps_everything() {
    let node1 = create_test_node("a", "a", "a", "one", true, false);
    let node2 = create_test_node("ab", "b", "b", "two", false, false);
    let path = vec![node1, node2];
    assert_eq!(compose_command(&path), "one two");
}
