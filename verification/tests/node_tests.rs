use std::rc::Rc;
use which_cmd::constants::{CHOICE_KEY, INPUT_KEY};
use which_cmd::node::{InputType, Node};

fn create_test_node(id: &str, key: &str, name: &str, value: &str) -> Node {
    Node {
        id: id.to_string(),
        key: key.to_string(),
        name: name.to_string(),
        value: value.to_string(),
        is_immediate: false,
        is_fleeting: false,
        is_anchor: false,
        is_loop: false,
        is_repeatable: false,
        keys: vec![],
        choices: vec![],
        input_type: None,
    }
}

#[test]
fn test_is_leaf_with_no_children() {
    let node = create_test_node("g", "g", "git", "git");
    assert!(node.is_leaf());
}

#[test]
fn test_is_leaf_with_keys() {
    let mut node = create_test_node("g", "g", "git", "git");
    node.keys
        .push(Rc::new(create_test_node("gs", "s", "status", "status")));
    assert!(!node.is_leaf());
}

#[test]
fn test_is_leaf_with_choices() {
    let mut node = create_test_node("g", "g", "git", "git");
    node.choices = vec!["option1".to_string(), "option2".to_string()];
    assert!(!node.is_leaf());
}

#[test]
fn test_is_leaf_with_input() {
    let mut node = create_test_node("g", "g", "git", "git");
    node.input_type = Some(InputType::Text);
    assert!(!node.is_leaf());
}

#[test]
fn test_has_choices_true() {
    let mut node = create_test_node("g", "g", "git", "git");
    node.choices = vec!["option1".to_string()];
    assert!(node.has_choices());
}

#[test]
fn test_has_choices_false() {
    let node = create_test_node("g", "g", "git", "git");
    assert!(!node.has_choices());
}

#[test]
fn test_id_from_parent_with_parent() {
    let id = Node::id_from_parent("git", "s");
    assert_eq!(id, "gits");
}

#[test]
fn test_id_from_parent_without_parent() {
    let id = Node::id_from_parent("", "g");
    assert_eq!(id, "g");
}

#[test]
fn test_set_id_from_parent() {
    let mut node = create_test_node("", "s", "status", "status");
    node.set_id_from_parent("git");
    assert_eq!(node.id, "gits");
}

#[test]
fn test_with_selection_valid_index() {
    let mut node = create_test_node("g", "g", "git", "git");
    node.choices = vec!["branch".to_string(), "commit".to_string()];

    let selected = node.with_selection(0);
    assert!(selected.is_some());

    let selected_node = selected.unwrap();
    assert_eq!(selected_node.key, CHOICE_KEY);
    assert_eq!(selected_node.name, "branch");
    assert_eq!(selected_node.value, "branch");
    assert_eq!(selected_node.id, format!("g{}", CHOICE_KEY));
}

#[test]
fn test_with_selection_invalid_index() {
    let mut node = create_test_node("g", "g", "git", "git");
    node.choices = vec!["branch".to_string()];

    let selected = node.with_selection(5);
    assert!(selected.is_none());
}

#[test]
fn test_with_input() {
    let node = create_test_node("g", "g", "git", "git");
    let input_node = node.with_input("my-branch-name");

    assert_eq!(input_node.key, INPUT_KEY);
    assert_eq!(input_node.name, "my-branch-name");
    assert_eq!(input_node.value, "my-branch-name");
    assert_eq!(input_node.id, format!("gmy-branch-name"));
}

#[test]
fn test_with_selection_second_choice_is_a_plain_leaf() {
    let mut node = create_test_node("gb", "b", "branch", "branch");
    node.choices = vec!["main".to_string(), "dev".to_string()];
    node.is_fleeting = true;
    node.is_loop = true;

    let selected = node.with_selection(1).unwrap();
    assert_eq!(selected.value, "dev");
    assert_eq!(selected.id, "gb[choice]");
    assert!(selected.is_leaf());
    assert!(!selected.is_fleeting);
    assert!(!selected.is_loop);
    assert!(!selected.is_anchor);
    assert!(!selected.is_immediate);
    assert!(!selected.is_repeatable);
}

#[test]
fn test_with_selection_index_equal_to_length() {
    let mut node = create_test_node("g", "g", "git", "git");
    node.choices = vec!["branch".to_string()];
    assert!(node.with_selection(1).is_none());
}

#[test]
fn test_with_input_empty_text() {
    let node = create_test_node("g", "g", "git", "git");
    let input_node = node.with_input("");
    assert_eq!(input_node.id, "g");
    assert_eq!(input_node.key, "[input]");
    assert_eq!(input_node.value, "");
    assert!(input_node.is_leaf());
}

#[test]
fn test_set_id_from_parent_keeps_the_rest() {
    let mut node = create_test_node("old", "s", "status", "status");
    node.is_anchor = true;
    node.choices = vec!["x".to_string()];
    node.set_id_from_parent("");
    assert_eq!(node.id, "s");
    assert_eq!(node.key, "s");
    assert_eq!(node.name, "status");
    assert_eq!(node.value, "status");
    assert!(node.is_anchor);
    assert_eq!(node.choices, vec!["x".to_string()]);
}
