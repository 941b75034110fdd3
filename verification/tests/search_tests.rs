use std::rc::Rc;
use which_cmd::node::Node;
use which_cmd::search::{
    format_search_options, format_single_search_option, get_search_options,
    get_search_options_recursively, SearchNode,
};

fn create_test_node(id: &str, key: &str, value: &str, children: Vec<Rc<Node>>) -> Rc<Node> {
    Rc::new(Node {
        id: id.to_string(),
        key: key.to_string(),
        name: value.to_string(),
        value: value.to_string(),
        is_immediate: false,
        is_fleeting: false,
        is_anchor: false,
        is_loop: false,
        is_repeatable: false,
        keys: children,
        choices: vec![],
        input_type: None,
    })
}

#[test]
fn test_format_single_search_option() {
    let search_node = SearchNode {
        id: "gs".to_string(),
        command: "git status".to_string(),
    };

    let formatted = format_single_search_option(&search_node, 15);
    assert!(formatted.contains("git status"));
    assert!(formatted.contains("g > s"));
}

#[test]
fn test_format_search_options_with_padding() {
    let nodes = vec![
        SearchNode {
            id: "g".to_string(),
            command: "git".to_string(),
        },
        SearchNode {
            id: "gs".to_string(),
            command: "git status".to_string(),
        },
    ];

    let formatted = format_search_options(&nodes);
    assert_eq!(formatted.len(), 2);

    // All commands are padded to the same length (longest = "git status" = 10)
    assert!(formatted[0].starts_with("git       ")); // "git" padded to 10 chars
    assert!(formatted[1].starts_with("git status"));
}

#[test]
fn test_format_search_options_empty() {
    let nodes: Vec<SearchNode> = vec![];
    let formatted = format_search_options(&nodes);
    assert_eq!(formatted.len(), 0);
}

#[test]
fn test_get_search_options_single_node() {
    let node = create_test_node("g", "g", "git", vec![]);
    let search_nodes = get_search_options(&[node]);

    // Only children are listed, not the node itself
    assert_eq!(search_nodes.len(), 0);
}

#[test]
fn test_get_search_options_nested() {
    let child = create_test_node("gs", "s", "status", vec![]);
    let parent = create_test_node("g", "g", "git", vec![child]);

    let search_nodes = get_search_options(&[parent]);

    // Only the child (not the parent itself)
    assert_eq!(search_nodes.len(), 1);

    assert_eq!(search_nodes[0].id, "gs");
    assert_eq!(search_nodes[0].command, "git status");
}

#[test]
fn test_get_search_options_multiple_children() {
    let child1 = create_test_node("gs", "s", "status", vec![]);
    let child2 = create_test_node("gc", "c", "commit", vec![]);
    let parent = create_test_node("g", "g", "git", vec![child1, child2]);

    let search_nodes = get_search_options(&[parent]);

    // 2 children (not the parent)
    assert_eq!(search_nodes.len(), 2);

    let ids: Vec<&str> = search_nodes.iter().map(|n| n.id.as_str()).collect();
    assert!(ids.contains(&"gs"));
    assert!(ids.contains(&"gc"));
}

#[test]
fn test_get_search_options_deeply_nested() {
    let grandchild = create_test_node("gca", "a", "--amend", vec![]);
    let child = create_test_node("gc", "c", "commit", vec![grandchild]);
    let parent = create_test_node("g", "g", "git", vec![child]);

    let search_nodes = get_search_options(&[parent]);

    // Child and grandchild (2 total, not the root parent)
    assert_eq!(search_nodes.len(), 2);

    let deepest = search_nodes.iter().find(|n| n.id == "gca");
    assert!(deepest.is_some());
    assert_eq!(deepest.unwrap().command, "git commit --amend");
}

#[test]
fn test_get_search_options_recursively_builds_path() {
    let child = create_test_node("s", "s", "status", vec![]);
    let parent_node = create_test_node("g", "g", "git", vec![]);

    let search_nodes = get_search_options_recursively(&[child], &[parent_node]);

    assert_eq!(search_nodes.len(), 1);
    assert_eq!(search_nodes[0].command, "git status");
}

#[test]
fn test_format_single_search_option_exact_line() {
    let search_node = SearchNode {
        id: "gca".to_string(),
        command: "git commit".to_string(),
    };
    assert_eq!(
        format_single_search_option(&search_node, 12),
        "git commit     g > c > a"
    );
}

#[test]
fn test_format_single_search_option_width_below_command() {
    let search_node = SearchNode {
        id: "g".to_string(),
        command: "git".to_string(),
    };
    assert_eq!(format_single_search_option(&search_node, 0), "git   g");
}

#[test]
fn test_format_single_search_option_empty_identity() {
    let search_node = SearchNode {
        id: "".to_string(),
        command: "ls".to_string(),
    };
    assert_eq!(format_single_search_option(&search_node, 4), "ls     ");
}

#[test]
fn test_format_search_options_exact_lines() {
    let nodes = vec![
        SearchNode {
            id: "gs".to_string(),
            command: "git status".to_string(),
        },
        SearchNode {
            id: "gp".to_string(),
            command: "git pull".to_string(),
        },
    ];
    let formatted = format_search_options(&nodes);
    assert_eq!(formatted[0], "git status   g > s");
    assert_eq!(formatted[1], "git pull     g > p");
}

#[test]
fn test_format_search_options_width_counts_bytes() {
    // "é" is two bytes and one character: the longest command has 3 bytes,
    // and padding counts characters.
    let nodes = vec![
        SearchNode {
            id: "a".to_string(),
            command: "éa".to_string(),
        },
        SearchNode {
            id: "b".to_string(),
            command: "b".to_string(),
        },
    ];
    let formatted = format_search_options(&nodes);
    assert_eq!(formatted[0], "éa    a");
    assert_eq!(formatted[1], "b     b");
}

#[test]
fn test_get_search_options_is_in_pre_order() {
    let a = create_test_node("gca", "a", "--amend", vec![]);
    let c = create_test_node("gc", "c", "commit", vec![a]);
    let s = create_test_node("gs", "s", "status", vec![]);
    let g = create_test_node("g", "g", "git", vec![c, s]);
    let l = create_test_node("dl", "l", "logs", vec![]);
    let d = create_test_node("d", "d", "docker", vec![l]);

    let search_nodes = get_search_options(&[g, d]);
    let ids: Vec<&str> = search_nodes.iter().map(|n| n.id.as_str()).collect();
    assert_eq!(ids, vec!["gc", "gca", "gs", "dl"]);
    let commands: Vec<&str> = search_nodes.iter().map(|n| n.command.as_str()).collect();
    assert_eq!(
        commands,
        vec!["git commit", "git commit --amend", "git status", "docker logs"]
    );
}

#[test]
fn test_get_search_options_command_restarts_at_anchor() {
    let p = create_test_node("ghp", "p", "pr", vec![]);
    let h = Rc::new(Node {
        id: "gh".to_string(),
        key: "h".to_string(),
        name: "GitHub".to_string(),
        value: "gh".to_string(),
        is_immediate: false,
        is_fleeting: false,
        is_anchor: true,
        is_loop: false,
        is_repeatable: false,
        keys: vec![p],
        choices: vec![],
        input_type: None,
    });
    let g = create_test_node("g", "g", "git", vec![h]);
    let search_nodes = get_search_options(&[g]);
    assert_eq!(search_nodes.len(), 2);
    assert_eq!(search_nodes[0].command, "gh");
    assert_eq!(search_nodes[1].id, "ghp");
    assert_eq!(search_nodes[1].command, "gh pr");
}
