use std::rc::Rc;
use which_cmd::config::{Config, NodeRecord};
use which_cmd::node::{InputType, Node};
use which_cmd::options::Options;
use which_cmd::path::compose_command;
use which_cmd::search::get_search_options;
use which_cmd::tui::{rebuild_path_from_id, Action, Event, Outcome, Session};

fn record(key: &str, name: Option<&str>, value: &str, keys: Vec<NodeRecord>) -> NodeRecord {
    NodeRecord {
        key: key.to_string(),
        name: name.map(|n| n.to_string()),
        value: Some(value.to_string()),
        immediate: false,
        fleeting: false,
        anchor: false,
        loop_: false,
        repeatable: false,
        keys,
        choices: vec![],
        input: None,
    }
}

fn options(print_immediate_tag: bool) -> Options {
    Options {
        print_immediate_tag,
        border: false,
        height: 10,
    }
}

fn keys_of(path: &[Rc<Node>]) -> Vec<String> {
    path.iter().map(|n| n.key.clone()).collect()
}

fn ids_of(nodes: &[Rc<Node>]) -> Vec<String> {
    nodes.iter().map(|n| n.id.clone()).collect()
}

// g -> z -> p (loop) -> u, m
fn stash_config() -> Config {
    let mut push = record(
        "p",
        None,
        "push",
        vec![
            record("u", Some("untracked"), "--include-untracked", vec![]),
            record("m", Some("message"), "-m", vec![]),
        ],
    );
    push.loop_ = true;
    let records = vec![record(
        "g",
        None,
        "git",
        vec![record("z", None, "stash", vec![push])],
    )];
    Config::from_records(&records).unwrap()
}

// a (loop) -> b (repeatable), c
fn loop_config() -> Config {
    let mut b = record("b", None, "--bee", vec![]);
    b.repeatable = true;
    let c = record("c", None, "--cee", vec![]);
    let mut a = record("a", None, "app", vec![b, c]);
    a.loop_ = true;
    Config::from_records(&vec![a]).unwrap()
}

// g -> s
fn git_config() -> Config {
    Config::from_records(&vec![record(
        "g",
        None,
        "git",
        vec![record("s", None, "status", vec![])],
    )])
    .unwrap()
}

#[test]
fn test_loop_node_detection_after_search() {
    let config = stash_config();

    // What happens after a search: the path is rebuilt from the identity "gzp"
    let selected_id = "gzp";
    let (path, loop_node_index) = rebuild_path_from_id(selected_id, &config.keys);

    assert_eq!(path.len(), 3);
    assert_eq!(path[0].key, "g");
    assert_eq!(path[1].key, "z");
    assert_eq!(path[2].key, "p");
    assert!(path[2].is_loop, "The 'p' node should have is_loop = true");

    assert!(
        loop_node_index.is_some(),
        "loop_node_index should be set after navigating to a loop node via search"
    );
    assert_eq!(
        loop_node_index,
        Some(2),
        "loop_node_index should point to the loop node at index 2"
    );
}

#[test]
fn test_rebuild_path_stops_at_first_unmatched_character() {
    let config = stash_config();
    let (path, loop_node_index) = rebuild_path_from_id("gxp", &config.keys);
    assert_eq!(keys_of(&path), vec!["g"]);
    assert_eq!(loop_node_index, None);

    let (path, _) = rebuild_path_from_id("xg", &config.keys);
    assert!(path.is_empty());

    let (path, loop_node_index) = rebuild_path_from_id("", &config.keys);
    assert!(path.is_empty());
    assert_eq!(loop_node_index, None);
}

#[test]
fn test_rebuild_path_reports_the_last_loop_node() {
    let mut inner = record("i", None, "inner", vec![record("x", None, "x", vec![])]);
    inner.loop_ = true;
    let mut outer = record("o", None, "outer", vec![inner]);
    outer.loop_ = true;
    let config = Config::from_records(&vec![outer]).unwrap();
    let (path, loop_node_index) = rebuild_path_from_id("oix", &config.keys);
    assert_eq!(path.len(), 3);
    assert_eq!(loop_node_index, Some(1));
    let (_, loop_node_index) = rebuild_path_from_id("o", &config.keys);
    assert_eq!(loop_node_index, Some(0));
}

#[test]
fn test_rebuilt_path_composes_the_indexed_command() {
    let mut hub = record("h", None, "gh", vec![record("p", None, "pr", vec![])]);
    hub.anchor = true;
    let records = vec![
        record(
            "g",
            None,
            "git",
            vec![
                record("c", None, "commit", vec![record("a", None, "--amend", vec![])]),
                hub,
            ],
        ),
        record("d", None, "docker", vec![record("l", None, "logs", vec![])]),
    ];
    let config = Config::from_records(&records).unwrap();
    let index = get_search_options(&config.keys);
    assert_eq!(index.len(), 5);
    for entry in index.iter() {
        let (path, _) = rebuild_path_from_id(&entry.id, &config.keys);
        assert_eq!(path.last().unwrap().id, entry.id);
        assert_eq!(compose_command(&path), entry.command);
    }
    assert_eq!(index[3].id, "ghp");
    assert_eq!(index[3].command, "gh pr");
}

#[test]
fn test_select_two_keys_confirms_the_command() {
    let config = git_config();
    let opts = options(false);
    let mut session = Session::new();
    assert!(matches!(
        session.step(&config, &opts, Event::Key('g')),
        Action::Continue
    ));
    assert!(session.is_pending());
    assert!(matches!(
        session.step(&config, &opts, Event::Key('s')),
        Action::Finished
    ));
    assert!(matches!(&session.outcome, Outcome::Confirmed(c) if c == "git status"));
    assert_eq!(session.output(), "git status");
}

#[test]
fn test_backtrack_twice_leaves_an_empty_pending_session() {
    let config = git_config();
    let opts = options(false);
    let mut session = Session::new();
    session.step(&config, &opts, Event::Key('g'));
    assert_eq!(session.path.len(), 1);
    assert!(matches!(
        session.step(&config, &opts, Event::Backtrack),
        Action::Continue
    ));
    assert!(session.path.is_empty());
    assert!(matches!(
        session.step(&config, &opts, Event::Backtrack),
        Action::Continue
    ));
    assert!(session.path.is_empty());
    assert!(matches!(session.outcome, Outcome::Pending));
    assert_eq!(session.output(), "");
}

#[test]
fn test_loop_menu_offers_repeatable_again_and_taken_nodes_once() {
    let config = loop_config();
    let opts = options(false);
    let mut session = Session::new();
    session.step(&config, &opts, Event::Key('a'));
    assert_eq!(session.loop_node_index, Some(0));
    assert_eq!(ids_of(&session.current_menu(&config)), vec!["ab", "ac"]);

    assert!(matches!(
        session.step(&config, &opts, Event::Key('b')),
        Action::Continue
    ));
    assert!(session.is_pending());
    assert_eq!(keys_of(&session.path), vec!["a", "b"]);
    assert_eq!(ids_of(&session.current_menu(&config)), vec!["ab", "ac"]);

    session.step(&config, &opts, Event::Key('c'));
    assert_eq!(keys_of(&session.path), vec!["a", "b", "c"]);
    assert_eq!(ids_of(&session.current_menu(&config)), vec!["ab"]);

    session.step(&config, &opts, Event::Key('b'));
    assert_eq!(keys_of(&session.path), vec!["a", "b", "c", "b"]);
    assert!(matches!(
        session.step(&config, &opts, Event::Confirm),
        Action::Finished
    ));
    assert_eq!(session.output(), "app --bee --cee --bee");
}

#[test]
fn test_key_taken_in_loop_is_invalid_afterwards() {
    let config = loop_config();
    let opts = options(false);
    let mut session = Session::new();
    session.step(&config, &opts, Event::Key('a'));
    session.step(&config, &opts, Event::Key('c'));
    assert!(matches!(
        session.step(&config, &opts, Event::Key('c')),
        Action::InvalidKey('c')
    ));
    assert_eq!(keys_of(&session.path), vec!["a", "c"]);
}

#[test]
fn test_backtrack_out_of_loop_clears_the_loop_position() {
    let config = loop_config();
    let opts = options(false);
    let mut session = Session::new();
    session.step(&config, &opts, Event::Key('a'));
    session.step(&config, &opts, Event::Key('b'));
    session.step(&config, &opts, Event::Backtrack);
    assert_eq!(keys_of(&session.path), vec!["a"]);
    assert_eq!(session.loop_node_index, Some(0));
    session.step(&config, &opts, Event::Backtrack);
    assert!(session.path.is_empty());
    assert_eq!(session.loop_node_index, None);
}

#[test]
fn test_unmatched_key_changes_nothing() {
    let config = git_config();
    let opts = options(false);
    let mut session = Session::new();
    assert!(matches!(
        session.step(&config, &opts, Event::Key('x')),
        Action::InvalidKey('x')
    ));
    assert!(session.path.is_empty());
    assert!(session.is_pending());
}

#[test]
fn test_confirm_on_empty_path_changes_nothing() {
    let config = git_config();
    let opts = options(false);
    let mut session = Session::new();
    assert!(matches!(
        session.step(&config, &opts, Event::Confirm),
        Action::NothingToConfirm
    ));
    assert!(session.is_pending());
}

#[test]
fn test_confirm_accepts_a_node_that_is_no_leaf() {
    let config = git_config();
    let opts = options(false);
    let mut session = Session::new();
    session.step(&config, &opts, Event::Key('g'));
    assert!(matches!(
        session.step(&config, &opts, Event::Confirm),
        Action::Finished
    ));
    assert_eq!(session.output(), "git");
}

#[test]
fn test_abort_ends_without_a_command() {
    let config = git_config();
    let opts = options(false);
    let mut session = Session::new();
    session.step(&config, &opts, Event::Key('g'));
    assert!(matches!(
        session.step(&config, &opts, Event::Abort),
        Action::Finished
    ));
    assert!(matches!(session.outcome, Outcome::Cancelled));
    assert_eq!(session.output(), "");
}

#[test]
fn test_finished_session_ignores_events() {
    let config = git_config();
    let opts = options(false);
    let mut session = Session::new();
    session.step(&config, &opts, Event::Key('g'));
    session.step(&config, &opts, Event::Key('s'));
    assert!(matches!(
        session.step(&config, &opts, Event::Backtrack),
        Action::Finished
    ));
    assert_eq!(session.path.len(), 2);
    assert_eq!(session.output(), "git status");
}

#[test]
fn test_immediate_leaf_gets_the_marker_when_asked_for() {
    let mut status = record("s", None, "status", vec![]);
    status.immediate = true;
    let config =
        Config::from_records(&vec![record("g", None, "git", vec![status])]).unwrap();

    let mut tagged = Session::new();
    tagged.step(&config, &options(true), Event::Key('g'));
    tagged.step(&config, &options(true), Event::Key('s'));
    assert_eq!(tagged.output(), "__IMMEDIATE__ git status");

    let mut plain = Session::new();
    plain.step(&config, &options(false), Event::Key('g'));
    plain.step(&config, &options(false), Event::Key('s'));
    assert_eq!(plain.output(), "git status");

    let mut confirmed = Session::new();
    confirmed.step(&config, &options(true), Event::Key('g'));
    confirmed.step(&config, &options(true), Event::Confirm);
    assert_eq!(confirmed.output(), "git");
}

fn choice_config() -> Config {
    let mut branch = record("b", Some("branch"), "checkout", vec![]);
    branch.choices = vec!["main".to_string(), "dev".to_string()];
    let mut count = record("n", Some("count"), "-n", vec![]);
    count.input = Some(InputType::Number);
    Config::from_records(&vec![record("g", None, "git", vec![branch, count])]).unwrap()
}

#[test]
fn test_choice_pushes_a_node_for_the_entry_picked() {
    let config = choice_config();
    let opts = options(false);
    let mut session = Session::new();
    session.step(&config, &opts, Event::Key('g'));
    match session.step(&config, &opts, Event::Key('b')) {
        Action::Choose(list) => assert_eq!(list, vec!["main".to_string(), "dev".to_string()]),
        other => panic!("expected a choice dialog, got {:?}", other),
    }
    assert!(matches!(
        session.step(&config, &opts, Event::Choice(Some(1))),
        Action::Continue
    ));
    assert_eq!(keys_of(&session.path), vec!["g", "b", "[choice]"]);
    assert_eq!(session.path[2].id, "gb[choice]");
    assert_eq!(session.path[2].value, "dev");
    assert!(session.current_menu(&config).is_empty());
    session.step(&config, &opts, Event::Confirm);
    assert_eq!(session.output(), "git checkout dev");
}

#[test]
fn test_cancelled_choice_unwinds_the_fleeting_node() {
    let config = choice_config();
    let opts = options(false);
    let mut session = Session::new();
    session.step(&config, &opts, Event::Key('g'));
    session.step(&config, &opts, Event::Key('b'));
    session.step(&config, &opts, Event::Choice(None));
    assert_eq!(keys_of(&session.path), vec!["g"]);
    assert!(session.is_pending());
}

#[test]
fn test_choice_out_of_range_unwinds_like_a_cancel() {
    let config = choice_config();
    let opts = options(false);
    let mut session = Session::new();
    session.step(&config, &opts, Event::Key('g'));
    session.step(&config, &opts, Event::Key('b'));
    session.step(&config, &opts, Event::Choice(Some(2)));
    assert_eq!(keys_of(&session.path), vec!["g"]);
}

#[test]
fn test_backtrack_after_choice_undoes_the_whole_interaction() {
    let config = choice_config();
    let opts = options(false);
    let mut session = Session::new();
    session.step(&config, &opts, Event::Key('g'));
    session.step(&config, &opts, Event::Key('b'));
    session.step(&config, &opts, Event::Choice(Some(0)));
    assert_eq!(session.path.len(), 3);
    session.step(&config, &opts, Event::Backtrack);
    assert_eq!(keys_of(&session.path), vec!["g"]);
}

#[test]
fn test_input_pushes_a_node_for_the_text_typed() {
    let config = choice_config();
    let opts = options(false);
    let mut session = Session::new();
    session.step(&config, &opts, Event::Key('g'));
    match session.step(&config, &opts, Event::Key('n')) {
        Action::Prompt(kind, label) => {
            assert_eq!(kind, InputType::Number);
            assert_eq!(label, "count");
        }
        other => panic!("expected an input dialog, got {:?}", other),
    }
    session.step(&config, &opts, Event::Input(Some("42".to_string())));
    assert_eq!(keys_of(&session.path), vec!["g", "n", "[input]"]);
    assert_eq!(session.path[2].id, "gn42");
    assert_eq!(session.path[2].name, "42");
    session.step(&config, &opts, Event::Confirm);
    assert_eq!(session.output(), "git -n 42");
}

#[test]
fn test_cancelled_input_unwinds_the_fleeting_node() {
    let config = choice_config();
    let opts = options(false);
    let mut session = Session::new();
    session.step(&config, &opts, Event::Key('g'));
    session.step(&config, &opts, Event::Key('n'));
    session.step(&config, &opts, Event::Input(None));
    assert_eq!(keys_of(&session.path), vec!["g"]);
}

#[test]
fn test_search_lists_everything_below_the_top_level() {
    let config = stash_config();
    let opts = options(false);
    let mut session = Session::new();
    match session.step(&config, &opts, Event::Key('/')) {
        Action::Search(list) => {
            let ids: Vec<&str> = list.iter().map(|n| n.id.as_str()).collect();
            assert_eq!(ids, vec!["gz", "gzp", "gzpu", "gzpm"]);
            assert_eq!(list[2].command, "git stash push --include-untracked");
        }
        other => panic!("expected a search dialog, got {:?}", other),
    }
    assert!(session.path.is_empty());
}

#[test]
fn test_search_result_replaces_the_path_and_the_loop_position() {
    let config = stash_config();
    let opts = options(false);
    let mut session = Session::new();
    session.step(&config, &opts, Event::Key('/'));
    assert!(matches!(
        session.step(&config, &opts, Event::Search(Some(1))),
        Action::Continue
    ));
    assert_eq!(keys_of(&session.path), vec!["g", "z", "p"]);
    assert_eq!(session.loop_node_index, Some(2));
    assert_eq!(ids_of(&session.current_menu(&config)), vec!["gzpu", "gzpm"]);
    session.step(&config, &opts, Event::Key('u'));
    assert!(session.is_pending());
    assert_eq!(ids_of(&session.current_menu(&config)), vec!["gzpm"]);
}

#[test]
fn test_search_from_a_path_lists_what_lies_below_its_nodes() {
    let config = stash_config();
    let opts = options(false);
    let mut session = Session::new();
    session.step(&config, &opts, Event::Key('g'));
    session.step(&config, &opts, Event::Key('z'));
    match session.step(&config, &opts, Event::Key('/')) {
        Action::Search(list) => {
            let ids: Vec<&str> = list.iter().map(|n| n.id.as_str()).collect();
            assert_eq!(
                ids,
                vec!["gz", "gzp", "gzpu", "gzpm", "gzp", "gzpu", "gzpm"]
            );
            assert_eq!(list[4].command, "stash push");
        }
        other => panic!("expected a search dialog, got {:?}", other),
    }
    session.step(&config, &opts, Event::Search(Some(5)));
    assert_eq!(keys_of(&session.path), vec!["g", "z", "p", "u"]);
    assert_eq!(session.loop_node_index, Some(2));
}

#[test]
fn test_cancelled_search_keeps_a_path_without_fleeting_tail() {
    let config = stash_config();
    let opts = options(false);
    let mut session = Session::new();
    session.step(&config, &opts, Event::Key('g'));
    session.step(&config, &opts, Event::Key('/'));
    session.step(&config, &opts, Event::Search(None));
    assert_eq!(keys_of(&session.path), vec!["g"]);
    session.step(&config, &opts, Event::Search(Some(99)));
    assert_eq!(keys_of(&session.path), vec!["g"]);
}

#[test]
fn test_node_bound_to_slash_wins_over_search() {
    let config =
        Config::from_records(&vec![record("/", None, "root", vec![record("a", None, "a", vec![])])])
            .unwrap();
    let opts = options(false);
    let mut session = Session::new();
    assert!(matches!(
        session.step(&config, &opts, Event::Key('/')),
        Action::Continue
    ));
    assert_eq!(keys_of(&session.path), vec!["/"]);
}

#[test]
fn test_backtrack_on_all_fleeting_path_empties_it() {
    let mut first = record("a", None, "a", vec![]);
    first.fleeting = true;
    let mut second = record("b", None, "b", vec![record("c", None, "c", vec![])]);
    second.fleeting = true;
    first.keys = vec![second];
    let config = Config::from_records(&vec![first]).unwrap();
    let opts = options(false);
    let mut session = Session::new();
    session.step(&config, &opts, Event::Key('a'));
    session.step(&config, &opts, Event::Key('b'));
    assert_eq!(session.path.len(), 2);
    session.step(&config, &opts, Event::Backtrack);
    assert!(session.path.is_empty());
}

#[test]
fn test_later_anchor_discards_what_was_composed_before() {
    let mut hub = record("h", Some("GitHub"), "gh", vec![record("p", None, "pr", vec![])]);
    hub.anchor = true;
    let config = Config::from_records(&vec![record("g", None, "git", vec![hub])]).unwrap();
    let opts = options(false);
    let mut session = Session::new();
    session.step(&config, &opts, Event::Key('g'));
    session.step(&config, &opts, Event::Key('h'));
    session.step(&config, &opts, Event::Key('p'));
    assert_eq!(session.output(), "gh pr");
}
