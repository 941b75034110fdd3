use crate::config::{copy_texts, lemma_valid_children, node_keys, valid_node, valid_tree, Config};
use crate::constants::{CHOICE_KEY, IMMEDIATE_PREFIX};
use crate::node::{child_id, share, InputType, Node};
use crate::key::Key;
use crate::options::Options;
use crate::path::{
    compose, compose_command, lemma_trim_all_fleeting, lemma_trim_fleeting,
    pop_to_first_non_is_fleeting, trim_fleeting,
};
use crate::search::{
    entries, flatten, flatten_roots, get_search_options, SearchEntry, SearchNode,
};
use crate::style::{spans, styled, Span, SpanView, Style};
use crate::text::{pad_right, padded, push_char};
use std::rc::Rc;
use vstd::prelude::*;
use vstd::string::*;

verus! {

/// How a session stands: still running, ended with a command, or given up.
#[derive(Debug)]
pub enum Outcome {
    Pending,
    Confirmed(String),
    Cancelled,
}

/// An `Outcome` with its command as a plain sequence of characters.
pub enum OutcomeView {
    Pending,
    Confirmed(Seq<char>),
    Cancelled,
}

impl View for Outcome {
    type V = OutcomeView;

    open spec fn view(&self) -> OutcomeView {
        match self {
            Outcome::Pending => OutcomeView::Pending,
            Outcome::Confirmed(command) => OutcomeView::Confirmed(command@),
            Outcome::Cancelled => OutcomeView::Cancelled,
        }
    }
}

/// The state of one interactive session: the nodes selected so far, root
/// first; the position on the path of the loop node entered last, if its
/// menu is still being offered; and how the session stands.
#[derive(Debug)]
pub struct Session {
    pub path: Vec<Rc<Node>>,
    pub loop_node_index: Option<usize>,
    pub outcome: Outcome,
}

/// What the user or a dialog did.
#[derive(Debug)]
pub enum Event {
    /// A character key was pressed.
    Key(char),
    /// The backtrack key was pressed.
    Backtrack,
    /// The accept key was pressed.
    Confirm,
    /// The session was given up.
    Abort,
    /// The choice dialog ended: with the index of the entry picked, or
    /// without one.
    Choice(Option<usize>),
    /// The input dialog ended: with the text typed, or without one.
    Input(Option<String>),
    /// The search dialog ended: with the index of the entry picked, or
    /// without one.
    Search(Option<usize>),
}

/// What the terminal is to do next.
#[derive(Debug)]
pub enum Action {
    /// Show the menu and wait for the next key.
    Continue,
    /// Let the user pick one of these entries, and report it as
    /// `Event::Choice`.
    Choose(Vec<String>),
    /// Ask for text of this kind under this label, and report it as
    /// `Event::Input`.
    Prompt(InputType, String),
    /// Let the user search these entries, and report the pick as
    /// `Event::Search`.
    Search(Vec<SearchNode>),
    /// Tell the user that this key selects nothing, then go on.
    InvalidKey(char),
    /// Tell the user that there is nothing to confirm, then go on.
    NothingToConfirm,
    /// The session is over.
    Finished,
}

/// `node` is triggered by the key `c`.
pub open spec fn has_key(node: Rc<Node>, c: char) -> bool {
    node.key@ == seq![c]
}

/// The position of the first of `nodes` that `c` triggers.
pub open spec fn find_key(nodes: Seq<Rc<Node>>, c: char) -> Option<int>
    decreases nodes.len(),
{
    if nodes.len() == 0 {
        None
    } else {
        match find_key(nodes.drop_last(), c) {
            Some(k) => Some(k),
            None => if has_key(nodes.last(), c) {
                Some(nodes.len() - 1)
            } else {
                None
            },
        }
    }
}

/// Some node of `path` has the identity of `node`.
pub open spec fn on_path(path: Seq<Rc<Node>>, node: Rc<Node>) -> bool {
    exists|i: int| 0 <= i < path.len() && (#[trigger] path[i]).id@ == node.id@
}

/// A loop menu offers `node` when it is repeatable or not yet on the path.
pub open spec fn offered(node: Rc<Node>, path: Seq<Rc<Node>>) -> bool {
    node.is_repeatable || !on_path(path, node)
}

/// Those of `children` that a loop menu offers, in order.
pub open spec fn loop_menu(children: Seq<Rc<Node>>, path: Seq<Rc<Node>>) -> Seq<Rc<Node>>
    decreases children.len(),
{
    if children.len() == 0 {
        Seq::<Rc<Node>>::empty()
    } else if offered(children.last(), path) {
        loop_menu(children.drop_last(), path).push(children.last())
    } else {
        loop_menu(children.drop_last(), path)
    }
}

/// The menu shown for a path: the top-level nodes for an empty path; the
/// loop node's children that are still offered, when a loop is active and the
/// path ends in a leaf; otherwise the children of the last node.
pub open spec fn menu(path: Seq<Rc<Node>>, loop_index: Option<usize>, roots: Seq<Rc<Node>>) -> Seq<
    Rc<Node>,
> {
    if path.len() == 0 {
        roots
    } else if loop_index is Some && loop_index->0 < path.len() && path.last().leaf() {
        loop_menu(path[loop_index->0 as int].keys@, path)
    } else {
        path.last().keys@
    }
}

/// The loop position that is left after the path shrank to `len` nodes: none
/// if the path no longer holds it.
pub open spec fn clamped(loop_index: Option<usize>, len: nat) -> Option<usize> {
    if loop_index is Some && loop_index->0 >= len {
        None
    } else {
        loop_index
    }
}

/// The position of the last loop node on the path.
pub open spec fn last_loop(path: Seq<Rc<Node>>) -> Option<usize>
    decreases path.len(),
{
    if path.len() == 0 {
        None
    } else if path.last().is_loop {
        Some((path.len() - 1) as usize)
    } else {
        last_loop(path.drop_last())
    }
}

/// The path that an identity leads to: its characters are taken one by one,
/// each selects the first candidate it triggers, whose children are the next
/// candidates; the walk ends at the first character that triggers none.
pub open spec fn rebuild(id: Seq<char>, candidates: Seq<Rc<Node>>) -> Seq<Rc<Node>>
    decreases id.len(),
{
    if id.len() == 0 {
        Seq::<Rc<Node>>::empty()
    } else {
        match find_key(candidates, id[0]) {
            None => Seq::<Rc<Node>>::empty(),
            Some(k) => seq![candidates[k]] + rebuild(id.drop_first(), candidates[k].keys@),
        }
    }
}

/// The text a session ends with: the command of the path, behind the
/// immediate marker and a space when the marker is asked for and the last
/// node is flagged immediate.
pub open spec fn result_text(path: Seq<Rc<Node>>, tag: bool) -> Seq<char> {
    if tag && path.len() > 0 && path.last().is_immediate {
        IMMEDIATE_PREFIX@ + seq![' '] + compose(path)
    } else {
        compose(path)
    }
}

/// What a search from this path lists: everything below the top-level nodes
/// for an empty path, everything below the nodes of the path otherwise.
pub open spec fn search_scope(path: Seq<Rc<Node>>, roots: Seq<Rc<Node>>) -> Seq<SearchEntry> {
    if path.len() == 0 {
        flatten_roots(roots)
    } else {
        flatten_roots(path)
    }
}

/// What `find_key` finds is a position of the list, the node there is
/// triggered by `c`, and no earlier node is; where it finds nothing, no node
/// is triggered by `c`.
pub proof fn lemma_find_key(nodes: Seq<Rc<Node>>, c: char)
    ensures
        match find_key(nodes, c) {
            Some(k) => 0 <= k < nodes.len() && has_key(nodes[k], c) && forall|i: int|
                0 <= i < k ==> !has_key(#[trigger] nodes[i], c),
            None => forall|i: int| 0 <= i < nodes.len() ==> !has_key(#[trigger] nodes[i], c),
        },
    decreases nodes.len(),
{
    if nodes.len() > 0 {
        let front = nodes.drop_last();
        lemma_find_key(front, c);
        match find_key(front, c) {
            Some(k) => {
                assert(front[k] == nodes[k]);
                assert forall|i: int| 0 <= i < k implies !has_key(#[trigger] nodes[i], c) by {
                    assert(front[i] == nodes[i]);
                }
            },
            None => {
                assert forall|i: int| 0 <= i < nodes.len() - 1 implies !has_key(
                    #[trigger] nodes[i],
                    c,
                ) by {
                    assert(front[i] == nodes[i]);
                }
            },
        }
    }
}

/// A node found among the first `k` candidates is the one found among all.
pub proof fn lemma_find_key_prefix(nodes: Seq<Rc<Node>>, c: char, k: int)
    requires
        0 <= k <= nodes.len(),
        find_key(nodes.take(k), c) is Some,
    ensures
        find_key(nodes, c) == find_key(nodes.take(k), c),
    decreases nodes.len() - k,
{
    if k < nodes.len() {
        assert(nodes.take(k + 1).drop_last() =~= nodes.take(k));
        lemma_find_key_prefix(nodes, c, k + 1);
    } else {
        assert(nodes.take(k) =~= nodes);
    }
}

/// Whether the key `c` triggers `node`.
fn triggers(node: &Node, c: char) -> (hit: bool)
    ensures
        hit == (node.key@ == seq![c]),
{
    let key = node.key.as_str();
    if key.unicode_len() != 1 {
        return false;
    }
    let hit = key.get_char(0) == c;
    proof {
        if hit {
            assert(node.key@ =~= seq![c]);
        }
    }
    hit
}

/// The position of the first of `nodes` that `c` triggers.
fn position_of_key(nodes: &[Rc<Node>], c: char) -> (found: Option<usize>)
    ensures
        match found {
            Some(k) => find_key(nodes@, c) == Some(k as int) && k < nodes@.len(),
            None => find_key(nodes@, c) is None,
        },
{
    let mut i: usize = 0;
    while i < nodes.len()
        invariant
            i <= nodes@.len(),
            find_key(nodes@.take(i as int), c) is None,
        decreases nodes@.len() - i,
    {
        proof {
            assert(nodes@.take(i + 1).drop_last() =~= nodes@.take(i as int));
            assert(nodes@.take(i + 1).last() == nodes@[i as int]);
        }
        if triggers(&nodes[i], c) {
            proof {
                lemma_find_key_prefix(nodes@, c, i + 1);
            }
            return Some(i);
        }
        i += 1;
    }
    proof {
        assert(nodes@.take(i as int) =~= nodes@);
    }
    None
}

/// Walks from `root_keys` along the characters of `node_id` and returns the
/// nodes passed, with the position of the last loop node among them. The walk
/// ends at the first character that triggers no candidate.
pub fn rebuild_path_from_id(node_id: &str, root_keys: &[Rc<Node>]) -> (r: (
    Vec<Rc<Node>>,
    Option<usize>,
))
    ensures
        r.0@ == rebuild(node_id@, root_keys@),
        r.1 == last_loop(r.0@),
{
    let mut path: Vec<Rc<Node>> = Vec::new();
    let mut loop_node_index: Option<usize> = None;
    let mut lookup: &[Rc<Node>] = root_keys;
    let count = node_id.unicode_len();
    let mut i: usize = 0;
    proof {
        assert(node_id@.skip(0) =~= node_id@);
        assert(path@ + rebuild(node_id@, root_keys@) =~= rebuild(node_id@, root_keys@));
    }
    while i < count
        invariant
            i <= count,
            count == node_id@.len(),
            rebuild(node_id@, root_keys@) == path@ + rebuild(node_id@.skip(i as int), lookup@),
            loop_node_index == last_loop(path@),
        ensures
            rebuild(node_id@, root_keys@) == path@,
            loop_node_index == last_loop(path@),
        decreases count - i,
    {
        let ghost rest = node_id@.skip(i as int);
        proof {
            assert(rest[0] == node_id@[i as int]);
            assert(rest.drop_first() =~= node_id@.skip(i + 1));
        }
        let part = node_id.get_char(i);
        match position_of_key(lookup, part) {
            None => {
                proof {
                    assert(path@ + Seq::<Rc<Node>>::empty() =~= path@);
                }
                break ;
            },
            Some(k) => {
                let node = &lookup[k];
                let ghost before = path@;
                path.push(share(node));
                proof {
                    assert(path@.drop_last() =~= before);
                    assert(before + (seq![lookup@[k as int]] + rebuild(
                        node_id@.skip(i + 1),
                        lookup@[k as int].keys@,
                    )) =~= path@ + rebuild(node_id@.skip(i + 1), lookup@[k as int].keys@));
                }
                if node.is_loop {
                    loop_node_index = Some(path.len() - 1);
                }
                lookup = node.keys.as_slice();
            },
        }
        i += 1;
    }
    proof {
        if i == count {
            assert(node_id@.skip(i as int) =~= Seq::<char>::empty());
            assert(path@ + Seq::<Rc<Node>>::empty() =~= path@);
        }
    }
    (path, loop_node_index)
}

/// The session did not change.
pub open spec fn unchanged(before: Session, after: Session) -> bool {
    &&& after.path@ == before.path@
    &&& after.loop_node_index == before.loop_node_index
    &&& after.outcome@ == before.outcome@
}

/// The path lost its trailing fleeting nodes, and the loop position with
/// them if the path no longer holds it; the session goes on.
pub open spec fn unwound(before: Session, after: Session) -> bool {
    &&& after.path@ == trim_fleeting(before.path@)
    &&& after.loop_node_index == clamped(before.loop_node_index, after.path@.len())
    &&& after.outcome is Pending
}

/// What a character key does. The first menu entry that the key triggers is
/// pushed; a loop node becomes the loop position. A leaf outside a loop ends
/// the session with the command of the path; a node with choices or a prompt
/// opens its dialog. A key that triggers nothing opens the search if it is
/// `/`, and is reported as invalid otherwise.
pub open spec fn key_pressed(
    before: Session,
    after: Session,
    action: Action,
    roots: Seq<Rc<Node>>,
    tag: bool,
    c: char,
) -> bool {
    let entries_shown = menu(before.path@, before.loop_node_index, roots);
    match find_key(entries_shown, c) {
        Some(k) => {
            let node = entries_shown[k];
            let loop_index = if node.is_loop {
                Some(before.path@.len() as usize)
            } else {
                before.loop_node_index
            };
            &&& after.path@ == before.path@.push(node)
            &&& after.loop_node_index == loop_index
            &&& if node.leaf() && loop_index is None {
                &&& after.outcome@ == OutcomeView::Confirmed(result_text(after.path@, tag))
                &&& action is Finished
            } else {
                &&& after.outcome is Pending
                &&& if node.leaf() {
                    action is Continue
                } else if node.choices@.len() > 0 {
                    action matches Action::Choose(list) && list@ == node.choices@
                } else if node.input_type is Some {
                    action matches Action::Prompt(kind, label) && kind == node.input_type->0
                        && label@ == node.name@
                } else {
                    action is Continue
                }
            }
        },
        None => {
            &&& unchanged(before, after)
            &&& if c == '/' {
                action matches Action::Search(options) && entries(options@) == search_scope(
                    before.path@,
                    roots,
                )
            } else {
                action == Action::InvalidKey(c)
            }
        },
    }
}

/// What backtracking does: nothing on an empty path; otherwise the last node
/// goes, then every fleeting node that ends the path, and the loop position
/// with them if the path no longer holds it.
pub open spec fn backtracked(before: Session, after: Session, action: Action) -> bool {
    &&& action is Continue
    &&& after.outcome is Pending
    &&& if before.path@.len() == 0 {
        unchanged(before, after)
    } else {
        &&& after.path@ == trim_fleeting(before.path@.drop_last())
        &&& after.loop_node_index == clamped(before.loop_node_index, after.path@.len())
    }
}

/// What accepting does: nothing but a notice on an empty path; otherwise the
/// session ends with the command of the path, whatever its last node is.
pub open spec fn confirmed(before: Session, after: Session, action: Action, tag: bool) -> bool {
    if before.path@.len() == 0 {
        unchanged(before, after) && action is NothingToConfirm
    } else {
        &&& after.path@ == before.path@
        &&& after.loop_node_index == before.loop_node_index
        &&& after.outcome@ == OutcomeView::Confirmed(result_text(before.path@, tag))
        &&& action is Finished
    }
}

/// What giving up does: the session ends without a command.
pub open spec fn aborted(before: Session, after: Session, action: Action) -> bool {
    &&& after.path@ == before.path@
    &&& after.loop_node_index == before.loop_node_index
    &&& after.outcome is Cancelled
    &&& action is Finished
}

/// What the end of a choice dialog does. A pick that names one of the last
/// node's choices pushes a node for it; anything else unwinds the path.
pub open spec fn choice_made(
    before: Session,
    after: Session,
    action: Action,
    selection: Option<usize>,
) -> bool {
    &&& action is Continue
    &&& if before.path@.len() > 0 && selection is Some && selection->0
        < before.path@.last().choices@.len() {
        let parent = before.path@.last();
        &&& after.path@.len() == before.path@.len() + 1
        &&& after.path@.drop_last() == before.path@
        &&& after.path@.last().is_synthesized(
            child_id(parent.id@, CHOICE_KEY@),
            CHOICE_KEY@,
            parent.choices@[selection->0 as int]@,
        )
        &&& after.loop_node_index == before.loop_node_index
        &&& after.outcome is Pending
    } else {
        unwound(before, after)
    }
}

/// What the end of an input dialog does. Text typed below a node pushes a
/// node for it; anything else unwinds the path.
pub open spec fn input_made(
    before: Session,
    after: Session,
    action: Action,
    text: Option<String>,
) -> bool {
    &&& action is Continue
    &&& if before.path@.len() > 0 && text is Some {
        let parent = before.path@.last();
        &&& after.path@.len() == before.path@.len() + 1
        &&& after.path@.drop_last() == before.path@
        &&& after.path@.last().is_synthesized(
            child_id(parent.id@, text->0@),
            crate::constants::INPUT_KEY@,
            text->0@,
        )
        &&& after.loop_node_index == before.loop_node_index
        &&& after.outcome is Pending
    } else {
        unwound(before, after)
    }
}

/// What the end of a search dialog does. A pick that names one of the
/// entries listed replaces the path by the one its identity leads to from
/// the top-level nodes, and the loop position by that of the last loop node
/// on it; anything else unwinds the path.
pub open spec fn search_made(
    before: Session,
    after: Session,
    action: Action,
    roots: Seq<Rc<Node>>,
    selection: Option<usize>,
) -> bool {
    let listed = search_scope(before.path@, roots);
    &&& action is Continue
    &&& if selection is Some && selection->0 < listed.len() {
        &&& after.path@ == rebuild(listed[selection->0 as int].id, roots)
        &&& after.loop_node_index == last_loop(after.path@)
        &&& after.outcome is Pending
    } else {
        unwound(before, after)
    }
}

/// What an event does to a session that is still running.
pub open spec fn stepped(
    before: Session,
    after: Session,
    action: Action,
    roots: Seq<Rc<Node>>,
    tag: bool,
    event: Event,
) -> bool {
    match event {
        Event::Key(c) => key_pressed(before, after, action, roots, tag, c),
        Event::Backtrack => backtracked(before, after, action),
        Event::Confirm => confirmed(before, after, action, tag),
        Event::Abort => aborted(before, after, action),
        Event::Choice(selection) => choice_made(before, after, action, selection),
        Event::Input(text) => input_made(before, after, action, text),
        Event::Search(selection) => search_made(before, after, action, roots, selection),
    }
}

/// Backtracking leaves a path that is empty or ends in a node that is not
/// fleeting, and it empties a path of fleeting nodes only.
pub proof fn lemma_backtrack_leaves_no_fleeting_tail(before: Session, after: Session, action: Action)
    requires
        backtracked(before, after, action),
    ensures
        after.path@.len() > 0 ==> !after.path@.last().is_fleeting,
        (forall|i: int| 0 <= i < before.path@.len() ==> (#[trigger] before.path@[i]).is_fleeting)
            ==> after.path@.len() == 0,
{
    if before.path@.len() > 0 {
        let shorter = before.path@.drop_last();
        lemma_trim_fleeting(shorter);
        if forall|i: int| 0 <= i < before.path@.len() ==> (#[trigger] before.path@[i]).is_fleeting {
            assert forall|i: int| 0 <= i < shorter.len() implies (#[trigger] shorter[i]).is_fleeting by {
                assert(shorter[i] == before.path@[i]);
            }
            lemma_trim_all_fleeting(shorter);
        }
    }
}

/// What `last_loop` finds is a loop node of the path, and none follows it.
pub proof fn lemma_last_loop(path: Seq<Rc<Node>>)
    requires
        path.len() <= usize::MAX,
    ensures
        match last_loop(path) {
            Some(l) => l < path.len() && path[l as int].is_loop && forall|i: int|
                l < i < path.len() ==> !(#[trigger] path[i]).is_loop,
            None => forall|i: int| 0 <= i < path.len() ==> !(#[trigger] path[i]).is_loop,
        },
    decreases path.len(),
{
    if path.len() > 0 && !path.last().is_loop {
        let front = path.drop_last();
        lemma_last_loop(front);
        match last_loop(front) {
            Some(l) => {
                assert(front[l as int] == path[l as int]);
                assert forall|i: int| l < i < path.len() implies !(#[trigger] path[i]).is_loop by {
                    if i < front.len() {
                        assert(front[i] == path[i]);
                    }
                }
            },
            None => {
                assert forall|i: int| 0 <= i < path.len() implies !(#[trigger] path[i]).is_loop by {
                    if i < front.len() {
                        assert(front[i] == path[i]);
                    }
                }
            },
        }
    }
}

/// Among well-formed siblings the key of a node finds that node.
pub proof fn lemma_find_own_key(nodes: Seq<Rc<Node>>, parent_id: Seq<char>, k: int)
    requires
        valid_tree(nodes, parent_id),
        0 <= k < nodes.len(),
    ensures
        nodes[k].key@.len() == 1,
        find_key(nodes, nodes[k].key@[0]) == Some(k),
{
    let c = nodes[k].key@[0];
    assert(valid_node(nodes[k], parent_id));
    assert(nodes[k].key@ =~= seq![c]);
    lemma_find_key(nodes, c);
    let found = find_key(nodes, c)->0;
    if found != k {
        assert(node_keys(nodes)[found] == node_keys(nodes)[k]);
    }
}

/// Every entry indexed below well-formed siblings carries an identity that
/// starts with the parent's identity, and the rest of it leads, from the
/// siblings, to a path that together with the way to the parent composes the
/// entry's command.
pub proof fn lemma_indexed_entry(
    nodes: Seq<Rc<Node>>,
    parent_id: Seq<char>,
    path: Seq<Rc<Node>>,
    j: int,
)
    requires
        valid_tree(nodes, parent_id),
        0 <= j < flatten(nodes, path).len(),
    ensures
        ({
            let entry = flatten(nodes, path)[j];
            &&& entry.id.len() > parent_id.len()
            &&& entry.id.take(parent_id.len() as int) == parent_id
            &&& find_key(nodes, entry.id[parent_id.len() as int]) is Some
            &&& entry.command == compose(path + rebuild(entry.id.skip(parent_id.len() as int), nodes))
        }),
    decreases nodes,
{
    let front = nodes.drop_last();
    let last = nodes.last();
    let at = nodes.len() - 1;
    let before = flatten(front, path);
    let below = flatten(last.keys@, path.push(last));
    let entry = flatten(nodes, path)[j];
    let depth = parent_id.len() as int;
    assert(valid_node(nodes[at], parent_id));
    if j < before.len() {
        assert(valid_tree(front, parent_id)) by {
            assert forall|a: int, b: int| 0 <= a < b < front.len() implies node_keys(front)[a]
                != node_keys(front)[b] by {
                assert(node_keys(nodes)[a] != node_keys(nodes)[b]);
            }
            assert forall|i: int| 0 <= i < front.len() implies valid_node(
                #[trigger] front[i],
                parent_id,
            ) by {
                assert(valid_node(nodes[i], parent_id));
            }
        }
        lemma_indexed_entry(front, parent_id, path, j);
        assert(entry == before[j]);
        let c = entry.id[depth];
        lemma_find_key(front, c);
        let k = find_key(front, c)->0;
        assert(front[k] == nodes[k]);
        assert(find_key(nodes, c) == Some(k));
    } else {
        lemma_find_own_key(nodes, parent_id, at);
        let c = last.key@[0];
        assert(last.key@ =~= seq![c]);
        if j == before.len() {
            assert(entry.id == last.id@);
            assert(entry.id.take(depth) =~= parent_id);
            assert(entry.id.skip(depth) =~= seq![c]);
            assert(seq![c].drop_first().len() == 0);
            assert(rebuild(seq![c].drop_first(), last.keys@) =~= Seq::<Rc<Node>>::empty());
            assert(seq![c][0] == c);
            assert(rebuild(seq![c], nodes) =~= seq![last]);
            assert(path + seq![last] =~= path.push(last));
        } else {
            let inner = j - before.len() - 1;
            assert(entry == below[inner]);
            lemma_valid_children(last, parent_id);
            lemma_indexed_entry(last.keys@, last.id@, path.push(last), inner);
            assert(last.id@.len() == depth + 1);
            assert(entry.id.take(depth) =~= entry.id.take(depth + 1).take(depth));
            assert(entry.id.take(depth) =~= parent_id);
            assert(entry.id[depth] == entry.id.take(depth + 1)[depth]);
            assert(entry.id[depth] == c);
            let rest = entry.id.skip(depth);
            assert(rest[0] == c);
            assert(rest.drop_first() =~= entry.id.skip(depth + 1));
            let tail = rebuild(entry.id.skip(depth + 1), last.keys@);
            assert(rebuild(rest, nodes) == seq![last] + tail);
            assert(path + (seq![last] + tail) =~= path.push(last) + tail);
        }
    }
}

/// In a well-formed configuration, the path that the identity of an indexed
/// entry leads to composes the command that the index records for it.
pub proof fn lemma_rebuilt_path_composes_indexed_command(roots: Seq<Rc<Node>>, j: int)
    requires
        valid_tree(roots, Seq::<char>::empty()),
        0 <= j < flatten_roots(roots).len(),
    ensures
        compose(rebuild(flatten_roots(roots)[j].id, roots)) == flatten_roots(roots)[j].command,
{
    assert(roots.take(roots.len() as int) =~= roots);
    lemma_indexed_below_first(roots, roots.len() as int, j);
}

/// The same for an entry indexed below the first `k` top-level nodes.
proof fn lemma_indexed_below_first(roots: Seq<Rc<Node>>, k: int, j: int)
    requires
        valid_tree(roots, Seq::<char>::empty()),
        0 <= k <= roots.len(),
        0 <= j < flatten_roots(roots.take(k)).len(),
    ensures
        compose(rebuild(flatten_roots(roots.take(k))[j].id, roots)) == flatten_roots(
            roots.take(k),
        )[j].command,
    decreases k,
{
    let shown = roots.take(k);
    assert(k > 0);
    let root = shown.last();
    assert(root == roots[k - 1]);
    assert(shown.drop_last() =~= roots.take(k - 1));
    let before = flatten_roots(roots.take(k - 1));
    if j < before.len() {
        lemma_indexed_below_first(roots, k - 1, j);
    } else {
        let inner = j - before.len();
        let entry = flatten(root.keys@, seq![root])[inner];
        assert(flatten_roots(shown)[j] == entry);
        assert(valid_node(roots[k - 1], Seq::<char>::empty()));
        lemma_valid_children(root, Seq::<char>::empty());
        lemma_indexed_entry(root.keys@, root.id@, seq![root], inner);
        lemma_find_own_key(roots, Seq::<char>::empty(), k - 1);
        let c = root.key@[0];
        assert(root.id@ =~= seq![c]);
        assert(entry.id[0] == entry.id.take(1)[0]);
        assert(entry.id.drop_first() =~= entry.id.skip(1));
    }
}

/// New handles to the nodes of a list.
fn share_all(nodes: &[Rc<Node>]) -> (copy: Vec<Rc<Node>>)
    ensures
        copy@ == nodes@,
{
    let mut copy: Vec<Rc<Node>> = Vec::new();
    let mut i: usize = 0;
    while i < nodes.len()
        invariant
            i <= nodes@.len(),
            copy@ == nodes@.take(i as int),
        decreases nodes@.len() - i,
    {
        copy.push(share(&nodes[i]));
        proof {
            assert(copy@ =~= nodes@.take(i + 1));
        }
        i += 1;
    }
    proof {
        assert(nodes@.take(i as int) =~= nodes@);
    }
    copy
}

/// Whether some node of `path` has the identity of `node`.
fn is_on_path(path: &[Rc<Node>], node: &Rc<Node>) -> (found: bool)
    ensures
        found == on_path(path@, *node),
{
    let mut i: usize = 0;
    while i < path.len()
        invariant
            i <= path@.len(),
            forall|k: int| 0 <= k < i ==> (#[trigger] path@[k]).id@ != node.id@,
        decreases path@.len() - i,
    {
        if path[i].id == node.id {
            return true;
        }
        i += 1;
    }
    false
}

/// Those of `children` that a loop menu offers for `path`.
fn offered_children(children: &[Rc<Node>], path: &[Rc<Node>]) -> (shown: Vec<Rc<Node>>)
    ensures
        shown@ == loop_menu(children@, path@),
{
    let mut shown: Vec<Rc<Node>> = Vec::new();
    let mut i: usize = 0;
    while i < children.len()
        invariant
            i <= children@.len(),
            shown@ == loop_menu(children@.take(i as int), path@),
        decreases children@.len() - i,
    {
        proof {
            assert(children@.take(i + 1).drop_last() =~= children@.take(i as int));
            assert(children@.take(i + 1).last() == children@[i as int]);
        }
        if children[i].is_repeatable || !is_on_path(path, &children[i]) {
            shown.push(share(&children[i]));
        }
        i += 1;
    }
    proof {
        assert(children@.take(i as int) =~= children@);
    }
    shown
}

/// The text a session ends with on `path`.
fn final_text(path: &[Rc<Node>], tag: bool) -> (text: String)
    ensures
        text@ == result_text(path@, tag),
{
    let command = compose_command(path);
    if tag && path.len() > 0 && path[path.len() - 1].is_immediate {
        proof {
            reveal_strlit(" ");
            assert(" "@ =~= seq![' ']);
        }
        String::from_str(IMMEDIATE_PREFIX).concat(" ").concat(command.as_str())
    } else {
        command
    }
}

impl Session {
    /// A loop position names a loop node of the path.
    pub open spec fn wf(&self) -> bool {
        self.loop_node_index matches Some(l) ==> l < self.path@.len() && self.path@[l as int].is_loop
    }

    /// A session at its start: nothing selected, no loop, still running.
    pub fn new() -> (session: Session)
        ensures
            session.path@.len() == 0,
            session.loop_node_index is None,
            session.outcome is Pending,
            session.wf(),
    {
        Session { path: Vec::new(), loop_node_index: None, outcome: Outcome::Pending }
    }

    /// Whether the session is still running.
    pub fn is_pending(&self) -> (pending: bool)
        ensures
            pending == (self.outcome is Pending),
    {
        match &self.outcome {
            Outcome::Pending => true,
            _ => false,
        }
    }

    /// The text handed back to the shell: the command of a confirmed session,
    /// nothing otherwise.
    pub fn output(&self) -> (text: String)
        ensures
            text@ == match self.outcome@ {
                OutcomeView::Confirmed(command) => command,
                _ => Seq::<char>::empty(),
            },
    {
        match &self.outcome {
            Outcome::Confirmed(command) => command.clone(),
            _ => String::new(),
        }
    }

    /// The entries of the menu shown for the current path.
    pub fn current_menu(&self, config: &Config) -> (shown: Vec<Rc<Node>>)
        ensures
            shown@ == menu(self.path@, self.loop_node_index, config.keys@),
    {
        let len = self.path.len();
        if len == 0 {
            return share_all(config.keys.as_slice());
        }
        let last = &self.path[len - 1];
        match self.loop_node_index {
            Some(l) => {
                if l < len && last.is_leaf() {
                    return offered_children(self.path[l].keys.as_slice(), self.path.as_slice());
                }
            },
            None => {},
        }
        share_all(last.keys.as_slice())
    }

    /// Drops the trailing fleeting nodes, and the loop position with them if
    /// the path no longer holds it.
    fn unwind(&mut self)
        requires
            old(self).outcome is Pending,
        ensures
            unwound(*old(self), *final(self)),
            old(self).wf() ==> final(self).wf(),
    {
        proof {
            lemma_trim_fleeting(self.path@);
        }
        pop_to_first_non_is_fleeting(&mut self.path);
        self.forget_lost_loop();
    }

    /// Clears a loop position that the path no longer holds.
    fn forget_lost_loop(&mut self)
        ensures
            final(self).path == old(self).path,
            final(self).outcome == old(self).outcome,
            final(self).loop_node_index == clamped(old(self).loop_node_index, old(self).path@.len()),
    {
        match self.loop_node_index {
            Some(l) => {
                if self.path.len() <= l {
                    self.loop_node_index = None;
                }
            },
            None => {},
        }
    }

    /// Handles a character key.
    pub fn press_key(&mut self, config: &Config, opts: &Options, c: char) -> (action: Action)
        requires
            old(self).outcome is Pending,
        ensures
            key_pressed(*old(self), *final(self), action, config.keys@, opts.print_immediate_tag, c),
            old(self).wf() ==> final(self).wf(),
    {
        let shown = self.current_menu(config);
        match position_of_key(shown.as_slice(), c) {
            Some(k) => {
                let node = &shown[k];
                let ghost before = self.path@;
                self.path.push(share(node));
                if node.is_loop {
                    self.loop_node_index = Some(self.path.len() - 1);
                }
                if node.is_leaf() {
                    if self.loop_node_index.is_none() {
                        let text = final_text(self.path.as_slice(), opts.print_immediate_tag);
                        self.outcome = Outcome::Confirmed(text);
                        Action::Finished
                    } else {
                        Action::Continue
                    }
                } else if node.has_choices() {
                    Action::Choose(copy_texts(&node.choices))
                } else {
                    match node.input_type {
                        Some(kind) => Action::Prompt(kind, node.name.clone()),
                        None => Action::Continue,
                    }
                }
            },
            None => {
                if c == '/' {
                    let options = if self.path.len() == 0 {
                        get_search_options(config.keys.as_slice())
                    } else {
                        get_search_options(self.path.as_slice())
                    };
                    Action::Search(options)
                } else {
                    Action::InvalidKey(c)
                }
            },
        }
    }

    /// Handles the backtrack key.
    pub fn backtrack(&mut self) -> (action: Action)
        requires
            old(self).outcome is Pending,
        ensures
            backtracked(*old(self), *final(self), action),
            final(self).path@.len() > 0 ==> !final(self).path@.last().is_fleeting,
            old(self).wf() ==> final(self).wf(),
    {
        let ghost before = self.path@;
        match self.path.pop() {
            Some(_) => {
                proof {
                    lemma_trim_fleeting(before.drop_last());
                }
                pop_to_first_non_is_fleeting(&mut self.path);
                self.forget_lost_loop();
            },
            None => {},
        }
        Action::Continue
    }

    /// Handles the accept key.
    pub fn confirm(&mut self, opts: &Options) -> (action: Action)
        requires
            old(self).outcome is Pending,
        ensures
            confirmed(*old(self), *final(self), action, opts.print_immediate_tag),
            old(self).wf() ==> final(self).wf(),
    {
        if self.path.len() == 0 {
            Action::NothingToConfirm
        } else {
            let text = final_text(self.path.as_slice(), opts.print_immediate_tag);
            self.outcome = Outcome::Confirmed(text);
            Action::Finished
        }
    }

    /// Gives the session up.
    pub fn abort(&mut self) -> (action: Action)
        requires
            old(self).outcome is Pending,
        ensures
            aborted(*old(self), *final(self), action),
            old(self).wf() ==> final(self).wf(),
    {
        self.outcome = Outcome::Cancelled;
        Action::Finished
    }

    /// Takes the result of a choice dialog.
    pub fn pick(&mut self, selection: Option<usize>) -> (action: Action)
        requires
            old(self).outcome is Pending,
        ensures
            choice_made(*old(self), *final(self), action, selection),
            old(self).wf() ==> final(self).wf(),
    {
        let len = self.path.len();
        let made = match selection {
            Some(index) => {
                if len > 0 {
                    self.path[len - 1].with_selection(index)
                } else {
                    None
                }
            },
            None => None,
        };
        match made {
            Some(node) => {
                let ghost before = self.path@;
                self.path.push(Rc::new(node));
                proof {
                    assert(self.path@.drop_last() =~= before);
                }
            },
            None => {
                self.unwind();
            },
        }
        Action::Continue
    }

    /// Takes the result of an input dialog.
    pub fn enter(&mut self, text: Option<String>) -> (action: Action)
        requires
            old(self).outcome is Pending,
        ensures
            input_made(*old(self), *final(self), action, text),
            old(self).wf() ==> final(self).wf(),
    {
        let len = self.path.len();
        match &text {
            Some(typed) => {
                if len > 0 {
                    let node = self.path[len - 1].with_input(typed.as_str());
                    let ghost before = self.path@;
                    self.path.push(Rc::new(node));
                    proof {
                        assert(self.path@.drop_last() =~= before);
                    }
                } else {
                    self.unwind();
                }
            },
            None => {
                self.unwind();
            },
        }
        Action::Continue
    }

    /// Takes the result of a search dialog.
    pub fn jump(&mut self, config: &Config, selection: Option<usize>) -> (action: Action)
        requires
            old(self).outcome is Pending,
        ensures
            search_made(*old(self), *final(self), action, config.keys@, selection),
            old(self).wf() ==> final(self).wf(),
    {
        let options = if self.path.len() == 0 {
            get_search_options(config.keys.as_slice())
        } else {
            get_search_options(self.path.as_slice())
        };
        let found = match selection {
            Some(index) => index < options.len(),
            None => false,
        };
        if found {
            let index = selection.unwrap();
            proof {
                assert(entries(options@)[index as int] == options@[index as int]@);
            }
            let (new_path, new_loop_index) = rebuild_path_from_id(
                options[index].id.as_str(),
                config.keys.as_slice(),
            );
            let found_len = new_path.len();
            proof {
                lemma_last_loop(new_path@);
            }
            self.path = new_path;
            self.loop_node_index = new_loop_index;
        } else {
            self.unwind();
        }
        Action::Continue
    }

    /// Applies one event. A session that has ended stays as it is.
    pub fn step(&mut self, config: &Config, opts: &Options, event: Event) -> (action: Action)
        ensures
            old(self).outcome is Pending ==> stepped(
                *old(self),
                *final(self),
                action,
                config.keys@,
                opts.print_immediate_tag,
                event,
            ),
            !(old(self).outcome is Pending) ==> unchanged(*old(self), *final(self)) && action is Finished,
            old(self).wf() ==> final(self).wf(),
    {
        if !self.is_pending() {
            return Action::Finished;
        }
        match event {
            Event::Key(c) => self.press_key(config, opts, c),
            Event::Backtrack => self.backtrack(),
            Event::Confirm => self.confirm(opts),
            Event::Abort => self.abort(),
            Event::Choice(selection) => self.pick(selection),
            Event::Input(text) => self.enter(text),
            Event::Search(selection) => self.jump(config, selection),
        }
    }
}

/// The event that a key of the menu stands for, none for a key that the menu
/// does not react to.
pub open spec fn event_of(key: Key) -> Option<Event> {
    match key {
        Key::Esc => Some(Event::Abort),
        Key::Char(c) => Some(Event::Key(c)),
        Key::Backspace => Some(Event::Backtrack),
        Key::Enter => Some(Event::Confirm),
        _ => None,
    }
}

impl Event {
    /// The event that a key pressed in the menu stands for.
    pub fn from_key(key: Key) -> (event: Option<Event>)
        ensures
            event == event_of(key),
    {
        match key {
            Key::Esc => Some(Event::Abort),
            Key::Char(c) => Some(Event::Key(c)),
            Key::Backspace => Some(Event::Backtrack),
            Key::Enter => Some(Event::Confirm),
            _ => None,
        }
    }
}

/// The decimal digit for a number below ten.
pub open spec fn digit_char(d: nat) -> char {
    seq!['0', '1', '2', '3', '4', '5', '6', '7', '8', '9'][d as int]
}

/// A number in decimal, without leading zeros.
pub open spec fn decimal_of(n: nat) -> Seq<char>
    decreases n,
{
    if n < 10 {
        seq![digit_char(n)]
    } else {
        decimal_of(n / 10).push(digit_char(n % 10))
    }
}

/// The pieces of `text` between its spaces; a text without a space is one
/// piece, and a space at either end leaves an empty piece there.
pub open spec fn split_spaces(text: Seq<char>) -> Seq<Seq<char>>
    decreases text.len(),
{
    if text.len() == 0 {
        seq![Seq::<char>::empty()]
    } else {
        let front = split_spaces(text.drop_last());
        if text.last() == ' ' {
            front.push(Seq::<char>::empty())
        } else {
            front.update(front.len() - 1, front.last().push(text.last()))
        }
    }
}

/// The colour of the piece at position `k` of a command: cyan for an option
/// (it starts with a dash), green for the first piece, yellow for the rest.
pub open spec fn piece_style(piece: Seq<char>, k: int) -> Style {
    if piece.len() > 0 && piece[0] == '-' {
        Style::Cyan
    } else if k == 0 {
        Style::Green
    } else {
        Style::Yellow
    }
}

/// The pieces in their colours, each followed by a plain space.
pub open spec fn highlighted(pieces: Seq<Seq<char>>) -> Seq<SpanView>
    decreases pieces.len(),
{
    if pieces.len() == 0 {
        Seq::<SpanView>::empty()
    } else {
        highlighted(pieces.drop_last()).push(
            styled(piece_style(pieces.last(), pieces.len() - 1), pieces.last()),
        ).push(styled(Style::Plain, seq![' ']))
    }
}

/// The label of a menu entry: the name padded to ten characters, and behind
/// it, for a node with children, a plus sign and their number.
pub open spec fn entry_label(node: Node) -> Seq<char> {
    if node.keys@.len() > 0 {
        pad_right(node.name@, 10) + seq![' ', '+'] + decimal_of(node.keys@.len())
    } else {
        pad_right(node.name@, 10)
    }
}

/// A menu entry as it is shown: the key in bold, a bullet, and the label, in
/// blue for a node with children and in yellow otherwise. A node without
/// children is followed by the return sign when the immediate marker is
/// asked for and the node is flagged immediate, and by nothing otherwise.
pub open spec fn entry_spans(node: Node, tag: bool) -> Seq<SpanView> {
    let head = seq![
        styled(Style::Bold, node.key@),
        styled(Style::Plain, seq![' ']),
        styled(Style::DarkGrey, seq!['\u{2022}']),
        styled(Style::Plain, seq![' ']),
    ];
    if node.keys@.len() > 0 {
        head.push(styled(Style::Blue, entry_label(node)))
    } else {
        head.push(styled(Style::Yellow, entry_label(node))).push(
            styled(Style::Plain, seq![' ']),
        ).push(
            styled(
                Style::Plain,
                if tag && node.is_immediate {
                    seq!['\u{21b5}']
                } else {
                    Seq::<char>::empty()
                },
            ),
        )
    }
}

/// The line that shows the command composed so far.
pub open spec fn indicator_spans(path: Seq<Rc<Node>>) -> Seq<SpanView> {
    seq![styled(Style::Grey, "Command:"@), styled(Style::Plain, seq![' '])] + highlighted(
        split_spaces(compose(path)),
    )
}

/// Writes a number in decimal.
fn decimal(n: usize) -> (text: String)
    ensures
        text@ == decimal_of(n as nat),
    decreases n,
{
    let last = n % 10;
    let c = if last == 0 {
        '0'
    } else if last == 1 {
        '1'
    } else if last == 2 {
        '2'
    } else if last == 3 {
        '3'
    } else if last == 4 {
        '4'
    } else if last == 5 {
        '5'
    } else if last == 6 {
        '6'
    } else if last == 7 {
        '7'
    } else if last == 8 {
        '8'
    } else {
        '9'
    };
    let mut text = if n < 10 {
        String::new()
    } else {
        decimal(n / 10)
    };
    push_char(&mut text, c);
    proof {
        if n < 10 {
            assert(text@ =~= seq![digit_char(n as nat)]);
        }
    }
    text
}

/// Cuts `text` at its spaces.
fn pieces_of(text: &str) -> (pieces: Vec<String>)
    ensures
        pieces@.len() == split_spaces(text@).len(),
        forall|k: int| 0 <= k < pieces@.len() ==> (#[trigger] pieces@[k])@ == split_spaces(text@)[k],
{
    let mut pieces: Vec<String> = Vec::new();
    let mut current = String::new();
    let count = text.unicode_len();
    let mut i: usize = 0;
    while i < count
        invariant
            i <= count,
            count == text@.len(),
            pieces@.len() + 1 == split_spaces(text@.take(i as int)).len(),
            forall|k: int|
                0 <= k < pieces@.len() ==> (#[trigger] pieces@[k])@ == split_spaces(
                    text@.take(i as int),
                )[k],
            current@ == split_spaces(text@.take(i as int)).last(),
        decreases count - i,
    {
        let c = text.get_char(i);
        proof {
            assert(text@.take(i + 1).drop_last() =~= text@.take(i as int));
            assert(text@.take(i + 1).last() == c);
        }
        if c == ' ' {
            pieces.push(current);
            current = String::new();
        } else {
            push_char(&mut current, c);
        }
        i += 1;
    }
    proof {
        assert(text@.take(i as int) =~= text@);
    }
    pieces.push(current);
    pieces
}

/// Shows a menu entry: key, bullet and label, with the number of children
/// for a node that has some, and the return sign for a leaf that is run at
/// once.
pub fn format_node(node: &Node, opts: &Options) -> (line: Vec<Span>)
    ensures
        spans(line@) == entry_spans(*node, opts.print_immediate_tag),
{
    let sub_keys_count = node.keys.len();
    let mut line: Vec<Span> = Vec::new();
    line.push(Span { style: Style::Bold, text: node.key.clone() });
    line.push(Span::new(Style::Plain, " "));
    line.push(Span::new(Style::DarkGrey, "\u{2022}"));
    line.push(Span::new(Style::Plain, " "));
    proof {
        reveal_strlit(" ");
        reveal_strlit("\u{2022}");
        assert(" "@ =~= seq![' ']);
        assert("\u{2022}"@ =~= seq!['\u{2022}']);
    }
    let name = padded(node.name.as_str(), 10);
    if sub_keys_count > 0 {
        proof {
            reveal_strlit(" +");
            assert(" +"@ =~= seq![' ', '+']);
        }
        let label = name.concat(" +").concat(decimal(sub_keys_count).as_str());
        line.push(Span { style: Style::Blue, text: label });
        proof {
            assert(spans(line@) =~= entry_spans(*node, opts.print_immediate_tag));
        }
    } else {
        let include_immediate_tag = opts.print_immediate_tag && node.is_immediate;
        line.push(Span { style: Style::Yellow, text: name });
        line.push(Span::new(Style::Plain, " "));
        if include_immediate_tag {
            proof {
                reveal_strlit("\u{21b5}");
                assert("\u{21b5}"@ =~= seq!['\u{21b5}']);
            }
            line.push(Span::new(Style::Plain, "\u{21b5}"));
        } else {
            proof {
                reveal_strlit("");
                assert(""@ =~= Seq::<char>::empty());
            }
            line.push(Span::new(Style::Plain, ""));
        }
        proof {
            assert(spans(line@) =~= entry_spans(*node, opts.print_immediate_tag));
        }
    }
    line
}

/// Colours the pieces of a command: options in cyan, the first piece in
/// green, the rest in yellow, each followed by a space.
pub fn highlight_command(command: &str) -> (line: Vec<Span>)
    ensures
        spans(line@) == highlighted(split_spaces(command@)),
{
    let pieces = pieces_of(command);
    let ghost all = split_spaces(command@);
    let mut line: Vec<Span> = Vec::new();
    let mut k: usize = 0;
    proof {
        assert(spans(line@) =~= highlighted(all.take(0)));
        reveal_strlit(" ");
        assert(" "@ =~= seq![' ']);
    }
    while k < pieces.len()
        invariant
            k <= pieces@.len(),
            pieces@.len() == all.len(),
            forall|j: int| 0 <= j < pieces@.len() ==> (#[trigger] pieces@[j])@ == all[j],
            spans(line@) == highlighted(all.take(k as int)),
            " "@ == seq![' '],
        decreases pieces@.len() - k,
    {
        let piece = pieces[k].as_str();
        let style = if piece.unicode_len() > 0 && piece.get_char(0) == '-' {
            Style::Cyan
        } else if k == 0 {
            Style::Green
        } else {
            Style::Yellow
        };
        let ghost before = line@;
        line.push(Span::new(style, piece));
        line.push(Span::new(Style::Plain, " "));
        proof {
            assert(all.take(k + 1).drop_last() =~= all.take(k as int));
            assert(all.take(k + 1).last() == all[k as int]);
            assert(spans(line@) =~= spans(before).push(styled(style, all[k as int])).push(
                styled(Style::Plain, seq![' ']),
            ));
        }
        k += 1;
    }
    proof {
        assert(all.take(k as int) =~= all);
    }
    line
}

/// The line that shows the command composed so far.
pub fn command_indicator(path: &[Rc<Node>]) -> (line: Vec<Span>)
    ensures
        spans(line@) == indicator_spans(path@),
{
    let mut line: Vec<Span> = Vec::new();
    line.push(Span::new(Style::Grey, "Command:"));
    line.push(Span::new(Style::Plain, " "));
    proof {
        reveal_strlit(" ");
        assert(" "@ =~= seq![' ']);
    }
    let ghost head = line@;
    let command = compose_command(path);
    let mut rest = highlight_command(command.as_str());
    let ghost tail = rest@;
    line.append(&mut rest);
    proof {
        assert(spans(line@) =~= spans(head) + spans(tail));
        assert(spans(head) =~= seq![
            styled(Style::Grey, "Command:"@),
            styled(Style::Plain, seq![' ']),
        ]);
    }
    line
}

} // verus!
