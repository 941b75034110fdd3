use crate::error::{ErrorView, WhichCmdError};
use crate::node::{child_id, InputType, Node};
use crate::text::same_text;
use std::rc::Rc;
use vstd::prelude::*;
use vstd::string::*;

verus! {

/// One node as the configuration file describes it, before anything was
/// checked: `name` and `value` may be missing, and the identity is not set.
#[derive(Debug)]
pub struct NodeRecord {
    pub key: String,
    pub name: Option<String>,
    pub value: Option<String>,
    pub immediate: bool,
    pub fleeting: bool,
    pub anchor: bool,
    pub loop_: bool,
    pub repeatable: bool,
    pub keys: Vec<NodeRecord>,
    pub choices: Vec<String>,
    pub input: Option<InputType>,
}

/// The checked command tree: its top-level nodes.
#[derive(Debug)]
pub struct Config {
    pub keys: Vec<Rc<Node>>,
}

impl NodeRecord {
    /// The command token: the given value, or nothing.
    pub open spec fn value_text(&self) -> Seq<char> {
        match self.value {
            Some(value) => value@,
            None => Seq::<char>::empty(),
        }
    }

    /// The display name: the given name, or else the command token.
    pub open spec fn name_text(&self) -> Seq<char> {
        match self.name {
            Some(name) => name@,
            None => self.value_text(),
        }
    }

    /// How many of children, choices and prompt the record carries.
    pub open spec fn action_count(&self) -> nat {
        (if self.keys@.len() > 0 { 1nat } else { 0nat })
        + (if self.choices@.len() > 0 { 1nat } else { 0nat })
        + (if self.input is Some { 1nat } else { 0nat })
    }

    /// What is wrong with this record taken alone, its children aside: a key
    /// that is not one character, then an empty name, then more than one
    /// action.
    pub open spec fn own_error(&self) -> Option<ErrorView> {
        if self.key@.len() != 1 {
            Some(ErrorView::InvalidKey(self.key@))
        } else if self.name_text().len() == 0 {
            Some(ErrorView::MissingName)
        } else if self.action_count() > 1 {
            Some(ErrorView::MultipleActions(self.name_text()))
        } else {
            None
        }
    }
}

/// The first thing wrong with the shape of `records`, none if all is well.
/// Records are looked at in order, the children of a record before the record
/// itself.
pub open spec fn shape_error(records: Seq<NodeRecord>) -> Option<ErrorView>
    decreases records,
{
    if records.len() == 0 {
        None
    } else {
        match shape_error(records.drop_last()) {
            Some(error) => Some(error),
            None => match shape_error(records.last().keys@) {
                Some(error) => Some(error),
                None => records.last().own_error(),
            },
        }
    }
}

/// No two of `keys` are equal.
pub open spec fn distinct(keys: Seq<Seq<char>>) -> bool {
    forall|i: int, j: int| 0 <= i < j < keys.len() ==> keys[i] != keys[j]
}

/// The position of the first key that repeats an earlier one, none when the
/// keys are distinct.
pub open spec fn first_duplicate(keys: Seq<Seq<char>>) -> Option<int>
    decreases keys.len(),
{
    if keys.len() == 0 {
        None
    } else {
        match first_duplicate(keys.drop_last()) {
            Some(j) => Some(j),
            None => if keys.drop_last().contains(keys.last()) {
                Some(keys.len() - 1)
            } else {
                None
            },
        }
    }
}

/// The texts of a list of string slices.
pub open spec fn texts(keys: Seq<&str>) -> Seq<Seq<char>> {
    keys.map_values(|key: &str| key@)
}

/// The keys of a list of records.
pub open spec fn record_keys(records: Seq<NodeRecord>) -> Seq<Seq<char>> {
    records.map_values(|record: NodeRecord| record.key@)
}

/// The keys of a list of nodes.
pub open spec fn node_keys(nodes: Seq<Rc<Node>>) -> Seq<Seq<char>> {
    nodes.map_values(|node: Rc<Node>| node.key@)
}

/// The conflict among siblings with the given keys below a parent with
/// identity `parent_id`: the identity that the first repeated key leads to.
pub open spec fn sibling_conflict(parent_id: Seq<char>, keys: Seq<Seq<char>>) -> Option<ErrorView> {
    match first_duplicate(keys) {
        Some(j) => Some(ErrorView::ConflictingKeys(child_id(parent_id, keys[j]))),
        None => None,
    }
}

/// The first conflict below `records`, whose parent has identity `parent_id`:
/// for each record in order, first a conflict among its children, then the
/// conflicts further down.
pub open spec fn nested_conflict(records: Seq<NodeRecord>, parent_id: Seq<char>) -> Option<ErrorView>
    decreases records,
{
    if records.len() == 0 {
        None
    } else {
        match nested_conflict(records.drop_last(), parent_id) {
            Some(error) => Some(error),
            None => {
                let record = records.last();
                let id = child_id(parent_id, record.key@);
                match sibling_conflict(id, record_keys(record.keys@)) {
                    Some(error) => Some(error),
                    None => nested_conflict(record.keys@, id),
                }
            },
        }
    }
}

/// The first conflict of keys in a whole configuration: one among the
/// top-level records, else the first one further down.
pub open spec fn conflict_error(records: Seq<NodeRecord>) -> Option<ErrorView> {
    match sibling_conflict(Seq::<char>::empty(), record_keys(records)) {
        Some(error) => Some(error),
        None => nested_conflict(records, Seq::<char>::empty()),
    }
}

/// The error with which loading `records` fails, none if it succeeds: a fault
/// in the shape of any record comes before every conflict of keys.
pub open spec fn load_error(records: Seq<NodeRecord>) -> Option<ErrorView> {
    match shape_error(records) {
        Some(error) => Some(error),
        None => conflict_error(records),
    }
}

/// `node` is what `record` describes below a parent with identity
/// `parent_id`: the identity is the parent's followed by the key, a missing
/// name or value is filled in, a node with choices or a prompt is fleeting,
/// and the children are what the record's children describe.
pub open spec fn represents(node: Rc<Node>, record: NodeRecord, parent_id: Seq<char>) -> bool
    decreases record,
{
    &&& node.id@ == child_id(parent_id, record.key@)
    &&& node.key@ == record.key@
    &&& node.name@ == record.name_text()
    &&& node.value@ == record.value_text()
    &&& node.is_immediate == record.immediate
    &&& node.is_fleeting == (record.fleeting || record.input is Some || record.choices@.len() > 0)
    &&& node.is_anchor == record.anchor
    &&& node.is_loop == record.loop_
    &&& node.is_repeatable == record.repeatable
    &&& node.choices@ == record.choices@
    &&& node.input_type == record.input
    &&& node.keys@.len() == record.keys@.len()
    &&& forall|i: int|
        0 <= i < record.keys@.len() ==> represents(
            #[trigger] node.keys@[i],
            record.keys@[i],
            node.id@,
        )
}

/// `nodes` are what `records` describe, one for one.
pub open spec fn represents_all(
    nodes: Seq<Rc<Node>>,
    records: Seq<NodeRecord>,
    parent_id: Seq<char>,
) -> bool {
    &&& nodes.len() == records.len()
    &&& forall|i: int|
        0 <= i < records.len() ==> represents(#[trigger] nodes[i], records[i], parent_id)
}

/// `node` is a well-formed tree below a parent with identity `parent_id`.
pub open spec fn valid_node(node: Rc<Node>, parent_id: Seq<char>) -> bool
    decreases node,
{
    &&& node.key@.len() == 1
    &&& node.id@ == child_id(parent_id, node.key@)
    &&& node.name@.len() > 0
    &&& node.action_count() <= 1
    &&& (node.choices@.len() > 0 || node.input_type is Some) ==> node.is_fleeting
    &&& distinct(node_keys(node.keys@))
    &&& forall|i: int| 0 <= i < node.keys@.len() ==> valid_node(#[trigger] node.keys@[i], node.id@)
}

/// `nodes` are well-formed siblings below a parent with identity `parent_id`:
/// their keys are distinct and each is a well-formed tree.
pub open spec fn valid_tree(nodes: Seq<Rc<Node>>, parent_id: Seq<char>) -> bool {
    &&& distinct(node_keys(nodes))
    &&& forall|i: int| 0 <= i < nodes.len() ==> valid_node(#[trigger] nodes[i], parent_id)
}

/// Where `first_duplicate` finds nothing the keys are distinct, and the
/// other way round; what it finds repeats an earlier key, and no key before
/// it does.
pub proof fn lemma_first_duplicate(keys: Seq<Seq<char>>)
    ensures
        first_duplicate(keys) is None <==> distinct(keys),
        first_duplicate(keys) matches Some(j) ==> {
            &&& 0 <= j < keys.len()
            &&& exists|i: int| 0 <= i < j && keys[i] == keys[j]
            &&& distinct(keys.take(j))
        },
    decreases keys.len(),
{
    if keys.len() > 0 {
        let front = keys.drop_last();
        let last = keys.len() - 1;
        lemma_first_duplicate(front);
        match first_duplicate(front) {
            Some(j) => {
                let i = choose|i: int| 0 <= i < j && front[i] == front[j];
                assert(keys[i] == keys[j]);
                assert(front.take(j) =~= keys.take(j));
            },
            None => {
                assert(front =~= keys.take(last));
                if front.contains(keys.last()) {
                    let i = choose|i: int| 0 <= i < front.len() && front[i] == keys.last();
                    assert(keys[i] == keys[last]);
                } else {
                    assert forall|i: int, j: int| 0 <= i < j < keys.len() implies keys[i]
                        != keys[j] by {
                        if j < last {
                            assert(front[i] != front[j]);
                        } else {
                            assert(front[i] == keys[i]);
                        }
                    }
                }
            },
        }
    }
}

/// A repeated key found in the first `k` keys is the one found in all of them.
pub proof fn lemma_first_duplicate_prefix(keys: Seq<Seq<char>>, k: int)
    requires
        0 <= k <= keys.len(),
        first_duplicate(keys.take(k)) is Some,
    ensures
        first_duplicate(keys) == first_duplicate(keys.take(k)),
    decreases keys.len() - k,
{
    if k < keys.len() {
        assert(keys.take(k + 1).drop_last() =~= keys.take(k));
        lemma_first_duplicate_prefix(keys, k + 1);
    } else {
        assert(keys.take(k) =~= keys);
    }
}

/// A fault found in the first `k` records is the one found in all of them.
pub proof fn lemma_shape_error_prefix(records: Seq<NodeRecord>, k: int)
    requires
        0 <= k <= records.len(),
        shape_error(records.take(k)) is Some,
    ensures
        shape_error(records) == shape_error(records.take(k)),
    decreases records.len() - k,
{
    if k < records.len() {
        assert(records.take(k + 1).drop_last() =~= records.take(k));
        lemma_shape_error_prefix(records, k + 1);
    } else {
        assert(records.take(k) =~= records);
    }
}

/// A conflict found below the first `k` records is the one found below all of
/// them.
pub proof fn lemma_nested_conflict_prefix(records: Seq<NodeRecord>, parent_id: Seq<char>, k: int)
    requires
        0 <= k <= records.len(),
        nested_conflict(records.take(k), parent_id) is Some,
    ensures
        nested_conflict(records, parent_id) == nested_conflict(records.take(k), parent_id),
    decreases records.len() - k,
{
    if k < records.len() {
        assert(records.take(k + 1).drop_last() =~= records.take(k));
        lemma_nested_conflict_prefix(records, parent_id, k + 1);
    } else {
        assert(records.take(k) =~= records);
    }
}

/// Every record, here and further down, is sound taken alone, and siblings
/// have distinct keys, here and further down.
pub open spec fn well_described(records: Seq<NodeRecord>) -> bool
    decreases records,
{
    &&& distinct(record_keys(records))
    &&& forall|i: int|
        0 <= i < records.len() ==> (#[trigger] records[i]).own_error() is None && well_described(
            records[i].keys@,
        )
}

/// The shape of `records` is without fault exactly if each of them is sound
/// taken alone and the shape of its children is without fault.
pub proof fn lemma_shape_error_none(records: Seq<NodeRecord>)
    ensures
        shape_error(records) is None <==> forall|i: int|
            0 <= i < records.len() ==> (#[trigger] records[i]).own_error() is None && shape_error(
                records[i].keys@,
            ) is None,
    decreases records.len(),
{
    if records.len() > 0 {
        let front = records.drop_last();
        lemma_shape_error_none(front);
        if shape_error(records) is None {
            assert forall|i: int| 0 <= i < records.len() implies (#[trigger] records[i]).own_error()
                is None && shape_error(records[i].keys@) is None by {
                if i < front.len() {
                    assert(front[i] == records[i]);
                }
            }
        } else {
            if shape_error(front) is Some {
                let i = choose|i: int|
                    0 <= i < front.len() && !((#[trigger] front[i]).own_error() is None
                        && shape_error(front[i].keys@) is None);
                assert(front[i] == records[i]);
            }
        }
    }
}

/// Nothing conflicts below `records` exactly if the children of each of them
/// have distinct keys and nothing conflicts below those children.
pub proof fn lemma_nested_conflict_none(records: Seq<NodeRecord>, parent_id: Seq<char>)
    ensures
        nested_conflict(records, parent_id) is None <==> forall|i: int|
            0 <= i < records.len() ==> distinct(record_keys((#[trigger] records[i]).keys@))
                && nested_conflict(records[i].keys@, child_id(parent_id, records[i].key@)) is None,
    decreases records.len(),
{
    if records.len() > 0 {
        let front = records.drop_last();
        let last = records.last();
        lemma_nested_conflict_none(front, parent_id);
        lemma_first_duplicate(record_keys(last.keys@));
        if nested_conflict(records, parent_id) is None {
            assert forall|i: int| 0 <= i < records.len() implies distinct(
                record_keys((#[trigger] records[i]).keys@),
            ) && nested_conflict(records[i].keys@, child_id(parent_id, records[i].key@))
                is None by {
                if i < front.len() {
                    assert(front[i] == records[i]);
                }
            }
        } else {
            if nested_conflict(front, parent_id) is Some {
                let i = choose|i: int|
                    0 <= i < front.len() && !(distinct(record_keys((#[trigger] front[i]).keys@))
                        && nested_conflict(front[i].keys@, child_id(parent_id, front[i].key@))
                        is None);
                assert(front[i] == records[i]);
            }
        }
    }
}

/// Records whose keys are distinct are without a fault of shape and without
/// a conflict further down exactly if they are well described.
pub proof fn lemma_sound_iff_well_described(records: Seq<NodeRecord>, parent_id: Seq<char>)
    ensures
        (distinct(record_keys(records)) && shape_error(records) is None && nested_conflict(
            records,
            parent_id,
        ) is None) <==> well_described(records),
    decreases records,
{
    lemma_shape_error_none(records);
    lemma_nested_conflict_none(records, parent_id);
    assert forall|i: int| 0 <= i < records.len() implies ((distinct(
        record_keys((#[trigger] records[i]).keys@),
    ) && shape_error(records[i].keys@) is None && nested_conflict(
        records[i].keys@,
        child_id(parent_id, records[i].key@),
    ) is None) <==> well_described(records[i].keys@)) by {
        lemma_sound_iff_well_described(records[i].keys@, child_id(parent_id, records[i].key@));
    }
}

/// Loading succeeds exactly for records that are well described: every node
/// has a key of one character, a name, and at most one action, and no two
/// siblings share a key.
pub proof fn lemma_load_succeeds_iff_well_described(records: Seq<NodeRecord>)
    ensures
        load_error(records) is None <==> well_described(records),
{
    lemma_first_duplicate(record_keys(records));
    lemma_sound_iff_well_described(records, Seq::<char>::empty());
}

/// Nodes that stand for records without a fault of shape and without a
/// conflict of keys form a well-formed tree.
pub proof fn lemma_loaded_tree_is_valid(
    nodes: Seq<Rc<Node>>,
    records: Seq<NodeRecord>,
    parent_id: Seq<char>,
)
    requires
        represents_all(nodes, records, parent_id),
        shape_error(records) is None,
        sibling_conflict(parent_id, record_keys(records)) is None,
        nested_conflict(records, parent_id) is None,
    ensures
        valid_tree(nodes, parent_id),
    decreases records,
{
    lemma_first_duplicate(record_keys(records));
    assert(node_keys(nodes) =~= record_keys(records)) by {
        assert forall|i: int| 0 <= i < nodes.len() implies node_keys(nodes)[i] == record_keys(
            records,
        )[i] by {
            assert(represents(nodes[i], records[i], parent_id));
        }
    }
    assert forall|i: int| 0 <= i < nodes.len() implies valid_node(#[trigger] nodes[i], parent_id) by {
        let node = nodes[i];
        let record = records[i];
        assert(represents(node, record, parent_id));
        assert(shape_error(records.take(i + 1)) is None) by {
            if shape_error(records.take(i + 1)) is Some {
                lemma_shape_error_prefix(records, i + 1);
            }
        }
        assert(nested_conflict(records.take(i + 1), parent_id) is None) by {
            if nested_conflict(records.take(i + 1), parent_id) is Some {
                lemma_nested_conflict_prefix(records, parent_id, i + 1);
            }
        }
        assert(records.take(i + 1).last() == record);
        assert(represents_all(node.keys@, record.keys@, node.id@));
        lemma_loaded_tree_is_valid(node.keys@, record.keys@, node.id@);
    }
}

/// `path` is a walk down the tree: its first node is one of `roots`, and each
/// further node is a child of the one before.
pub open spec fn descends(path: Seq<Rc<Node>>, roots: Seq<Rc<Node>>) -> bool
    decreases path.len(),
{
    if path.len() == 0 {
        true
    } else {
        roots.contains(path[0]) && descends(path.drop_first(), path[0].keys@)
    }
}

/// The keys of the nodes of `path`, one after the other.
pub open spec fn keys_along(path: Seq<Rc<Node>>) -> Seq<char>
    decreases path.len(),
{
    if path.len() == 0 {
        Seq::<char>::empty()
    } else {
        path[0].key@ + keys_along(path.drop_first())
    }
}

/// The children of a well-formed node are well-formed siblings below it.
pub proof fn lemma_valid_children(node: Rc<Node>, parent_id: Seq<char>)
    requires
        valid_node(node, parent_id),
    ensures
        valid_tree(node.keys@, node.id@),
{
}

/// In a well-formed tree the identity of a node is the identity of the
/// tree's parent followed by the keys on the way from the top level down to
/// the node. For a whole configuration the parent's identity is empty, so
/// the identity is the concatenation of the keys from the root to the node.
pub proof fn lemma_identity_is_key_path(
    roots: Seq<Rc<Node>>,
    parent_id: Seq<char>,
    path: Seq<Rc<Node>>,
)
    requires
        valid_tree(roots, parent_id),
        descends(path, roots),
        path.len() > 0,
    ensures
        path.last().id@ == parent_id + keys_along(path),
    decreases path.len(),
{
    let first = path[0];
    let rest = path.drop_first();
    let k = choose|k: int| 0 <= k < roots.len() && roots[k] == first;
    assert(valid_node(roots[k], parent_id));
    if rest.len() == 0 {
        assert(keys_along(rest) =~= Seq::<char>::empty());
        assert(parent_id + keys_along(path) =~= first.id@);
    } else {
        lemma_valid_children(first, parent_id);
        lemma_identity_is_key_path(first.keys@, first.id@, rest);
        assert(rest.last() == path.last());
        assert(first.id@ + keys_along(rest) =~= parent_id + keys_along(path));
    }
}

/// The display name of a record: its name, or else its value, or else nothing.
fn resolved_name(record: &NodeRecord) -> (name: String)
    ensures
        name@ == record.name_text(),
{
    match &record.name {
        Some(name) => name.clone(),
        None => resolved_value(record),
    }
}

/// The command token of a record: its value, or else nothing.
fn resolved_value(record: &NodeRecord) -> (value: String)
    ensures
        value@ == record.value_text(),
{
    match &record.value {
        Some(value) => value.clone(),
        None => String::new(),
    }
}

/// Checks one record, its children aside.
fn check_record(record: &NodeRecord) -> (r: Result<(), WhichCmdError>)
    ensures
        match r {
            Ok(_) => record.own_error() is None,
            Err(error) => record.own_error() == Some(error@),
        },
{
    if record.key.as_str().unicode_len() != 1 {
        return Err(WhichCmdError::InvalidKey(record.key.clone()));
    }
    let name = resolved_name(record);
    if name.as_str().is_empty() {
        return Err(WhichCmdError::MissingName);
    }
    let mut actions: u8 = 0;
    if !record.keys.is_empty() {
        actions += 1;
    }
    if !record.choices.is_empty() {
        actions += 1;
    }
    if record.input.is_some() {
        actions += 1;
    }
    if actions > 1 {
        return Err(WhichCmdError::MultipleActions(name));
    }
    Ok(())
}

/// Checks the shape of every record, the children of a record before the
/// record itself.
fn check_records(records: &Vec<NodeRecord>) -> (r: Result<(), WhichCmdError>)
    ensures
        match r {
            Ok(_) => shape_error(records@) is None,
            Err(error) => shape_error(records@) == Some(error@),
        },
    decreases records@,
{
    let mut i: usize = 0;
    while i < records.len()
        invariant
            i <= records@.len(),
            shape_error(records@.take(i as int)) is None,
        decreases records@.len() - i,
    {
        let record = &records[i];
        proof {
            assert(records@.take(i + 1).drop_last() =~= records@.take(i as int));
            assert(records@.take(i + 1).last() == records@[i as int]);
        }
        match check_records(&record.keys) {
            Err(error) => {
                proof {
                    lemma_shape_error_prefix(records@, i + 1);
                }
                return Err(error);
            },
            Ok(_) => {},
        }
        match check_record(record) {
            Err(error) => {
                proof {
                    lemma_shape_error_prefix(records@, i + 1);
                }
                return Err(error);
            },
            Ok(_) => {},
        }
        i += 1;
    }
    proof {
        assert(records@.take(i as int) =~= records@);
    }
    Ok(())
}

/// The keys of `records` as string slices.
fn keys_of(records: &Vec<NodeRecord>) -> (keys: Vec<&str>)
    ensures
        texts(keys@) == record_keys(records@),
{
    let mut keys: Vec<&str> = Vec::new();
    let mut i: usize = 0;
    while i < records.len()
        invariant
            i <= records@.len(),
            keys@.len() == i,
            forall|k: int| 0 <= k < i ==> (#[trigger] keys@[k])@ == records@[k].key@,
        decreases records@.len() - i,
    {
        keys.push(records[i].key.as_str());
        i += 1;
    }
    proof {
        assert(texts(keys@) =~= record_keys(records@));
    }
    keys
}

/// Copies a list of strings.
pub(crate) fn copy_texts(list: &Vec<String>) -> (copy: Vec<String>)
    ensures
        copy@ == list@,
{
    let mut copy: Vec<String> = Vec::new();
    let mut i: usize = 0;
    while i < list.len()
        invariant
            i <= list@.len(),
            copy@ == list@.take(i as int),
        decreases list@.len() - i,
    {
        copy.push(list[i].clone());
        proof {
            assert(copy@ =~= list@.take(i + 1));
        }
        i += 1;
    }
    proof {
        assert(list@.take(i as int) =~= list@);
    }
    copy
}

/// Builds the nodes that `records` describe below a parent with identity
/// `parent_id`, and stops at the first conflict of keys further down.
fn build_nodes(records: &Vec<NodeRecord>, parent_id: &str) -> (r: Result<
    Vec<Rc<Node>>,
    WhichCmdError,
>)
    ensures
        match r {
            Ok(nodes) => nested_conflict(records@, parent_id@) is None && represents_all(
                nodes@,
                records@,
                parent_id@,
            ),
            Err(error) => nested_conflict(records@, parent_id@) == Some(error@),
        },
    decreases records@,
{
    let mut nodes: Vec<Rc<Node>> = Vec::new();
    let mut i: usize = 0;
    while i < records.len()
        invariant
            i <= records@.len(),
            nodes@.len() == i,
            nested_conflict(records@.take(i as int), parent_id@) is None,
            forall|k: int| 0 <= k < i ==> represents(#[trigger] nodes@[k], records@[k], parent_id@),
        decreases records@.len() - i,
    {
        let record = &records[i];
        proof {
            assert(records@.take(i + 1).drop_last() =~= records@.take(i as int));
            assert(records@.take(i + 1).last() == records@[i as int]);
        }
        let id = Node::id_from_parent(parent_id, record.key.as_str());
        let keys = keys_of(&record.keys);
        match Config::ensure_unique(id.as_str(), keys.as_slice()) {
            Err(error) => {
                proof {
                    lemma_nested_conflict_prefix(records@, parent_id@, i + 1);
                }
                return Err(error);
            },
            Ok(_) => {},
        }
        let children = match build_nodes(&record.keys, id.as_str()) {
            Err(error) => {
                proof {
                    lemma_nested_conflict_prefix(records@, parent_id@, i + 1);
                }
                return Err(error);
            },
            Ok(children) => children,
        };
        let node = Node {
            id,
            key: record.key.clone(),
            name: resolved_name(record),
            value: resolved_value(record),
            is_immediate: record.immediate,
            is_fleeting: record.fleeting || record.input.is_some() || !record.choices.is_empty(),
            is_anchor: record.anchor,
            is_loop: record.loop_,
            is_repeatable: record.repeatable,
            keys: children,
            choices: copy_texts(&record.choices),
            input_type: record.input,
        };
        let ghost before = nodes@;
        nodes.push(Rc::new(node));
        proof {
            assert forall|k: int| 0 <= k < i + 1 implies represents(
                #[trigger] nodes@[k],
                records@[k],
                parent_id@,
            ) by {
                if k < i {
                    assert(nodes@[k] == before[k]);
                }
            }
        }
        i += 1;
    }
    proof {
        assert(records@.take(i as int) =~= records@);
    }
    Ok(nodes)
}

impl Config {
    /// Every node has a one-character key, a name and at most one action,
    /// siblings have distinct keys, and each identity is the parent's
    /// identity followed by the node's key.
    pub open spec fn wf(&self) -> bool {
        valid_tree(self.keys@, Seq::<char>::empty())
    }

    /// Checks the records and builds the tree they describe, each node with
    /// its identity. Fails with the first fault of shape, or else with the
    /// first conflict of keys; otherwise the tree is well-formed.
    pub fn from_records(records: &Vec<NodeRecord>) -> (r: Result<Config, WhichCmdError>)
        ensures
            match r {
                Ok(config) => {
                    &&& load_error(records@) is None
                    &&& represents_all(config.keys@, records@, Seq::<char>::empty())
                    &&& config.wf()
                },
                Err(error) => load_error(records@) == Some(error@),
            },
    {
        match check_records(records) {
            Err(error) => {
                return Err(error);
            },
            Ok(_) => {},
        }
        let keys = keys_of(records);
        proof {
            reveal_strlit("");
            assert(""@ =~= Seq::<char>::empty());
        }
        match Config::ensure_unique("", keys.as_slice()) {
            Err(error) => {
                return Err(error);
            },
            Ok(_) => {},
        }
        match build_nodes(records, "") {
            Err(error) => Err(error),
            Ok(nodes) => {
                proof {
                    lemma_loaded_tree_is_valid(nodes@, records@, Seq::<char>::empty());
                }
                Ok(Config { keys: nodes })
            },
        }
    }

    /// Succeeds when no two of `keys` are equal. Otherwise fails with the
    /// identity that the first repeated key gives below `parent_id`.
    pub fn ensure_unique(parent_id: &str, keys: &[&str]) -> (r: Result<(), WhichCmdError>)
        ensures
            r is Ok <==> distinct(texts(keys@)),
            match r {
                Ok(_) => sibling_conflict(parent_id@, texts(keys@)) is None,
                Err(error) => sibling_conflict(parent_id@, texts(keys@)) == Some(error@),
            },
    {
        let ghost all = texts(keys@);
        let mut j: usize = 0;
        while j < keys.len()
            invariant
                j <= keys@.len(),
                all == texts(keys@),
                first_duplicate(all.take(j as int)) is None,
            decreases keys@.len() - j,
        {
            let mut i: usize = 0;
            proof {
                assert(all.take(j + 1).drop_last() =~= all.take(j as int));
                assert(all.take(j + 1).last() == all[j as int]);
            }
            while i < j
                invariant
                    i <= j < keys@.len(),
                    all == texts(keys@),
                    first_duplicate(all.take(j as int)) is None,
                    forall|k: int| 0 <= k < i ==> all[k] != all[j as int],
                decreases j - i,
            {
                if same_text(keys[i], keys[j]) {
                    proof {
                        assert(all.take(j as int)[i as int] == all[j as int]);
                        assert(all.take(j as int).contains(all[j as int]));
                        assert(all.take(j + 1).drop_last() =~= all.take(j as int));
                        assert(all.take(j + 1).last() == all[j as int]);
                        assert(first_duplicate(all.take(j + 1)) == Some(j as int));
                        lemma_first_duplicate_prefix(all, j + 1);
                        lemma_first_duplicate(all);
                    }
                    return Err(
                        WhichCmdError::ConflictingKeys(Node::id_from_parent(parent_id, keys[j])),
                    );
                }
                i += 1;
            }
            proof {
                assert(!all.take(j as int).contains(all[j as int])) by {
                    if all.take(j as int).contains(all[j as int]) {
                        let k = choose|k: int|
                            0 <= k < all.take(j as int).len() && all.take(j as int)[k] == all[j as int];
                        assert(all[k] == all[j as int]);
                    }
                }
            }
            j += 1;
        }
        proof {
            assert(all.take(j as int) =~= all);
            lemma_first_duplicate(all);
        }
        Ok(())
    }
}

} // verus!
