use crate::command_node::{lacks_name, lemma_lacks_name_prefix};
use crate::config::NodeRecord;
use crate::constants::{CHOICE_KEY, INPUT_KEY};
use crate::error::{ErrorView, WhichCmdError};
use crate::node::child_id;
use vstd::prelude::*;
use vstd::string::*;

verus! {

/// What a prompt asks for.
#[derive(Debug, Clone, Copy, PartialEq, Eq, Structural)]
pub enum InputType {
    Text,
    Number,
}

/// A node of a command tree that owns its children.
#[derive(Debug)]
pub struct ConfigNode {
    pub id: String,
    pub key: String,
    pub name: String,
    pub value: String,
    pub is_immediate: bool,
    pub is_fleeting: bool,
    pub is_anchor: bool,
    pub is_loop: bool,
    pub is_repeatable: bool,
    pub keys: Vec<ConfigNode>,
    pub choices: Vec<String>,
    pub input_type: Option<InputType>,
}

/// The kind of prompt that a record asks for.
pub open spec fn prompt_of(record: NodeRecord) -> Option<InputType> {
    match record.input {
        Some(crate::node::InputType::Text) => Some(InputType::Text),
        Some(crate::node::InputType::Number) => Some(InputType::Number),
        None => None,
    }
}

/// `node` is what `record` describes, with no identity yet: a missing name
/// or value is filled in, everything else is taken as it is, and the
/// children are what the record's children describe.
pub open spec fn mirrors(node: ConfigNode, record: NodeRecord) -> bool
    decreases record,
{
    &&& node.id@.len() == 0
    &&& node.key@ == record.key@
    &&& node.name@ == record.name_text()
    &&& node.value@ == record.value_text()
    &&& node.is_immediate == record.immediate
    &&& node.is_fleeting == record.fleeting
    &&& node.is_anchor == record.anchor
    &&& node.is_loop == record.loop_
    &&& node.is_repeatable == record.repeatable
    &&& node.choices@ == record.choices@
    &&& node.input_type == prompt_of(record)
    &&& node.keys@.len() == record.keys@.len()
    &&& forall|i: int|
        0 <= i < record.keys@.len() ==> mirrors(#[trigger] node.keys@[i], record.keys@[i])
}

/// Builds the nodes that `records` describe, or fails where a name is
/// missing.
fn nodes_from(records: &Vec<NodeRecord>) -> (r: Result<Vec<ConfigNode>, WhichCmdError>)
    ensures
        match r {
            Ok(nodes) => {
                &&& !lacks_name(records@)
                &&& nodes@.len() == records@.len()
                &&& forall|i: int|
                    0 <= i < records@.len() ==> mirrors(#[trigger] nodes@[i], records@[i])
            },
            Err(error) => lacks_name(records@) && error@ == ErrorView::MissingName,
        },
    decreases records@,
{
    let mut nodes: Vec<ConfigNode> = Vec::new();
    let mut i: usize = 0;
    while i < records.len()
        invariant
            i <= records@.len(),
            nodes@.len() == i,
            !lacks_name(records@.take(i as int)),
            forall|k: int| 0 <= k < i ==> mirrors(#[trigger] nodes@[k], records@[k]),
        decreases records@.len() - i,
    {
        proof {
            assert(records@.take(i + 1).drop_last() =~= records@.take(i as int));
            assert(records@.take(i + 1).last() == records@[i as int]);
        }
        match ConfigNode::from_record(&records[i]) {
            Err(error) => {
                proof {
                    lemma_lacks_name_prefix(records@, i + 1);
                }
                return Err(error);
            },
            Ok(node) => {
                let ghost before = nodes@;
                nodes.push(node);
                proof {
                    assert forall|k: int| 0 <= k < i + 1 implies mirrors(
                        #[trigger] nodes@[k],
                        records@[k],
                    ) by {
                        if k < i {
                            assert(nodes@[k] == before[k]);
                        }
                    }
                }
            },
        }
        i += 1;
    }
    proof {
        assert(records@.take(i as int) =~= records@);
    }
    Ok(nodes)
}

impl ConfigNode {
    /// Builds the node that `record` describes, without an identity. Fails
    /// where the record or one below it has neither a name nor a value to
    /// take the name from.
    pub fn from_record(record: &NodeRecord) -> (r: Result<ConfigNode, WhichCmdError>)
        ensures
            match r {
                Ok(node) => {
                    &&& !lacks_name(record.keys@)
                    &&& record.name_text().len() > 0
                    &&& mirrors(node, *record)
                },
                Err(error) => {
                    &&& lacks_name(record.keys@) || record.name_text().len() == 0
                    &&& error@ == ErrorView::MissingName
                },
            },
        decreases record,
    {
        let keys = match nodes_from(&record.keys) {
            Err(error) => {
                return Err(error);
            },
            Ok(keys) => keys,
        };
        let value = match &record.value {
            Some(value) => value.clone(),
            None => String::new(),
        };
        let name = match &record.name {
            Some(name) => name.clone(),
            None => value.clone(),
        };
        if name.as_str().is_empty() {
            return Err(WhichCmdError::MissingName);
        }
        let input_type = match record.input {
            Some(crate::node::InputType::Text) => Some(InputType::Text),
            Some(crate::node::InputType::Number) => Some(InputType::Number),
            None => None,
        };
        Ok(
            ConfigNode {
                id: String::new(),
                key: record.key.clone(),
                name,
                value,
                is_immediate: record.immediate,
                is_fleeting: record.fleeting,
                is_anchor: record.anchor,
                is_loop: record.loop_,
                is_repeatable: record.repeatable,
                keys,
                choices: crate::config::copy_texts(&record.choices),
                input_type,
            },
        )
    }

    /// No children, no choices and no prompt.
    pub open spec fn leaf(&self) -> bool {
        self.keys@.len() == 0 && self.choices@.len() == 0 && self.input_type is None
    }

    /// A node made during a session: a leaf with the given identity, key and
    /// text, and every flag off.
    pub open spec fn is_synthesized(&self, id: Seq<char>, key: Seq<char>, text: Seq<char>) -> bool {
        &&& self.id@ == id
        &&& self.key@ == key
        &&& self.name@ == text
        &&& self.value@ == text
        &&& !self.is_immediate
        &&& !self.is_fleeting
        &&& !self.is_anchor
        &&& !self.is_loop
        &&& !self.is_repeatable
        &&& self.leaf()
    }

    /// Whether the node has no children, no choices and no prompt.
    pub fn is_leaf(&self) -> (b: bool)
        ensures
            b == self.leaf(),
    {
        self.keys.is_empty() && !self.has_choices() && !self.input_type.is_some()
    }

    /// Whether the node offers choices.
    pub fn has_choices(&self) -> (b: bool)
        ensures
            b == (self.choices@.len() > 0),
    {
        !self.choices.is_empty()
    }

    /// Sets the identity to the parent's identity followed by the node's key.
    pub fn set_id_from_parent(&mut self, parent_id: &str)
        ensures
            final(self).id@ == child_id(parent_id@, old(self).key@),
            final(self).key == old(self).key,
            final(self).name == old(self).name,
            final(self).value == old(self).value,
            final(self).is_immediate == old(self).is_immediate,
            final(self).is_fleeting == old(self).is_fleeting,
            final(self).is_anchor == old(self).is_anchor,
            final(self).is_loop == old(self).is_loop,
            final(self).is_repeatable == old(self).is_repeatable,
            final(self).keys == old(self).keys,
            final(self).choices == old(self).choices,
            final(self).input_type == old(self).input_type,
    {
        self.id = ConfigNode::id_from_parent(parent_id, self.key.as_str());
    }

    /// The identity of a node with this key below a parent with this identity.
    pub fn id_from_parent(parent_id: &str, key: &str) -> (id: String)
        ensures
            id@ == child_id(parent_id@, key@),
    {
        if !parent_id.is_empty() {
            String::from_str(parent_id).concat(key)
        } else {
            assert(parent_id@ + key@ =~= key@);
            String::from_str(key)
        }
    }

    /// The node that stands for the choice at position `choice`, which has to
    /// be one of this node's choices.
    pub fn with_selection(&self, choice: usize) -> (r: ConfigNode)
        requires
            choice < self.choices@.len(),
        ensures
            r.is_synthesized(
                child_id(self.id@, CHOICE_KEY@),
                CHOICE_KEY@,
                self.choices@[choice as int]@,
            ),
    {
        let selection = self.choices[choice].as_str();
        ConfigNode {
            id: ConfigNode::id_from_parent(self.id.as_str(), CHOICE_KEY),
            key: String::from_str(CHOICE_KEY),
            name: String::from_str(selection),
            value: String::from_str(selection),
            is_immediate: false,
            is_fleeting: false,
            is_anchor: false,
            is_loop: false,
            is_repeatable: false,
            keys: Vec::new(),
            choices: Vec::new(),
            input_type: None,
        }
    }

    /// The node that stands for text typed below this node: its identity is
    /// this node's identity followed by the text, and its key is the input key.
    pub fn with_input(&self, input: &str) -> (r: ConfigNode)
        ensures
            r.is_synthesized(child_id(self.id@, input@), INPUT_KEY@, input@),
    {
        ConfigNode {
            id: ConfigNode::id_from_parent(self.id.as_str(), input),
            key: String::from_str(INPUT_KEY),
            name: String::from_str(input),
            value: String::from_str(input),
            is_immediate: false,
            is_fleeting: false,
            is_anchor: false,
            is_loop: false,
            is_repeatable: false,
            keys: Vec::new(),
            choices: Vec::new(),
            input_type: None,
        }
    }
}

} // verus!
