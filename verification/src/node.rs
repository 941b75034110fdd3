use crate::constants::{CHOICE_KEY, INPUT_KEY};
use std::rc::Rc;
use vstd::prelude::*;
use vstd::string::*;

verus! {

/// What a prompt asks for.
#[derive(Debug, Clone, Copy, PartialEq, Eq, Structural)]
pub enum InputType {
    Text,
    Number,
}

/// One selectable entry of the command tree, or a node made during a session
/// to stand for a picked choice or for typed text.
#[derive(Debug, Clone)]
pub struct Node {
    pub id: String,
    pub key: String,
    pub name: String,
    pub value: String,
    pub is_immediate: bool,
    pub is_fleeting: bool,
    pub is_anchor: bool,
    pub is_loop: bool,
    pub is_repeatable: bool,
    pub keys: Vec<Rc<Node>>,
    pub choices: Vec<String>,
    pub input_type: Option<InputType>,
}

/// `Rc::clone`: a second handle to the same allocation, so the value it
/// points to is the value `node` points to.
#[verifier::external_body]
pub(crate) fn share(node: &Rc<Node>) -> (r: Rc<Node>)
    ensures
        r == *node,
{
    Rc::clone(node)
}

/// The identity of a node with key `key` below a parent with identity
/// `parent_id`: the parent's identity followed by the key.
pub open spec fn child_id(parent_id: Seq<char>, key: Seq<char>) -> Seq<char> {
    parent_id + key
}

impl Node {
    /// No children, no choices and no prompt.
    pub open spec fn leaf(&self) -> bool {
        self.keys@.len() == 0 && self.choices@.len() == 0 && self.input_type is None
    }

    /// How many of the three kinds of action (children, choices, prompt) the
    /// node carries.
    pub open spec fn action_count(&self) -> nat {
        (if self.keys@.len() > 0 { 1nat } else { 0nat })
        + (if self.choices@.len() > 0 { 1nat } else { 0nat })
        + (if self.input_type is Some { 1nat } else { 0nat })
    }

    /// A node made during a session: a leaf with the given identity, key and
    /// text, and every flag off.
    pub open spec fn is_synthesized(&self, id: Seq<char>, key: Seq<char>, text: Seq<char>) -> bool {
        &&& self.id@ == id
        &&& self.key@ == key
        &&& self.name@ == text
        &&& self.value@ == text
        &&& !self.is_immediate
        &&& !self.is_fleeting
        &&& !self.is_anchor
        &&& !self.is_loop
        &&& !self.is_repeatable
        &&& self.leaf()
    }

    /// Whether the node has no children, no choices and no prompt.
    pub fn is_leaf(&self) -> (b: bool)
        ensures
            b == self.leaf(),
    {
        self.keys.is_empty() && !self.has_choices() && self.input_type.is_none()
    }

    /// Whether the node offers choices.
    pub fn has_choices(&self) -> (b: bool)
        ensures
            b == (self.choices@.len() > 0),
    {
        !self.choices.is_empty()
    }

    /// Sets the identity to the parent's identity followed by the node's key.
    pub fn set_id_from_parent(&mut self, parent_id: &str)
        ensures
            final(self).id@ == child_id(parent_id@, old(self).key@),
            final(self).key == old(self).key,
            final(self).name == old(self).name,
            final(self).value == old(self).value,
            final(self).is_immediate == old(self).is_immediate,
            final(self).is_fleeting == old(self).is_fleeting,
            final(self).is_anchor == old(self).is_anchor,
            final(self).is_loop == old(self).is_loop,
            final(self).is_repeatable == old(self).is_repeatable,
            final(self).keys == old(self).keys,
            final(self).choices == old(self).choices,
            final(self).input_type == old(self).input_type,
    {
        self.id = Node::id_from_parent(parent_id, self.key.as_str());
    }

    /// The identity of a node with this key below a parent with this identity.
    pub fn id_from_parent(parent_id: &str, key: &str) -> (id: String)
        ensures
            id@ == child_id(parent_id@, key@),
    {
        if !parent_id.is_empty() {
            String::from_str(parent_id).concat(key)
        } else {
            assert(parent_id@ + key@ =~= key@);
            String::from_str(key)
        }
    }

    /// The node that stands for the choice at position `choice`: its identity
    /// is this node's identity followed by the choice key. None where the node
    /// has no choice at that position.
    #[must_use]
    pub fn with_selection(&self, choice: usize) -> (r: Option<Node>)
        ensures
            choice >= self.choices@.len() ==> r is None,
            choice < self.choices@.len() ==> r is Some && r->0.is_synthesized(
                child_id(self.id@, CHOICE_KEY@),
                CHOICE_KEY@,
                self.choices@[choice as int]@,
            ),
    {
        if choice >= self.choices.len() {
            return None;
        }
        let selection = self.choices[choice].as_str();
        Some(
            Node {
                id: Node::id_from_parent(self.id.as_str(), CHOICE_KEY),
                key: String::from_str(CHOICE_KEY),
                name: String::from_str(selection),
                value: String::from_str(selection),
                is_immediate: false,
                is_fleeting: false,
                is_anchor: false,
                is_loop: false,
                is_repeatable: false,
                keys: Vec::new(),
                choices: Vec::new(),
                input_type: None,
            },
        )
    }

    /// The node that stands for text typed below this node: its identity is
    /// this node's identity followed by the text, and its key is the input key.
    #[must_use]
    pub fn with_input(&self, input: &str) -> (r: Node)
        ensures
            r.is_synthesized(child_id(self.id@, input@), INPUT_KEY@, input@),
    {
        Node {
            id: Node::id_from_parent(self.id.as_str(), input),
            key: String::from_str(INPUT_KEY),
            name: String::from_str(input),
            value: String::from_str(input),
            is_immediate: false,
            is_fleeting: false,
            is_anchor: false,
            is_loop: false,
            is_repeatable: false,
            keys: Vec::new(),
            choices: Vec::new(),
            input_type: None,
        }
    }
}

} // verus!
