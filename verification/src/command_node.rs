use crate::config::NodeRecord;
use crate::constants::CHOICE_KEY;
use crate::error::{ErrorView, WhichCmdError};
use vstd::prelude::*;
use vstd::string::*;

verus! {

/// A node of a command tree whose choices are nodes themselves.
#[derive(Debug, PartialEq)]
pub struct CommandNode {
    pub key: String,
    pub name: String,
    pub value: String,
    pub is_immediate: bool,
    pub is_fleeting: bool,
    pub is_anchor: bool,
    pub is_loop: bool,
    pub keys: Vec<CommandNode>,
    pub choices: Vec<CommandNode>,
}

/// Some record of `records`, or one below them, has an empty name.
pub open spec fn lacks_name(records: Seq<NodeRecord>) -> bool
    decreases records,
{
    if records.len() == 0 {
        false
    } else {
        lacks_name(records.drop_last()) || lacks_name(records.last().keys@)
            || records.last().name_text().len() == 0
    }
}

/// `node` is the node for the choice `text`: a leaf under the choice key
/// with the text as name and value and every flag off.
pub open spec fn is_choice(node: CommandNode, text: Seq<char>) -> bool {
    &&& node.key@ == CHOICE_KEY@
    &&& node.name@ == text
    &&& node.value@ == text
    &&& !node.is_immediate
    &&& !node.is_fleeting
    &&& !node.is_anchor
    &&& !node.is_loop
    &&& node.keys@.len() == 0
    &&& node.choices@.len() == 0
}

/// `node` is what `record` describes: a missing name or value is filled in,
/// the flags are taken as they are, every choice is a node of its own, and
/// the children are what the record's children describe.
pub open spec fn describes(node: CommandNode, record: NodeRecord) -> bool
    decreases record,
{
    &&& node.key@ == record.key@
    &&& node.name@ == record.name_text()
    &&& node.value@ == record.value_text()
    &&& node.is_immediate == record.immediate
    &&& node.is_fleeting == record.fleeting
    &&& node.is_anchor == record.anchor
    &&& node.is_loop == record.loop_
    &&& node.choices@.len() == record.choices@.len()
    &&& forall|i: int|
        0 <= i < record.choices@.len() ==> is_choice(
            #[trigger] node.choices@[i],
            record.choices@[i]@,
        )
    &&& node.keys@.len() == record.keys@.len()
    &&& forall|i: int|
        0 <= i < record.keys@.len() ==> describes(#[trigger] node.keys@[i], record.keys@[i])
}

/// A name missing somewhere in the first `k` records is missing in all of
/// them.
pub proof fn lemma_lacks_name_prefix(records: Seq<NodeRecord>, k: int)
    requires
        0 <= k <= records.len(),
        lacks_name(records.take(k)),
    ensures
        lacks_name(records),
    decreases records.len() - k,
{
    if k < records.len() {
        assert(records.take(k + 1).drop_last() =~= records.take(k));
        lemma_lacks_name_prefix(records, k + 1);
    } else {
        assert(records.take(k) =~= records);
    }
}

/// Builds the nodes that `records` describe, or fails where a name is
/// missing.
fn nodes_from(records: &Vec<NodeRecord>) -> (r: Result<Vec<CommandNode>, WhichCmdError>)
    ensures
        match r {
            Ok(nodes) => {
                &&& !lacks_name(records@)
                &&& nodes@.len() == records@.len()
                &&& forall|i: int|
                    0 <= i < records@.len() ==> describes(#[trigger] nodes@[i], records@[i])
            },
            Err(error) => lacks_name(records@) && error@ == ErrorView::MissingName,
        },
    decreases records@,
{
    let mut nodes: Vec<CommandNode> = Vec::new();
    let mut i: usize = 0;
    while i < records.len()
        invariant
            i <= records@.len(),
            nodes@.len() == i,
            !lacks_name(records@.take(i as int)),
            forall|k: int| 0 <= k < i ==> describes(#[trigger] nodes@[k], records@[k]),
        decreases records@.len() - i,
    {
        proof {
            assert(records@.take(i + 1).drop_last() =~= records@.take(i as int));
            assert(records@.take(i + 1).last() == records@[i as int]);
        }
        match CommandNode::from_record(&records[i]) {
            Err(error) => {
                proof {
                    lemma_lacks_name_prefix(records@, i + 1);
                }
                return Err(error);
            },
            Ok(node) => {
                let ghost before = nodes@;
                nodes.push(node);
                proof {
                    assert forall|k: int| 0 <= k < i + 1 implies describes(
                        #[trigger] nodes@[k],
                        records@[k],
                    ) by {
                        if k < i {
                            assert(nodes@[k] == before[k]);
                        }
                    }
                }
            },
        }
        i += 1;
    }
    proof {
        assert(records@.take(i as int) =~= records@);
    }
    Ok(nodes)
}

impl CommandNode {
    /// Builds the node that `record` describes. Fails where the record or
    /// one below it has neither a name nor a value to take the name from.
    pub fn from_record(record: &NodeRecord) -> (r: Result<CommandNode, WhichCmdError>)
        ensures
            match r {
                Ok(node) => {
                    &&& !lacks_name(record.keys@)
                    &&& record.name_text().len() > 0
                    &&& describes(node, *record)
                },
                Err(error) => {
                    &&& lacks_name(record.keys@) || record.name_text().len() == 0
                    &&& error@ == ErrorView::MissingName
                },
            },
        decreases record,
    {
        let keys = match nodes_from(&record.keys) {
            Err(error) => {
                return Err(error);
            },
            Ok(keys) => keys,
        };
        let value = match &record.value {
            Some(value) => value.clone(),
            None => String::new(),
        };
        let name = match &record.name {
            Some(name) => name.clone(),
            None => value.clone(),
        };
        let mut choices: Vec<CommandNode> = Vec::new();
        let mut i: usize = 0;
        while i < record.choices.len()
            invariant
                i <= record.choices@.len(),
                choices@.len() == i,
                forall|k: int|
                    0 <= k < i ==> is_choice(#[trigger] choices@[k], record.choices@[k]@),
            decreases record.choices@.len() - i,
        {
            let choice = &record.choices[i];
            let ghost before = choices@;
            choices.push(
                CommandNode {
                    key: String::from_str(CHOICE_KEY),
                    name: choice.clone(),
                    value: choice.clone(),
                    is_immediate: false,
                    is_fleeting: false,
                    is_anchor: false,
                    is_loop: false,
                    keys: Vec::new(),
                    choices: Vec::new(),
                },
            );
            proof {
                assert forall|k: int| 0 <= k < i + 1 implies is_choice(
                    #[trigger] choices@[k],
                    record.choices@[k]@,
                ) by {
                    if k < i {
                        assert(choices@[k] == before[k]);
                    }
                }
            }
            i += 1;
        }
        if name.as_str().is_empty() {
            return Err(WhichCmdError::MissingName);
        }
        Ok(
            CommandNode {
                key: record.key.clone(),
                name,
                value,
                is_immediate: record.immediate,
                is_fleeting: record.fleeting,
                is_anchor: record.anchor,
                is_loop: record.loop_,
                keys,
                choices,
            },
        )
    }


    /// Neither children nor choices.
    pub fn is_leaf(&self) -> (b: bool)
        ensures
            b == (self.keys@.len() == 0 && self.choices@.len() == 0),
    {
        self.keys.is_empty() && !self.has_choices()
    }

    /// Whether the node offers choices.
    pub fn has_choices(&self) -> (b: bool)
        ensures
            b == (self.choices@.len() > 0),
    {
        !self.choices.is_empty()
    }
}

} // verus!
