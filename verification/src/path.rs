use crate::node::Node;
use std::rc::Rc;
use vstd::prelude::*;
use vstd::string::*;

verus! {

/// Where composition starts: the index of the last anchor on the path, or 0
/// when the path has none.
pub open spec fn anchor_start(path: Seq<Rc<Node>>) -> int
    decreases path.len(),
{
    if path.len() == 0 {
        0
    } else if path.last().is_anchor {
        path.len() - 1
    } else {
        anchor_start(path.drop_last())
    }
}

/// The values of `nodes`, in order, with one space between neighbours.
pub open spec fn join_values(nodes: Seq<Rc<Node>>) -> Seq<char>
    decreases nodes.len(),
{
    if nodes.len() == 0 {
        Seq::<char>::empty()
    } else if nodes.len() == 1 {
        nodes[0].value@
    } else {
        join_values(nodes.drop_last()) + seq![' '] + nodes.last().value@
    }
}

/// The command a path stands for: the values from the last anchor on,
/// joined by single spaces.
pub open spec fn compose(path: Seq<Rc<Node>>) -> Seq<char> {
    join_values(path.skip(anchor_start(path)))
}

/// The path without its trailing run of fleeting nodes.
pub open spec fn trim_fleeting(path: Seq<Rc<Node>>) -> Seq<Rc<Node>>
    decreases path.len(),
{
    if path.len() == 0 || !path.last().is_fleeting {
        path
    } else {
        trim_fleeting(path.drop_last())
    }
}

/// `anchor_start` names a position of the path (0 for the empty path), the
/// node there is an anchor unless the position is 0, and no later node is one.
pub proof fn lemma_anchor_start(path: Seq<Rc<Node>>)
    ensures
        0 <= anchor_start(path) <= path.len(),
        path.len() > 0 ==> anchor_start(path) < path.len(),
        anchor_start(path) > 0 ==> path[anchor_start(path)].is_anchor,
        forall|i: int| anchor_start(path) < i < path.len() ==> !(#[trigger] path[i]).is_anchor,
    decreases path.len(),
{
    if path.len() > 0 && !path.last().is_anchor {
        let shorter = path.drop_last();
        lemma_anchor_start(shorter);
        assert forall|i: int| anchor_start(path) < i < path.len() implies !(#[trigger] path[i]).is_anchor by {
            if i < shorter.len() {
                assert(shorter[i] == path[i]);
            }
        }
    }
}

/// What is left after trimming is a prefix of the path, is empty or ends in a
/// node that is not fleeting, and every node that was dropped is fleeting.
pub proof fn lemma_trim_fleeting(path: Seq<Rc<Node>>)
    ensures
        trim_fleeting(path).len() <= path.len(),
        trim_fleeting(path) == path.take(trim_fleeting(path).len() as int),
        trim_fleeting(path).len() > 0 ==> !trim_fleeting(path).last().is_fleeting,
        forall|i: int| trim_fleeting(path).len() <= i < path.len() ==> (#[trigger] path[i]).is_fleeting,
    decreases path.len(),
{
    if path.len() == 0 || !path.last().is_fleeting {
        assert(path.take(path.len() as int) =~= path);
    } else {
        let shorter = path.drop_last();
        lemma_trim_fleeting(shorter);
        let kept = trim_fleeting(shorter).len() as int;
        assert(shorter.take(kept) =~= path.take(kept));
        assert forall|i: int| kept <= i < path.len() implies (#[trigger] path[i]).is_fleeting by {
            if i < shorter.len() {
                assert(shorter[i] == path[i]);
            }
        }
    }
}

/// A path of fleeting nodes only is trimmed to nothing.
pub proof fn lemma_trim_all_fleeting(path: Seq<Rc<Node>>)
    requires
        forall|i: int| 0 <= i < path.len() ==> (#[trigger] path[i]).is_fleeting,
    ensures
        trim_fleeting(path).len() == 0,
    decreases path.len(),
{
    if path.len() > 0 {
        let shorter = path.drop_last();
        assert forall|i: int| 0 <= i < shorter.len() implies (#[trigger] shorter[i]).is_fleeting by {
            assert(shorter[i] == path[i]);
        }
        lemma_trim_all_fleeting(shorter);
    }
}

/// Drops fleeting nodes from the end of the path until the last node is not
/// fleeting or the path is empty.
pub fn pop_to_first_non_is_fleeting(path: &mut Vec<Rc<Node>>)
    ensures
        final(path)@ == trim_fleeting(old(path)@),
        final(path)@.len() <= old(path)@.len(),
        final(path)@ == old(path)@.take(final(path)@.len() as int),
        final(path)@.len() > 0 ==> !final(path)@.last().is_fleeting,
        forall|i: int| final(path)@.len() <= i < old(path)@.len() ==> (#[trigger] old(path)@[i]).is_fleeting,
{
    proof {
        lemma_trim_fleeting(path@);
    }
    loop
        invariant
            trim_fleeting(path@) == trim_fleeting(old(path)@),
        ensures
            path@ == trim_fleeting(old(path)@),
        decreases path@.len(),
    {
        let ghost before = path@;
        match path.pop() {
            None => {
                break ;
            },
            Some(node) => {
                if !node.is_fleeting {
                    path.push(node);
                    assert(path@ =~= before);
                    break ;
                }
                assert(path@ =~= before.drop_last());
            },
        }
    }
}

/// Joins the values of the nodes from the last anchor on with single spaces.
#[must_use]
pub fn compose_command(path: &[Rc<Node>]) -> (command: String)
    ensures
        command@ == compose(path@),
{
    let mut start_index: usize = 0;
    let mut i: usize = 0;
    while i < path.len()
        invariant
            i <= path@.len(),
            start_index as int == anchor_start(path@.take(i as int)),
        decreases path@.len() - i,
    {
        proof {
            assert(path@.take(i + 1).drop_last() =~= path@.take(i as int));
        }
        if path[i].is_anchor {
            start_index = i;
        }
        i += 1;
    }
    proof {
        assert(path@.take(i as int) =~= path@);
        lemma_anchor_start(path@);
    }
    let ghost tail = path@.skip(start_index as int);
    let mut command = String::new();
    let mut j: usize = start_index;
    while j < path.len()
        invariant
            start_index <= j <= path@.len(),
            tail == path@.skip(start_index as int),
            command@ == join_values(tail.take(j - start_index)),
        decreases path@.len() - j,
    {
        proof {
            let k = j - start_index;
            assert(tail.take(k + 1).drop_last() =~= tail.take(k));
            assert(tail.take(k + 1).last() == path@[j as int]);
            if k == 0 {
                assert(command@ + path@[j as int].value@ =~= path@[j as int].value@);
            }
        }
        if j > start_index {
            command.append(" ");
            proof {
                reveal_strlit(" ");
                assert(" "@ =~= seq![' ']);
            }
        }
        command.append(path[j].value.as_str());
        j += 1;
    }
    proof {
        assert(tail.take(j - start_index) =~= tail);
    }
    command
}

} // verus!
