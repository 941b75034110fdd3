use crate::node::{share, Node};
use crate::path::{compose, compose_command};
use crate::text::{pad_right, padded};
use std::rc::Rc;
use vstd::prelude::*;
use vstd::string::*;
use vstd::utf8::encode_utf8;

verus! {

/// One line of the search index: a node's identity and the command that the
/// way to it composes.
#[derive(Debug)]
pub struct SearchNode {
    pub id: String,
    pub command: String,
}

/// What a `SearchNode` holds, as plain text.
pub struct SearchEntry {
    pub id: Seq<char>,
    pub command: Seq<char>,
}

impl View for SearchNode {
    type V = SearchEntry;

    open spec fn view(&self) -> SearchEntry {
        SearchEntry { id: self.id@, command: self.command@ }
    }
}

/// The entries held by a list of search nodes.
pub open spec fn entries(nodes: Seq<SearchNode>) -> Seq<SearchEntry> {
    nodes.map_values(|n: SearchNode| n@)
}

/// The index of `nodes` and everything below them, in pre-order, where `path`
/// leads to the parent of `nodes`: each node contributes its identity with the
/// command of `path` extended by the way down to it.
pub open spec fn flatten(nodes: Seq<Rc<Node>>, path: Seq<Rc<Node>>) -> Seq<SearchEntry>
    decreases nodes,
{
    if nodes.len() == 0 {
        Seq::<SearchEntry>::empty()
    } else {
        let node = nodes.last();
        flatten(nodes.drop_last(), path) + seq![
            SearchEntry { id: node.id@, command: compose(path.push(node)) },
        ] + flatten(node.keys@, path.push(node))
    }
}

/// The index of everything below `roots`; the roots themselves are left out.
pub open spec fn flatten_roots(roots: Seq<Rc<Node>>) -> Seq<SearchEntry>
    decreases roots.len(),
{
    if roots.len() == 0 {
        Seq::<SearchEntry>::empty()
    } else {
        flatten_roots(roots.drop_last()) + flatten(roots.last().keys@, seq![roots.last()])
    }
}

/// The characters of `id` with `" > "` between neighbours.
pub open spec fn spaced_keys(id: Seq<char>) -> Seq<char>
    decreases id.len(),
{
    if id.len() == 0 {
        Seq::<char>::empty()
    } else if id.len() == 1 {
        id
    } else {
        spaced_keys(id.drop_last()) + seq![' ', '>', ' '] + seq![id.last()]
    }
}

/// One line of the search list: the command padded to `width`, three spaces,
/// and the keys that lead to the node.
pub open spec fn format_entry(entry: SearchEntry, width: nat) -> Seq<char> {
    pad_right(entry.command, width) + seq![' ', ' ', ' '] + spaced_keys(entry.id)
}

/// The length of `text` in bytes of UTF-8, as `str::len` reports it.
pub open spec fn byte_len(text: Seq<char>) -> usize {
    encode_utf8(text).len() as usize
}

/// The largest byte length among the commands of `list`, 0 for an empty list.
pub open spec fn longest_command(list: Seq<SearchEntry>) -> usize
    decreases list.len(),
{
    if list.len() == 0 {
        0
    } else {
        let rest = longest_command(list.drop_last());
        let last = byte_len(list.last().command);
        if last > rest {
            last
        } else {
            rest
        }
    }
}

/// Renders every entry with its command padded to the byte length of the
/// longest command in the list.
pub fn format_search_options(nodes: &[SearchNode]) -> (lines: Vec<String>)
    ensures
        lines@.len() == nodes@.len(),
        forall|i: int|
            0 <= i < nodes@.len() ==> (#[trigger] lines@[i])@ == format_entry(
                nodes@[i]@,
                longest_command(entries(nodes@)) as nat,
            ),
{
    let mut longest: usize = 0;
    let mut i: usize = 0;
    while i < nodes.len()
        invariant
            i <= nodes@.len(),
            longest == longest_command(entries(nodes@).take(i as int)),
        decreases nodes@.len() - i,
    {
        proof {
            let list = entries(nodes@);
            assert(list.take(i + 1).drop_last() =~= list.take(i as int));
            assert(list.take(i + 1).last() == nodes@[i as int]@);
        }
        let len = nodes[i].command.as_str().len();
        if len > longest {
            longest = len;
        }
        i += 1;
    }
    proof {
        assert(entries(nodes@).take(i as int) =~= entries(nodes@));
    }
    let mut lines: Vec<String> = Vec::new();
    let mut j: usize = 0;
    while j < nodes.len()
        invariant
            j <= nodes@.len(),
            lines@.len() == j,
            forall|k: int|
                0 <= k < j ==> (#[trigger] lines@[k])@ == format_entry(nodes@[k]@, longest as nat),
        decreases nodes@.len() - j,
    {
        lines.push(format_single_search_option(&nodes[j], longest));
        j += 1;
    }
    lines
}

/// Renders one entry: the command, spaces up to `command_length` characters,
/// three more spaces, and the characters of the identity joined by `" > "`.
pub fn format_single_search_option(node: &SearchNode, command_length: usize) -> (line: String)
    ensures
        line@ == format_entry(node@, command_length as nat),
{
    let mut line = padded(node.command.as_str(), command_length);
    line.append("   ");
    proof {
        reveal_strlit("   ");
        assert("   "@ =~= seq![' ', ' ', ' ']);
    }
    let ghost head = line@;
    let id = node.id.as_str();
    let count = id.unicode_len();
    let mut i: usize = 0;
    while i < count
        invariant
            i <= count,
            count == id@.len(),
            line@ == head + spaced_keys(id@.take(i as int)),
        decreases count - i,
    {
        proof {
            assert(id@.take(i + 1).drop_last() =~= id@.take(i as int));
            assert(id@.subrange(i as int, i + 1) =~= seq![id@[i as int]]);
            assert(id@.take(i + 1).last() == id@[i as int]);
        }
        if i > 0 {
            line.append(" > ");
            proof {
                reveal_strlit(" > ");
                assert(" > "@ =~= seq![' ', '>', ' ']);
            }
        }
        line.append(id.substring_char(i, i + 1));
        proof {
            if i == 0 {
                assert(id@.take(1) =~= seq![id@[0]]);
            }
            assert(line@ =~= head + spaced_keys(id@.take(i + 1)));
        }
        i += 1;
    }
    proof {
        assert(id@.take(i as int) =~= id@);
    }
    line
}

/// Indexes every descendant of `nodes`, each with the command composed from
/// its root in `nodes` down to it.
pub fn get_search_options(nodes: &[Rc<Node>]) -> (options: Vec<SearchNode>)
    ensures
        entries(options@) == flatten_roots(nodes@),
{
    let mut options: Vec<SearchNode> = Vec::new();
    let mut i: usize = 0;
    proof {
        assert(entries(options@) =~= flatten_roots(nodes@.take(0)));
    }
    while i < nodes.len()
        invariant
            i <= nodes@.len(),
            entries(options@) == flatten_roots(nodes@.take(i as int)),
        decreases nodes@.len() - i,
    {
        let mut root: Vec<Rc<Node>> = Vec::new();
        root.push(share(&nodes[i]));
        proof {
            assert(root@ =~= seq![nodes@[i as int]]);
            assert(nodes@.take(i + 1).drop_last() =~= nodes@.take(i as int));
        }
        let mut below = get_search_options_recursively(nodes[i].keys.as_slice(), root.as_slice());
        let ghost before = options@;
        options.append(&mut below);
        proof {
            assert(entries(options@) =~= entries(before) + flatten(
                nodes@[i as int].keys@,
                seq![nodes@[i as int]],
            ));
        }
        i += 1;
    }
    proof {
        assert(nodes@.take(i as int) =~= nodes@);
    }
    options
}

/// Indexes `nodes` and everything below them in pre-order; `path` is the way
/// to their parent.
pub fn get_search_options_recursively(nodes: &[Rc<Node>], path: &[Rc<Node>]) -> (options: Vec<
    SearchNode,
>)
    ensures
        entries(options@) == flatten(nodes@, path@),
    decreases nodes@,
{
    let mut options: Vec<SearchNode> = Vec::new();
    let mut i: usize = 0;
    proof {
        assert(entries(options@) =~= flatten(nodes@.take(0), path@));
    }
    while i < nodes.len()
        invariant
            i <= nodes@.len(),
            entries(options@) == flatten(nodes@.take(i as int), path@),
        decreases nodes@.len() - i,
    {
        let node = &nodes[i];
        let mut new_path: Vec<Rc<Node>> = Vec::new();
        let mut k: usize = 0;
        while k < path.len()
            invariant
                k <= path@.len(),
                new_path@ == path@.take(k as int),
            decreases path@.len() - k,
        {
            new_path.push(share(&path[k]));
            proof {
                assert(new_path@ =~= path@.take(k + 1));
            }
            k += 1;
        }
        new_path.push(share(node));
        proof {
            assert(path@.take(k as int) =~= path@);
            assert(new_path@ =~= path@.push(nodes@[i as int]));
            assert(nodes@.take(i + 1).drop_last() =~= nodes@.take(i as int));
            assert(nodes@.take(i + 1).last() == nodes@[i as int]);
        }
        let command = compose_command(new_path.as_slice());
        let ghost before = options@;
        options.push(SearchNode { id: node.id.clone(), command });
        let mut below = get_search_options_recursively(node.keys.as_slice(), new_path.as_slice());
        let ghost middle = options@;
        options.append(&mut below);
        proof {
            let entry = SearchEntry { id: node.id@, command: compose(new_path@) };
            assert(entries(middle) =~= entries(before) + seq![entry]);
            assert(entries(options@) =~= entries(middle) + flatten(node.keys@, new_path@));
        }
        i += 1;
    }
    proof {
        assert(nodes@.take(i as int) =~= nodes@);
    }
    options
}

} // verus!
