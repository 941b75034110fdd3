use crate::search::SearchNode;
use vstd::prelude::*;
use vstd::string::*;

verus! {

/// Some character of `id` is the key that opens the search.
pub open spec fn holds_search_key(id: Seq<char>) -> bool {
    exists|k: int| 0 <= k < id.len() && id[k] == '/'
}

/// Some entry of `options` has the search key on the way to it. Such a node
/// takes the key for itself, so the search cannot be opened where it is
/// offered.
pub open spec fn search_key_taken(options: Seq<SearchNode>) -> bool {
    exists|i: int| 0 <= i < options.len() && holds_search_key(#[trigger] options[i].id@)
}

/// Whether some entry of `options` is bound to the `/` character.
pub fn binds_search_key(options: &[SearchNode]) -> (taken: bool)
    ensures
        taken == search_key_taken(options@),
{
    let mut i: usize = 0;
    while i < options.len()
        invariant
            i <= options@.len(),
            forall|a: int| 0 <= a < i ==> !holds_search_key(#[trigger] options@[a].id@),
        decreases options@.len() - i,
    {
        let id = options[i].id.as_str();
        let count = id.unicode_len();
        let mut k: usize = 0;
        while k < count
            invariant
                k <= count,
                count == id@.len(),
                i < options@.len(),
                id@ == options@[i as int].id@,
                forall|b: int| 0 <= b < k ==> id@[b] != '/',
            decreases count - k,
        {
            if id.get_char(k) == '/' {
                assert(id@[k as int] == '/');
                assert(holds_search_key(options@[i as int].id@));
                return true;
            }
            k += 1;
        }
        assert(!holds_search_key(options@[i as int].id@));
        i += 1;
    }
    false
}

} // verus!
