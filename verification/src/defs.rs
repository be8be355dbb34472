//! Looking up platform definitions by id.

use crate::model::PlatformDef;
use crate::text::str_eq;
use vstd::prelude::*;

verus! {

/// Index of the first definition (from `i` on) with this id.
pub open spec fn def_index(defs: Seq<PlatformDef>, id: Seq<char>, i: int) -> Option<int>
    decreases defs.len() - i,
{
    if i < 0 || i >= defs.len() {
        None
    } else if defs[i].id@ == id {
        Some(i)
    } else {
        def_index(defs, id, i + 1)
    }
}

proof fn lemma_def_index(defs: Seq<PlatformDef>, id: Seq<char>, i: int)
    requires
        0 <= i <= defs.len(),
    ensures
        def_index(defs, id, i) matches Some(j) ==> i <= j < defs.len() && defs[j].id@ == id,
        def_index(defs, id, i) is None ==> forall|k: int| i <= k < defs.len() ==> #[trigger] defs[k].id@ != id,
    decreases defs.len() - i,
{
    if i < defs.len() && defs[i].id@ != id {
        lemma_def_index(defs, id, i + 1);
    }
}

/// The first definition with this id, if any.
pub fn by_id(defs: Vec<PlatformDef>, id: &str) -> (r: Option<PlatformDef>)
    ensures
        r == match def_index(defs@, id@, 0) {
            Some(i) => Some(defs@[i]),
            None => None,
        },
        r is None <==> forall|k: int| 0 <= k < defs@.len() ==> #[trigger] defs@[k].id@ != id@,
{
    let mut list = defs;
    let ghost all = list@;
    proof {
        lemma_def_index(all, id@, 0);
    }
    let mut i: usize = 0;
    while i < list.len()
        invariant
            i <= list.len(),
            list@ == all,
            all == defs@,
            def_index(all, id@, 0) == def_index(all, id@, i as int),
        decreases list.len() - i,
    {
        if str_eq(list[i].id.as_str(), id) {
            return Some(list.remove(i));
        }
        i = i + 1;
    }
    None
}

} // verus!
