//! Reception awareness (AS4 section 3.2): which messages came before.

use vstd::prelude::*;

use crate::text::{owned, same_text};

verus! {

/// How many message ids are remembered for reception awareness before the
/// oldest is forgotten.
pub const REMEMBERED: usize = 1024;

/// The message ids of the last messages, the oldest first.
pub struct Seen {
    ids: Vec<String>,
}

/// `seen` after `id` came: unchanged where it holds `id`; else with `id` as
/// the latest, and without the oldest where it was full.
pub open spec fn remembering(seen: Seq<Seq<char>>, id: Seq<char>) -> Seq<Seq<char>> {
    if seen.contains(id) {
        seen
    } else if seen.len() == REMEMBERED {
        seen.drop_first().push(id)
    } else {
        seen.push(id)
    }
}

/// `seen` after all of `ids` came, in order.
pub open spec fn remembering_all(seen: Seq<Seq<char>>, ids: Seq<Seq<char>>) -> Seq<Seq<char>>
    decreases ids.len(),
{
    if ids.len() == 0 {
        seen
    } else {
        remembering(remembering_all(seen, ids.drop_last()), ids.last())
    }
}

/// How many of `ids` were new when they came, in order.
pub open spec fn fresh_among(seen: Seq<Seq<char>>, ids: Seq<Seq<char>>) -> nat
    decreases ids.len(),
{
    if ids.len() == 0 {
        0
    } else {
        fresh_among(seen, ids.drop_last()) + (if remembering_all(seen, ids.drop_last()).contains(
            ids.last(),
        ) {
            0nat
        } else {
            1nat
        })
    }
}

/// `seen` is one that messages leave: no id twice, and no more than are
/// remembered.
pub open spec fn is_memory(seen: Seq<Seq<char>>) -> bool {
    &&& seen.len() <= REMEMBERED
    &&& seen.no_duplicates()
}

impl View for Seen {
    type V = Seq<Seq<char>>;

    closed spec fn view(&self) -> Seq<Seq<char>> {
        self.ids@.map_values(|id: String| id@)
    }
}

impl Seen {
    #[verifier::type_invariant]
    spec fn inv(self) -> bool {
        is_memory(self@)
    }

    /// Nothing seen yet.
    pub fn new() -> (seen: Self)
        ensures
            seen@ == Seq::<Seq<char>>::empty(),
    {
        let seen = Seen { ids: Vec::new() };
        proof {
            assert(seen@ =~= Seq::<Seq<char>>::empty());
        }
        seen
    }

    /// Whether `id` came before; remembered either way.
    pub fn remember(&mut self, id: &str) -> (before: bool)
        ensures
            is_memory(old(self)@),
            is_memory(final(self)@),
            before == old(self)@.contains(id@),
            final(self)@ == remembering(old(self)@, id@),
    {
        proof {
            use_type_invariant(&*self);
        }
        let ghost seen = self@;
        for i in 0..self.ids.len()
            invariant
                seen == self@,
                is_memory(seen),
                forall|j: int| 0 <= j < i ==> #[trigger] seen[j] != id@,
        {
            if same_text(self.ids[i].as_str(), id) {
                proof {
                    assert(seen[i as int] == id@);
                }
                return true;
            }
            proof {
                assert(seen[i as int] == self.ids@[i as int]@);
            }
        }
        proof {
            assert(!seen.contains(id@));
        }
        let mut ids: Vec<String> = Vec::new();
        std::mem::swap(&mut self.ids, &mut ids);
        if ids.len() == REMEMBERED {
            ids.remove(0);
        }
        ids.push(owned(id));
        proof {
            a_memory_stays_one(seen, id@);
            assert(ids@.map_values(|id: String| id@) =~= remembering(seen, id@));
        }
        self.ids = ids;
        false
    }
}

/// Ids that come leave a memory a memory.
pub proof fn a_memory_stays_one(seen: Seq<Seq<char>>, id: Seq<char>)
    requires
        is_memory(seen),
    ensures
        is_memory(remembering(seen, id)),
{
    if !seen.contains(id) {
        let kept = if seen.len() == REMEMBERED {
            seen.drop_first()
        } else {
            seen
        };
        assert forall|i: int| 0 <= i < kept.len() implies #[trigger] kept[i] != id by {
            if seen.len() == REMEMBERED {
                assert(kept[i] == seen[i + 1]);
            }
            assert(seen.contains(kept[i]));
        }
        assert(remembering(seen, id) =~= kept.push(id));
    }
}

/// An id that came is one seen before, the next time it comes.
pub proof fn what_came_is_seen(seen: Seq<Seq<char>>, id: Seq<char>)
    ensures
        remembering(seen, id).contains(id),
        remembering(remembering(seen, id), id) == remembering(seen, id),
{
    let after = remembering(seen, id);
    if !seen.contains(id) {
        assert(after[after.len() - 1] == id);
    }
}

/// A new id stays seen while fewer than [`REMEMBERED`] new ones follow it,
/// however often those or any others come again.
pub proof fn a_new_id_is_remembered(seen: Seq<Seq<char>>, id: Seq<char>, ids: Seq<Seq<char>>)
    requires
        is_memory(seen),
        !seen.contains(id),
        fresh_among(remembering(seen, id), ids) < REMEMBERED,
    ensures
        remembering_all(remembering(seen, id), ids).contains(id),
{
    lemma_place(seen, id, ids);
}

/// Where a new id stands after `ids` followed it: among the last of the
/// memory, one place further from its end at most for each that was new.
proof fn lemma_place(seen: Seq<Seq<char>>, id: Seq<char>, ids: Seq<Seq<char>>)
    requires
        is_memory(seen),
        !seen.contains(id),
        fresh_among(remembering(seen, id), ids) < REMEMBERED,
    ensures
        is_memory(remembering_all(remembering(seen, id), ids)),
        exists|i: int| #[trigger]
            remembering_all(remembering(seen, id), ids)[i] == id && 0 <= i
                < remembering_all(remembering(seen, id), ids).len() && remembering_all(
                remembering(seen, id),
                ids,
            ).len() - i <= fresh_among(remembering(seen, id), ids) + 1,
    decreases ids.len(),
{
    let first = remembering(seen, id);
    if ids.len() == 0 {
        a_memory_stays_one(seen, id);
        assert(remembering_all(first, ids)[first.len() - 1] == id);
    } else {
        lemma_place(seen, id, ids.drop_last());
        let before = remembering_all(first, ids.drop_last());
        let after = remembering_all(first, ids);
        let fresh = fresh_among(first, ids.drop_last());
        a_memory_stays_one(before, ids.last());
        let i = choose|i: int| #[trigger]
            before[i] == id && 0 <= i < before.len() && before.len() - i <= fresh + 1;
        if before.contains(ids.last()) {
            assert(after[i] == id);
        } else if before.len() == REMEMBERED {
            assert(after[i - 1] == id);
        } else {
            assert(after[i] == id);
        }
    }
}

/// Where the memory is full, a new id takes the place of the oldest, and of
/// no other.
pub proof fn the_oldest_is_forgotten_first(seen: Seq<Seq<char>>, id: Seq<char>, other: Seq<char>)
    requires
        is_memory(seen),
        seen.len() == REMEMBERED,
        !seen.contains(id),
    ensures
        remembering(seen, id).contains(other) <==> other == id || (seen.contains(other) && other
            != seen[0]),
{
    let after = remembering(seen, id);
    if after.contains(other) && other != id {
        let i = choose|i: int| 0 <= i < after.len() && after[i] == other;
        assert(after[i] == seen[i + 1]);
    }
    if other == id {
        assert(after[after.len() - 1] == id);
    }
    if seen.contains(other) && other != seen[0] {
        let i = choose|i: int| 0 <= i < seen.len() && seen[i] == other;
        assert(after[i - 1] == other);
    }
}

} // verus!
