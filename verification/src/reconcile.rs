use crate::key::contains_key;
use crate::key::contains_key_before;
use crate::key::texts;
use crate::key::KeyExpr;
use vstd::prelude::*;

verus! {

/// For each of `held`, whether it stays: whether it is among `discovered`
/// and is the first of `held` with its text.
pub open spec fn kept(held: Seq<Seq<char>>, discovered: Seq<Seq<char>>) -> Seq<bool> {
    Seq::new(
        held.len(),
        |i: int| discovered.contains(held[i]) && !held.take(i).contains(held[i]),
    )
}

/// Those of `items` whose place in `mask` says yes, in the same order.
pub open spec fn picked(items: Seq<Seq<char>>, mask: Seq<bool>) -> Seq<Seq<char>>
    decreases items.len(),
{
    if items.len() == 0 || mask.len() != items.len() {
        Seq::empty()
    } else {
        let before = picked(items.drop_last(), mask.drop_last());
        if mask.last() {
            before.push(items.last())
        } else {
            before
        }
    }
}

/// The owners that have a view once the refresh is done: those of `held`
/// that stay, then those that get a new view.
pub open spec fn refreshed(held: Seq<Seq<char>>, discovered: Seq<Seq<char>>) -> Seq<Seq<char>> {
    picked(held, kept(held, discovered)) + missing(discovered, held)
}

/// Those of `discovered` that are not among `held`, each once, in the
/// order in which `discovered` first gives them.
pub open spec fn missing(discovered: Seq<Seq<char>>, held: Seq<Seq<char>>) -> Seq<Seq<char>>
    decreases discovered.len(),
{
    if discovered.len() == 0 {
        Seq::empty()
    } else {
        let before = missing(discovered.drop_last(), held);
        let id = discovered.last();
        if held.contains(id) || before.contains(id) {
            before
        } else {
            before.push(id)
        }
    }
}

/// What to do about the views that a process holds, after one round of
/// discovery.
#[derive(Debug)]
pub struct Refresh {
    /// For each view that the process holds, in order, whether to keep it:
    /// whether its owner answered and no view before it has the same owner.
    pub keep: Vec<bool>,
    /// The owners that answered and have no view yet.
    pub start: Vec<KeyExpr>,
}

/// Settles the views of a process against one round of discovery: a view
/// among `held` stays exactly if its owner is among `discovered` and no
/// view before it has the same owner, and each owner among `discovered`
/// that has no view gets one. Afterwards each owner that answered has one
/// view, and no other owner has any.
///
/// That an owner did not answer this round does not show that it is gone:
/// discovery is a poll, not a heartbeat.
pub fn refresh_views_sync(held: &Vec<KeyExpr>, discovered: &Vec<KeyExpr>) -> (r: Refresh)
    ensures
        r.keep@ == kept(texts(held@), texts(discovered@)),
        texts(r.start@) == missing(texts(discovered@), texts(held@)),
        (picked(texts(held@), r.keep@) + texts(r.start@)).no_duplicates(),
        forall|id: Seq<char>|
            (picked(texts(held@), r.keep@) + texts(r.start@)).contains(id) <==> texts(
                discovered@,
            ).contains(id),
{
    let mut keep: Vec<bool> = Vec::new();
    let mut i: usize = 0;
    while i < held.len()
        invariant
            i <= held.len(),
            keep@ == kept(texts(held@), texts(discovered@)).take(i as int),
        decreases held.len() - i,
    {
        proof {
            assert(texts(held@).take(i as int) =~= texts(held@.take(i as int)));
            assert(texts(held@)[i as int] == held@[i as int]@);
        }
        let stays = contains_key(discovered, &held[i]) && !contains_key_before(
            held,
            i,
            &held[i],
        );
        keep.push(stays);
        proof {
            let whole = kept(texts(held@), texts(discovered@));
            assert(whole.take(i + 1) =~= whole.take(i as int).push(stays));
        }
        i = i + 1;
    }
    proof {
        let whole = kept(texts(held@), texts(discovered@));
        assert(whole.take(held.len() as int) =~= whole);
    }
    let ghost all = texts(discovered@);
    let mut start: Vec<KeyExpr> = Vec::new();
    let mut j: usize = 0;
    proof {
        assert(all.take(0) =~= Seq::empty());
        assert(texts(start@) =~= Seq::empty());
    }
    while j < discovered.len()
        invariant
            j <= discovered.len(),
            all == texts(discovered@),
            texts(start@) == missing(all.take(j as int), texts(held@)),
        decreases discovered.len() - j,
    {
        proof {
            assert(all.take(j + 1).drop_last() =~= all.take(j as int));
            assert(all.take(j + 1).last() == discovered@[j as int]@);
        }
        let ghost before = start@;
        if !contains_key(held, &discovered[j]) && !contains_key(&start, &discovered[j]) {
            start.push(discovered[j].clone());
            assert(texts(start@) =~= texts(before).push(discovered@[j as int]@));
        }
        j = j + 1;
    }
    proof {
        assert(all.take(discovered.len() as int) =~= all);
        lemma_refreshed_exact(texts(held@), texts(discovered@));
    }
    Refresh { keep, start }
}

/// The owners to start a view for are exactly those that answered and have
/// none, each once.
pub proof fn lemma_missing_exact(discovered: Seq<Seq<char>>, held: Seq<Seq<char>>)
    ensures
        missing(discovered, held).no_duplicates(),
        forall|id: Seq<char>|
            missing(discovered, held).contains(id) <==> discovered.contains(id)
                && !held.contains(id),
    decreases discovered.len(),
{
    if discovered.len() > 0 {
        let front = discovered.drop_last();
        lemma_missing_exact(front, held);
        let before = missing(front, held);
        let now = missing(discovered, held);
        let last = discovered.last();
        assert forall|id: Seq<char>| now.contains(id) implies discovered.contains(id)
            && !held.contains(id) by {
            if before.contains(id) {
                assert(front.contains(id));
                let k = choose|k: int| 0 <= k < front.len() && front[k] == id;
                assert(discovered[k] == id);
            } else {
                let k = choose|k: int| 0 <= k < now.len() && now[k] == id;
                assert(now == before.push(last));
                assert(discovered[discovered.len() - 1] == id);
            }
        }
        assert forall|id: Seq<char>| discovered.contains(id) && !held.contains(
            id,
        ) implies now.contains(id) by {
            let k = choose|k: int| 0 <= k < discovered.len() && discovered[k] == id;
            if k < front.len() {
                assert(front[k] == id);
                assert(front.contains(id));
                assert(before.contains(id));
                let m = choose|m: int| 0 <= m < before.len() && before[m] == id;
                assert(now[m] == id);
            } else {
                if before.contains(id) {
                    assert(now == before);
                } else {
                    assert(now == before.push(id));
                    assert(now[before.len() as int] == id);
                }
            }
        }
    }
}

/// The views that stay are those whose owner answered, one for each such
/// owner.
pub proof fn lemma_picked_exact(held: Seq<Seq<char>>, discovered: Seq<Seq<char>>)
    ensures
        picked(held, kept(held, discovered)).no_duplicates(),
        forall|id: Seq<char>|
            picked(held, kept(held, discovered)).contains(id) <==> held.contains(id)
                && discovered.contains(id),
    decreases held.len(),
{
    if held.len() > 0 {
        let front = held.drop_last();
        let last = held.last();
        lemma_picked_exact(front, discovered);
        assert(kept(held, discovered).drop_last() =~= kept(front, discovered)) by {
            assert forall|i: int| 0 <= i < front.len() implies held.take(i) =~= front.take(i) by {}
        }
        assert(held.take(held.len() - 1) =~= front);
        let before = picked(front, kept(front, discovered));
        let now = picked(held, kept(held, discovered));
        assert forall|id: Seq<char>| now.contains(id) implies held.contains(id)
            && discovered.contains(id) by {
            if before.contains(id) {
                assert(front.contains(id));
                let k = choose|k: int| 0 <= k < front.len() && front[k] == id;
                assert(held[k] == id);
            } else {
                let k = choose|k: int| 0 <= k < now.len() && now[k] == id;
                assert(now == before.push(last));
                assert(held[held.len() - 1] == id);
            }
        }
        assert forall|id: Seq<char>| held.contains(id) && discovered.contains(
            id,
        ) implies now.contains(id) by {
            if front.contains(id) {
                assert(before.contains(id));
                let m = choose|m: int| 0 <= m < before.len() && before[m] == id;
                assert(now[m] == id);
            } else {
                let k = choose|k: int| 0 <= k < held.len() && held[k] == id;
                if k < front.len() {
                    assert(front[k] == id);
                }
                assert(now == before.push(id));
                assert(now[before.len() as int] == id);
            }
        }
        if kept(held, discovered).last() {
            assert(!front.contains(last));
            assert(!before.contains(last));
        }
    }
}

/// After the refresh the owners with a view are exactly those that
/// answered, and none has two views, whatever repeats `held` and
/// `discovered` had.
pub proof fn lemma_refreshed_exact(held: Seq<Seq<char>>, discovered: Seq<Seq<char>>)
    ensures
        refreshed(held, discovered).no_duplicates(),
        forall|id: Seq<char>| refreshed(held, discovered).contains(id) <==> discovered.contains(id),
{
    lemma_picked_exact(held, discovered);
    lemma_missing_exact(discovered, held);
    let stay = picked(held, kept(held, discovered));
    let start = missing(discovered, held);
    let all = refreshed(held, discovered);
    assert forall|id: Seq<char>| all.contains(id) <==> discovered.contains(id) by {
        if all.contains(id) {
            let k = choose|k: int| 0 <= k < all.len() && all[k] == id;
            if k < stay.len() {
                assert(stay[k] == id);
                assert(stay.contains(id));
            } else {
                assert(start[k - stay.len()] == id);
                assert(start.contains(id));
            }
        }
        if discovered.contains(id) {
            if held.contains(id) {
                assert(stay.contains(id));
                let m = choose|m: int| 0 <= m < stay.len() && stay[m] == id;
                assert(all[m] == id);
            } else {
                assert(start.contains(id));
                let m = choose|m: int| 0 <= m < start.len() && start[m] == id;
                assert(all[stay.len() + m] == id);
            }
        }
    }
    assert forall|i: int, j: int| 0 <= i < j < all.len() implies all[i] != all[j] by {
        if j < stay.len() {
            assert(stay[i] == all[i] && stay[j] == all[j]);
        } else if i >= stay.len() {
            assert(start[i - stay.len()] == all[i] && start[j - stay.len()] == all[j]);
        } else {
            assert(stay[i] == all[i]);
            assert(start[j - stay.len()] == all[j]);
            assert(stay.contains(all[i]));
            assert(start.contains(all[j]));
            assert(held.contains(all[i]));
            assert(!held.contains(all[j]));
        }
    }
}

} // verus!
