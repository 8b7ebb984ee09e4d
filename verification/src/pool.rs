//! The pool of sounding voices, from which finished voices are dropped.
use vstd::prelude::*;

verus! {

/// The items of `items` whose flag in `live` is set, in their order.
pub open spec fn kept<T>(items: Seq<T>, live: Seq<bool>) -> Seq<T>
    decreases items.len(),
{
    if items.len() == 0 {
        Seq::<T>::empty()
    } else {
        let rest = kept(items.drop_last(), live.drop_last());
        if live[items.len() - 1] {
            rest.push(items.last())
        } else {
            rest
        }
    }
}

/// When every voice still sounds, the pool keeps all of them; when none
/// does, it becomes empty.
pub proof fn lemma_kept_extremes<T>(items: Seq<T>, live: Seq<bool>)
    requires
        items.len() == live.len(),
    ensures
        (forall|i: int| 0 <= i < live.len() ==> #[trigger] live[i]) ==> kept(items, live) == items,
        (forall|i: int| 0 <= i < live.len() ==> !#[trigger] live[i]) ==> kept(items, live)
            == Seq::<T>::empty(),
    decreases items.len(),
{
    if items.len() > 0 {
        lemma_kept_extremes(items.drop_last(), live.drop_last());
        if forall|i: int| 0 <= i < live.len() ==> #[trigger] live[i] {
            assert(forall|i: int|
                0 <= i < live.drop_last().len() ==> #[trigger] live.drop_last()[i] == live[i]);
            assert(items.drop_last().push(items.last()) =~= items);
        }
        if forall|i: int| 0 <= i < live.len() ==> !#[trigger] live[i] {
            assert(forall|i: int|
                0 <= i < live.drop_last().len() ==> #[trigger] live.drop_last()[i] == live[i]);
        }
    }
}

/// How many flags of `flags` are set.
pub open spec fn count_set(flags: Seq<bool>) -> nat
    decreases flags.len(),
{
    if flags.len() == 0 {
        0
    } else {
        count_set(flags.drop_last()) + (if flags.last() { 1nat } else { 0nat })
    }
}

/// A finished voice that ends the pool is dropped; a sounding one is kept
/// at the end, after the voices kept before it.
pub proof fn lemma_kept_last<T>(items: Seq<T>, live: Seq<bool>, x: T)
    requires
        items.len() == live.len(),
    ensures
        kept(items.push(x), live.push(false)) == kept(items, live),
        kept(items.push(x), live.push(true)) == kept(items, live).push(x),
{
    assert(items.push(x).drop_last() =~= items);
    assert(live.push(false).drop_last() =~= live);
    assert(live.push(true).drop_last() =~= live);
}

/// Exactly the sounding voices are kept, in their order: as many as there
/// are set flags, and the voice at position `j` with its flag set is the
/// one kept after the sounding voices before it.
pub proof fn lemma_kept_exactly_live<T>(items: Seq<T>, live: Seq<bool>)
    requires
        items.len() == live.len(),
    ensures
        kept(items, live).len() == count_set(live),
        forall|j: int|
            0 <= j < items.len() && live[j] ==> #[trigger] kept(items, live)[count_set(
                live.take(j),
            ) as int] == items[j],
    decreases items.len(),
{
    if items.len() > 0 {
        let n = items.len() - 1;
        let pi = items.drop_last();
        let pl = live.drop_last();
        lemma_kept_exactly_live(pi, pl);
        assert forall|j: int|
            0 <= j < items.len() && live[j] implies #[trigger] kept(items, live)[count_set(
            live.take(j),
        ) as int] == items[j] by {
            if j < n {
                assert(live.take(j) =~= pl.take(j));
                assert(pl[j] == live[j]);
                assert(pi[j] == items[j]);
                lemma_count_set_prefix(pl, j);
            } else {
                assert(live.take(j) =~= pl);
            }
        }
    }
}

/// The number of set flags among the first `j` is at most those among all
/// of them, and strictly less when flag `j` is set.
pub proof fn lemma_count_set_prefix(flags: Seq<bool>, j: int)
    requires
        0 <= j < flags.len(),
    ensures
        count_set(flags.take(j)) + (if flags[j] { 1int } else { 0int }) <= count_set(flags),
    decreases flags.len(),
{
    if j < flags.len() - 1 {
        let pf = flags.drop_last();
        assert(flags.take(j) =~= pf.take(j));
        lemma_count_set_prefix(pf, j);
    } else {
        assert(flags.take(j) =~= flags.drop_last());
    }
}

/// Keeps the voices whose flag in `live` is set and drops the others; the
/// kept voices stay in their order.
pub fn retain_live<T>(voices: &mut Vec<T>, live: &Vec<bool>)
    requires
        old(voices)@.len() == live@.len(),
    ensures
        final(voices)@ == kept(old(voices)@, live@),
        final(voices)@.len() == count_set(live@),
        forall|j: int|
            0 <= j < live@.len() && live@[j] ==> #[trigger] final(voices)@[count_set(
                live@.take(j),
            ) as int] == old(voices)@[j],
{
    let ghost orig = voices@;
    let n = live.len();
    let mut i: usize = 0;
    let mut j: usize = 0;
    while j < n
        invariant
            n == live@.len(),
            orig.len() == n,
            j <= n,
            i <= j,
            kept(orig.take(j as int), live@.take(j as int)).len() == i,
            voices@ == kept(orig.take(j as int), live@.take(j as int)) + orig.skip(j as int),
        decreases n - j,
    {
        let ghost before = voices@;
        let ghost k = kept(orig.take(j as int), live@.take(j as int));
        assert(orig.take(j + 1).drop_last() =~= orig.take(j as int));
        assert(live@.take(j + 1).drop_last() =~= live@.take(j as int));
        assert(before[i as int] == orig[j as int]);
        if live[j] {
            assert(kept(orig.take(j + 1), live@.take(j + 1)) == k.push(orig[j as int]));
            assert(voices@ =~= k.push(orig[j as int]) + orig.skip(j + 1));
            i = i + 1;
        } else {
            voices.remove(i);
            assert(kept(orig.take(j + 1), live@.take(j + 1)) == k);
            assert(voices@ =~= k + orig.skip(j + 1));
        }
        j = j + 1;
    }
    assert(orig.take(n as int) =~= orig);
    assert(live@.take(n as int) =~= live@);
    assert(voices@ =~= kept(orig, live@));
    proof {
        lemma_kept_exactly_live(orig, live@);
    }
}

} // verus!
