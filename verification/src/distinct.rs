use vstd::prelude::*;

verus! {

/// The distinct values of a sequence, each kept where it first occurs.
pub open spec fn first_occurrences<T>(s: Seq<T>) -> Seq<T>
    decreases s.len(),
{
    if s.len() == 0 {
        Seq::empty()
    } else {
        let earlier = first_occurrences(s.drop_last());
        if earlier.contains(s.last()) {
            earlier
        } else {
            earlier.push(s.last())
        }
    }
}

/// The distinct values hold no value twice and exactly the values of the sequence.
pub(crate) proof fn lemma_first_occurrences<T>(s: Seq<T>)
    ensures
        first_occurrences(s).no_duplicates(),
        forall|x: T| #[trigger] first_occurrences(s).contains(x) <==> s.contains(x),
    decreases s.len(),
{
    if s.len() > 0 {
        let d = s.drop_last();
        let last = s.last();
        lemma_first_occurrences(d);
        let e = first_occurrences(d);
        assert forall|x: T| #[trigger] s.contains(x) <==> (d.contains(x) || x == last) by {
            if s.contains(x) {
                let i = choose|i: int| 0 <= i < s.len() && s[i] == x;
                if i < s.len() - 1 {
                    assert(d[i] == x);
                }
            }
            if d.contains(x) {
                let i = choose|i: int| 0 <= i < d.len() && d[i] == x;
                assert(s[i] == x);
            }
            if x == last {
                assert(s[s.len() - 1] == x);
            }
        }
        if !e.contains(last) {
            let f = e.push(last);
            assert forall|x: T| #[trigger] f.contains(x) <==> (e.contains(x) || x == last) by {
                if f.contains(x) {
                    let i = choose|i: int| 0 <= i < f.len() && f[i] == x;
                    if i < e.len() {
                        assert(e[i] == x);
                    }
                }
                if e.contains(x) {
                    let i = choose|i: int| 0 <= i < e.len() && e[i] == x;
                    assert(f[i] == x);
                }
                if x == last {
                    assert(f[e.len() as int] == x);
                }
            }
            assert forall|i: int, j: int|
                0 <= i < f.len() && 0 <= j < f.len() && i != j implies f[i] != f[j] by {
                if i < e.len() && j < e.len() {
                } else if i < e.len() {
                    assert(e.contains(f[i]));
                } else {
                    assert(e.contains(f[j]));
                }
            }
        }
    }
}

/// The distinct values of a prefix are never more than those of the whole.
pub(crate) proof fn lemma_first_occurrences_prefix<T>(p: Seq<T>, s: Seq<T>)
    requires
        p.len() <= s.len(),
        s.subrange(0, p.len() as int) == p,
    ensures
        first_occurrences(p).len() <= first_occurrences(s).len(),
    decreases s.len() - p.len(),
{
    if p.len() == s.len() {
        assert(s =~= p);
    } else {
        assert(s.drop_last().subrange(0, p.len() as int) =~= p);
        lemma_first_occurrences_prefix(p, s.drop_last());
    }
}

/// A value of a sequence without repeats keeps its position in any longer sequence without
/// repeats that the sequence starts.
pub(crate) proof fn lemma_index_of_stable<T>(order: Seq<T>, longer: Seq<T>, x: T)
    requires
        longer.no_duplicates(),
        order.len() <= longer.len(),
        longer.subrange(0, order.len() as int) == order,
        order.contains(x),
    ensures
        longer.contains(x),
        longer.index_of(x) == order.index_of(x),
        0 <= order.index_of(x) < order.len(),
        order[order.index_of(x)] == x,
{
    let i = order.index_of(x);
    assert(longer[i] == order[i]);
    let j = longer.index_of(x);
}

/// Adding one value to the end either leaves the distinct values as they are or adds it last.
pub(crate) proof fn lemma_first_occurrences_push<T>(s: Seq<T>, x: T)
    ensures
        first_occurrences(s.push(x)) == if first_occurrences(s).contains(x) {
            first_occurrences(s)
        } else {
            first_occurrences(s).push(x)
        },
{
    assert(s.push(x).drop_last() =~= s);
}

} // verus!
