//! Rows in order: those that are kept, each behind the ones that go before it.

use vstd::prelude::*;
use vstd::relations::*;

verus! {

/// The place behind every row that goes before one, from a position on.
pub open spec fn place<T>(s: Seq<T>, x: T, before: spec_fn(T, T) -> bool, from: int) -> int
    decreases s.len() - from,
{
    if from < 0 || from >= s.len() || !before(s[from], x) {
        from
    } else {
        place(s, x, before, from + 1)
    }
}

/// The rows that are kept, in order. Of rows that go before each other, the one that
/// came first stays first.
pub open spec fn arranged<T>(
    s: Seq<T>,
    keep: spec_fn(T) -> bool,
    before: spec_fn(T, T) -> bool,
) -> Seq<T>
    decreases s.len(),
{
    if s.len() == 0 {
        s
    } else {
        let rest = arranged(s.drop_last(), keep, before);
        if keep(s.last()) {
            rest.insert(place(rest, s.last(), before, 0), s.last())
        } else {
            rest
        }
    }
}

/// Every row before the place goes before the row that is placed, and the row at the place
/// does not.
pub proof fn lemma_place<T>(s: Seq<T>, x: T, before: spec_fn(T, T) -> bool, from: int)
    requires
        0 <= from <= s.len(),
        forall|i: int| 0 <= i < from ==> before(#[trigger] s[i], x),
    ensures
        0 <= place(s, x, before, from) <= s.len(),
        forall|i: int| 0 <= i < place(s, x, before, from) ==> before(#[trigger] s[i], x),
        place(s, x, before, from) < s.len() ==> !before(s[place(s, x, before, from)], x),
    decreases s.len() - from,
{
    if from < s.len() && before(s[from], x) {
        lemma_place(s, x, before, from + 1);
    }
}

/// Arranged rows are in order, and they are exactly the rows that are kept.
pub proof fn lemma_arranged<T>(
    s: Seq<T>,
    keep: spec_fn(T) -> bool,
    before: spec_fn(T, T) -> bool,
)
    requires
        strongly_connected(before),
        transitive(before),
    ensures
        sorted_by(arranged(s, keep, before), before),
        arranged(s, keep, before).to_multiset() == s.filter(keep).to_multiset(),
    decreases s.len(),
{
    broadcast use vstd::seq_lib::group_to_multiset_ensures;

    reveal(Seq::filter);
    if s.len() > 0 {
        let x = s.last();
        let rest = arranged(s.drop_last(), keep, before);
        lemma_arranged(s.drop_last(), keep, before);
        if keep(x) {
            let at = place(rest, x, before, 0);
            lemma_place(rest, x, before, 0);
            let all = rest.insert(at, x);
            crate::text::lemma_insert_multiset(rest, at, x);
            assert forall|p: int, q: int| 0 <= p < q < all.len() implies before(
                #[trigger] all[p],
                #[trigger] all[q],
            ) by {
                if q == at {
                    assert(all[p] == rest[p]);
                } else if p == at {
                    assert(all[q] == rest[q - 1]);
                    assert(before(x, rest[at]));
                    if at < q - 1 {
                        assert(before(rest[at], rest[q - 1]));
                    }
                } else {
                    let pp = if p < at {
                        p
                    } else {
                        p - 1
                    };
                    let qq = if q < at {
                        q
                    } else {
                        q - 1
                    };
                    assert(all[p] == rest[pp]);
                    assert(all[q] == rest[qq]);
                }
            }
        }
    }
}

} // verus!
