//! Ordering of archive records by their snapshot timestamp: the
//! lexicographic order that `String`'s `Ord` gives (comparing characters by
//! code point is the same as comparing their UTF-8 bytes), and a stable sort.

use vstd::prelude::*;
use crate::text::chars_of;

verus! {

/// `a` sorts strictly before `b`, character by character.
pub open spec fn lex_lt(a: Seq<char>, b: Seq<char>) -> bool
    decreases a.len(),
{
    if a.len() == 0 {
        b.len() > 0
    } else if b.len() == 0 {
        false
    } else if a[0] != b[0] {
        a[0] < b[0]
    } else {
        lex_lt(a.drop_first(), b.drop_first())
    }
}

/// No text sorts before itself.
pub proof fn lemma_lex_lt_irreflexive(a: Seq<char>)
    ensures
        !lex_lt(a, a),
    decreases a.len(),
{
    if a.len() > 0 {
        lemma_lex_lt_irreflexive(a.drop_first());
    }
}

/// Sorting before is transitive.
pub proof fn lemma_lex_lt_transitive(a: Seq<char>, b: Seq<char>, c: Seq<char>)
    requires
        lex_lt(a, b),
        lex_lt(b, c),
    ensures
        lex_lt(a, c),
    decreases a.len(),
{
    if a.len() > 0 && b.len() > 0 && c.len() > 0 {
        if a[0] == b[0] && b[0] == c[0] {
            lemma_lex_lt_transitive(a.drop_first(), b.drop_first(), c.drop_first());
        }
    }
}

/// Of two different texts, one sorts before the other.
pub proof fn lemma_lex_lt_total(a: Seq<char>, b: Seq<char>)
    requires
        a != b,
    ensures
        lex_lt(a, b) || lex_lt(b, a),
    decreases a.len(),
{
    if a.len() > 0 && b.len() > 0 {
        if a[0] == b[0] {
            if a.drop_first() == b.drop_first() {
                assert(a =~= seq![a[0]] + a.drop_first());
                assert(b =~= seq![b[0]] + b.drop_first());
            }
            lemma_lex_lt_total(a.drop_first(), b.drop_first());
        }
    } else if a.len() == 0 && b.len() == 0 {
        assert(a =~= b);
    }
}

/// Whether `a` sorts strictly before `b` (`String`'s `<`).
pub fn lex_less(a: &str, b: &str) -> (res: bool)
    ensures
        res == lex_lt(a@, b@),
{
    let x = chars_of(a);
    let y = chars_of(b);
    let mut i: usize = 0;
    assert(x@.skip(0) =~= x@ && y@.skip(0) =~= y@);
    while i < x.len() && i < y.len() && x[i] == y[i]
        invariant
            i <= x@.len(),
            i <= y@.len(),
            x@ == a@,
            y@ == b@,
            lex_lt(x@.skip(i as int), y@.skip(i as int)) == lex_lt(a@, b@),
        decreases x@.len() - i,
    {
        proof {
            let xs = x@.skip(i as int);
            let ys = y@.skip(i as int);
            assert(xs.drop_first() =~= x@.skip(i + 1));
            assert(ys.drop_first() =~= y@.skip(i + 1));
        }
        i += 1;
    }
    proof {
        let xs = x@.skip(i as int);
        let ys = y@.skip(i as int);
        if i < x@.len() && i < y@.len() {
            assert(xs[0] == x@[i as int] && ys[0] == y@[i as int]);
        }
    }
    if i == x.len() {
        i < y.len()
    } else if i == y.len() {
        false
    } else {
        x[i] < y[i]
    }
}

/// A record that carries a snapshot timestamp.
pub trait Timestamped: Sized {
    /// The timestamp, as characters.
    spec fn stamp(&self) -> Seq<char>;

    /// The timestamp.
    fn stamp_str(&self) -> (res: &str)
        ensures
            res@ == self.stamp(),
    ;
}

/// The records of `s` whose timestamp is `k`, in order.
pub open spec fn with_stamp<T: Timestamped>(s: Seq<T>, k: Seq<char>) -> Seq<T> {
    s.filter(stamp_is(k))
}

/// Whether a record has timestamp `k`.
pub open spec fn stamp_is<T: Timestamped>(k: Seq<char>) -> spec_fn(T) -> bool {
    |x: T| x.stamp() == k
}

/// No record sorts before one that precedes it.
pub open spec fn sorted_by_stamp<T: Timestamped>(s: Seq<T>) -> bool {
    forall|i: int, j: int| 0 <= i < j < s.len() ==> !lex_lt(#[trigger] s[j].stamp(), #[trigger] s[i].stamp())
}

/// `a` holds the records of `b`, those of each timestamp in the same order:
/// a stable reordering.
pub open spec fn same_per_stamp<T: Timestamped>(a: Seq<T>, b: Seq<T>) -> bool {
    forall|k: Seq<char>| #[trigger] with_stamp(a, k) == with_stamp(b, k)
}

/// No two records share a timestamp.
pub open spec fn stamps_distinct<T: Timestamped>(s: Seq<T>) -> bool {
    forall|i: int, j: int| 0 <= i < j < s.len() ==> #[trigger] s[i].stamp() != #[trigger] s[j].stamp()
}

/// Some record has timestamp `k`.
pub open spec fn has_stamp_in<T: Timestamped>(s: Seq<T>, k: Seq<char>) -> bool {
    exists|j: int| 0 <= j < s.len() && (#[trigger] s[j]).stamp() == k
}

/// With distinct timestamps, at most one record has a given timestamp.
proof fn lemma_distinct_at_most_one<T: Timestamped>(s: Seq<T>, k: Seq<char>)
    requires
        stamps_distinct(s),
    ensures
        with_stamp(s, k).len() <= 1,
    decreases s.len(),
{
    if s.len() > 0 {
        let d = s.drop_last();
        assert(stamps_distinct(d)) by {
            assert forall|i: int, j: int| 0 <= i < j < d.len() implies #[trigger] d[i].stamp() != #[trigger] d[j].stamp() by {
                assert(d[i] == s[i] && d[j] == s[j]);
            }
        }
        lemma_distinct_at_most_one(d, k);
        let pred = stamp_is::<T>(k);
        assert(s =~= d.push(s.last()));
        d.lemma_filter_len_push(pred, s.last());
        if pred(s.last()) {
            assert forall|i: int| 0 <= i < d.len() implies !pred(d[i]) by {
                assert(d[i] == s[i]);
                assert(s[i].stamp() != s[s.len() - 1].stamp());
            }
            d.lemma_all_neg_filter_empty(pred);
        }
    } else {
        reveal(Seq::filter);
    }
}

/// Two records with one timestamp are both kept by [`with_stamp`].
proof fn lemma_two_with_stamp<T: Timestamped>(s: Seq<T>, i: int, j: int)
    requires
        0 <= i < j < s.len(),
        s[i].stamp() == s[j].stamp(),
    ensures
        with_stamp(s, s[i].stamp()).len() >= 2,
{
    let k = s[i].stamp();
    let pred = stamp_is::<T>(k);
    let a = s.take(j);
    let b = s.skip(j);
    assert(s =~= a + b);
    Seq::filter_distributes_over_add(a, b, pred);
    assert(a[i] == s[i]);
    a.lemma_filter_contains(pred, i);
    assert(b[0] == s[j]);
    b.lemma_filter_contains(pred, 0);
    assert(a.filter(pred).len() >= 1 && b.filter(pred).len() >= 1);
}

/// A stable reordering keeps which timestamps occur, and keeps them
/// distinct when they were.
pub proof fn lemma_same_per_stamp_keeps_stamps<T: Timestamped>(a: Seq<T>, b: Seq<T>)
    requires
        same_per_stamp(a, b),
    ensures
        stamps_distinct(b) ==> stamps_distinct(a),
        forall|k: Seq<char>| has_stamp_in(b, k) ==> #[trigger] has_stamp_in(a, k),
{
    if stamps_distinct(b) {
        assert forall|i: int, j: int| 0 <= i < j < a.len() implies #[trigger] a[i].stamp() != #[trigger] a[j].stamp() by {
            if a[i].stamp() == a[j].stamp() {
                lemma_two_with_stamp(a, i, j);
                assert(with_stamp(a, a[i].stamp()) == with_stamp(b, a[i].stamp()));
                lemma_distinct_at_most_one(b, a[i].stamp());
            }
        }
    }
    assert forall|k: Seq<char>| has_stamp_in(b, k) implies #[trigger] has_stamp_in(a, k) by {
        let pred = stamp_is::<T>(k);
        let j = choose|j: int| 0 <= j < b.len() && (#[trigger] b[j]).stamp() == k;
        b.lemma_filter_contains(pred, j);
        assert(with_stamp(a, k) == with_stamp(b, k));
        let f = a.filter(pred);
        assert(f.len() > 0);
        a.lemma_filter_pred(pred, 0);
        a.lemma_filter_contains_rev(pred, f[0]);
        let m = choose|m: int| 0 <= m < a.len() && a[m] == f[0];
        assert(a[m].stamp() == k);
    }
}

/// A stable reordering only holds records of the original.
pub proof fn lemma_same_per_stamp_elements<T: Timestamped>(a: Seq<T>, b: Seq<T>)
    requires
        same_per_stamp(a, b),
    ensures
        forall|j: int| 0 <= j < a.len() ==> b.contains(#[trigger] a[j]),
{
    assert forall|j: int| 0 <= j < a.len() implies b.contains(#[trigger] a[j]) by {
        let k = a[j].stamp();
        let pred = stamp_is::<T>(k);
        a.lemma_filter_contains(pred, j);
        assert(with_stamp(a, k) == with_stamp(b, k));
        b.lemma_filter_contains_rev(pred, a[j]);
    }
}

proof fn lemma_insert_keeps_stamps<T: Timestamped>(out: Seq<T>, p: int, x: T)
    requires
        0 <= p <= out.len(),
        forall|r: int| p <= r < out.len() ==> out[r].stamp() != x.stamp(),
    ensures
        forall|k: Seq<char>| #[trigger] with_stamp(out.insert(p, x), k) == if k == x.stamp() {
            with_stamp(out, k).push(x)
        } else {
            with_stamp(out, k)
        },
{
    broadcast use Seq::filter_distributes_over_add;
    assert forall|k: Seq<char>| #[trigger] with_stamp(out.insert(p, x), k) == if k == x.stamp() {
        with_stamp(out, k).push(x)
    } else {
        with_stamp(out, k)
    } by {
        let pred = stamp_is::<T>(k);
        let a = out.take(p);
        let b = out.skip(p);
        assert(out.insert(p, x) =~= a + seq![x] + b);
        assert(out =~= a + b);
        reveal_with_fuel(Seq::filter, 2);
        assert(seq![x].filter(pred) =~= if pred(x) { seq![x] } else { Seq::<T>::empty() }) by {
            assert(seq![x].drop_last() =~= Seq::<T>::empty());
        }
        if k == x.stamp() {
            assert(b.filter(pred) =~= Seq::<T>::empty()) by {
                b.lemma_all_neg_filter_empty(pred);
            }
        }
    }
}

/// The records of `v`, stably sorted by timestamp (`sort_by` on the
/// timestamps).
pub fn sort_by_stamp<T: Timestamped>(v: Vec<T>) -> (res: Vec<T>)
    ensures
        sorted_by_stamp(res@),
        same_per_stamp(res@, v@),
{
    let ghost input = v@;
    let mut out: Vec<T> = Vec::new();
    let mut rest = v;
    let ghost mut done: int = 0;
    proof {
        assert forall|k: Seq<char>| #[trigger] with_stamp(out@, k) == with_stamp(input.take(0), k) by {
            reveal(Seq::filter);
            assert(out@ =~= input.take(0));
        }
    }
    while rest.len() > 0
        invariant
            0 <= done <= input.len(),
            rest@ == input.skip(done),
            sorted_by_stamp(out@),
            forall|k: Seq<char>| #[trigger] with_stamp(out@, k) == with_stamp(input.take(done), k),
        decreases rest@.len(),
    {
        let x = rest.remove(0);
        assert(x == input[done]);
        let mut p: usize = 0;
        while p < out.len() && !lex_less(x.stamp_str(), out[p].stamp_str())
            invariant
                p <= out@.len(),
                forall|q: int| 0 <= q < p ==> !lex_lt(x.stamp(), #[trigger] out@[q].stamp()),
            decreases out@.len() - p,
        {
            p += 1;
        }
        proof {
            assert forall|r: int| p <= r < out@.len() implies out@[r].stamp() != x.stamp() && !lex_lt(
                out@[r].stamp(),
                x.stamp(),
            ) by {
                assert(lex_lt(x.stamp(), out@[p as int].stamp()));
                if r > p {
                    assert(!lex_lt(out@[r].stamp(), out@[p as int].stamp()));
                }
                lemma_lex_lt_irreflexive(x.stamp());
                if lex_lt(out@[r].stamp(), x.stamp()) {
                    lemma_lex_lt_transitive(out@[r].stamp(), x.stamp(), out@[p as int].stamp());
                    lemma_lex_lt_irreflexive(out@[p as int].stamp());
                }
            }
            lemma_insert_keeps_stamps(out@, p as int, x);
        }
        let ghost old_out = out@;
        out.insert(p, x);
        proof {
            assert(out@ == old_out.insert(p as int, x));
            assert forall|i: int, j: int| 0 <= i < j < out@.len() implies !lex_lt(
                #[trigger] out@[j].stamp(),
                #[trigger] out@[i].stamp(),
            ) by {
                if j < p {
                    assert(out@[i] == old_out[i] && out@[j] == old_out[j]);
                } else if j == p {
                    assert(out@[i] == old_out[i]);
                } else if i < p {
                    assert(out@[i] == old_out[i] && out@[j] == old_out[j - 1]);
                } else if i == p {
                    assert(out@[j] == old_out[j - 1]);
                } else {
                    assert(out@[i] == old_out[i - 1] && out@[j] == old_out[j - 1]);
                }
            }
            let n = done + 1;
            assert(input.take(n) =~= input.take(done).push(x));
            assert forall|k: Seq<char>| #[trigger] with_stamp(out@, k) == with_stamp(input.take(n), k) by {
                reveal(Seq::filter);
                assert(input.take(n).drop_last() =~= input.take(done));
            }
            assert(rest@ =~= input.skip(n));
            done = n;
        }
    }
    proof {
        assert(input.take(done) =~= input);
    }
    out
}

} // verus!
