use vstd::prelude::*;

verus! {

/// A range representing a location (in bytes) in a request file's text
pub type Span = core::ops::Range<usize>;

/// A pair of T and its span in a request file's text
pub type Spanned<T> = (T, Span);

/// A span representing no location in a request file's text
pub const NO_SPAN: Span = 0..0;

/// Copy a span field by field.
pub fn copy_span(span: &Span) -> (res: Span)
    ensures
        res == *span,
{
    span.start..span.end
}

/// Insert `x` into `s` after every element whose span starts at or before `x`'s,
/// scanning from the back (one step of a stable insertion sort).
pub open spec fn insert_by_start<T>(s: Seq<(T, Span)>, x: (T, Span)) -> Seq<(T, Span)>
    decreases s.len(),
{
    if s.len() == 0 {
        seq![x]
    } else if x.1.start < s.last().1.start {
        insert_by_start(s.drop_last(), x).push(s.last())
    } else {
        s.push(x)
    }
}

/// `s` ordered by the start of each span; elements whose spans start at the
/// same offset keep their relative order (a stable sort, as `sort_by` is).
pub open spec fn sort_by_start<T>(s: Seq<(T, Span)>) -> Seq<(T, Span)>
    decreases s.len(),
{
    if s.len() == 0 {
        Seq::empty()
    } else {
        insert_by_start(sort_by_start(s.drop_last()), s.last())
    }
}

proof fn lemma_insert_by_start_split<T>(s: Seq<(T, Span)>, x: (T, Span), k: int)
    requires
        0 <= k <= s.len(),
        forall|j: int| k <= j < s.len() ==> x.1.start < #[trigger] s[j].1.start,
        k == 0 || s[k - 1].1.start <= x.1.start,
    ensures
        insert_by_start(s, x) == s.take(k).push(x) + s.skip(k),
    decreases s.len(),
{
    if k == s.len() {
        if s.len() == 0 {
            assert(s.take(k).push(x) + s.skip(k) =~= seq![x]);
        } else {
            assert(s.take(k).push(x) + s.skip(k) =~= s.push(x));
        }
    } else {
        let t = s.drop_last();
        assert(x.1.start < s.last().1.start);
        assert forall|j: int| k <= j < t.len() implies x.1.start < #[trigger] t[j].1.start by {
            assert(t[j] == s[j]);
        }
        if k > 0 {
            assert(t[k - 1] == s[k - 1]);
        }
        lemma_insert_by_start_split(t, x, k);
        assert(t.take(k) =~= s.take(k));
        assert(t.skip(k).push(s.last()) =~= s.skip(k));
        assert(insert_by_start(s, x) == insert_by_start(t, x).push(s.last()));
        assert((t.take(k).push(x) + t.skip(k)).push(s.last()) =~= t.take(k).push(x) + t.skip(k).push(s.last()));
    }
}

proof fn lemma_insert_preserves<T>(s: Seq<(T, Span)>, x: (T, Span), p: spec_fn((T, Span)) -> bool)
    requires
        forall|i: int| 0 <= i < s.len() ==> p(#[trigger] s[i]),
        p(x),
    ensures
        forall|i: int| 0 <= i < insert_by_start(s, x).len() ==> p(#[trigger] insert_by_start(s, x)[i]),
        insert_by_start(s, x).len() == s.len() + 1,
    decreases s.len(),
{
    if s.len() > 0 && x.1.start < s.last().1.start {
        let t = s.drop_last();
        assert forall|i: int| 0 <= i < t.len() implies p(#[trigger] t[i]) by {
            assert(t[i] == s[i]);
        }
        lemma_insert_preserves(t, x, p);
        assert(p(s[s.len() - 1]));
    }
}

/// Sorting keeps every property that all elements have, and the length.
pub proof fn lemma_sort_preserves<T>(s: Seq<(T, Span)>, p: spec_fn((T, Span)) -> bool)
    requires
        forall|i: int| 0 <= i < s.len() ==> p(#[trigger] s[i]),
    ensures
        forall|i: int| 0 <= i < sort_by_start(s).len() ==> p(#[trigger] sort_by_start(s)[i]),
        sort_by_start(s).len() == s.len(),
    decreases s.len(),
{
    if s.len() > 0 {
        let t = s.drop_last();
        assert forall|i: int| 0 <= i < t.len() implies p(#[trigger] t[i]) by {
            assert(t[i] == s[i]);
        }
        lemma_sort_preserves(t, p);
        assert(p(s[s.len() - 1]));
        lemma_insert_preserves(sort_by_start(t), s.last(), p);
    }
}

/// Replace the value of a spanned pair, keeping the span.
pub open spec fn map_spanned<T, U>(s: Seq<(T, Span)>, f: spec_fn(T) -> U) -> Seq<(U, Span)> {
    s.map_values(|x: (T, Span)| (f(x.0), x.1))
}

proof fn lemma_insert_map<T, U>(s: Seq<(T, Span)>, x: (T, Span), f: spec_fn(T) -> U)
    ensures
        map_spanned(insert_by_start(s, x), f) == insert_by_start(map_spanned(s, f), (f(x.0), x.1)),
    decreases s.len(),
{
    let ms = map_spanned(s, f);
    if s.len() == 0 {
        assert(map_spanned(seq![x], f) =~= seq![(f(x.0), x.1)]);
    } else {
        let t = s.drop_last();
        assert(map_spanned(t, f) =~= ms.drop_last());
        assert(ms.last() == (f(s.last().0), s.last().1));
        if x.1.start < s.last().1.start {
            lemma_insert_map(t, x, f);
            assert(map_spanned(insert_by_start(t, x).push(s.last()), f) =~= map_spanned(insert_by_start(t, x), f).push(ms.last()));
        } else {
            assert(map_spanned(s.push(x), f) =~= ms.push((f(x.0), x.1)));
        }
    }
}

/// Sorting by span start commutes with changing the values.
pub proof fn lemma_sort_map<T, U>(s: Seq<(T, Span)>, f: spec_fn(T) -> U)
    ensures
        map_spanned(sort_by_start(s), f) == sort_by_start(map_spanned(s, f)),
    decreases s.len(),
{
    let ms = map_spanned(s, f);
    if s.len() > 0 {
        let t = s.drop_last();
        lemma_sort_map(t, f);
        assert(map_spanned(t, f) =~= ms.drop_last());
        lemma_insert_map(sort_by_start(t), s.last(), f);
    } else {
        assert(ms =~= Seq::<(U, Span)>::empty());
        assert(map_spanned(Seq::<(T, Span)>::empty(), f) =~= Seq::<(U, Span)>::empty());
    }
}

/// Order spanned values by the start of their spans, keeping the relative order
/// of values whose spans start at the same offset.
pub fn sort_spanned_by_start<T>(v: Vec<(T, Span)>) -> (res: Vec<(T, Span)>)
    ensures
        res@ == sort_by_start(v@),
{
    let ghost orig = v@;
    let mut v = v;
    let mut res: Vec<(T, Span)> = Vec::new();
    let n = v.len();
    let mut i: usize = 0;
    while i < n
        invariant
            n == orig.len(),
            i <= n,
            v@ == orig.skip(i as int),
            res@ == sort_by_start(orig.take(i as int)),
        decreases n - i,
    {
        let x = v.remove(0);
        proof {
            assert(x == orig[i as int]);
            assert(v@ =~= orig.skip(i + 1));
            assert(orig.take(i + 1).drop_last() =~= orig.take(i as int));
            assert(orig.take(i + 1).last() == orig[i as int]);
        }
        let key = x.1.start;
        let mut p = res.len();
        while p > 0 && key < res[p - 1].1.start
            invariant
                p <= res.len(),
                forall|j: int| p <= j < res.len() ==> key < #[trigger] res@[j].1.start,
            decreases p,
        {
            p -= 1;
        }
        proof {
            lemma_insert_by_start_split(res@, x, p as int);
        }
        let ghost before = res@;
        res.insert(p, x);
        proof {
            assert(res@ =~= before.take(p as int).push(x) + before.skip(p as int));
        }
        i += 1;
    }
    proof {
        assert(orig.take(n as int) =~= orig);
    }
    res
}

/// Spans that start in order.
pub open spec fn starts_sorted<T>(s: Seq<(T, Span)>) -> bool {
    forall|i: int, j: int| 0 <= i < j < s.len() ==> s[i].1.start <= s[j].1.start
}

proof fn lemma_insert_sorted<T>(s: Seq<(T, Span)>, x: (T, Span))
    requires
        starts_sorted(s),
    ensures
        starts_sorted(insert_by_start(s, x)),
        insert_by_start(s, x).len() == s.len() + 1,
        forall|i: int| 0 <= i < insert_by_start(s, x).len() ==> (#[trigger] insert_by_start(s, x)[i] == x || exists|j: int| 0 <= j < s.len() && insert_by_start(s, x)[i] == s[j]),
    decreases s.len(),
{
    let r = insert_by_start(s, x);
    if s.len() == 0 {
    } else if x.1.start < s.last().1.start {
        let t = s.drop_last();
        assert(starts_sorted(t)) by {
            assert forall|i: int, j: int| 0 <= i < j < t.len() implies t[i].1.start <= t[j].1.start by {
                assert(t[i] == s[i] && t[j] == s[j]);
            }
        }
        lemma_insert_sorted(t, x);
        let u = insert_by_start(t, x);
        assert(r == u.push(s.last()));
        assert forall|i: int| 0 <= i < u.len() implies u[i].1.start <= s.last().1.start by {
            if u[i] != x {
                let j = choose|j: int| 0 <= j < t.len() && u[i] == t[j];
                assert(t[j] == s[j]);
            }
        }
        assert forall|i: int| 0 <= i < r.len() implies (#[trigger] r[i] == x || exists|j: int| 0 <= j < s.len() && r[i] == s[j]) by {
            if i == r.len() - 1 {
                assert(r[i] == s[s.len() - 1]);
            } else {
                assert(r[i] == u[i]);
                if u[i] != x {
                    let j = choose|j: int| 0 <= j < t.len() && u[i] == t[j];
                    assert(t[j] == s[j]);
                }
            }
        }
        assert forall|i: int, j: int| 0 <= i < j < r.len() implies r[i].1.start <= r[j].1.start by {
            if j == r.len() - 1 {
                assert(r[i] == u[i]);
            } else {
                assert(r[i] == u[i] && r[j] == u[j]);
            }
        }
    } else {
        assert(r == s.push(x));
        assert forall|i: int, j: int| 0 <= i < j < r.len() implies r[i].1.start <= r[j].1.start by {
            if j == r.len() - 1 {
                assert(r[i] == s[i]);
                assert(s[i].1.start <= s.last().1.start);
            } else {
                assert(r[i] == s[i] && r[j] == s[j]);
            }
        }
        assert forall|i: int| 0 <= i < r.len() implies (#[trigger] r[i] == x || exists|j: int| 0 <= j < s.len() && r[i] == s[j]) by {
            if i < s.len() {
                assert(r[i] == s[i]);
            }
        }
    }
}

/// Sorting by span start orders the spans by their start.
pub proof fn lemma_sort_by_start_sorted<T>(s: Seq<(T, Span)>)
    ensures
        starts_sorted(sort_by_start(s)),
    decreases s.len(),
{
    if s.len() > 0 {
        lemma_sort_by_start_sorted(s.drop_last());
        lemma_insert_sorted(sort_by_start(s.drop_last()), s.last());
    }
}

} // verus!
