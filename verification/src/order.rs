//! Orders: texts in dictionary order, and ports without repetition.
use vstd::prelude::*;

use crate::text::{chars_of, copy_list, same, texts, Text};

verus! {

broadcast use vstd::string::group_string_axioms;

/// Whether `a` stands before `b` in dictionary order of characters.
pub open spec fn text_lt(a: Text, b: Text) -> bool
    decreases a.len(),
{
    if b.len() == 0 {
        false
    } else if a.len() == 0 {
        true
    } else if a[0] != b[0] {
        a[0] < b[0]
    } else {
        text_lt(a.drop_first(), b.drop_first())
    }
}

/// Dictionary order is total: of two texts one stands first, unless they are
/// the same.
pub proof fn lemma_text_total(a: Text, b: Text)
    ensures
        text_lt(a, b) || text_lt(b, a) || a == b,
        !(text_lt(a, b) && text_lt(b, a)),
        a == b ==> !text_lt(a, b),
    decreases a.len(),
{
    if a.len() > 0 && b.len() > 0 && a[0] == b[0] {
        lemma_text_total(a.drop_first(), b.drop_first());
        if a.drop_first() == b.drop_first() {
            assert(a =~= seq![a[0]] + a.drop_first());
            assert(b =~= seq![b[0]] + b.drop_first());
        }
    } else if a.len() == 0 && b.len() == 0 {
        assert(a =~= b);
    }
}

/// Dictionary order is transitive.
pub proof fn lemma_text_trans(a: Text, b: Text, c: Text)
    requires
        text_lt(a, b),
        text_lt(b, c),
    ensures
        text_lt(a, c),
    decreases a.len(),
{
    if a.len() > 0 && b.len() > 0 && c.len() > 0 && a[0] == b[0] && b[0] == c[0] {
        lemma_text_trans(a.drop_first(), b.drop_first(), c.drop_first());
    }
}

/// Whether `a` stands before `b` in dictionary order.
pub fn text_before(a: &str, b: &str) -> (r: bool)
    ensures
        r == text_lt(a@, b@),
{
    let x = chars_of(a);
    let y = chars_of(b);
    let mut i: usize = 0;
    proof {
        assert(x@.skip(0) =~= x@);
        assert(y@.skip(0) =~= y@);
    }
    while i < x.len() && i < y.len()
        invariant
            x@ == a@,
            y@ == b@,
            i <= x.len(),
            i <= y.len(),
            text_lt(a@, b@) == text_lt(x@.skip(i as int), y@.skip(i as int)),
        decreases x.len() - i,
    {
        if x[i] != y[i] {
            return x[i] < y[i];
        }
        proof {
            assert(x@.skip(i as int).drop_first() =~= x@.skip(i + 1));
            assert(y@.skip(i as int).drop_first() =~= y@.skip(i + 1));
        }
        i = i + 1;
    }
    i < y.len()
}

/// Whether position `i` comes before position `j` when the texts are put in
/// order: by the texts, then by position.
pub open spec fn comes_before(k: Seq<Text>, i: int, j: int) -> bool {
    text_lt(k[i], k[j]) || (k[i] == k[j] && i < j)
}

/// Whether `p` lists the positions of `k` in order, each once.
pub open spec fn is_order(p: Seq<usize>, k: Seq<Text>) -> bool {
    &&& p.len() == k.len()
    &&& forall|i: int| 0 <= i < p.len() ==> #[trigger] p[i] < k.len()
    &&& forall|i: int, j: int|
        0 <= i < j < p.len() ==> comes_before(k, #[trigger] p[i] as int, #[trigger] p[j] as int)
}

proof fn lemma_before_trans(k: Seq<Text>, a: int, b: int, c: int)
    requires
        comes_before(k, a, b),
        comes_before(k, b, c),
    ensures
        comes_before(k, a, c),
{
    if text_lt(k[a], k[b]) && text_lt(k[b], k[c]) {
        lemma_text_trans(k[a], k[b], k[c]);
    }
}

/// The positions of the texts in dictionary order; equal texts keep their
/// order.
pub fn order_of(k: &Vec<String>) -> (p: Vec<usize>)
    ensures
        is_order(p@, texts(k@)),
{
    let ghost t = texts(k@);
    let mut p: Vec<usize> = Vec::new();
    let mut n: usize = 0;
    while n < k.len()
        invariant
            t == texts(k@),
            n <= k.len(),
            p.len() == n,
            forall|i: int| 0 <= i < p.len() ==> #[trigger] p@[i] < n,
            forall|i: int, j: int|
                0 <= i < j < p.len() ==> comes_before(
                    t,
                    #[trigger] p@[i] as int,
                    #[trigger] p@[j] as int,
                ),
        decreases k.len() - n,
    {
        let mut at: usize = p.len();
        while at > 0 && text_before(k[n].as_str(), k[p[at - 1]].as_str())
            invariant
                t == texts(k@),
                n < k.len(),
                p.len() == n,
                at <= p.len(),
                forall|i: int| 0 <= i < p.len() ==> #[trigger] p@[i] < n,
                forall|i: int| at <= i < p.len() ==> text_lt(t[n as int], t[#[trigger] p@[i] as int]),
            decreases at,
        {
            at = at - 1;
        }
        let ghost q = p@;
        proof {
            assert forall|i: int| 0 <= i < at implies comes_before(
                t,
                #[trigger] q[i] as int,
                n as int,
            ) by {
                let l = q[at - 1] as int;
                lemma_text_total(t[n as int], t[l]);
                assert(comes_before(t, l, n as int));
                if i < at - 1 {
                    assert(comes_before(t, q[i] as int, l));
                    lemma_before_trans(t, q[i] as int, l, n as int);
                }
            }
        }
        p.insert(at, n);
        proof {
            assert forall|i: int, j: int| 0 <= i < j < p.len() implies comes_before(
                t,
                #[trigger] p@[i] as int,
                #[trigger] p@[j] as int,
            ) by {
                let a = if i < at { i } else { i - 1 };
                let b = if j < at { j } else { j - 1 };
                if i != at && j != at {
                    assert(p@[i] == q[a] && p@[j] == q[b]);
                } else if i == at {
                    assert(p@[j] == q[b]);
                } else {
                    assert(p@[i] == q[a]);
                }
            }
        }
        n = n + 1;
    }
    p
}

proof fn lemma_contains_push(s: Seq<u16>, x: u16, p: u16)
    ensures
        s.push(x).contains(p) <==> s.contains(p) || p == x,
{
    let t = s.push(x);
    if s.contains(p) {
        let i = choose|i: int| 0 <= i < s.len() && s[i] == p;
        assert(t[i] == p);
    }
    if p == x {
        assert(t[s.len() as int] == p);
    }
}

/// A rising row of numbers with one more in its place.
pub open spec fn inserted(s: Seq<u16>, x: u16) -> Seq<u16>
    decreases s.len(),
{
    if s.len() == 0 {
        seq![x]
    } else if s.last() < x {
        s.push(x)
    } else if s.last() == x {
        s
    } else {
        inserted(s.drop_last(), x).push(s.last())
    }
}

/// The numbers of a row, each once, upwards.
pub open spec fn ascending(v: Seq<u16>) -> Seq<u16>
    decreases v.len(),
{
    if v.len() == 0 {
        Seq::empty()
    } else {
        inserted(ascending(v.drop_last()), v.last())
    }
}

/// Whether a row of numbers rises.
pub open spec fn rises(s: Seq<u16>) -> bool {
    forall|i: int, j: int| 0 <= i < j < s.len() ==> #[trigger] s[i] < #[trigger] s[j]
}

proof fn lemma_inserted(s: Seq<u16>, x: u16)
    requires
        rises(s),
    ensures
        rises(inserted(s, x)),
        forall|p: u16| #[trigger] inserted(s, x).contains(p) <==> s.contains(p) || p == x,
    decreases s.len(),
{
    let r = inserted(s, x);
    if s.len() == 0 {
        assert(r[0] == x);
        assert forall|p: u16| #[trigger] r.contains(p) <==> s.contains(p) || p == x by {
            if p == x {
                assert(r[0] == p);
            }
        }
    } else if s.last() < x {
        assert forall|p: u16| #[trigger] r.contains(p) <==> s.contains(p) || p == x by {
            lemma_contains_push(s, x, p);
        }
    } else if s.last() == x {
        assert(s.contains(x)) by {
            assert(s[s.len() - 1] == x);
        }
    } else {
        let init = s.drop_last();
        let low = inserted(init, x);
        let top = s.last();
        lemma_inserted(init, x);
        assert(s =~= init.push(top));
        assert forall|p: u16| #[trigger] r.contains(p) <==> s.contains(p) || p == x by {
            lemma_contains_push(low, top, p);
            lemma_contains_push(init, top, p);
        }
        assert forall|i: int, j: int| 0 <= i < j < r.len() implies #[trigger] r[i]
            < #[trigger] r[j] by {
            if j == r.len() - 1 {
                assert(low.contains(low[i]));
                if init.contains(low[i]) {
                    let k = choose|k: int| 0 <= k < init.len() && init[k] == low[i];
                    assert(s[k] == low[i]);
                }
            }
        }
    }
}

/// What `ascending` says: the row rises, and holds the same numbers.
pub proof fn lemma_ascending(v: Seq<u16>)
    ensures
        rises(ascending(v)),
        forall|p: u16| #[trigger] ascending(v).contains(p) <==> v.contains(p),
    decreases v.len(),
{
    if v.len() > 0 {
        lemma_ascending(v.drop_last());
        lemma_inserted(ascending(v.drop_last()), v.last());
        assert(v =~= v.drop_last().push(v.last()));
        assert forall|p: u16| #[trigger] ascending(v).contains(p) <==> v.contains(p) by {
            lemma_contains_push(v.drop_last(), v.last(), p);
        }
    }
}

fn insert_number(s: &mut Vec<u16>, x: u16)
    ensures
        final(s)@ == inserted(old(s)@, x),
{
    let mut at: usize = s.len();
    let ghost all = s@;
    let ghost mut tail = Seq::<u16>::empty();
    proof {
        assert(all.take(all.len() as int) =~= all);
        assert(inserted(all, x) + tail =~= inserted(all, x));
    }
    while at > 0 && s[at - 1] > x
        invariant
            at <= s.len(),
            s@ == all,
            tail == all.skip(at as int),
            inserted(all, x) == inserted(all.take(at as int), x) + tail,
        decreases at,
    {
        proof {
            let t = all.take(at as int);
            assert(t.drop_last() =~= all.take(at - 1));
            assert(t.last() == all[at - 1]);
            assert(all.skip(at - 1) =~= seq![all[at - 1]] + tail);
            assert(inserted(t, x) + tail =~= inserted(all.take(at - 1), x) + (seq![all[at - 1]]
                + tail));
            tail = all.skip(at - 1);
        }
        at = at - 1;
    }
    proof {
        let t = all.take(at as int);
        if at > 0 {
            assert(t.last() == all[at - 1]);
        }
        assert(all =~= t + tail);
    }
    if at > 0 && s[at - 1] == x {
        return;
    }
    s.insert(at, x);
    proof {
        let t = all.take(at as int);
        assert(inserted(t, x) =~= t.push(x));
        assert(s@ =~= t.push(x) + tail);
    }
}

/// The numbers of a row, each once, upwards.
pub fn sorted_unique(v: &Vec<u16>) -> (out: Vec<u16>)
    ensures
        out@ == ascending(v@),
{
    let mut out: Vec<u16> = Vec::new();
    let mut i: usize = 0;
    proof {
        assert(v@.take(0) =~= Seq::<u16>::empty());
        assert(out@ =~= ascending(v@.take(0)));
    }
    while i < v.len()
        invariant
            i <= v.len(),
            out@ == ascending(v@.take(i as int)),
        decreases v.len() - i,
    {
        proof {
            assert(v@.take(i + 1).drop_last() =~= v@.take(i as int));
        }
        insert_number(&mut out, v[i]);
        i = i + 1;
    }
    proof {
        assert(v@.take(v@.len() as int) =~= v@);
    }
    out
}

/// Whether two lists hold the same texts, each as often.
pub open spec fn same_texts(a: Seq<Text>, b: Seq<Text>) -> bool {
    a.to_multiset() == b.to_multiset()
}

proof fn lemma_take_count(a: Seq<Text>, i: int, x: Text)
    requires
        0 <= i <= a.len(),
    ensures
        a.take(i).to_multiset().count(x) <= a.to_multiset().count(x),
{
    broadcast use vstd::seq_lib::group_to_multiset_ensures;
    vstd::seq_lib::lemma_multiset_commutative(a.take(i), a.skip(i));
    assert(a.take(i) + a.skip(i) =~= a);
}

/// Whether two lists hold the same texts, each as often.
pub fn is_same_texts(a: &Vec<String>, b: &Vec<String>) -> (r: bool)
    ensures
        r == same_texts(texts(a@), texts(b@)),
{
    broadcast use vstd::seq_lib::group_to_multiset_ensures;
    let ghost x = texts(a@);
    let ghost y = texts(b@);
    let mut rest: Vec<String> = copy_list(b);
    let mut i: usize = 0;
    proof {
        assert(x.take(0) =~= Seq::<Text>::empty());
        assert(texts(rest@) =~= y);
        assert(x.take(0).to_multiset().add(texts(rest@).to_multiset()) =~= y.to_multiset());
    }
    while i < a.len()
        invariant
            x == texts(a@),
            y == texts(b@),
            i <= a.len(),
            x.take(i as int).to_multiset().add(texts(rest@).to_multiset()) == y.to_multiset(),
        decreases a.len() - i,
    {
        let ghost left = texts(rest@);
        let t = a[i].as_str();
        let mut j: usize = 0;
        while j < rest.len() && !same(rest[j].as_str(), t)
            invariant
                j <= rest.len(),
                left == texts(rest@),
                forall|k: int| 0 <= k < j ==> left[k] != t@,
            decreases rest.len() - j,
        {
            proof {
                assert(left[j as int] == rest@[j as int]@);
            }
            j = j + 1;
        }
        proof {
            assert(x.take(i + 1) =~= x.take(i as int).push(t@));
        }
        if j == rest.len() {
            proof {
                broadcast use vstd::seq_lib::group_to_multiset_ensures;

                assert(!left.contains(t@));
                assert(left.to_multiset().count(t@) == 0);
                lemma_take_count(x, i + 1, t@);
                assert(x.take(i + 1).to_multiset().count(t@) == x.take(i as int).to_multiset().count(
                    t@,
                ) + 1);
                assert(y.to_multiset().count(t@) == x.take(i as int).to_multiset().count(t@));
            }
            return false;
        }
        proof {
            assert(left[j as int] == t@);
        }
        let _ = rest.remove(j);
        proof {
            broadcast use vstd::seq_lib::group_to_multiset_ensures;

            assert(left.contains(t@));
            assert(texts(rest@) =~= left.remove(j as int));
            assert(texts(rest@).to_multiset() =~= left.to_multiset().remove(t@));
            assert(x.take(i + 1).to_multiset() =~= x.take(i as int).to_multiset().insert(t@));
            assert(x.take(i + 1).to_multiset().add(texts(rest@).to_multiset())
                =~= y.to_multiset());
        }
        i = i + 1;
    }
    proof {
        assert(x.take(x.len() as int) =~= x);
        if rest.len() == 0 {
            assert(texts(rest@) =~= Seq::<Text>::empty());
            assert(x.to_multiset() =~= y.to_multiset());
        } else {
            assert(texts(rest@)[0] == rest@[0]@);
            assert(texts(rest@).contains(texts(rest@)[0]));
            assert(texts(rest@).to_multiset().count(texts(rest@)[0]) > 0);
            assert(y.to_multiset().count(texts(rest@)[0]) > x.to_multiset().count(texts(rest@)[0]));
        }
    }
    rest.len() == 0
}

/// What a row holds with one more at its end.
pub(crate) proof fn lemma_holds_pushed<T>(s: Seq<T>, x: T, p: T)
    ensures
        s.push(x).contains(p) <==> s.contains(p) || p == x,
{
    let t = s.push(x);
    if s.contains(p) {
        let i = choose|i: int| 0 <= i < s.len() && s[i] == p;
        assert(t[i] == p);
    }
    if p == x {
        assert(t[s.len() as int] == p);
    }
    if t.contains(p) && p != x {
        let i = choose|i: int| 0 <= i < t.len() && t[i] == p;
        assert(s[i] == p);
    }
}

/// What two rows hold together.
pub(crate) proof fn lemma_holds_both<T>(s: Seq<T>, t: Seq<T>, p: T)
    ensures
        (s + t).contains(p) <==> s.contains(p) || t.contains(p),
{
    let u = s + t;
    if s.contains(p) {
        let i = choose|i: int| 0 <= i < s.len() && s[i] == p;
        assert(u[i] == p);
    }
    if t.contains(p) {
        let i = choose|i: int| 0 <= i < t.len() && t[i] == p;
        assert(u[s.len() + i] == p);
    }
    if u.contains(p) {
        let i = choose|i: int| 0 <= i < u.len() && u[i] == p;
        if i < s.len() {
            assert(s[i] == p);
        } else {
            assert(t[i - s.len()] == p);
        }
    }
}


} // verus!
