//! Text operations over sequences of characters.
//!
//! Every operation has a spec function over `Seq<char>` that says what the
//! result is, and an executable function proved to compute it.
use vstd::prelude::*;

verus! {

broadcast use vstd::string::group_string_axioms;

/// A piece of text as contracts see it.
pub type Text = Seq<char>;

/// The views of a list of strings.
pub open spec fn texts(v: Seq<String>) -> Seq<Text> {
    Seq::new(v.len(), |i: int| v[i]@)
}

/// `String::push`: the character is added at the end.
pub assume_specification[ String::push ](s: &mut String, c: char)
    ensures
        final(s)@ == old(s)@.push(c),
;

/// The characters of a string, in order.
pub fn chars_of(s: &str) -> (out: Vec<char>)
    ensures
        out@ == s@,
{
    let mut out: Vec<char> = Vec::new();
    for c in it: s.chars()
        invariant
            it.seq() == s@,
            out@ == s@.take(it.index() as int),
    {
        proof {
            assert(s@.take(it.index() as int).push(c) =~= s@.take(it.index() + 1));
        }
        out.push(c);
    }
    proof {
        assert(s@.take(s@.len() as int) =~= s@);
    }
    out
}

/// The string made of the given characters.
pub fn string_of(v: &[char]) -> (out: String)
    ensures
        out@ == v@,
{
    let mut out: String = String::new();
    let mut i: usize = 0;
    while i < v.len()
        invariant
            i <= v.len(),
            out@ == v@.take(i as int),
        decreases v.len() - i,
    {
        proof {
            assert(v@.take(i as int).push(v@[i as int]) =~= v@.take(i + 1));
        }
        out.push(v[i]);
        i = i + 1;
    }
    proof {
        assert(v@.take(v@.len() as int) =~= v@);
    }
    out
}

/// Whether two strings hold the same characters.
pub fn same(a: &str, b: &str) -> (r: bool)
    ensures
        r == (a@ == b@),
{
    let x = chars_of(a);
    let y = chars_of(b);
    if x.len() != y.len() {
        return false;
    }
    let mut i: usize = 0;
    while i < x.len()
        invariant
            i <= x.len(),
            x.len() == y.len(),
            x@ == a@,
            y@ == b@,
            forall|k: int| 0 <= k < i ==> x@[k] == y@[k],
        decreases x.len() - i,
    {
        if x[i] != y[i] {
            return false;
        }
        i = i + 1;
    }
    proof {
        assert(a@ =~= b@);
    }
    true
}

/// The characters that Unicode calls white space.
pub open spec fn is_space(c: char) -> bool {
    ||| '\u{9}' <= c <= '\u{d}'
    ||| c == ' '
    ||| c == '\u{85}'
    ||| c == '\u{a0}'
    ||| c == '\u{1680}'
    ||| '\u{2000}' <= c <= '\u{200a}'
    ||| c == '\u{2028}'
    ||| c == '\u{2029}'
    ||| c == '\u{202f}'
    ||| c == '\u{205f}'
    ||| c == '\u{3000}'
}

/// Whether `c` is white space.
pub fn char_is_space(c: char) -> (r: bool)
    ensures
        r == is_space(c),
{
    ('\u{9}' <= c && c <= '\u{d}') || c == ' ' || c == '\u{85}' || c == '\u{a0}'
        || c == '\u{1680}' || ('\u{2000}' <= c && c <= '\u{200a}') || c == '\u{2028}'
        || c == '\u{2029}' || c == '\u{202f}' || c == '\u{205f}' || c == '\u{3000}'
}

/// `s` without its leading white space.
pub open spec fn trim_start(s: Text) -> Text
    decreases s.len(),
{
    if s.len() > 0 && is_space(s[0]) {
        trim_start(s.drop_first())
    } else {
        s
    }
}

/// `s` without its trailing white space.
pub open spec fn trim_end(s: Text) -> Text
    decreases s.len(),
{
    if s.len() > 0 && is_space(s.last()) {
        trim_end(s.drop_last())
    } else {
        s
    }
}

/// `s` without white space at either end.
pub open spec fn trimmed(s: Text) -> Text {
    trim_end(trim_start(s))
}

/// `s` without white space at either end.
pub fn trim(s: &str) -> (out: String)
    ensures
        out@ == trimmed(s@),
{
    let v = chars_of(s);
    let mut a: usize = 0;
    proof {
        assert(v@.skip(0) =~= v@);
    }
    while a < v.len() && char_is_space(v[a])
        invariant
            a <= v.len(),
            v@ == s@,
            trim_start(v@) == trim_start(v@.skip(a as int)),
        decreases v.len() - a,
    {
        proof {
            assert(v@.skip(a as int).drop_first() =~= v@.skip(a + 1));
        }
        a = a + 1;
    }
    let mut b: usize = v.len();
    proof {
        assert(v@.skip(a as int) =~= v@.subrange(a as int, b as int));
    }
    while a < b && char_is_space(v[b - 1])
        invariant
            a <= b <= v.len(),
            v@ == s@,
            trim_end(v@.skip(a as int)) == trim_end(v@.subrange(a as int, b as int)),
        decreases b,
    {
        proof {
            assert(v@.subrange(a as int, b as int).drop_last() =~= v@.subrange(
                a as int,
                b - 1,
            ));
        }
        b = b - 1;
    }
    s.substring_char(a, b).to_owned()
}

/// Trimming keeps nothing but the characters between the first and the last
/// that are not white space: a trimmed text has none at either end.
pub proof fn lemma_trimmed_ends(s: Text)
    ensures
        trimmed(s).len() <= s.len(),
        trimmed(s).len() > 0 ==> !is_space(trimmed(s)[0]) && !is_space(trimmed(s).last()),
{
    lemma_trim_start_first(s);
    lemma_trim_end_last(trim_start(s));
}

proof fn lemma_trim_start_first(s: Text)
    ensures
        trim_start(s).len() <= s.len(),
        trim_start(s).len() > 0 ==> !is_space(trim_start(s)[0]),
    decreases s.len(),
{
    if s.len() > 0 && is_space(s[0]) {
        lemma_trim_start_first(s.drop_first());
    }
}

proof fn lemma_trim_end_last(s: Text)
    ensures
        trim_end(s).len() <= s.len(),
        trim_end(s).len() > 0 ==> !is_space(trim_end(s).last()) && trim_end(s)[0] == s[0],
    decreases s.len(),
{
    if s.len() > 0 && is_space(s.last()) {
        lemma_trim_end_last(s.drop_last());
    }
}

/// Trimming twice is trimming once.
pub proof fn lemma_trim_idempotent(s: Text)
    ensures
        trimmed(trimmed(s)) == trimmed(s),
{
    lemma_trimmed_ends(s);
}

/// Whether `p` stands in `s` at position `i`.
pub open spec fn occurs_at(s: Text, p: Text, i: int) -> bool {
    0 <= i && i + p.len() <= s.len() && s.subrange(i, i + p.len()) =~= p
}

/// The first position from `i` on at which `p` stands in `s`.
pub open spec fn find_from(s: Text, p: Text, i: int) -> Option<int>
    decreases s.len() - i,
{
    if i + p.len() > s.len() {
        None
    } else if occurs_at(s, p, i) {
        Some(i)
    } else {
        find_from(s, p, i + 1)
    }
}

/// The first position at which `p` stands in `s`.
pub open spec fn find(s: Text, p: Text) -> Option<int> {
    find_from(s, p, 0)
}

/// Whether `p` stands anywhere in `s`.
pub open spec fn occurs(s: Text, p: Text) -> bool {
    exists|i: int| occurs_at(s, p, i)
}

pub(crate) fn stands_at(s: &Vec<char>, p: &Vec<char>, i: usize) -> (r: bool)
    requires
        i + p.len() <= s.len(),
    ensures
        r == occurs_at(s@, p@, i as int),
{
    let mut k: usize = 0;
    while k < p.len()
        invariant
            i + p.len() <= s.len(),
            k <= p.len(),
            forall|j: int| 0 <= j < k ==> s@[i + j] == p@[j],
        decreases p.len() - k,
    {
        if s[i + k] != p[k] {
            proof {
                assert(s@.subrange(i as int, i + p@.len())[k as int] == s@[i + k]);
            }
            return false;
        }
        k = k + 1;
    }
    proof {
        assert(s@.subrange(i as int, i + p@.len()) =~= p@);
    }
    true
}

/// What `find_from` says: the least position from `i` on at which the pattern
/// stands.
pub proof fn lemma_find_from(s: Text, p: Text, i: int)
    requires
        0 <= i,
    ensures
        match find_from(s, p, i) {
            Some(k) => i <= k && occurs_at(s, p, k) && forall|j: int|
                i <= j < k ==> !occurs_at(s, p, j),
            None => forall|j: int| i <= j ==> !occurs_at(s, p, j),
        },
    decreases s.len() - i,
{
    if i + p.len() <= s.len() && !occurs_at(s, p, i) {
        lemma_find_from(s, p, i + 1);
    }
}

/// What `find` says: the least position at which the pattern stands.
pub proof fn lemma_find(s: Text, p: Text)
    ensures
        match find(s, p) {
            Some(k) => occurs_at(s, p, k) && forall|j: int| 0 <= j < k ==> !occurs_at(s, p, j),
            None => !occurs(s, p),
        },
{
    lemma_find_from(s, p, 0);
}

/// A search that starts behind the front of a text does not depend on it.
pub proof fn lemma_found_later(a: Text, s: Text, p: Text, i: int)
    requires
        0 <= i,
    ensures
        find_from(a + s, p, a.len() + i) == (match find_from(s, p, i) {
            Some(k) => Some(a.len() + k),
            None => None,
        }),
    decreases s.len() - i,
{
    if i + p.len() <= s.len() {
        assert((a + s).subrange(a.len() + i, a.len() + i + p.len()) =~= s.subrange(i, i + p.len()));
        assert(occurs_at(a + s, p, a.len() + i) == occurs_at(s, p, i));
        if !occurs_at(s, p, i) {
            lemma_found_later(a, s, p, i + 1);
        }
    }
}

/// What stands in a part stands in the whole.
pub proof fn lemma_occurs_within(a: Text, b: Text, c: Text, p: Text)
    requires
        occurs(b, p),
    ensures
        occurs(a + b + c, p),
{
    let i = choose|i: int| occurs_at(b, p, i);
    assert((a + b + c).subrange(a.len() + i, a.len() + i + p.len()) =~= b.subrange(
        i,
        i + p.len(),
    ));
    assert(occurs_at(a + b + c, p, a.len() + i));
}

/// A text stands in itself.
pub proof fn lemma_occurs_itself(p: Text)
    ensures
        occurs(p, p),
{
    assert(p.subrange(0, p.len() as int) =~= p);
    assert(occurs_at(p, p, 0));
}

/// A mark whose first character stands in it only once is found right behind a
/// text that does not hold it.
pub proof fn lemma_found_behind(a: Text, p: Text, b: Text)
    requires
        p.len() > 0,
        !occurs(a, p),
        forall|j: int| 0 < j < p.len() ==> #[trigger] p[j] != p[0],
    ensures
        find_from(a + p + b, p, 0) == Some(a.len() as int),
{
    let s = a + p + b;
    let n = a.len() as int;
    assert(s.subrange(n, n + p.len()) =~= p);
    assert forall|j: int| 0 <= j < n implies !occurs_at(s, p, j) by {
        if occurs_at(s, p, j) {
            if j + p.len() <= n {
                assert(a.subrange(j, j + p.len()) =~= s.subrange(j, j + p.len()));
                assert(occurs_at(a, p, j));
            } else {
                assert(s.subrange(j, j + p.len())[n - j] == s[n]);
                assert(p[n - j] == p[0]);
            }
        }
    }
    lemma_find_from(s, p, 0);
    assert(occurs_at(s, p, n));
}

/// The first position of `p` in `s` from `from` on.
pub fn find_chars(s: &Vec<char>, p: &Vec<char>, from: usize) -> (r: Option<usize>)
    ensures
        match r {
            Some(k) => find_from(s@, p@, from as int) == Some(k as int) && from <= k && k + p.len()
                <= s.len(),
            None => find_from(s@, p@, from as int) is None,
        },
{
    let mut i: usize = from;
    while i <= s.len() && p.len() <= s.len() - i
        invariant
            from <= i,
            i <= s.len() + 1 || i == from,
            find_from(s@, p@, from as int) == find_from(s@, p@, i as int),
        decreases s.len() + 1 - i,
    {
        if stands_at(s, p, i) {
            return Some(i);
        }
        i = i + 1;
    }
    None
}

/// The first position of `p` in `s` from `from` on, counted in characters.
pub fn position_from(s: &str, p: &str, from: usize) -> (r: Option<usize>)
    requires
        from <= s@.len(),
    ensures
        match r {
            Some(k) => find_from(s@, p@, from as int) == Some(k as int),
            None => find_from(s@, p@, from as int) is None,
        },
{
    let v = chars_of(s);
    let q = chars_of(p);
    find_chars(&v, &q, from)
}

/// The first position of `p` in `s`, counted in characters.
pub fn position(s: &str, p: &str) -> (r: Option<usize>)
    ensures
        match r {
            Some(k) => find(s@, p@) == Some(k as int),
            None => find(s@, p@) is None,
        },
{
    position_from(s, p, 0)
}

/// Whether `p` stands anywhere in `s`.
pub fn contains(s: &str, p: &str) -> (r: bool)
    ensures
        r == occurs(s@, p@),
{
    proof {
        lemma_find(s@, p@);
    }
    match position(s, p) {
        Some(_) => true,
        None => false,
    }
}

/// Whether `s` begins with `p`.
pub fn starts_with(s: &str, p: &str) -> (r: bool)
    ensures
        r == p@.is_prefix_of(s@),
{
    let v = chars_of(s);
    let q = chars_of(p);
    if v.len() < q.len() {
        return false;
    }
    stands_at(&v, &q, 0)
}

/// Whether `s` ends with `p`.
pub fn ends_with(s: &str, p: &str) -> (r: bool)
    ensures
        r == p@.is_suffix_of(s@),
{
    let v = chars_of(s);
    let q = chars_of(p);
    if v.len() < q.len() {
        return false;
    }
    stands_at(&v, &q, v.len() - q.len())
}

/// The characters of `s` from position `a` up to `b`.
pub fn slice(s: &str, a: usize, b: usize) -> (out: String)
    requires
        a <= b <= s@.len(),
    ensures
        out@ == s@.subrange(a as int, b as int),
{
    s.substring_char(a, b).to_owned()
}

/// `s` after the prefix `p`, where it has it.
pub open spec fn without_prefix(s: Text, p: Text) -> Option<Text> {
    if p.is_prefix_of(s) {
        Some(s.skip(p.len() as int))
    } else {
        None
    }
}

/// `s` before the suffix `p`, where it has it.
pub open spec fn without_suffix(s: Text, p: Text) -> Option<Text> {
    if p.is_suffix_of(s) {
        Some(s.take(s.len() - p.len()))
    } else {
        None
    }
}

/// The view of an optional string.
pub open spec fn opt_text(o: Option<String>) -> Option<Text> {
    match o {
        Some(s) => Some(s@),
        None => None,
    }
}

/// `s` after the prefix `p`, where it has it.
pub fn strip_prefix(s: &str, p: &str) -> (r: Option<String>)
    ensures
        opt_text(r) == without_prefix(s@, p@),
{
    if starts_with(s, p) {
        let a: usize = p.unicode_len();
        let b: usize = s.unicode_len();
        Some(slice(s, a, b))
    } else {
        None
    }
}

/// `s` before the suffix `p`, where it has it.
pub fn strip_suffix(s: &str, p: &str) -> (r: Option<String>)
    ensures
        opt_text(r) == without_suffix(s@, p@),
{
    if ends_with(s, p) {
        let a: usize = p.unicode_len();
        let b: usize = s.unicode_len();
        Some(slice(s, 0, b - a))
    } else {
        None
    }
}

/// `c` with an ASCII capital made small.
pub open spec fn lower_char(c: char) -> char {
    if 'A' <= c <= 'Z' {
        ((c as u32 + 32) as u32) as char
    } else {
        c
    }
}

/// `s` with every ASCII capital made small.
pub open spec fn lower(s: Text) -> Text {
    Seq::new(s.len(), |i: int| lower_char(s[i]))
}

/// `c` with an ASCII capital made small.
pub fn char_lower(c: char) -> (r: char)
    ensures
        r == lower_char(c),
{
    if 'A' <= c && c <= 'Z' {
        ((c as u8) + 32u8) as char
    } else {
        c
    }
}

/// `s` with every ASCII capital made small.
pub fn to_lower(s: &str) -> (out: String)
    ensures
        out@ == lower(s@),
{
    let v = chars_of(s);
    let mut out = String::new();
    let mut i: usize = 0;
    while i < v.len()
        invariant
            i <= v.len(),
            v@ == s@,
            out@ == lower(s@.take(i as int)),
        decreases v.len() - i,
    {
        out.push(char_lower(v[i]));
        i = i + 1;
        proof {
            assert(out@ =~= lower(s@.take(i as int)));
        }
    }
    proof {
        assert(s@.take(s@.len() as int) =~= s@);
    }
    out
}

/// The pieces of `s` between the characters `c`; one piece where there is none.
pub open spec fn split_on(s: Text, c: char) -> Seq<Text>
    decreases s.len(),
{
    if s.len() == 0 {
        seq![s]
    } else {
        let rest = split_on(s.drop_first(), c);
        if s[0] == c {
            seq![Seq::<char>::empty()] + rest
        } else {
            seq![seq![s[0]] + rest[0]] + rest.skip(1)
        }
    }
}

/// What does not hold the character is one piece.
pub proof fn lemma_split_one(s: Text, c: char)
    requires
        !s.contains(c),
    ensures
        split_on(s, c) == seq![s],
    decreases s.len(),
{
    if s.len() > 0 {
        let d = s.drop_first();
        assert(!d.contains(c)) by {
            if d.contains(c) {
                let k = choose|k: int| 0 <= k < d.len() && d[k] == c;
                assert(s[k + 1] == c);
            }
        }
        lemma_split_one(d, c);
        assert(s[0] != c);
        assert(seq![s[0]] + d =~= s);
        assert(split_on(s, c) =~= seq![s]);
    }
}

/// What stands behind the last separator is the last piece.
pub proof fn lemma_split_append(s: Text, b: Text, c: char)
    requires
        !b.contains(c),
    ensures
        split_on(s + seq![c] + b, c) == split_on(s, c).push(b),
    decreases s.len(),
{
    let t = s + seq![c] + b;
    lemma_split_one(b, c);
    if s.len() == 0 {
        assert(t.drop_first() =~= b);
        assert(t[0] == c);
        assert(s =~= Seq::<char>::empty());
        assert(split_on(t, c) =~= split_on(s, c).push(b));
    } else {
        let d = s.drop_first();
        lemma_split_append(d, b, c);
        lemma_split_some(d, c);
        assert(t.drop_first() =~= d + seq![c] + b);
        assert(t[0] == s[0]);
        let r = split_on(d, c);
        assert(r.push(b).skip(1) =~= r.skip(1).push(b));
        assert(split_on(t, c) =~= split_on(s, c).push(b));
    }
}

/// Splitting what was joined gives the pieces back.
pub proof fn lemma_split_joined(parts: Seq<Text>, c: char)
    requires
        parts.len() >= 1,
        forall|i: int| 0 <= i < parts.len() ==> !(#[trigger] parts[i]).contains(c),
    ensures
        split_on(joined(parts, seq![c]), c) == parts,
    decreases parts.len(),
{
    if parts.len() == 1 {
        lemma_split_one(parts[0], c);
        assert(seq![parts[0]] =~= parts);
    } else {
        let init = parts.drop_last();
        lemma_split_joined(init, c);
        lemma_split_append(joined(init, seq![c]), parts.last(), c);
        assert(init.push(parts.last()) =~= parts);
    }
}

/// Splitting gives at least one piece.
pub proof fn lemma_split_some(s: Text, c: char)
    ensures
        split_on(s, c).len() >= 1,
    decreases s.len(),
{
    if s.len() > 0 {
        lemma_split_some(s.drop_first(), c);
    }
}

/// The pieces of `s` between the characters `c`.
pub fn split(s: &str, c: char) -> (out: Vec<String>)
    ensures
        texts(out@) == split_on(s@, c),
        out.len() >= 1,
{
    let v = chars_of(s);
    let mut back: Vec<Vec<char>> = Vec::new();
    let mut cur: Vec<char> = Vec::new();
    let mut i: usize = v.len();
    proof {
        assert(v@.skip(v@.len() as int) =~= Seq::<char>::empty());
        assert(reversed(cur@) =~= Seq::<char>::empty());
        assert(pieces(back@, cur@) =~= split_on(v@.skip(i as int), c));
    }
    while i > 0
        invariant
            i <= v.len(),
            pieces(back@, cur@) == split_on(v@.skip(i as int), c),
        decreases i,
    {
        i = i - 1;
        proof {
            assert(v@.skip(i as int).drop_first() =~= v@.skip(i + 1));
            lemma_split_some(v@.skip(i + 1), c);
        }
        if v[i] == c {
            let ghost was = pieces(back@, cur@);
            back.push(cur);
            cur = Vec::new();
            proof {
                assert(reversed(cur@) =~= Seq::<char>::empty());
                assert(pieces(back@, cur@) =~= seq![Seq::<char>::empty()] + was);
            }
        } else {
            let ghost was = pieces(back@, cur@);
            cur.push(v[i]);
            proof {
                assert(reversed(cur@) =~= seq![v@[i as int]] + was[0]);
                assert(pieces(back@, cur@) =~= seq![seq![v@[i as int]] + was[0]] + was.skip(1));
            }
        }
    }
    proof {
        assert(v@.skip(0) =~= v@);
    }
    let mut out: Vec<String> = Vec::new();
    out.push(string_reversed(&cur));
    let mut k: usize = back.len();
    while k > 0
        invariant
            k <= back.len(),
            out.len() == 1 + back.len() - k,
            forall|j: int| 0 <= j < out.len() ==> (#[trigger] out@[j])@ == pieces(back@, cur@)[j],
        decreases k,
    {
        k = k - 1;
        out.push(string_reversed(&back[k]));
    }
    proof {
        assert(texts(out@) =~= pieces(back@, cur@));
    }
    out
}

spec fn reversed(s: Text) -> Text {
    Seq::new(s.len(), |i: int| s[s.len() - 1 - i])
}

spec fn pieces(back: Seq<Vec<char>>, cur: Text) -> Seq<Text> {
    Seq::new(
        back.len() + 1,
        |i: int|
            if i == 0 {
                reversed(cur)
            } else {
                reversed(back[back.len() - i]@)
            },
    )
}

fn string_reversed(v: &Vec<char>) -> (out: String)
    ensures
        out@ == reversed(v@),
{
    let mut out = String::new();
    let mut i: usize = v.len();
    while i > 0
        invariant
            i <= v.len(),
            out@ == reversed(v@).take(v.len() - i),
        decreases i,
    {
        i = i - 1;
        out.push(v[i]);
        proof {
            assert(out@ =~= reversed(v@).take(v.len() - i));
        }
    }
    proof {
        assert(reversed(v@).take(v.len() as int) =~= reversed(v@));
    }
    out
}

/// The texts with `sep` between each two.
pub open spec fn joined(parts: Seq<Text>, sep: Text) -> Text
    decreases parts.len(),
{
    if parts.len() == 0 {
        Seq::empty()
    } else if parts.len() == 1 {
        parts[0]
    } else {
        joined(parts.drop_last(), sep) + sep + parts.last()
    }
}

/// The strings with `sep` between each two.
pub fn join(parts: &Vec<String>, sep: &str) -> (out: String)
    ensures
        out@ == joined(texts(parts@), sep@),
{
    let mut out = String::new();
    let mut i: usize = 0;
    while i < parts.len()
        invariant
            i <= parts.len(),
            out@ == joined(texts(parts@).take(i as int), sep@),
        decreases parts.len() - i,
    {
        if i > 0 {
            out.append(sep);
        }
        out.append(parts[i].as_str());
        proof {
            assert(texts(parts@).take(i + 1).drop_last() =~= texts(parts@).take(i as int));
            if i == 0 {
                assert(out@ =~= texts(parts@)[0]);
            }
        }
        i = i + 1;
    }
    proof {
        assert(texts(parts@).take(parts.len() as int) =~= texts(parts@));
    }
    out
}

/// Whether the list holds the string.
pub fn list_contains(v: &Vec<String>, s: &str) -> (r: bool)
    ensures
        r == texts(v@).contains(s@),
{
    let mut i: usize = 0;
    while i < v.len()
        invariant
            i <= v.len(),
            forall|k: int| 0 <= k < i ==> v@[k]@ != s@,
        decreases v.len() - i,
    {
        if same(v[i].as_str(), s) {
            proof {
                assert(texts(v@)[i as int] == s@);
            }
            return true;
        }
        i = i + 1;
    }
    false
}

/// A copy of a list of strings.
pub fn copy_list(v: &Vec<String>) -> (out: Vec<String>)
    ensures
        texts(out@) == texts(v@),
{
    let mut out: Vec<String> = Vec::new();
    let mut i: usize = 0;
    while i < v.len()
        invariant
            i <= v.len(),
            out.len() == i,
            forall|k: int| 0 <= k < i ==> (#[trigger] out@[k])@ == v@[k]@,
        decreases v.len() - i,
    {
        out.push(v[i].clone());
        i = i + 1;
    }
    proof {
        assert(texts(out@) =~= texts(v@));
    }
    out
}

/// Whether two lists hold the same strings in the same order.
pub fn same_list(a: &Vec<String>, b: &Vec<String>) -> (r: bool)
    ensures
        r == (texts(a@) == texts(b@)),
{
    if a.len() != b.len() {
        proof {
            assert(texts(a@).len() != texts(b@).len());
        }
        return false;
    }
    let mut i: usize = 0;
    while i < a.len()
        invariant
            i <= a.len(),
            a.len() == b.len(),
            forall|k: int| 0 <= k < i ==> a@[k]@ == b@[k]@,
        decreases a.len() - i,
    {
        if !same(a[i].as_str(), b[i].as_str()) {
            proof {
                assert(texts(a@)[i as int] != texts(b@)[i as int]);
            }
            return false;
        }
        i = i + 1;
    }
    proof {
        assert(texts(a@) =~= texts(b@));
    }
    true
}

/// The decimal digit of a number below ten.
pub open spec fn digit(n: nat) -> char {
    (48 + n) as char
}

/// A number written in decimal.
pub open spec fn decimal(n: nat) -> Text
    decreases n,
{
    if n < 10 {
        seq![digit(n)]
    } else {
        decimal(n / 10).push(digit(n % 10))
    }
}

/// A number written in decimal.
pub fn number(n: u64) -> (out: String)
    ensures
        out@ == decimal(n as nat),
    decreases n,
{
    let d: u8 = (n % 10) as u8 + 48u8;
    let c: char = d as char;
    if n < 10 {
        let mut out = String::new();
        out.push(c);
        proof {
            assert(out@ =~= seq![digit(n as nat)]);
        }
        out
    } else {
        let mut out = number(n / 10);
        out.push(c);
        out
    }
}

/// Whether every character of `s` is a decimal digit.
pub open spec fn all_digits(s: Text) -> bool {
    forall|i: int| 0 <= i < s.len() ==> '0' <= #[trigger] s[i] <= '9'
}

/// The number that a row of decimal digits stands for.
pub open spec fn digits_value(s: Text) -> nat
    decreases s.len(),
{
    if s.len() == 0 {
        0
    } else {
        digits_value(s.drop_last()) * 10 + (s.last() as nat - 48) as nat
    }
}

/// A number in decimal reads back; it has digits only, and a nought in front
/// only where it is nought.
pub proof fn lemma_decimal(n: nat)
    ensures
        all_digits(decimal(n)),
        digits_value(decimal(n)) == n,
        decimal(n).len() >= 1,
        n > 0 ==> decimal(n)[0] != '0',
        n == 0 ==> decimal(n) == seq!['0'],
        n < 10 ==> decimal(n).len() == 1,
        n < 100 ==> decimal(n).len() <= 2,
        n < 1000 ==> decimal(n).len() <= 3,
    decreases n,
{
    if n >= 10 {
        lemma_decimal(n / 10);
        assert(decimal(n).drop_last() =~= decimal(n / 10));
    } else {
        assert(decimal(n).drop_last() =~= Seq::<char>::empty());
        assert(digits_value(decimal(n).drop_last()) == 0);
    }
}

/// `s` without one leading plus sign.
pub open spec fn unsigned_digits(s: Text) -> Text {
    if s.len() > 0 && s[0] == '+' {
        s.drop_first()
    } else {
        s
    }
}

/// What reading `s` as an unsigned decimal number of at most `max` gives.
pub open spec fn parsed(s: Text, max: nat) -> Option<nat> {
    let d = unsigned_digits(s);
    if d.len() > 0 && all_digits(d) && digits_value(d) <= max {
        Some(digits_value(d))
    } else {
        None
    }
}

proof fn lemma_value_grows(s: Text, k: int)
    requires
        0 <= k <= s.len(),
    ensures
        digits_value(s.take(k)) <= digits_value(s),
    decreases s.len(),
{
    if k == s.len() {
        assert(s.take(k) =~= s);
    } else {
        lemma_value_grows(s.drop_last(), k);
        assert(s.drop_last().take(k) =~= s.take(k));
    }
}

/// Reads an unsigned decimal number of at most `max`.
pub fn parse(s: &str, max: u64) -> (r: Option<u64>)
    ensures
        match r {
            Some(n) => parsed(s@, max as nat) == Some(n as nat),
            None => parsed(s@, max as nat) is None,
        },
{
    let v = chars_of(s);
    let mut start: usize = 0;
    if v.len() > 0 && v[0] == '+' {
        start = 1;
    }
    let ghost d = unsigned_digits(s@);
    proof {
        assert(d =~= v@.skip(start as int));
    }
    if start == v.len() {
        return None;
    }
    let mut i: usize = start;
    let mut n: u64 = 0;
    proof {
        assert(d.take(0) =~= Seq::<char>::empty());
    }
    while i < v.len()
        invariant
            start <= i <= v.len(),
            d == v@.skip(start as int),
            d == unsigned_digits(s@),
            n as nat == digits_value(d.take(i - start)),
            n <= max,
            forall|k: int| 0 <= k < i - start ==> '0' <= #[trigger] d[k] <= '9',
        decreases v.len() - i,
    {
        let c: char = v[i];
        let ghost k = i - start;
        proof {
            assert(d[k] == c);
        }
        if !('0' <= c && c <= '9') {
            return None;
        }
        let x: u64 = (c as u8 - 48u8) as u64;
        proof {
            assert(d.take(k + 1).drop_last() =~= d.take(k));
            lemma_value_grows(d, k + 1);
        }
        if n > max / 10 || x > max || n * 10 > max - x {
            return None;
        }
        n = n * 10 + x;
        i = i + 1;
    }
    proof {
        assert(d.take(d.len() as int) =~= d);
    }
    Some(n)
}

/// The runs of characters between white space, in order.
pub open spec fn words_of(s: Text) -> Seq<Text>
    decreases s.len(),
{
    if s.len() == 0 {
        Seq::empty()
    } else {
        let w = words_of(s.drop_last());
        if is_space(s.last()) {
            w
        } else if s.len() == 1 || is_space(s[s.len() - 2]) {
            w.push(seq![s.last()])
        } else {
            w.drop_last().push(w.last().push(s.last()))
        }
    }
}

proof fn lemma_words_some(s: Text)
    requires
        s.len() > 0,
        !is_space(s.last()),
    ensures
        words_of(s).len() > 0,
    decreases s.len(),
{
}

spec fn char_lists(v: Seq<Vec<char>>) -> Seq<Text> {
    Seq::new(v.len(), |i: int| v[i]@)
}

/// The runs of characters between white space, in order.
pub fn words(s: &str) -> (out: Vec<String>)
    ensures
        texts(out@) == words_of(s@),
{
    let v = chars_of(s);
    let mut done: Vec<Vec<char>> = Vec::new();
    let mut i: usize = 0;
    while i < v.len()
        invariant
            v@ == s@,
            i <= v.len(),
            char_lists(done@) == words_of(v@.take(i as int)),
        decreases v.len() - i,
    {
        let c: char = v[i];
        let ghost was = char_lists(done@);
        proof {
            assert(v@.take(i + 1).drop_last() =~= v@.take(i as int));
            assert(v@.take(i + 1).last() == c);
        }
        if !char_is_space(c) {
            if i == 0 || char_is_space(v[i - 1]) {
                let mut w: Vec<char> = Vec::new();
                w.push(c);
                proof {
                    assert(w@ =~= seq![c]);
                }
                done.push(w);
                proof {
                    assert(char_lists(done@) =~= was.push(seq![c]));
                }
            } else {
                proof {
                    assert(v@.take(i as int).last() == v@[i - 1]);
                    lemma_words_some(v@.take(i as int));
                    assert(was.len() > 0);
                }
                match done.pop() {
                    Some(mut w) => {
                        proof {
                            assert(char_lists(done@) =~= was.drop_last());
                            assert(w@ == was.last());
                        }
                        w.push(c);
                        done.push(w);
                        proof {
                            assert(char_lists(done@) =~= was.drop_last().push(was.last().push(c)));
                        }
                    },
                    None => {},
                }
            }
        }
        i = i + 1;
    }
    proof {
        assert(v@.take(v@.len() as int) =~= v@);
    }
    let mut out: Vec<String> = Vec::new();
    let mut k: usize = 0;
    while k < done.len()
        invariant
            k <= done.len(),
            out.len() == k,
            forall|j: int| 0 <= j < k ==> (#[trigger] out@[j])@ == done@[j]@,
        decreases done.len() - k,
    {
        out.push(string_of(done[k].as_slice()));
        k = k + 1;
    }
    proof {
        assert(texts(out@) =~= char_lists(done@));
    }
    out
}

/// `s` without the characters `c` at its end.
pub open spec fn trim_end_char(s: Text, c: char) -> Text
    decreases s.len(),
{
    if s.len() > 0 && s.last() == c {
        trim_end_char(s.drop_last(), c)
    } else {
        s
    }
}

/// `s` without the characters `c` at its start.
pub open spec fn trim_start_char(s: Text, c: char) -> Text
    decreases s.len(),
{
    if s.len() > 0 && s[0] == c {
        trim_start_char(s.drop_first(), c)
    } else {
        s
    }
}

/// `s` without the characters `c` at its end.
pub fn trim_end_matches(s: &str, c: char) -> (out: String)
    ensures
        out@ == trim_end_char(s@, c),
{
    let v = chars_of(s);
    let mut b: usize = v.len();
    proof {
        assert(v@.take(b as int) =~= v@);
    }
    while b > 0 && v[b - 1] == c
        invariant
            b <= v.len(),
            v@ == s@,
            trim_end_char(s@, c) == trim_end_char(v@.take(b as int), c),
        decreases b,
    {
        proof {
            assert(v@.take(b as int).drop_last() =~= v@.take(b - 1));
        }
        b = b - 1;
    }
    let out = slice(s, 0, b);
    proof {
        assert(out@ =~= v@.take(b as int));
    }
    out
}

/// `s` without the characters `c` at its start.
pub fn trim_start_matches(s: &str, c: char) -> (out: String)
    ensures
        out@ == trim_start_char(s@, c),
{
    let v = chars_of(s);
    let mut a: usize = 0;
    proof {
        assert(v@.skip(0) =~= v@);
    }
    while a < v.len() && v[a] == c
        invariant
            a <= v.len(),
            v@ == s@,
            trim_start_char(s@, c) == trim_start_char(v@.skip(a as int), c),
        decreases v.len() - a,
    {
        proof {
            assert(v@.skip(a as int).drop_first() =~= v@.skip(a + 1));
        }
        a = a + 1;
    }
    let out = slice(s, a, v.len());
    proof {
        assert(out@ =~= v@.skip(a as int));
    }
    out
}

/// `s` after as many copies of `p` as it begins with.
pub open spec fn trim_prefix(s: Text, p: Text) -> Text
    decreases s.len(),
{
    if p.len() > 0 && p.is_prefix_of(s) {
        trim_prefix(s.skip(p.len() as int), p)
    } else {
        s
    }
}

/// `s` before as many copies of `p` as it ends with.
pub open spec fn trim_suffix(s: Text, p: Text) -> Text
    decreases s.len(),
{
    if p.len() > 0 && p.is_suffix_of(s) {
        trim_suffix(s.take(s.len() - p.len()), p)
    } else {
        s
    }
}

/// `s` after as many copies of `p` as it begins with.
pub fn trim_prefixes(s: &str, p: &str) -> (out: String)
    ensures
        out@ == trim_prefix(s@, p@),
{
    let mut cur = s.to_owned();
    let n: usize = p.unicode_len();
    while n > 0 && starts_with(cur.as_str(), p)
        invariant
            n == p@.len(),
            trim_prefix(s@, p@) == trim_prefix(cur@, p@),
        decreases cur@.len(),
    {
        let m: usize = cur.as_str().unicode_len();
        let next = slice(cur.as_str(), n, m);
        proof {
            assert(next@ =~= cur@.skip(n as int));
        }
        cur = next;
    }
    cur
}

/// `s` before as many copies of `p` as it ends with.
pub fn trim_suffixes(s: &str, p: &str) -> (out: String)
    ensures
        out@ == trim_suffix(s@, p@),
{
    let mut cur = s.to_owned();
    let n: usize = p.unicode_len();
    while n > 0 && ends_with(cur.as_str(), p)
        invariant
            n == p@.len(),
            trim_suffix(s@, p@) == trim_suffix(cur@, p@),
        decreases cur@.len(),
    {
        let m: usize = cur.as_str().unicode_len();
        let next = slice(cur.as_str(), 0, m - n);
        proof {
            assert(next@ =~= cur@.take(m - n));
        }
        cur = next;
    }
    cur
}

/// At most the first `n` characters of `s`.
pub open spec fn clipped(s: Text, n: int) -> Text {
    if s.len() > n {
        s.take(n)
    } else {
        s
    }
}

/// At most the first `n` characters of `s`.
pub fn clip(s: &str, n: usize) -> (out: String)
    ensures
        out@ == clipped(s@, n as int),
{
    let m: usize = s.unicode_len();
    if m > n {
        let out = slice(s, 0, n);
        proof {
            assert(out@ =~= s@.take(n as int));
        }
        out
    } else {
        s.to_owned()
    }
}

/// The first position of `t` in the list; the list's length where it has none.
pub open spec fn index_in(s: Seq<Text>, t: Text) -> int
    decreases s.len(),
{
    if s.len() == 0 {
        0
    } else if s[0] == t {
        0
    } else {
        1 + index_in(s.skip(1), t)
    }
}

/// What `index_in` says: the least position that holds the text.
pub proof fn lemma_index_in(s: Seq<Text>, t: Text)
    ensures
        0 <= index_in(s, t) <= s.len(),
        forall|j: int| 0 <= j < index_in(s, t) ==> s[j] != t,
        index_in(s, t) < s.len() ==> s[index_in(s, t)] == t,
        s.contains(t) <==> index_in(s, t) < s.len(),
    decreases s.len(),
{
    if s.len() > 0 && s[0] != t {
        lemma_index_in(s.skip(1), t);
        assert forall|j: int| 0 <= j < index_in(s, t) implies s[j] != t by {
            if j > 0 {
                assert(s.skip(1)[j - 1] == s[j]);
            }
        }
    }
}

/// Whether `c` is an ASCII letter or digit.
pub open spec fn is_alnum(c: char) -> bool {
    ('0' <= c <= '9') || ('a' <= c <= 'z') || ('A' <= c <= 'Z')
}

/// Whether `c` is an ASCII letter or digit.
pub fn char_is_alnum(c: char) -> (r: bool)
    ensures
        r == is_alnum(c),
{
    ('0' <= c && c <= '9') || ('a' <= c && c <= 'z') || ('A' <= c && c <= 'Z')
}

/// The control characters of Unicode.
pub open spec fn is_control(c: char) -> bool {
    c <= '\u{1f}' || '\u{7f}' <= c <= '\u{9f}'
}

/// Whether `c` is a control character.
pub fn char_is_control(c: char) -> (r: bool)
    ensures
        r == is_control(c),
{
    c <= '\u{1f}' || ('\u{7f}' <= c && c <= '\u{9f}')
}

/// How many bytes UTF-8 takes for `c`.
pub open spec fn utf8_width(c: char) -> nat {
    if c <= '\u{7f}' {
        1
    } else if c <= '\u{7ff}' {
        2
    } else if c <= '\u{ffff}' {
        3
    } else {
        4
    }
}

/// How many bytes UTF-8 takes for `s`.
pub open spec fn byte_len(s: Text) -> nat
    decreases s.len(),
{
    if s.len() == 0 {
        0
    } else {
        byte_len(s.drop_last()) + utf8_width(s.last())
    }
}

/// How many leading characters of `s` take exactly `n` bytes; `None` where the
/// first `n` bytes end inside a character or `s` is shorter.
pub open spec fn chars_in_bytes(s: Text, n: int) -> Option<int>
    decreases s.len(),
{
    if n == 0 {
        Some(0)
    } else if n < 0 || s.len() == 0 {
        None
    } else {
        match chars_in_bytes(s.drop_first(), n - utf8_width(s[0])) {
            Some(k) => Some(k + 1),
            None => None,
        }
    }
}

fn char_width(c: char) -> (r: usize)
    ensures
        r as nat == utf8_width(c),
{
    if c <= '\u{7f}' {
        1
    } else if c <= '\u{7ff}' {
        2
    } else if c <= '\u{ffff}' {
        3
    } else {
        4
    }
}

/// How many bytes UTF-8 takes for `s`.
pub fn byte_length(s: &str) -> (n: u128)
    ensures
        n as nat == byte_len(s@),
{
    let v = chars_of(s);
    let mut n: u128 = 0;
    let mut i: usize = 0;
    proof {
        assert(v@.take(0) =~= Seq::<char>::empty());
    }
    while i < v.len()
        invariant
            v@ == s@,
            i <= v.len(),
            n as nat == byte_len(v@.take(i as int)),
            n <= 4 * i,
        decreases v.len() - i,
    {
        proof {
            assert(v@.take(i + 1).drop_last() =~= v@.take(i as int));
        }
        n = n + char_width(v[i]) as u128;
        i = i + 1;
    }
    proof {
        assert(v@.take(v@.len() as int) =~= v@);
    }
    n
}

/// How many leading characters of `s` take exactly `n` bytes.
pub fn chars_in(s: &str, n: u128) -> (r: Option<usize>)
    ensures
        match r {
            Some(k) => chars_in_bytes(s@, n as int) == Some(k as int) && k <= s@.len(),
            None => chars_in_bytes(s@, n as int) is None,
        },
{
    let v = chars_of(s);
    let mut left: u128 = n;
    let mut i: usize = 0;
    proof {
        assert(v@.skip(0) =~= v@);
    }
    while i < v.len() && left > 0
        invariant
            v@ == s@,
            i <= v.len(),
            chars_in_bytes(s@, n as int) == (match chars_in_bytes(v@.skip(i as int), left as int) {
                Some(k) => Some(k + i),
                None => None,
            }),
        decreases v.len() - i,
    {
        let w: u128 = char_width(v[i]) as u128;
        proof {
            assert(v@.skip(i as int).drop_first() =~= v@.skip(i + 1));
        }
        if w > left {
            proof {
                assert(chars_in_bytes(v@.skip(i + 1), left - w) is None);
            }
            return None;
        }
        left = left - w;
        i = i + 1;
    }
    if left == 0 {
        Some(i)
    } else {
        None
    }
}

/// The two lower-case hexadecimal digits of a byte.
pub open spec fn hex_pair(b: u8) -> Text {
    seq![hex_char((b / 16) as nat), hex_char((b % 16) as nat)]
}

/// The lower-case hexadecimal digit of a number below sixteen.
pub open spec fn hex_char(n: nat) -> char {
    if n < 10 {
        (48 + n) as char
    } else {
        (87 + n) as char
    }
}

/// Bytes in lower-case hexadecimal.
pub open spec fn hex_text(b: Seq<u8>) -> Text
    decreases b.len(),
{
    if b.len() == 0 {
        Seq::empty()
    } else {
        hex_text(b.drop_last()) + hex_pair(b.last())
    }
}

/// The lower-case hexadecimal digit of a number below sixteen.
pub fn to_hex_char(n: u8) -> (c: char)
    requires
        n < 16,
    ensures
        c == hex_char(n as nat),
{
    if n < 10 {
        (48u8 + n) as char
    } else {
        (87u8 + n) as char
    }
}

/// Bytes in lower-case hexadecimal.
pub fn hex_string(b: &Vec<u8>) -> (out: String)
    ensures
        out@ == hex_text(b@),
{
    let mut out = String::new();
    let mut i: usize = 0;
    proof {
        assert(b@.take(0) =~= Seq::<u8>::empty());
    }
    while i < b.len()
        invariant
            i <= b.len(),
            out@ == hex_text(b@.take(i as int)),
        decreases b.len() - i,
    {
        let ghost was = out@;
        out.push(to_hex_char(b[i] / 16));
        out.push(to_hex_char(b[i] % 16));
        proof {
            assert(b@.take(i + 1).drop_last() =~= b@.take(i as int));
            assert(out@ =~= was + hex_pair(b@[i as int]));
        }
        i = i + 1;
    }
    proof {
        assert(b@.take(b@.len() as int) =~= b@);
    }
    out
}

/// Each two bytes give two digits.
pub proof fn lemma_hex_text_len(b: Seq<u8>)
    ensures
        hex_text(b).len() == 2 * b.len(),
    decreases b.len(),
{
    if b.len() > 0 {
        lemma_hex_text_len(b.drop_last());
    }
}

/// The first `width` hexadecimal digits from the right of `n`, with zeros in
/// front.
pub open spec fn hex_padded(n: nat, width: nat) -> Text
    decreases width,
{
    if width == 0 {
        Seq::empty()
    } else {
        hex_padded(n / 16, (width - 1) as nat).push(hex_char(n % 16))
    }
}

/// The first `width` hexadecimal digits from the right of `n`, with zeros in
/// front.
pub fn hex_fixed(n: u128, width: usize) -> (out: String)
    ensures
        out@ == hex_padded(n as nat, width as nat),
    decreases width,
{
    if width == 0 {
        String::new()
    } else {
        let mut out = hex_fixed(n / 16, width - 1);
        out.push(to_hex_char((n % 16) as u8));
        out
    }
}

/// The last position of the character `c` in `s`.
pub open spec fn rfind(s: Text, c: char) -> Option<int>
    decreases s.len(),
{
    if s.len() == 0 {
        None
    } else if s.last() == c {
        Some(s.len() - 1)
    } else {
        rfind(s.drop_last(), c)
    }
}

/// The last position of the character `c` in `s`.
pub fn last_position(s: &str, c: char) -> (r: Option<usize>)
    ensures
        match r {
            Some(k) => rfind(s@, c) == Some(k as int) && k < s@.len(),
            None => rfind(s@, c) is None,
        },
{
    let v = chars_of(s);
    let mut i: usize = v.len();
    proof {
        assert(v@.take(i as int) =~= v@);
    }
    while i > 0
        invariant
            v@ == s@,
            i <= v.len(),
            rfind(s@, c) == rfind(v@.take(i as int), c),
        decreases i,
    {
        if v[i - 1] == c {
            return Some(i - 1);
        }
        proof {
            assert(v@.take(i as int).drop_last() =~= v@.take(i - 1));
        }
        i = i - 1;
    }
    None
}

/// The white space of ASCII: blank, tab, line feed, form feed and carriage
/// return.
pub open spec fn is_ascii_space(c: char) -> bool {
    c == ' ' || c == '\t' || c == '\n' || c == '\u{c}' || c == '\r'
}

/// Whether `c` is white space of ASCII.
pub fn char_is_ascii_space(c: char) -> (r: bool)
    ensures
        r == is_ascii_space(c),
{
    c == ' ' || c == '\t' || c == '\n' || c == '\u{c}' || c == '\r'
}

/// The runs of characters between ASCII white space, in order.
pub open spec fn ascii_words_of(s: Text) -> Seq<Text>
    decreases s.len(),
{
    if s.len() == 0 {
        Seq::empty()
    } else {
        let w = ascii_words_of(s.drop_last());
        if is_ascii_space(s.last()) {
            w
        } else if s.len() == 1 || is_ascii_space(s[s.len() - 2]) {
            w.push(seq![s.last()])
        } else {
            w.drop_last().push(w.last().push(s.last()))
        }
    }
}

proof fn lemma_ascii_words_some(s: Text)
    requires
        s.len() > 0,
        !is_ascii_space(s.last()),
    ensures
        ascii_words_of(s).len() > 0,
    decreases s.len(),
{
}

/// The runs of characters between ASCII white space, in order.
pub fn ascii_words(s: &str) -> (out: Vec<String>)
    ensures
        texts(out@) == ascii_words_of(s@),
{
    let v = chars_of(s);
    let mut done: Vec<Vec<char>> = Vec::new();
    let mut i: usize = 0;
    while i < v.len()
        invariant
            v@ == s@,
            i <= v.len(),
            char_lists(done@) == ascii_words_of(v@.take(i as int)),
        decreases v.len() - i,
    {
        let c: char = v[i];
        let ghost was = char_lists(done@);
        proof {
            assert(v@.take(i + 1).drop_last() =~= v@.take(i as int));
            assert(v@.take(i + 1).last() == c);
        }
        if !char_is_ascii_space(c) {
            if i == 0 || char_is_ascii_space(v[i - 1]) {
                let mut w: Vec<char> = Vec::new();
                w.push(c);
                proof {
                    assert(w@ =~= seq![c]);
                }
                done.push(w);
                proof {
                    assert(char_lists(done@) =~= was.push(seq![c]));
                }
            } else {
                proof {
                    assert(v@.take(i as int).last() == v@[i - 1]);
                    lemma_ascii_words_some(v@.take(i as int));
                    assert(was.len() > 0);
                }
                match done.pop() {
                    Some(mut w) => {
                        proof {
                            assert(char_lists(done@) =~= was.drop_last());
                            assert(w@ == was.last());
                        }
                        w.push(c);
                        done.push(w);
                        proof {
                            assert(char_lists(done@) =~= was.drop_last().push(was.last().push(c)));
                        }
                    },
                    None => {},
                }
            }
        }
        i = i + 1;
    }
    proof {
        assert(v@.take(v@.len() as int) =~= v@);
    }
    let mut out: Vec<String> = Vec::new();
    let mut k: usize = 0;
    while k < done.len()
        invariant
            k <= done.len(),
            out.len() == k,
            forall|j: int| 0 <= j < k ==> (#[trigger] out@[j])@ == done@[j]@,
        decreases done.len() - k,
    {
        out.push(string_of(done[k].as_slice()));
        k = k + 1;
    }
    proof {
        assert(texts(out@) =~= char_lists(done@));
    }
    out
}

/// A line without the carriage return at its end.
pub open spec fn without_return(s: Text) -> Text {
    if s.len() > 0 && s.last() == '\r' {
        s.drop_last()
    } else {
        s
    }
}

/// The lines of `s`: what stands between line feeds, without the carriage
/// return before each; an empty last line does not count.
pub open spec fn lines_of(s: Text) -> Seq<Text> {
    let p = split_on(s, '\n');
    let n = p.len() - 1;
    let full = Seq::new(n as nat, |i: int| without_return(p[i]));
    if p[n].len() == 0 {
        full
    } else {
        full.push(p[n])
    }
}

/// The lines of `s`.
pub fn lines(s: &str) -> (out: Vec<String>)
    ensures
        texts(out@) == lines_of(s@),
{
    let p = split(s, '\n');
    let ghost t = texts(p@);
    let n: usize = p.len() - 1;
    let mut out: Vec<String> = Vec::new();
    let mut i: usize = 0;
    while i < n
        invariant
            n == p.len() - 1,
            i <= n,
            t == texts(p@),
            out.len() == i,
            forall|k: int| 0 <= k < i ==> (#[trigger] out@[k])@ == without_return(t[k]),
        decreases n - i,
    {
        let line = p[i].as_str();
        let m: usize = line.unicode_len();
        proof {
            assert(t[i as int] == line@);
        }
        if m > 0 && line.get_char(m - 1) == '\r' {
            let cut = slice(line, 0, m - 1);
            proof {
                assert(cut@ =~= line@.drop_last());
            }
            out.push(cut);
        } else {
            out.push(line.to_owned());
        }
        i = i + 1;
    }
    proof {
        assert(t[n as int] == p@[n as int]@);
    }
    if !p[n].as_str().is_empty() {
        out.push(p[n].clone());
    }
    proof {
        assert(texts(out@) =~= lines_of(s@));
    }
    out
}

/// The upper-case form of an ASCII letter; other characters as they are.
pub open spec fn upper_char(c: char) -> char {
    if 'a' <= c <= 'z' {
        ((c as u8) - 32) as char
    } else {
        c
    }
}

/// A text with its ASCII letters in upper case.
pub open spec fn upper(s: Text) -> Text {
    s.map_values(|c: char| upper_char(c))
}

/// A text with its ASCII letters in upper case.
pub fn to_upper(s: &str) -> (out: String)
    ensures
        out@ == upper(s@),
{
    let v = chars_of(s);
    let mut out: Vec<char> = Vec::new();
    let mut i: usize = 0;
    while i < v.len()
        invariant
            i <= v.len(),
            v@ == s@,
            out@ =~= upper(s@.take(i as int)),
        decreases v.len() - i,
    {
        let c: char = v[i];
        let up: char = if 'a' <= c && c <= 'z' {
            ((c as u8) - 32) as char
        } else {
            c
        };
        out.push(up);
        i = i + 1;
    }
    proof {
        assert(s@.take(v.len() as int) =~= s@);
    }
    string_of(out.as_slice())
}

/// A text from position `i` on, with each pattern that stands in it, taken from
/// the left and without overlap, replaced.
pub open spec fn replaced_from(s: Text, from: Text, to: Text, i: int) -> Text
    decreases s.len() - i,
{
    if i < 0 || i + from.len() > s.len() || from.len() == 0 {
        s.skip(i)
    } else if occurs_at(s, from, i) {
        to + replaced_from(s, from, to, i + from.len())
    } else {
        seq![s[i]] + replaced_from(s, from, to, i + 1)
    }
}

/// A text with each occurrence of a pattern replaced.
pub open spec fn replaced(s: Text, from: Text, to: Text) -> Text {
    replaced_from(s, from, to, 0)
}

/// A text with each occurrence of a pattern replaced.
pub fn replace(s: &str, from: &str, to: &str) -> (out: String)
    requires
        from@.len() > 0,
    ensures
        out@ == replaced(s@, from@, to@),
{
    let v = chars_of(s);
    let p = chars_of(from);
    let mut out: String = String::new();
    let mut i: usize = 0;
    while i < v.len() && p.len() <= v.len() - i
        invariant
            i <= v.len(),
            v@ == s@,
            p@ == from@,
            from@.len() > 0,
            out@ + replaced_from(s@, from@, to@, i as int) == replaced(s@, from@, to@),
        decreases v.len() - i,
    {
        let ghost before = out@;
        if stands_at(&v, &p, i) {
            out.append(to);
            proof {
                let rest = replaced_from(s@, from@, to@, i + from@.len());
                assert((before + to@) + rest =~= before + (to@ + rest));
            }
            i = i + p.len();
        } else {
            out.push(v[i]);
            proof {
                let rest = replaced_from(s@, from@, to@, i + 1);
                assert(before.push(s@[i as int]) + rest =~= before + (seq![s@[i as int]] + rest));
            }
            i = i + 1;
        }
    }
    while i < v.len()
        invariant
            i <= v.len(),
            v@ == s@,
            out@ + s@.skip(i as int) == replaced(s@, from@, to@),
        decreases v.len() - i,
    {
        let ghost before = out@;
        out.push(v[i]);
        proof {
            assert(before.push(s@[i as int]) + s@.skip(i + 1) =~= before + s@.skip(i as int));
        }
        i = i + 1;
    }
    proof {
        assert(out@ + s@.skip(i as int) =~= out@);
    }
    out
}

} // verus!
