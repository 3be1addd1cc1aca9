//! How IP addresses are written.
use vstd::prelude::*;

use crate::address::{
    group_list, groups_of, hex_group, ip, ipv4, ipv6, octet, of_groups, Ip, Ipv4,
};
use crate::text::{
    decimal, find, hex_char, join, joined, lemma_decimal, lemma_find, lemma_split_joined,
    lemma_split_one, occurs_at, split_on, texts, to_hex_char, Text,
};

verus! {

broadcast use vstd::string::group_string_axioms;

/// A number in lower-case hexadecimal.
pub open spec fn hexadecimal(n: nat) -> Text
    decreases n,
{
    if n < 16 {
        seq![hex_char(n)]
    } else {
        hexadecimal(n / 16).push(hex_char(n % 16))
    }
}

fn hex_number(n: u16) -> (out: String)
    ensures
        out@ == hexadecimal(n as nat),
    decreases n,
{
    if n < 16 {
        let mut out: String = String::new();
        out.push(to_hex_char(n as u8));
        proof {
            assert(out@ =~= seq![hex_char(n as nat)]);
        }
        out
    } else {
        let mut out = hex_number(n / 16);
        out.push(to_hex_char((n % 16) as u8));
        out
    }
}

/// How many groups from position `i` on are zero.
pub open spec fn zeros_at(g: Seq<u16>, i: int) -> nat
    decreases g.len() - i,
{
    if i < 0 || i >= g.len() || g[i] != 0 {
        0
    } else {
        1 + zeros_at(g, i + 1)
    }
}

/// The first of the longest rows of zero groups that start before position `n`,
/// by its start and its length.
pub open spec fn longest_zeros(g: Seq<u16>, n: int) -> (int, nat)
    decreases n,
{
    if n <= 0 {
        (0, 0)
    } else {
        let before = longest_zeros(g, n - 1);
        if zeros_at(g, n - 1) > before.1 {
            (n - 1, zeros_at(g, n - 1))
        } else {
            before
        }
    }
}

/// Groups with colons between them.
pub open spec fn group_text(g: Seq<u16>) -> Text {
    joined(g.map_values(|x: u16| hexadecimal(x as nat)), ":"@)
}

/// A version six address: the first of the longest rows of zero groups is left
/// out where it has more than one, and an address that stands for a version
/// four one ends in that.
pub open spec fn ipv6_text(g: Seq<u16>) -> Text {
    if g.take(6) == seq![0u16, 0, 0, 0, 0, 0xffff] {
        "::ffff:"@ + (Ipv4 {
            a: (g[6] / 256) as u8,
            b: (g[6] % 256) as u8,
            c: (g[7] / 256) as u8,
            d: (g[7] % 256) as u8,
        }).text()
    } else {
        let (start, len) = longest_zeros(g, 8);
        if len > 1 {
            group_text(g.take(start)) + "::"@ + group_text(g.skip(start + len))
        } else {
            group_text(g)
        }
    }
}

/// The groups of a version six address.
pub open spec fn groups(ip: Ip) -> Seq<u16> {
    match ip {
        Ip::V4(_) => Seq::empty(),
        Ip::V6(a, b, c, d, e, f, g, h) => seq![a, b, c, d, e, f, g, h],
    }
}

fn count_zeros(g: &Vec<u16>, i: usize) -> (n: usize)
    requires
        i <= g.len(),
    ensures
        n == zeros_at(g@, i as int),
        i + n <= g.len(),
    decreases g.len() - i,
{
    if i >= g.len() || g[i] != 0 {
        0
    } else {
        1 + count_zeros(g, i + 1)
    }
}

fn write_groups(g: &Vec<u16>, a: usize, b: usize) -> (out: String)
    requires
        a <= b <= g.len(),
    ensures
        out@ == group_text(g@.subrange(a as int, b as int)),
{
    let ghost all = g@.subrange(a as int, b as int);
    let ghost want = all.map_values(|x: u16| hexadecimal(x as nat));
    let mut parts: Vec<String> = Vec::new();
    let mut i: usize = a;
    proof {
        assert(texts(parts@) =~= want.take(0));
    }
    while i < b
        invariant
            a <= i <= b <= g.len(),
            all == g@.subrange(a as int, b as int),
            want == all.map_values(|x: u16| hexadecimal(x as nat)),
            texts(parts@) == want.take(i - a),
        decreases b - i,
    {
        let ghost was = texts(parts@);
        let part = hex_number(g[i]);
        proof {
            assert(all[i - a] == g@[i as int]);
            assert(want[i - a] == part@);
        }
        parts.push(part);
        i = i + 1;
        proof {
            assert(texts(parts@) =~= was.push(part@));
            assert(want.take(i - a) =~= was.push(part@));
        }
    }
    proof {
        assert(want.take(b - a) =~= want);
    }
    join(&parts, ":")
}

impl Ip {
    /// The address as it is written.
    pub open spec fn text(self) -> Text {
        match self {
            Ip::V4(q) => q.text(),
            Ip::V6(..) => ipv6_text(groups(self)),
        }
    }

    /// `0.0.0.0` or `::`.
    pub open spec fn unspecified(self) -> bool {
        self == Ip::V4(Ipv4 { a: 0, b: 0, c: 0, d: 0 }) || self == Ip::V6(0, 0, 0, 0, 0, 0, 0, 0)
    }

    /// Whether the address stands for all.
    pub fn is_unspecified(&self) -> (r: bool)
        ensures
            r == self.unspecified(),
    {
        match self {
            Ip::V4(q) => q.a == 0 && q.b == 0 && q.c == 0 && q.d == 0,
            Ip::V6(a, b, c, d, e, f, g, h) => *a == 0 && *b == 0 && *c == 0 && *d == 0 && *e == 0
                && *f == 0 && *g == 0 && *h == 0,
        }
    }

    /// The address as it is written.
    pub fn to_text(&self) -> (out: String)
        ensures
            out@ == self.text(),
    {
        let v: Vec<u16> = match self {
            Ip::V4(q) => {
                return q.to_text();
            },
            Ip::V6(a, b, c, d, e, f, g, h) => vec![*a, *b, *c, *d, *e, *f, *g, *h],
        };
        proof {
            assert(v@ =~= groups(*self));
        }
        if v[0] == 0 && v[1] == 0 && v[2] == 0 && v[3] == 0 && v[4] == 0 && v[5] == 0xffff {
            let q = Ipv4 {
                a: (v[6] / 256) as u8,
                b: (v[6] % 256) as u8,
                c: (v[7] / 256) as u8,
                d: (v[7] % 256) as u8,
            };
            let mut out = "::ffff:".to_owned();
            out.append(q.to_text().as_str());
            proof {
                assert(v@.take(6) =~= seq![0u16, 0, 0, 0, 0, 0xffff]);
            }
            return out;
        }
        proof {
            if v@.take(6) == seq![0u16, 0, 0, 0, 0, 0xffff] {
                let t = v@.take(6);
                assert(t[0] == 0 && t[1] == 0 && t[2] == 0 && t[3] == 0 && t[4] == 0 && t[5]
                    == 0xffff);
            }
        }
        let mut start: usize = 0;
        let mut len: usize = 0;
        let mut i: usize = 0;
        while i < 8
            invariant
                i <= 8,
                v.len() == 8,
                (start as int, len as nat) == longest_zeros(v@, i as int),
                start + len <= 8,
            decreases 8 - i,
        {
            let n: usize = count_zeros(&v, i);
            if n > len {
                start = i;
                len = n;
            }
            i = i + 1;
        }
        if len > 1 {
            let mut out = write_groups(&v, 0, start);
            out.append("::");
            out.append(write_groups(&v, start + len, 8).as_str());
            proof {
                assert(v@.subrange(0, start as int) =~= v@.take(start as int));
                assert(v@.subrange(start + len, 8) =~= v@.skip(start + len));
            }
            out
        } else {
            proof {
                assert(v@.subrange(0, 8) =~= v@);
            }
            write_groups(&v, 0, 8)
        }
    }
}

/// An octet reads back.
proof fn lemma_octet(n: u8)
    ensures
        octet(decimal(n as nat)) == Some(n as nat),
        !decimal(n as nat).contains('.'),
        !decimal(n as nat).contains(':'),
{
    lemma_decimal(n as nat);
}

/// A version four address reads back.
pub(crate) proof fn lemma_ipv4_reads_back(q: Ipv4)
    ensures
        ipv4(q.text()) == Some(q),
        !q.text().contains(':'),
{
    let p = seq![
        decimal(q.a as nat),
        decimal(q.b as nat),
        decimal(q.c as nat),
        decimal(q.d as nat),
    ];
    lemma_octet(q.a);
    lemma_octet(q.b);
    lemma_octet(q.c);
    lemma_octet(q.d);
    reveal_with_fuel(joined, 5);
    assert(p.drop_last() =~= seq![p[0], p[1], p[2]]);
    assert(p.drop_last().drop_last() =~= seq![p[0], p[1]]);
    assert(p.drop_last().drop_last().drop_last() =~= seq![p[0]]);
    assert(joined(p, seq!['.']) =~= q.text());
    lemma_split_joined(p, '.');
    assert forall|i: int| 0 <= i < q.text().len() implies q.text()[i] != ':' by {
        let t = q.text();
        let a = p[0].len() as int;
        let b = a + 1 + p[1].len();
        let c = b + 1 + p[2].len();
        if i < a {
            assert(t[i] == p[0][i]);
        } else if a < i < b {
            assert(t[i] == p[1][i - a - 1]);
        } else if b < i < c {
            assert(t[i] == p[2][i - b - 1]);
        } else if c < i {
            assert(t[i] == p[3][i - c - 1]);
        } else {
            assert(t[i] == '.');
        }
    }
}

/// A group reads back, and holds neither a colon nor a point.
proof fn lemma_hexadecimal(n: nat)
    ensures
        crate::address::hex_number(hexadecimal(n)) == Some(n),
        hexadecimal(n).len() >= 1,
        n < 16 ==> hexadecimal(n).len() <= 1,
        n < 256 ==> hexadecimal(n).len() <= 2,
        n < 4096 ==> hexadecimal(n).len() <= 3,
        n < 65536 ==> hexadecimal(n).len() <= 4,
        !hexadecimal(n).contains(':'),
        !hexadecimal(n).contains('.'),
    decreases n,
{
    let h = hexadecimal(n);
    if n >= 16 {
        lemma_hexadecimal(n / 16);
        let d = h.drop_last();
        assert(d =~= hexadecimal(n / 16));
        assert forall|i: int| 0 <= i < h.len() implies h[i] != ':' && h[i] != '.' by {
            if i < d.len() {
                assert(d[i] == h[i]);
            }
        }
    } else {
        assert(h.drop_last() =~= Seq::<char>::empty());
        assert(crate::address::hex_number(h.drop_last()) == Some(0nat));
    }
}

/// The groups as texts.
spec fn pieces(g: Seq<u16>) -> Seq<Text> {
    g.map_values(|x: u16| hexadecimal(x as nat))
}

proof fn lemma_pieces(g: Seq<u16>)
    ensures
        pieces(g).len() == g.len(),
        forall|i: int|
            0 <= i < g.len() ==> (#[trigger] pieces(g)[i]).len() >= 1 && !pieces(g)[i].contains(':')
                && !pieces(g)[i].contains('.') && hex_group(pieces(g)[i]) == Some(g[i] as nat),
{
    assert forall|i: int| 0 <= i < g.len() implies (#[trigger] pieces(g)[i]).len() >= 1
        && !pieces(g)[i].contains(':') && !pieces(g)[i].contains('.') && hex_group(pieces(g)[i])
        == Some(g[i] as nat) by {
        lemma_hexadecimal(g[i] as nat);
    }
}

/// Where pieces without colons are joined by one, no two colons meet and none
/// stands at an end.
proof fn lemma_single_colons(p: Seq<Text>)
    requires
        forall|i: int| 0 <= i < p.len() ==> (#[trigger] p[i]).len() >= 1 && !p[i].contains(':'),
    ensures
        p.len() > 0 ==> joined(p, seq![':']).len() > 0,
        joined(p, seq![':']).len() > 0 ==> joined(p, seq![':'])[0] != ':' && joined(
            p,
            seq![':'],
        ).last() != ':',
        forall|i: int|
            0 <= i < joined(p, seq![':']).len() - 1 ==> !(#[trigger] joined(p, seq![':'])[i] == ':'
                && joined(p, seq![':'])[i + 1] == ':'),
    decreases p.len(),
{
    if p.len() == 1 {
        let s = p[0];
        assert forall|i: int| 0 <= i < s.len() implies s[i] != ':' by {
            assert(s.contains(s[i]));
        }
    } else if p.len() > 1 {
        let init = p.drop_last();
        lemma_single_colons(init);
        let j = joined(init, seq![':']);
        let l = p.last();
        assert(l == p[p.len() - 1]);
        let s = joined(p, seq![':']);
        assert(s == j + seq![':'] + l);
        assert forall|i: int| 0 <= i < l.len() implies l[i] != ':' by {
            assert(l.contains(l[i]));
        }
        assert(s[0] == j[0]);
        assert(s.last() == l.last());
        assert forall|i: int| 0 <= i < s.len() - 1 implies !(#[trigger] s[i] == ':' && s[i + 1]
            == ':') by {
            if i < j.len() - 1 {
                assert(s[i] == j[i] && s[i + 1] == j[i + 1]);
            } else if i == j.len() - 1 {
                assert(s[i] == j.last());
            } else if i == j.len() {
                assert(s[i + 1] == l[0]);
            } else {
                assert(s[i] == l[i - j.len() - 1]);
            }
        }
    }
}

/// The pieces of a side read back as its groups.
proof fn lemma_groups_read_back(g: Seq<u16>, v4: bool)
    ensures
        groups_of(pieces(g), v4) == Some(g),
    decreases g.len(),
{
    lemma_pieces(g);
    if g.len() > 0 {
        let init = g.drop_last();
        lemma_groups_read_back(init, false);
        assert(pieces(g).drop_last() =~= pieces(init));
        let l = pieces(g).last();
        assert(l == pieces(g)[g.len() - 1]);
        lemma_split_one(l, '.');
        assert(ipv4(l) is None);
        assert(init.push(g.last()) =~= g);
    } else {
        assert(pieces(g) =~= Seq::<Text>::empty());
    }
}

/// One side of an address reads back, and no two colons meet in it.
proof fn lemma_side(g: Seq<u16>, v4: bool)
    ensures
        group_list(group_text(g), v4) == Some(g),
        group_text(g).len() > 0 ==> group_text(g)[0] != ':' && group_text(g).last() != ':',
        forall|i: int|
            0 <= i < group_text(g).len() - 1 ==> !(#[trigger] group_text(g)[i] == ':'
                && group_text(g)[i + 1] == ':'),
        !group_text(g).contains('.'),
{
    reveal_strlit(":");
    assert(":"@ =~= seq![':']);
    lemma_pieces(g);
    lemma_single_colons(pieces(g));
    lemma_groups_read_back(g, v4);
    assert(group_text(g) == joined(pieces(g), seq![':']));
    if g.len() > 0 {
        lemma_split_joined(pieces(g), ':');
    } else {
        assert(g =~= Seq::<u16>::empty());
    }
    lemma_no_points(pieces(g));
}

proof fn lemma_no_points(p: Seq<Text>)
    requires
        forall|i: int| 0 <= i < p.len() ==> !(#[trigger] p[i]).contains('.'),
    ensures
        !joined(p, seq![':']).contains('.'),
    decreases p.len(),
{
    if p.len() > 1 {
        let init = p.drop_last();
        lemma_no_points(init);
        let j = joined(init, seq![':']);
        let l = p.last();
        assert(l == p[p.len() - 1]);
        let s = joined(p, seq![':']);
        assert forall|i: int| 0 <= i < s.len() implies s[i] != '.' by {
            if i < j.len() {
                assert(j.contains(j[i]));
            } else if i > j.len() {
                assert(l.contains(l[i - j.len() - 1]));
            }
        }
    }
}

/// What `zeros_at` counts are groups of zero.
proof fn lemma_zeros(g: Seq<u16>, i: int)
    requires
        0 <= i <= g.len(),
    ensures
        i + zeros_at(g, i) <= g.len(),
        forall|k: int| i <= k < i + zeros_at(g, i) ==> #[trigger] g[k] == 0,
    decreases g.len() - i,
{
    if i < g.len() && g[i] == 0 {
        lemma_zeros(g, i + 1);
    }
}

/// The row that is left out holds groups of zero.
proof fn lemma_longest(g: Seq<u16>, n: int)
    requires
        0 <= n <= g.len(),
    ensures
        ({
            let (start, len) = longest_zeros(g, n);
            &&& 0 <= start
            &&& start + len <= g.len()
            &&& forall|k: int| start <= k < start + len ==> #[trigger] g[k] == 0
        }),
    decreases n,
{
    if n > 0 {
        lemma_longest(g, n - 1);
        lemma_zeros(g, n - 1);
    }
}

/// The double colon stands where the row was left out.
proof fn lemma_row_found(h: Text, t: Text)
    requires
        h.len() > 0 ==> h.last() != ':',
        forall|i: int| 0 <= i < h.len() - 1 ==> !(#[trigger] h[i] == ':' && h[i + 1] == ':'),
    ensures
        find(h + seq![':', ':'] + t, seq![':', ':']) == Some(h.len() as int),
{
    let p = seq![':', ':'];
    let s = h + p + t;
    let at = h.len() as int;
    assert(s.subrange(at, at + 2) =~= p);
    assert(occurs_at(s, p, at));
    lemma_find(s, p);
    let i = find(s, p)->0;
    if i < at {
        assert(s.subrange(i, i + 2)[0] == s[i]);
        assert(s.subrange(i, i + 2)[1] == s[i + 1]);
        assert(s[i] == h[i]);
        if i + 1 < at {
            assert(s[i + 1] == h[i + 1]);
        } else {
            assert(h[i] == h.last());
        }
        assert(false);
    }
}

proof fn lemma_no_point_between(h: Text, m: Text, t: Text)
    requires
        !h.contains('.'),
        !m.contains('.'),
        !t.contains('.'),
    ensures
        !(h + m + t).contains('.'),
{
    let s = h + m + t;
    assert forall|i: int| 0 <= i < s.len() implies s[i] != '.' by {
        if i < h.len() {
            assert(h.contains(h[i]));
        } else if i < h.len() + m.len() {
            assert(m.contains(m[i - h.len()]));
        } else {
            assert(t.contains(t[i - h.len() - m.len()]));
        }
    }
}

/// An address whose longest row of zeros is left out reads back.
proof fn lemma_shortened(g: Seq<u16>)
    requires
        g.len() == 8,
        longest_zeros(g, 8).1 > 1,
    ensures
        ({
            let (start, len) = longest_zeros(g, 8);
            let s = group_text(g.take(start)) + "::"@ + group_text(g.skip(start + len));
            ipv6(s) == Some(g) && !s.contains('.')
        }),
{
    let (start, len) = longest_zeros(g, 8);
    lemma_longest(g, 8);
    let head = g.take(start);
    let tail = g.skip(start + len);
    let h = group_text(head);
    let t = group_text(tail);
    let p = seq![':', ':'];
    assert("::"@ == p) by {
        reveal_strlit("::");
        assert("::"@ =~= p);
    }
    let s = h + p + t;
    lemma_side(head, false);
    lemma_side(tail, true);
    lemma_row_found(h, t);
    let at = h.len() as int;
    assert(s.take(at) =~= h);
    assert(s.skip(at + 2) =~= t);
    let zeros = Seq::new((8 - head.len() - tail.len()) as nat, |k: int| 0u16);
    assert(head + zeros + tail =~= g) by {
        assert forall|k: int| 0 <= k < 8 implies (head + zeros + tail)[k] == g[k] by {
            if k < start {
                assert(head[k] == g[k]);
            } else if k >= start + len {
                assert(tail[k - start - len] == g[k]);
            }
        }
    }
    assert(!p.contains('.'));
    lemma_no_point_between(h, p, t);
}

/// An address that is written in full reads back.
proof fn lemma_in_full(g: Seq<u16>)
    requires
        g.len() == 8,
    ensures
        ipv6(group_text(g)) == Some(g),
        !group_text(g).contains('.'),
{
    let s = group_text(g);
    let p = seq![':', ':'];
    lemma_side(g, true);
    lemma_find(s, p);
    if find(s, p) is Some {
        let i = find(s, p)->0;
        assert(occurs_at(s, p, i));
        assert(s.subrange(i, i + 2)[0] == s[i]);
        assert(s.subrange(i, i + 2)[1] == s[i + 1]);
        assert(false);
    }
}

/// The group in front of a version four address.
proof fn lemma_mark()
    ensures
        hex_group(seq!['f', 'f', 'f', 'f']) == Some(65535nat),
        groups_of(seq![seq!['f', 'f', 'f', 'f']], false) == Some(seq![0xffffu16]),
{
    let f = seq!['f', 'f', 'f', 'f'];
    reveal_with_fuel(crate::address::hex_number, 5);
    assert(f.drop_last() =~= seq!['f', 'f', 'f']);
    assert(f.drop_last().drop_last() =~= seq!['f', 'f']);
    assert(f.drop_last().drop_last().drop_last() =~= seq!['f']);
    assert(f.drop_last().drop_last().drop_last().drop_last() =~= Seq::<char>::empty());
    assert(seq![f].drop_last() =~= Seq::<Text>::empty());
    assert(groups_of(Seq::<Text>::empty(), false) == Some(Seq::<u16>::empty()));
    assert(Seq::<u16>::empty().push(0xffffu16) =~= seq![0xffffu16]);
}

/// The side of an address that ends in a version four one.
proof fn lemma_mapped_side(q: Ipv4, x: u16, y: u16)
    requires
        q.a * 256 + q.b == x,
        q.c * 256 + q.d == y,
    ensures
        group_list(seq!['f', 'f', 'f', 'f'] + seq![':'] + q.text(), true) == Some(
            seq![0xffffu16, x, y],
        ),
{
    let f = seq!['f', 'f', 'f', 'f'];
    let t = q.text();
    let s = f + seq![':'] + t;
    lemma_ipv4_reads_back(q);
    lemma_mark();
    lemma_split_one(f, ':');
    crate::text::lemma_split_append(f, t, ':');
    let parts = split_on(s, ':');
    assert(parts =~= seq![f, t]);
    assert(parts.drop_last() =~= seq![f]);
    assert(parts.last() == t);
    assert(seq![0xffffu16].push(x).push(y) =~= seq![0xffffu16, x, y]);
}

/// An address of version six that ends in one of version four is none of
/// version four.
proof fn lemma_mapped_is_six(q: Ipv4)
    ensures
        ipv4("::ffff:"@ + q.text()) is None,
{
    let m = "::ffff:"@;
    reveal_strlit("::ffff:");
    let s = m + q.text();
    let d = decimal(q.a as nat);
    let dotted = seq![m + d, decimal(q.b as nat), decimal(q.c as nat), decimal(q.d as nat)];
    lemma_octet(q.a);
    lemma_octet(q.b);
    lemma_octet(q.c);
    lemma_octet(q.d);
    reveal_with_fuel(joined, 5);
    assert(dotted.drop_last() =~= seq![dotted[0], dotted[1], dotted[2]]);
    assert(dotted.drop_last().drop_last() =~= seq![dotted[0], dotted[1]]);
    assert(dotted.drop_last().drop_last().drop_last() =~= seq![dotted[0]]);
    assert(joined(dotted, seq!['.']) =~= s);
    assert(!m.contains('.'));
    lemma_no_point_between(m, Seq::empty(), d);
    assert(m + Seq::<char>::empty() + d =~= m + d);
    lemma_split_joined(dotted, '.');
    assert(dotted[0][0] == ':');
    assert(octet(dotted[0]) is None);
}

/// An address that stands for a version four one reads back.
proof fn lemma_mapped(g: Seq<u16>, q: Ipv4)
    requires
        g.len() == 8,
        g.take(6) == seq![0u16, 0, 0, 0, 0, 0xffff],
        q.a * 256 + q.b == g[6],
        q.c * 256 + q.d == g[7],
    ensures
        ipv6("::ffff:"@ + q.text()) == Some(g),
{
    let t = q.text();
    let p = seq![':', ':'];
    let f = seq!['f', 'f', 'f', 'f'];
    let s = "::ffff:"@ + t;
    assert(s =~= Seq::<char>::empty() + p + (f + seq![':'] + t)) by {
        reveal_strlit("::ffff:");
    }
    lemma_row_found(Seq::empty(), f + seq![':'] + t);
    lemma_mapped_side(q, g[6], g[7]);
    assert(s.take(0) =~= Seq::<char>::empty());
    assert(s.skip(2) =~= f + seq![':'] + t);
    let tail = seq![0xffffu16, g[6], g[7]];
    let six = g.take(6);
    assert(six[0] == g[0] && six[1] == g[1] && six[2] == g[2] && six[3] == g[3] && six[4] == g[4]
        && six[5] == g[5]);
    let head = Seq::<u16>::empty();
    let zeros = Seq::new((8 - head.len() - tail.len()) as nat, |k: int| 0u16);
    assert(head + zeros + tail =~= g);
}

/// How the address of this machine is written.
pub proof fn lemma_loopback_text()
    ensures
        Ip::V6(0, 0, 0, 0, 0, 0, 0, 1).text() == "::1"@,
{
    let g = groups(Ip::V6(0, 0, 0, 0, 0, 0, 0, 1));
    assert(g.take(6)[5] == 0);
    assert(seq![0u16, 0, 0, 0, 0, 0xffff][5] == 0xffff);
    reveal_with_fuel(zeros_at, 9);
    assert(zeros_at(g, 0) == 7);
    lemma_longest_first(g, 8);
    assert(g.take(0) =~= Seq::<u16>::empty());
    assert(g.skip(7) =~= seq![1u16]);
    let p = g.skip(7).map_values(|x: u16| hexadecimal(x as nat));
    assert(p =~= seq![seq!['1']]);
    let e = g.take(0).map_values(|x: u16| hexadecimal(x as nat));
    assert(e =~= Seq::<Text>::empty());
    reveal_strlit("::");
    reveal_strlit("::1");
    assert(Seq::<char>::empty() + "::"@ + seq!['1'] =~= "::1"@);
}

/// A first row of zeros that no later one is longer than is the one left out.
proof fn lemma_longest_first(g: Seq<u16>, n: int)
    requires
        1 <= n <= g.len(),
        g.len() == 8,
        zeros_at(g, 0) == 7,
    ensures
        longest_zeros(g, n) == (0int, 7nat),
    decreases n,
{
    if n == 1 {
        assert(longest_zeros(g, 0) == (0int, 0nat));
    } else {
        lemma_longest_first(g, n - 1);
        lemma_zeros(g, n - 1);
    }
}

/// An address reads back from how it is written.
pub proof fn law_address_round_trip(a: Ip)
    ensures
        ip(a.text()) == Some(a),
{
    match a {
        Ip::V4(q) => {
            lemma_ipv4_reads_back(q);
        },
        Ip::V6(..) => {
            let g = groups(a);
            assert(of_groups(g) == a);
            if g.take(6) == seq![0u16, 0, 0, 0, 0, 0xffff] {
                let q = Ipv4 {
                    a: (g[6] / 256) as u8,
                    b: (g[6] % 256) as u8,
                    c: (g[7] / 256) as u8,
                    d: (g[7] % 256) as u8,
                };
                lemma_mapped(g, q);
                lemma_mapped_is_six(q);
            } else {
                if longest_zeros(g, 8).1 > 1 {
                    lemma_shortened(g);
                } else {
                    lemma_in_full(g);
                }
                lemma_split_one(a.text(), '.');
            }
        },
    }
}

} // verus!
