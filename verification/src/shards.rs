//! The files of a model that is split into several, by their names and paths.
use vstd::prelude::*;

use crate::paths::{
    bare_path, below, file_name, join_path, lemma_below, lemma_path_parts, lemma_rfind_last,
    lemma_rfind_tail, parent_dir, path_dir, path_name,
};
use crate::text::{
    all_digits, decimal, digits_value, last_position, lemma_decimal, lower, number, occurs_at,
    parse, parsed, rfind, same, slice, texts, to_lower, unsigned_digits, Text,
};

verus! {

broadcast use vstd::string::group_string_axioms;

/// The last position up to `i` at which `p` stands in `s`.
pub open spec fn rfind_text(s: Text, p: Text, i: int) -> Option<int>
    decreases i + 1,
{
    if i < 0 {
        None
    } else if occurs_at(s, p, i) {
        Some(i)
    } else {
        rfind_text(s, p, i - 1)
    }
}

pub(crate) fn last_text_position(s: &str, p: &str) -> (r: Option<usize>)
    ensures
        match r {
            Some(k) => rfind_text(s@, p@, s@.len() as int) == Some(k as int) && k + p@.len()
                <= s@.len(),
            None => rfind_text(s@, p@, s@.len() as int) is None,
        },
{
    let n: usize = s.unicode_len();
    let m: usize = p.unicode_len();
    let mut i: usize = n;
    loop
        invariant
            i <= n,
            n == s@.len(),
            m == p@.len(),
            rfind_text(s@, p@, s@.len() as int) == rfind_text(s@, p@, i as int),
        decreases i,
    {
        if m <= n - i {
            let piece = slice(s, i, i + m);
            if same(piece.as_str(), p) {
                return Some(i);
            }
        }
        if i == 0 {
            proof {
                assert(rfind_text(s@, p@, -1) is None);
            }
            return None;
        }
        i = i - 1;
    }
}

/// `n` in decimal with zeros in front up to `width` digits.
pub open spec fn zero_padded(n: nat, width: nat) -> Text {
    let d = decimal(n);
    if d.len() < width {
        Seq::new((width - d.len()) as nat, |i: int| '0') + d
    } else {
        d
    }
}

fn pad(n: u64, width: usize) -> (out: String)
    ensures
        out@ == zero_padded(n as nat, width as nat),
{
    let d = number(n);
    let m: usize = d.as_str().unicode_len();
    let mut out = String::new();
    let mut i: usize = m;
    while i < width
        invariant
            m == d@.len(),
            m <= i,
            i <= width || i == m,
            out@ == Seq::new((i - m) as nat, |k: int| '0'),
        decreases width - i,
    {
        out.push('0');
        i = i + 1;
        proof {
            assert(out@ =~= Seq::new((i - m) as nat, |k: int| '0'));
        }
    }
    out.append(d.as_str());
    proof {
        if m >= width {
            assert(out@ =~= d@);
        }
    }
    out
}

/// What the name of one file of a split model says.
pub struct SplitName {
    pub prefix: Text,
    pub total: nat,
    pub width: nat,
    pub extension: Text,
}

/// Reads the name of one file of a split model, such as
/// `model-00001-of-00003.gguf`.
pub open spec fn split_name(name: Text) -> Option<SplitName> {
    let n = name.len() - 5;
    if n < 0 || lower(name.skip(n)) != ".gguf"@ {
        None
    } else {
        let stem = name.take(n);
        match rfind_text(stem, "-of-"@, stem.len() as int) {
            None => None,
            Some(i) => {
                let total_text = stem.skip(i + 4);
                let indexed = stem.take(i);
                match rfind(indexed, '-') {
                    None => None,
                    Some(j) => {
                        let index_text = indexed.skip(j + 1);
                        match (parsed(index_text, 9999), parsed(total_text, 9999)) {
                            (Some(index), Some(total)) if 1 <= index <= total && total >= 2 => Some(
                                SplitName {
                                    prefix: indexed.take(j),
                                    total,
                                    width: if index_text.len() >= total_text.len() {
                                        index_text.len()
                                    } else {
                                        total_text.len()
                                    },
                                    extension: name.skip(n),
                                },
                            ),
                            _ => None,
                        }
                    },
                }
            },
        }
    }
}

/// The name of file number `part` of a split model.
pub open spec fn shard_name(s: SplitName, part: nat) -> Text {
    s.prefix + "-"@ + zero_padded(part, s.width) + "-of-"@ + zero_padded(s.total, s.width)
        + s.extension
}

/// The names of all files of the split model that `name` belongs to.
pub open spec fn shard_names(name: Text) -> Option<Seq<Text>> {
    match split_name(name) {
        Some(s) => Some(Seq::new(s.total, |i: int| shard_name(s, (i + 1) as nat))),
        None => None,
    }
}

/// The names of all files of the split model that `name` belongs to, in order;
/// `None` for a model in one file.
pub fn split_gguf_names(name: &str) -> (r: Option<Vec<String>>)
    ensures
        match r {
            Some(v) => shard_names(name@) == Some(texts(v@)),
            None => shard_names(name@) is None,
        },
{
    let len: usize = name.unicode_len();
    if len < 5 {
        return None;
    }
    let n: usize = len - 5;
    let ext = slice(name, n, len);
    proof {
        assert(ext@ =~= name@.skip(n as int));
        reveal_strlit("-of-");
    }
    if !same(to_lower(ext.as_str()).as_str(), ".gguf") {
        return None;
    }
    let stem = slice(name, 0, n);
    proof {
        assert(stem@ =~= name@.take(n as int));
    }
    let i: usize = match last_text_position(stem.as_str(), "-of-") {
        Some(i) => i,
        None => {
            return None;
        },
    };
    let total_text = slice(stem.as_str(), i + 4, n);
    let indexed = slice(stem.as_str(), 0, i);
    proof {
        assert(total_text@ =~= stem@.skip(i + 4));
        assert(indexed@ =~= stem@.take(i as int));
    }
    let j: usize = match last_position(indexed.as_str(), '-') {
        Some(j) => j,
        None => {
            return None;
        },
    };
    let index_text = slice(indexed.as_str(), j + 1, i);
    let prefix = slice(indexed.as_str(), 0, j);
    proof {
        assert(index_text@ =~= indexed@.skip(j + 1));
        assert(prefix@ =~= indexed@.take(j as int));
    }
    match (parse(index_text.as_str(), 9999), parse(total_text.as_str(), 9999)) {
        (Some(index), Some(total)) => {
            if index == 0 || index > total || total <= 1 {
                return None;
            }
            let a: usize = index_text.as_str().unicode_len();
            let b: usize = total_text.as_str().unicode_len();
            let width: usize = if a >= b {
                a
            } else {
                b
            };
            let ghost s = SplitName {
                prefix: prefix@,
                total: total as nat,
                width: width as nat,
                extension: ext@,
            };
            assert(split_name(name@) == Some(s));
            let mut out: Vec<String> = Vec::new();
            let mut part: u64 = 1;
            while part <= total
                invariant
                    1 <= part <= total + 1,
                    total <= 9999,
                    s == (SplitName {
                        prefix: prefix@,
                        total: total as nat,
                        width: width as nat,
                        extension: ext@,
                    }),
                    out.len() == part - 1,
                    forall|k: int|
                        0 <= k < out.len() ==> (#[trigger] out@[k])@ == shard_name(
                            s,
                            (k + 1) as nat,
                        ),
                decreases total + 1 - part,
            {
                let mut t = prefix.clone();
                t.append("-");
                t.append(pad(part, width).as_str());
                t.append("-of-");
                t.append(pad(total, width).as_str());
                t.append(ext.as_str());
                out.push(t);
                part = part + 1;
            }
            proof {
                assert(texts(out@) =~= Seq::new(s.total, |i: int| shard_name(s, (i + 1) as nat)));
            }
            Some(out)
        },
        _ => None,
    }
}

/// The paths of all files of the split model that a path names one of, in the
/// directory of that.
pub open spec fn split_paths(path: Text) -> Option<Seq<Text>> {
    match path_name(path) {
        Some(name) => match shard_names(name) {
            Some(v) => Some(Seq::new(v.len(), |i: int| below(path_dir(path), v[i]))),
            None => None,
        },
        None => None,
    }
}

/// The paths of all files of the split model that a path names one of, in
/// order; `None` for a model in one file.
pub fn split_gguf_paths(path: &str) -> (r: Option<Vec<String>>)
    ensures
        match r {
            Some(v) => split_paths(path@) == Some(texts(v@)),
            None => split_paths(path@) is None,
        },
{
    let name = match file_name(path) {
        Some(name) => name,
        None => {
            return None;
        },
    };
    let names = match split_gguf_names(name.as_str()) {
        Some(names) => names,
        None => {
            return None;
        },
    };
    let dir = parent_dir(path);
    let mut out: Vec<String> = Vec::new();
    let mut i: usize = 0;
    while i < names.len()
        invariant
            i <= names.len(),
            out.len() == i,
            forall|k: int| 0 <= k < i ==> (#[trigger] out@[k])@ == below(dir@, names@[k]@),
        decreases names.len() - i,
    {
        out.push(join_path(dir.as_str(), names[i].as_str()));
        i = i + 1;
    }
    proof {
        let v = texts(names@);
        assert(texts(out@) =~= Seq::new(v.len(), |i: int| below(path_dir(path@), v[i])));
    }
    Some(out)
}

/// The files of a local model: its parts where it is split, else itself.
pub open spec fn model_parts(path: Text) -> Seq<Text> {
    match split_paths(path) {
        Some(v) => v,
        None => seq![path],
    }
}

/// The files of a local model.
pub fn parts_of_model(path: &str) -> (out: Vec<String>)
    ensures
        texts(out@) == model_parts(path@),
{
    match split_gguf_paths(path) {
        Some(v) => v,
        None => {
            let out = vec![path.to_owned()];
            proof {
                assert(texts(out@) =~= seq![path@]);
            }
            out
        },
    }
}

/// Zeros in front change no number.
proof fn lemma_zeros_in_front(n: nat, d: Text)
    requires
        all_digits(d),
    ensures
        all_digits(Seq::new(n, |i: int| '0') + d),
        digits_value(Seq::new(n, |i: int| '0') + d) == digits_value(d),
    decreases n + d.len(),
{
    let z = Seq::new(n, |i: int| '0');
    let t = z + d;
    if d.len() > 0 {
        let e = d.drop_last();
        lemma_zeros_in_front(n, e);
        assert(t.drop_last() =~= z + e);
        assert(t.last() == d.last());
    } else if n > 0 {
        let m = (n - 1) as nat;
        lemma_zeros_in_front(m, d);
        assert(t.drop_last() =~= Seq::new(m, |i: int| '0') + d);
        assert(t.last() == '0');
    } else {
        assert(t =~= d);
    }
}

/// A number with zeros in front reads back, and is as wide as it is to be where
/// its digits fit.
proof fn lemma_padded(n: nat, width: nat)
    requires
        decimal(n).len() <= width,
    ensures
        all_digits(zero_padded(n, width)),
        digits_value(zero_padded(n, width)) == n,
        zero_padded(n, width).len() == width,
{
    lemma_decimal(n);
    lemma_zeros_in_front((width - decimal(n).len()) as nat, decimal(n));
}

/// Digits with zeros in front up to their own number are those digits.
proof fn lemma_padded_back(t: Text)
    requires
        all_digits(t),
        t.len() > 0,
    ensures
        decimal(digits_value(t)).len() <= t.len(),
        zero_padded(digits_value(t), t.len()) == t,
    decreases t.len(),
{
    let n = digits_value(t);
    let l = (t.last() as nat - 48) as nat;
    let init = t.drop_last();
    assert('0' <= t[t.len() - 1] <= '9');
    if init.len() == 0 {
        assert(digits_value(init) == 0);
        assert(decimal(n) =~= t);
    } else {
        assert forall|i: int| 0 <= i < init.len() implies '0' <= #[trigger] init[i] <= '9' by {
            assert(init[i] == t[i]);
        }
        lemma_padded_back(init);
        let v = digits_value(init);
        lemma_decimal(v);
        assert(n == v * 10 + l);
        let z = (init.len() - decimal(v).len()) as nat;
        assert(zero_padded(v, init.len()) =~= Seq::new(z, |i: int| '0') + decimal(v));
        if v == 0 {
            assert(decimal(n) =~= seq![t.last()]);
            assert(init =~= Seq::new(init.len(), |i: int| '0')) by {
                assert forall|i: int| 0 <= i < init.len() implies init[i] == '0' by {
                    assert(zero_padded(v, init.len())[i] == init[i]);
                    assert(decimal(0) =~= seq!['0']);
                }
            }
            assert(decimal(n).len() == 1);
            assert(zero_padded(n, t.len()) =~= init.push(t.last()));
            assert(init.push(t.last()) =~= t);
        } else {
            assert(n / 10 == v && n % 10 == l);
            assert(decimal(n) =~= decimal(v).push(t.last()));
            let p = zero_padded(v, init.len());
            assert(zero_padded(n, t.len()) =~= p.push(t.last()));
            assert(p.push(t.last()) =~= t);
        }
    }
}

/// A lesser number has no more digits.
proof fn lemma_fewer_digits(a: nat, b: nat)
    requires
        a <= b,
    ensures
        decimal(a).len() <= decimal(b).len(),
    decreases b,
{
    lemma_decimal(b);
    if a >= 10 {
        lemma_fewer_digits(a / 10, b / 10);
    }
}

/// What is found by `rfind_text` is the last.
proof fn lemma_rfind_text(s: Text, p: Text, i: int, k: int)
    requires
        0 <= k <= i,
        occurs_at(s, p, k),
        forall|j: int| k < j <= i ==> !occurs_at(s, p, j),
    ensures
        rfind_text(s, p, i) == Some(k),
    decreases i,
{
    if i > k {
        lemma_rfind_text(s, p, i - 1, k);
    }
}

/// The number of files stands behind the last `-of-`.
proof fn lemma_total_found(x: Text, b: Text)
    requires
        all_digits(b),
        b.len() > 0,
    ensures
        rfind_text(x + "-of-"@ + b, "-of-"@, (x + "-of-"@ + b).len() as int) == Some(x.len() as int),
{
    reveal_strlit("-of-");
    let p = "-of-"@;
    let s = x + p + b;
    let k = x.len() as int;
    assert(s.subrange(k, k + 4) =~= p);
    assert forall|j: int| k < j <= s.len() implies !occurs_at(s, p, j) by {
        if occurs_at(s, p, j) {
            let t = s.subrange(j, j + 4);
            assert(t[0] == s[j] && t[1] == s[j + 1]);
            assert(p[0] == '-' && p[1] == 'o');
            if j < k + 4 {
                assert(s[j] == p[j - k]);
                assert(j == k + 3);
                assert(s[j + 1] == b[0]);
            } else {
                assert(s[j] == b[j - k - 4]);
            }
        }
    }
    lemma_rfind_text(s, p, s.len() as int, k);
}

/// The texts of a name that say which file it is and of how many.
pub open spec fn number_texts(name: Text) -> (Text, Text) {
    let stem = name.take(name.len() - 5);
    let i = rfind_text(stem, "-of-"@, stem.len() as int)->0;
    let indexed = stem.take(i);
    let j = rfind(indexed, '-')->0;
    (indexed.skip(j + 1), stem.skip(i + 4))
}

/// What a name that can be read says holds together.
proof fn lemma_split_name(name: Text)
    requires
        split_name(name) is Some,
    ensures
        ({
            let s = split_name(name)->0;
            let (index, total) = number_texts(name);
            &&& 2 <= s.total <= 9999
            &&& decimal(s.total).len() <= s.width
            &&& s.extension.len() == 5
            &&& lower(s.extension) == ".gguf"@
            &&& s.extension.is_suffix_of(name)
            &&& name == s.prefix + "-"@ + index + "-of-"@ + total + s.extension
            &&& index.len() > 0
            &&& total.len() > 0
            &&& parsed(total, 9999) == Some(s.total)
            &&& parsed(index, 9999) matches Some(n) && 1 <= n <= s.total
        }),
{
    let s = split_name(name)->0;
    let n = name.len() - 5;
    let stem = name.take(n);
    let i = rfind_text(stem, "-of-"@, stem.len() as int)->0;
    lemma_rfind_text_says(stem, "-of-"@, stem.len() as int);
    let total_text = stem.skip(i + 4);
    let indexed = stem.take(i);
    let j = rfind(indexed, '-')->0;
    lemma_rfind_last(indexed, '-');
    let index_text = indexed.skip(j + 1);
    reveal_strlit("-of-");
    reveal_strlit("-");
    assert(stem.subrange(i, i + 4) =~= "-of-"@);
    assert(indexed =~= s.prefix + "-"@ + index_text);
    assert(stem =~= indexed + "-of-"@ + total_text) by {
        assert forall|k: int| 0 <= k < stem.len() implies stem[k] == (indexed + "-of-"@
            + total_text)[k] by {
            if i <= k < i + 4 {
                assert(stem.subrange(i, i + 4)[k - i] == stem[k]);
            }
        }
    }
    assert(name =~= stem + s.extension);
    assert(name =~= s.prefix + "-"@ + index_text + "-of-"@ + total_text + s.extension);
    let d = unsigned_digits(total_text);
    lemma_padded_back(d);
}

/// What `rfind_text` finds stands there.
proof fn lemma_rfind_text_says(s: Text, p: Text, i: int)
    ensures
        rfind_text(s, p, i) matches Some(k) ==> occurs_at(s, p, k),
    decreases i + 1,
{
    if i >= 0 && !occurs_at(s, p, i) {
        lemma_rfind_text_says(s, p, i - 1);
    }
}

/// The name of each file says the same of the model.
proof fn lemma_shard_name(name: Text, part: nat)
    requires
        split_name(name) matches Some(s) && 1 <= part <= s.total,
    ensures
        split_name(shard_name(split_name(name)->0, part)) == split_name(name),
{
    let s = split_name(name)->0;
    lemma_split_name(name);
    lemma_fewer_digits(part, s.total);
    lemma_padded(part, s.width);
    lemma_padded(s.total, s.width);
    let a = zero_padded(part, s.width);
    let b = zero_padded(s.total, s.width);
    let full = shard_name(s, part);
    lemma_decimal(s.total);
    reveal_strlit("-");
    assert("-"@ =~= seq!['-']);
    let x = s.prefix + "-"@ + a;
    let stem = x + "-of-"@ + b;
    let n = full.len() - 5;
    assert(full =~= stem + s.extension);
    assert(full.take(n) =~= stem);
    assert(full.skip(n) =~= s.extension);
    lemma_total_found(x, b);
    reveal_strlit("-of-");
    assert(stem.take(x.len() as int) =~= x);
    assert(stem.skip(x.len() as int + 4) =~= b);
    assert(!a.contains('-')) by {
        assert forall|i: int| 0 <= i < a.len() implies a[i] != '-' by {}
    }
    lemma_rfind_tail(s.prefix, a, '-');
    assert(x.skip(s.prefix.len() as int + 1) =~= a);
    assert(x.take(s.prefix.len() as int) =~= s.prefix);
    assert(unsigned_digits(a) == a);
    assert(unsigned_digits(b) == b);
    assert(parsed(a, 9999) == Some(part));
    assert(parsed(b, 9999) == Some(s.total));
}

/// Two files of a model have two names.
proof fn lemma_names_differ(name: Text, a: nat, b: nat)
    requires
        split_name(name) matches Some(s) && 1 <= a <= s.total && 1 <= b <= s.total,
        shard_name(split_name(name)->0, a) == shard_name(split_name(name)->0, b),
    ensures
        a == b,
{
    let s = split_name(name)->0;
    lemma_split_name(name);
    lemma_fewer_digits(a, s.total);
    lemma_fewer_digits(b, s.total);
    lemma_padded(a, s.width);
    lemma_padded(b, s.width);
    let x = zero_padded(a, s.width);
    let y = zero_padded(b, s.width);
    reveal_strlit("-");
    let k = s.prefix.len() as int + 1;
    let f = shard_name(s, a);
    assert(f.subrange(k, k + s.width) =~= x);
    assert(shard_name(s, b).subrange(k, k + s.width) =~= y);
}

/// The names of the files of a split model: as many as the name says, each
/// once, and each says the same; a name whose numbers are equally wide digits
/// is among them.
pub proof fn law_split_names_agree(name: Text)
    requires
        shard_names(name) is Some,
    ensures
        ({
            let v = shard_names(name)->0;
            let (index, total) = number_texts(name);
            &&& parsed(total, 9999) == Some(v.len())
            &&& 2 <= v.len() <= 9999
            &&& v.no_duplicates()
            &&& forall|i: int| 0 <= i < v.len() ==> shard_names(#[trigger] v[i]) == Some(v)
            &&& all_digits(index) && all_digits(total) && index.len() == total.len()
                ==> v.contains(name)
        }),
{
    let s = split_name(name)->0;
    let v = shard_names(name)->0;
    let (index, total) = number_texts(name);
    lemma_split_name(name);
    assert forall|i: int, j: int| 0 <= i < v.len() && 0 <= j < v.len() && i != j implies v[i]
        != v[j] by {
        if v[i] == v[j] {
            lemma_names_differ(name, (i + 1) as nat, (j + 1) as nat);
        }
    }
    assert forall|i: int| 0 <= i < v.len() implies shard_names(#[trigger] v[i]) == Some(v) by {
        lemma_shard_name(name, (i + 1) as nat);
    }
    if all_digits(index) && all_digits(total) && index.len() == total.len() {
        assert('0' <= index[0] <= '9' && '0' <= total[0] <= '9');
        assert(unsigned_digits(index) == index);
        assert(unsigned_digits(total) == total);
        lemma_padded_back(index);
        lemma_padded_back(total);
        let n = digits_value(index);
        assert(v[n - 1] == shard_name(s, n));
        assert(shard_name(s, n) == name);
    }
}

/// The name of a file of a split model can stand below a directory.
proof fn lemma_part_name(dir: Text, name: Text, part: Text)
    requires
        bare_path(dir) == dir,
        !name.contains('/'),
        shard_names(name) matches Some(v) && v.contains(part),
    ensures
        path_name(below(dir, part)) == Some(part),
        path_dir(below(dir, part)) == dir,
{
    let s = split_name(name)->0;
    let v = shard_names(name)->0;
    let i = choose|i: int| 0 <= i < v.len() && v[i] == part;
    lemma_split_name(name);
    lemma_fewer_digits((i + 1) as nat, s.total);
    lemma_padded((i + 1) as nat, s.width);
    lemma_padded(s.total, s.width);
    let a = zero_padded((i + 1) as nat, s.width);
    let b = zero_padded(s.total, s.width);
    reveal_strlit("-");
    reveal_strlit("-of-");
    reveal_strlit(".gguf");
    let (index, total) = number_texts(name);
    assert forall|k: int| 0 <= k < s.prefix.len() implies s.prefix[k] != '/' by {
        assert(name[k] == s.prefix[k]);
        assert(name.contains(name[k]));
    }
    assert forall|k: int| 0 <= k < 5 implies s.extension[k] != '/' by {
        assert(name[name.len() - 5 + k] == s.extension[k]);
        assert(name.contains(name[name.len() - 5 + k]));
    }
    let w = s.width as int;
    let m = s.prefix.len() as int;
    assert forall|k: int| 0 <= k < part.len() implies part[k] != '/' by {
        if k < m {
            assert(part[k] == s.prefix[k]);
        } else if k == m {
            assert(part[k] == '-');
        } else if k < m + 1 + w {
            assert(part[k] == a[k - m - 1]);
        } else if k < m + 5 + w {
            assert(part[k] == "-of-"@[k - m - 1 - w]);
        } else if k < m + 5 + 2 * w {
            assert(part[k] == b[k - m - 5 - w]);
        } else {
            assert(part[k] == s.extension[k - m - 5 - 2 * w]);
        }
    }
    assert(part.last() == s.extension[4]);
    assert(lower(s.extension)[4] == 'f');
    lemma_below(dir, part);
}

/// The files of a split model: as many as the name says, each once, all in one
/// directory, and each of them gives the same list. A path whose numbers are
/// equally wide digits is among them, by its directory and name.
pub proof fn law_split_parts_agree(path: Text)
    requires
        split_paths(path) is Some,
    ensures
        ({
            let v = split_paths(path)->0;
            let name = path_name(path)->0;
            let (index, total) = number_texts(name);
            &&& parsed(total, 9999) == Some(v.len())
            &&& 2 <= v.len() <= 9999
            &&& v.no_duplicates()
            &&& forall|i: int|
                0 <= i < v.len() ==> split_paths(#[trigger] v[i]) == Some(v) && path_dir(v[i])
                    == path_dir(path)
            &&& all_digits(index) && all_digits(total) && index.len() == total.len()
                ==> v.contains(below(path_dir(path), name))
        }),
{
    let v = split_paths(path)->0;
    let name = path_name(path)->0;
    let names = shard_names(name)->0;
    let dir = path_dir(path);
    let (index, total) = number_texts(name);
    law_split_names_agree(name);
    lemma_path_parts(path);
    assert forall|i: int| 0 <= i < v.len() implies path_name(#[trigger] v[i]) == Some(names[i])
        && path_dir(v[i]) == dir && split_paths(v[i]) == Some(v) by {
        assert(v[i] == below(dir, names[i]));
        assert(names.contains(names[i]));
        lemma_part_name(dir, name, names[i]);
        assert(shard_names(names[i]) == Some(names));
        assert(split_paths(v[i])->0 =~= v);
    }
    assert forall|i: int, j: int| 0 <= i < v.len() && 0 <= j < v.len() && i != j implies v[i]
        != v[j] by {
        assert(path_name(v[i]) == Some(names[i]));
        assert(path_name(v[j]) == Some(names[j]));
    }
    if all_digits(index) && all_digits(total) && index.len() == total.len() {
        let k = choose|k: int| 0 <= k < names.len() && names[k] == name;
        assert(v[k] == below(dir, name));
    }
}

} // verus!
