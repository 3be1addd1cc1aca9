//! Paths as texts, with a slash between their parts.
use vstd::prelude::*;

use crate::text::{last_position, rfind, same, slice, Text};

verus! {

broadcast use vstd::string::group_string_axioms;

/// A path below a directory.
pub open spec fn below(dir: Text, name: Text) -> Text {
    if dir.len() == 0 {
        name
    } else if dir.last() == '/' {
        dir + name
    } else {
        dir + "/"@ + name
    }
}

/// A path below a directory.
pub fn join_path(dir: &str, name: &str) -> (out: String)
    ensures
        out@ == below(dir@, name@),
{
    let n: usize = dir.unicode_len();
    if n == 0 {
        return name.to_owned();
    }
    let mut out = dir.to_owned();
    if dir.get_char(n - 1) != '/' {
        out.append("/");
    }
    out.append(name);
    out
}

/// A path without the slashes and the parts `.` at its end; the root stays.
pub open spec fn bare_path(p: Text) -> Text
    decreases p.len(),
{
    if p.len() > 1 && (p.last() == '/' || (p.last() == '.' && p[p.len() - 2] == '/')) {
        bare_path(p.drop_last())
    } else {
        p
    }
}

/// A path without the slashes and the parts `.` at its end.
fn cut_path(p: &str) -> (out: String)
    ensures
        out@ == bare_path(p@),
{
    let mut n: usize = p.unicode_len();
    proof {
        assert(p@.take(n as int) =~= p@);
    }
    while n > 1 && (p.get_char(n - 1) == '/' || (p.get_char(n - 1) == '.' && p.get_char(n - 2)
        == '/'))
        invariant
            n <= p@.len(),
            bare_path(p@) == bare_path(p@.take(n as int)),
        decreases n,
    {
        proof {
            assert(p@.take(n as int).drop_last() =~= p@.take(n - 1));
        }
        n = n - 1;
    }
    let out = slice(p, 0, n);
    proof {
        assert(out@ =~= p@.take(n as int));
    }
    out
}

/// The last part of a path, where that names something.
pub open spec fn path_name(p: Text) -> Option<Text> {
    let t = bare_path(p);
    let name = match rfind(t, '/') {
        Some(k) => t.skip(k + 1),
        None => t,
    };
    if name.len() == 0 || name == "."@ || name == ".."@ {
        None
    } else {
        Some(name)
    }
}

/// The last part of a path, where that names something.
pub fn file_name(p: &str) -> (r: Option<String>)
    ensures
        crate::text::opt_text(r) == path_name(p@),
{
    let t = cut_path(p);
    let n: usize = t.as_str().unicode_len();
    let name = match last_position(t.as_str(), '/') {
        Some(k) => {
            let name = slice(t.as_str(), k + 1, n);
            proof {
                assert(name@ =~= t@.skip(k + 1));
            }
            name
        },
        None => t,
    };
    if name.as_str().is_empty() || same(name.as_str(), ".") || same(name.as_str(), "..") {
        None
    } else {
        Some(name)
    }
}

/// The directory of what a path names; empty where the path has one part.
pub open spec fn path_dir(p: Text) -> Text {
    let t = bare_path(p);
    match rfind(t, '/') {
        Some(k) => bare_path(t.take(k + 1)),
        None => Seq::empty(),
    }
}

/// The directory of what a path names.
pub fn parent_dir(p: &str) -> (out: String)
    ensures
        out@ == path_dir(p@),
{
    let t = cut_path(p);
    let n: usize = t.as_str().unicode_len();
    match last_position(t.as_str(), '/') {
        Some(k) => {
            assert(k < n);
            let dir = slice(t.as_str(), 0, k + 1);
            proof {
                assert(dir@ =~= t@.take(k + 1));
            }
            cut_path(dir.as_str())
        },
        None => {
            let out = String::new();
            proof {
                assert(out@ =~= Seq::<char>::empty());
            }
            out
        },
    }
}

/// What is found by `rfind` stands where nothing follows it.
pub proof fn lemma_rfind_tail(s: Text, a: Text, c: char)
    requires
        !a.contains(c),
    ensures
        rfind(s + seq![c] + a, c) == Some(s.len() as int),
    decreases a.len(),
{
    let t = s + seq![c] + a;
    if a.len() == 0 {
        assert(t.last() == c);
    } else {
        assert(t.last() == a.last());
        assert(a.contains(a.last()));
        let d = a.drop_last();
        assert(!d.contains(c)) by {
            if d.contains(c) {
                let k = choose|k: int| 0 <= k < d.len() && d[k] == c;
                assert(a[k] == c);
            }
        }
        lemma_rfind_tail(s, d, c);
        assert(t.drop_last() =~= s + seq![c] + d);
    }
}

/// What does not hold the character has no position of it.
pub proof fn lemma_rfind_none(a: Text, c: char)
    requires
        !a.contains(c),
    ensures
        rfind(a, c) is None,
    decreases a.len(),
{
    if a.len() > 0 {
        assert(a.contains(a.last()));
        let d = a.drop_last();
        assert(!d.contains(c)) by {
            if d.contains(c) {
                let k = choose|k: int| 0 <= k < d.len() && d[k] == c;
                assert(a[k] == c);
            }
        }
        lemma_rfind_none(d, c);
    }
}

/// Where the last position is, nothing of the kind follows.
pub proof fn lemma_rfind_last(s: Text, c: char)
    ensures
        match rfind(s, c) {
            Some(k) => 0 <= k < s.len() && s[k] == c && !s.skip(k + 1).contains(c),
            None => !s.contains(c),
        },
    decreases s.len(),
{
    if s.len() > 0 && s.last() != c {
        let d = s.drop_last();
        lemma_rfind_last(d, c);
        match rfind(d, c) {
            Some(k) => {
                let t = s.skip(k + 1);
                let u = d.skip(k + 1);
                assert forall|i: int| 0 <= i < t.len() implies #[trigger] t[i] != c by {
                    if i < u.len() {
                        assert(u[i] == t[i]);
                        assert(u.contains(u[i]));
                    } else {
                        assert(t[i] == s.last());
                    }
                }
            },
            None => {
                assert forall|i: int| 0 <= i < s.len() implies s[i] != c by {
                    if i < d.len() {
                        assert(d[i] == s[i]);
                        assert(d.contains(d[i]));
                    }
                }
            },
        }
    } else if s.len() > 0 {
        assert(s.skip(s.len() as int) =~= Seq::<char>::empty());
    }
}

/// Cutting twice is cutting once.
pub proof fn lemma_bare_twice(p: Text)
    ensures
        bare_path(bare_path(p)) == bare_path(p),
        bare_path(p).len() <= p.len(),
    decreases p.len(),
{
    if p.len() > 1 && (p.last() == '/' || (p.last() == '.' && p[p.len() - 2] == '/')) {
        lemma_bare_twice(p.drop_last());
    }
}

/// What stands below a directory is found there under its name.
pub proof fn lemma_below(dir: Text, name: Text)
    requires
        bare_path(dir) == dir,
        name.len() > 0,
        !name.contains('/'),
        name.last() != '.',
    ensures
        path_name(below(dir, name)) == Some(name),
        path_dir(below(dir, name)) == dir,
{
    let p = below(dir, name);
    assert(name.contains(name.last()));
    assert(p.last() == name.last());
    assert(bare_path(p) == p);
    reveal_strlit(".");
    reveal_strlit("..");
    reveal_strlit("/");
    assert("."@.last() == '.' && ".."@.last() == '.');
    if dir.len() == 0 {
        lemma_rfind_none(name, '/');
        assert(dir =~= Seq::<char>::empty());
    } else if dir.last() == '/' {
        let d = dir.drop_last();
        lemma_bare_twice(d);
        assert(dir.len() == 1);
        assert(p =~= d + seq!['/'] + name);
        lemma_rfind_tail(d, name, '/');
        assert(p.skip(1) =~= name);
        assert(p.take(1) =~= dir);
    } else {
        assert(p =~= dir + seq!['/'] + name);
        lemma_rfind_tail(dir, name, '/');
        let k = dir.len() as int;
        assert(p.skip(k + 1) =~= name);
        let t = p.take(k + 1);
        assert(t =~= dir + seq!['/']);
        assert(t.drop_last() =~= dir);
        assert(t.last() == '/');
    }
}

/// A directory is cut, and a name holds no slash.
pub proof fn lemma_path_parts(p: Text)
    ensures
        bare_path(path_dir(p)) == path_dir(p),
        path_name(p) matches Some(n) ==> !n.contains('/'),
{
    let t = bare_path(p);
    lemma_rfind_last(t, '/');
    match rfind(t, '/') {
        Some(k) => {
            lemma_bare_twice(t.take(k + 1));
        },
        None => {},
    }
}

/// A path is made of a directory and a name, and comes apart into them.
pub proof fn law_path_comes_apart(dir: Text, name: Text)
    requires
        dir.len() > 0,
        dir.last() != '/',
        bare_path(dir) == dir,
        name.len() > 0,
        !name.contains('/'),
        name != "."@,
        name != ".."@,
    ensures
        path_name(below(dir, name)) == Some(name),
        path_dir(below(dir, name)) == dir,
{
    let t = dir + seq!['/'] + name;
    reveal_strlit("/");
    assert("/"@ =~= seq!['/']);
    assert(below(dir, name) == t);
    lemma_name_stays(dir, name);
    lemma_slash_goes(dir);
    crate::listen::lemma_rfind_behind(dir, '/', name);
    assert(t.skip(dir.len() as int + 1) =~= name);
    assert(t.take(dir.len() as int + 1) =~= dir + seq!['/']);
}

proof fn lemma_name_stays(dir: Text, name: Text)
    requires
        dir.len() > 0,
        name.len() > 0,
        !name.contains('/'),
        name != "."@,
    ensures
        bare_path(dir + seq!['/'] + name) == dir + seq!['/'] + name,
{
    let t = dir + seq!['/'] + name;
    reveal_strlit(".");
    assert(t.last() == name.last());
    assert(name.contains(name[name.len() - 1]));
    if t.last() == '.' && t[t.len() - 2] == '/' {
        if name.len() > 1 {
            assert(t[t.len() - 2] == name[name.len() - 2]);
            assert(name.contains(name[name.len() - 2]));
        } else {
            assert(name =~= "."@);
        }
    }
}

proof fn lemma_slash_goes(dir: Text)
    requires
        dir.len() > 0,
    ensures
        bare_path(dir + seq!['/']) == bare_path(dir),
{
    let d = dir + seq!['/'];
    assert(d.drop_last() =~= dir);
    assert(d.last() == '/');
}

/// What stands directly below a directory is written with one slash between.
pub proof fn law_one_slash_joins(dir: Text, name: Text)
    requires
        dir.len() > 0,
    ensures
        dir.last() == '/' ==> below(dir, name) == dir + name,
        dir.last() != '/' ==> below(dir, name) == dir + "/"@ + name,
        below(Seq::empty(), name) == name,
        name.is_suffix_of(below(dir, name)),
        dir.is_prefix_of(below(dir, name)),
{
    let t = below(dir, name);
    assert(t.subrange(t.len() - name.len(), t.len() as int) =~= name);
    assert(t.subrange(0, dir.len() as int) =~= dir);
}

} // verus!
