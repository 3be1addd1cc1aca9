//! Newer versions: how versions compare, and which release is told of.
use std::cmp::Ordering;

use vstd::prelude::*;

use crate::download::minus;
use crate::order::{lemma_text_total, lemma_text_trans, text_before, text_lt};
use crate::text::{
    find, lemma_find, lower, opt_text, parse, parsed, position, slice, split, split_on, texts,
    to_lower, trim, trim_start_char, trim_start_matches, trimmed, Text,
};

verus! {

broadcast use vstd::string::group_string_axioms;

/// How long an answer of the release page counts, in milliseconds.
pub const CHECK_TTL: u64 = 21_600_000;

/// A version; one with a label comes before the release.
#[derive(Debug, PartialEq, Eq)]
pub struct Version {
    pub major: u64,
    pub minor: u64,
    pub patch: u64,
    /// The label of a version before the release (`beta`, `beta.1`).
    pub pre: Option<String>,
}

/// The view of [`Version`].
#[verifier::ext_equal]
pub struct VersionView {
    pub major: u64,
    pub minor: u64,
    pub patch: u64,
    pub pre: Option<Text>,
}

impl View for Version {
    type V = VersionView;

    open spec fn view(&self) -> VersionView {
        VersionView {
            major: self.major,
            minor: self.minor,
            patch: self.patch,
            pre: opt_text(self.pre),
        }
    }
}

/// Whether a version comes before another.
pub open spec fn older(a: VersionView, b: VersionView) -> bool {
    if a.major != b.major {
        a.major < b.major
    } else if a.minor != b.minor {
        a.minor < b.minor
    } else if a.patch != b.patch {
        a.patch < b.patch
    } else {
        match (a.pre, b.pre) {
            (None, _) => false,
            (Some(_), None) => true,
            (Some(x), Some(y)) => text_lt(x, y),
        }
    }
}

/// How two versions compare.
pub open spec fn version_order(a: VersionView, b: VersionView) -> Ordering {
    if older(a, b) {
        Ordering::Less
    } else if older(b, a) {
        Ordering::Greater
    } else {
        Ordering::Equal
    }
}

impl Version {
    /// Whether this version comes before another.
    pub fn is_older(&self, other: &Version) -> (r: bool)
        ensures
            r == older(self@, other@),
    {
        if self.major != other.major {
            self.major < other.major
        } else if self.minor != other.minor {
            self.minor < other.minor
        } else if self.patch != other.patch {
            self.patch < other.patch
        } else {
            match (&self.pre, &other.pre) {
                (None, _) => false,
                (Some(_), None) => true,
                (Some(x), Some(y)) => text_before(x.as_str(), y.as_str()),
            }
        }
    }
}

impl vstd::std_specs::cmp::PartialOrdSpecImpl for Version {
    open spec fn obeys_partial_cmp_spec() -> bool {
        true
    }

    open spec fn partial_cmp_spec(&self, other: &Version) -> Option<Ordering> {
        Some(version_order(self@, other@))
    }
}

impl PartialOrd for Version {
    fn partial_cmp(&self, other: &Version) -> (r: Option<Ordering>) {
        if self.is_older(other) {
            Some(Ordering::Less)
        } else if other.is_older(self) {
            Some(Ordering::Greater)
        } else {
            Some(Ordering::Equal)
        }
    }
}

/// Versions are in one order: of two that differ exactly one is older, and
/// what is older than an older one is older.
pub proof fn law_versions_are_ordered(a: VersionView, b: VersionView, c: VersionView)
    ensures
        !older(a, a),
        a != b ==> older(a, b) != older(b, a),
        older(a, b) && older(b, c) ==> older(a, c),
        version_order(a, b) == Ordering::Equal <==> a == b,
{
    match (a.pre, b.pre, c.pre) {
        (Some(x), Some(y), Some(z)) => {
            lemma_text_total(x, x);
            lemma_text_total(x, y);
            if text_lt(x, y) && text_lt(y, z) {
                lemma_text_trans(x, y, z);
            }
        },
        (Some(x), Some(y), None) => {
            lemma_text_total(x, x);
            lemma_text_total(x, y);
        },
        (Some(x), _, _) => {
            lemma_text_total(x, x);
        },
        _ => {},
    }
    if !older(a, b) && !older(b, a) {
        assert(a =~= b);
    }
}

/// A version with a label comes before the release of the same number.
pub proof fn law_release_follows_its_previews(v: VersionView)
    requires
        v.pre is Some,
    ensures
        older(v, VersionView { pre: None, ..v }),
{
}

/// Part number `i` of a version; a missing one counts as zero.
pub open spec fn number_part(core: Text, i: int) -> Option<nat> {
    let parts = split_on(core, '.');
    parsed(
        if i < parts.len() {
            parts[i]
        } else {
            "0"@
        },
        u64::MAX as nat,
    )
}

/// The version that a text gives.
pub open spec fn version_of(raw: Text) -> Option<VersionView> {
    let s = trim_start_char(trimmed(raw), 'v');
    if s.len() == 0 {
        None
    } else {
        let (core, pre) = match find(s, "-"@) {
            Some(i) => (s.take(i), Some(lower(s.skip(i + 1)))),
            None => (s, None),
        };
        match (number_part(core, 0), number_part(core, 1), number_part(core, 2)) {
            (Some(major), Some(minor), Some(patch)) => Some(
                VersionView { major: major as u64, minor: minor as u64, patch: patch as u64, pre },
            ),
            _ => None,
        }
    }
}

/// The view of a version that may be missing.
pub open spec fn opt_version(v: Option<Version>) -> Option<VersionView> {
    match v {
        Some(x) => Some(x@),
        None => None,
    }
}

fn read_part(core: &str, i: usize) -> (r: Option<u64>)
    ensures
        match r {
            Some(n) => number_part(core@, i as int) == Some(n as nat),
            None => number_part(core@, i as int) is None,
        },
{
    let parts = split(core, '.');
    proof {
        assert(texts(parts@).len() == parts.len());
        if i < parts.len() {
            assert(texts(parts@)[i as int] == parts@[i as int]@);
        }
    }
    if i < parts.len() {
        parse(parts[i].as_str(), u64::MAX)
    } else {
        parse("0", u64::MAX)
    }
}

/// The version that a text gives.
pub fn parse_version(raw: &str) -> (r: Option<Version>)
    ensures
        opt_version(r) == version_of(raw@),
{
    let s = trim_start_matches(trim(raw).as_str(), 'v');
    let n: usize = s.as_str().unicode_len();
    if n == 0 {
        return None;
    }
    proof {
        reveal_strlit("-");
        lemma_find(s@, "-"@);
    }
    let (core, pre) = match position(s.as_str(), "-") {
        Some(i) => {
            let core = slice(s.as_str(), 0, i);
            let label = slice(s.as_str(), i + 1, n);
            proof {
                assert(core@ =~= s@.take(i as int));
                assert(label@ =~= s@.skip(i + 1));
            }
            (core, Some(to_lower(label.as_str())))
        },
        None => (s, None),
    };
    match (read_part(core.as_str(), 0), read_part(core.as_str(), 1), read_part(core.as_str(), 2)) {
        (Some(major), Some(minor), Some(patch)) => Some(Version { major, minor, patch, pre }),
        _ => None,
    }
}

/// A release as it is published.
#[derive(Debug)]
pub struct GhRelease {
    pub tag_name: String,
    pub name: String,
    pub html_url: String,
    pub draft: bool,
    pub prerelease: bool,
}

/// The view of [`GhRelease`].
pub struct ReleaseView {
    pub tag_name: Text,
    pub name: Text,
    pub html_url: Text,
    pub draft: bool,
    pub prerelease: bool,
}

impl View for GhRelease {
    type V = ReleaseView;

    open spec fn view(&self) -> ReleaseView {
        ReleaseView {
            tag_name: self.tag_name@,
            name: self.name@,
            html_url: self.html_url@,
            draft: self.draft,
            prerelease: self.prerelease,
        }
    }
}

/// The views of releases.
pub open spec fn releases(v: Seq<GhRelease>) -> Seq<ReleaseView> {
    v.map_values(|r: GhRelease| r@)
}

/// Whether a release is newer than a version.
pub open spec fn is_newer(r: ReleaseView, current: VersionView) -> bool {
    !r.draft && (version_of(r.tag_name) matches Some(v) && older(current, v))
}

/// The position of the newest release that is newer than a version; of equal
/// ones the first.
pub open spec fn newest(v: Seq<ReleaseView>, current: VersionView) -> Option<int>
    decreases v.len(),
{
    if v.len() == 0 {
        None
    } else {
        let before = newest(v.drop_last(), current);
        if !is_newer(v.last(), current) {
            before
        } else {
            match before {
                None => Some(v.len() - 1),
                Some(i) => if older(
                    version_of(v[i].tag_name)->0,
                    version_of(v.last().tag_name)->0,
                ) {
                    Some(v.len() - 1)
                } else {
                    Some(i)
                },
            }
        }
    }
}

/// What is told of a newer version.
#[derive(Debug)]
pub struct UpdateNotice {
    /// The tag as it is published (`v0.5.0`).
    pub tag: String,
    /// The version that runs (`0.4.0-beta`).
    pub current: String,
    pub name: String,
    pub html_url: String,
    pub prerelease: bool,
}

/// The view of [`UpdateNotice`].
#[verifier::ext_equal]
pub struct NoticeView {
    pub tag: Text,
    pub current: Text,
    pub name: Text,
    pub html_url: Text,
    pub prerelease: bool,
}

impl View for UpdateNotice {
    type V = NoticeView;

    open spec fn view(&self) -> NoticeView {
        NoticeView {
            tag: self.tag@,
            current: self.current@,
            name: self.name@,
            html_url: self.html_url@,
            prerelease: self.prerelease,
        }
    }
}

impl Clone for UpdateNotice {
    fn clone(&self) -> (r: UpdateNotice)
        ensures
            r@ == self@,
    {
        UpdateNotice {
            tag: self.tag.clone(),
            current: self.current.clone(),
            name: self.name.clone(),
            html_url: self.html_url.clone(),
            prerelease: self.prerelease,
        }
    }
}

/// The view of a notice that may be missing.
pub open spec fn opt_notice(n: Option<UpdateNotice>) -> Option<NoticeView> {
    match n {
        Some(x) => Some(x@),
        None => None,
    }
}

/// What is told of a release.
pub open spec fn notice_of(r: ReleaseView, current: Text) -> NoticeView {
    NoticeView {
        tag: r.tag_name,
        current: trim_start_char(trimmed(current), 'v'),
        name: if trimmed(r.name).len() == 0 {
            r.tag_name
        } else {
            r.name
        },
        html_url: r.html_url,
        prerelease: r.prerelease,
    }
}

/// What is told where a version runs and releases are published.
pub open spec fn update_for(current: Text, status: u16, v: Option<Seq<ReleaseView>>) -> Option<
    NoticeView,
> {
    match (version_of(current), v) {
        (Some(now), Some(all)) => if 200 <= status < 300 {
            match newest(all, now) {
                Some(i) => Some(notice_of(all[i], current)),
                None => None,
            }
        } else {
            None
        },
        _ => None,
    }
}

fn newest_release(v: &Vec<GhRelease>, current: &Version) -> (r: Option<usize>)
    ensures
        match r {
            Some(i) => newest(releases(v@), current@) == Some(i as int) && i < v.len(),
            None => newest(releases(v@), current@) is None,
        },
{
    let ghost all = releases(v@);
    let mut best: Option<(usize, Version)> = None;
    let mut i: usize = 0;
    proof {
        assert(all.take(0) =~= Seq::<ReleaseView>::empty());
    }
    while i < v.len()
        invariant
            i <= v.len(),
            all == releases(v@),
            match best {
                Some(b) => newest(all.take(i as int), current@) == Some(b.0 as int) && b.0 < i
                    && version_of(all[b.0 as int].tag_name) == Some(b.1@),
                None => newest(all.take(i as int), current@) is None,
            },
        decreases v.len() - i,
    {
        proof {
            assert(all.take(i + 1).drop_last() =~= all.take(i as int));
            assert(all.take(i + 1).last() == v@[i as int]@);
            assert(all[i as int] == v@[i as int]@);
            if best is Some {
                let k = (best->0).0 as int;
                assert(all.take(i + 1)[k] == all[k]);
            }
        }
        if !v[i].draft {
            match parse_version(v[i].tag_name.as_str()) {
                Some(tag) => {
                    if current.is_older(&tag) {
                        let better = match &best {
                            None => true,
                            Some(b) => b.1.is_older(&tag),
                        };
                        if better {
                            best = Some((i, tag));
                        }
                    }
                },
                None => {},
            }
        }
        i = i + 1;
    }
    proof {
        assert(all.take(v.len() as int) =~= all);
    }
    match best {
        Some((k, _)) => Some(k),
        None => None,
    }
}

/// The view of releases that may be missing.
pub open spec fn opt_releases(v: Option<Vec<GhRelease>>) -> Option<Seq<ReleaseView>> {
    match v {
        Some(x) => Some(releases(x@)),
        None => None,
    }
}

/// What is told of the release page's answer: its status, and the releases
/// where it could be read.
pub fn check_for_update(current: &str, status: u16, published: &Option<Vec<GhRelease>>) -> (r:
    Option<UpdateNotice>)
    ensures
        opt_notice(r) == update_for(current@, status, opt_releases(*published)),
{
    let now = match parse_version(current) {
        Some(v) => v,
        None => {
            return None;
        },
    };
    if !(200 <= status && status < 300) {
        return None;
    }
    let all = match published {
        Some(v) => v,
        None => {
            return None;
        },
    };
    let i: usize = match newest_release(all, &now) {
        Some(i) => i,
        None => {
            return None;
        },
    };
    let r = &all[i];
    proof {
        assert(releases(all@)[i as int] == r@);
    }
    let name = if trim(r.name.as_str()).as_str().unicode_len() == 0 {
        r.tag_name.clone()
    } else {
        r.name.clone()
    };
    Some(
        UpdateNotice {
            tag: r.tag_name.clone(),
            current: trim_start_matches(trim(current).as_str(), 'v'),
            name,
            html_url: r.html_url.clone(),
            prerelease: r.prerelease,
        },
    )
}

/// What is told of is published and newer than what runs, and nothing that is
/// published is newer still.
pub proof fn law_newest_is_told(v: Seq<ReleaseView>, current: VersionView)
    ensures
        match newest(v, current) {
            Some(i) => {
                &&& 0 <= i < v.len()
                &&& is_newer(v[i], current)
                &&& forall|k: int|
                    0 <= k < v.len() && is_newer(#[trigger] v[k], current) ==> !older(
                        version_of(v[i].tag_name)->0,
                        version_of(v[k].tag_name)->0,
                    )
            },
            None => forall|k: int| 0 <= k < v.len() ==> !is_newer(#[trigger] v[k], current),
        },
    decreases v.len(),
{
    if v.len() > 0 {
        let w = v.drop_last();
        law_newest_is_told(w, current);
        let last = v.last();
        match newest(v, current) {
            Some(i) => {
                let best = version_of(v[i].tag_name)->0;
                assert forall|k: int| 0 <= k < v.len() && is_newer(#[trigger] v[k], current) implies !older(
                    best,
                    version_of(v[k].tag_name)->0,
                ) by {
                    let it = version_of(v[k].tag_name)->0;
                    law_versions_are_ordered(best, it, best);
                    if k < w.len() {
                        assert(w[k] == v[k]);
                        match newest(w, current) {
                            Some(j) => {
                                let prev = version_of(w[j].tag_name)->0;
                                law_versions_are_ordered(prev, best, it);
                            },
                            None => {},
                        }
                    }
                }
            },
            None => {
                assert forall|k: int| 0 <= k < v.len() implies !is_newer(#[trigger] v[k], current) by {
                    if k < w.len() {
                        assert(w[k] == v[k]);
                    }
                }
            },
        }
    }
}

/// What the release page was last found to say, and when.
pub struct UpdateCache {
    pub checked_at: Option<u64>,
    pub notice: Option<UpdateNotice>,
    /// Whether the page is being asked.
    pub probing: bool,
}

/// The view of [`UpdateCache`].
#[verifier::ext_equal]
pub struct CacheView {
    pub checked_at: Option<u64>,
    pub notice: Option<NoticeView>,
    pub probing: bool,
}

impl View for UpdateCache {
    type V = CacheView;

    open spec fn view(&self) -> CacheView {
        CacheView {
            checked_at: self.checked_at,
            notice: opt_notice(self.notice),
            probing: self.probing,
        }
    }
}

/// Whether the page is to be asked at a moment.
pub open spec fn is_due(c: CacheView, now: u64) -> bool {
    !c.probing && (c.checked_at matches Some(at) ==> minus(now, at) >= CHECK_TTL)
}

impl Default for UpdateCache {
    fn default() -> (r: UpdateCache)
        ensures
            r@ == (CacheView { checked_at: None, notice: None, probing: false }),
    {
        UpdateCache { checked_at: None, notice: None, probing: false }
    }
}

impl UpdateCache {
    /// What was last found.
    pub fn peek(&self) -> (r: Option<UpdateNotice>)
        ensures
            opt_notice(r) == self@.notice,
    {
        match &self.notice {
            Some(n) => Some(n.clone()),
            None => None,
        }
    }

    /// Whether the page is to be asked.
    pub fn needs_refresh(&self, now: u64) -> (r: bool)
        ensures
            r == is_due(self@, now),
    {
        if self.probing {
            return false;
        }
        match self.checked_at {
            None => true,
            Some(at) => now >= at && now - at >= CHECK_TTL,
        }
    }

    /// Starts to ask the page, where it is to be asked.
    pub fn begin_probe(&mut self, now: u64) -> (r: bool)
        ensures
            r == is_due(old(self)@, now),
            final(self)@ == (CacheView {
                probing: old(self)@.probing || r,
                ..old(self)@
            }),
    {
        if !self.needs_refresh(now) {
            return false;
        }
        self.probing = true;
        true
    }

    /// Files what was found.
    pub fn finish_probe(&mut self, notice: Option<UpdateNotice>, now: u64)
        ensures
            final(self)@ == (CacheView {
                checked_at: Some(now),
                notice: opt_notice(notice),
                probing: false,
            }),
    {
        self.checked_at = Some(now);
        self.notice = notice;
        self.probing = false;
    }

    /// Gives up asking.
    pub fn clear_probe_flag(&mut self)
        ensures
            final(self)@ == (CacheView { probing: false, ..old(self)@ }),
    {
        self.probing = false;
    }
}

/// The page is asked by one at a time, and not again before its answer is old.
pub proof fn law_page_is_asked_once(c: CacheView, at: u64, now: u64)
    ensures
        is_due(c, at) ==> !is_due(CacheView { probing: true, ..c }, now),
        at <= now < at + CHECK_TTL ==> !is_due(
            CacheView { checked_at: Some(at), probing: false, ..c },
            now,
        ),
{
}

/// Of two versions the one with the higher number in the first place where they
/// differ is the newer; a label counts only where all numbers agree.
pub proof fn law_higher_numbers_are_newer(a: VersionView, b: VersionView)
    ensures
        a.major < b.major ==> older(a, b),
        a.major == b.major && a.minor < b.minor ==> older(a, b),
        a.major == b.major && a.minor == b.minor && a.patch < b.patch ==> older(a, b),
        older(a, b) ==> a.major <= b.major,
        older(a, b) && a.major == b.major ==> a.minor <= b.minor,
        older(a, b) && a.major == b.major && a.minor == b.minor ==> a.patch <= b.patch,
{
}

/// A version reads back from its three numbers, with or without a `v` in front.
pub proof fn law_version_reads_back(major: u64, minor: u64, patch: u64)
    ensures
        ({
            let t = crate::text::decimal(major as nat) + "."@ + crate::text::decimal(minor as nat)
                + "."@ + crate::text::decimal(patch as nat);
            let v = VersionView { major, minor, patch, pre: None };
            version_of(t) == Some(v) && version_of("v"@ + t) == Some(v)
        }),
{
    let a = crate::text::decimal(major as nat);
    let b = crate::text::decimal(minor as nat);
    let c = crate::text::decimal(patch as nat);
    let t = a + "."@ + b + "."@ + c;
    lemma_three_parts(a, b, c);
    lemma_digits_only(major);
    lemma_digits_only(minor);
    lemma_digits_only(patch);
    reveal_strlit(".");
    reveal_strlit("-");
    reveal_strlit("v");
    assert(t[0] == a[0]);
    assert(t.last() == c.last());
    assert('0' <= a[0] <= '9');
    assert('0' <= c[c.len() - 1] <= '9');
    assert(trimmed(t) == t);
    let w = "v"@ + t;
    assert(w[0] == 'v' && w.last() == t.last());
    assert(trimmed(w) == w);
    assert(trim_start_char(t, 'v') == t);
    assert(w.drop_first() =~= t);
    assert(trim_start_char(w, 'v') == t);
    assert forall|i: int| 0 <= i < t.len() implies t[i] != '-' by {
        if i < a.len() {
            assert(t[i] == a[i]);
        } else if i == a.len() {
            assert(t[i] == '.');
        } else if i < a.len() + 1 + b.len() {
            assert(t[i] == b[i - a.len() - 1]);
        } else if i == a.len() + 1 + b.len() {
            assert(t[i] == '.');
        } else {
            assert(t[i] == c[i - a.len() - b.len() - 2]);
        }
    }
    lemma_find(t, "-"@);
    if let Some(k) = find(t, "-"@) {
        assert(t.subrange(k, k + 1)[0] == t[k]);
    }
}

proof fn lemma_digits_only(n: u64)
    ensures
        crate::text::decimal(n as nat).len() > 0,
        forall|i: int|
            0 <= i < crate::text::decimal(n as nat).len() ==> '0' <= #[trigger] crate::text::decimal(
                n as nat,
            )[i] <= '9',
        !crate::text::decimal(n as nat).contains('.'),
        parsed(crate::text::decimal(n as nat), u64::MAX as nat) == Some(n as nat),
{
    let d = crate::text::decimal(n as nat);
    crate::text::lemma_decimal(n as nat);
    assert(d[0] != '+');
    if d.contains('.') {
        let i = choose|i: int| 0 <= i < d.len() && d[i] == '.';
    }
}

proof fn lemma_three_parts(a: Text, b: Text, c: Text)
    ensures
        !a.contains('.') && !b.contains('.') && !c.contains('.') ==> split_on(
            a + "."@ + b + "."@ + c,
            '.',
        ) == seq![a, b, c],
{
    if !a.contains('.') && !b.contains('.') && !c.contains('.') {
        let p = seq![a, b, c];
        reveal_strlit(".");
        reveal_with_fuel(crate::text::joined, 4);
        assert(p.drop_last() =~= seq![a, b]);
        assert(p.drop_last().drop_last() =~= seq![a]);
        assert("."@ =~= seq!['.']);
        assert(crate::text::joined(p, seq!['.']) =~= a + "."@ + b + "."@ + c);
        crate::text::lemma_split_joined(p, '.');
    }
}

/// The notice tells of the release: its tag, its page, its name or, where it has
/// none, its tag.
pub proof fn law_notice_tells_of_the_release(r: ReleaseView, current: Text)
    ensures
        notice_of(r, current).tag == r.tag_name,
        notice_of(r, current).html_url == r.html_url,
        notice_of(r, current).prerelease == r.prerelease,
        trimmed(r.name).len() > 0 ==> notice_of(r, current).name == r.name,
        trimmed(r.name).len() == 0 ==> notice_of(r, current).name == r.tag_name,
{
}

} // verus!
