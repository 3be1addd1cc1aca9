//! Linked LLMs: OpenAI-compatible servers on other devices.
use vstd::prelude::*;

use crate::fresh::{generate_remote_id, is_id, Clock, Fresh, FreshView};
use crate::keys::{clean_name, sanitize_key_name};
use crate::network::{
    links, InferenceMode, LinkedRemote, NetworkConfig, NetworkView, RemoteView, MAX_ENTRIES,
};
use crate::text::{
    contains, ends_with, index_in, is_space, lemma_index_in, lemma_trim_idempotent,
    lemma_trimmed_ends, occurs, occurs_at, opt_text, same, split, split_on, texts, trim, trim_end,
    trim_end_char, trim_end_matches, trim_prefix, trim_prefixes, trim_suffix, trim_suffixes,
    trimmed, Text,
};

verus! {

broadcast use vstd::string::group_string_axioms;

/// The base URL of an OpenAI-compatible API: with a scheme, ending in `/v1`
/// and without a slash after it. `None` where nothing was given.
pub open spec fn openai_base(raw: Text) -> Option<Text> {
    let t = trim_end_char(trimmed(raw), '/');
    if t.len() == 0 {
        None
    } else {
        let b = if occurs(t, "://"@) {
            t
        } else {
            "http://"@ + t
        };
        Some(
            if "/v1"@.is_suffix_of(b) {
                b
            } else {
                b + "/v1"@
            },
        )
    }
}

/// The base URL of an OpenAI-compatible API, made complete.
pub fn normalize_openai_base(raw: &str) -> (r: Option<String>)
    ensures
        opt_text(r) == openai_base(raw@),
{
    let t = trim_end_matches(trim(raw).as_str(), '/');
    if t.as_str().is_empty() {
        return None;
    }
    let mut base = if contains(t.as_str(), "://") {
        t
    } else {
        let mut b = "http://".to_owned();
        b.append(t.as_str());
        b
    };
    if !ends_with(base.as_str(), "/v1") {
        base.append("/v1");
    }
    Some(base)
}

proof fn lemma_trim_end_char(s: Text, c: char)
    ensures
        trim_end_char(s, c).len() <= s.len(),
        trim_end_char(s, c) == s.take(trim_end_char(s, c).len() as int),
    decreases s.len(),
{
    if s.len() > 0 && s.last() == c {
        lemma_trim_end_char(s.drop_last(), c);
        let n = trim_end_char(s, c).len() as int;
        assert(s.drop_last().take(n) =~= s.take(n));
    } else {
        assert(s.take(s.len() as int) =~= s);
    }
}

/// A complete base URL stays as it is, and is no blank.
pub proof fn law_openai_base_stable(raw: Text)
    ensures
        openai_base(raw) matches Some(b) ==> openai_base(b) == Some(b) && b.len() > 0 && trimmed(b)
            == b,
{
    reveal_strlit("://");
    reveal_strlit("http://");
    reveal_strlit("/v1");
    let t = trim_end_char(trimmed(raw), '/');
    if t.len() > 0 {
        let b = if occurs(t, "://"@) {
            t
        } else {
            "http://"@ + t
        };
        let c = openai_base(raw)->0;
        lemma_trimmed_ends(raw);
        lemma_trim_end_char(trimmed(raw), '/');
        assert(t[0] == trimmed(raw)[0]);
        assert(!is_space(b[0]));
        assert(c[0] == b[0]);
        assert(c.last() == '1') by {
            if "/v1"@.is_suffix_of(b) {
                assert(b.subrange(b.len() - 3, b.len() as int)[2] == "/v1"@[2]);
            }
        }
        assert(trimmed(c) == c);
        assert(trim_end_char(c, '/') == c);
        assert(occurs(b, "://"@)) by {
            if !occurs(t, "://"@) {
                assert(b.subrange(4, 7) =~= "://"@);
                assert(occurs_at(b, "://"@, 4));
            }
        }
        let i = choose|i: int| occurs_at(b, "://"@, i);
        assert(c.subrange(i, i + 3) =~= b.subrange(i, i + 3));
        assert(occurs_at(c, "://"@, i));
        assert("/v1"@.is_suffix_of(c)) by {
            if !"/v1"@.is_suffix_of(b) {
                assert(c.subrange(c.len() - 3, c.len() as int) =~= "/v1"@);
            }
        }
    }
}

/// The name that a base URL suggests: its host.
pub open spec fn base_label(base: Text) -> Text {
    let t = trim_suffix(
        trim_end_char(trim_prefix(trim_prefix(trimmed(base), "https://"@), "http://"@), '/'),
        "/v1"@,
    );
    let host = split_on(t, '/')[0];
    let label = clean_name(split_on(host, ':')[0]);
    if label.len() == 0 {
        "Linked LLM"@
    } else {
        label
    }
}

/// The part of `s` before the first `c`.
fn before(s: &str, c: char) -> (out: String)
    ensures
        out@ == split_on(s@, c)[0],
{
    let p = split(s, c);
    proof {
        assert(texts(p@)[0] == p@[0]@);
    }
    p[0].clone()
}

/// The name that a base URL suggests.
pub fn label_from_remote_base(base: &str) -> (out: String)
    ensures
        out@ == base_label(base@),
{
    let a = trim_prefixes(trim(base).as_str(), "https://");
    let b = trim_end_matches(trim_prefixes(a.as_str(), "http://").as_str(), '/');
    let c = trim_suffixes(b.as_str(), "/v1");
    let host = before(c.as_str(), '/');
    let label = sanitize_key_name(before(host.as_str(), ':').as_str());
    if label.as_str().is_empty() {
        "Linked LLM".to_owned()
    } else {
        label
    }
}

impl LinkedRemote {
    /// A new link with an identifier of its own.
    pub fn new(name: &str, base: &str, token: &str, clock: &Clock) -> (r: LinkedRemote)
        ensures
            r@.name == clean_name(name@),
            r@.base == base@,
            r@.token == token@,
            crate::fresh::is_id(r@.id, "remote-"@, *clock),
    {
        LinkedRemote {
            id: generate_remote_id(clock),
            name: sanitize_key_name(name),
            base: base.to_owned(),
            token: token.to_owned(),
        }
    }
}

/// The identifiers of a list of links.
pub open spec fn link_ids(r: Seq<RemoteView>) -> Seq<Text> {
    Seq::new(r.len(), |i: int| r[i].id)
}

/// The complete base URL, or the text itself where there is none.
pub open spec fn base_or_self(base: Text) -> Text {
    match openai_base(base) {
        Some(b) => b,
        None => base,
    }
}

/// The complete base URLs of a list of links.
pub open spec fn link_bases(r: Seq<RemoteView>) -> Seq<Text> {
    Seq::new(r.len(), |i: int| base_or_self(r[i].base))
}

/// A link fit to keep: with an identifier, a clean name and a complete base.
pub open spec fn tidied(r: RemoteView, id: Text) -> RemoteView {
    RemoteView {
        id: if trimmed(r.id).len() == 0 {
            id
        } else {
            r.id
        },
        name: if trimmed(r.name).len() == 0 {
            base_label(r.base)
        } else {
            clean_name(r.name)
        },
        base: base_or_self(r.base),
        token: r.token,
    }
}

/// The links that have a base URL.
pub open spec fn based(r: Seq<RemoteView>) -> Seq<RemoteView>
    decreases r.len(),
{
    if r.len() == 0 {
        Seq::empty()
    } else {
        let init = based(r.drop_last());
        if trimmed(r.last().base).len() == 0 {
            init
        } else {
            init.push(r.last())
        }
    }
}

/// The links made tidy, with identifiers for those that lack one.
pub open spec fn tidy_links(r: Seq<RemoteView>, ids: Seq<Text>) -> Seq<RemoteView> {
    Seq::new(r.len(), |i: int| tidied(r[i], ids[i]))
}

/// The link that the single remote of older settings files becomes.
pub open spec fn legacy_link(n: NetworkView, fresh: FreshView) -> RemoteView {
    let base = trimmed(n.remote_base);
    RemoteView {
        id: fresh.legacy_remote_id,
        name: clean_name(base_label(base)),
        base: base_or_self(base),
        token: n.remote_token,
    }
}

/// The settings after the single remote of older files became a link, where
/// there is none yet.
pub open spec fn folded(n: NetworkView, fresh: FreshView) -> NetworkView {
    if n.remotes.len() == 0 && trimmed(n.remote_base).len() > 0 {
        NetworkView {
            remotes: seq![legacy_link(n, fresh)],
            active_remote_id: fresh.legacy_remote_id,
            ..n
        }
    } else {
        n
    }
}

/// The identifier of the first link; empty where there is none.
pub open spec fn first_link(r: Seq<RemoteView>) -> Text {
    if r.len() > 0 {
        r[0].id
    } else {
        Seq::empty()
    }
}

/// The active identifier where it names a link, else that of the first link.
pub open spec fn settled(active: Text, r: Seq<RemoteView>) -> Text {
    if trimmed(active).len() == 0 || !link_ids(r).contains(active) {
        first_link(r)
    } else {
        active
    }
}

/// Which link is active: the one named, else the first.
pub open spec fn active_index(n: NetworkView) -> int {
    let i = index_in(link_ids(n.remotes), n.active_remote_id);
    if i < n.remotes.len() {
        i
    } else {
        0
    }
}

/// The active link.
pub open spec fn active_link(n: NetworkView) -> Option<RemoteView> {
    if n.remotes.len() == 0 {
        None
    } else {
        Some(n.remotes[active_index(n)])
    }
}

/// The settings with the single remote of older files following the active
/// link.
pub open spec fn mirrored(n: NetworkView) -> NetworkView {
    match active_link(n) {
        Some(r) => NetworkView { remote_base: r.base, remote_token: r.token, ..n },
        None => NetworkView { remote_base: Seq::empty(), remote_token: Seq::empty(), ..n },
    }
}

/// The settings with the links made consistent.
pub open spec fn migrated_links(n: NetworkView, fresh: FreshView) -> NetworkView {
    let f = folded(n, fresh);
    let r = tidy_links(based(f.remotes), fresh.remote_ids);
    mirrored(NetworkView { remotes: r, active_remote_id: settled(f.active_remote_id, r), ..f })
}

/// Whether the identifiers suffice for the links there are, and a few more.
pub open spec fn enough(n: NetworkView, fresh: FreshView) -> bool {
    fresh.remote_ids.len() >= n.remotes.len() + 2
}

/// The settings after a link became the active one.
pub open spec fn activated(m: NetworkView, id: Text) -> NetworkView {
    mirrored(
        NetworkView { active_remote_id: id, inference_mode: InferenceMode::Remote, ..m },
    )
}

/// What a request to save a link asks for.
pub struct LinkRequest {
    pub id: Option<Text>,
    pub name: Text,
    pub base: Text,
    pub token: Option<Text>,
    pub activate: bool,
}

/// The name to save: the one given, else the one that the base suggests.
pub open spec fn link_name(name: Text, base: Text) -> Text {
    if clean_name(name).len() == 0 {
        base_label(base)
    } else {
        clean_name(name)
    }
}

/// Which link a request to save is about: the one named, else one of the same
/// base.
pub open spec fn link_target(m: NetworkView, q: LinkRequest, base: Text) -> Option<Text> {
    match q.id {
        Some(id) => Some(id),
        None => {
            let i = index_in(link_bases(m.remotes), base);
            if i < m.remotes.len() {
                Some(m.remotes[i].id)
            } else {
                None
            }
        },
    }
}

/// The link after it was saved again.
pub open spec fn resaved(r: RemoteView, q: LinkRequest, base: Text) -> RemoteView {
    RemoteView {
        id: r.id,
        name: link_name(q.name, base),
        base,
        token: match q.token {
            Some(t) => t,
            None => r.token,
        },
    }
}

/// The link that a request to save adds.
pub open spec fn added_link(q: LinkRequest, base: Text, id: Text) -> RemoteView {
    RemoteView {
        id,
        name: clean_name(link_name(q.name, base)),
        base,
        token: match q.token {
            Some(t) => t,
            None => Seq::empty(),
        },
    }
}

/// What saving a link gives, from settings whose links are consistent.
pub open spec fn saved_link(m: NetworkView, q: LinkRequest, fresh: FreshView) -> (
    Result<RemoteView, Text>,
    NetworkView,
) {
    match openai_base(q.base) {
        None => (Err("Enter an API base URL (usually ending in /v1)."@), m),
        Some(base) => match link_target(m, q, base) {
            Some(id) => {
                let i = index_in(link_ids(m.remotes), id);
                if i < m.remotes.len() {
                    let r = resaved(m.remotes[i], q, base);
                    let u = NetworkView { remotes: m.remotes.update(i, r), ..m };
                    (
                        Ok(r),
                        mirrored(
                            if q.activate {
                                NetworkView {
                                    active_remote_id: r.id,
                                    inference_mode: InferenceMode::Remote,
                                    ..u
                                }
                            } else {
                                u
                            },
                        ),
                    )
                } else {
                    (Err("Linked LLM not found."@), m)
                }
            },
            None => {
                if m.remotes.len() >= MAX_ENTRIES {
                    (Err("Maximum of 32 linked LLMs reached."@), m)
                } else {
                    let r = added_link(q, base, fresh.remote_id);
                    let u = NetworkView { remotes: m.remotes.push(r), ..m };
                    (
                        Ok(r),
                        mirrored(
                            NetworkView {
                                active_remote_id: if q.activate || u.remotes.len() == 1 {
                                    r.id
                                } else {
                                    u.active_remote_id
                                },
                                inference_mode: if q.activate {
                                    InferenceMode::Remote
                                } else {
                                    u.inference_mode
                                },
                                ..u
                            },
                        ),
                    )
                }
            },
        },
    }
}

/// The links without those of one identifier.
pub open spec fn links_without(r: Seq<RemoteView>, id: Text) -> Seq<RemoteView>
    decreases r.len(),
{
    if r.len() == 0 {
        Seq::empty()
    } else {
        let init = links_without(r.drop_last(), id);
        if r.last().id == id {
            init
        } else {
            init.push(r.last())
        }
    }
}

/// The settings after a link was removed: the first that is left becomes
/// active, and chat is local again where none is left.
pub open spec fn unlinked(m: NetworkView, id: Text) -> NetworkView {
    let r = links_without(m.remotes, id);
    if m.active_remote_id == id {
        mirrored(
            NetworkView {
                remotes: r,
                active_remote_id: first_link(r),
                inference_mode: if r.len() == 0 {
                    InferenceMode::Local
                } else {
                    m.inference_mode
                },
                ..m
            },
        )
    } else {
        mirrored(NetworkView { remotes: r, ..m })
    }
}

/// The first link of an identifier.
pub fn find_link(v: &Vec<LinkedRemote>, id: &str) -> (r: Option<usize>)
    ensures
        match r {
            Some(i) => i == index_in(link_ids(links(v@)), id@) && i < v.len(),
            None => !link_ids(links(v@)).contains(id@) && index_in(link_ids(links(v@)), id@)
                == v.len(),
        },
{
    let ghost ids = link_ids(links(v@));
    proof {
        lemma_index_in(ids, id@);
    }
    let mut i: usize = 0;
    while i < v.len()
        invariant
            i <= v.len(),
            ids == link_ids(links(v@)),
            forall|j: int| 0 <= j < i ==> ids[j] != id@,
            0 <= index_in(ids, id@) <= ids.len(),
            index_in(ids, id@) < ids.len() ==> ids[index_in(ids, id@)] == id@,
            forall|j: int| 0 <= j < index_in(ids, id@) ==> ids[j] != id@,
        decreases v.len() - i,
    {
        proof {
            assert(ids[i as int] == v@[i as int].id@);
        }
        if same(v[i].id.as_str(), id) {
            return Some(i);
        }
        i = i + 1;
    }
    None
}

fn complete_base(base: &str) -> (out: String)
    ensures
        out@ == base_or_self(base@),
{
    match normalize_openai_base(base) {
        Some(b) => b,
        None => base.to_owned(),
    }
}

fn find_base(v: &Vec<LinkedRemote>, base: &str) -> (r: Option<usize>)
    ensures
        match r {
            Some(i) => i == index_in(link_bases(links(v@)), base@) && i < v.len(),
            None => index_in(link_bases(links(v@)), base@) == v.len(),
        },
{
    let ghost all = link_bases(links(v@));
    proof {
        lemma_index_in(all, base@);
    }
    let mut i: usize = 0;
    while i < v.len()
        invariant
            i <= v.len(),
            all == link_bases(links(v@)),
            forall|j: int| 0 <= j < i ==> all[j] != base@,
            0 <= index_in(all, base@) <= all.len(),
            index_in(all, base@) < all.len() ==> all[index_in(all, base@)] == base@,
            forall|j: int| 0 <= j < index_in(all, base@) ==> all[j] != base@,
        decreases v.len() - i,
    {
        proof {
            assert(all[i as int] == base_or_self(v@[i as int].base@));
        }
        if same(complete_base(v[i].base.as_str()).as_str(), base) {
            return Some(i);
        }
        i = i + 1;
    }
    None
}

fn tidy(r: &LinkedRemote, id: &str) -> (out: LinkedRemote)
    ensures
        out@ == tidied(r@, id@),
{
    let new_id = if trim(r.id.as_str()).as_str().is_empty() {
        id.to_owned()
    } else {
        r.id.clone()
    };
    let name = if trim(r.name.as_str()).as_str().is_empty() {
        label_from_remote_base(r.base.as_str())
    } else {
        sanitize_key_name(r.name.as_str())
    };
    LinkedRemote {
        id: new_id,
        name,
        base: complete_base(r.base.as_str()),
        token: r.token.clone(),
    }
}

proof fn lemma_based_len(r: Seq<RemoteView>)
    ensures
        based(r).len() <= r.len(),
    decreases r.len(),
{
    if r.len() > 0 {
        lemma_based_len(r.drop_last());
    }
}

proof fn lemma_based_mono(r: Seq<RemoteView>, k: int)
    requires
        0 <= k <= r.len(),
    ensures
        based(r.take(k)).len() <= k,
{
    lemma_based_len(r.take(k));
}

impl NetworkConfig {
    /// Makes the links consistent: folds in the single remote of older
    /// settings files, drops links without a base, tidies the others, and
    /// settles which one is active.
    pub fn migrate_remotes(&mut self, fresh: &Fresh)
        requires
            enough(old(self)@, fresh@),
        ensures
            final(self)@ == migrated_links(old(self)@, fresh@),
    {
        let ghost before_all = self@;
        if self.remotes.len() == 0 {
            let base = trim(self.remote_base.as_str());
            if !base.as_str().is_empty() {
                let label = label_from_remote_base(base.as_str());
                let link = LinkedRemote {
                    id: fresh.legacy_remote_id.clone(),
                    name: sanitize_key_name(label.as_str()),
                    base: complete_base(base.as_str()),
                    token: self.remote_token.clone(),
                };
                self.active_remote_id = fresh.legacy_remote_id.clone();
                self.remotes.push(link);
                proof {
                    assert(links(self.remotes@) =~= seq![legacy_link(before_all, fresh@)]);
                }
            }
        }
        let ghost f = self@;
        assert(f == folded(before_all, fresh@));
        let ghost all = f.remotes;
        let ghost ids = fresh@.remote_ids;
        let mut kept: Vec<LinkedRemote> = Vec::new();
        let mut i: usize = 0;
        proof {
            assert(links(kept@) =~= tidy_links(based(all.take(0)), ids));
        }
        while i < self.remotes.len()
            invariant
                i <= self.remotes.len(),
                self@ == f,
                all == links(self.remotes@),
                ids == texts(fresh.remote_ids@),
                self.remotes.len() < fresh.remote_ids.len(),
                links(kept@) == tidy_links(based(all.take(i as int)), ids),
            decreases self.remotes.len() - i,
        {
            let ghost was = links(kept@);
            proof {
                assert(all.take(i + 1).drop_last() =~= all.take(i as int));
                assert(all.take(i + 1).last() == self.remotes@[i as int]@);
                lemma_based_mono(all, i as int);
            }
            if !trim(self.remotes[i].base.as_str()).as_str().is_empty() {
                let k: usize = kept.len();
                proof {
                    assert(links(kept@).len() == based(all.take(i as int)).len());
                }
                let t = tidy(&self.remotes[i], fresh.remote_ids[k].as_str());
                let ghost tv = t@;
                proof {
                    assert(ids[k as int] == fresh.remote_ids@[k as int]@);
                }
                kept.push(t);
                proof {
                    assert(links(kept@) =~= was.push(tv));
                    assert(links(kept@) =~= tidy_links(based(all.take(i + 1)), ids));
                }
            }
            i = i + 1;
        }
        proof {
            assert(all.take(all.len() as int) =~= all);
        }
        self.remotes = kept;
        let missing = find_link(&self.remotes, self.active_remote_id.as_str()).is_none();
        if trim(self.active_remote_id.as_str()).as_str().is_empty() || missing {
            if self.remotes.len() > 0 {
                self.active_remote_id = self.remotes[0].id.clone();
            } else {
                self.active_remote_id = String::new();
            }
        }
        proof {
            lemma_index_in(link_ids(links(self.remotes@)), f.active_remote_id);
        }
        self.sync_legacy_remote_fields();
    }

    fn sync_legacy_remote_fields(&mut self)
        ensures
            final(self)@ == mirrored(old(self)@),
    {
        let (base, token) = match self.active_remote() {
            Some(r) => (r.base.clone(), r.token.clone()),
            None => (String::new(), String::new()),
        };
        self.remote_base = base;
        self.remote_token = token;
    }

    /// The link that chat uses.
    pub fn active_remote(&self) -> (r: Option<&LinkedRemote>)
        ensures
            match r {
                Some(x) => active_link(self@) == Some(x@),
                None => active_link(self@) is None,
            },
    {
        if self.remotes.len() == 0 {
            return None;
        }
        match find_link(&self.remotes, self.active_remote_id.as_str()) {
            Some(i) => Some(&self.remotes[i]),
            None => Some(&self.remotes[0]),
        }
    }

    /// The link that chat uses, to change; it is the active one from then on.
    pub fn active_remote_mut(&mut self) -> (r: Option<&mut LinkedRemote>)
        ensures
            match r {
                Some(x) => {
                    let i = active_index(old(self)@);
                    &&& old(self)@.remotes.len() > 0
                    &&& x@ == old(self)@.remotes[i]
                    &&& final(self)@ == (NetworkView {
                        active_remote_id: x@.id,
                        remotes: old(self)@.remotes.update(i, final(x)@),
                        ..old(self)@
                    })
                },
                None => old(self)@.remotes.len() == 0 && final(self)@ == old(self)@,
            },
    {
        if self.remotes.len() == 0 {
            return None;
        }
        let i: usize = match find_link(&self.remotes, self.active_remote_id.as_str()) {
            Some(k) => k,
            None => 0,
        };
        let id = self.remotes[i].id.clone();
        self.active_remote_id = id;
        let ghost all = self@.remotes;
        proof {
            assert forall|r: LinkedRemote|
                links(#[trigger] self.remotes@.update(i as int, r)) == all.update(i as int, r@) by {
                assert(links(self.remotes@.update(i as int, r)) =~= all.update(i as int, r@));
            }
        }
        Some(&mut self.remotes[i])
    }

    /// Makes a link the one that chat uses.
    pub fn set_active_remote(&mut self, id: &str, fresh: &Fresh) -> (r: Result<(), String>)
        requires
            enough(old(self)@, fresh@),
        ensures
            ({
                let m = migrated_links(old(self)@, fresh@);
                if link_ids(m.remotes).contains(id@) {
                    r is Ok && final(self)@ == activated(m, id@)
                } else {
                    r matches Err(e) && e@ == "Linked LLM not found."@ && final(self)@ == m
                }
            }),
    {
        self.migrate_remotes(fresh);
        proof {
            lemma_index_in(link_ids(self@.remotes), id@);
        }
        if find_link(&self.remotes, id).is_none() {
            return Err("Linked LLM not found.".to_owned());
        }
        self.active_remote_id = id.to_owned();
        self.inference_mode = InferenceMode::Remote;
        self.sync_legacy_remote_fields();
        Ok(())
    }

    /// Saves a link: the one of the identifier, else one of the same base, else
    /// a new one.
    pub fn upsert_remote(
        &mut self,
        id: Option<&str>,
        name: &str,
        base: &str,
        token: Option<&str>,
        activate: bool,
        fresh: &Fresh,
    ) -> (r: Result<LinkedRemote, String>)
        requires
            enough(old(self)@, fresh@),
        ensures
            ({
                let q = link_request(id, name, base, token, activate);
                let (want, n) = saved_link(migrated_links(old(self)@, fresh@), q, fresh@);
                &&& final(self)@ == n
                &&& match (r, want) {
                    (Ok(x), Ok(y)) => x@ == y,
                    (Err(x), Err(y)) => x@ == y,
                    _ => false,
                }
            }),
    {
        self.migrate_remotes(fresh);
        let ghost m = self@;
        let ghost q = link_request(id, name, base, token, activate);
        let nb = match normalize_openai_base(base) {
            Some(b) => b,
            None => {
                return Err("Enter an API base URL (usually ending in /v1).".to_owned());
            },
        };
        let clean = sanitize_key_name(name);
        let cleaned = if clean.as_str().is_empty() {
            label_from_remote_base(nb.as_str())
        } else {
            clean
        };
        let target: Option<String> = match id {
            Some(x) => Some(x.to_owned()),
            None => match find_base(&self.remotes, nb.as_str()) {
                Some(i) => Some(self.remotes[i].id.clone()),
                None => None,
            },
        };
        match target {
            Some(x) => match find_link(&self.remotes, x.as_str()) {
                None => Err("Linked LLM not found.".to_owned()),
                Some(i) => {
                    let new_token = match token {
                        Some(t) => t.to_owned(),
                        None => self.remotes[i].token.clone(),
                    };
                    let link = LinkedRemote {
                        id: self.remotes[i].id.clone(),
                        name: cleaned,
                        base: nb,
                        token: new_token,
                    };
                    let copy = link.clone();
                    self.remotes.set(i, link);
                    proof {
                        assert(links(self.remotes@) =~= m.remotes.update(i as int, copy@));
                    }
                    if activate {
                        self.active_remote_id = copy.id.clone();
                        self.inference_mode = InferenceMode::Remote;
                    }
                    self.sync_legacy_remote_fields();
                    Ok(copy)
                },
            },
            None => {
                if self.remotes.len() >= MAX_ENTRIES {
                    return Err("Maximum of 32 linked LLMs reached.".to_owned());
                }
                let new_token = match token {
                    Some(t) => t.to_owned(),
                    None => String::new(),
                };
                let link = LinkedRemote {
                    id: fresh.remote_id.clone(),
                    name: sanitize_key_name(cleaned.as_str()),
                    base: nb,
                    token: new_token,
                };
                let copy = link.clone();
                self.remotes.push(link);
                proof {
                    assert(links(self.remotes@) =~= m.remotes.push(copy@));
                }
                if activate || self.remotes.len() == 1 {
                    self.active_remote_id = copy.id.clone();
                    if activate {
                        self.inference_mode = InferenceMode::Remote;
                    }
                }
                self.sync_legacy_remote_fields();
                Ok(copy)
            },
        }
    }

    /// Removes a link.
    pub fn delete_remote(&mut self, id: &str, fresh: &Fresh) -> (r: Result<(), String>)
        requires
            enough(old(self)@, fresh@),
        ensures
            ({
                let m = migrated_links(old(self)@, fresh@);
                if link_ids(m.remotes).contains(id@) {
                    r is Ok && final(self)@ == unlinked(m, id@)
                } else {
                    r matches Err(e) && e@ == "Linked LLM not found."@ && final(self)@ == m
                }
            }),
    {
        self.migrate_remotes(fresh);
        let ghost m = self@;
        proof {
            lemma_index_in(link_ids(self@.remotes), id@);
        }
        if find_link(&self.remotes, id).is_none() {
            return Err("Linked LLM not found.".to_owned());
        }
        let ghost all = m.remotes;
        let mut kept: Vec<LinkedRemote> = Vec::new();
        let mut i: usize = 0;
        proof {
            assert(links(kept@) =~= links_without(all.take(0), id@));
        }
        while i < self.remotes.len()
            invariant
                i <= self.remotes.len(),
                self@ == m,
                all == links(self.remotes@),
                links(kept@) == links_without(all.take(i as int), id@),
            decreases self.remotes.len() - i,
        {
            let ghost was = links(kept@);
            proof {
                assert(all.take(i + 1).drop_last() =~= all.take(i as int));
                assert(all.take(i + 1).last() == self.remotes@[i as int]@);
            }
            if !same(self.remotes[i].id.as_str(), id) {
                kept.push(self.remotes[i].clone());
                proof {
                    assert(links(kept@) =~= was.push(all[i as int]));
                }
            }
            i = i + 1;
        }
        proof {
            assert(all.take(all.len() as int) =~= all);
        }
        self.remotes = kept;
        if same(self.active_remote_id.as_str(), id) {
            if self.remotes.len() > 0 {
                self.active_remote_id = self.remotes[0].id.clone();
            } else {
                self.active_remote_id = String::new();
                self.inference_mode = InferenceMode::Local;
            }
        }
        self.sync_legacy_remote_fields();
        Ok(())
    }

    /// The chat completions URL of the linked LLM, where chat uses one.
    pub fn remote_chat_url(&self) -> (r: Option<String>)
        ensures
            opt_text(r) == chat_url(self@),
    {
        if self.inference_mode != InferenceMode::Remote {
            return None;
        }
        match self.active_remote() {
            None => None,
            Some(x) => match normalize_openai_base(trim(x.base.as_str()).as_str()) {
                None => None,
                Some(b) => {
                    let mut out = b;
                    out.append("/chat/completions");
                    Some(out)
                },
            },
        }
    }

    /// The complete base URL of the active link, or of the single remote of
    /// older settings files where there is no link.
    pub fn normalize_remote_base(&self) -> (r: Option<String>)
        ensures
            opt_text(r) == (match active_link(self@) {
                Some(x) => openai_base(x.base),
                None => openai_base(self@.remote_base),
            }),
    {
        match self.active_remote() {
            Some(x) => normalize_openai_base(x.base.as_str()),
            None => normalize_openai_base(self.remote_base.as_str()),
        }
    }
}

/// The chat completions URL of the linked LLM, where chat uses one.
pub open spec fn chat_url(n: NetworkView) -> Option<Text> {
    match (n.inference_mode, active_link(n)) {
        (InferenceMode::Remote, Some(x)) => match openai_base(trimmed(x.base)) {
            Some(b) => Some(b + "/chat/completions"@),
            None => None,
        },
        _ => None,
    }
}

/// The view of a request's text that may be missing.
pub open spec fn opt_str(o: Option<&str>) -> Option<Text> {
    match o {
        Some(s) => Some(s@),
        None => None,
    }
}

/// A request to save a link, as contracts see it.
pub open spec fn link_request(
    id: Option<&str>,
    name: &str,
    base: &str,
    token: Option<&str>,
    activate: bool,
) -> LinkRequest {
    LinkRequest {
        id: opt_str(id),
        name: name@,
        base: base@,
        token: opt_str(token),
        activate,
    }
}

/// Once the links are consistent, the active identifier names a link, unless
/// there is none.
pub proof fn law_active_names_a_link(n: NetworkView, fresh: FreshView)
    ensures
        ({
            let m = migrated_links(n, fresh);
            m.remotes.len() > 0 ==> link_ids(m.remotes).contains(m.active_remote_id)
        }),
{
    let m = migrated_links(n, fresh);
    if m.remotes.len() > 0 {
        assert(link_ids(m.remotes)[0] == m.remotes[0].id);
    }
}

/// A text that begins with no white space is no blank.
proof fn lemma_not_blank(s: Text)
    requires
        s.len() > 0,
        !is_space(s[0]),
    ensures
        trim_end(s).len() > 0,
        trimmed(s).len() > 0,
    decreases s.len(),
{
    if is_space(s.last()) {
        assert(s.drop_last()[0] == s[0]);
        lemma_not_blank(s.drop_last());
    }
}

/// The links that are kept have a base.
proof fn lemma_based(r: Seq<RemoteView>)
    ensures
        forall|i: int|
            0 <= i < based(r).len() ==> trimmed((#[trigger] based(r)[i]).base).len() > 0,
    decreases r.len(),
{
    if r.len() > 0 {
        lemma_based(r.drop_last());
        let init = based(r.drop_last());
        assert forall|i: int| 0 <= i < based(r).len() implies trimmed(
            (#[trigger] based(r)[i]).base,
        ).len() > 0 by {
            if i < init.len() {
                assert(based(r)[i] == init[i]);
            }
        }
    }
}

/// Whether the identifiers are ones that a generator made.
pub open spec fn ids_made(fresh: FreshView, clock: Clock) -> bool {
    &&& is_id(fresh.legacy_remote_id, "remote-"@, clock)
    &&& forall|i: int|
        0 <= i < fresh.remote_ids.len() ==> is_id(#[trigger] fresh.remote_ids[i], "remote-"@, clock)
}

proof fn lemma_made_id(id: Text, clock: Clock)
    requires
        is_id(id, "remote-"@, clock),
    ensures
        trimmed(id).len() > 0,
{
    reveal_strlit("remote-");
    assert(id[0] == 'r');
    lemma_not_blank(id);
}

/// Once the links are consistent, each has a base and an identifier that are no
/// blanks. Without links the active identifier and the single remote of older
/// settings files are empty; else some link has the active identifier, and the
/// single remote is the first of those. From an older file, the single remote
/// becomes the one link, with its token and with its base made complete, where
/// that can be done.
pub proof fn law_links_are_consistent(n: NetworkView, fresh: FreshView, clock: Clock)
    requires
        enough(n, fresh),
        ids_made(fresh, clock),
    ensures
        ({
            let m = migrated_links(n, fresh);
            let k = index_in(link_ids(m.remotes), m.active_remote_id);
            &&& forall|i: int|
                0 <= i < m.remotes.len() ==> trimmed((#[trigger] m.remotes[i]).base).len() > 0
                    && trimmed(m.remotes[i].id).len() > 0
            &&& m.remotes.len() == 0 ==> m.active_remote_id.len() == 0 && m.remote_base.len() == 0
                && m.remote_token.len() == 0
            &&& m.remotes.len() > 0 ==> {
                &&& 0 <= k < m.remotes.len()
                &&& m.remotes[k].id == m.active_remote_id
                &&& m.remote_base == m.remotes[k].base
                &&& m.remote_token == m.remotes[k].token
            }
            &&& n.remotes.len() == 0 && openai_base(n.remote_base) is Some ==> {
                &&& m.remotes.len() == 1
                &&& m.remotes[0].base == openai_base(n.remote_base)->0
                &&& m.remotes[0].token == n.remote_token
            }
        }),
{
    let f = folded(n, fresh);
    let kept = based(f.remotes);
    let m = migrated_links(n, fresh);
    lemma_based(f.remotes);
    lemma_based_len(f.remotes);
    lemma_made_id(fresh.legacy_remote_id, clock);
    assert forall|i: int| 0 <= i < m.remotes.len() implies trimmed((#[trigger] m.remotes[i]).base).len()
        > 0 && trimmed(m.remotes[i].id).len() > 0 by {
        assert(m.remotes[i] == tidied(kept[i], fresh.remote_ids[i]));
        law_openai_base_stable(kept[i].base);
        lemma_made_id(fresh.remote_ids[i], clock);
    }
    law_active_names_a_link(n, fresh);
    lemma_index_in(link_ids(m.remotes), m.active_remote_id);
    if n.remotes.len() == 0 && trimmed(n.remote_base).len() > 0 {
        let l = legacy_link(n, fresh);
        lemma_trim_idempotent(n.remote_base);
        law_openai_base_stable(n.remote_base);
        assert(openai_base(trimmed(n.remote_base)) == openai_base(n.remote_base));
        assert(f.remotes.drop_last() =~= Seq::<RemoteView>::empty());
        assert(based(f.remotes.drop_last()) =~= Seq::<RemoteView>::empty());
        assert(kept =~= seq![l]);
        assert(m.remotes[0] == tidied(l, fresh.remote_ids[0]));
    }
}

/// The single remote of older settings files mirrors the active link after
/// every change.
pub proof fn law_legacy_mirrors_active(n: NetworkView)
    ensures
        match active_link(mirrored(n)) {
            Some(r) => mirrored(n).remote_base == r.base && mirrored(n).remote_token == r.token,
            None => mirrored(n).remote_base.len() == 0 && mirrored(n).remote_token.len() == 0,
        },
{
}

/// Saving a link for a base that is linked already adds no second link.
pub proof fn law_same_base_is_not_linked_twice(m: NetworkView, q: LinkRequest, fresh: FreshView)
    requires
        q.id is None,
        openai_base(q.base) is Some,
        link_bases(m.remotes).contains(openai_base(q.base)->0),
    ensures
        saved_link(m, q, fresh).1.remotes.len() == m.remotes.len(),
{
    let base = openai_base(q.base)->0;
    lemma_index_in(link_bases(m.remotes), base);
    let i = index_in(link_bases(m.remotes), base);
    assert(link_ids(m.remotes)[i] == m.remotes[i].id);
    lemma_index_in(link_ids(m.remotes), m.remotes[i].id);
}

/// No request to save makes the list longer than its bound.
pub proof fn law_links_are_bounded(m: NetworkView, q: LinkRequest, fresh: FreshView)
    requires
        m.remotes.len() <= MAX_ENTRIES,
    ensures
        saved_link(m, q, fresh).1.remotes.len() <= MAX_ENTRIES,
{
    if let Some(base) = openai_base(q.base) {
        if let Some(id) = link_target(m, q, base) {
            lemma_index_in(link_ids(m.remotes), id);
        }
    }
}

/// Making the links consistent adds one link at most.
pub proof fn lemma_migrated_len(n: NetworkView, fresh: FreshView)
    ensures
        migrated_links(n, fresh).remotes.len() <= n.remotes.len() + 1,
{
    lemma_based_len(folded(n, fresh).remotes);
}

/// Removing a link adds none.
pub proof fn lemma_unlinked_len(m: NetworkView, id: Text)
    ensures
        unlinked(m, id).remotes.len() <= m.remotes.len(),
{
    lemma_without_len(m.remotes, id);
}

proof fn lemma_without_len(r: Seq<RemoteView>, id: Text)
    ensures
        links_without(r, id).len() <= r.len(),
    decreases r.len(),
{
    if r.len() > 0 {
        lemma_without_len(r.drop_last(), id);
    }
}

/// Saving a link adds one at most.
pub proof fn lemma_saved_len(m: NetworkView, q: LinkRequest, fresh: FreshView)
    ensures
        saved_link(m, q, fresh).1.remotes.len() <= m.remotes.len() + 1,
{
    if let Some(base) = openai_base(q.base) {
        if let Some(id) = link_target(m, q, base) {
            lemma_index_in(link_ids(m.remotes), id);
        }
    }
}

/// A link that is saved is as it was asked for: with the complete base, with the
/// token that was given, under the identifier that was named. It stands among the
/// links, and no other link is touched. It is the active one where that was
/// asked for.
pub proof fn law_saved_link_is_as_asked(m: NetworkView, q: LinkRequest, fresh: FreshView)
    ensures
        ({
            let (r, n) = saved_link(m, q, fresh);
            r matches Ok(x) ==> {
                &&& openai_base(q.base) == Some(x.base)
                &&& n.remotes.contains(x)
                &&& q.id matches Some(id) ==> x.id == id
                &&& q.token matches Some(t) ==> x.token == t
                &&& clean_name(q.name).len() > 0 && q.id is Some ==> x.name == clean_name(q.name)
                &&& q.activate ==> n.active_remote_id == x.id && n.inference_mode
                    == InferenceMode::Remote
                &&& !q.activate ==> n.inference_mode == m.inference_mode
                &&& !q.activate && n.remotes.len() != 1 ==> n.active_remote_id
                    == m.active_remote_id
                &&& forall|j: int|
                    0 <= j < m.remotes.len() && (#[trigger] m.remotes[j]).id != x.id
                        ==> n.remotes[j] == m.remotes[j]
                &&& m.remotes.len() <= n.remotes.len() <= m.remotes.len() + 1
                &&& n.api_keys == m.api_keys
                &&& n.expose == m.expose
            }
        }),
{
    match openai_base(q.base) {
        None => {},
        Some(base) => {
            lemma_index_in(link_bases(m.remotes), base);
            match link_target(m, q, base) {
                Some(id) => {
                    let i = index_in(link_ids(m.remotes), id);
                    lemma_index_in(link_ids(m.remotes), id);
                    if i < m.remotes.len() {
                        let r = resaved(m.remotes[i], q, base);
                        let n = saved_link(m, q, fresh).1;
                        assert(link_ids(m.remotes)[i] == m.remotes[i].id);
                        assert(n.remotes =~= m.remotes.update(i, r));
                        assert(n.remotes[i] == r);
                    }
                },
                None => {
                    if m.remotes.len() < MAX_ENTRIES {
                        let r = added_link(q, base, fresh.remote_id);
                        let n = saved_link(m, q, fresh).1;
                        assert(n.remotes =~= m.remotes.push(r));
                        assert(n.remotes[m.remotes.len() as int] == r);
                    }
                },
            }
        },
    }
}

proof fn lemma_links_left(r: Seq<RemoteView>, id: Text)
    ensures
        forall|j: int|
            0 <= j < links_without(r, id).len() ==> (#[trigger] links_without(r, id)[j]).id != id
                && r.contains(links_without(r, id)[j]),
        forall|j: int|
            0 <= j < r.len() && (#[trigger] r[j]).id != id ==> links_without(r, id).contains(r[j]),
    decreases r.len(),
{
    if r.len() > 0 {
        let init = r.drop_last();
        let w = links_without(init, id);
        let all = links_without(r, id);
        lemma_links_left(init, id);
        assert forall|j: int| 0 <= j < all.len() implies (#[trigger] all[j]).id != id && r.contains(
            all[j],
        ) by {
            if j < w.len() {
                assert(all[j] == w[j]);
                assert(init.contains(w[j]));
                let p = choose|p: int| 0 <= p < init.len() && init[p] == w[j];
                assert(r[p] == w[j]);
            } else {
                assert(r[r.len() - 1] == all[j]);
            }
        }
        assert forall|j: int| 0 <= j < r.len() && (#[trigger] r[j]).id != id implies all.contains(
            r[j],
        ) by {
            if j < init.len() {
                assert(init[j] == r[j]);
                assert(w.contains(r[j]));
                let p = choose|p: int| 0 <= p < w.len() && w[p] == r[j];
                assert(all[p] == r[j]);
            } else {
                assert(all[all.len() - 1] == r[j]);
            }
        }
    }
}

/// A link that was removed is gone, and every other link stays as it is. Chat
/// goes on with another link where the active one was removed, and stays on this
/// machine where none is left.
pub proof fn law_removed_link_is_gone(m: NetworkView, id: Text)
    ensures
        ({
            let n = unlinked(m, id);
            &&& forall|j: int| 0 <= j < n.remotes.len() ==> (#[trigger] n.remotes[j]).id != id
            &&& forall|j: int|
                0 <= j < n.remotes.len() ==> m.remotes.contains(#[trigger] n.remotes[j])
            &&& forall|j: int|
                0 <= j < m.remotes.len() && (#[trigger] m.remotes[j]).id != id
                    ==> n.remotes.contains(m.remotes[j])
            &&& m.active_remote_id != id ==> n.active_remote_id == m.active_remote_id
                && n.inference_mode == m.inference_mode
            &&& m.active_remote_id == id && n.remotes.len() > 0 ==> n.active_remote_id
                == n.remotes[0].id
            &&& m.active_remote_id == id && n.remotes.len() == 0 ==> n.inference_mode
                == InferenceMode::Local
        }),
{
    lemma_links_left(m.remotes, id);
}

/// An address without a scheme or a path becomes the base of an API there; one
/// that names a scheme keeps it; one that is complete stays as it is.
pub proof fn law_base_is_completed(host: Text, url: Text)
    requires
        host.len() > 0,
        !is_space(host[0]),
        !is_space(host.last()),
        host.last() != '/',
        !occurs(host, "://"@),
        !"/v1"@.is_suffix_of("http://"@ + host),
        url.len() > 0,
        !is_space(url[0]),
        !is_space(url.last()),
        url.last() != '/',
        occurs(url, "://"@),
    ensures
        openai_base(host) == Some("http://"@ + host + "/v1"@),
        !"/v1"@.is_suffix_of(url) ==> openai_base(url) == Some(url + "/v1"@),
        "/v1"@.is_suffix_of(url) ==> openai_base(url) == Some(url),
{
    assert(trimmed(host) == host);
    assert(trimmed(url) == url);
    assert(trim_end_char(host, '/') == host);
    assert(trim_end_char(url, '/') == url);
}

/// The link that is activated is the one that chat goes to from then on; the
/// links themselves stay as they are.
pub proof fn law_activated_link_is_used(m: NetworkView, i: int)
    requires
        0 <= i < m.remotes.len(),
        forall|j: int| 0 <= j < i ==> (#[trigger] m.remotes[j]).id != m.remotes[i].id,
    ensures
        ({
            let n = activated(m, m.remotes[i].id);
            &&& active_link(n) == Some(m.remotes[i])
            &&& n.inference_mode == InferenceMode::Remote
            &&& n.remotes == m.remotes
            &&& n.remote_base == m.remotes[i].base
            &&& n.remote_token == m.remotes[i].token
            &&& n.api_keys == m.api_keys
            &&& n.expose == m.expose
        }),
{
    let id = m.remotes[i].id;
    let ids = link_ids(m.remotes);
    lemma_index_in(ids, id);
    assert(ids[i] == id);
    assert(ids.contains(id));
    let k = index_in(ids, id);
    assert(k <= i);
    if k < i {
        assert(m.remotes[k].id == ids[k]);
    }
    let u = NetworkView { active_remote_id: id, inference_mode: InferenceMode::Remote, ..m };
    assert(active_link(u) == Some(m.remotes[i]));
}

} // verus!
