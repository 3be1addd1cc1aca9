//! Models on disk: what the caches of downloaded models hold.
use vstd::prelude::*;

use crate::config::SourceView;
use crate::hub::model_path;

use crate::probe::plus;
use crate::text::{
    contains, find, lemma_find, list_contains, lower, occurs, opt_text, position, slice, split,
    split_on, starts_with, strip_prefix, strip_suffix, texts, to_lower, trim, trim_end_char,
    trim_end_matches, trimmed, without_prefix, without_suffix, Text,
};

verus! {

broadcast use vstd::string::group_string_axioms;

/// A file in the cache, complete or not.
#[derive(Debug)]
pub struct CachedBlob {
    /// The object's identifier, which listings name as well.
    pub oid: String,
    pub bytes: u64,
    pub in_flight: bool,
}

/// The view of [`CachedBlob`].
pub struct BlobView {
    pub oid: Text,
    pub bytes: u64,
    pub in_flight: bool,
}

impl View for CachedBlob {
    type V = BlobView;

    open spec fn view(&self) -> BlobView {
        BlobView { oid: self.oid@, bytes: self.bytes, in_flight: self.in_flight }
    }
}

impl Clone for CachedBlob {
    fn clone(&self) -> (r: Self)
        ensures
            r@ == self@,
    {
        CachedBlob { oid: self.oid.clone(), bytes: self.bytes, in_flight: self.in_flight }
    }
}

/// The views of a list of cached files.
pub open spec fn blobs(v: Seq<CachedBlob>) -> Seq<BlobView> {
    Seq::new(v.len(), |i: int| v[i]@)
}

/// What a repository takes up on this machine.
#[derive(Debug)]
pub struct CacheScan {
    pub blobs: Vec<CachedBlob>,
    /// Bytes in the older flat layout, which has no object identifiers.
    pub flat_bytes: u64,
}

/// The view of [`CacheScan`].
pub struct ScanView {
    pub blobs: Seq<BlobView>,
    pub flat_bytes: u64,
}

impl View for CacheScan {
    type V = ScanView;

    open spec fn view(&self) -> ScanView {
        ScanView { blobs: blobs(self.blobs@), flat_bytes: self.flat_bytes }
    }
}

impl Default for CacheScan {
    fn default() -> (r: Self)
        ensures
            r@ == empty_scan(),
    {
        let r = CacheScan { blobs: Vec::new(), flat_bytes: 0 };
        proof {
            assert(blobs(r.blobs@) =~= Seq::<BlobView>::empty());
        }
        r
    }
}

impl Clone for CacheScan {
    fn clone(&self) -> (r: Self)
        ensures
            r@ == self@,
    {
        let mut out: Vec<CachedBlob> = Vec::new();
        let mut i: usize = 0;
        while i < self.blobs.len()
            invariant
                i <= self.blobs.len(),
                out.len() == i,
                forall|k: int| 0 <= k < i ==> (#[trigger] out@[k])@ == self.blobs@[k]@,
            decreases self.blobs.len() - i,
        {
            out.push(self.blobs[i].clone());
            i = i + 1;
        }
        proof {
            assert(blobs(out@) =~= blobs(self.blobs@));
        }
        CacheScan { blobs: out, flat_bytes: self.flat_bytes }
    }
}

/// A cache that holds nothing.
pub open spec fn empty_scan() -> ScanView {
    ScanView { blobs: Seq::empty(), flat_bytes: 0 }
}

/// The bytes of cached files together with `start`, at most the greatest
/// number there is.
pub open spec fn blob_sum(start: u64, b: Seq<BlobView>) -> u64
    decreases b.len(),
{
    if b.len() == 0 {
        start
    } else {
        plus(blob_sum(start, b.drop_last()), b.last().bytes)
    }
}

/// The cached files of the given objects.
pub open spec fn blobs_of(b: Seq<BlobView>, oids: Seq<Text>) -> Seq<BlobView>
    decreases b.len(),
{
    if b.len() == 0 {
        Seq::empty()
    } else {
        let init = blobs_of(b.drop_last(), oids);
        if oids.contains(b.last().oid) {
            init.push(b.last())
        } else {
            init
        }
    }
}

/// The cached files that are still being fetched.
pub open spec fn in_flight_of(b: Seq<BlobView>) -> Seq<BlobView>
    decreases b.len(),
{
    if b.len() == 0 {
        Seq::empty()
    } else {
        let init = in_flight_of(b.drop_last());
        if b.last().in_flight {
            init.push(b.last())
        } else {
            init
        }
    }
}

/// The views of cached files that are lent.
pub open spec fn lent_blobs(v: Seq<&CachedBlob>) -> Seq<BlobView> {
    Seq::new(v.len(), |i: int| v[i]@)
}

impl CacheScan {
    /// All bytes of the repository on this machine.
    pub fn total_bytes(&self) -> (n: u64)
        ensures
            n == blob_sum(self@.flat_bytes, self@.blobs),
    {
        let ghost all = self@.blobs;
        let mut n: u64 = self.flat_bytes;
        let mut i: usize = 0;
        proof {
            assert(all.take(0) =~= Seq::<BlobView>::empty());
        }
        while i < self.blobs.len()
            invariant
                all == blobs(self.blobs@),
                i <= self.blobs.len(),
                n == blob_sum(self.flat_bytes, all.take(i as int)),
            decreases self.blobs.len() - i,
        {
            proof {
                assert(all.take(i + 1).drop_last() =~= all.take(i as int));
                assert(all.take(i + 1).last() == self.blobs@[i as int]@);
            }
            n = n.saturating_add(self.blobs[i].bytes);
            i = i + 1;
        }
        proof {
            assert(all.take(all.len() as int) =~= all);
        }
        n
    }

    /// The bytes of the given objects.
    pub fn bytes_of(&self, oids: &Vec<String>) -> (n: u64)
        ensures
            n == blob_sum(0, blobs_of(self@.blobs, texts(oids@))),
    {
        let ghost all = self@.blobs;
        let ghost want = texts(oids@);
        let mut n: u64 = 0;
        let mut i: usize = 0;
        proof {
            assert(all.take(0) =~= Seq::<BlobView>::empty());
        }
        while i < self.blobs.len()
            invariant
                all == blobs(self.blobs@),
                want == texts(oids@),
                i <= self.blobs.len(),
                n == blob_sum(0, blobs_of(all.take(i as int), want)),
            decreases self.blobs.len() - i,
        {
            proof {
                assert(all.take(i + 1).drop_last() =~= all.take(i as int));
                assert(all.take(i + 1).last() == self.blobs@[i as int]@);
            }
            if list_contains(oids, self.blobs[i].oid.as_str()) {
                proof {
                    let b = blobs_of(all.take(i as int), want);
                    assert(b.push(all[i as int]).drop_last() =~= b);
                }
                n = n.saturating_add(self.blobs[i].bytes);
            }
            i = i + 1;
        }
        proof {
            assert(all.take(all.len() as int) =~= all);
        }
        n
    }

    /// The cached files that are still being fetched.
    pub fn in_flight(&self) -> (out: Vec<&CachedBlob>)
        ensures
            lent_blobs(out@) == in_flight_of(self@.blobs),
    {
        let ghost all = self@.blobs;
        let mut out: Vec<&CachedBlob> = Vec::new();
        let mut i: usize = 0;
        proof {
            assert(all.take(0) =~= Seq::<BlobView>::empty());
            assert(lent_blobs(out@) =~= in_flight_of(all.take(0)));
        }
        while i < self.blobs.len()
            invariant
                all == blobs(self.blobs@),
                i <= self.blobs.len(),
                lent_blobs(out@) == in_flight_of(all.take(i as int)),
            decreases self.blobs.len() - i,
        {
            let ghost was = lent_blobs(out@);
            proof {
                assert(all.take(i + 1).drop_last() =~= all.take(i as int));
                assert(all.take(i + 1).last() == self.blobs@[i as int]@);
            }
            if self.blobs[i].in_flight {
                out.push(&self.blobs[i]);
                proof {
                    assert(lent_blobs(out@) =~= was.push(all[i as int]));
                }
            }
            i = i + 1;
        }
        proof {
            assert(all.take(all.len() as int) =~= all);
        }
        out
    }
}

/// A file in a directory.
#[derive(Debug)]
pub struct FileEntry {
    pub name: String,
    pub bytes: u64,
}

/// The views of a directory's files.
pub open spec fn dir(v: Seq<FileEntry>) -> Seq<(Text, u64)> {
    Seq::new(v.len(), |i: int| (v[i].name@, v[i].bytes))
}

/// The name without the ending of a file that is still being fetched.
pub open spec fn partial_stem(name: Text) -> Option<Text> {
    match without_suffix(name, ".downloadInProgress"@) {
        Some(s) => Some(s),
        None => without_suffix(name, ".incomplete"@),
    }
}

/// The name without the ending of a file that is still being fetched.
pub fn strip_partial(name: &str) -> (r: Option<String>)
    ensures
        opt_text(r) == partial_stem(name@),
{
    match strip_suffix(name, ".downloadInProgress") {
        Some(s) => Some(s),
        None => strip_suffix(name, ".incomplete"),
    }
}

/// The cached file that a directory's file is.
pub open spec fn blob_of(f: (Text, u64)) -> BlobView {
    match partial_stem(f.0) {
        Some(oid) => BlobView { oid, bytes: f.1, in_flight: true },
        None => BlobView { oid: f.0, bytes: f.1, in_flight: false },
    }
}

/// The cached files that a directory's files are.
pub open spec fn blobs_in(v: Seq<(Text, u64)>) -> Seq<BlobView> {
    Seq::new(v.len(), |i: int| blob_of(v[i]))
}

/// The cached files that a directory's files are, in order.
pub fn read_blobs(v: &Vec<FileEntry>) -> (out: Vec<CachedBlob>)
    ensures
        blobs(out@) == blobs_in(dir(v@)),
{
    let mut out: Vec<CachedBlob> = Vec::new();
    let mut i: usize = 0;
    while i < v.len()
        invariant
            i <= v.len(),
            out.len() == i,
            forall|k: int| 0 <= k < i ==> (#[trigger] out@[k])@ == blob_of(dir(v@)[k]),
        decreases v.len() - i,
    {
        let b = match strip_partial(v[i].name.as_str()) {
            Some(oid) => CachedBlob { oid, bytes: v[i].bytes, in_flight: true },
            None => CachedBlob { oid: v[i].name.clone(), bytes: v[i].bytes, in_flight: false },
        };
        out.push(b);
        i = i + 1;
    }
    proof {
        assert(blobs(out@) =~= blobs_in(dir(v@)));
    }
    out
}

/// The owner and name of a repository without its tag.
pub open spec fn repo_parts(repo: Text) -> Option<(Text, Text)> {
    let t = trim_end_char(split_on(trimmed(repo), ':')[0], '/');
    match find(t, "/"@) {
        Some(i) => {
            let owner = t.take(i);
            let name = t.skip(i + 1);
            if owner.len() == 0 || name.len() == 0 || occurs(name, "/"@) {
                None
            } else {
                Some((owner, name))
            }
        },
        None => None,
    }
}

/// The view of an owner and a name.
pub open spec fn pair_view(o: Option<(String, String)>) -> Option<(Text, Text)> {
    match o {
        Some(p) => Some((p.0@, p.1@)),
        None => None,
    }
}

/// The owner and name of a repository without its tag.
pub fn split_repo(repo: &str) -> (r: Option<(String, String)>)
    ensures
        pair_view(r) == repo_parts(repo@),
{
    let parts = split(trim(repo).as_str(), ':');
    proof {
        assert(texts(parts@)[0] == parts@[0]@);
    }
    let t = trim_end_matches(parts[0].as_str(), '/');
    proof {
        reveal_strlit("/");
        lemma_find(t@, "/"@);
    }
    match position(t.as_str(), "/") {
        Some(i) => {
            let n: usize = t.as_str().unicode_len();
            let owner = slice(t.as_str(), 0, i);
            let name = slice(t.as_str(), i + 1, n);
            proof {
                assert(owner@ =~= t@.take(i as int));
                assert(name@ =~= t@.skip(i + 1));
            }
            if owner.as_str().is_empty() || name.as_str().is_empty() || contains(
                name.as_str(),
                "/",
            ) {
                return None;
            }
            Some((owner, name))
        },
        None => None,
    }
}

/// The name of a repository's directory in the cache.
pub open spec fn hub_dir(owner: Text, name: Text) -> Text {
    "models--"@ + owner + "--"@ + name
}

/// The name of a repository's directory in the cache.
pub fn hub_directory(owner: &str, name: &str) -> (out: String)
    ensures
        out@ == hub_dir(owner@, name@),
{
    let mut out = "models--".to_owned();
    out.append(owner);
    out.append("--");
    out.append(name);
    out
}

/// How the names of a repository's files begin in the flat layout.
pub open spec fn flat_start(owner: Text, name: Text) -> Text {
    owner + "_"@ + name + "_"@
}

/// How the names of a repository's files begin in the flat layout.
pub fn flat_prefix(owner: &str, name: &str) -> (out: String)
    ensures
        out@ == flat_start(owner@, name@),
{
    let mut out = owner.to_owned();
    out.append("_");
    out.append(name);
    out.append("_");
    out
}

/// The owner and name of the repository that a directory of the cache is for.
pub open spec fn dir_parts(name: Text) -> Option<(Text, Text)> {
    match without_prefix(name, "models--"@) {
        None => None,
        Some(rest) => match find(rest, "--"@) {
            None => None,
            Some(i) => {
                let owner = rest.take(i);
                let repo = rest.skip(i + 2);
                if owner.len() == 0 || repo.len() == 0 {
                    None
                } else {
                    Some((owner, repo))
                }
            },
        },
    }
}

/// The owner and name of the repository that a directory of the cache is for.
pub fn parse_hub_dir(name: &str) -> (r: Option<(String, String)>)
    ensures
        pair_view(r) == dir_parts(name@),
{
    let rest = match strip_prefix(name, "models--") {
        Some(x) => x,
        None => {
            return None;
        },
    };
    proof {
        reveal_strlit("--");
        lemma_find(rest@, "--"@);
    }
    match position(rest.as_str(), "--") {
        None => None,
        Some(i) => {
            let n: usize = rest.as_str().unicode_len();
            let owner = slice(rest.as_str(), 0, i);
            let repo = slice(rest.as_str(), i + 2, n);
            proof {
                assert(owner@ =~= rest@.take(i as int));
                assert(repo@ =~= rest@.skip(i + 2));
            }
            if owner.as_str().is_empty() || repo.as_str().is_empty() {
                return None;
            }
            Some((owner, repo))
        },
    }
}

/// A directory's name gives back the repository that it was made for, where
/// the owner holds no two dashes in a row and ends in none.
pub proof fn law_hub_dir_round_trip(owner: Text, name: Text)
    requires
        owner.len() > 0,
        name.len() > 0,
        !occurs(owner + "-"@, "--"@),
    ensures
        dir_parts(hub_dir(owner, name)) == Some((owner, name)),
{
    reveal_strlit("models--");
    reveal_strlit("--");
    reveal_strlit("-");
    let d = hub_dir(owner, name);
    let rest = owner + "--"@ + name;
    assert("models--"@.is_prefix_of(d)) by {
        assert(d.subrange(0, 8) =~= "models--"@);
    }
    assert(d.skip(8) =~= rest);
    let k = owner.len() as int;
    assert(rest.subrange(k, k + 2) =~= "--"@);
    assert(crate::text::occurs_at(rest, "--"@, k));
    lemma_find(rest, "--"@);
    let i = find(rest, "--"@)->0;
    assert(i <= k);
    if i < k {
        assert((owner + "-"@).subrange(i, i + 2) =~= rest.subrange(i, i + 2));
        assert(crate::text::occurs_at(owner + "-"@, "--"@, i));
    }
    assert(rest.take(k) =~= owner);
    assert(rest.skip(k + 2) =~= name);
}

/// The bytes of a directory's files whose names begin with `prefix`, on top of
/// `start`.
pub open spec fn prefixed_sum(start: u64, v: Seq<(Text, u64)>, prefix: Text) -> u64
    decreases v.len(),
{
    if v.len() == 0 {
        start
    } else {
        let n = prefixed_sum(start, v.drop_last(), prefix);
        if prefix.is_prefix_of(v.last().0) {
            plus(n, v.last().1)
        } else {
            n
        }
    }
}

/// The bytes of a directory's files whose names begin with `prefix`.
pub fn prefixed_file_bytes(v: &Vec<FileEntry>, prefix: &str) -> (n: u64)
    ensures
        n == prefixed_sum(0, dir(v@), prefix@),
{
    add_prefixed(0, v, prefix)
}

fn add_prefixed(start: u64, v: &Vec<FileEntry>, prefix: &str) -> (n: u64)
    ensures
        n == prefixed_sum(start, dir(v@), prefix@),
{
    let ghost all = dir(v@);
    let mut n: u64 = start;
    let mut i: usize = 0;
    proof {
        assert(all.take(0) =~= Seq::<(Text, u64)>::empty());
    }
    while i < v.len()
        invariant
            all == dir(v@),
            i <= v.len(),
            n == prefixed_sum(start, all.take(i as int), prefix@),
        decreases v.len() - i,
    {
        proof {
            assert(all.take(i + 1).drop_last() =~= all.take(i as int));
            assert(all.take(i + 1).last() == (v@[i as int].name@, v@[i as int].bytes));
        }
        if starts_with(v[i].name.as_str(), prefix) {
            n = n.saturating_add(v[i].bytes);
        }
        i = i + 1;
    }
    proof {
        assert(all.take(all.len() as int) =~= all);
    }
    n
}

/// What the caches hold of a repository: the files of its directory in the hub
/// layout, and its files in the flat layout. A text that names no repository
/// has nothing.
pub fn scan(repo: &str, hub_files: &Vec<FileEntry>, flat_files: &Vec<FileEntry>) -> (r: CacheScan)
    ensures
        r@ == (match repo_parts(repo@) {
            None => empty_scan(),
            Some(p) => ScanView {
                blobs: blobs_in(dir(hub_files@)),
                flat_bytes: prefixed_sum(0, dir(flat_files@), flat_start(p.0, p.1)),
            },
        }),
{
    match split_repo(repo) {
        None => CacheScan::default(),
        Some((owner, name)) => {
            let prefix = flat_prefix(owner.as_str(), name.as_str());
            CacheScan {
                blobs: read_blobs(hub_files),
                flat_bytes: prefixed_file_bytes(flat_files, prefix.as_str()),
            }
        },
    }
}

/// Whether a repository looks as if it still had to be fetched: nothing is
/// there, or less than nineteen twentieths of the size that is expected.
pub open spec fn incomplete(s: ScanView, expected: Option<u64>) -> bool {
    let bytes = blob_sum(s.flat_bytes, s.blobs);
    bytes == 0 || (expected matches Some(e) && e > 0 && bytes * 100 < e * 95)
}

/// Whether a repository looks as if it still had to be fetched.
pub fn looks_incomplete_scan(s: &CacheScan, expected: Option<u64>) -> (r: bool)
    ensures
        r == incomplete(s@, expected),
{
    let bytes: u64 = s.total_bytes();
    if bytes == 0 {
        return true;
    }
    match expected {
        Some(e) => (bytes as u128) * 100 < (e as u128) * 95,
        None => false,
    }
}

/// The words of a log line that show that the weights are being read.
pub open spec fn load_line(line: Text) -> bool {
    let t = lower(line);
    ||| occurs(t, "llama_model_loader:"@)
    ||| occurs(t, "load_tensors:"@)
    ||| occurs(t, "load_model:"@)
    ||| occurs(t, "loading model"@)
    ||| occurs(t, "model loaded"@)
}

/// Whether a log line shows that the weights are being read, so that any
/// download is over.
pub fn is_model_load_line(line: &str) -> (r: bool)
    ensures
        r == load_line(line@),
{
    let low = to_lower(line);
    let t = low.as_str();
    contains(t, "llama_model_loader:") || contains(t, "load_tensors:") || contains(
        t,
        "load_model:",
    ) || contains(t, "loading model") || contains(t, "model loaded")
}

/// The greatest size of the model files of a directory; zero where it has
/// none.
pub open spec fn largest(v: Seq<(Text, u64)>) -> u64
    decreases v.len(),
{
    if v.len() == 0 {
        0
    } else {
        let n = largest(v.drop_last());
        if model_path(v.last().0) && v.last().1 > n {
            v.last().1
        } else {
            n
        }
    }
}

/// The greatest size of the model files of a directory.
pub fn largest_gguf_bytes(v: &Vec<FileEntry>) -> (n: u64)
    ensures
        n == largest(dir(v@)),
{
    let ghost all = dir(v@);
    let mut n: u64 = 0;
    let mut i: usize = 0;
    proof {
        assert(all.take(0) =~= Seq::<(Text, u64)>::empty());
    }
    while i < v.len()
        invariant
            all == dir(v@),
            i <= v.len(),
            n == largest(all.take(i as int)),
        decreases v.len() - i,
    {
        proof {
            assert(all.take(i + 1).drop_last() =~= all.take(i as int));
            assert(all.take(i + 1).last() == (v@[i as int].name@, v@[i as int].bytes));
        }
        if crate::hub::is_model_file(v[i].name.as_str()) && v[i].bytes > n {
            n = v[i].bytes;
        }
        i = i + 1;
    }
    proof {
        assert(all.take(all.len() as int) =~= all);
    }
    n
}

/// The greatest of numbers; zero where there is none.
pub open spec fn greatest(v: Seq<u64>) -> u64
    decreases v.len(),
{
    if v.len() == 0 {
        0
    } else {
        let n = greatest(v.drop_last());
        if v.last() > n {
            v.last()
        } else {
            n
        }
    }
}

fn max_of(v: &Vec<u64>) -> (n: u64)
    ensures
        n == greatest(v@),
{
    let mut n: u64 = 0;
    let mut i: usize = 0;
    proof {
        assert(v@.take(0) =~= Seq::<u64>::empty());
    }
    while i < v.len()
        invariant
            i <= v.len(),
            n == greatest(v@.take(i as int)),
        decreases v.len() - i,
    {
        proof {
            assert(v@.take(i + 1).drop_last() =~= v@.take(i as int));
        }
        if v[i] > n {
            n = v[i];
        }
        i = i + 1;
    }
    proof {
        assert(v@.take(v@.len() as int) =~= v@);
    }
    n
}

/// The greatest size of the files that are complete.
pub open spec fn greatest_done(b: Seq<BlobView>) -> u64
    decreases b.len(),
{
    if b.len() == 0 {
        0
    } else {
        let n = greatest_done(b.drop_last());
        if !b.last().in_flight && b.last().bytes > n {
            b.last().bytes
        } else {
            n
        }
    }
}

/// The size of a repository's model in the cache: that of the current snapshot,
/// else the greatest of any snapshot, else, for a repository that says it holds
/// models, the greatest complete file.
pub open spec fn hub_model_size(
    main: Option<u64>,
    snapshots: Seq<u64>,
    repo: Text,
    b: Seq<BlobView>,
) -> Option<u64> {
    if main matches Some(n) && n > 0 {
        main
    } else if greatest(snapshots) > 0 {
        Some(greatest(snapshots))
    } else if occurs(lower(repo), "gguf"@) && greatest_done(b) > 0 {
        Some(greatest_done(b))
    } else {
        None
    }
}

/// The size of a repository's model in the cache. `main` is the greatest model
/// file of the current snapshot where there is one, `snapshots` those of all.
pub fn hub_model_gguf_bytes(
    main: Option<u64>,
    snapshots: &Vec<u64>,
    repo_name: &str,
    b: &Vec<CachedBlob>,
) -> (r: Option<u64>)
    ensures
        r == hub_model_size(main, snapshots@, repo_name@, blobs(b@)),
{
    if let Some(n) = main {
        if n > 0 {
            return Some(n);
        }
    }
    let m: u64 = max_of(snapshots);
    if m > 0 {
        return Some(m);
    }
    if !contains(to_lower(repo_name).as_str(), "gguf") {
        return None;
    }
    let ghost all = blobs(b@);
    let mut n: u64 = 0;
    let mut i: usize = 0;
    proof {
        assert(all.take(0) =~= Seq::<BlobView>::empty());
    }
    while i < b.len()
        invariant
            all == blobs(b@),
            i <= b.len(),
            n == greatest_done(all.take(i as int)),
        decreases b.len() - i,
    {
        proof {
            assert(all.take(i + 1).drop_last() =~= all.take(i as int));
            assert(all.take(i + 1).last() == b@[i as int]@);
        }
        if !b[i].in_flight && b[i].bytes > n {
            n = b[i].bytes;
        }
        i = i + 1;
    }
    proof {
        assert(all.take(all.len() as int) =~= all);
    }
    if n > 0 {
        Some(n)
    } else {
        None
    }
}

/// Where a model on disk comes from.
#[derive(Debug)]
pub enum DiscoveredSource {
    HuggingFace(String),
    Local(String),
}

impl View for DiscoveredSource {
    type V = SourceView;

    open spec fn view(&self) -> SourceView {
        match self {
            DiscoveredSource::HuggingFace(s) => SourceView::HuggingFace(s@),
            DiscoveredSource::Local(s) => SourceView::Local(s@),
        }
    }
}

/// A model found on disk.
#[derive(Debug)]
pub struct DiscoveredModel {
    pub source: DiscoveredSource,
    pub bytes: u64,
}

/// The view of [`DiscoveredModel`].
pub struct FoundView {
    pub source: SourceView,
    pub bytes: u64,
}

impl View for DiscoveredModel {
    type V = FoundView;

    open spec fn view(&self) -> FoundView {
        FoundView { source: self.source@, bytes: self.bytes }
    }
}

impl Clone for DiscoveredModel {
    fn clone(&self) -> (r: Self)
        ensures
            r@ == self@,
    {
        DiscoveredModel {
            source: match &self.source {
                DiscoveredSource::HuggingFace(s) => DiscoveredSource::HuggingFace(s.clone()),
                DiscoveredSource::Local(s) => DiscoveredSource::Local(s.clone()),
            },
            bytes: self.bytes,
        }
    }
}

/// The views of a list of models found.
pub open spec fn found(v: Seq<DiscoveredModel>) -> Seq<FoundView> {
    Seq::new(v.len(), |i: int| v[i]@)
}

impl DiscoveredModel {
    /// The repository or path.
    pub fn label(&self) -> (out: String)
        ensures
            out@ == crate::bind::source_text(self@.source),
    {
        match &self.source {
            DiscoveredSource::HuggingFace(s) => s.clone(),
            DiscoveredSource::Local(s) => s.clone(),
        }
    }
}

/// The bytes of files together.
pub open spec fn bytes_in(b: Seq<BlobView>) -> nat
    decreases b.len(),
{
    if b.len() == 0 {
        0
    } else {
        b[0].bytes as nat + bytes_in(b.skip(1))
    }
}

proof fn lemma_bytes_in(b: Seq<BlobView>)
    requires
        b.len() > 0,
    ensures
        bytes_in(b) == bytes_in(b.drop_last()) + b.last().bytes,
    decreases b.len(),
{
    let rest = b.skip(1);
    if rest.len() > 0 {
        lemma_bytes_in(rest);
        assert(rest.drop_last() =~= b.drop_last().skip(1));
        assert(rest.last() == b.last());
        assert(b.drop_last()[0] == b[0]);
    } else {
        assert(b.drop_last().len() == 0);
        reveal_with_fuel(bytes_in, 2);
        assert(b[0] == b.last());
    }
}

/// The bytes of the cache are those of all its files and what was there before
/// them, as long as that can be held.
pub proof fn law_all_blobs_are_counted(start: u64, b: Seq<BlobView>)
    ensures
        start + bytes_in(b) <= u64::MAX ==> blob_sum(start, b) == start + bytes_in(b),
    decreases b.len(),
{
    if b.len() > 0 {
        lemma_bytes_in(b);
        law_all_blobs_are_counted(start, b.drop_last());
    }
}

/// Those of a download are the files with one of its identifiers; those in flight
/// are the files that are not complete.
pub proof fn law_blobs_are_picked(b: Seq<BlobView>, oids: Seq<Text>, x: BlobView)
    ensures
        blobs_of(b, oids).contains(x) <==> b.contains(x) && oids.contains(x.oid),
        in_flight_of(b).contains(x) <==> b.contains(x) && x.in_flight,
    decreases b.len(),
{
    if b.len() > 0 {
        let init = b.drop_last();
        law_blobs_are_picked(init, oids, x);
        assert(b =~= init.push(b.last()));
        crate::order::lemma_holds_pushed(init, b.last(), x);
        crate::order::lemma_holds_pushed(blobs_of(init, oids), b.last(), x);
        crate::order::lemma_holds_pushed(in_flight_of(init), b.last(), x);
    }
}

/// A file whose name ends as one that is being loaded is in flight under the name
/// before that ending; any other is complete under its own.
pub proof fn law_endings_tell_of_loading(name: Text, bytes: u64)
    ensures
        blob_of((name + ".downloadInProgress"@, bytes)) == (BlobView {
            oid: name,
            bytes,
            in_flight: true,
        }),
        blob_of((name + ".incomplete"@, bytes)) == (BlobView { oid: name, bytes, in_flight: true }),
        !".downloadInProgress"@.is_suffix_of(name) && !".incomplete"@.is_suffix_of(name) ==> blob_of(
            (name, bytes),
        ) == (BlobView { oid: name, bytes, in_flight: false }),
{
    reveal_strlit(".downloadInProgress");
    reveal_strlit(".incomplete");
    let a = name + ".downloadInProgress"@;
    let b = name + ".incomplete"@;
    assert(a.subrange(a.len() - 19, a.len() as int) =~= ".downloadInProgress"@);
    assert(a.take(a.len() - 19) =~= name);
    assert(b.subrange(b.len() - 11, b.len() as int) =~= ".incomplete"@);
    assert(b.take(b.len() - 11) =~= name);
    assert(b.last() == 'e');
    if ".downloadInProgress"@.is_suffix_of(b) {
        assert(b.subrange(b.len() - 19, b.len() as int)[18] == b.last());
    }
}

/// A directory counts as much as its largest part that counts: the largest model
/// file, the largest snapshot, the largest complete file.
pub proof fn law_largest_counts(v: Seq<(Text, u64)>, s: Seq<u64>, b: Seq<BlobView>)
    ensures
        forall|i: int|
            0 <= i < v.len() && model_path((#[trigger] v[i]).0) ==> v[i].1 <= largest(v),
        largest(v) > 0 ==> exists|i: int|
            0 <= i < v.len() && model_path((#[trigger] v[i]).0) && v[i].1 == largest(v),
        forall|i: int| 0 <= i < s.len() ==> #[trigger] s[i] <= greatest(s),
        greatest(s) > 0 ==> s.contains(greatest(s)),
        forall|i: int|
            0 <= i < b.len() && !(#[trigger] b[i]).in_flight ==> b[i].bytes <= greatest_done(b),
        greatest_done(b) > 0 ==> exists|i: int|
            0 <= i < b.len() && !(#[trigger] b[i]).in_flight && b[i].bytes == greatest_done(b),
{
    lemma_largest(v);
    lemma_greatest(s);
    lemma_greatest_done(b);
}

proof fn lemma_largest(v: Seq<(Text, u64)>)
    ensures
        forall|i: int|
            0 <= i < v.len() && model_path((#[trigger] v[i]).0) ==> v[i].1 <= largest(v),
        largest(v) > 0 ==> exists|i: int|
            0 <= i < v.len() && model_path((#[trigger] v[i]).0) && v[i].1 == largest(v),
    decreases v.len(),
{
    if v.len() > 0 {
        let init = v.drop_last();
        lemma_largest(init);
        assert forall|i: int| 0 <= i < init.len() implies #[trigger] v[i] == init[i] by {}
        assert(v[v.len() - 1] == v.last());
        if largest(init) > 0 {
            let i = choose|i: int|
                0 <= i < init.len() && model_path((#[trigger] init[i]).0) && init[i].1 == largest(
                    init,
                );
            assert(v[i] == init[i]);
        }
    }
}

proof fn lemma_greatest(s: Seq<u64>)
    ensures
        forall|i: int| 0 <= i < s.len() ==> #[trigger] s[i] <= greatest(s),
        greatest(s) > 0 ==> s.contains(greatest(s)),
    decreases s.len(),
{
    if s.len() > 0 {
        let init = s.drop_last();
        lemma_greatest(init);
        assert(s =~= init.push(s.last()));
        crate::order::lemma_holds_pushed(init, s.last(), greatest(s));
        assert forall|i: int| 0 <= i < init.len() implies #[trigger] s[i] == init[i] by {}
    }
}

proof fn lemma_greatest_done(b: Seq<BlobView>)
    ensures
        forall|i: int|
            0 <= i < b.len() && !(#[trigger] b[i]).in_flight ==> b[i].bytes <= greatest_done(b),
        greatest_done(b) > 0 ==> exists|i: int|
            0 <= i < b.len() && !(#[trigger] b[i]).in_flight && b[i].bytes == greatest_done(b),
    decreases b.len(),
{
    if b.len() > 0 {
        let init = b.drop_last();
        lemma_greatest_done(init);
        assert forall|i: int| 0 <= i < init.len() implies #[trigger] b[i] == init[i] by {}
        assert(b[b.len() - 1] == b.last());
        if greatest_done(init) > 0 {
            let i = choose|i: int|
                0 <= i < init.len() && !(#[trigger] init[i]).in_flight && init[i].bytes
                    == greatest_done(init);
            assert(b[i] == init[i]);
        }
    }
}

/// A repository is named by its owner and its name, with or without a tag.
pub proof fn law_repo_has_two_parts(owner: Text, name: Text)
    requires
        owner.len() > 0,
        name.len() > 0,
        !crate::text::is_space(owner[0]),
        !crate::text::is_space(name.last()),
        !owner.contains('/'),
        !name.contains('/'),
        !owner.contains(':'),
        !name.contains(':'),
    ensures
        repo_parts(owner + "/"@ + name) == Some((owner, name)),
{
    reveal_strlit("/");
    let t = owner + "/"@ + name;
    assert(t[0] == owner[0] && t.last() == name.last());
    assert(trimmed(t) == t);
    assert(!t.contains(':')) by {
        if t.contains(':') {
            let k = choose|k: int| 0 <= k < t.len() && t[k] == ':';
            if k < owner.len() {
                assert(owner.contains(owner[k]));
            } else if k > owner.len() {
                assert(name.contains(name[k - owner.len() - 1]));
            }
        }
    }
    crate::text::lemma_split_one(t, ':');
    assert(name.contains(name[name.len() - 1]));
    assert(trim_end_char(t, '/') == t);
    assert(!occurs(owner, "/"@)) by {
        if occurs(owner, "/"@) {
            let i = choose|i: int| crate::text::occurs_at(owner, "/"@, i);
            assert(owner.subrange(i, i + 1)[0] == owner[i]);
            assert(owner.contains(owner[i]));
        }
    }
    assert(!occurs(name, "/"@)) by {
        if occurs(name, "/"@) {
            let i = choose|i: int| crate::text::occurs_at(name, "/"@, i);
            assert(name.subrange(i, i + 1)[0] == name[i]);
            assert(name.contains(name[i]));
        }
    }
    crate::text::lemma_found_behind(owner, "/"@, name);
    assert(t.take(owner.len() as int) =~= owner);
    assert(t.skip(owner.len() as int + 1) =~= name);
}

/// A cache that lacks over a twentieth of what is expected is not complete; one
/// that has it all is.
pub proof fn law_nearly_all_is_complete(s: ScanView, e: u64)
    requires
        e > 0,
    ensures
        blob_sum(s.flat_bytes, s.blobs) >= e ==> !incomplete(s, Some(e)),
        blob_sum(s.flat_bytes, s.blobs) * 20 < e * 19 ==> incomplete(s, Some(e)),
        blob_sum(s.flat_bytes, s.blobs) == 0 ==> incomplete(s, None),
        blob_sum(s.flat_bytes, s.blobs) > 0 ==> !incomplete(s, None),
{
}

} // verus!
