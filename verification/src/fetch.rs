//! Fetching a model into the cache: what to fetch, and each step of it.
use vstd::prelude::*;
use vstd::utf8::encode_utf8;

use crate::hub::{
    comes_with, encode_segment, family, family_of, files, is_model_file, lent, model_path,
    size_sum, url_encoded, FileModel, RemoteFile,
};
use crate::json::{read_text, text_at};
use crate::probe::plus;
use crate::text::{
    contains, decimal, find, is_space, join, joined, lemma_find, lower, number, occurs, opt_text, position,
    slice, split, split_on, texts, to_lower, trim, trimmed, Text,
};

verus! {

broadcast use vstd::string::group_string_axioms;

/// How many bytes are fetched between two reports of progress.
pub const PROGRESS_EVERY_BYTES: u64 = 4_194_304;

/// What happens while a model is fetched.
#[derive(Debug)]
pub enum FetchEvent {
    Started { repo: String, file: String, total: u64 },
    Progress { downloaded: u64, total: u64, file: String },
    Finished { bytes: u64 },
    Error(String),
}

/// The view of [`FetchEvent`].
pub enum FetchView {
    Started { repo: Text, file: Text, total: u64 },
    Progress { downloaded: u64, total: u64, file: Text },
    Finished { bytes: u64 },
    Error(Text),
}

impl View for FetchEvent {
    type V = FetchView;

    open spec fn view(&self) -> FetchView {
        match self {
            FetchEvent::Started { repo, file, total } => FetchView::Started {
                repo: repo@,
                file: file@,
                total: *total,
            },
            FetchEvent::Progress { downloaded, total, file } => FetchView::Progress {
                downloaded: *downloaded,
                total: *total,
                file: file@,
            },
            FetchEvent::Finished { bytes } => FetchView::Finished { bytes: *bytes },
            FetchEvent::Error(e) => FetchView::Error(e@),
        }
    }
}

/// The owner and name of a repository without its tag, or why there are none.
pub open spec fn owner_and_name(repo: Text) -> Result<(Text, Text), Text> {
    let path = split_on(trimmed(repo), ':')[0];
    match find(path, "/"@) {
        Some(i) => Ok((path.take(i), path.skip(i + 1))),
        None => Err(repo + " is not an owner/model repository"@),
    }
}

/// The owner and name of a repository without its tag.
pub fn hub_parts(repo: &str) -> (r: Result<(String, String), String>)
    ensures
        crate::hub::parts_text(r) == owner_and_name(repo@),
{
    let parts = split(trim(repo).as_str(), ':');
    proof {
        assert(texts(parts@)[0] == parts@[0]@);
    }
    let path = parts[0].as_str();
    proof {
        reveal_strlit("/");
        lemma_find(path@, "/"@);
    }
    match position(path, "/") {
        Some(i) => {
            let n: usize = path.unicode_len();
            let owner = slice(path, 0, i);
            let name = slice(path, i + 1, n);
            proof {
                assert(owner@ =~= path@.take(i as int));
                assert(name@ =~= path@.skip(i + 1));
            }
            Ok((owner, name))
        },
        None => {
            let mut e = repo.to_owned();
            e.append(" is not an owner/model repository");
            Err(e)
        },
    }
}

/// The parts of a path as a URL holds them.
pub open spec fn encoded_parts(p: Seq<Text>) -> Seq<Text> {
    Seq::new(p.len(), |i: int| url_encoded(encode_utf8(p[i])))
}

/// The URL of a file of a repository.
pub open spec fn file_url(owner: Text, name: Text, path: Text) -> Text {
    "https://huggingface.co/"@ + url_encoded(encode_utf8(owner)) + "/"@ + url_encoded(
        encode_utf8(name),
    ) + "/resolve/main/"@ + joined(encoded_parts(split_on(path, '/')), "/"@) + "?download=true"@
}

/// The URL of a file of a repository.
pub fn download_url(owner: &str, name: &str, path: &str) -> (out: String)
    ensures
        out@ == file_url(owner@, name@, path@),
{
    let parts = split(path, '/');
    let ghost t = texts(parts@);
    let mut enc: Vec<String> = Vec::new();
    let mut i: usize = 0;
    while i < parts.len()
        invariant
            t == texts(parts@),
            i <= parts.len(),
            enc.len() == i,
            forall|k: int| 0 <= k < i ==> (#[trigger] enc@[k])@ == url_encoded(encode_utf8(t[k])),
        decreases parts.len() - i,
    {
        enc.push(encode_segment(parts[i].as_str()));
        i = i + 1;
    }
    proof {
        assert(texts(enc@) =~= encoded_parts(t));
    }
    let mut out = "https://huggingface.co/".to_owned();
    out.append(encode_segment(owner).as_str());
    out.append("/");
    out.append(encode_segment(name).as_str());
    out.append("/resolve/main/");
    out.append(join(&enc, "/").as_str());
    out.append("?download=true");
    out
}

/// The URL of what a repository says of itself.
pub fn model_url(owner: &str, name: &str) -> (out: String)
    ensures
        out@ == "https://huggingface.co/api/models/"@ + url_encoded(encode_utf8(owner@)) + "/"@
            + url_encoded(encode_utf8(name@)),
{
    let mut out = "https://huggingface.co/api/models/".to_owned();
    out.append(encode_segment(owner).as_str());
    out.append("/");
    out.append(encode_segment(name).as_str());
    out
}

/// The revision that a repository says it is at, unless it is blank.
pub open spec fn revision(sha: Option<Text>) -> Option<Text> {
    match sha {
        Some(s) if trimmed(s).len() > 0 => Some(trimmed(s)),
        _ => None,
    }
}

/// The revision in a field that may be missing.
pub fn revision_of(sha: &Option<String>) -> (r: Option<String>)
    ensures
        opt_text(r) == revision(opt_text(*sha)),
{
    match sha {
        Some(s) => {
            let t = trim(s.as_str());
            if t.as_str().is_empty() {
                None
            } else {
                Some(t)
            }
        },
        None => None,
    }
}

/// The revision that a repository says it is at.
pub fn revision_sha(body: &str) -> (r: Option<String>)
    ensures
        opt_text(r) == revision(text_at(body@, "/sha"@)),
{
    revision_of(&read_text(body, "/sha"))
}

/// As many steps up as given, then the object's file.
pub open spec fn link_text(depth: nat, oid: Text) -> Text
    decreases depth,
{
    if depth == 0 {
        "blobs/"@ + oid
    } else {
        "../"@ + link_text((depth - 1) as nat, oid)
    }
}

/// Where a file of a snapshot points that lies `depth` directories below the
/// model's own.
pub fn relative_blob_link(depth: usize, oid: &str) -> (out: String)
    ensures
        out@ == link_text(depth as nat, oid@),
    decreases depth,
{
    if depth == 0 {
        let mut out = "blobs/".to_owned();
        out.append(oid);
        out
    } else {
        let mut out = "../".to_owned();
        out.append(relative_blob_link(depth - 1, oid).as_str());
        out
    }
}

fn sum_sizes(v: &Vec<RemoteFile>) -> (n: u64)
    ensures
        n == size_sum(files(v@)),
{
    let ghost all = files(v@);
    let mut n: u64 = 0;
    let mut i: usize = 0;
    proof {
        assert(all.take(0) =~= Seq::<FileModel>::empty());
    }
    while i < v.len()
        invariant
            all == files(v@),
            i <= v.len(),
            n == size_sum(all.take(i as int)),
        decreases v.len() - i,
    {
        proof {
            assert(all.take(i + 1).drop_last() =~= all.take(i as int));
            assert(all.take(i + 1).last() == v@[i as int]@);
        }
        n = n.saturating_add(v[i].size);
        i = i + 1;
    }
    proof {
        assert(all.take(all.len() as int) =~= all);
    }
    n
}

/// Whether a file holds weights that can be run by themselves.
pub open spec fn runnable(path: Text) -> bool {
    model_path(path) && !occurs(lower(path), "mmproj"@)
}

/// Where the first file stands that is runnable and has `mark` in its path,
/// from `from` on.
pub open spec fn first_marked(f: Seq<FileModel>, mark: Text, from: int) -> Option<int>
    decreases f.len() - from,
{
    if from < 0 || from >= f.len() {
        None
    } else if runnable(f[from].path) && occurs(lower(f[from].path), mark) {
        Some(from)
    } else {
        first_marked(f, mark, from + 1)
    }
}

/// The tag of a repository, in lower case.
pub open spec fn tag_of(repo: Text) -> Option<Text> {
    match find(trimmed(repo), ":"@) {
        Some(i) => Some(lower(trimmed(repo).skip(i + 1))),
        None => None,
    }
}

/// Where the file stands that a repository is run with: the one its tag asks
/// for; without a tag the usual quantization, else the first.
pub open spec fn primary_index(f: Seq<FileModel>, repo: Text) -> Option<int> {
    match tag_of(repo) {
        Some(tag) => first_marked(f, tag, 0),
        None => match first_marked(f, "q4_k_m"@, 0) {
            Some(i) => Some(i),
            None => first_marked(f, ""@, 0),
        },
    }
}

/// The files that a repository is run with.
pub open spec fn primary_of(f: Seq<FileModel>, repo: Text) -> Seq<FileModel> {
    match primary_index(f, repo) {
        Some(i) => family_of(f, f[i].path),
        None => Seq::empty(),
    }
}

proof fn lemma_first_marked(f: Seq<FileModel>, mark: Text, from: int)
    requires
        0 <= from,
    ensures
        first_marked(f, mark, from) matches Some(i) ==> from <= i < f.len() && runnable(f[i].path)
            && occurs(lower(f[i].path), mark),
    decreases f.len() - from,
{
    if from < f.len() && !(runnable(f[from].path) && occurs(lower(f[from].path), mark)) {
        lemma_first_marked(f, mark, from + 1);
    }
}

fn is_runnable(path: &str) -> (r: bool)
    ensures
        r == runnable(path@),
{
    is_model_file(path) && !contains(to_lower(path).as_str(), "mmproj")
}

fn find_marked(v: &Vec<RemoteFile>, mark: &str) -> (r: Option<usize>)
    ensures
        (match r {
            Some(i) => Some(i as int),
            None => None::<int>,
        }) == first_marked(files(v@), mark@, 0),
        r matches Some(i) ==> i < v@.len(),
{
    let ghost all = files(v@);
    let mut i: usize = 0;
    while i < v.len()
        invariant
            all == files(v@),
            i <= v.len(),
            first_marked(all, mark@, 0) == first_marked(all, mark@, i as int),
        decreases v.len() - i,
    {
        proof {
            assert(all[i as int] == v@[i as int]@);
        }
        let path = v[i].path.as_str();
        if is_runnable(path) && contains(to_lower(path).as_str(), mark) {
            return Some(i);
        }
        i = i + 1;
    }
    None
}

/// The files that a repository is run with: the one its tag asks for, or the
/// usual quantization, or the first, with all that belongs to it.
pub fn primary_gguf_files(v: &Vec<RemoteFile>, repo: &str) -> (out: Vec<RemoteFile>)
    ensures
        files(out@) == primary_of(files(v@), repo@),
{
    let ghost all = files(v@);
    let t = trim(repo);
    proof {
        reveal_strlit(":");
        lemma_find(t@, ":"@);
    }
    let at = match position(t.as_str(), ":") {
        Some(i) => {
            let n: usize = t.as_str().unicode_len();
            let tag = slice(t.as_str(), i + 1, n);
            proof {
                assert(tag@ =~= t@.skip(i + 1));
            }
            find_marked(v, to_lower(tag.as_str()).as_str())
        },
        None => match find_marked(v, "q4_k_m") {
            Some(i) => Some(i),
            None => find_marked(v, ""),
        },
    };
    let mut out: Vec<RemoteFile> = Vec::new();
    match at {
        Some(i) => {
            proof {
                assert(all[i as int] == v@[i as int]@);
            }
            let fam = family(v, v[i].path.as_str());
            let ghost want = lent(fam@);
            let mut k: usize = 0;
            while k < fam.len()
                invariant
                    want == lent(fam@),
                    k <= fam.len(),
                    out.len() == k,
                    forall|j: int| 0 <= j < k ==> (#[trigger] out@[j])@ == want[j],
                decreases fam.len() - k,
            {
                out.push(fam[k].clone());
                k = k + 1;
            }
            proof {
                assert(files(out@) =~= want);
            }
        },
        None => {
            proof {
                assert(files(out@) =~= Seq::<FileModel>::empty());
            }
        },
    }
    out
}

/// The size of the files that a repository is run with, if there are any.
pub fn primary_gguf_bytes(v: &Vec<RemoteFile>, repo: &str) -> (r: Option<u64>)
    ensures
        r == (if primary_of(files(v@), repo@).len() == 0 {
            None
        } else {
            Some(size_sum(primary_of(files(v@), repo@)))
        }),
{
    let chosen = primary_gguf_files(v, repo);
    if chosen.len() == 0 {
        None
    } else {
        Some(sum_sizes(&chosen))
    }
}

proof fn lemma_family_paths(f: Seq<FileModel>, path: Text)
    ensures
        forall|i: int|
            0 <= i < family_of(f, path).len() ==> comes_with(
                (#[trigger] family_of(f, path)[i]).path,
                path,
            ),
        forall|k: int|
            0 <= k < f.len() && comes_with((#[trigger] f[k]).path, path) ==> family_of(
                f,
                path,
            ).contains(f[k]),
    decreases f.len(),
{
    if f.len() > 0 {
        let init = family_of(f.drop_last(), path);
        lemma_family_paths(f.drop_last(), path);
        assert forall|k: int|
            0 <= k < f.len() && comes_with((#[trigger] f[k]).path, path) implies family_of(
            f,
            path,
        ).contains(f[k]) by {
            if k < f.len() - 1 {
                assert(f.drop_last()[k] == f[k]);
                let j = choose|j: int| 0 <= j < init.len() && init[j] == f[k];
                assert(family_of(f, path)[j] == f[k]);
            } else {
                assert(family_of(f, path).last() == f[k]);
            }
        }
    }
}

/// A repository that holds weights is run with some of its files, and they
/// belong together.
pub proof fn law_primary_is_a_family(f: Seq<FileModel>, repo: Text)
    ensures
        primary_index(f, repo) matches Some(i) ==> {
            &&& 0 <= i < f.len()
            &&& runnable(f[i].path)
            &&& primary_of(f, repo).contains(f[i])
            &&& forall|k: int|
                0 <= k < primary_of(f, repo).len() ==> comes_with(
                    (#[trigger] primary_of(f, repo)[k]).path,
                    f[i].path,
                )
        },
        primary_index(f, repo) is None ==> primary_of(f, repo).len() == 0,
{
    if let Some(tag) = tag_of(repo) {
        lemma_first_marked(f, tag, 0);
    }
    lemma_first_marked(f, "q4_k_m"@, 0);
    lemma_first_marked(f, ""@, 0);
    if let Some(i) = primary_index(f, repo) {
        lemma_family_paths(f, f[i].path);
        assert(comes_with(f[i].path, f[i].path));
    }
}

/// A fetch under way: which files, and how far it is.
#[derive(Debug)]
pub struct FetchPlan {
    pub files: Vec<RemoteFile>,
    pub next: usize,
    pub downloaded: u64,
    pub total: u64,
}

/// The view of [`FetchPlan`].
pub struct PlanView {
    pub files: Seq<FileModel>,
    pub next: nat,
    pub downloaded: u64,
    pub total: u64,
}

impl View for FetchPlan {
    type V = PlanView;

    open spec fn view(&self) -> PlanView {
        PlanView {
            files: files(self.files@),
            next: self.next as nat,
            downloaded: self.downloaded,
            total: self.total,
        }
    }
}

/// What comes next in a fetch.
#[derive(Debug)]
pub enum FetchStep {
    /// The fetch was cancelled.
    Cancelled(String),
    /// The file is there already; report it and link it.
    Present(FetchEvent),
    /// The file is to be downloaded.
    Download,
    /// Every file is there.
    Done(u64),
}

impl FetchPlan {
    /// Whether the next file is one of the files, or all are done.
    pub open spec fn valid(self) -> bool {
        self.next <= self.files@.len()
    }

    /// Begins to fetch files of a repository, and says so; nothing to fetch is
    /// an error.
    pub fn start(repo: &str, selected: Vec<RemoteFile>) -> (r: Result<
        (FetchPlan, FetchEvent),
        String,
    >)
        ensures
            if selected@.len() == 0 {
                r matches Err(e) && e@ == "no GGUF files found in "@ + repo@
            } else {
                &&& r matches Ok(p)
                &&& p.0.valid()
                &&& p.0@ == (PlanView {
                    files: files(selected@),
                    next: 0,
                    downloaded: 0,
                    total: size_sum(files(selected@)),
                })
                &&& p.1@ == (FetchView::Started {
                    repo: repo@,
                    file: files(selected@)[0].path,
                    total: size_sum(files(selected@)),
                })
            },
    {
        if selected.len() == 0 {
            let mut e = "no GGUF files found in ".to_owned();
            e.append(repo);
            return Err(e);
        }
        let total: u64 = sum_sizes(&selected);
        let event = FetchEvent::Started {
            repo: repo.to_owned(),
            file: selected[0].path.clone(),
            total,
        };
        Ok((FetchPlan { files: selected, next: 0, downloaded: 0, total }, event))
    }

    /// What comes next: `cached` is the size of the next file in the cache,
    /// where it is there. A file of the right size is not fetched again.
    pub fn step(&mut self, cancelled: bool, cached: Option<u64>) -> (r: FetchStep)
        requires
            old(self).valid(),
        ensures
            final(self).valid(),
            ({
                let p = old(self)@;
                if p.next == p.files.len() {
                    r == FetchStep::Done(p.total) && final(self)@ == p
                } else if cancelled {
                    r matches FetchStep::Cancelled(e) && e@ == "download cancelled"@ && final(self)@ == p
                } else {
                    let f = p.files[p.next as int];
                    if cached == Some(f.size) {
                        let n = plus(p.downloaded, f.size);
                        &&& r matches FetchStep::Present(e)
                        &&& e@ == (FetchView::Progress { downloaded: n, total: p.total, file: f.path })
                        &&& final(self)@ == (PlanView { next: p.next + 1, downloaded: n, ..p })
                    } else {
                        r == FetchStep::Download && final(self)@ == p
                    }
                }
            }),
    {
        if self.next == self.files.len() {
            return FetchStep::Done(self.total);
        }
        if cancelled {
            return FetchStep::Cancelled("download cancelled".to_owned());
        }
        let size: u64 = self.files[self.next].size;
        let there: bool = match cached {
            Some(n) => n == size,
            None => false,
        };
        if there {
            self.downloaded = self.downloaded.saturating_add(size);
            let e = FetchEvent::Progress {
                downloaded: self.downloaded,
                total: self.total,
                file: self.files[self.next].path.clone(),
            };
            self.next = self.next + 1;
            FetchStep::Present(e)
        } else {
            FetchStep::Download
        }
    }

    /// Goes on to the next file after one was downloaded.
    pub fn downloaded_file(&mut self, downloaded: u64)
        requires
            old(self).valid(),
            old(self).next < old(self).files@.len(),
        ensures
            final(self).valid(),
            final(self)@ == (PlanView { next: old(self)@.next + 1, downloaded, ..old(self)@ }),
    {
        let count: usize = self.files.len();
        assert(self.next < count);
        self.downloaded = downloaded;
        self.next = self.next + 1;
    }
}

/// The download of one file under way.
#[derive(Clone, Copy, Debug, PartialEq, Eq, Structural)]
pub struct BlobDownload {
    /// Bytes of the whole fetch so far.
    pub downloaded: u64,
    /// Bytes of the whole fetch.
    pub total: u64,
    /// Bytes of this file so far.
    pub file_bytes: u64,
    /// Bytes since the last report.
    pub since_progress: u64,
}

/// What the network gave.
#[derive(Clone, Copy, Debug, PartialEq, Eq, Structural)]
pub enum ReadEvent {
    Cancelled,
    Chunk(u64),
    End,
}

/// What to do with it.
#[derive(Debug)]
pub enum BlobAction {
    /// Remove the unfinished file and give up.
    Abort(String),
    /// The chunk counts; report progress where there is a report.
    Wrote(Option<FetchEvent>),
    /// Put the file in its place and report.
    Finish(FetchEvent),
}

/// A report of progress.
pub open spec fn progress(d: BlobDownload, path: Text) -> FetchView {
    FetchView::Progress { downloaded: d.downloaded, total: d.total, file: path }
}

/// The download with one more chunk.
pub open spec fn with_chunk(d: BlobDownload, n: u64) -> BlobDownload {
    let since = plus(d.since_progress, n);
    BlobDownload {
        downloaded: plus(d.downloaded, n),
        file_bytes: plus(d.file_bytes, n),
        since_progress: if since >= PROGRESS_EVERY_BYTES {
            0
        } else {
            since
        },
        ..d
    }
}

/// Whether a chunk makes a report due.
pub open spec fn report_due(d: BlobDownload, n: u64) -> bool {
    plus(d.since_progress, n) >= PROGRESS_EVERY_BYTES
}

impl BlobDownload {
    /// The download of a file, after what was fetched before.
    pub fn begin(downloaded: u64, total: u64) -> (r: BlobDownload)
        ensures
            r == (BlobDownload { downloaded, total, file_bytes: 0, since_progress: 0 }),
    {
        BlobDownload { downloaded, total, file_bytes: 0, since_progress: 0 }
    }

    /// One step: counts a chunk and reports every few megabytes; at the end a
    /// file of another size than it should have is given up.
    pub fn step(&mut self, file: &RemoteFile, event: ReadEvent) -> (r: BlobAction)
        ensures
            match event {
                ReadEvent::Cancelled => {
                    &&& r matches BlobAction::Abort(e)
                    &&& e@ == "download cancelled"@
                    &&& *final(self) == *old(self)
                },
                ReadEvent::Chunk(n) => {
                    &&& *final(self) == with_chunk(*old(self), n)
                    &&& r matches BlobAction::Wrote(e)
                    &&& (e is Some) == report_due(*old(self), n)
                    &&& (e matches Some(x) ==> x@ == progress(*final(self), file@.path))
                },
                ReadEvent::End => {
                    &&& *final(self) == *old(self)
                    &&& if file@.size > 0 && old(self).file_bytes != file@.size {
                        &&& r matches BlobAction::Abort(e)
                        &&& e@ == file@.path + " ended early ("@ + decimal(
                            old(self).file_bytes as nat) + " of "@ + decimal(file@.size as nat) + " bytes)"@
                    } else {
                        &&& r matches BlobAction::Finish(e)
                        &&& e@ == progress(*old(self), file@.path)
                    }
                },
            },
    {
        match event {
            ReadEvent::Cancelled => BlobAction::Abort("download cancelled".to_owned()),
            ReadEvent::Chunk(n) => {
                self.file_bytes = self.file_bytes.saturating_add(n);
                self.downloaded = self.downloaded.saturating_add(n);
                let since: u64 = self.since_progress.saturating_add(n);
                if since >= PROGRESS_EVERY_BYTES {
                    self.since_progress = 0;
                    BlobAction::Wrote(
                        Some(
                            FetchEvent::Progress {
                                downloaded: self.downloaded,
                                total: self.total,
                                file: file.path.clone(),
                            },
                        ),
                    )
                } else {
                    self.since_progress = since;
                    BlobAction::Wrote(None)
                }
            },
            ReadEvent::End => {
                if file.size > 0 && self.file_bytes != file.size {
                    let mut e = file.path.clone();
                    e.append(" ended early (");
                    e.append(number(self.file_bytes).as_str());
                    e.append(" of ");
                    e.append(number(file.size).as_str());
                    e.append(" bytes)");
                    BlobAction::Abort(e)
                } else {
                    BlobAction::Finish(
                        FetchEvent::Progress {
                            downloaded: self.downloaded,
                            total: self.total,
                            file: file.path.clone(),
                        },
                    )
                }
            },
        }
    }
}

/// The download after a number of chunks.
pub open spec fn with_chunks(d: BlobDownload, n: Seq<u64>) -> BlobDownload
    decreases n.len(),
{
    if n.len() == 0 {
        d
    } else {
        with_chunk(with_chunks(d, n.drop_last()), n.last())
    }
}

/// The sum of numbers.
pub open spec fn sum(n: Seq<u64>) -> int
    decreases n.len(),
{
    if n.len() == 0 {
        0
    } else {
        sum(n.drop_last()) + n.last()
    }
}

/// However a file arrives in chunks, all its bytes are counted: for the file
/// and for the whole fetch.
pub proof fn law_chunks_are_counted(d: BlobDownload, n: Seq<u64>)
    requires
        d.file_bytes + sum(n) <= u64::MAX,
        d.downloaded + sum(n) <= u64::MAX,
    ensures
        with_chunks(d, n).file_bytes == d.file_bytes + sum(n),
        with_chunks(d, n).downloaded == d.downloaded + sum(n),
        with_chunks(d, n).total == d.total,
    decreases n.len(),
{
    if n.len() > 0 {
        lemma_sum_nonneg(n.drop_last());
        law_chunks_are_counted(d, n.drop_last());
    }
}

proof fn lemma_sum_nonneg(n: Seq<u64>)
    ensures
        sum(n) >= 0,
    decreases n.len(),
{
    if n.len() > 0 {
        lemma_sum_nonneg(n.drop_last());
    }
}

/// A tag picks the first model file that bears it; without a tag a medium
/// quantisation is picked where there is one, else the first model file. A
/// projector is never picked.
pub proof fn law_tag_picks_the_model(f: Seq<FileModel>, name: Text, tag: Text, i: int)
    requires
        !name.contains(':'),
        name.len() > 0,
        !is_space(name[0]),
        !is_space(name.last()),
        tag.len() > 0,
        !is_space(tag.last()),
        0 <= i < f.len(),
        model_path(f[i].path),
        !occurs(lower(f[i].path), "mmproj"@),
    ensures
        ({
            let p = primary_index(f, name + ":"@ + tag);
            &&& occurs(lower(f[i].path), lower(tag)) ==> (p matches Some(k) && k <= i)
            &&& p matches Some(k) ==> 0 <= k < f.len() && occurs(lower(f[k].path), lower(tag))
                && ".gguf"@.is_suffix_of(lower(f[k].path)) && !occurs(lower(f[k].path), "mmproj"@)
        }),
        ({
            let p = primary_index(f, name);
            &&& p is Some
            &&& occurs(lower(f[i].path), "q4_k_m"@) ==> occurs(lower(f[p->0].path), "q4_k_m"@)
                && p->0 <= i
            &&& ".gguf"@.is_suffix_of(lower(f[p->0].path))
            &&& !occurs(lower(f[p->0].path), "mmproj"@)
        }),
{
    reveal_strlit(":");
    reveal_strlit("");
    let whole = name + ":"@ + tag;
    assert(whole[0] == name[0] && whole.last() == tag.last());
    assert(trimmed(whole) == whole);
    assert(!occurs(name, ":"@)) by {
        if occurs(name, ":"@) {
            let j = choose|j: int| crate::text::occurs_at(name, ":"@, j);
            assert(name.subrange(j, j + 1)[0] == name[j]);
            assert(name.contains(name[j]));
        }
    }
    crate::text::lemma_found_behind(name, ":"@, tag);
    assert(whole.skip(name.len() as int + 1) =~= tag);
    assert(trimmed(name) == name);
    lemma_find(name, ":"@);
    lemma_first_marked_least(f, lower(tag), 0, i);
    lemma_first_marked(f, lower(tag), 0);
    lemma_first_marked_least(f, "q4_k_m"@, 0, i);
    lemma_first_marked(f, "q4_k_m"@, 0);
    assert(lower(f[i].path).subrange(0, 0) =~= ""@);
    assert(crate::text::occurs_at(lower(f[i].path), ""@, 0));
    lemma_first_marked_least(f, ""@, 0, i);
    lemma_first_marked(f, ""@, 0);
}

proof fn lemma_first_marked_least(f: Seq<FileModel>, mark: Text, from: int, i: int)
    requires
        0 <= from <= i < f.len(),
        runnable(f[i].path),
    ensures
        occurs(lower(f[i].path), mark) ==> (first_marked(f, mark, from) matches Some(k) && k <= i),
    decreases i - from,
{
    if from < i {
        lemma_first_marked_least(f, mark, from + 1, i);
    }
}

/// A file that is only a projector is never taken for the model.
pub proof fn law_model_can_run(f: Seq<FileModel>, repo: Text)
    ensures
        primary_index(f, repo) matches Some(i) ==> 0 <= i < f.len() && model_path(f[i].path)
            && !occurs(lower(f[i].path), "mmproj"@),
{
    match tag_of(repo) {
        Some(tag) => lemma_marked_runs(f, tag, 0),
        None => {
            lemma_marked_runs(f, "q4_k_m"@, 0);
            lemma_marked_runs(f, ""@, 0);
        },
    }
}

proof fn lemma_marked_runs(f: Seq<FileModel>, mark: Text, from: int)
    ensures
        first_marked(f, mark, from) matches Some(i) ==> 0 <= i < f.len() && runnable(f[i].path),
    decreases f.len() - from,
{
    if 0 <= from < f.len() && !(runnable(f[from].path) && occurs(lower(f[from].path), mark)) {
        lemma_marked_runs(f, mark, from + 1);
    }
}

/// Whether a link goes one directory up at a place.
pub open spec fn goes_up(t: Text, k: int) -> bool {
    t.subrange(3 * k, 3 * k + 3) == "../"@
}

/// A link leads up as many directories as it lies deep, and then to the object.
pub proof fn law_link_leads_to_its_object(depth: nat, oid: Text)
    ensures
        link_text(depth, oid).len() == 3 * depth + 6 + oid.len(),
        ("blobs/"@ + oid).is_suffix_of(link_text(depth, oid)),
        forall|k: int| 0 <= k < depth ==> #[trigger] goes_up(link_text(depth, oid), k),
    decreases depth,
{
    reveal_strlit("blobs/");
    reveal_strlit("../");
    let t = link_text(depth, oid);
    let b = "blobs/"@ + oid;
    if depth > 0 {
        let r = link_text((depth - 1) as nat, oid);
        law_link_leads_to_its_object((depth - 1) as nat, oid);
        assert(r.subrange(r.len() - b.len(), r.len() as int) == b);
        assert(t.subrange(t.len() - b.len(), t.len() as int) =~= r.subrange(
            r.len() - b.len(),
            r.len() as int,
        ));
        assert forall|k: int| 0 <= k < depth implies #[trigger] goes_up(t, k) by {
            if k == 0 {
                assert(t.subrange(0, 3) =~= "../"@);
            } else {
                assert(goes_up(r, k - 1));
                assert(t.subrange(3 * k, 3 * k + 3) =~= r.subrange(3 * (k - 1), 3 * (k - 1) + 3));
            }
        }
    } else {
        assert(t.subrange(0, t.len() as int) =~= t);
    }
}

/// A repository that is fetched is read by its owner and its name; the tag behind
/// a colon is left out.
pub proof fn law_fetched_repository_has_two_parts(owner: Text, name: Text, tag: Text)
    requires
        owner.len() > 0,
        !crate::text::is_space(owner[0]),
        tag.len() > 0,
        !crate::text::is_space(tag.last()),
        !owner.contains('/'),
        !owner.contains(':'),
        !name.contains(':'),
    ensures
        owner_and_name(owner + "/"@ + name + ":"@ + tag) == Ok::<(Text, Text), Text>((owner, name)),
{
    reveal_strlit("/");
    reveal_strlit(":");
    let path = owner + "/"@ + name;
    let s = path + ":"@ + tag;
    assert(s[0] == owner[0] && s.last() == tag.last());
    assert(trimmed(s) == s);
    assert(!path.contains(':')) by {
        if path.contains(':') {
            let k = choose|k: int| 0 <= k < path.len() && path[k] == ':';
            if k < owner.len() {
                assert(owner.contains(owner[k]));
            } else if k > owner.len() {
                assert(name.contains(name[k - owner.len() - 1]));
            }
        }
    }
    assert(":"@ =~= seq![':']);
    lemma_front_piece(path, tag, ':');
    assert(!occurs(owner, "/"@)) by {
        if occurs(owner, "/"@) {
            let i = choose|i: int| crate::text::occurs_at(owner, "/"@, i);
            assert(owner.subrange(i, i + 1)[0] == owner[i]);
            assert(owner.contains(owner[i]));
        }
    }
    crate::text::lemma_found_behind(owner, "/"@, name);
    assert(path.take(owner.len() as int) =~= owner);
    assert(path.skip(owner.len() as int + 1) =~= name);
}

proof fn lemma_front_piece(a: Text, b: Text, c: char)
    requires
        !a.contains(c),
    ensures
        split_on(a + seq![c] + b, c)[0] == a,
    decreases a.len(),
{
    let s = a + seq![c] + b;
    if a.len() > 0 {
        let d = a.drop_first();
        assert(a.contains(a[0]));
        assert(!d.contains(c)) by {
            if d.contains(c) {
                let k = choose|k: int| 0 <= k < d.len() && d[k] == c;
                assert(a[k + 1] == c);
            }
        }
        lemma_front_piece(d, b, c);
        assert(s.drop_first() =~= d + seq![c] + b);
        assert(seq![s[0]] + d =~= a);
    } else {
        assert(s[0] == c);
        assert(a =~= Seq::<char>::empty());
    }
}

} // verus!
