//! Downloads under way: how far they are, how fast, and when they end.
use vstd::prelude::*;

use crate::cache::{
    blob_sum, blobs, blobs_of, empty_scan, in_flight_of, incomplete, looks_incomplete_scan,
    BlobView, CacheScan, CachedBlob, ScanView,
};
use crate::config::copy_opt;
use crate::fetch::{FetchEvent, FetchView};
use crate::hub::{
    family, family_of, files, is_model_file, lent, model_path, size_sum, total_size, FileModel,
    RemoteFile,
};
use crate::text::{opt_text, same, texts, Text};

verus! {

broadcast use vstd::string::group_string_axioms;

/// How long a transfer rate is averaged over, in milliseconds.
pub const RATE_WINDOW: u64 = 5_000;

/// How often the cache is read, in milliseconds.
pub const POLL_INTERVAL: u64 = 250;

/// How many bytes there were at a time, in milliseconds.
#[derive(Clone, Copy, Debug, PartialEq, Eq, Structural)]
pub struct Sample {
    pub at: u64,
    pub bytes: u64,
}

/// Bytes over milliseconds.
#[derive(Clone, Copy, Debug, PartialEq, Eq, Structural)]
pub struct Rate {
    pub bytes: u64,
    pub millis: u64,
}

/// What is left of `a` after `b`, and nothing below zero.
pub open spec fn minus(a: u64, b: u64) -> u64 {
    if a >= b {
        (a - b) as u64
    } else {
        0
    }
}

/// The samples without the leading ones that are older than the window.
pub open spec fn recent(s: Seq<Sample>, now: u64) -> Seq<Sample>
    decreases s.len(),
{
    if s.len() > 0 && minus(now, s[0].at) > RATE_WINDOW {
        recent(s.drop_first(), now)
    } else {
        s
    }
}

/// The samples with a new one, without those that are too old.
pub open spec fn sampled(s: Seq<Sample>, now: u64, bytes: u64) -> Seq<Sample> {
    recent(s.push(Sample { at: now, bytes }), now)
}

fn add_sample(s: &mut Vec<Sample>, now: u64, bytes: u64)
    ensures
        final(s)@ == sampled(old(s)@, now, bytes),
{
    s.push(Sample { at: now, bytes });
    let ghost want = recent(s@, now);
    while s.len() > 0 && now.saturating_sub(s[0].at) > RATE_WINDOW
        invariant
            recent(s@, now) == want,
        decreases s.len(),
    {
        let ghost was = s@;
        let _ = s.remove(0);
        proof {
            assert(s@ =~= was.drop_first());
        }
    }
}

/// The rate over the samples, once they span a second.
pub open spec fn rate_of(s: Seq<Sample>) -> Option<Rate> {
    if s.len() == 0 {
        None
    } else {
        let millis = minus(s.last().at, s[0].at);
        if millis >= 1000 {
            Some(Rate { bytes: minus(s.last().bytes, s[0].bytes), millis })
        } else {
            None
        }
    }
}

fn rate_over(s: &Vec<Sample>) -> (r: Option<Rate>)
    ensures
        r == rate_of(s@),
{
    if s.len() == 0 {
        return None;
    }
    let first: Sample = s[0];
    let last: Sample = s[s.len() - 1];
    let millis: u64 = last.at.saturating_sub(first.at);
    if millis >= 1000 {
        Some(Rate { bytes: last.bytes.saturating_sub(first.bytes), millis })
    } else {
        None
    }
}

/// The part of a known total that is there, as two numbers.
pub open spec fn part_of(downloaded: u64, total: Option<u64>) -> Option<(u64, u64)> {
    match total {
        Some(t) if t > 0 => Some((if downloaded <= t { downloaded } else { t }, t)),
        _ => None,
    }
}

fn part(downloaded: u64, total: Option<u64>) -> (r: Option<(u64, u64)>)
    ensures
        r == part_of(downloaded, total),
{
    match total {
        Some(t) => if t > 0 {
            Some((if downloaded <= t { downloaded } else { t }, t))
        } else {
            None
        },
        None => None,
    }
}

/// The milliseconds that are left, if the total is known and more than a byte
/// a second comes in.
pub open spec fn time_left(downloaded: u64, total: Option<u64>, rate: Option<Rate>) -> Option<int> {
    match (total, rate) {
        (Some(t), Some(r)) if r.bytes * 1000 > r.millis => Some(
            minus(t, downloaded) as int * r.millis as int / (r.bytes as int),
        ),
        _ => None,
    }
}

fn left(downloaded: u64, total: Option<u64>, rate: Option<Rate>) -> (r: Option<u128>)
    ensures
        (match r {
            Some(n) => Some(n as int),
            None => None::<int>,
        }) == time_left(downloaded, total, rate),
{
    match (total, rate) {
        (Some(t), Some(r)) => {
            if (r.bytes as u128) * 1000 > r.millis as u128 {
                let rest: u64 = t.saturating_sub(downloaded);
                let millis: u64 = r.millis;
                proof {
                    assert(0 <= rest * millis <= u64::MAX * u64::MAX) by (nonlinear_arith)
                        requires
                            0 <= rest <= u64::MAX,
                            0 <= millis <= u64::MAX,
                    ;
                    assert(u64::MAX * u64::MAX <= u128::MAX) by (nonlinear_arith);
                }
                Some((rest as u128) * (millis as u128) / (r.bytes as u128))
            } else {
                None
            }
        },
        _ => None,
    }
}

/// What is shown of a part is never more than the whole.
pub proof fn law_part_is_bounded(downloaded: u64, total: Option<u64>)
    ensures
        part_of(downloaded, total) matches Some((n, t)) ==> n <= t && t > 0,
{
}

/// The newest sample always stays, so a rate is over the window at most.
pub proof fn law_samples_span_the_window(s: Seq<Sample>, now: u64, bytes: u64)
    ensures
        sampled(s, now, bytes).len() > 0,
        sampled(s, now, bytes).last() == (Sample { at: now, bytes }),
        minus(now, sampled(s, now, bytes)[0].at) <= RATE_WINDOW,
{
    lemma_recent(s.push(Sample { at: now, bytes }), now);
}

proof fn lemma_recent(s: Seq<Sample>, now: u64)
    requires
        s.len() > 0,
        s.last().at == now,
    ensures
        recent(s, now).len() > 0,
        recent(s, now).last() == s.last(),
        minus(now, recent(s, now)[0].at) <= RATE_WINDOW,
    decreases s.len(),
{
    if minus(now, s[0].at) > RATE_WINDOW {
        assert(s.drop_first().last() == s.last());
        lemma_recent(s.drop_first(), now);
    }
}

/// The fetch of a model that a server performs before it can load it: its
/// bytes are seen in the cache, its size in the repository's listing.
#[derive(Debug)]
pub struct Download {
    pub repo: String,
    /// Name of the file being fetched, once the listing identifies it.
    pub file: Option<String>,
    pub downloaded: u64,
    /// Real size of the download, from the listing.
    pub total: Option<u64>,
    pub active: bool,
    /// The size that was expected, where one was.
    pub expected: Option<u64>,
    pub oids: Vec<String>,
    pub files: Vec<RemoteFile>,
    /// Whether the listing is still to come.
    pub listing: bool,
    pub listing_error: Option<String>,
    pub scan: CacheScan,
    pub scan_ready: bool,
    pub samples: Vec<Sample>,
    pub last_poll: u64,
}

/// The view of [`Download`].
#[verifier::ext_equal]
pub struct DownloadView {
    pub repo: Text,
    pub file: Option<Text>,
    pub downloaded: u64,
    pub total: Option<u64>,
    pub active: bool,
    pub expected: Option<u64>,
    pub oids: Seq<Text>,
    pub files: Seq<FileModel>,
    pub listing: bool,
    pub listing_error: Option<Text>,
    pub scan: ScanView,
    pub scan_ready: bool,
    pub samples: Seq<Sample>,
    pub last_poll: u64,
}

impl View for Download {
    type V = DownloadView;

    open spec fn view(&self) -> DownloadView {
        DownloadView {
            repo: self.repo@,
            file: opt_text(self.file),
            downloaded: self.downloaded,
            total: self.total,
            active: self.active,
            expected: self.expected,
            oids: texts(self.oids@),
            files: files(self.files@),
            listing: self.listing,
            listing_error: opt_text(self.listing_error),
            scan: self.scan@,
            scan_ready: self.scan_ready,
            samples: self.samples@,
            last_poll: self.last_poll,
        }
    }
}

/// A download that was just begun.
pub open spec fn new_download(
    repo: Text,
    expected: Option<u64>,
    listing: bool,
    now: u64,
) -> DownloadView {
    DownloadView {
        repo,
        file: None,
        downloaded: 0,
        total: None,
        active: true,
        expected,
        oids: Seq::empty(),
        files: Seq::empty(),
        listing,
        listing_error: None,
        scan: empty_scan(),
        scan_ready: false,
        samples: seq![Sample { at: now, bytes: 0 }],
        last_poll: now,
    }
}

/// Whether a listing has a model file of the given object.
pub open spec fn lists_model(f: Seq<FileModel>, oid: Text) -> bool {
    exists|i: int| 0 <= i < f.len() && (#[trigger] f[i]).oid == oid && model_path(f[i].path)
}

/// The first of the cached files that the listing knows as a model.
pub open spec fn first_known(b: Seq<BlobView>, f: Seq<FileModel>) -> Option<Text>
    decreases b.len(),
{
    if b.len() == 0 {
        None
    } else if lists_model(f, b[0].oid) {
        Some(b[0].oid)
    } else {
        first_known(b.drop_first(), f)
    }
}

/// The object that is being fetched: one in flight before any other.
pub open spec fn target_oid(scan: ScanView, f: Seq<FileModel>) -> Option<Text> {
    match first_known(in_flight_of(scan.blobs), f) {
        Some(oid) => Some(oid),
        None => first_known(scan.blobs, f),
    }
}

/// Where the first file of an object stands in a listing, from `from` on.
pub open spec fn file_at(f: Seq<FileModel>, oid: Text, from: int) -> Option<int>
    decreases f.len() - from,
{
    if from < 0 || from >= f.len() {
        None
    } else if f[from].oid == oid {
        Some(from)
    } else {
        file_at(f, oid, from + 1)
    }
}

/// The objects of files.
pub open spec fn oids_of(f: Seq<FileModel>) -> Seq<Text> {
    Seq::new(f.len(), |i: int| f[i].oid)
}

/// The download once the listing is matched to what is in the cache.
pub open spec fn resolved(d: DownloadView) -> DownloadView {
    if d.total is Some {
        d
    } else {
        match target_oid(d.scan, d.files) {
            Some(oid) => match file_at(d.files, oid, 0) {
                Some(i) => {
                    let fam = family_of(d.files, d.files[i].path);
                    DownloadView {
                        total: Some(size_sum(fam)),
                        oids: oids_of(fam),
                        file: Some(d.files[i].path),
                        ..d
                    }
                },
                None => d,
            },
            None => d,
        }
    }
}

/// The bytes in the cache that belong to a download.
pub open spec fn bytes_there(d: DownloadView) -> u64 {
    if d.oids.len() == 0 {
        blob_sum(d.scan.flat_bytes, d.scan.blobs)
    } else {
        blob_sum(0, blobs_of(d.scan.blobs, d.oids))
    }
}

/// Whether a download is still going on after the cache was read.
pub open spec fn still_active(d: DownloadView, first: bool) -> bool {
    let there = bytes_there(d);
    let flying = in_flight_of(d.scan.blobs).len() > 0;
    let complete = !incomplete(d.scan, d.expected);
    if first && !flying && complete {
        false
    } else if flying || there > d.downloaded {
        true
    } else if (d.total matches Some(t) && there >= t) || (d.total is None && complete) {
        false
    } else {
        d.active
    }
}

/// The download after the cache was read.
pub open spec fn measured(d: DownloadView, first: bool, sample: bool, now: u64) -> DownloadView {
    DownloadView {
        active: still_active(d, first),
        downloaded: bytes_there(d),
        samples: if sample {
            sampled(d.samples, now, bytes_there(d))
        } else {
            d.samples
        },
        ..d
    }
}

/// The download with a listing that arrived.
pub open spec fn with_listing(
    d: DownloadView,
    r: Result<Seq<FileModel>, Text>,
) -> DownloadView {
    match r {
        Ok(f) => DownloadView { files: f, listing: false, ..d },
        Err(e) => DownloadView { listing_error: Some(e), listing: false, ..d },
    }
}

/// The download with a reading of the cache that arrived.
pub open spec fn with_scan(d: DownloadView, s: ScanView, now: u64) -> DownloadView {
    measured(
        resolved(DownloadView { scan: s, scan_ready: true, ..d }),
        !d.scan_ready,
        true,
        now,
    )
}

/// The download after one look at what arrived.
pub open spec fn polled(
    d: DownloadView,
    now: u64,
    listing: Option<Result<Seq<FileModel>, Text>>,
    scan: Option<ScanView>,
) -> DownloadView {
    let d1 = DownloadView { last_poll: now, ..d };
    let d2 = match listing {
        Some(r) => with_listing(d1, r),
        None => d1,
    };
    match scan {
        Some(s) => with_scan(d2, s, now),
        None => if listing is Some && d.scan_ready {
            measured(resolved(d2), false, false, now)
        } else {
            d2
        },
    }
}

/// What a listing that arrived says.
pub open spec fn listing_view(
    r: Option<Result<Vec<RemoteFile>, String>>,
) -> Option<Result<Seq<FileModel>, Text>> {
    match r {
        Some(Ok(v)) => Some(Ok(files(v@))),
        Some(Err(e)) => Some(Err(e@)),
        None => None,
    }
}

/// What a reading of the cache that arrived says.
pub open spec fn scan_view(s: Option<CacheScan>) -> Option<ScanView> {
    match s {
        Some(s) => Some(s@),
        None => None,
    }
}

fn knows_model(v: &Vec<RemoteFile>, oid: &str) -> (r: bool)
    ensures
        r == lists_model(files(v@), oid@),
{
    let ghost all = files(v@);
    let mut i: usize = 0;
    while i < v.len()
        invariant
            all == files(v@),
            i <= v.len(),
            forall|k: int|
                0 <= k < i ==> !((#[trigger] all[k]).oid == oid@ && model_path(all[k].path)),
        decreases v.len() - i,
    {
        proof {
            assert(all[i as int] == v@[i as int]@);
        }
        if same(v[i].oid.as_str(), oid) && is_model_file(v[i].path.as_str()) {
            return true;
        }
        i = i + 1;
    }
    false
}

fn known_blob(b: &Vec<&CachedBlob>, v: &Vec<RemoteFile>) -> (r: Option<String>)
    ensures
        opt_text(r) == first_known(crate::cache::lent_blobs(b@), files(v@)),
{
    let ghost all = crate::cache::lent_blobs(b@);
    let mut i: usize = 0;
    proof {
        assert(all.skip(0) =~= all);
    }
    while i < b.len()
        invariant
            all == crate::cache::lent_blobs(b@),
            i <= b.len(),
            first_known(all, files(v@)) == first_known(all.skip(i as int), files(v@)),
        decreases b.len() - i,
    {
        proof {
            assert(all.skip(i as int)[0] == b@[i as int]@);
            assert(all.skip(i as int).drop_first() =~= all.skip(i + 1));
        }
        if knows_model(v, b[i].oid.as_str()) {
            return Some(b[i].oid.clone());
        }
        i = i + 1;
    }
    None
}

fn find_file(v: &Vec<RemoteFile>, oid: &str) -> (r: Option<usize>)
    ensures
        (match r {
            Some(i) => Some(i as int),
            None => None::<int>,
        }) == file_at(files(v@), oid@, 0),
        r matches Some(i) ==> i < v@.len(),
{
    let ghost all = files(v@);
    let mut i: usize = 0;
    while i < v.len()
        invariant
            all == files(v@),
            i <= v.len(),
            file_at(all, oid@, 0) == file_at(all, oid@, i as int),
        decreases v.len() - i,
    {
        proof {
            assert(all[i as int] == v@[i as int]@);
        }
        if same(v[i].oid.as_str(), oid) {
            return Some(i);
        }
        i = i + 1;
    }
    None
}

fn take_oids(v: &Vec<&RemoteFile>) -> (out: Vec<String>)
    ensures
        texts(out@) == oids_of(lent(v@)),
{
    let mut out: Vec<String> = Vec::new();
    let mut i: usize = 0;
    while i < v.len()
        invariant
            i <= v.len(),
            out.len() == i,
            forall|k: int| 0 <= k < i ==> (#[trigger] out@[k])@ == v@[k]@.oid,
        decreases v.len() - i,
    {
        out.push(v[i].oid.clone());
        i = i + 1;
    }
    proof {
        assert(texts(out@) =~= oids_of(lent(v@)));
    }
    out
}

fn lend_blobs(v: &Vec<CachedBlob>) -> (out: Vec<&CachedBlob>)
    ensures
        crate::cache::lent_blobs(out@) == blobs(v@),
{
    let mut out: Vec<&CachedBlob> = Vec::new();
    let mut i: usize = 0;
    while i < v.len()
        invariant
            i <= v.len(),
            out.len() == i,
            forall|k: int| 0 <= k < i ==> (#[trigger] out@[k])@ == v@[k]@,
        decreases v.len() - i,
    {
        out.push(&v[i]);
        i = i + 1;
    }
    proof {
        assert(crate::cache::lent_blobs(out@) =~= blobs(v@));
    }
    out
}

impl Download {
    /// A download that begins now.
    pub fn new(repo: &str, expected: Option<u64>, listing: bool, now: u64) -> (r: Download)
        ensures
            r@ == new_download(repo@, expected, listing, now),
    {
        let mut samples: Vec<Sample> = Vec::new();
        samples.push(Sample { at: now, bytes: 0 });
        let r = Download {
            repo: repo.to_owned(),
            file: None,
            downloaded: 0,
            total: None,
            active: true,
            expected,
            oids: Vec::new(),
            files: Vec::new(),
            listing,
            listing_error: None,
            scan: CacheScan::default(),
            scan_ready: false,
            samples,
            last_poll: now,
        };
        proof {
            assert(texts(r.oids@) =~= Seq::<Text>::empty());
            assert(files(r.files@) =~= Seq::<FileModel>::empty());
            assert(r.samples@ =~= seq![Sample { at: now, bytes: 0 }]);
        }
        r
    }

    /// Whether the download is going on.
    pub fn is_active(&self) -> (r: bool)
        ensures
            r == self@.active,
    {
        self.active
    }

    /// Why the listing could not be had.
    pub fn listing_error(&self) -> (r: Option<String>)
        ensures
            opt_text(r) == self@.listing_error,
    {
        copy_opt(&self.listing_error)
    }

    /// Bytes over the recent window, once there is enough history.
    pub fn rate(&self) -> (r: Option<Rate>)
        ensures
            r == rate_of(self@.samples),
    {
        rate_over(&self.samples)
    }

    /// The part of the download that is there.
    pub fn fraction(&self) -> (r: Option<(u64, u64)>)
        ensures
            r == part_of(self@.downloaded, self@.total),
    {
        part(self.downloaded, self.total)
    }

    /// The milliseconds left at the current rate.
    pub fn eta(&self) -> (r: Option<u128>)
        ensures
            (match r {
                Some(n) => Some(n as int),
                None => None::<int>,
            }) == time_left(self@.downloaded, self@.total, rate_of(self@.samples)),
    {
        left(self.downloaded, self.total, self.rate())
    }

    /// Whether it is time to look at what arrived.
    pub fn due(&self, now: u64) -> (r: bool)
        ensures
            r == (minus(now, self@.last_poll) >= POLL_INTERVAL),
    {
        now.saturating_sub(self.last_poll) >= POLL_INTERVAL
    }

    /// Takes in the listing and the reading of the cache that arrived, and says
    /// whether the cache is to be read again.
    pub fn poll(
        &mut self,
        now: u64,
        listing: Option<Result<Vec<RemoteFile>, String>>,
        scan: Option<CacheScan>,
    ) -> (again: bool)
        ensures
            final(self)@ == polled(old(self)@, now, listing_view(listing), scan_view(scan)),
            again == (scan is Some),
    {
        self.last_poll = now;
        let listed: bool = match listing {
            Some(Ok(v)) => {
                self.listing = false;
                self.files = v;
                true
            },
            Some(Err(e)) => {
                self.listing = false;
                self.listing_error = Some(e);
                true
            },
            None => false,
        };
        match scan {
            Some(s) => {
                let first: bool = !self.scan_ready;
                self.scan_ready = true;
                self.scan = s;
                self.resolve_target();
                self.update_from_scan(first, true, now);
                true
            },
            None => {
                if listed && self.scan_ready {
                    self.resolve_target();
                    self.update_from_scan(false, false, now);
                }
                false
            },
        }
    }

    /// Counts what the cache holds of the download, and judges whether it goes
    /// on.
    pub fn update_from_scan(&mut self, first: bool, sample: bool, now: u64)
        ensures
            final(self)@ == measured(old(self)@, first, sample, now),
    {
        let there: u64 = if self.oids.len() == 0 {
            self.scan.total_bytes()
        } else {
            self.scan.bytes_of(&self.oids)
        };
        let flying: bool = self.scan.in_flight().len() > 0;
        let complete: bool = !looks_incomplete_scan(&self.scan, self.expected);
        let reached: bool = match self.total {
            Some(t) => there >= t,
            None => complete,
        };
        if first && !flying && complete {
            self.active = false;
        } else if flying || there > self.downloaded {
            self.active = true;
        } else if reached {
            self.active = false;
        }
        self.downloaded = there;
        if sample {
            add_sample(&mut self.samples, now, there);
        }
    }

    /// Matches the file being written to the listing, which gives it a name and
    /// an exact size.
    pub fn resolve_target(&mut self)
        ensures
            final(self)@ == resolved(old(self)@),
    {
        if self.total.is_some() {
            return;
        }
        let flying = self.scan.in_flight();
        let found = match known_blob(&flying, &self.files) {
            Some(oid) => Some(oid),
            None => known_blob(&lend_blobs(&self.scan.blobs), &self.files),
        };
        match found {
            Some(oid) => match find_file(&self.files, oid.as_str()) {
                Some(i) => {
                    proof {
                        assert(files(self.files@)[i as int] == self.files@[i as int]@);
                    }
                    let path = self.files[i].path.clone();
                    let fam = family(&self.files, path.as_str());
                    let total: u64 = total_size(&fam);
                    let oids = take_oids(&fam);
                    self.total = Some(total);
                    self.oids = oids;
                    self.file = Some(path);
                },
                None => {},
            },
            None => {},
        }
    }

    /// Ends the download.
    pub fn finish(&mut self)
        ensures
            final(self)@ == (DownloadView { active: false, ..old(self)@ }),
    {
        self.active = false;
    }
}

/// Once the size of a download is known it stays, and so does what belongs to
/// it, whatever arrives later.
pub proof fn law_target_is_kept(
    d: DownloadView,
    now: u64,
    listing: Option<Result<Seq<FileModel>, Text>>,
    scan: Option<ScanView>,
)
    requires
        d.total is Some,
    ensures
        polled(d, now, listing, scan).total == d.total,
        polled(d, now, listing, scan).oids == d.oids,
        polled(d, now, listing, scan).file == d.file,
{
}

/// A download is never over while a file of its repository is in flight.
pub proof fn law_in_flight_is_active(
    d: DownloadView,
    now: u64,
    listing: Option<Result<Seq<FileModel>, Text>>,
    scan: ScanView,
)
    requires
        in_flight_of(scan.blobs).len() > 0,
    ensures
        polled(d, now, listing, Some(scan)).active,
{
}

/// A model that is fetched into the library.
#[derive(Debug)]
pub struct LibraryFetch {
    pub repo: String,
    pub file: Option<String>,
    pub downloaded: u64,
    pub total: Option<u64>,
    pub error: Option<String>,
    pub done: bool,
    /// Whether the work behind it still goes on.
    pub pending: bool,
    pub samples: Vec<Sample>,
}

/// The view of [`LibraryFetch`].
#[verifier::ext_equal]
pub struct LibraryView {
    pub repo: Text,
    pub file: Option<Text>,
    pub downloaded: u64,
    pub total: Option<u64>,
    pub error: Option<Text>,
    pub done: bool,
    pub pending: bool,
    pub samples: Seq<Sample>,
}

impl View for LibraryFetch {
    type V = LibraryView;

    open spec fn view(&self) -> LibraryView {
        LibraryView {
            repo: self.repo@,
            file: opt_text(self.file),
            downloaded: self.downloaded,
            total: self.total,
            error: opt_text(self.error),
            done: self.done,
            pending: self.pending,
            samples: self.samples@,
        }
    }
}

/// The views of what happened.
pub open spec fn events(v: Seq<FetchEvent>) -> Seq<FetchView> {
    Seq::new(v.len(), |i: int| v[i]@)
}

/// A fetch that was just begun.
pub open spec fn new_fetch(repo: Text, now: u64) -> LibraryView {
    LibraryView {
        repo,
        file: None,
        downloaded: 0,
        total: None,
        error: None,
        done: false,
        pending: true,
        samples: seq![Sample { at: now, bytes: 0 }],
    }
}

/// The fetch after one event.
pub open spec fn after_event(l: LibraryView, e: FetchView, now: u64) -> LibraryView {
    match e {
        FetchView::Started { file, total, .. } => LibraryView {
            file: Some(file),
            total: Some(total),
            ..l
        },
        FetchView::Progress { downloaded, total, file } => LibraryView {
            file: Some(file),
            total: Some(total),
            downloaded,
            samples: sampled(l.samples, now, downloaded),
            ..l
        },
        FetchView::Finished { bytes } => LibraryView {
            downloaded: bytes,
            total: if l.total is None {
                Some(bytes)
            } else {
                l.total
            },
            ..l
        },
        FetchView::Error(_) => l,
    }
}

/// The fetch after some events.
pub open spec fn after_events(l: LibraryView, e: Seq<FetchView>, now: u64) -> LibraryView
    decreases e.len(),
{
    if e.len() == 0 {
        l
    } else {
        after_event(after_events(l, e.drop_last(), now), e.last(), now)
    }
}

/// The last error among events.
pub open spec fn last_error(e: Seq<FetchView>) -> Option<Text>
    decreases e.len(),
{
    if e.len() == 0 {
        None
    } else {
        match e.last() {
            FetchView::Error(m) => Some(m),
            _ => last_error(e.drop_last()),
        }
    }
}

/// Whether a fetch came to its end.
pub open spec fn finishes(e: Seq<FetchView>) -> bool {
    exists|i: int| 0 <= i < e.len() && #[trigger] e[i] is Finished
}

/// The fetch after it took in what happened.
pub open spec fn fetch_polled(l: LibraryView, e: Seq<FetchView>, now: u64) -> LibraryView {
    let w = after_events(l, e, now);
    if !l.pending {
        l
    } else {
        match last_error(e) {
            Some(m) => LibraryView { error: Some(m), done: true, pending: false, ..w },
            None => if finishes(e) {
                LibraryView { done: true, pending: false, ..w }
            } else {
                w
            },
        }
    }
}

impl LibraryFetch {
    /// A fetch that begins now.
    pub fn new(repo: &str, now: u64) -> (r: LibraryFetch)
        ensures
            r@ == new_fetch(repo@, now),
    {
        let mut samples: Vec<Sample> = Vec::new();
        samples.push(Sample { at: now, bytes: 0 });
        proof {
            assert(samples@ =~= seq![Sample { at: now, bytes: 0 }]);
        }
        LibraryFetch {
            repo: repo.to_owned(),
            file: None,
            downloaded: 0,
            total: None,
            error: None,
            done: false,
            pending: true,
            samples,
        }
    }

    /// Whether the fetch is neither done nor failed.
    pub fn is_active(&self) -> (r: bool)
        ensures
            r == (!self@.done && self@.error is None),
    {
        !self.done && self.error.is_none()
    }

    /// Bytes over the recent window, once there is enough history.
    pub fn rate(&self) -> (r: Option<Rate>)
        ensures
            r == rate_of(self@.samples),
    {
        rate_over(&self.samples)
    }

    /// The part of the fetch that is there.
    pub fn fraction(&self) -> (r: Option<(u64, u64)>)
        ensures
            r == part_of(self@.downloaded, self@.total),
    {
        part(self.downloaded, self.total)
    }

    /// The milliseconds left at the current rate.
    pub fn eta(&self) -> (r: Option<u128>)
        ensures
            (match r {
                Some(n) => Some(n as int),
                None => None::<int>,
            }) == time_left(self@.downloaded, self@.total, rate_of(self@.samples)),
    {
        left(self.downloaded, self.total, self.rate())
    }

    /// Takes in what happened since the last time.
    pub fn poll(&mut self, happened: &Vec<FetchEvent>, now: u64)
        ensures
            final(self)@ == fetch_polled(old(self)@, events(happened@), now),
    {
        if !self.pending {
            return;
        }
        let ghost all = events(happened@);
        let ghost was = self@;
        let mut finished: bool = false;
        let mut failed: Option<String> = None;
        let mut i: usize = 0;
        proof {
            assert(all.take(0) =~= Seq::<FetchView>::empty());
        }
        while i < happened.len()
            invariant
                all == events(happened@),
                i <= happened.len(),
                self@ == after_events(was, all.take(i as int), now),
                opt_text(failed) == last_error(all.take(i as int)),
                finished == finishes(all.take(i as int)),
            decreases happened.len() - i,
        {
            let ghost before = all.take(i as int);
            let ghost after = all.take(i + 1);
            proof {
                assert(after.drop_last() =~= before);
                assert(after.last() == happened@[i as int]@);
                assert forall|k: int| 0 <= k < i implies #[trigger] after[k] == before[k] by {}
                if finishes(before) {
                    let k = choose|k: int| 0 <= k < before.len() && #[trigger] before[k] is Finished;
                    assert(after[k] is Finished);
                }
                if after[i as int] is Finished {
                    assert(finishes(after));
                }
                if finishes(after) && !(after[i as int] is Finished) {
                    let k = choose|k: int| 0 <= k < after.len() && #[trigger] after[k] is Finished;
                    assert(before[k] is Finished);
                }
            }
            match &happened[i] {
                FetchEvent::Started { file, total, .. } => {
                    self.file = Some(file.clone());
                    self.total = Some(*total);
                },
                FetchEvent::Progress { downloaded, total, file } => {
                    self.file = Some(file.clone());
                    self.total = Some(*total);
                    self.downloaded = *downloaded;
                    add_sample(&mut self.samples, now, *downloaded);
                },
                FetchEvent::Finished { bytes } => {
                    self.downloaded = *bytes;
                    if self.total.is_none() {
                        self.total = Some(*bytes);
                    }
                    finished = true;
                },
                FetchEvent::Error(e) => {
                    failed = Some(e.clone());
                },
            }
            i = i + 1;
        }
        proof {
            assert(all.take(all.len() as int) =~= all);
        }
        if failed.is_some() {
            self.error = failed;
            self.done = true;
            self.pending = false;
        } else if finished {
            self.done = true;
            self.pending = false;
        }
    }

    /// Whether there is work to be told to stop.
    pub fn cancel(&self) -> (r: bool)
        ensures
            r == self@.pending,
    {
        self.pending
    }
}

/// A fetch that ended stays as it is, whatever else is said of it.
pub proof fn law_ended_fetch_stays(l: LibraryView, e: Seq<FetchView>, f: Seq<FetchView>, now: u64)
    requires
        last_error(e) is Some || finishes(e),
    ensures
        fetch_polled(fetch_polled(l, e, now), f, now) == fetch_polled(l, e, now),
{
}

/// A rate is what arrived between the first and the last sample over the time
/// between them, a second at least.
pub proof fn law_rate_is_between_the_samples(s: Seq<Sample>)
    requires
        s.len() > 0,
    ensures
        rate_of(s) is Some <==> s.last().at - s[0].at >= 1000,
        rate_of(s) matches Some(r) ==> r.millis == s.last().at - s[0].at && (s.last().bytes
            >= s[0].bytes ==> r.bytes == s.last().bytes - s[0].bytes) && (s.last().bytes
            < s[0].bytes ==> r.bytes == 0),
{
}

/// At its rate a download loads what is left in the time that is told, to the
/// millisecond.
pub proof fn law_time_left_is_enough(downloaded: u64, total: u64, r: Rate)
    requires
        downloaded <= total,
        r.bytes * 1000 > r.millis,
    ensures
        time_left(downloaded, Some(total), Some(r)) matches Some(t) && t * r.bytes <= (total
            - downloaded) * r.millis < (t + 1) * r.bytes,
        time_left(total, Some(total), Some(r)) == Some(0int),
        time_left(downloaded, None, Some(r)) is None,
        time_left(downloaded, Some(total), None) is None,
{
    let left = (total - downloaded) * r.millis;
    let b = r.bytes as int;
    assert(b > 0);
    let t = left / b;
    assert(t * b <= left < (t + 1) * b) by (nonlinear_arith)
        requires
            b > 0,
            t == left / b,
    ;
    assert(0int * r.millis == 0) by (nonlinear_arith);
    assert(0int / b == 0) by (nonlinear_arith)
        requires
            b > 0,
    ;
}

/// Samples leave from the front and only when they are older than five seconds;
/// what stays keeps its order.
pub proof fn law_old_samples_leave(s: Seq<Sample>, now: u64)
    ensures
        recent(s, now).len() <= s.len(),
        recent(s, now) == s.skip(s.len() - recent(s, now).len()),
        forall|i: int|
            0 <= i < s.len() - recent(s, now).len() ==> now - (#[trigger] s[i]).at > 5_000,
        recent(s, now).len() > 0 ==> now - recent(s, now)[0].at <= 5_000,
    decreases s.len(),
{
    if s.len() > 0 && minus(now, s[0].at) > RATE_WINDOW {
        let d = s.drop_first();
        law_old_samples_leave(d, now);
        assert(d.skip(d.len() - recent(d, now).len()) =~= s.skip(s.len() - recent(s, now).len()));
        assert forall|i: int| 0 <= i < s.len() - recent(s, now).len() implies now - (
        #[trigger] s[i]).at > 5_000 by {
            if i > 0 {
                assert(d[i - 1] == s[i]);
            }
        }
    } else {
        assert(s.skip(0) =~= s);
    }
}

/// A fetch shows the file, the size and the amount that it was last told of, and
/// the amount is sampled at that time.
pub proof fn law_progress_is_shown(
    l: LibraryView,
    e: Seq<FetchView>,
    downloaded: u64,
    total: u64,
    file: Text,
    now: u64,
)
    requires
        l.pending,
    ensures
        ({
            let x = fetch_polled(
                l,
                e.push(FetchView::Progress { downloaded, total, file }),
                now,
            );
            &&& x.file == Some(file)
            &&& x.total == Some(total)
            &&& x.downloaded == downloaded
            &&& x.samples.len() > 0
            &&& x.samples.last() == (Sample { at: now, bytes: downloaded })
            &&& x.repo == l.repo
        }),
{
    let p = FetchView::Progress { downloaded, total, file };
    let all = e.push(p);
    assert(all.drop_last() =~= e);
    assert(all.last() == p);
    let w = after_events(l, e, now);
    law_samples_span_the_window(w.samples, now, downloaded);
    lemma_repo_stays(l, e, now);
}

proof fn lemma_repo_stays(l: LibraryView, e: Seq<FetchView>, now: u64)
    ensures
        after_events(l, e, now).repo == l.repo,
    decreases e.len(),
{
    if e.len() > 0 {
        lemma_repo_stays(l, e.drop_last(), now);
    }
}

/// A fetch that fails shows the last reason and is over; one that finishes shows
/// all its bytes, is over and shows no reason.
pub proof fn law_end_of_fetch_is_shown(
    l: LibraryView,
    e: Seq<FetchView>,
    reason: Text,
    bytes: u64,
    now: u64,
)
    requires
        l.pending,
        l.error is None,
    ensures
        ({
            let x = fetch_polled(l, e.push(FetchView::Error(reason)), now);
            x.done && !x.pending && x.error == Some(reason)
        }),
        last_error(e) is None ==> ({
            let x = fetch_polled(l, e.push(FetchView::Finished { bytes }), now);
            x.done && !x.pending && x.error is None && x.downloaded == bytes
        }),
        last_error(e) is None && !finishes(e) ==> fetch_polled(l, e, now).pending,
{
    let a = e.push(FetchView::Error(reason));
    let b = e.push(FetchView::Finished { bytes });
    assert(a.drop_last() =~= e && a.last() == FetchView::Error(reason));
    assert(b.drop_last() =~= e && b.last() == (FetchView::Finished { bytes }));
    assert(b[b.len() - 1] is Finished);
    lemma_reason_stays(l, e, now);
    lemma_reason_stays(l, b, now);
}

proof fn lemma_reason_stays(l: LibraryView, e: Seq<FetchView>, now: u64)
    ensures
        after_events(l, e, now).error == l.error,
        after_events(l, e, now).pending == l.pending,
    decreases e.len(),
{
    if e.len() > 0 {
        lemma_reason_stays(l, e.drop_last(), now);
    }
}

/// A new download has loaded nothing and shows no size; its time runs from now.
pub proof fn law_new_download_starts_at_nothing(
    repo: Text,
    expected: Option<u64>,
    listing: bool,
    now: u64,
)
    ensures
        ({
            let d = new_download(repo, expected, listing, now);
            &&& d.repo == repo && d.expected == expected && d.listing == listing
            &&& d.active && d.downloaded == 0 && d.total is None && d.file is None
            &&& d.last_poll == now
            &&& part_of(d.downloaded, d.total) is None
            &&& rate_of(d.samples) is None
        }),
        ({
            let l = new_fetch(repo, now);
            &&& l.repo == repo && l.pending && !l.done && l.error is None
            &&& l.downloaded == 0 && l.total is None
            &&& rate_of(l.samples) is None
        }),
{
}

} // verus!
