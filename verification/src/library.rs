//! The model library: which models there are, and which one is chosen.
use vstd::prelude::*;

use crate::app::{
    detailed, logged, marked, size_synced, wanting, App, AppView, Effect, EffectView, SaveReport,
};
use crate::bind::{source_label, source_text};
use crate::cache::{
    found, incomplete, looks_incomplete_scan, CacheScan, DiscoveredModel, DiscoveredSource,
    FoundView, ScanView,
};
use crate::config::{blank, sources, ConfigView, ModelSource, ModelView, SourceView};
use crate::disk::{
    disk_bytes, has_local_files, is_on_disk, local_bytes, DeleteReport, DiskFacts,
};
use crate::download::{new_fetch, LibraryFetch, LibraryView};
use crate::hub::{normalize_repo_id, repo_id};
use crate::listen::res_text;
use crate::moments::{discovering, fetching};
use crate::settings::{outcome, SettingField};
use crate::text::{
    decimal, number, same, split, split_on, texts, trim, trimmed, Text,
};
use crate::units::{gib_hundredths, gib_text_fine};
use crate::validate::remembered;

verus! {

broadcast use vstd::string::group_string_axioms;

/// A repository without its tag.
pub open spec fn untagged(repo: Text) -> Text {
    split_on(repo, ':')[0]
}

/// Whether two sources are the same model: a tag makes no difference.
pub open spec fn equivalent(a: SourceView, b: SourceView) -> bool {
    match (a, b) {
        (SourceView::Local(x), SourceView::Local(y)) => x == y,
        (SourceView::HuggingFace(x), SourceView::HuggingFace(y)) => untagged(x) == untagged(y),
        _ => false,
    }
}

fn without_tag(repo: &str) -> (out: String)
    ensures
        out@ == untagged(repo@),
{
    let parts = split(repo, ':');
    proof {
        assert(texts(parts@)[0] == parts@[0]@);
    }
    parts[0].clone()
}

/// Whether two sources are the same model.
pub fn sources_equivalent(a: &ModelSource, b: &ModelSource) -> (r: bool)
    ensures
        r == equivalent(a@, b@),
{
    match (a, b) {
        (ModelSource::Local(x), ModelSource::Local(y)) => same(x.as_str(), y.as_str()),
        (ModelSource::HuggingFace(x), ModelSource::HuggingFace(y)) => same(
            without_tag(x.as_str()).as_str(),
            without_tag(y.as_str()).as_str(),
        ),
        _ => false,
    }
}

/// To be the same model goes both ways and goes on.
pub proof fn law_equivalence(a: SourceView, b: SourceView, c: SourceView)
    ensures
        equivalent(a, a),
        equivalent(a, b) == equivalent(b, a),
        equivalent(a, b) && equivalent(b, c) ==> equivalent(a, c),
{
}

/// A model that can be picked.
#[derive(Debug)]
pub struct ModelPickerEntry {
    pub source: ModelSource,
    pub recent: bool,
    pub on_disk: bool,
    pub bytes: u64,
}

/// The view of [`ModelPickerEntry`].
pub struct EntryView {
    pub source: SourceView,
    pub recent: bool,
    pub on_disk: bool,
    pub bytes: u64,
}

impl View for ModelPickerEntry {
    type V = EntryView;

    open spec fn view(&self) -> EntryView {
        EntryView {
            source: self.source@,
            recent: self.recent,
            on_disk: self.on_disk,
            bytes: self.bytes,
        }
    }
}

/// The views of models that can be picked.
pub open spec fn entries(v: Seq<ModelPickerEntry>) -> Seq<EntryView> {
    Seq::new(v.len(), |i: int| v[i]@)
}

/// The bytes that the search on disk found of a model.
pub open spec fn found_bytes(f: Seq<FoundView>, s: SourceView) -> u64
    decreases f.len(),
{
    if f.len() == 0 {
        0
    } else if f[0].source == s {
        f[0].bytes
    } else {
        found_bytes(f.drop_first(), s)
    }
}

/// A model as it can be picked.
pub open spec fn entry_of(
    s: SourceView,
    recent: bool,
    f: Seq<FoundView>,
    facts: DiskFacts,
) -> EntryView {
    EntryView {
        source: s,
        recent,
        on_disk: is_on_disk(s, facts),
        bytes: if found_bytes(f, s) > 0 {
            found_bytes(f, s)
        } else if is_on_disk(s, facts) {
            disk_bytes(s, facts)
        } else {
            0
        },
    }
}

/// The models of the library, in order; what names no model is left out.
pub open spec fn library(r: Seq<SourceView>) -> Seq<SourceView>
    decreases r.len(),
{
    if r.len() == 0 {
        Seq::empty()
    } else {
        let init = library(r.drop_last());
        if blank(r.last()) {
            init
        } else {
            init.push(r.last())
        }
    }
}

/// The models of the library as they can be picked; the facts stand in the
/// order of all that is remembered.
pub open spec fn library_list(
    r: Seq<SourceView>,
    f: Seq<FoundView>,
    facts: Seq<DiskFacts>,
) -> Seq<EntryView>
    decreases r.len(),
{
    if r.len() == 0 {
        Seq::empty()
    } else {
        let init = library_list(r.drop_last(), f, facts);
        if blank(r.last()) {
            init
        } else {
            init.push(entry_of(r.last(), true, f, facts[r.len() - 1]))
        }
    }
}

/// Whether a model is among those remembered.
pub open spec fn in_library(r: Seq<SourceView>, s: SourceView) -> bool {
    exists|i: int| 0 <= i < r.len() && equivalent(#[trigger] r[i], s)
}

/// The models on disk that are not in the library.
pub open spec fn available(f: Seq<FoundView>, r: Seq<SourceView>) -> Seq<FoundView>
    decreases f.len(),
{
    if f.len() == 0 {
        Seq::empty()
    } else {
        let init = available(f.drop_last(), r);
        if in_library(r, f.last().source) {
            init
        } else {
            init.push(f.last())
        }
    }
}

/// The models on disk as they can be picked.
pub open spec fn available_list(f: Seq<FoundView>) -> Seq<EntryView> {
    Seq::new(
        f.len(),
        |i: int|
            EntryView { source: f[i].source, recent: false, on_disk: true, bytes: f[i].bytes },
    )
}

/// The first of some models that is called so.
pub open spec fn called(v: Seq<SourceView>, label: Text) -> Option<SourceView>
    decreases v.len(),
{
    if v.len() == 0 {
        None
    } else if source_text(v[0]) == label {
        Some(v[0])
    } else {
        called(v.drop_first(), label)
    }
}

/// The models of a search.
pub open spec fn found_sources(f: Seq<FoundView>) -> Seq<SourceView> {
    Seq::new(f.len(), |i: int| f[i].source)
}

/// The application with another model chosen.
pub open spec fn chosen(a: AppView, s: SourceView) -> AppView {
    let a1 = match s {
        SourceView::HuggingFace(id) => AppView { last_hf_model: id, ..a },
        SourceView::Local(p) => AppView { last_local_model: p, ..a },
    };
    marked(size_synced(with_model(a1, s)), SettingField::Model)
}

/// The application with another model in its configuration.
pub open spec fn with_model(a: AppView, s: SourceView) -> AppView {
    AppView {
        config: ConfigView { model: ModelView { source: s, ..a.config.model }, ..a.config },
        ..a
    }
}

/// The application with a model remembered.
pub open spec fn remembering(a: AppView, s: SourceView) -> AppView {
    AppView {
        config: ConfigView { recent_models: remembered(a.config.recent_models, s), ..a.config },
        ..a
    }
}

/// The application with the first remembered model chosen, or with none where
/// none is left: a deleted model does not come back.
pub open spec fn fallen_back(a: AppView) -> AppView {
    if a.config.recent_models.len() > 0 {
        chosen(a, a.config.recent_models[0])
    } else {
        marked(
            AppView {
                remote_model_size: None,
                ..with_model(a, SourceView::HuggingFace(Seq::empty()))
            },
            SettingField::Model,
        )
    }
}

/// The source that a request to add a model names, or why it is refused.
pub open spec fn asked_source(kind: Text, value: Text) -> Result<SourceView, Text> {
    if kind == "hugging_face"@ || kind == "huggingface"@ || kind == "hf"@ {
        match repo_id(value) {
            Ok(r) => Ok(SourceView::HuggingFace(r)),
            Err(e) => Err(e),
        }
    } else if kind == "local"@ {
        if trimmed(value).len() == 0 {
            Err("Enter a full .gguf path."@)
        } else {
            Ok(SourceView::Local(trimmed(value)))
        }
    } else {
        Err("Choose Hugging Face or Local GGUF."@)
    }
}

/// The application after a fetch into the library was asked for, and the
/// answer. `facts` and `scan` say what is on disk of the repository.
pub open spec fn fetch_asked(
    a: AppView,
    repo: Text,
    facts: DiskFacts,
    scan: ScanView,
    now: u64,
) -> (AppView, Result<(), Text>) {
    if a.library_fetch matches Some(l) && fetching(l) {
        (a, Err("A download is already in progress."@))
    } else if a.slot.process is Some {
        (a, Err("Stop the server before downloading a model into the cache."@))
    } else {
        match repo_id(repo) {
            Err(e) => (a, Err(e)),
            Ok(r) => if is_on_disk(SourceView::HuggingFace(r), facts) && !incomplete(
                scan,
                a.config.model.estimated_bytes,
            ) {
                (detailed(a, r + " is already on disk"@), Ok(()))
            } else {
                (
                    logged(
                        detailed(
                            wanting(
                                AppView { library_fetch: Some(new_fetch(r, now)), ..a },
                                EffectView::Fetch(r),
                            ),
                            "Downloading "@ + r,
                        ),
                        "downloading "@ + r + " into the local Hugging Face cache"@,
                    ),
                    Ok(()),
                )
            },
        }
    }
}

/// The application after a model was added, and the answer.
pub open spec fn model_added(
    a: AppView,
    kind: Text,
    value: Text,
    download: bool,
    facts: DiskFacts,
    scan: ScanView,
    now: u64,
) -> (AppView, Result<(), Text>) {
    match asked_source(kind, value) {
        Err(e) => (a, Err(e)),
        Ok(s) => {
            let a1 = match s {
                SourceView::HuggingFace(id) => AppView { last_hf_model: id, ..a },
                SourceView::Local(p) => AppView { last_local_model: p, ..a },
            };
            let a2 = marked(
                size_synced(remembering(with_model(a1, s), s)),
                SettingField::Model,
            );
            let (a3, r) = match s {
                SourceView::HuggingFace(id) if download => fetch_asked(a2, id, facts, scan, now),
                _ => (a2, Ok::<(), Text>(())),
            };
            match r {
                Err(e) => (a3, Err(e)),
                Ok(_) => (wanting(a3, EffectView::Save(SaveReport::Shown)), Ok(())),
            }
        },
    }
}

/// The models without those that are the same as one.
pub open spec fn sources_without(r: Seq<SourceView>, s: SourceView) -> Seq<SourceView>
    decreases r.len(),
{
    if r.len() == 0 {
        Seq::empty()
    } else {
        let init = sources_without(r.drop_last(), s);
        if equivalent(r.last(), s) {
            init
        } else {
            init.push(r.last())
        }
    }
}

/// The models of a search without those that are the same as one.
pub open spec fn found_without(f: Seq<FoundView>, s: SourceView) -> Seq<FoundView>
    decreases f.len(),
{
    if f.len() == 0 {
        Seq::empty()
    } else {
        let init = found_without(f.drop_last(), s);
        if equivalent(f.last().source, s) {
            init
        } else {
            init.push(f.last())
        }
    }
}

/// What the log says of files that were deleted with a model.
pub open spec fn deleted_line(label: Text, paths: nat, bytes: u64) -> Text {
    "deleted local cache for "@ + label + " ("@ + decimal(paths) + " path"@ + (if paths == 1 {
        ""@
    } else {
        "s"@
    }) + ", "@ + gib_hundredths(bytes) + " GiB)"@
}

/// The application without a model in its library; where that was chosen,
/// another is.
pub open spec fn left_library(a: AppView, s: SourceView) -> AppView {
    let b = AppView {
        config: ConfigView {
            recent_models: sources_without(a.config.recent_models, s),
            ..a.config
        },
        discovered_models: found_without(a.discovered_models, s),
        ..a
    };
    if equivalent(a.config.model.source, s) {
        fallen_back(b)
    } else {
        b
    }
}

/// The application after a model left the library. `gone` says how many paths
/// and bytes were deleted, where any were.
pub open spec fn library_deleted(
    a: AppView,
    label: Text,
    s: SourceView,
    gone: Option<(nat, u64)>,
    now: u64,
) -> AppView {
    let a1 = match gone {
        Some((n, b)) => logged(a, deleted_line(label, n, b)),
        None => a,
    };
    let a3 = left_library(a1, s);
    let detail = match gone {
        Some((_, b)) if b > 0 => "Removed "@ + label + " ("@ + gib_hundredths(b)
            + " GiB freed)"@,
        _ => "Removed "@ + label,
    };
    wanting(
        logged(
            detailed(discovering(a3, now), detail),
            "removed "@ + label + " from the model library"@,
        ),
        EffectView::Save(SaveReport::Shown),
    )
}

/// The application after the files of a model on disk were deleted.
pub open spec fn available_deleted(
    a: AppView,
    label: Text,
    s: SourceView,
    bytes: u64,
    now: u64,
) -> AppView {
    let what = label + " ("@ + gib_hundredths(bytes) + " GiB)"@;
    let a1 = discovering(
        AppView { discovered_models: found_without(a.discovered_models, s), ..a },
        now,
    );
    wanting(
        logged(
            detailed(a1, "Deleted cached files for "@ + what),
            "deleted cached files for "@ + what,
        ),
        EffectView::Save(SaveReport::Shown),
    )
}

/// What was deleted, or why nothing could be.
pub open spec fn gone_view(
    r: Option<Result<DeleteReport, String>>,
) -> Option<Result<(nat, u64), Text>> {
    match r {
        Some(Ok(d)) => Some(Ok((d.removed_paths@.len(), d.freed_bytes))),
        Some(Err(e)) => Some(Err(e@)),
        None => None,
    }
}

fn deleted_text(label: &str, n: usize, bytes: u64) -> (line: String)
    ensures
        line@ == deleted_line(label@, n as nat, bytes),
{
    let mut line = "deleted local cache for ".to_owned();
    line.append(label);
    line.append(" (");
    line.append(number(n as u64).as_str());
    line.append(" path");
    line.append(if n == 1 { "" } else { "s" });
    line.append(", ");
    line.append(gib_text_fine(bytes).as_str());
    line.append(" GiB)");
    line
}

fn source_of(d: &DiscoveredSource) -> (r: ModelSource)
    ensures
        r@ == d@,
{
    match d {
        DiscoveredSource::HuggingFace(s) => ModelSource::HuggingFace(s.clone()),
        DiscoveredSource::Local(s) => ModelSource::Local(s.clone()),
    }
}

fn library_of(v: &Vec<ModelSource>) -> (out: Vec<ModelSource>)
    ensures
        sources(out@) == library(sources(v@)),
{
    let ghost all = sources(v@);
    let mut out: Vec<ModelSource> = Vec::new();
    let mut i: usize = 0;
    proof {
        assert(all.take(0) =~= Seq::<SourceView>::empty());
        assert(sources(out@) =~= library(all.take(0)));
    }
    while i < v.len()
        invariant
            all == sources(v@),
            i <= v.len(),
            sources(out@) == library(all.take(i as int)),
        decreases v.len() - i,
    {
        let ghost was = sources(out@);
        proof {
            assert(all.take(i + 1).drop_last() =~= all.take(i as int));
            assert(all.take(i + 1).last() == v@[i as int]@);
        }
        if !v[i].is_blank() {
            out.push(v[i].clone());
            proof {
                assert(sources(out@) =~= was.push(all[i as int]));
            }
        }
        i = i + 1;
    }
    proof {
        assert(all.take(all.len() as int) =~= all);
    }
    out
}

fn find_called(v: &Vec<ModelSource>, label: &str) -> (r: Option<ModelSource>)
    ensures
        source_view(r) == called(sources(v@), label@),
{
    let ghost all = sources(v@);
    let mut i: usize = 0;
    proof {
        assert(all.skip(0) =~= all);
    }
    while i < v.len()
        invariant
            all == sources(v@),
            i <= v.len(),
            called(all, label@) == called(all.skip(i as int), label@),
        decreases v.len() - i,
    {
        proof {
            assert(all.skip(i as int)[0] == v@[i as int]@);
            assert(all.skip(i as int).drop_first() =~= all.skip(i + 1));
        }
        if same(source_label(&v[i]).as_str(), label) {
            return Some(v[i].clone());
        }
        i = i + 1;
    }
    None
}

/// The view of a source, where there is one.
pub open spec fn source_view(s: Option<ModelSource>) -> Option<SourceView> {
    match s {
        Some(s) => Some(s@),
        None => None,
    }
}

fn size_found(v: &Vec<DiscoveredModel>, s: &ModelSource) -> (n: u64)
    ensures
        n == found_bytes(found(v@), s@),
{
    let ghost all = found(v@);
    let mut i: usize = 0;
    proof {
        assert(all.skip(0) =~= all);
    }
    while i < v.len()
        invariant
            all == found(v@),
            i <= v.len(),
            found_bytes(all, s@) == found_bytes(all.skip(i as int), s@),
        decreases v.len() - i,
    {
        proof {
            assert(all.skip(i as int)[0] == v@[i as int]@);
            assert(all.skip(i as int).drop_first() =~= all.skip(i + 1));
        }
        if source_of(&v[i].source).same(s) {
            return v[i].bytes;
        }
        i = i + 1;
    }
    0
}

fn is_in_library(r: &Vec<ModelSource>, s: &ModelSource) -> (b: bool)
    ensures
        b == in_library(sources(r@), s@),
{
    let ghost all = sources(r@);
    let mut i: usize = 0;
    while i < r.len()
        invariant
            all == sources(r@),
            i <= r.len(),
            forall|k: int| 0 <= k < i ==> !equivalent(#[trigger] all[k], s@),
        decreases r.len() - i,
    {
        proof {
            assert(all[i as int] == r@[i as int]@);
        }
        if sources_equivalent(&r[i], s) {
            return true;
        }
        i = i + 1;
    }
    false
}

fn available_of(f: &Vec<DiscoveredModel>, r: &Vec<ModelSource>) -> (out: Vec<DiscoveredModel>)
    ensures
        found(out@) == available(found(f@), sources(r@)),
{
    let ghost all = found(f@);
    let mut out: Vec<DiscoveredModel> = Vec::new();
    let mut i: usize = 0;
    proof {
        assert(all.take(0) =~= Seq::<FoundView>::empty());
        assert(found(out@) =~= available(all.take(0), sources(r@)));
    }
    while i < f.len()
        invariant
            all == found(f@),
            i <= f.len(),
            found(out@) == available(all.take(i as int), sources(r@)),
        decreases f.len() - i,
    {
        let ghost was = found(out@);
        proof {
            assert(all.take(i + 1).drop_last() =~= all.take(i as int));
            assert(all.take(i + 1).last() == f@[i as int]@);
        }
        if !is_in_library(r, &source_of(&f[i].source)) {
            out.push(f[i].clone());
            proof {
                assert(found(out@) =~= was.push(all[i as int]));
            }
        }
        i = i + 1;
    }
    proof {
        assert(all.take(all.len() as int) =~= all);
    }
    out
}

fn drop_sources(r: &Vec<ModelSource>, s: &ModelSource) -> (out: Vec<ModelSource>)
    ensures
        sources(out@) == sources_without(sources(r@), s@),
{
    let ghost all = sources(r@);
    let mut out: Vec<ModelSource> = Vec::new();
    let mut i: usize = 0;
    proof {
        assert(all.take(0) =~= Seq::<SourceView>::empty());
        assert(sources(out@) =~= sources_without(all.take(0), s@));
    }
    while i < r.len()
        invariant
            all == sources(r@),
            i <= r.len(),
            sources(out@) == sources_without(all.take(i as int), s@),
        decreases r.len() - i,
    {
        let ghost was = sources(out@);
        proof {
            assert(all.take(i + 1).drop_last() =~= all.take(i as int));
            assert(all.take(i + 1).last() == r@[i as int]@);
        }
        if !sources_equivalent(&r[i], s) {
            out.push(r[i].clone());
            proof {
                assert(sources(out@) =~= was.push(all[i as int]));
            }
        }
        i = i + 1;
    }
    proof {
        assert(all.take(all.len() as int) =~= all);
    }
    out
}

fn drop_found(f: &Vec<DiscoveredModel>, s: &ModelSource) -> (out: Vec<DiscoveredModel>)
    ensures
        found(out@) == found_without(found(f@), s@),
{
    let ghost all = found(f@);
    let mut out: Vec<DiscoveredModel> = Vec::new();
    let mut i: usize = 0;
    proof {
        assert(all.take(0) =~= Seq::<FoundView>::empty());
        assert(found(out@) =~= found_without(all.take(0), s@));
    }
    while i < f.len()
        invariant
            all == found(f@),
            i <= f.len(),
            found(out@) == found_without(all.take(i as int), s@),
        decreases f.len() - i,
    {
        let ghost was = found(out@);
        proof {
            assert(all.take(i + 1).drop_last() =~= all.take(i as int));
            assert(all.take(i + 1).last() == f@[i as int]@);
        }
        if !sources_equivalent(&source_of(&f[i].source), s) {
            out.push(f[i].clone());
            proof {
                assert(found(out@) =~= was.push(all[i as int]));
            }
        }
        i = i + 1;
    }
    proof {
        assert(all.take(all.len() as int) =~= all);
    }
    out
}

fn pick_sources(f: &Vec<DiscoveredModel>) -> (out: Vec<ModelSource>)
    ensures
        sources(out@) == found_sources(found(f@)),
{
    let mut out: Vec<ModelSource> = Vec::new();
    let mut i: usize = 0;
    while i < f.len()
        invariant
            i <= f.len(),
            out.len() == i,
            forall|k: int| 0 <= k < i ==> (#[trigger] out@[k])@ == f@[k]@.source,
        decreases f.len() - i,
    {
        out.push(source_of(&f[i].source));
        i = i + 1;
    }
    proof {
        assert(sources(out@) =~= found_sources(found(f@)));
    }
    out
}

impl App {
    /// A model as it can be picked.
    pub fn entry_for(&self, source: &ModelSource, recent: bool, facts: &DiskFacts) -> (r:
        ModelPickerEntry)
        ensures
            r@ == entry_of(source@, recent, self@.discovered_models, *facts),
    {
        let known: u64 = size_found(&self.discovered_models, source);
        let on_disk: bool = has_local_files(source, facts);
        let bytes: u64 = if known > 0 {
            known
        } else if on_disk {
            local_bytes(source, facts)
        } else {
            0
        };
        ModelPickerEntry { source: source.clone(), recent, on_disk, bytes }
    }

    /// The models of the library as they can be picked. The facts stand in the
    /// order of the models that are remembered.
    pub fn library_entries(&self, facts: &Vec<DiskFacts>) -> (out: Vec<ModelPickerEntry>)
        requires
            facts@.len() == self.config.recent_models@.len(),
        ensures
            entries(out@) == library_list(
                self@.config.recent_models,
                self@.discovered_models,
                facts@,
            ),
    {
        let ghost all = sources(self.config.recent_models@);
        let ghost f = self@.discovered_models;
        let mut out: Vec<ModelPickerEntry> = Vec::new();
        let mut i: usize = 0;
        proof {
            assert(all.take(0) =~= Seq::<SourceView>::empty());
            assert(entries(out@) =~= library_list(all.take(0), f, facts@));
        }
        while i < self.config.recent_models.len()
            invariant
                all == sources(self.config.recent_models@),
                f == self@.discovered_models,
                facts@.len() == all.len(),
                i <= self.config.recent_models.len(),
                entries(out@) == library_list(all.take(i as int), f, facts@),
            decreases self.config.recent_models.len() - i,
        {
            let ghost was = entries(out@);
            proof {
                assert(all.take(i + 1).drop_last() =~= all.take(i as int));
                assert(all.take(i + 1).last() == self.config.recent_models@[i as int]@);
            }
            if !self.config.recent_models[i].is_blank() {
                let e = self.entry_for(&self.config.recent_models[i], true, &facts[i]);
                out.push(e);
                proof {
                    assert(entries(out@) =~= was.push(e@));
                }
            }
            i = i + 1;
        }
        proof {
            assert(all.take(all.len() as int) =~= all);
        }
        out
    }

    /// The models on disk that are not in the library.
    pub fn available_entries(&self) -> (out: Vec<ModelPickerEntry>)
        ensures
            entries(out@) == available_list(
                available(self@.discovered_models, self@.config.recent_models),
            ),
    {
        let v = available_of(&self.discovered_models, &self.config.recent_models);
        let mut out: Vec<ModelPickerEntry> = Vec::new();
        let mut i: usize = 0;
        while i < v.len()
            invariant
                i <= v.len(),
                out.len() == i,
                forall|k: int|
                    0 <= k < i ==> (#[trigger] out@[k])@ == (EntryView {
                        source: v@[k]@.source,
                        recent: false,
                        on_disk: true,
                        bytes: v@[k]@.bytes,
                    }),
            decreases v.len() - i,
        {
            out.push(
                ModelPickerEntry {
                    source: source_of(&v[i].source),
                    recent: false,
                    on_disk: true,
                    bytes: v[i].bytes,
                },
            );
            i = i + 1;
        }
        proof {
            assert(entries(out@) =~= available_list(found(v@)));
        }
        out
    }

    /// The models of the library as they can be picked.
    pub fn model_picker_entries(&self, facts: &Vec<DiskFacts>) -> (out: Vec<ModelPickerEntry>)
        requires
            facts@.len() == self.config.recent_models@.len(),
        ensures
            entries(out@) == library_list(
                self@.config.recent_models,
                self@.discovered_models,
                facts@,
            ),
    {
        self.library_entries(facts)
    }

    /// The model of the library at a position.
    pub fn library_source_at(&self, index: usize) -> (r: Option<ModelSource>)
        ensures
            source_view(r) == (if index < library(self@.config.recent_models).len() {
                Some(library(self@.config.recent_models)[index as int])
            } else {
                None
            }),
    {
        let v = library_of(&self.config.recent_models);
        proof {
            assert(sources(v@).len() == v.len());
        }
        if index < v.len() {
            proof {
                assert(sources(v@)[index as int] == v@[index as int]@);
            }
            Some(v[index].clone())
        } else {
            None
        }
    }

    /// The model of the library that is called so.
    pub fn library_source(&self, label: &str) -> (r: Option<ModelSource>)
        ensures
            source_view(r) == called(library(self@.config.recent_models), label@),
    {
        find_called(&library_of(&self.config.recent_models), label)
    }

    /// The model on disk, not in the library, that is called so.
    pub fn available_source(&self, label: &str) -> (r: Option<ModelSource>)
        ensures
            source_view(r) == called(
                found_sources(available(self@.discovered_models, self@.config.recent_models)),
                label@,
            ),
    {
        find_called(
            &pick_sources(&available_of(&self.discovered_models, &self.config.recent_models)),
            label,
        )
    }

    fn activate_model(&mut self, source: ModelSource)
        ensures
            final(self)@ == chosen(old(self)@, source@),
    {
        match &source {
            ModelSource::HuggingFace(id) => {
                self.last_hf_model = id.clone();
            },
            ModelSource::Local(p) => {
                self.last_local_model = p.clone();
            },
        }
        self.config.model.source = source;
        self.sync_remote_model_size();
        self.mark_setting_changed(SettingField::Model);
    }

    fn activate_fallback_model(&mut self)
        ensures
            final(self)@ == fallen_back(old(self)@),
    {
        if self.config.recent_models.len() > 0 {
            proof {
                assert(sources(self.config.recent_models@)[0] == self.config.recent_models@[0]@);
            }
            let first = self.config.recent_models[0].clone();
            self.activate_model(first);
            return;
        }
        self.config.model.source = ModelSource::HuggingFace(String::new());
        self.remote_model_size = None;
        self.mark_setting_changed(SettingField::Model);
    }

    /// Chooses the model of the library at a position.
    pub fn select_recent_model(&mut self, index: usize) -> (r: Result<(), String>)
        ensures
            ({
                let l = library(old(self)@.config.recent_models);
                if index < l.len() {
                    r is Ok && final(self)@ == wanting(
                        chosen(old(self)@, l[index as int]),
                        EffectView::Save(SaveReport::Shown),
                    )
                } else {
                    &&& r matches Err(e)
                    &&& e@ == "That model is no longer in your library."@
                    &&& final(self)@ == old(self)@
                }
            }),
    {
        match self.library_source_at(index) {
            Some(s) => {
                self.activate_model(s);
                self.want(Effect::Save(SaveReport::Shown));
                Ok(())
            },
            None => Err("That model is no longer in your library.".to_owned()),
        }
    }

    /// Chooses the model of the library that is called so.
    pub fn select_library_model_by_label(&mut self, label: &str) -> (r: Result<(), String>)
        ensures
            match called(library(old(self)@.config.recent_models), label@) {
                Some(s) => r is Ok && final(self)@ == wanting(
                    chosen(old(self)@, s),
                    EffectView::Save(SaveReport::Shown),
                ),
                None => {
                    &&& r matches Err(e)
                    &&& e@ == "That model is no longer in your library."@
                    &&& final(self)@ == old(self)@
                },
            },
    {
        match self.library_source(label) {
            Some(s) => {
                self.activate_model(s);
                self.want(Effect::Save(SaveReport::Shown));
                Ok(())
            },
            None => Err("That model is no longer in your library.".to_owned()),
        }
    }

    /// Takes a model on disk into the library and chooses it.
    pub fn import_available_model(&mut self, label: &str) -> (r: Result<(), String>)
        ensures
            match called(
                found_sources(
                    available(old(self)@.discovered_models, old(self)@.config.recent_models),
                ),
                label@,
            ) {
                Some(s) => r is Ok && final(self)@ == wanting(
                    chosen(remembering(old(self)@, s), s),
                    EffectView::Save(SaveReport::Shown),
                ),
                None => {
                    &&& r matches Err(e)
                    &&& e@ == "That on-disk model is no longer available."@
                    &&& final(self)@ == old(self)@
                },
            },
    {
        match self.available_source(label) {
            Some(s) => {
                self.config.remember_model(s.clone());
                self.activate_model(s);
                self.want(Effect::Save(SaveReport::Shown));
                Ok(())
            },
            None => Err("That on-disk model is no longer available.".to_owned()),
        }
    }

    /// Whether the model of the library at a position can be deleted now.
    pub fn can_delete_picker_model(&self, index: usize) -> (r: bool)
        ensures
            r == (self@.slot.process is None && index < library(self@.config.recent_models).len()),
    {
        !self.slot.is_running() && self.library_source_at(index).is_some()
    }

    /// What the model of the library at a position is called.
    pub fn picker_label(&self, index: usize) -> (r: Result<String, String>)
        ensures
            res_text(r) == (if index < library(self@.config.recent_models).len() {
                Ok(source_text(library(self@.config.recent_models)[index as int]))
            } else {
                Err("That model is no longer in your library."@)
            }),
    {
        match self.library_source_at(index) {
            Some(s) => Ok(source_label(&s)),
            None => Err("That model is no longer in your library.".to_owned()),
        }
    }

    /// The model of the library to be deleted, or why it cannot be.
    pub fn deletable_library_model(&self, label: &str) -> (r: Result<ModelSource, String>)
        ensures
            match deletable(self@, label@) {
                Ok(s) => r matches Ok(x) && x@ == s,
                Err(m) => r matches Err(e) && e@ == m,
            },
    {
        if self.slot.is_running() {
            return Err("Stop the server before removing a model.".to_owned());
        }
        match self.library_source(label) {
            Some(s) => Ok(s),
            None => Err("That model is no longer in your library.".to_owned()),
        }
    }

    /// Removes a model from the library, after its files were deleted or could
    /// not be; `gone` is missing where it had none.
    pub fn delete_library_model_by_label(
        &mut self,
        label: &str,
        gone: Option<Result<DeleteReport, String>>,
        now: u64,
    ) -> (r: Result<(), String>)
        ensures
            match (deletable(old(self)@, label@), gone_view(gone)) {
                (Err(m), _) => r matches Err(e) && e@ == m && final(self)@ == old(self)@,
                (Ok(_), Some(Err(m))) => r matches Err(e) && e@ == m && final(self)@ == old(self)@,
                (Ok(s), Some(Ok(d))) => r is Ok && final(self)@ == library_deleted(
                    old(self)@,
                    label@,
                    s,
                    Some(d),
                    now,
                ),
                (Ok(s), None) => r is Ok && final(self)@ == library_deleted(
                    old(self)@,
                    label@,
                    s,
                    None,
                    now,
                ),
            },
    {
        let source = match self.deletable_library_model(label) {
            Ok(s) => s,
            Err(e) => {
                return Err(e);
            },
        };
        match gone {
            Some(Err(e)) => {
                return Err(e);
            },
            Some(Ok(d)) => {
                let n: usize = d.removed_paths.len();
                self.forget_model(label, &source, Some((n, d.freed_bytes)), now);
            },
            None => {
                self.forget_model(label, &source, None, now);
            },
        }
        Ok(())
    }

    fn leave_library(&mut self, source: &ModelSource)
        ensures
            final(self)@ == left_library(old(self)@, source@),
    {
        let was: bool = sources_equivalent(&self.config.model.source, source);
        self.config.recent_models = drop_sources(&self.config.recent_models, source);
        self.discovered_models = drop_found(&self.discovered_models, source);
        if was {
            self.activate_fallback_model();
        }
    }

    fn forget_model(
        &mut self,
        label: &str,
        source: &ModelSource,
        gone: Option<(usize, u64)>,
        now: u64,
    )
        ensures
            final(self)@ == library_deleted(
                old(self)@,
                label@,
                source@,
                match gone {
                    Some((n, b)) => Some((n as nat, b)),
                    None => None,
                },
                now,
            ),
    {
        let mut freed: u64 = 0;
        match gone {
            Some((n, b)) => {
                freed = b;
                let line = deleted_text(label, n, b);
                self.push_log(line.as_str());
            },
            None => {},
        }
        self.leave_library(source);
        self.discover(now);
        let mut detail = "Removed ".to_owned();
        detail.append(label);
        if freed > 0 {
            detail.append(" (");
            detail.append(gib_text_fine(freed).as_str());
            detail.append(" GiB freed)");
        }
        self.slot.status_detail = detail;
        let mut line = "removed ".to_owned();
        line.append(label);
        line.append(" from the model library");
        self.push_log(line.as_str());
        self.want(Effect::Save(SaveReport::Shown));
    }

    /// The model on disk whose files are to be deleted, or why they cannot be.
    pub fn deletable_available_model(&self, label: &str) -> (r: Result<ModelSource, String>)
        ensures
            match deletable_files(self@, label@) {
                Ok(s) => r matches Ok(x) && x@ == s,
                Err(m) => r matches Err(e) && e@ == m,
            },
    {
        if self.slot.is_running() {
            return Err("Stop the server before deleting cached files.".to_owned());
        }
        match self.available_source(label) {
            Some(s) => Ok(s),
            None => Err("That on-disk model is no longer available.".to_owned()),
        }
    }

    /// Takes in that the files of a model on disk were deleted, or could not be.
    pub fn delete_available_model_by_label(
        &mut self,
        label: &str,
        gone: Result<DeleteReport, String>,
        now: u64,
    ) -> (r: Result<(), String>)
        ensures
            match (deletable_files(old(self)@, label@), gone) {
                (Err(m), _) => r matches Err(e) && e@ == m && final(self)@ == old(self)@,
                (Ok(_), Err(m)) => r matches Err(e) && e@ == m@ && final(self)@ == old(self)@,
                (Ok(s), Ok(d)) => r is Ok && final(self)@ == available_deleted(
                    old(self)@,
                    label@,
                    s,
                    d.freed_bytes,
                    now,
                ),
            },
    {
        let source = match self.deletable_available_model(label) {
            Ok(s) => s,
            Err(e) => {
                return Err(e);
            },
        };
        let freed: u64 = match gone {
            Err(e) => {
                return Err(e);
            },
            Ok(d) => d.freed_bytes,
        };
        self.discovered_models = drop_found(&self.discovered_models, &source);
        self.discover(now);
        let mut what = label.to_owned();
        what.append(" (");
        what.append(gib_text_fine(freed).as_str());
        what.append(" GiB)");
        let mut detail = "Deleted cached files for ".to_owned();
        detail.append(what.as_str());
        self.slot.status_detail = detail;
        let mut line = "deleted cached files for ".to_owned();
        line.append(what.as_str());
        self.push_log(line.as_str());
        self.want(Effect::Save(SaveReport::Shown));
        Ok(())
    }

    /// Whether a model is chosen.
    pub fn has_active_model(&self) -> (r: bool)
        ensures
            r == !blank(self@.config.model.source),
    {
        !self.config.model.source.is_blank()
    }

    /// The fetch into the library, if there was one: it goes on, failed or is
    /// done.
    pub fn active_library_fetch(&self) -> (r: Option<&LibraryFetch>)
        ensures
            (match r {
                Some(l) => Some(l@),
                None => None::<LibraryView>,
            }) == self@.library_fetch,
    {
        match &self.library_fetch {
            Some(l) => Some(l),
            None => None,
        }
    }

    /// Adds a model to the library, chooses it, and fetches it where that is
    /// asked. `facts` and `scan` say what is on disk of it.
    pub fn add_model(
        &mut self,
        kind: &str,
        value: &str,
        download: bool,
        facts: &DiskFacts,
        scan: &CacheScan,
        now: u64,
    ) -> (r: Result<(), String>)
        ensures
            ({
                let (a, answer) = model_added(
                    old(self)@,
                    kind@,
                    value@,
                    download,
                    *facts,
                    scan@,
                    now,
                );
                final(self)@ == a && outcome(r) == answer
            }),
    {
        let source = if same(kind, "hugging_face") || same(kind, "huggingface") || same(kind, "hf") {
            match normalize_repo_id(value) {
                Ok(repo) => {
                    self.last_hf_model = repo.clone();
                    ModelSource::HuggingFace(repo)
                },
                Err(e) => {
                    return Err(e);
                },
            }
        } else if same(kind, "local") {
            let path = trim(value);
            if path.as_str().is_empty() {
                return Err("Enter a full .gguf path.".to_owned());
            }
            self.last_local_model = path.clone();
            ModelSource::Local(path)
        } else {
            return Err("Choose Hugging Face or Local GGUF.".to_owned());
        };
        self.config.model.source = source.clone();
        self.config.remember_model(source.clone());
        self.sync_remote_model_size();
        self.mark_setting_changed(SettingField::Model);
        if download {
            match &source {
                ModelSource::HuggingFace(repo) => {
                    match self.start_library_download(repo.as_str(), facts, scan, now) {
                        Ok(()) => {},
                        Err(e) => {
                            return Err(e);
                        },
                    }
                },
                ModelSource::Local(_) => {},
            }
        }
        self.want(Effect::Save(SaveReport::Shown));
        Ok(())
    }

    /// Fetches a model into the library, unless one is being fetched, a server
    /// runs, or it is there.
    pub fn start_library_download(
        &mut self,
        repo: &str,
        facts: &DiskFacts,
        scan: &CacheScan,
        now: u64,
    ) -> (r: Result<(), String>)
        ensures
            ({
                let (a, answer) = fetch_asked(old(self)@, repo@, *facts, scan@, now);
                final(self)@ == a && outcome(r) == answer
            }),
    {
        let busy: bool = match &self.library_fetch {
            Some(l) => l.is_active(),
            None => false,
        };
        if busy {
            return Err("A download is already in progress.".to_owned());
        }
        if self.slot.is_running() {
            return Err("Stop the server before downloading a model into the cache.".to_owned());
        }
        let id = match normalize_repo_id(repo) {
            Ok(id) => id,
            Err(e) => {
                return Err(e);
            },
        };
        if has_local_files(&ModelSource::HuggingFace(id.clone()), facts) && !looks_incomplete_scan(
            scan,
            self.config.model.estimated_bytes,
        ) {
            let mut detail = id;
            detail.append(" is already on disk");
            self.slot.status_detail = detail;
            return Ok(());
        }
        self.library_fetch = Some(LibraryFetch::new(id.as_str(), now));
        self.want(Effect::Fetch(id.clone()));
        let mut detail = "Downloading ".to_owned();
        detail.append(id.as_str());
        self.slot.status_detail = detail;
        let mut line = "downloading ".to_owned();
        line.append(id.as_str());
        line.append(" into the local Hugging Face cache");
        self.push_log(line.as_str());
        Ok(())
    }

    /// The repository to fetch for a model of the library, or why there is none.
    pub fn downloadable(&self, source: Option<ModelSource>) -> (r: Result<String, String>)
        ensures
            res_text(r) == fetchable(source_view(source)),
    {
        match source {
            None => Err("That model is no longer in your library.".to_owned()),
            Some(ModelSource::HuggingFace(repo)) => Ok(repo),
            Some(ModelSource::Local(_)) => Err(
                "Only Hugging Face models can be downloaded into the cache.".to_owned(),
            ),
        }
    }

    /// Fetches the model of the library at a position.
    pub fn start_library_download_for_index(
        &mut self,
        index: usize,
        facts: &DiskFacts,
        scan: &CacheScan,
        now: u64,
    ) -> (r: Result<(), String>)
        ensures
            ({
                let l = library(old(self)@.config.recent_models);
                let s = if index < l.len() {
                    Some(l[index as int])
                } else {
                    None
                };
                match fetchable(s) {
                    Err(m) => r matches Err(e) && e@ == m && final(self)@ == old(self)@,
                    Ok(repo) => {
                        let (a, answer) = fetch_asked(old(self)@, repo, *facts, scan@, now);
                        final(self)@ == a && outcome(r) == answer
                    },
                }
            }),
    {
        match self.downloadable(self.library_source_at(index)) {
            Err(e) => Err(e),
            Ok(repo) => self.start_library_download(repo.as_str(), facts, scan, now),
        }
    }

    /// Fetches the model of the library that is called so.
    pub fn start_library_download_by_label(
        &mut self,
        label: &str,
        facts: &DiskFacts,
        scan: &CacheScan,
        now: u64,
    ) -> (r: Result<(), String>)
        ensures
            match fetchable(called(library(old(self)@.config.recent_models), label@)) {
                Err(m) => r matches Err(e) && e@ == m && final(self)@ == old(self)@,
                Ok(repo) => {
                    let (a, answer) = fetch_asked(old(self)@, repo, *facts, scan@, now);
                    final(self)@ == a && outcome(r) == answer
                },
            },
    {
        match self.downloadable(self.library_source(label)) {
            Err(e) => Err(e),
            Ok(repo) => self.start_library_download(repo.as_str(), facts, scan, now),
        }
    }

    /// Stops the fetch into the library, if one goes on.
    pub fn cancel_library_download(&mut self) -> (r: Result<(), String>)
        ensures
            match old(self)@.library_fetch {
                Some(l) if fetching(l) => r is Ok && final(self)@ == logged(
                    detailed(
                        if l.pending {
                            wanting(old(self)@, EffectView::CancelFetch)
                        } else {
                            old(self)@
                        },
                        "Cancelling download of "@ + l.repo,
                    ),
                    "cancelling download of "@ + l.repo,
                ),
                _ => {
                    &&& r matches Err(e)
                    &&& e@ == "No download is in progress."@
                    &&& final(self)@ == old(self)@
                },
            },
    {
        let (repo, pending) = match &self.library_fetch {
            None => {
                return Err("No download is in progress.".to_owned());
            },
            Some(l) => {
                if !l.is_active() {
                    return Err("No download is in progress.".to_owned());
                }
                (l.repo.clone(), l.cancel())
            },
        };
        if pending {
            self.want(Effect::CancelFetch);
        }
        let mut detail = "Cancelling download of ".to_owned();
        detail.append(repo.as_str());
        self.slot.status_detail = detail;
        let mut line = "cancelling download of ".to_owned();
        line.append(repo.as_str());
        self.push_log(line.as_str());
        Ok(())
    }
}

/// The repository to fetch for a model, or why there is none.
pub open spec fn fetchable(s: Option<SourceView>) -> Result<Text, Text> {
    match s {
        None => Err("That model is no longer in your library."@),
        Some(SourceView::HuggingFace(repo)) => Ok(repo),
        Some(SourceView::Local(_)) => Err(
            "Only Hugging Face models can be downloaded into the cache."@,
        ),
    }
}

/// The model of the library to be deleted, or why it cannot be.
pub open spec fn deletable(a: AppView, label: Text) -> Result<SourceView, Text> {
    if a.slot.process is Some {
        Err("Stop the server before removing a model."@)
    } else {
        match called(library(a.config.recent_models), label) {
            Some(s) => Ok(s),
            None => Err("That model is no longer in your library."@),
        }
    }
}

/// The model on disk whose files are to be deleted, or why they cannot be.
pub open spec fn deletable_files(a: AppView, label: Text) -> Result<SourceView, Text> {
    if a.slot.process is Some {
        Err("Stop the server before deleting cached files."@)
    } else {
        match called(
            found_sources(available(a.discovered_models, a.config.recent_models)),
            label,
        ) {
            Some(s) => Ok(s),
            None => Err("That on-disk model is no longer available."@),
        }
    }
}

proof fn lemma_sources_without(r: Seq<SourceView>, s: SourceView)
    ensures
        forall|i: int|
            0 <= i < sources_without(r, s).len() ==> !equivalent(
                #[trigger] sources_without(r, s)[i],
                s,
            ),
    decreases r.len(),
{
    if r.len() > 0 {
        let init = sources_without(r.drop_last(), s);
        lemma_sources_without(r.drop_last(), s);
        assert forall|i: int| 0 <= i < sources_without(r, s).len() implies !equivalent(
            #[trigger] sources_without(r, s)[i],
            s,
        ) by {
            if i < init.len() {
                assert(!equivalent(init[i], s));
            }
        }
    }
}

/// A model that was removed is not in the library any more and is not chosen.
/// What is chosen was chosen before, is in the library, or is nothing.
pub proof fn law_removed_model_stays_away(
    a: AppView,
    label: Text,
    s: SourceView,
    gone: Option<(nat, u64)>,
    now: u64,
)
    requires
        !blank(s),
        s matches SourceView::HuggingFace(r) ==> untagged(r).len() > 0,
    ensures
        ({
            let b = library_deleted(a, label, s, gone, now);
            &&& !in_library(b.config.recent_models, s)
            &&& !equivalent(b.config.model.source, s)
            &&& b.config.recent_models == sources_without(a.config.recent_models, s)
            &&& b.config.model.source == a.config.model.source || in_library(
                b.config.recent_models,
                b.config.model.source,
            ) || blank(b.config.model.source)
        }),
{
    lemma_sources_without(a.config.recent_models, s);
    assert(untagged(Seq::<char>::empty()) =~= Seq::<char>::empty());
}

proof fn lemma_available(f: Seq<FoundView>, r: Seq<SourceView>)
    ensures
        forall|i: int|
            0 <= i < available(f, r).len() ==> !in_library(
                r,
                (#[trigger] available(f, r)[i]).source,
            ),
    decreases f.len(),
{
    if f.len() > 0 {
        let init = available(f.drop_last(), r);
        lemma_available(f.drop_last(), r);
        assert forall|i: int| 0 <= i < available(f, r).len() implies !in_library(
            r,
            (#[trigger] available(f, r)[i]).source,
        ) by {
            if i < init.len() {
                assert(!in_library(r, init[i].source));
            }
        }
    }
}

/// What is offered from disk is never in the library already.
pub proof fn law_available_is_not_in_library(a: AppView, i: int)
    requires
        0 <= i < available(a.discovered_models, a.config.recent_models).len(),
    ensures
        !in_library(
            a.config.recent_models,
            available(a.discovered_models, a.config.recent_models)[i].source,
        ),
{
    lemma_available(a.discovered_models, a.config.recent_models);
}

/// A model that was added is the one that is chosen, stands first in the library,
/// and is of the kind and under the name that was asked for.
pub proof fn law_added_model_is_chosen(
    a: AppView,
    value: Text,
    download: bool,
    facts: DiskFacts,
    scan: ScanView,
    now: u64,
)
    ensures
        ({
            let (b, r) = model_added(a, "local"@, value, download, facts, scan, now);
            &&& trimmed(value).len() == 0 ==> r is Err && b == a
            &&& trimmed(value).len() > 0 ==> r is Ok && b.config.model.source == SourceView::Local(
                trimmed(value),
            ) && b.config.recent_models.len() > 0 && b.config.recent_models[0]
                == SourceView::Local(trimmed(value)) && b.last_local_model == trimmed(value)
                && b.last_hf_model == a.last_hf_model
            &&& b.config.runtime == a.config.runtime
            &&& b.config.server == a.config.server
            &&& b.config.network == a.config.network
        }),
        ({
            let (b, r) = model_added(a, "hugging_face"@, value, false, facts, scan, now);
            &&& repo_id(value) matches Ok(id) ==> r is Ok && b.config.model.source
                == SourceView::HuggingFace(id) && b.last_hf_model == id && b.last_local_model
                == a.last_local_model && b.library_fetch == a.library_fetch
            &&& repo_id(value) matches Ok(id) ==> id.len() > 0 && !blank(
                SourceView::HuggingFace(id),
            ) ==> b.config.recent_models.len() > 0 && b.config.recent_models[0]
                == SourceView::HuggingFace(id)
            &&& repo_id(value) is Err ==> r is Err && b == a
        }),
{
    reveal_strlit("local");
    reveal_strlit("hugging_face");
    reveal_strlit("huggingface");
    reveal_strlit("hf");
    assert("local"@.len() == 5 && "hugging_face"@.len() == 12 && "huggingface"@.len() == 11
        && "hf"@.len() == 2);
    crate::text::lemma_trim_idempotent(value);
}

/// A model that is picked is the one that is chosen, and nothing but the choice
/// changes in the settings.
pub proof fn law_picked_model_is_chosen(a: AppView, s: SourceView)
    ensures
        chosen(a, s).config.model.source == s,
        chosen(a, s).config == (ConfigView {
            model: ModelView { source: s, ..a.config.model },
            ..a.config
        }),
        s matches SourceView::HuggingFace(id) ==> chosen(a, s).last_hf_model == id
            && chosen(a, s).last_local_model == a.last_local_model,
        s matches SourceView::Local(p) ==> chosen(a, s).last_local_model == p
            && chosen(a, s).last_hf_model == a.last_hf_model,
{
}

/// Every remembered model that has a name is listed, with what is on the disk of
/// it, and nothing else is.
pub proof fn law_library_lists_every_model(
    r: Seq<SourceView>,
    f: Seq<FoundView>,
    facts: Seq<DiskFacts>,
    i: int,
)
    requires
        0 <= i < r.len(),
        !blank(r[i]),
    ensures
        exists|k: int|
            0 <= k < library_list(r, f, facts).len() && {
                let e = #[trigger] library_list(r, f, facts)[k];
                &&& e.source == r[i]
                &&& e.recent
                &&& e.on_disk == is_on_disk(r[i], facts[i])
                &&& found_bytes(f, r[i]) > 0 ==> e.bytes == found_bytes(f, r[i])
                &&& found_bytes(f, r[i]) == 0 && e.on_disk ==> e.bytes == disk_bytes(r[i], facts[i])
                &&& found_bytes(f, r[i]) == 0 && !e.on_disk ==> e.bytes == 0
            },
        library_list(r, f, facts).len() == library(r).len(),
    decreases r.len(),
{
    let all = library_list(r, f, facts);
    let init = library_list(r.drop_last(), f, facts);
    lemma_lists_agree(r, f, facts);
    if i == r.len() - 1 {
        assert(all[all.len() - 1].source == r[i]);
    } else {
        law_library_lists_every_model(r.drop_last(), f, facts, i);
        assert(r.drop_last()[i] == r[i]);
        let k = choose|k: int|
            0 <= k < init.len() && {
                let e = #[trigger] init[k];
                &&& e.source == r[i]
                &&& e.recent
                &&& e.on_disk == is_on_disk(r[i], facts[i])
                &&& found_bytes(f, r[i]) > 0 ==> e.bytes == found_bytes(f, r[i])
                &&& found_bytes(f, r[i]) == 0 && e.on_disk ==> e.bytes == disk_bytes(r[i], facts[i])
                &&& found_bytes(f, r[i]) == 0 && !e.on_disk ==> e.bytes == 0
            };
        assert(all[k] == init[k]);
    }
}

proof fn lemma_lists_agree(r: Seq<SourceView>, f: Seq<FoundView>, facts: Seq<DiskFacts>)
    ensures
        library_list(r, f, facts).len() == library(r).len(),
    decreases r.len(),
{
    if r.len() > 0 {
        lemma_lists_agree(r.drop_last(), f, facts);
    }
}

/// A label stands for the first model that is called so.
pub proof fn law_label_names_a_model(v: Seq<SourceView>, label: Text, i: int)
    requires
        0 <= i < v.len(),
        source_text(v[i]) == label,
        forall|j: int| 0 <= j < i ==> source_text(#[trigger] v[j]) != label,
    ensures
        called(v, label) == Some(v[i]),
    decreases v.len(),
{
    if i > 0 {
        assert(source_text(v[0]) != label);
        assert forall|j: int| 0 <= j < i - 1 implies source_text(#[trigger] v.drop_first()[j])
            != label by {
            assert(v.drop_first()[j] == v[j + 1]);
        }
        law_label_names_a_model(v.drop_first(), label, i - 1);
    }
}

/// One model is loaded at a time, and none beside a running server; what is asked
/// for then changes nothing.
pub proof fn law_one_download_at_a_time(
    a: AppView,
    repo: Text,
    facts: DiskFacts,
    scan: ScanView,
    now: u64,
)
    ensures
        (a.library_fetch matches Some(l) && !l.done && l.error is None) || a.slot.process is Some
            ==> fetch_asked(a, repo, facts, scan, now).1 is Err && fetch_asked(
            a,
            repo,
            facts,
            scan,
            now,
        ).0 == a,
{
}

/// A download that begins is of the repository that was asked for.
pub proof fn law_asked_model_is_fetched(
    a: AppView,
    repo: Text,
    r: Text,
    facts: DiskFacts,
    scan: ScanView,
    now: u64,
)
    requires
        !(a.library_fetch matches Some(l) && !l.done && l.error is None),
        a.slot.process is None,
        repo_id(repo) == Ok::<Text, Text>(r),
        !is_on_disk(SourceView::HuggingFace(r), facts),
    ensures
        ({
            let (b, out) = fetch_asked(a, repo, facts, scan, now);
            &&& out is Ok
            &&& b.library_fetch matches Some(l) && l.repo == r && l.pending && l.downloaded == 0
            &&& b.effects == a.effects.push(EffectView::Fetch(r))
            &&& b.config == a.config
        }),
{
}

/// The kind that was chosen decides what an entry names: a path on this disk as
/// it is, or a repository.
pub proof fn law_kind_decides_the_source(value: Text)
    ensures
        trimmed(value).len() > 0 ==> asked_source("local"@, value) == Ok::<SourceView, Text>(
            SourceView::Local(trimmed(value)),
        ),
        trimmed(value).len() == 0 ==> asked_source("local"@, value) is Err,
        asked_source("hugging_face"@, value) matches Ok(s) ==> s is HuggingFace,
        repo_id(value) matches Ok(r) ==> asked_source("hugging_face"@, value) == Ok::<
            SourceView,
            Text,
        >(SourceView::HuggingFace(r)),
        asked_source("hf"@, value) == asked_source("hugging_face"@, value),
{
    reveal_strlit("local");
    reveal_strlit("hugging_face");
    reveal_strlit("huggingface");
    reveal_strlit("hf");
    assert("local"@[0] != "hugging_face"@[0] && "local"@[0] != "huggingface"@[0] && "local"@[0]
        != "hf"@[0]);
}

proof fn lemma_others_stay(r: Seq<SourceView>, s: SourceView, x: SourceView)
    ensures
        sources_without(r, s).contains(x) <==> r.contains(x) && !equivalent(x, s),
    decreases r.len(),
{
    if r.len() > 0 {
        let init = r.drop_last();
        lemma_others_stay(init, s, x);
        assert(r =~= init.push(r.last()));
        crate::order::lemma_holds_pushed(init, r.last(), x);
        crate::order::lemma_holds_pushed(sources_without(init, s), r.last(), x);
    }
}

proof fn lemma_others_found(f: Seq<FoundView>, s: SourceView, x: FoundView)
    ensures
        found_without(f, s).contains(x) <==> f.contains(x) && !equivalent(x.source, s),
    decreases f.len(),
{
    if f.len() > 0 {
        let init = f.drop_last();
        lemma_others_found(init, s, x);
        assert(f =~= init.push(f.last()));
        crate::order::lemma_holds_pushed(init, f.last(), x);
        crate::order::lemma_holds_pushed(found_without(init, s), f.last(), x);
    }
}

/// A model that leaves the library leaves alone: every other model stays, in the
/// library and among those found on disk.
pub proof fn law_other_models_stay(
    r: Seq<SourceView>,
    f: Seq<FoundView>,
    s: SourceView,
    x: SourceView,
    y: FoundView,
)
    ensures
        sources_without(r, s).contains(x) <==> r.contains(x) && !equivalent(x, s),
        found_without(f, s).contains(y) <==> f.contains(y) && !equivalent(y.source, s),
{
    lemma_others_stay(r, s, x);
    lemma_others_found(f, s, y);
}

} // verus!
