//! Models on disk: finding them, measuring them and deleting them.
use vstd::prelude::*;
use vstd::multiset::Multiset;

use crate::bind::source_text;
use crate::cache::{
    blobs, dir_parts, found, hub_model_gguf_bytes, hub_model_size, parse_hub_dir, partial_stem,
    strip_partial, CachedBlob, DiscoveredModel, DiscoveredSource, FoundView,
};
use crate::cache_paths::{
    cached_paths, huggingface_cache_paths_in, partial_paths, partials_of, FlatRoot, HubRoot,
};
use crate::config::{ModelSource, SourceView};
use crate::hub::{is_model_file, model_path};
use crate::order::{is_order, order_of, text_before, text_lt, lemma_text_total, lemma_text_trans};
use crate::probe::plus;
use crate::shards::{model_parts, parts_of_model};
use crate::text::{index_in, lemma_index_in, list_contains, same, texts, Text};

verus! {

broadcast use vstd::string::group_string_axioms;

/// A directory of the hub layout, with what was read off the disk.
#[derive(Debug)]
pub struct HubDir {
    pub name: String,
    /// The greatest model file of the current snapshot, where there is one.
    pub main: Option<u64>,
    /// The greatest model file of each snapshot.
    pub snapshots: Vec<u64>,
    pub blobs: Vec<CachedBlob>,
}

/// A file of the flat layout.
#[derive(Debug)]
pub struct FlatFile {
    pub path: String,
    pub name: String,
    pub bytes: u64,
}

/// The repository and size of a directory, where it holds a model.
pub open spec fn hub_model(d: HubDir) -> Option<(Text, u64)> {
    match dir_parts(d.name@) {
        Some(p) => match hub_model_size(d.main, d.snapshots@, p.1, blobs(d.blobs@)) {
            Some(n) => Some((p.0 + "/"@ + p.1, n)),
            None => None,
        },
        None => None,
    }
}

/// The first parts of pairs.
pub open spec fn firsts(v: Seq<(Text, u64)>) -> Seq<Text> {
    Seq::new(v.len(), |i: int| v[i].0)
}

/// The pairs with one more: of two for one repository the greater counts.
pub open spec fn merged_one(v: Seq<(Text, u64)>, x: (Text, u64)) -> Seq<(Text, u64)> {
    let k = index_in(firsts(v), x.0);
    if k < v.len() {
        if x.1 > v[k].1 {
            v.update(k, x)
        } else {
            v
        }
    } else {
        v.push(x)
    }
}

/// The repositories that the directories hold models of, and their sizes.
pub open spec fn merged(d: Seq<HubDir>) -> Seq<(Text, u64)>
    decreases d.len(),
{
    if d.len() == 0 {
        Seq::empty()
    } else {
        let init = merged(d.drop_last());
        match hub_model(d.last()) {
            Some(x) => merged_one(init, x),
            None => init,
        }
    }
}

/// Whether a file of the flat layout is a complete model.
pub open spec fn flat_model(f: FlatFile) -> bool {
    partial_stem(f.name@) is None && model_path(f.name@)
}

/// The models of the flat layout.
pub open spec fn flat_found(f: Seq<FlatFile>) -> Seq<FoundView>
    decreases f.len(),
{
    if f.len() == 0 {
        Seq::empty()
    } else {
        let init = flat_found(f.drop_last());
        if flat_model(f.last()) {
            init.push(
                FoundView { source: SourceView::Local(f.last().path@), bytes: f.last().bytes },
            )
        } else {
            init
        }
    }
}

/// The models of the hub layout.
pub open spec fn hub_found(v: Seq<(Text, u64)>) -> Seq<FoundView> {
    Seq::new(
        v.len(),
        |i: int| FoundView { source: SourceView::HuggingFace(v[i].0), bytes: v[i].1 },
    )
}

/// All models on disk, before they are put in order.
pub open spec fn all_found(d: Seq<HubDir>, f: Seq<FlatFile>) -> Seq<FoundView> {
    hub_found(merged(d)) + flat_found(f)
}

/// Whether a model is listed no later than another: greater ones first, then
/// in order of their names.
pub open spec fn no_later(a: FoundView, b: FoundView) -> bool {
    a.bytes > b.bytes || (a.bytes == b.bytes && !text_lt(
        source_text(b.source),
        source_text(a.source),
    ))
}

/// Whether models are listed in order.
pub open spec fn in_order(v: Seq<FoundView>) -> bool {
    forall|i: int, j: int| 0 <= i < j < v.len() ==> no_later(#[trigger] v[i], #[trigger] v[j])
}

fn earlier(a: &DiscoveredModel, b: &DiscoveredModel) -> (r: bool)
    ensures
        r == !no_later(b@, a@),
{
    a.bytes > b.bytes || (a.bytes == b.bytes && text_before(
        a.label().as_str(),
        b.label().as_str(),
    ))
}

proof fn lemma_no_later_trans(a: FoundView, b: FoundView, c: FoundView)
    requires
        no_later(a, b),
        no_later(b, c),
    ensures
        no_later(a, c),
{
    let (x, y, z) = (source_text(a.source), source_text(b.source), source_text(c.source));
    if a.bytes == b.bytes && b.bytes == c.bytes && text_lt(z, x) {
        lemma_text_total(x, y);
        lemma_text_total(y, z);
        if x != y {
            lemma_text_trans(z, x, y);
        }
    }
}

proof fn lemma_no_later_total(a: FoundView, b: FoundView)
    ensures
        no_later(a, b) || no_later(b, a),
{
    lemma_text_total(source_text(a.source), source_text(b.source));
}

/// Puts a model where it belongs among those in order, after its equals.
fn place_model(v: &mut Vec<DiscoveredModel>, m: DiscoveredModel)
    requires
        in_order(found(old(v)@)),
    ensures
        in_order(found(final(v)@)),
        found(final(v)@).to_multiset() == found(old(v)@).to_multiset().insert(m@),
{
    broadcast use vstd::seq_lib::group_to_multiset_ensures;

    let ghost was = found(v@);
    let ghost mv = m@;
    let mut at: usize = v.len();
    while at > 0 && earlier(&m, &v[at - 1])
        invariant
            was == found(v@),
            mv == m@,
            at <= v.len(),
            forall|k: int| at <= k < was.len() ==> !no_later(#[trigger] was[k], mv),
        decreases at,
    {
        proof {
            assert(was[at - 1] == v@[at - 1]@);
        }
        at = at - 1;
    }
    proof {
        if at > 0 {
            assert(was[at - 1] == v@[at - 1]@);
            assert(no_later(was[at - 1], mv));
        }
    }
    v.insert(at, m);
    proof {
        let now = found(v@);
        assert(now =~= was.insert(at as int, mv));
        assert forall|i: int, j: int| 0 <= i < j < now.len() implies no_later(
            #[trigger] now[i],
            #[trigger] now[j],
        ) by {
            let a = if i < at { i } else { i - 1 };
            let b = if j < at { j } else { j - 1 };
            if i != at && j != at {
                assert(now[i] == was[a] && now[j] == was[b]);
            } else if i == at {
                assert(now[j] == was[b]);
                lemma_no_later_total(mv, was[b]);
            } else {
                assert(now[i] == was[a]);
                if a < at - 1 {
                    lemma_no_later_trans(was[a], was[at - 1], mv);
                }
            }
        }
    }
}

fn sort_models(v: Vec<DiscoveredModel>) -> (out: Vec<DiscoveredModel>)
    ensures
        in_order(found(out@)),
        found(out@).to_multiset() == found(v@).to_multiset(),
{
    broadcast use vstd::seq_lib::group_to_multiset_ensures;

    let ghost all = found(v@);
    let mut out: Vec<DiscoveredModel> = Vec::new();
    let mut i: usize = 0;
    proof {
        assert(found(out@) =~= all.take(0));
    }
    while i < v.len()
        invariant
            all == found(v@),
            i <= v.len(),
            in_order(found(out@)),
            found(out@).to_multiset() == all.take(i as int).to_multiset(),
        decreases v.len() - i,
    {
        proof {
            broadcast use vstd::seq_lib::group_to_multiset_ensures;

            assert(all.take(i + 1) =~= all.take(i as int).push(all[i as int]));
            assert(all[i as int] == v@[i as int]@);
            assert(all.take(i + 1).to_multiset() =~= all.take(i as int).to_multiset().insert(
                all[i as int],
            ));
        }
        place_model(&mut out, v[i].clone());
        i = i + 1;
    }
    proof {
        assert(all.take(all.len() as int) =~= all);
    }
    out
}

/// The models on disk, the greatest first: one for each repository of the hub
/// layout, and one for each complete file of the flat layout.
pub fn discover_models(d: &Vec<HubDir>, f: &Vec<FlatFile>) -> (out: Vec<DiscoveredModel>)
    ensures
        in_order(found(out@)),
        found(out@).to_multiset() == all_found(d@, f@).to_multiset(),
{
    let mut hub: Vec<(String, u64)> = Vec::new();
    let mut i: usize = 0;
    proof {
        assert(d@.take(0) =~= Seq::<HubDir>::empty());
        assert(pairs(hub@) =~= merged(d@.take(0)));
    }
    while i < d.len()
        invariant
            i <= d.len(),
            pairs(hub@) == merged(d@.take(i as int)),
        decreases d.len() - i,
    {
        let ghost was = pairs(hub@);
        proof {
            assert(d@.take(i + 1).drop_last() =~= d@.take(i as int));
        }
        let found_one: Option<(String, u64)> = match parse_hub_dir(d[i].name.as_str()) {
            Some((owner, repo)) => match hub_model_gguf_bytes(
                d[i].main,
                &d[i].snapshots,
                repo.as_str(),
                &d[i].blobs,
            ) {
                Some(n) => {
                    let mut id = owner;
                    id.append("/");
                    id.append(repo.as_str());
                    Some((id, n))
                },
                None => None,
            },
            None => None,
        };
        match found_one {
            Some((id, n)) => {
                merge_one(&mut hub, id, n);
            },
            None => {},
        }
        i = i + 1;
    }
    proof {
        assert(d@.take(d@.len() as int) =~= d@);
    }
    let mut all: Vec<DiscoveredModel> = Vec::new();
    let ghost h = hub_found(pairs(hub@));
    let mut j: usize = 0;
    while j < hub.len()
        invariant
            j <= hub.len(),
            h == hub_found(pairs(hub@)),
            all.len() == j,
            forall|k: int| 0 <= k < j ==> (#[trigger] all@[k])@ == h[k],
        decreases hub.len() - j,
    {
        all.push(
            DiscoveredModel {
                source: DiscoveredSource::HuggingFace(hub[j].0.clone()),
                bytes: hub[j].1,
            },
        );
        j = j + 1;
    }
    let mut k: usize = 0;
    proof {
        assert(f@.take(0) =~= Seq::<FlatFile>::empty());
        assert(found(all@) =~= h + flat_found(f@.take(0)));
    }
    while k < f.len()
        invariant
            k <= f.len(),
            found(all@) == h + flat_found(f@.take(k as int)),
        decreases f.len() - k,
    {
        let ghost was = found(all@);
        proof {
            assert(f@.take(k + 1).drop_last() =~= f@.take(k as int));
        }
        if strip_partial(f[k].name.as_str()).is_none() && is_model_file(f[k].name.as_str()) {
            let m = DiscoveredModel {
                source: DiscoveredSource::Local(f[k].path.clone()),
                bytes: f[k].bytes,
            };
            let ghost mv = m@;
            all.push(m);
            proof {
                assert(found(all@) =~= was.push(mv));
                assert(found(all@) =~= h + flat_found(f@.take(k + 1)));
            }
        }
        k = k + 1;
    }
    proof {
        assert(f@.take(f@.len() as int) =~= f@);
    }
    sort_models(all)
}

/// The views of pairs of a text and a number.
pub open spec fn pairs(v: Seq<(String, u64)>) -> Seq<(Text, u64)> {
    Seq::new(v.len(), |i: int| (v[i].0@, v[i].1))
}

fn merge_one(v: &mut Vec<(String, u64)>, id: String, n: u64)
    ensures
        pairs(final(v)@) == merged_one(pairs(old(v)@), (id@, n)),
{
    let ghost was = pairs(v@);
    let ghost idv = id@;
    proof {
        lemma_index_in(firsts(was), idv);
    }
    let mut i: usize = 0;
    while i < v.len()
        invariant
            i <= v.len(),
            was == pairs(v@),
            *v == *old(v),
            idv == id@,
            forall|k: int| 0 <= k < i ==> firsts(was)[k] != idv,
            0 <= index_in(firsts(was), idv) <= was.len(),
            index_in(firsts(was), idv) < was.len() ==> firsts(was)[index_in(firsts(was), idv)]
                == idv,
            forall|k: int| 0 <= k < index_in(firsts(was), idv) ==> firsts(was)[k] != idv,
        decreases v.len() - i,
    {
        proof {
            assert(firsts(was)[i as int] == v@[i as int].0@);
        }
        if same(v[i].0.as_str(), id.as_str()) {
            if n > v[i].1 {
                v.set(i, (id, n));
                proof {
                    assert(pairs(v@) =~= was.update(i as int, (idv, n)));
                }
            }
            return;
        }
        i = i + 1;
    }
    v.push((id, n));
    proof {
        assert(pairs(v@) =~= was.push((idv, n)));
    }
}

/// A path, whether it is there, and its size.
#[derive(Debug)]
pub struct PathFact {
    pub path: String,
    pub exists: bool,
    pub bytes: u64,
}

/// What the disk says of a model's files.
#[derive(Debug)]
pub struct DiskFacts {
    /// The hub's caches.
    pub hubs: Vec<HubRoot>,
    /// The server's own caches.
    pub flats: Vec<FlatRoot>,
    /// The paths that were looked up; a local model's count as there where they
    /// are regular files. What is not among them counts as missing.
    pub files: Vec<PathFact>,
}

/// What is known of a path: the first fact about it.
pub open spec fn fact_at(v: Seq<PathFact>, path: Text, i: int) -> Option<PathFact>
    decreases v.len() - i,
{
    if i < 0 || i >= v.len() {
        None
    } else if v[i].path@ == path {
        Some(v[i])
    } else {
        fact_at(v, path, i + 1)
    }
}

/// Whether a path is there.
pub open spec fn is_there(v: Seq<PathFact>, path: Text) -> bool {
    fact_at(v, path, 0) matches Some(f) && f.exists
}

/// The bytes of a path, nought where it is not there.
pub open spec fn length_of(v: Seq<PathFact>, path: Text) -> u64 {
    match fact_at(v, path, 0) {
        Some(f) if f.exists => f.bytes,
        _ => 0,
    }
}

fn find_fact(v: &Vec<PathFact>, path: &str) -> (r: Option<usize>)
    ensures
        match r {
            Some(k) => k < v.len() && fact_at(v@, path@, 0) == Some(v@[k as int]),
            None => fact_at(v@, path@, 0) is None,
        },
{
    let mut i: usize = 0;
    while i < v.len()
        invariant
            i <= v.len(),
            fact_at(v@, path@, 0) == fact_at(v@, path@, i as int),
        decreases v.len() - i,
    {
        if same(v[i].path.as_str(), path) {
            return Some(i);
        }
        i = i + 1;
    }
    None
}

pub(crate) fn path_there(v: &Vec<PathFact>, path: &str) -> (r: bool)
    ensures
        r == is_there(v@, path@),
{
    match find_fact(v, path) {
        Some(k) => v[k].exists,
        None => false,
    }
}

pub(crate) fn path_length(v: &Vec<PathFact>, path: &str) -> (n: u64)
    ensures
        n == length_of(v@, path@),
{
    match find_fact(v, path) {
        Some(k) => if v[k].exists {
            v[k].bytes
        } else {
            0
        },
        None => 0,
    }
}

/// The bytes of the paths together, at most the greatest number there is.
pub open spec fn bytes_sum(paths: Seq<Text>, v: Seq<PathFact>) -> u64
    decreases paths.len(),
{
    if paths.len() == 0 {
        0
    } else {
        plus(bytes_sum(paths.drop_last(), v), length_of(v, paths.last()))
    }
}

fn sum_bytes(paths: &Vec<String>, v: &Vec<PathFact>) -> (n: u64)
    ensures
        n == bytes_sum(texts(paths@), v@),
{
    let ghost all = texts(paths@);
    let mut n: u64 = 0;
    let mut i: usize = 0;
    proof {
        assert(all.take(0) =~= Seq::<Text>::empty());
    }
    while i < paths.len()
        invariant
            all == texts(paths@),
            i <= paths.len(),
            n == bytes_sum(all.take(i as int), v@),
        decreases paths.len() - i,
    {
        proof {
            assert(all.take(i + 1).drop_last() =~= all.take(i as int));
            assert(all.take(i + 1).last() == paths@[i as int]@);
        }
        n = n.saturating_add(path_length(v, paths[i].as_str()));
        i = i + 1;
    }
    proof {
        assert(all.take(all.len() as int) =~= all);
    }
    n
}

/// The paths that are there, in order.
pub open spec fn there(paths: Seq<Text>, v: Seq<PathFact>) -> Seq<Text>
    decreases paths.len(),
{
    if paths.len() == 0 {
        Seq::empty()
    } else {
        let init = there(paths.drop_last(), v);
        if is_there(v, paths.last()) {
            init.push(paths.last())
        } else {
            init
        }
    }
}

fn paths_there(paths: &Vec<String>, v: &Vec<PathFact>) -> (out: Vec<String>)
    ensures
        texts(out@) == there(texts(paths@), v@),
{
    let ghost all = texts(paths@);
    let mut out: Vec<String> = Vec::new();
    let mut i: usize = 0;
    proof {
        assert(all.take(0) =~= Seq::<Text>::empty());
        assert(texts(out@) =~= there(all.take(0), v@));
    }
    while i < paths.len()
        invariant
            all == texts(paths@),
            i <= paths.len(),
            texts(out@) == there(all.take(i as int), v@),
        decreases paths.len() - i,
    {
        let ghost before = texts(out@);
        proof {
            assert(all.take(i + 1).drop_last() =~= all.take(i as int));
            assert(all.take(i + 1).last() == paths@[i as int]@);
        }
        if path_there(v, paths[i].as_str()) {
            out.push(paths[i].clone());
            proof {
                assert(texts(out@) =~= before.push(paths@[i as int]@));
            }
        }
        i = i + 1;
    }
    proof {
        assert(all.take(all.len() as int) =~= all);
    }
    out
}

/// The paths at which a model's weights stand: what the caches hold of a
/// repository, or the files of a local model.
pub open spec fn model_paths(s: SourceView, facts: DiskFacts) -> Seq<Text> {
    match s {
        SourceView::HuggingFace(repo) => cached_paths(repo, facts.hubs@, facts.flats@),
        SourceView::Local(path) => model_parts(path),
    }
}

fn paths_of_model(source: &ModelSource, facts: &DiskFacts) -> (out: Vec<String>)
    ensures
        texts(out@) == model_paths(source@, *facts),
{
    match source {
        ModelSource::HuggingFace(repo) => huggingface_cache_paths_in(
            repo.as_str(),
            &facts.hubs,
            &facts.flats,
        ),
        ModelSource::Local(path) => parts_of_model(path.as_str()),
    }
}

/// Whether a model is on disk: something of a repository is in the caches, or
/// the file of a local model is there.
pub open spec fn is_on_disk(s: SourceView, facts: DiskFacts) -> bool {
    match s {
        SourceView::HuggingFace(_) => there(model_paths(s, facts), facts.files@).len() > 0,
        SourceView::Local(path) => is_there(facts.files@, path),
    }
}

/// The bytes that a model takes up on disk.
pub open spec fn disk_bytes(s: SourceView, facts: DiskFacts) -> u64 {
    bytes_sum(model_paths(s, facts), facts.files@)
}

/// Whether there are files of the model that can be removed.
pub fn has_local_files(source: &ModelSource, facts: &DiskFacts) -> (r: bool)
    ensures
        r == is_on_disk(source@, *facts),
{
    match source {
        ModelSource::HuggingFace(_) => {
            let found = paths_there(&paths_of_model(source, facts), &facts.files);
            proof {
                assert(texts(found@).len() == found.len());
            }
            found.len() > 0
        },
        ModelSource::Local(path) => path_there(&facts.files, path.as_str()),
    }
}

/// The bytes that the model takes up on disk.
pub fn local_bytes(source: &ModelSource, facts: &DiskFacts) -> (n: u64)
    ensures
        n == disk_bytes(source@, *facts),
{
    sum_bytes(&paths_of_model(source, facts), &facts.files)
}

/// Files, each with the unfinished ones that may stand beside it.
pub open spec fn with_partials(v: Seq<Text>) -> Seq<Text>
    decreases v.len(),
{
    if v.len() == 0 {
        Seq::empty()
    } else {
        with_partials(v.drop_last()).push(v.last()) + partials_of(v.last())
    }
}

/// The files that belong to a model of a path: its parts and the unfinished
/// files beside them.
pub open spec fn files_of(s: SourceView) -> Seq<Text> {
    match s {
        SourceView::HuggingFace(_) => Seq::empty(),
        SourceView::Local(path) => with_partials(model_parts(path)),
    }
}

/// The files that belong to a local model: its parts where it is split, else
/// itself, each with the unfinished files beside it.
pub fn local_files(source: &ModelSource) -> (out: Vec<String>)
    ensures
        texts(out@) == files_of(source@),
{
    let mut out: Vec<String> = Vec::new();
    match source {
        ModelSource::HuggingFace(_) => {
            proof {
                assert(texts(out@) =~= Seq::<Text>::empty());
            }
        },
        ModelSource::Local(path) => {
            let parts = parts_of_model(path.as_str());
            let ghost all = texts(parts@);
            let mut i: usize = 0;
            proof {
                assert(all.take(0) =~= Seq::<Text>::empty());
                assert(texts(out@) =~= with_partials(all.take(0)));
            }
            while i < parts.len()
                invariant
                    all == texts(parts@),
                    i <= parts.len(),
                    texts(out@) == with_partials(all.take(i as int)),
                decreases parts.len() - i,
            {
                let ghost was = texts(out@);
                let part = &parts[i];
                let mut more = partial_paths(part.as_str());
                let ghost m = texts(more@);
                out.push(part.clone());
                out.append(&mut more);
                proof {
                    assert(all.take(i + 1).drop_last() =~= all.take(i as int));
                    assert(all.take(i + 1).last() == part@);
                    assert(texts(out@) =~= was.push(part@) + m);
                }
                i = i + 1;
            }
            proof {
                assert(all.take(all.len() as int) =~= all);
            }
        },
    }
    out
}

/// Whether a list holds the texts of another, each once and in order.
pub open spec fn sorted_set(out: Seq<Text>, v: Seq<Text>) -> bool {
    &&& forall|i: int, j: int|
        0 <= i < j < out.len() ==> text_lt(#[trigger] out[i], #[trigger] out[j])
    &&& forall|t: Text| #[trigger] out.contains(t) <==> v.contains(t)
}

fn sort_unique(v: &Vec<String>) -> (out: Vec<String>)
    ensures
        sorted_set(texts(out@), texts(v@)),
{
    let p = order_of(v);
    let ghost t = texts(v@);
    let mut out: Vec<String> = Vec::new();
    let mut i: usize = 0;
    while i < p.len()
        invariant
            t == texts(v@),
            is_order(p@, t),
            i <= p.len(),
            forall|a: int, b: int|
                0 <= a < b < out.len() ==> text_lt(
                    #[trigger] texts(out@)[a],
                    #[trigger] texts(out@)[b],
                ),
            forall|a: int|
                #![trigger texts(out@)[a]]
                0 <= a < out.len() ==> exists|k: int|
                    0 <= k < i && #[trigger] t[p@[k] as int] == texts(out@)[a],
            forall|k: int|
                0 <= k < i ==> texts(out@).contains(#[trigger] t[p@[k] as int]),
            out.len() > 0 ==> i > 0 && texts(out@)[out.len() - 1] == t[p@[i - 1] as int],
        decreases p.len() - i,
    {
        let k: usize = p[i];
        proof {
            assert(k < t.len());
            assert(t[k as int] == v@[k as int]@);
        }
        let ghost was = texts(out@);
        let again: bool = out.len() > 0 && same(out[out.len() - 1].as_str(), v[k].as_str());
        if !again {
            proof {
                assert forall|a: int| 0 <= a < was.len() implies text_lt(was[a], t[k as int]) by {
                    let l = p@[i - 1] as int;
                    assert(crate::order::comes_before(t, l, k as int));
                    assert(was[was.len() - 1] == t[l]);
                    if a < was.len() - 1 {
                        lemma_text_trans(was[a], t[l], t[k as int]);
                    }
                }
            }
            out.push(v[k].clone());
            proof {
                assert(texts(out@) =~= was.push(t[k as int]));
                assert forall|a: int, b: int| 0 <= a < b < out.len() implies text_lt(
                    #[trigger] texts(out@)[a],
                    #[trigger] texts(out@)[b],
                ) by {
                    if b == was.len() {
                        assert(texts(out@)[a] == was[a]);
                    } else {
                        assert(texts(out@)[a] == was[a] && texts(out@)[b] == was[b]);
                    }
                }
                assert forall|q: int| 0 <= q < i + 1 implies texts(out@).contains(
                    #[trigger] t[p@[q] as int],
                ) by {
                    if q < i {
                        assert(was.contains(t[p@[q] as int]));
                        let z = choose|z: int| 0 <= z < was.len() && was[z] == t[p@[q] as int];
                        assert(texts(out@)[z] == t[p@[q] as int]);
                    } else {
                        assert(texts(out@)[was.len() as int] == t[k as int]);
                    }
                }
                assert forall|a: int|
                    #![trigger texts(out@)[a]]
                    0 <= a < out.len() implies exists|q: int|
                    0 <= q < i + 1 && #[trigger] t[p@[q] as int] == texts(out@)[a] by {
                    if a < was.len() {
                        assert(texts(out@)[a] == was[a]);
                    } else {
                        assert(t[p@[i as int] as int] == texts(out@)[a]);
                    }
                }
            }
        } else {
            proof {
                assert(was[was.len() - 1] == t[k as int]);
                assert(was.contains(t[k as int]));
            }
        }
        i = i + 1;
    }
    proof {
        let o = texts(out@);
        assert forall|x: Text| #[trigger] o.contains(x) <==> t.contains(x) by {
            if o.contains(x) {
                let a = choose|a: int| 0 <= a < o.len() && o[a] == x;
                let k = choose|k: int| 0 <= k < i && #[trigger] t[p@[k] as int] == texts(out@)[a];
                assert(t[p@[k] as int] == x);
            }
            if t.contains(x) {
                let j = choose|j: int| 0 <= j < t.len() && t[j] == x;
                lemma_order_covers(p@, t, j);
                let k = choose|k: int| 0 <= k < p@.len() && #[trigger] p@[k] == j;
                assert(t[p@[k] as int] == x);
            }
        }
    }
    out
}

/// Every position is listed.
proof fn lemma_order_covers(p: Seq<usize>, t: Seq<Text>, j: int)
    requires
        is_order(p, t),
        0 <= j < t.len(),
    ensures
        exists|k: int| 0 <= k < p.len() && #[trigger] p[k] == j,
{
    let q = Seq::new(p.len(), |i: int| p[i] as int);
    assert(q.no_duplicates()) by {
        assert forall|a: int, b: int| 0 <= a < q.len() && 0 <= b < q.len() && a != b implies q[a]
            != q[b] by {
            let (x, y) = if a < b { (a, b) } else { (b, a) };
            assert(crate::order::comes_before(t, p[x] as int, p[y] as int));
            lemma_text_total(t[p[x] as int], t[p[y] as int]);
        }
    }
    q.unique_seq_to_set();
    let s = q.to_set();
    let full = vstd::set_lib::set_int_range(0, t.len() as int);
    vstd::set_lib::lemma_int_range(0, t.len() as int);
    assert(s.subset_of(full)) by {
        assert forall|x: int| s.contains(x) implies full.contains(x) by {
            let a = choose|a: int| 0 <= a < q.len() && q[a] == x;
            assert(p[a] < t.len());
        }
    }
    vstd::set_lib::lemma_subset_equality(s, full);
    assert(full.contains(j));
    assert(q.contains(j));
    let k = choose|k: int| 0 <= k < q.len() && q[k] == j;
    assert(p[k] == j);
}

/// What was removed from disk.
#[derive(Debug)]
pub struct DeleteReport {
    pub removed_paths: Vec<String>,
    pub freed_bytes: u64,
}

impl Default for DeleteReport {
    fn default() -> (r: Self)
        ensures
            r.removed_paths.len() == 0,
            r.freed_bytes == 0,
    {
        DeleteReport { removed_paths: Vec::new(), freed_bytes: 0 }
    }
}

/// What to remove to delete a model from disk, with the bytes that this frees,
/// or why there is nothing. Of a repository that is everything that the caches
/// hold of it; of a local model its files and the unfinished ones beside them,
/// as far as they are there, in order and each once.
pub fn delete_local_files(source: &ModelSource, facts: &DiskFacts) -> (r: Result<
    DeleteReport,
    String,
>)
    ensures
        match source@ {
            SourceView::HuggingFace(_) => {
                let all = model_paths(source@, *facts);
                if all.len() == 0 {
                    r matches Err(e) && e@ == "Not a valid Hugging Face repository id."@
                } else if there(all, facts.files@).len() == 0 {
                    r matches Err(e) && e@ == "No local cache found for this model."@
                } else {
                    r matches Ok(d) && texts(d.removed_paths@) == there(all, facts.files@)
                }
            },
            SourceView::Local(_) => {
                let found = there(files_of(source@), facts.files@);
                if found.len() == 0 {
                    r matches Err(e) && e@ == "No local model file found to delete."@
                } else {
                    r matches Ok(d) && sorted_set(texts(d.removed_paths@), found)
                }
            },
        },
        r matches Ok(d) ==> d.freed_bytes == bytes_sum(texts(d.removed_paths@), facts.files@),
{
    let removed = match source {
        ModelSource::HuggingFace(_) => {
            let all = paths_of_model(source, facts);
            proof {
                assert(texts(all@).len() == all.len());
            }
            if all.len() == 0 {
                return Err("Not a valid Hugging Face repository id.".to_owned());
            }
            let found = paths_there(&all, &facts.files);
            proof {
                assert(texts(found@).len() == found.len());
            }
            if found.len() == 0 {
                return Err("No local cache found for this model.".to_owned());
            }
            found
        },
        ModelSource::Local(_) => {
            let found = paths_there(&local_files(source), &facts.files);
            proof {
                assert(texts(found@).len() == found.len());
            }
            if found.len() == 0 {
                return Err("No local model file found to delete.".to_owned());
            }
            sort_unique(&found)
        },
    };
    let freed_bytes: u64 = sum_bytes(&removed, &facts.files);
    Ok(DeleteReport { removed_paths: removed, freed_bytes })
}

/// The candidates that are there and not empty, each once, in order.
pub open spec fn roots(v: Seq<Option<Text>>) -> Seq<Text>
    decreases v.len(),
{
    if v.len() == 0 {
        Seq::empty()
    } else {
        let init = roots(v.drop_last());
        match v.last() {
            Some(t) if t.len() > 0 && !init.contains(t) => init.push(t),
            _ => init,
        }
    }
}

/// The views of texts that may be missing.
pub open spec fn opt_texts(v: Seq<Option<String>>) -> Seq<Option<Text>> {
    Seq::new(v.len(), |i: int| crate::text::opt_text(v[i]))
}

/// The directories to look at: the candidates that are there and not empty,
/// each once, in order.
pub fn cache_roots(v: &Vec<Option<String>>) -> (out: Vec<String>)
    ensures
        texts(out@) == roots(opt_texts(v@)),
{
    let ghost all = opt_texts(v@);
    let mut out: Vec<String> = Vec::new();
    let mut i: usize = 0;
    proof {
        assert(all.take(0) =~= Seq::<Option<Text>>::empty());
        assert(texts(out@) =~= roots(all.take(0)));
    }
    while i < v.len()
        invariant
            all == opt_texts(v@),
            i <= v.len(),
            texts(out@) == roots(all.take(i as int)),
        decreases v.len() - i,
    {
        let ghost was = texts(out@);
        proof {
            assert(all.take(i + 1).drop_last() =~= all.take(i as int));
            assert(all.take(i + 1).last() == crate::text::opt_text(v@[i as int]));
        }
        match &v[i] {
            Some(t) => {
                if !t.as_str().is_empty() && !list_contains(&out, t.as_str()) {
                    out.push(t.clone());
                    proof {
                        assert(texts(out@) =~= was.push(t@));
                    }
                }
            },
            None => {},
        }
        i = i + 1;
    }
    proof {
        assert(all.take(all.len() as int) =~= all);
    }
    out
}

/// The lengths of files taken together, as they are.
pub open spec fn lengths_as_they_are(paths: Seq<Text>, v: Seq<PathFact>) -> nat
    decreases paths.len(),
{
    if paths.len() == 0 {
        0
    } else {
        length_of(v, paths[0]) as nat + lengths_as_they_are(paths.drop_first(), v)
    }
}

proof fn lemma_lengths_last(paths: Seq<Text>, v: Seq<PathFact>)
    requires
        paths.len() > 0,
    ensures
        lengths_as_they_are(paths, v) == lengths_as_they_are(paths.drop_last(), v) + length_of(
            v,
            paths.last(),
        ),
    decreases paths.len(),
{
    if paths.len() == 1 {
        assert(paths.drop_first() =~= Seq::<Text>::empty());
        assert(paths.drop_last() =~= Seq::<Text>::empty());
    } else {
        lemma_lengths_last(paths.drop_first(), v);
        assert(paths.drop_first().drop_last() =~= paths.drop_last().drop_first());
    }
}

/// The bytes of a model are those of all its files together, as far as a number
/// can hold them; a file that is not there counts nothing.
pub proof fn law_bytes_are_all_files(paths: Seq<Text>, v: Seq<PathFact>)
    ensures
        lengths_as_they_are(paths, v) <= u64::MAX ==> bytes_sum(paths, v) == lengths_as_they_are(
            paths,
            v,
        ),
        lengths_as_they_are(paths, v) > u64::MAX ==> bytes_sum(paths, v) == u64::MAX,
        forall|i: int|
            0 <= i < paths.len() && !is_there(v, #[trigger] paths[i]) ==> length_of(v, paths[i])
                == 0,
    decreases paths.len(),
{
    if paths.len() > 0 {
        lemma_lengths_last(paths, v);
        law_bytes_are_all_files(paths.drop_last(), v);
    }
}

/// Of the files of a model those are told that are there, and no others.
pub proof fn law_files_there_are_told(paths: Seq<Text>, v: Seq<PathFact>, p: Text)
    ensures
        there(paths, v).contains(p) <==> paths.contains(p) && is_there(v, p),
    decreases paths.len(),
{
    if paths.len() > 0 {
        let init = paths.drop_last();
        let w = there(init, v);
        let all = there(paths, v);
        law_files_there_are_told(init, v, p);
        if all.contains(p) {
            let k = choose|k: int| 0 <= k < all.len() && all[k] == p;
            if k < w.len() {
                assert(w[k] == p);
                let i = choose|i: int| 0 <= i < init.len() && init[i] == p;
                assert(paths[i] == p);
            } else {
                assert(paths[paths.len() - 1] == p);
            }
        }
        if paths.contains(p) && is_there(v, p) {
            let i = choose|i: int| 0 <= i < paths.len() && paths[i] == p;
            if i < init.len() {
                assert(init[i] == p);
                let k = choose|k: int| 0 <= k < w.len() && w[k] == p;
                assert(all[k] == p);
            } else {
                assert(all[all.len() - 1] == p);
            }
        }
    }
}

/// What is looked at to delete a local model: each of its parts, and the two
/// unfinished files that may stand beside each.
pub proof fn law_partials_go_with_their_file(v: Seq<Text>, t: Text)
    ensures
        with_partials(v).contains(t) <==> exists|i: int|
            0 <= i < v.len() && (t == #[trigger] v[i] || t == v[i] + ".downloadInProgress"@ || t
                == v[i] + ".incomplete"@),
    decreases v.len(),
{
    if v.len() > 0 {
        let init = v.drop_last();
        let x = v.last();
        let w = with_partials(init);
        let all = with_partials(v);
        let own = partials_of(x);
        law_partials_go_with_their_file(init, t);
        if all.contains(t) {
            let k = choose|k: int| 0 <= k < all.len() && all[k] == t;
            if k < w.len() {
                assert(w[k] == t);
                assert(w.contains(t));
                let i = choose|i: int|
                    0 <= i < init.len() && (t == #[trigger] init[i] || t == init[i]
                        + ".downloadInProgress"@ || t == init[i] + ".incomplete"@);
                assert(v[i] == init[i]);
            } else if k == w.len() {
                assert(v[v.len() - 1] == t);
            } else {
                assert(own[k - w.len() - 1] == t);
                assert(v[v.len() - 1] == x);
            }
        }
        if exists|i: int|
            0 <= i < v.len() && (t == #[trigger] v[i] || t == v[i] + ".downloadInProgress"@ || t
                == v[i] + ".incomplete"@) {
            let i = choose|i: int|
                0 <= i < v.len() && (t == #[trigger] v[i] || t == v[i] + ".downloadInProgress"@ || t
                    == v[i] + ".incomplete"@);
            if i < init.len() {
                assert(init[i] == v[i]);
                assert(w.contains(t));
                let k = choose|k: int| 0 <= k < w.len() && w[k] == t;
                assert(all[k] == t);
            } else {
                assert(all[w.len() as int] == x);
                assert(all[w.len() as int + 1] == x + ".downloadInProgress"@);
                assert(all[w.len() as int + 2] == x + ".incomplete"@);
            }
        }
    }
}

/// Whether a model is found, with a size no smaller than this one.
pub open spec fn covers(v: Seq<(Text, u64)>, x: (Text, u64)) -> bool {
    exists|k: int| 0 <= k < v.len() && (#[trigger] v[k]).0 == x.0 && v[k].1 >= x.1
}

proof fn lemma_merged_one(v: Seq<(Text, u64)>, x: (Text, u64))
    requires
        firsts(v).no_duplicates(),
    ensures
        firsts(merged_one(v, x)).no_duplicates(),
        covers(merged_one(v, x), x),
        forall|y: (Text, u64)| #[trigger] covers(v, y) ==> covers(merged_one(v, x), y),
        forall|k: int|
            0 <= k < merged_one(v, x).len() ==> #[trigger] merged_one(v, x)[k] == x || v.contains(
                merged_one(v, x)[k],
            ),
{
    let f = firsts(v);
    let r = merged_one(v, x);
    lemma_index_in(f, x.0);
    let k = index_in(f, x.0);
    if k < v.len() {
        assert(f[k] == v[k].0);
        assert(firsts(r) =~= f);
        assert(r[k].0 == x.0 && r[k].1 >= x.1);
    } else {
        assert(r[v.len() as int] == x);
        let g = firsts(r);
        assert(g =~= f.push(x.0));
        assert forall|i: int, j: int|
            0 <= i < g.len() && 0 <= j < g.len() && i != j implies g[i] != g[j] by {
            if i == v.len() {
                assert(f[j] != x.0);
            } else if j == v.len() {
                assert(f[i] != x.0);
            }
        }
    }
    assert forall|y: (Text, u64)| #[trigger] covers(v, y) implies covers(r, y) by {
        let m = choose|m: int| 0 <= m < v.len() && (#[trigger] v[m]).0 == y.0 && v[m].1 >= y.1;
        assert(r[m].0 == y.0 && r[m].1 >= y.1);
    }
    assert forall|m: int| 0 <= m < r.len() implies #[trigger] r[m] == x || v.contains(r[m]) by {
        if m < v.len() && r[m] == v[m] {
            assert(v.contains(v[m]));
        }
    }
}

/// Whether one of the directories holds the model, with that size.
pub open spec fn is_model_of(d: Seq<HubDir>, x: (Text, u64)) -> bool {
    exists|i: int| 0 <= i < d.len() && #[trigger] hub_model(d[i]) == Some(x)
}

proof fn lemma_merged_apart(d: Seq<HubDir>)
    ensures
        firsts(merged(d)).no_duplicates(),
    decreases d.len(),
{
    if d.len() > 0 {
        lemma_merged_apart(d.drop_last());
        let w = merged(d.drop_last());
        let o = hub_model(d.last());
        if o is Some {
            lemma_merged_one(w, o->0);
        }
    }
}

proof fn lemma_merged_covers(d: Seq<HubDir>, i: int)
    requires
        0 <= i < d.len(),
        hub_model(d[i]) is Some,
    ensures
        covers(merged(d), hub_model(d[i])->0),
    decreases d.len(),
{
    let w = merged(d.drop_last());
    let o = hub_model(d.last());
    let x = hub_model(d[i])->0;
    lemma_merged_apart(d.drop_last());
    if i < d.len() - 1 {
        assert(d.drop_last()[i] == d[i]);
        lemma_merged_covers(d.drop_last(), i);
        assert(covers(w, x));
    }
    if o is Some {
        lemma_merged_one(w, o->0);
    }
}

proof fn lemma_merged_is_of(d: Seq<HubDir>, k: int)
    requires
        0 <= k < merged(d).len(),
    ensures
        is_model_of(d, merged(d)[k]),
    decreases d.len(),
{
    let init = d.drop_last();
    let w = merged(init);
    let o = hub_model(d.last());
    let x = merged(d)[k];
    lemma_merged_apart(init);
    if o is Some {
        lemma_merged_one(w, o->0);
    }
    if o == Some(x) {
        assert(hub_model(d[d.len() - 1]) == Some(x));
    } else {
        assert(w.contains(x)) by {
            if o is None {
                assert(w[k] == x);
            }
        }
        let m = choose|m: int| 0 <= m < w.len() && w[m] == x;
        lemma_merged_is_of(init, m);
        let i = choose|i: int| 0 <= i < init.len() && #[trigger] hub_model(init[i]) == Some(x);
        assert(d[i] == init[i]);
        assert(hub_model(d[i]) == Some(x));
    }
}

/// Each model of the cache is found once, and with the largest size that one of
/// its directories has.
pub proof fn law_cached_models_are_found_once(d: Seq<HubDir>)
    ensures
        firsts(merged(d)).no_duplicates(),
        forall|i: int|
            0 <= i < d.len() && (#[trigger] hub_model(d[i])) is Some ==> covers(
                merged(d),
                hub_model(d[i])->0,
            ),
        forall|k: int| 0 <= k < merged(d).len() ==> is_model_of(d, #[trigger] merged(d)[k]),
{
    lemma_merged_apart(d);
    assert forall|i: int| 0 <= i < d.len() && (#[trigger] hub_model(d[i])) is Some implies covers(
        merged(d),
        hub_model(d[i])->0,
    ) by {
        lemma_merged_covers(d, i);
    }
    assert forall|k: int| 0 <= k < merged(d).len() implies is_model_of(
        d,
        #[trigger] merged(d)[k],
    ) by {
        lemma_merged_is_of(d, k);
    }
}

} // verus!
