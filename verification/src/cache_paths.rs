//! Where the caches of model files are, and which paths belong to a model.
use vstd::prelude::*;

use crate::cache::{flat_prefix, hub_directory, repo_parts, split_repo};
use crate::disk::{cache_roots, opt_texts, roots};
use crate::text::{opt_text, starts_with, texts, Text};
use crate::paths::{below, join_path};

verus! {

broadcast use vstd::string::group_string_axioms;

/// What the environment and the user's directories say of the caches.
#[derive(Debug)]
pub struct CacheEnvironment {
    pub hf_hub_cache: Option<String>,
    pub huggingface_hub_cache: Option<String>,
    pub hf_home: Option<String>,
    pub xdg_cache_home: Option<String>,
    pub llama_cache: Option<String>,
    pub home_dir: Option<String>,
    pub cache_dir: Option<String>,
}

/// A path below a directory that may be missing; an empty name is none.
pub open spec fn below_opt(dir: Option<Text>, name: Text) -> Option<Text> {
    match dir {
        Some(d) => if d.len() == 0 {
            None
        } else {
            Some(below(d, name))
        },
        None => None,
    }
}

fn join_opt(dir: &Option<String>, name: &str) -> (r: Option<String>)
    ensures
        opt_text(r) == below_opt(opt_text(*dir), name@),
{
    match dir {
        Some(d) => {
            if d.as_str().is_empty() {
                None
            } else {
                Some(join_path(d.as_str(), name))
            }
        },
        None => None,
    }
}

/// Where the hub's cache may be, the places that count most first.
pub open spec fn hub_candidates(e: CacheEnvironment) -> Seq<Option<Text>> {
    seq![
        opt_text(e.hf_hub_cache),
        opt_text(e.huggingface_hub_cache),
        below_opt(opt_text(e.hf_home), "hub"@),
        below_opt(below_opt(opt_text(e.xdg_cache_home), "huggingface"@), "hub"@),
        below_opt(
            below_opt(below_opt(opt_text(e.home_dir), ".cache"@), "huggingface"@),
            "hub"@,
        ),
    ]
}

/// Where the server's own cache may be.
pub open spec fn flat_candidates(e: CacheEnvironment) -> Seq<Option<Text>> {
    seq![
        opt_text(e.llama_cache),
        below_opt(opt_text(e.cache_dir), "llama.cpp"@),
        below_opt(opt_text(e.cache_dir), "llama-cpp"@),
    ]
}

impl CacheEnvironment {
    /// Where the hub's cache may be.
    pub fn hub_roots(&self) -> (out: Vec<String>)
        ensures
            texts(out@) == roots(hub_candidates(*self)),
    {
        let v = vec![
            crate::config::copy_opt(&self.hf_hub_cache),
            crate::config::copy_opt(&self.huggingface_hub_cache),
            join_opt(&self.hf_home, "hub"),
            join_opt(&join_opt(&self.xdg_cache_home, "huggingface"), "hub"),
            join_opt(&join_opt(&join_opt(&self.home_dir, ".cache"), "huggingface"), "hub"),
        ];
        proof {
            assert(opt_texts(v@) =~= hub_candidates(*self));
        }
        cache_roots(&v)
    }

    /// Where the server's own cache may be.
    pub fn flat_roots(&self) -> (out: Vec<String>)
        ensures
            texts(out@) == roots(flat_candidates(*self)),
    {
        let v = vec![
            crate::config::copy_opt(&self.llama_cache),
            join_opt(&self.cache_dir, "llama.cpp"),
            join_opt(&self.cache_dir, "llama-cpp"),
        ];
        proof {
            assert(opt_texts(v@) =~= flat_candidates(*self));
        }
        cache_roots(&v)
    }

    /// Where new downloads go.
    pub fn default_hub_root(&self) -> (out: String)
        ensures
            out@ == (if roots(hub_candidates(*self)).len() > 0 {
                roots(hub_candidates(*self))[0]
            } else {
                below(below(".cache"@, "huggingface"@), "hub"@)
            }),
    {
        let all = self.hub_roots();
        proof {
            assert(texts(all@).len() == all.len());
        }
        if all.len() > 0 {
            proof {
                assert(texts(all@)[0] == all@[0]@);
            }
            all[0].clone()
        } else {
            join_path(join_path(".cache", "huggingface").as_str(), "hub")
        }
    }
}

/// The directories of the hub's cache that are a repository's: its files and
/// its locks.
pub fn hub_cache_dirs(root: &str, repo: &str) -> (r: Option<(String, String)>)
    ensures
        crate::cache::pair_view(r) == (match repo_parts(repo@) {
            Some(p) => {
                let dir = "models--"@ + p.0 + "--"@ + p.1;
                Some((below(root@, dir), below(below(root@, ".locks"@), dir)))
            },
            None => None,
        }),
{
    match split_repo(repo) {
        Some((owner, name)) => {
            let dir = hub_directory(owner.as_str(), name.as_str());
            let model = join_path(root, dir.as_str());
            let locks = join_path(join_path(root, ".locks").as_str(), dir.as_str());
            Some((model, locks))
        },
        None => None,
    }
}

/// A directory of the hub's cache, and what of a repository is there.
#[derive(Debug)]
pub struct HubRoot {
    pub path: String,
    pub model_there: bool,
    pub locks_there: bool,
}

/// A directory of the server's own cache, and the names in it.
#[derive(Debug)]
pub struct FlatRoot {
    pub path: String,
    pub names: Vec<String>,
}

/// What is there of a repository in the hub's caches.
pub open spec fn hub_paths(v: Seq<HubRoot>, dir: Text) -> Seq<Text>
    decreases v.len(),
{
    if v.len() == 0 {
        Seq::empty()
    } else {
        let before = hub_paths(v.drop_last(), dir);
        let r = v.last();
        before + (if r.model_there {
            seq![below(r.path@, dir)]
        } else {
            Seq::empty()
        }) + (if r.locks_there {
            seq![below(below(r.path@, ".locks"@), dir)]
        } else {
            Seq::empty()
        })
    }
}

/// The names that begin with a prefix, below a directory.
pub open spec fn prefixed(root: Text, names: Seq<Text>, prefix: Text) -> Seq<Text>
    decreases names.len(),
{
    if names.len() == 0 {
        Seq::empty()
    } else {
        let before = prefixed(root, names.drop_last(), prefix);
        if prefix.is_prefix_of(names.last()) {
            before.push(below(root, names.last()))
        } else {
            before
        }
    }
}

/// What is there of a repository in the server's own caches.
pub open spec fn flat_paths(v: Seq<FlatRoot>, prefix: Text) -> Seq<Text>
    decreases v.len(),
{
    if v.len() == 0 {
        Seq::empty()
    } else {
        flat_paths(v.drop_last(), prefix) + prefixed(
            v.last().path@,
            texts(v.last().names@),
            prefix,
        )
    }
}

/// Everything that the caches hold of a repository.
pub open spec fn cached_paths(repo: Text, hubs: Seq<HubRoot>, flats: Seq<FlatRoot>) -> Seq<Text> {
    match repo_parts(repo) {
        Some(p) => hub_paths(hubs, "models--"@ + p.0 + "--"@ + p.1) + flat_paths(
            flats,
            p.0 + "_"@ + p.1 + "_"@,
        ),
        None => Seq::empty(),
    }
}

fn push_prefixed(out: &mut Vec<String>, root: &FlatRoot, prefix: &str)
    ensures
        texts(final(out)@) == texts(old(out)@) + prefixed(root.path@, texts(root.names@), prefix@),
{
    let ghost all = texts(root.names@);
    let ghost start = texts(out@);
    let mut i: usize = 0;
    proof {
        assert(start =~= start + prefixed(root.path@, all.take(0), prefix@));
    }
    while i < root.names.len()
        invariant
            i <= root.names.len(),
            all == texts(root.names@),
            texts(out@) == start + prefixed(root.path@, all.take(i as int), prefix@),
        decreases root.names.len() - i,
    {
        let ghost was = texts(out@);
        proof {
            assert(all.take(i + 1).drop_last() =~= all.take(i as int));
            assert(all.take(i + 1).last() == root.names@[i as int]@);
        }
        if starts_with(root.names[i].as_str(), prefix) {
            let p = join_path(root.path.as_str(), root.names[i].as_str());
            out.push(p);
            proof {
                assert(texts(out@) =~= was.push(p@));
                assert(texts(out@) =~= start + prefixed(root.path@, all.take(i + 1), prefix@));
            }
        }
        i = i + 1;
    }
    proof {
        assert(all.take(root.names.len() as int) =~= all);
    }
}

fn push_hub(out: &mut Vec<String>, hubs: &Vec<HubRoot>, dir: &str)
    ensures
        texts(final(out)@) == texts(old(out)@) + hub_paths(hubs@, dir@),
{
    let ghost start = texts(out@);
    let mut i: usize = 0;
    proof {
        assert(start =~= start + hub_paths(hubs@.take(0), dir@));
    }
    while i < hubs.len()
        invariant
            i <= hubs.len(),
            texts(out@) == start + hub_paths(hubs@.take(i as int), dir@),
        decreases hubs.len() - i,
    {
        let ghost was = texts(out@);
        let r = &hubs[i];
        proof {
            assert(hubs@.take(i + 1).drop_last() =~= hubs@.take(i as int));
            assert(hubs@.take(i + 1).last() == hubs@[i as int]);
        }
        if r.model_there {
            let p = join_path(r.path.as_str(), dir);
            out.push(p);
            proof {
                assert(texts(out@) =~= was + seq![p@]);
            }
        } else {
            proof {
                assert(texts(out@) =~= was + Seq::<Text>::empty());
            }
        }
        let ghost mid = texts(out@);
        if r.locks_there {
            let p = join_path(join_path(r.path.as_str(), ".locks").as_str(), dir);
            out.push(p);
            proof {
                assert(texts(out@) =~= mid + seq![p@]);
            }
        } else {
            proof {
                assert(texts(out@) =~= mid + Seq::<Text>::empty());
            }
        }
        proof {
            assert(texts(out@) =~= start + hub_paths(hubs@.take(i + 1), dir@));
        }
        i = i + 1;
    }
    proof {
        assert(hubs@.take(hubs.len() as int) =~= hubs@);
    }
}

/// Everything that the caches hold of a repository.
pub fn huggingface_cache_paths_in(repo: &str, hubs: &Vec<HubRoot>, flats: &Vec<FlatRoot>) -> (out:
    Vec<String>)
    ensures
        texts(out@) == cached_paths(repo@, hubs@, flats@),
{
    let mut out: Vec<String> = Vec::new();
    let (owner, name) = match split_repo(repo) {
        Some(p) => p,
        None => {
            proof {
                assert(texts(out@) =~= Seq::<Text>::empty());
            }
            return out;
        },
    };
    let dir = hub_directory(owner.as_str(), name.as_str());
    let prefix = flat_prefix(owner.as_str(), name.as_str());
    push_hub(&mut out, hubs, dir.as_str());
    let ghost start = texts(out@);
    proof {
        assert(start =~= hub_paths(hubs@, dir@));
        assert(start =~= start + flat_paths(flats@.take(0), prefix@));
    }
    let mut i: usize = 0;
    while i < flats.len()
        invariant
            i <= flats.len(),
            texts(out@) == start + flat_paths(flats@.take(i as int), prefix@),
        decreases flats.len() - i,
    {
        proof {
            assert(flats@.take(i + 1).drop_last() =~= flats@.take(i as int));
            assert(flats@.take(i + 1).last() == flats@[i as int]);
        }
        push_prefixed(&mut out, &flats[i], prefix.as_str());
        proof {
            assert(texts(out@) =~= start + flat_paths(flats@.take(i + 1), prefix@));
        }
        i = i + 1;
    }
    proof {
        assert(flats@.take(flats.len() as int) =~= flats@);
    }
    out
}

/// The unfinished files that may stand beside a file.
pub open spec fn partials_of(path: Text) -> Seq<Text> {
    seq![path + ".downloadInProgress"@, path + ".incomplete"@]
}

/// The unfinished files that may stand beside a file.
pub fn partial_paths(path: &str) -> (out: Vec<String>)
    ensures
        texts(out@) == partials_of(path@),
{
    let mut a = path.to_owned();
    a.append(".downloadInProgress");
    let mut b = path.to_owned();
    b.append(".incomplete");
    let out = vec![a, b];
    proof {
        assert(texts(out@) =~= seq![path@ + ".downloadInProgress"@, path@ + ".incomplete"@]);
    }
    out
}

/// What is told where a path cannot be removed.
pub fn removal_failure(path: &str, error: &str) -> (out: String)
    ensures
        out@ == "could not delete "@ + path@ + ": "@ + error@,
{
    let mut out = "could not delete ".to_owned();
    out.append(path);
    out.append(": ");
    out.append(error);
    out
}

proof fn lemma_hub_paths(v: Seq<HubRoot>, dir: Text, i: int)
    requires
        0 <= i < v.len(),
    ensures
        v[i].model_there ==> hub_paths(v, dir).contains(below(v[i].path@, dir)),
        v[i].locks_there ==> hub_paths(v, dir).contains(below(below(v[i].path@, ".locks"@), dir)),
    decreases v.len(),
{
    let init = v.drop_last();
    let before = hub_paths(init, dir);
    let r = v.last();
    let a = if r.model_there {
        seq![below(r.path@, dir)]
    } else {
        Seq::empty()
    };
    let b = if r.locks_there {
        seq![below(below(r.path@, ".locks"@), dir)]
    } else {
        Seq::empty()
    };
    let x = below(v[i].path@, dir);
    let y = below(below(v[i].path@, ".locks"@), dir);
    crate::order::lemma_holds_both(before, a, x);
    crate::order::lemma_holds_both(before + a, b, x);
    crate::order::lemma_holds_both(before, a, y);
    crate::order::lemma_holds_both(before + a, b, y);
    if i < init.len() {
        assert(init[i] == v[i]);
        lemma_hub_paths(init, dir, i);
    } else {
        if r.model_there {
            assert(a[0] == x);
        }
        if r.locks_there {
            assert(b[0] == y);
        }
    }
}

proof fn lemma_prefixed(root: Text, names: Seq<Text>, prefix: Text, x: Text)
    ensures
        prefixed(root, names, prefix).contains(x) <==> exists|j: int|
            0 <= j < names.len() && prefix.is_prefix_of(#[trigger] names[j]) && x == below(
                root,
                names[j],
            ),
    decreases names.len(),
{
    if names.len() > 0 {
        let init = names.drop_last();
        lemma_prefixed(root, init, prefix, x);
        crate::order::lemma_holds_pushed(
            prefixed(root, init, prefix),
            below(root, names.last()),
            x,
        );
        assert(names[names.len() - 1] == names.last());
        if prefixed(root, init, prefix).contains(x) {
            let j = choose|j: int|
                0 <= j < init.len() && prefix.is_prefix_of(#[trigger] init[j]) && x == below(
                    root,
                    init[j],
                );
            assert(names[j] == init[j]);
        }
        if exists|j: int|
            0 <= j < names.len() && prefix.is_prefix_of(#[trigger] names[j]) && x == below(
                root,
                names[j],
            ) {
            let j = choose|j: int|
                0 <= j < names.len() && prefix.is_prefix_of(#[trigger] names[j]) && x == below(
                    root,
                    names[j],
                );
            if j < init.len() {
                assert(init[j] == names[j]);
            }
        }
    }
}

/// The files of a flat cache that go with a model are those whose names begin
/// with its owner and name, and no others.
pub proof fn law_flat_files_go_by_their_name(root: Text, names: Seq<Text>, prefix: Text, x: Text)
    ensures
        prefixed(root, names, prefix).contains(x) <==> exists|j: int|
            0 <= j < names.len() && prefix.is_prefix_of(#[trigger] names[j]) && x == below(
                root,
                names[j],
            ),
{
    lemma_prefixed(root, names, prefix, x);
}

/// The directory of a model in each cache of the hub goes with it, and so do its
/// locks.
pub proof fn law_hub_directories_go_with_the_model(
    repo: Text,
    owner: Text,
    name: Text,
    hubs: Seq<HubRoot>,
    flats: Seq<FlatRoot>,
    i: int,
)
    requires
        repo_parts(repo) == Some((owner, name)),
        0 <= i < hubs.len(),
    ensures
        hubs[i].model_there ==> cached_paths(repo, hubs, flats).contains(
            below(hubs[i].path@, "models--"@ + owner + "--"@ + name),
        ),
        hubs[i].locks_there ==> cached_paths(repo, hubs, flats).contains(
            below(below(hubs[i].path@, ".locks"@), "models--"@ + owner + "--"@ + name),
        ),
{
    let dir = "models--"@ + owner + "--"@ + name;
    let a = hub_paths(hubs, dir);
    let b = flat_paths(flats, owner + "_"@ + name + "_"@);
    lemma_hub_paths(hubs, dir, i);
    crate::order::lemma_holds_both(a, b, below(hubs[i].path@, dir));
    crate::order::lemma_holds_both(a, b, below(below(hubs[i].path@, ".locks"@), dir));
}

} // verus!
