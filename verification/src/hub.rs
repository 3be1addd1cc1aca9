//! Repositories on Hugging Face and their file listings.
use vstd::prelude::*;
use vstd::utf8::encode_utf8;

use crate::json::{
    array_at, item_pointer, json_at, pointer_of, read_array, read_json, Json, JsonView,
};
use crate::probe::plus;
use crate::text::{
    contains, decimal, ends_with, find, last_position, lemma_find, lower, number, occurs, opt_text,
    parse, parsed, position, rfind, same, slice, split, split_on, strip_prefix, strip_suffix, texts,
    to_lower, trim, trim_end_char, trim_end_matches, trimmed, without_prefix, without_suffix, Text,
};
use crate::shards::{last_text_position, rfind_text};
use crate::validate::{only_repo_chars, repo_chars};

verus! {

broadcast use vstd::string::group_string_axioms;

/// A file of a repository.
#[derive(Debug)]
pub struct RemoteFile {
    pub path: String,
    /// The object's identifier, which is also the name of the cached file.
    pub oid: String,
    pub size: u64,
}

/// The view of [`RemoteFile`].
pub struct FileModel {
    pub path: Text,
    pub oid: Text,
    pub size: u64,
}

impl View for RemoteFile {
    type V = FileModel;

    open spec fn view(&self) -> FileModel {
        FileModel { path: self.path@, oid: self.oid@, size: self.size }
    }
}

impl Clone for RemoteFile {
    fn clone(&self) -> (r: Self)
        ensures
            r@ == self@,
    {
        RemoteFile { path: self.path.clone(), oid: self.oid.clone(), size: self.size }
    }
}

/// The views of a list of files.
pub open spec fn files(v: Seq<RemoteFile>) -> Seq<FileModel> {
    Seq::new(v.len(), |i: int| v[i]@)
}

/// The owner and name of a repository, or why the text names none. A tag after
/// a colon is not part of it.
pub open spec fn repository(repo: Text) -> Result<(Text, Text), Text> {
    let path = trimmed(split_on(trimmed(repo), ':')[0]);
    match find(path, "/"@) {
        None => Err(repo + " is not an owner/model repository"@),
        Some(i) => {
            let owner = path.take(i);
            let name = path.skip(i + 1);
            if owner.len() == 0 || name.len() == 0 || occurs(name, "/"@) || !repo_chars(owner)
                || !repo_chars(name) {
                Err(repo + " is not a valid owner/model repository"@)
            } else {
                Ok((owner, name))
            }
        },
    }
}

/// The view of an owner and a name.
pub open spec fn parts_text(r: Result<(String, String), String>) -> Result<(Text, Text), Text> {
    match r {
        Ok(p) => Ok((p.0@, p.1@)),
        Err(e) => Err(e@),
    }
}

/// The owner and name of a repository.
pub fn repository_parts(repo: &str) -> (r: Result<(String, String), String>)
    ensures
        parts_text(r) == repository(repo@),
{
    let parts = split(trim(repo).as_str(), ':');
    proof {
        assert(texts(parts@)[0] == parts@[0]@);
    }
    let path = trim(parts[0].as_str());
    proof {
        reveal_strlit("/");
        lemma_find(path@, "/"@);
    }
    match position(path.as_str(), "/") {
        None => {
            let mut e = repo.to_owned();
            e.append(" is not an owner/model repository");
            Err(e)
        },
        Some(i) => {
            let n: usize = path.as_str().unicode_len();
            let owner = slice(path.as_str(), 0, i);
            let name = slice(path.as_str(), i + 1, n);
            proof {
                assert(owner@ =~= path@.take(i as int));
                assert(name@ =~= path@.skip(i + 1));
            }
            if owner.as_str().is_empty() || name.as_str().is_empty() || contains(
                name.as_str(),
                "/",
            ) || !only_repo_chars(owner.as_str()) || !only_repo_chars(name.as_str()) {
                let mut e = repo.to_owned();
                e.append(" is not a valid owner/model repository");
                return Err(e);
            }
            Ok((owner, name))
        },
    }
}

/// Whether a byte stands for itself in a URL.
pub open spec fn url_byte(b: u8) -> bool {
    (48 <= b <= 57) || (65 <= b <= 90) || (97 <= b <= 122) || b == 45 || b == 46 || b == 95 || b
        == 126
}

/// The upper-case hexadecimal digit of a number below sixteen.
pub open spec fn upper_hex(n: nat) -> char {
    if n < 10 {
        (48 + n) as char
    } else {
        (55 + n) as char
    }
}

/// A byte as a URL holds it.
pub open spec fn url_text(b: u8) -> Text {
    if url_byte(b) {
        seq![b as char]
    } else {
        seq!['%', upper_hex((b / 16) as nat), upper_hex((b % 16) as nat)]
    }
}

/// Bytes as a URL holds them.
pub open spec fn url_encoded(b: Seq<u8>) -> Text
    decreases b.len(),
{
    if b.len() == 0 {
        Seq::empty()
    } else {
        url_encoded(b.drop_last()) + url_text(b.last())
    }
}

fn upper_hex_char(n: u8) -> (c: char)
    requires
        n < 16,
    ensures
        c == upper_hex(n as nat),
{
    if n < 10 {
        (48u8 + n) as char
    } else {
        (55u8 + n) as char
    }
}

/// A part of a path as a URL holds it: every byte but letters, digits and
/// `-._~` behind a percent sign.
pub fn encode_segment(segment: &str) -> (out: String)
    ensures
        out@ == url_encoded(encode_utf8(segment@)),
{
    let b = segment.as_bytes();
    let mut out = String::new();
    let mut i: usize = 0;
    proof {
        assert(b@.take(0) =~= Seq::<u8>::empty());
    }
    while i < b.len()
        invariant
            b@ == encode_utf8(segment@),
            i <= b.len(),
            out@ == url_encoded(b@.take(i as int)),
        decreases b.len() - i,
    {
        let x: u8 = b[i];
        let ghost was = out@;
        proof {
            assert(b@.take(i + 1).drop_last() =~= b@.take(i as int));
        }
        if (48 <= x && x <= 57) || (65 <= x && x <= 90) || (97 <= x && x <= 122) || x == 45 || x
            == 46 || x == 95 || x == 126 {
            out.push(x as char);
        } else {
            out.push('%');
            out.push(upper_hex_char(x / 16));
            out.push(upper_hex_char(x % 16));
        }
        proof {
            assert(out@ =~= was + url_text(x));
        }
        i = i + 1;
    }
    proof {
        assert(b@.take(b@.len() as int) =~= b@);
    }
    out
}

/// The URL of a repository's file listing.
pub fn listing_url(owner: &str, name: &str) -> (out: String)
    ensures
        out@ == "https://huggingface.co/api/models/"@ + url_encoded(encode_utf8(owner@)) + "/"@
            + url_encoded(encode_utf8(name@)) + "/tree/main?recursive=true"@,
{
    let mut out = "https://huggingface.co/api/models/".to_owned();
    out.append(encode_segment(owner).as_str());
    out.append("/");
    out.append(encode_segment(name).as_str());
    out.append("/tree/main?recursive=true");
    out
}

/// What a listing says of one entry.
pub struct EntryView {
    pub kind: Text,
    pub path: Text,
    pub oid: Text,
    pub size: u64,
    /// The object's identifier and size where the file is stored apart.
    pub lfs: Option<(Text, u64)>,
}

/// An entry of a listing.
#[derive(Debug)]
pub struct TreeEntry {
    pub kind: String,
    pub path: String,
    pub oid: String,
    pub size: u64,
    pub lfs: Option<(String, u64)>,
}

impl View for TreeEntry {
    type V = EntryView;

    open spec fn view(&self) -> EntryView {
        EntryView {
            kind: self.kind@,
            path: self.path@,
            oid: self.oid@,
            size: self.size,
            lfs: match self.lfs {
                Some(l) => Some((l.0@, l.1)),
                None => None,
            },
        }
    }
}

/// The views of a list of entries.
pub open spec fn entries(v: Seq<TreeEntry>) -> Seq<EntryView> {
    Seq::new(v.len(), |i: int| v[i]@)
}

/// The file that an entry is. A large file is stored apart, and its object's
/// identifier and size count.
pub open spec fn entry_file(e: EntryView) -> FileModel {
    match e.lfs {
        Some(l) if l.0.len() > 0 => FileModel { path: e.path, oid: l.0, size: l.1 },
        _ => FileModel { path: e.path, oid: e.oid, size: e.size },
    }
}

/// The files of a listing: the entries that are files and have an object.
pub open spec fn listed(v: Seq<EntryView>) -> Seq<FileModel>
    decreases v.len(),
{
    if v.len() == 0 {
        Seq::empty()
    } else {
        let init = listed(v.drop_last());
        if v.last().kind == "file"@ && entry_file(v.last()).oid.len() > 0 {
            init.push(entry_file(v.last()))
        } else {
            init
        }
    }
}

/// The files of a listing.
pub fn listed_files(v: &Vec<TreeEntry>) -> (out: Vec<RemoteFile>)
    ensures
        files(out@) == listed(entries(v@)),
{
    let ghost all = entries(v@);
    let mut out: Vec<RemoteFile> = Vec::new();
    let mut i: usize = 0;
    proof {
        assert(all.take(0) =~= Seq::<EntryView>::empty());
        assert(files(out@) =~= listed(all.take(0)));
    }
    while i < v.len()
        invariant
            all == entries(v@),
            i <= v.len(),
            files(out@) == listed(all.take(i as int)),
        decreases v.len() - i,
    {
        let e = &v[i];
        let ghost was = files(out@);
        proof {
            assert(all.take(i + 1).drop_last() =~= all.take(i as int));
            assert(all.take(i + 1).last() == e@);
        }
        if same(e.kind.as_str(), "file") {
            let f = match &e.lfs {
                Some(l) => {
                    if !l.0.as_str().is_empty() {
                        RemoteFile { path: e.path.clone(), oid: l.0.clone(), size: l.1 }
                    } else {
                        RemoteFile { path: e.path.clone(), oid: e.oid.clone(), size: e.size }
                    }
                },
                None => RemoteFile { path: e.path.clone(), oid: e.oid.clone(), size: e.size },
            };
            let ghost fv = f@;
            assert(fv == entry_file(e@));
            if !f.oid.as_str().is_empty() {
                out.push(f);
                proof {
                    assert(files(out@) =~= was.push(fv));
                }
            }
        }
        i = i + 1;
    }
    proof {
        assert(all.take(all.len() as int) =~= all);
    }
    out
}

/// A text field: empty where it is missing, `None` where it is something else.
pub open spec fn text_field(o: Option<JsonView>) -> Option<Text> {
    match o {
        None => Some(Seq::empty()),
        Some(JsonView::Text(s)) => Some(s),
        _ => None,
    }
}

/// A size field: zero where it is missing, `None` where it is something else.
pub open spec fn size_field(o: Option<JsonView>) -> Option<u64> {
    match o {
        None => Some(0),
        Some(JsonView::Number(n)) => n.unsigned,
        _ => None,
    }
}

/// The object that a listing names for entry `i`; `None` where it is malformed.
pub open spec fn lfs_field(body: Text, i: nat) -> Option<Option<(Text, u64)>> {
    match json_at(body, item_pointer(i, "lfs"@)) {
        None => Some(None),
        Some(JsonView::Null) => Some(None),
        Some(JsonView::Object) => match (
            text_field(json_at(body, item_pointer(i, "lfs/oid"@))),
            size_field(json_at(body, item_pointer(i, "lfs/size"@))),
        ) {
            (Some(oid), Some(size)) => Some(Some((oid, size))),
            _ => None,
        },
        _ => None,
    }
}

/// Entry `i` of a listing; `None` where it is malformed.
pub open spec fn entry_at(body: Text, i: nat) -> Option<EntryView> {
    match (
        json_at(body, "/"@ + decimal(i)),
        text_field(json_at(body, item_pointer(i, "type"@))),
        text_field(json_at(body, item_pointer(i, "path"@))),
        text_field(json_at(body, item_pointer(i, "oid"@))),
        size_field(json_at(body, item_pointer(i, "size"@))),
        lfs_field(body, i),
    ) {
        (
            Some(JsonView::Object),
            Some(kind),
            Some(path),
            Some(oid),
            Some(size),
            Some(lfs),
        ) => Some(EntryView { kind, path, oid, size, lfs }),
        _ => None,
    }
}

/// The first `n` entries of a listing; `None` where one is malformed.
pub open spec fn entries_at(body: Text, n: nat) -> Option<Seq<EntryView>>
    decreases n,
{
    if n == 0 {
        Some(Seq::empty())
    } else {
        match (entries_at(body, (n - 1) as nat), entry_at(body, (n - 1) as nat)) {
            (Some(init), Some(e)) => Some(init.push(e)),
            _ => None,
        }
    }
}

/// The files of a repository by its listing; `None` where it is malformed.
pub open spec fn tree_files(body: Text) -> Option<Seq<FileModel>> {
    match array_at(body, ""@) {
        Some(n) => match entries_at(body, n) {
            Some(e) => Some(listed(e)),
            None => None,
        },
        None => None,
    }
}

fn read_text_field(body: &str, pointer: &str) -> (r: Option<String>)
    ensures
        opt_text(r) == text_field(json_at(body@, pointer@)),
{
    match read_json(body, pointer) {
        None => Some(String::new()),
        Some(Json::Text(s)) => Some(s),
        _ => None,
    }
}

fn read_size_field(body: &str, pointer: &str) -> (r: Option<u64>)
    ensures
        r == size_field(json_at(body@, pointer@)),
{
    match read_json(body, pointer) {
        None => Some(0),
        Some(Json::Number(n)) => n.unsigned,
        _ => None,
    }
}

/// The view of an entry that may be malformed.
pub open spec fn opt_entry(o: Option<TreeEntry>) -> Option<EntryView> {
    match o {
        Some(e) => Some(e@),
        None => None,
    }
}

fn read_lfs(body: &str, i: usize) -> (r: Option<Option<(String, u64)>>)
    ensures
        (match r {
            Some(Some(l)) => Some(Some((l.0@, l.1))),
            Some(None) => Some(None),
            None => None,
        }) == lfs_field(body@, i as nat),
{
    match read_json(body, pointer_of(i, "lfs").as_str()) {
        None => Some(None),
        Some(Json::Null) => Some(None),
        Some(Json::Object) => match (
            read_text_field(body, pointer_of(i, "lfs/oid").as_str()),
            read_size_field(body, pointer_of(i, "lfs/size").as_str()),
        ) {
            (Some(oid), Some(size)) => Some(Some((oid, size))),
            _ => None,
        },
        _ => None,
    }
}

fn read_entry(body: &str, i: usize) -> (r: Option<TreeEntry>)
    ensures
        opt_entry(r) == entry_at(body@, i as nat),
{
    let mut at = "/".to_owned();
    at.append(number(i as u64).as_str());
    let object: bool = match read_json(body, at.as_str()) {
        Some(Json::Object) => true,
        _ => false,
    };
    if !object {
        return None;
    }
    let kind = read_text_field(body, pointer_of(i, "type").as_str());
    let path = read_text_field(body, pointer_of(i, "path").as_str());
    let oid = read_text_field(body, pointer_of(i, "oid").as_str());
    let size = read_size_field(body, pointer_of(i, "size").as_str());
    match (kind, path, oid, size, read_lfs(body, i)) {
        (Some(kind), Some(path), Some(oid), Some(size), Some(lfs)) => Some(
            TreeEntry { kind, path, oid, size, lfs },
        ),
        _ => None,
    }
}

proof fn lemma_bad_entry(body: Text, n: nat, i: nat)
    requires
        i < n,
        entry_at(body, i) is None,
    ensures
        entries_at(body, n) is None,
    decreases n,
{
    if i < n - 1 {
        lemma_bad_entry(body, (n - 1) as nat, i);
    }
}

/// Reads a repository's file listing.
pub fn parse_tree(body: &str) -> (r: Result<Vec<RemoteFile>, String>)
    ensures
        match (r, tree_files(body@)) {
            (Ok(v), Some(f)) => files(v@) == f,
            (Err(e), None) => e@ == "Hugging Face returned invalid JSON"@,
            _ => false,
        },
{
    let n: usize = match read_array(body, "") {
        Some(n) => n,
        None => {
            return Err("Hugging Face returned invalid JSON".to_owned());
        },
    };
    let mut all: Vec<TreeEntry> = Vec::new();
    let mut i: usize = 0;
    proof {
        assert(entries(all@) =~= Seq::<EntryView>::empty());
    }
    while i < n
        invariant
            i <= n,
            array_at(body@, ""@) == Some(n as nat),
            entries_at(body@, i as nat) == Some(entries(all@)),
        decreases n - i,
    {
        let ghost was = entries(all@);
        match read_entry(body, i) {
            Some(e) => {
                let ghost ev = e@;
                all.push(e);
                proof {
                    assert(entries(all@) =~= was.push(ev));
                }
            },
            None => {
                proof {
                    lemma_bad_entry(body@, n as nat, i as nat);
                }
                return Err("Hugging Face returned invalid JSON".to_owned());
            },
        }
        i = i + 1;
    }
    Ok(listed_files(&all))
}

/// The files of a listing, or what to say where there are none.
pub fn list_files(repo: &str, body: &str) -> (r: Result<Vec<RemoteFile>, String>)
    ensures
        match repository(repo@) {
            Err(e) => r matches Err(got) && got@ == e,
            Ok(p) => match tree_files(body@) {
                None => r matches Err(got) && got@ == "Hugging Face returned invalid JSON"@,
                Some(f) => if f.len() == 0 {
                    r matches Err(got) && got@ == "Hugging Face returned no files for "@ + p.0
                        + "/"@ + p.1
                } else {
                    r matches Ok(v) && files(v@) == f
                },
            },
        },
{
    let (owner, name) = match repository_parts(repo) {
        Ok(p) => p,
        Err(e) => {
            return Err(e);
        },
    };
    let found = match parse_tree(body) {
        Ok(v) => v,
        Err(e) => {
            return Err(e);
        },
    };
    if found.len() == 0 {
        proof {
            assert(files(found@).len() == 0);
        }
        let mut e = "Hugging Face returned no files for ".to_owned();
        e.append(owner.as_str());
        e.append("/");
        e.append(name.as_str());
        return Err(e);
    }
    proof {
        assert(files(found@).len() > 0);
    }
    Ok(found)
}

/// The name and number of files of the split model that a path belongs to.
pub open spec fn split_family(path: Text) -> Option<(Text, nat)> {
    match without_suffix(path, ".gguf"@) {
        None => None,
        Some(stem) => match rfind_text(stem, "-of-"@, stem.len() as int) {
            None => None,
            Some(i) => {
                let indexed = stem.take(i);
                match rfind(indexed, '-') {
                    None => None,
                    Some(j) => match (
                        parsed(indexed.skip(j + 1), u64::MAX as nat),
                        parsed(stem.skip(i + 4), u64::MAX as nat),
                    ) {
                        (Some(index), Some(total)) if 1 <= index <= total && total > 1 => Some(
                            (indexed.take(j), total),
                        ),
                        _ => None,
                    },
                }
            },
        },
    }
}

/// The view of a split model's name and number of files.
pub open spec fn family_view(o: Option<(String, u64)>) -> Option<(Text, nat)> {
    match o {
        Some(p) => Some((p.0@, p.1 as nat)),
        None => None,
    }
}

/// The name and number of files of the split model that a path belongs to.
pub fn shard_family(path: &str) -> (r: Option<(String, u64)>)
    ensures
        family_view(r) == split_family(path@),
{
    let stem = match strip_suffix(path, ".gguf") {
        Some(s) => s,
        None => {
            return None;
        },
    };
    proof {
        reveal_strlit("-of-");
    }
    let i: usize = match last_text_position(stem.as_str(), "-of-") {
        Some(i) => i,
        None => {
            return None;
        },
    };
    let n: usize = stem.as_str().unicode_len();
    let indexed = slice(stem.as_str(), 0, i);
    let total_text = slice(stem.as_str(), i + 4, n);
    proof {
        assert(indexed@ =~= stem@.take(i as int));
        assert(total_text@ =~= stem@.skip(i + 4));
    }
    let j: usize = match last_position(indexed.as_str(), '-') {
        Some(j) => j,
        None => {
            return None;
        },
    };
    let prefix = slice(indexed.as_str(), 0, j);
    let index_text = slice(indexed.as_str(), j + 1, i);
    proof {
        assert(prefix@ =~= indexed@.take(j as int));
        assert(index_text@ =~= indexed@.skip(j + 1));
    }
    match (parse(index_text.as_str(), u64::MAX), parse(total_text.as_str(), u64::MAX)) {
        (Some(index), Some(total)) => {
            if index >= 1 && index <= total && total > 1 {
                Some((prefix, total))
            } else {
                None
            }
        },
        _ => None,
    }
}

/// Whether a file comes with `path`: all files of one split model do.
pub open spec fn comes_with(file: Text, path: Text) -> bool {
    match split_family(path) {
        Some(f) => split_family(file) == Some(f),
        None => file == path,
    }
}

/// The files that come with `path`, in order.
pub open spec fn family_of(f: Seq<FileModel>, path: Text) -> Seq<FileModel>
    decreases f.len(),
{
    if f.len() == 0 {
        Seq::empty()
    } else {
        let init = family_of(f.drop_last(), path);
        if comes_with(f.last().path, path) {
            init.push(f.last())
        } else {
            init
        }
    }
}

/// The views of files that are lent.
pub open spec fn lent(v: Seq<&RemoteFile>) -> Seq<FileModel> {
    Seq::new(v.len(), |i: int| v[i]@)
}

fn goes_with(file: &str, path: &str, fam: &Option<(String, u64)>) -> (r: bool)
    requires
        family_view(*fam) == split_family(path@),
    ensures
        r == comes_with(file@, path@),
{
    match fam {
        Some(f) => match shard_family(file) {
            Some(g) => same(f.0.as_str(), g.0.as_str()) && f.1 == g.1,
            None => false,
        },
        None => same(file, path),
    }
}

/// Every file that is fetched when `path` is asked for: all files of a split
/// model, else the file itself.
pub fn family<'a>(v: &'a Vec<RemoteFile>, path: &str) -> (out: Vec<&'a RemoteFile>)
    ensures
        lent(out@) == family_of(files(v@), path@),
{
    let fam = shard_family(path);
    let ghost all = files(v@);
    let mut out: Vec<&'a RemoteFile> = Vec::new();
    let mut i: usize = 0;
    proof {
        assert(all.take(0) =~= Seq::<FileModel>::empty());
        assert(lent(out@) =~= family_of(all.take(0), path@));
    }
    while i < v.len()
        invariant
            all == files(v@),
            family_view(fam) == split_family(path@),
            i <= v.len(),
            lent(out@) == family_of(all.take(i as int), path@),
        decreases v.len() - i,
    {
        let ghost was = lent(out@);
        proof {
            assert(all.take(i + 1).drop_last() =~= all.take(i as int));
            assert(all.take(i + 1).last() == v@[i as int]@);
        }
        if goes_with(v[i].path.as_str(), path, &fam) {
            out.push(&v[i]);
            proof {
                assert(lent(out@) =~= was.push(all[i as int]));
            }
        }
        i = i + 1;
    }
    proof {
        assert(all.take(all.len() as int) =~= all);
    }
    out
}

/// The size of files together, at most the greatest number there is.
pub open spec fn size_sum(f: Seq<FileModel>) -> u64
    decreases f.len(),
{
    if f.len() == 0 {
        0
    } else {
        plus(size_sum(f.drop_last()), f.last().size)
    }
}

/// The size of files together.
pub fn total_size(v: &Vec<&RemoteFile>) -> (n: u64)
    ensures
        n == size_sum(lent(v@)),
{
    let ghost all = lent(v@);
    let mut n: u64 = 0;
    let mut i: usize = 0;
    proof {
        assert(all.take(0) =~= Seq::<FileModel>::empty());
    }
    while i < v.len()
        invariant
            all == lent(v@),
            i <= v.len(),
            n == size_sum(all.take(i as int)),
        decreases v.len() - i,
    {
        proof {
            assert(all.take(i + 1).drop_last() =~= all.take(i as int));
            assert(all.take(i + 1).last() == v@[i as int]@);
        }
        n = n.saturating_add(v[i].size);
        i = i + 1;
    }
    proof {
        assert(all.take(all.len() as int) =~= all);
    }
    n
}

/// All files of one split model come with each of them.
pub proof fn law_family_is_shared(f: Seq<FileModel>, a: Text, b: Text)
    requires
        split_family(a) is Some,
        split_family(a) == split_family(b),
    ensures
        family_of(f, a) == family_of(f, b),
    decreases f.len(),
{
    if f.len() > 0 {
        law_family_is_shared(f.drop_last(), a, b);
    }
}

/// Whether a path is that of a model file, capitals aside.
pub open spec fn model_path(path: Text) -> bool {
    ".gguf"@.is_suffix_of(lower(path))
}

/// Whether a path is that of a model file.
pub fn is_model_file(path: &str) -> (r: bool)
    ensures
        r == model_path(path@),
{
    ends_with(to_lower(path).as_str(), ".gguf")
}

/// The text without the part of a URL before a repository's name.
pub open spec fn without_site(s: Text) -> Text {
    match without_prefix(s, "https://huggingface.co/"@) {
        Some(t) => t,
        None => match without_prefix(s, "http://huggingface.co/"@) {
            Some(t) => t,
            None => match without_prefix(s, "hf://"@) {
                Some(t) => t,
                None => s,
            },
        },
    }
}

/// A repository's name out of a name or a URL, with its tag; or why there is
/// none.
pub open spec fn repo_id(raw: Text) -> Result<Text, Text> {
    let id = trim_end_char(without_site(trimmed(raw)), '/');
    match repository(id) {
        Ok(_) => Ok(id),
        Err(e) => Err(e),
    }
}

/// A repository's name out of a name or a URL, with its tag.
pub fn normalize_repo_id(raw: &str) -> (r: Result<String, String>)
    ensures
        crate::listen::res_text(r) == repo_id(raw@),
{
    let t = trim(raw);
    let bare = match strip_prefix(t.as_str(), "https://huggingface.co/") {
        Some(x) => x,
        None => match strip_prefix(t.as_str(), "http://huggingface.co/") {
            Some(x) => x,
            None => match strip_prefix(t.as_str(), "hf://") {
                Some(x) => x,
                None => t,
            },
        },
    };
    let id = trim_end_matches(bare.as_str(), '/');
    match repository_parts(id.as_str()) {
        Ok(_) => Ok(id),
        Err(e) => Err(e),
    }
}

/// Whether a listed file is what an entry of a repository says: the entry is a
/// file, the path is its own, and what is stored elsewhere counts by what is
/// stored there.
pub open spec fn is_entry(f: FileModel, e: EntryView) -> bool {
    &&& e.kind == "file"@
    &&& f.path == e.path
    &&& f.oid.len() > 0
    &&& match e.lfs {
        Some((oid, size)) => if oid.len() > 0 {
            f.oid == oid && f.size == size
        } else {
            f.oid == e.oid && f.size == e.size
        },
        None => f.oid == e.oid && f.size == e.size,
    }
}

/// Every file of a listing is an entry of the repository, and every entry that is
/// a file with an identifier is in the listing.
pub proof fn law_listing_is_the_repository(v: Seq<EntryView>)
    ensures
        forall|j: int|
            0 <= j < listed(v).len() ==> exists|i: int|
                0 <= i < v.len() && is_entry(#[trigger] listed(v)[j], #[trigger] v[i]),
        forall|i: int, f: FileModel|
            0 <= i < v.len() && #[trigger] is_entry(f, v[i]) ==> listed(v).contains(f),
    decreases v.len(),
{
    if v.len() > 0 {
        let init = v.drop_last();
        let w = listed(init);
        let all = listed(v);
        law_listing_is_the_repository(init);
        assert forall|j: int| 0 <= j < all.len() implies exists|i: int|
            0 <= i < v.len() && is_entry(#[trigger] all[j], #[trigger] v[i]) by {
            if j < w.len() {
                assert(all[j] == w[j]);
                let i = choose|i: int| 0 <= i < init.len() && is_entry(w[j], #[trigger] init[i]);
                assert(v[i] == init[i]);
                assert(is_entry(all[j], v[i]));
            } else {
                assert(is_entry(all[j], v[v.len() - 1]));
            }
        }
        assert forall|i: int, f: FileModel|
            0 <= i < v.len() && #[trigger] is_entry(f, v[i]) implies all.contains(f) by {
            if i < init.len() {
                assert(init[i] == v[i]);
                assert(is_entry(f, init[i]));
                assert(w.contains(f));
                let p = choose|p: int| 0 <= p < w.len() && w[p] == f;
                assert(all[p] == f);
            } else {
                assert(f == entry_file(v[i]));
                assert(all[all.len() - 1] == f);
            }
        }
    }
}

/// The bytes of files taken together, as they are.
pub open spec fn bytes_together(f: Seq<FileModel>) -> nat
    decreases f.len(),
{
    if f.len() == 0 {
        0
    } else {
        f[0].size as nat + bytes_together(f.drop_first())
    }
}

proof fn lemma_together_last(f: Seq<FileModel>)
    requires
        f.len() > 0,
    ensures
        bytes_together(f) == bytes_together(f.drop_last()) + f.last().size,
    decreases f.len(),
{
    if f.len() == 1 {
        assert(f.drop_first() =~= Seq::<FileModel>::empty());
        assert(f.drop_last() =~= Seq::<FileModel>::empty());
    } else {
        lemma_together_last(f.drop_first());
        assert(f.drop_first().drop_last() =~= f.drop_last().drop_first());
    }
}

/// The size of a download is that of its files taken together, as far as a number
/// can hold it.
pub proof fn law_size_is_all_files(f: Seq<FileModel>)
    ensures
        bytes_together(f) <= u64::MAX ==> size_sum(f) == bytes_together(f),
        bytes_together(f) > u64::MAX ==> size_sum(f) == u64::MAX,
    decreases f.len(),
{
    if f.len() > 0 {
        lemma_together_last(f);
        law_size_is_all_files(f.drop_last());
    }
}

/// A repository is read by its owner and its name, with or without a tag behind
/// it.
pub proof fn law_repository_is_owner_and_name(owner: Text, name: Text, tag: Text)
    requires
        owner.len() > 0,
        name.len() > 0,
        repo_chars(owner),
        repo_chars(name),
        !owner.contains('/'),
        !name.contains('/'),
        !owner.contains(':'),
        !name.contains(':'),
        tag.len() > 0,
        !crate::text::is_space(tag.last()),
    ensures
        repository(owner + "/"@ + name) == Ok::<(Text, Text), Text>((owner, name)),
        repository(owner + "/"@ + name + ":"@ + tag) == Ok::<(Text, Text), Text>((owner, name)),
{
    reveal_strlit("/");
    reveal_strlit(":");
    let id = owner + "/"@ + name;
    assert(id[0] == owner[0] && id.last() == name.last());
    assert(crate::validate::repo_char(owner[0]));
    assert(crate::validate::repo_char(name[name.len() - 1]));
    assert(trimmed(id) == id);
    assert(!id.contains(':')) by {
        if id.contains(':') {
            let k = choose|k: int| 0 <= k < id.len() && id[k] == ':';
            if k < owner.len() {
                assert(owner.contains(owner[k]));
            } else if k > owner.len() {
                assert(name.contains(name[k - owner.len() - 1]));
            }
        }
    }
    crate::text::lemma_split_one(id, ':');
    let whole = id + ":"@ + tag;
    assert(whole[0] == owner[0] && whole.last() == tag.last());
    assert(trimmed(whole) == whole);
    lemma_first_piece(id, tag, ':');
    assert(whole =~= id + seq![':'] + tag);
    lemma_slash(owner, "/"@);
    lemma_slash(name, "/"@);
    crate::text::lemma_found_behind(owner, "/"@, name);
    assert(id.take(owner.len() as int) =~= owner);
    assert(id.skip(owner.len() as int + 1) =~= name);
}

proof fn lemma_slash(a: Text, p: Text)
    requires
        p.len() == 1,
        !a.contains(p[0]),
    ensures
        !occurs(a, p),
{
    if occurs(a, p) {
        let i = choose|i: int| crate::text::occurs_at(a, p, i);
        assert(a.subrange(i, i + 1)[0] == a[i]);
    }
}

proof fn lemma_first_piece(a: Text, b: Text, c: char)
    requires
        !a.contains(c),
    ensures
        split_on(a + seq![c] + b, c)[0] == a,
    decreases a.len(),
{
    let t = a + seq![c] + b;
    if a.len() > 0 {
        let d = a.drop_first();
        assert(!d.contains(c)) by {
            if d.contains(c) {
                let k = choose|k: int| 0 <= k < d.len() && d[k] == c;
                assert(a[k + 1] == c);
            }
        }
        lemma_first_piece(d, b, c);
        assert(t.drop_first() =~= d + seq![c] + b);
        assert(a[0] != c);
        assert(seq![a[0]] + d =~= a);
        crate::text::lemma_split_some(t.drop_first(), c);
    }
}

/// The characters of a text as bytes, for one that has no others.
pub open spec fn as_bytes(t: Text) -> Seq<u8> {
    Seq::new(t.len(), |i: int| t[i] as u8)
}

/// What is put into an address is read back from it.
pub proof fn law_address_part_round_trip(b: Seq<u8>)
    ensures
        crate::search::decoded_from(as_bytes(url_encoded(b)), 0) == b,
    decreases b.len(),
{
    lemma_encoded_tail(b, Seq::empty());
    assert(as_bytes(url_encoded(b)) + Seq::<u8>::empty() =~= as_bytes(url_encoded(b)));
    assert(b + crate::search::decoded_from(Seq::<u8>::empty(), 0) =~= b);
}

proof fn lemma_encoded_tail(b: Seq<u8>, rest: Seq<u8>)
    ensures
        crate::search::decoded_from(as_bytes(url_encoded(b)) + rest, 0) == b
            + crate::search::decoded_from(rest, 0),
    decreases b.len(),
{
    if b.len() == 0 {
        assert(as_bytes(url_encoded(b)) + rest =~= rest);
        assert(b + crate::search::decoded_from(rest, 0) =~= crate::search::decoded_from(rest, 0));
    } else {
        let x = b.last();
        let init = b.drop_last();
        let mid = as_bytes(url_text(x)) + rest;
        assert(as_bytes(url_encoded(b)) + rest =~= as_bytes(url_encoded(init)) + mid);
        lemma_encoded_tail(init, mid);
        lemma_one_encoded(x, rest);
        let end = crate::search::decoded_from(rest, 0);
        assert(init + (seq![x] + end) =~= b + end);
    }
}

proof fn lemma_one_encoded(x: u8, rest: Seq<u8>)
    ensures
        crate::search::decoded_from(as_bytes(url_text(x)) + rest, 0) == seq![x]
            + crate::search::decoded_from(rest, 0),
{
    let mid = as_bytes(url_text(x)) + rest;
    crate::search::lemma_decoded_later(as_bytes(url_text(x)), rest, 0);
    if url_byte(x) {
        assert(mid[0] == x);
        assert(crate::search::escaped_byte(mid, 0) is None);
    } else {
        assert(mid[0] == 37);
        assert(crate::search::escaped_byte(mid, 0) == Some(x));
    }
}

} // verus!
