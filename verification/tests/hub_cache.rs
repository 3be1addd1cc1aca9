use tinyinference::cache::{
    flat_prefix, hub_directory, hub_model_gguf_bytes, is_model_load_line, largest_gguf_bytes,
    parse_hub_dir, prefixed_file_bytes, read_blobs, scan, split_repo, CacheScan, CachedBlob,
    FileEntry,
};
use tinyinference::cache_paths::{
    huggingface_cache_paths_in, CacheEnvironment, FlatRoot, HubRoot,
};
use tinyinference::config::ModelSource;
use tinyinference::disk::{
    delete_local_files, discover_models, has_local_files, local_bytes, local_files, DiskFacts,
    FlatFile, HubDir, PathFact,
};
use tinyinference::fetch::{
    primary_gguf_bytes, primary_gguf_files, revision_sha, BlobAction, BlobDownload, FetchEvent,
    FetchPlan, FetchStep, ReadEvent,
};
use tinyinference::hub::{
    encode_segment, family, list_files, normalize_repo_id, parse_tree, total_size, RemoteFile,
};

const TREE: &str = r#"[
    {"type":"file","oid":"aaa","size":1803,"path":".gitattributes"},
    {"type":"file","oid":"ptr","size":134,"lfs":{"oid":"da2572","size":428970080},"path":"Qwen3-0.6B-Q4_0.gguf"},
    {"type":"directory","oid":"ccc","size":0,"path":"nested"},
    {"type":"file","oid":"ptr2","size":135,"lfs":{"oid":"beef01","size":10},"path":"m-00001-of-00002.gguf"},
    {"type":"file","oid":"ptr3","size":135,"lfs":{"oid":"beef02","size":20},"path":"m-00002-of-00002.gguf"}
]"#;

fn entry(name: &str, bytes: u64) -> FileEntry {
    FileEntry { name: name.to_string(), bytes }
}

fn pair(owner: &str, name: &str) -> Option<(String, String)> {
    Some((owner.to_string(), name.to_string()))
}

#[test]
fn repository_tags_are_not_part_of_the_cache_path() {
    assert_eq!(
        split_repo("ggml-org/gpt-oss-120b-GGUF:Q4_K_M"),
        pair("ggml-org", "gpt-oss-120b-GGUF")
    );
    assert_eq!(split_repo("no-slash"), None);
    assert_eq!(split_repo("owner/"), None);
}

#[test]
fn only_blobs_of_the_wanted_files_are_counted() {
    let scan = CacheScan {
        blobs: vec![
            CachedBlob { oid: "wanted".into(), bytes: 300, in_flight: true },
            CachedBlob { oid: "other-quant".into(), bytes: 900, in_flight: false },
        ],
        flat_bytes: 7,
    };
    assert_eq!(scan.bytes_of(&vec!["wanted".to_string()]), 300);
    assert_eq!(scan.bytes_of(&vec!["wanted".to_string(), "other-quant".to_string()]), 1200);
    assert_eq!(scan.total_bytes(), 1207);
    assert_eq!(scan.in_flight().len(), 1);
}

#[test]
fn a_file_being_fetched_is_reported_under_its_object_id() {
    let mut blobs = read_blobs(&vec![entry("da2572.downloadInProgress", 512), entry("beef01", 128)]);
    blobs.sort_by(|left, right| left.oid.cmp(&right.oid));
    assert_eq!(blobs.len(), 2);
    assert_eq!(blobs[0].oid, "beef01");
    assert_eq!(blobs[0].bytes, 128);
    assert!(!blobs[0].in_flight);
    assert_eq!(blobs[1].oid, "da2572");
    assert_eq!(blobs[1].bytes, 512);
    assert!(blobs[1].in_flight);
}

#[test]
fn flat_cache_files_are_matched_by_repository_prefix() {
    let files = vec![
        entry("owner_model_weights.gguf", 100),
        entry("owner_model_weights.gguf.downloadInProgress", 20),
        entry("other_model_weights.gguf", 999),
    ];
    assert_eq!(prefixed_file_bytes(&files, "owner_model_"), 120);
    assert_eq!(flat_prefix("owner", "model"), "owner_model_");
    assert_eq!(hub_directory("owner", "model"), "models--owner--model");
}

#[test]
fn missing_caches_report_nothing() {
    let none: Vec<FileEntry> = Vec::new();
    assert!(read_blobs(&none).is_empty());
    let found = scan("not-a-repository", &none, &none);
    assert!(found.blobs.is_empty());
    assert_eq!(found.flat_bytes, 0);
}

#[test]
fn the_end_of_a_download_is_recognised_in_the_log() {
    assert!(is_model_load_line("llama_model_loader: loaded meta data"));
    assert!(is_model_load_line("srv    load_model: initializing, n_slots = 4"));
    assert!(is_model_load_line("main: llama_server: model loaded"));
    assert!(!is_model_load_line("srv  llama_server: listening on http://x"));
}

#[test]
fn hub_directory_names_decode_to_owner_and_repo() {
    assert_eq!(
        parse_hub_dir("models--ggml-org--gpt-oss-120b-GGUF"),
        pair("ggml-org", "gpt-oss-120b-GGUF")
    );
    assert_eq!(parse_hub_dir("models--only-owner"), None);
    assert_eq!(parse_hub_dir("datasets--owner--name"), None);
}

#[test]
fn normalize_accepts_urls_and_ids() {
    assert_eq!(
        normalize_repo_id("https://huggingface.co/ggml-org/gpt-oss-120b-GGUF").unwrap(),
        "ggml-org/gpt-oss-120b-GGUF"
    );
    assert_eq!(normalize_repo_id("hf://owner/model:Q4_K_M").unwrap(), "owner/model:Q4_K_M");
}

#[test]
fn lfs_files_report_the_blob_id_and_real_size() {
    let files = parse_tree(TREE).unwrap();
    assert_eq!(files.len(), 4);
    let gguf = files.iter().find(|file| file.path == "Qwen3-0.6B-Q4_0.gguf").unwrap();
    assert_eq!(gguf.oid, "da2572");
    assert_eq!(gguf.size, 428_970_080);
    let plain = files.iter().find(|file| file.path == ".gitattributes").unwrap();
    assert_eq!(plain.oid, "aaa");
    assert_eq!(plain.size, 1803);
}

#[test]
fn a_split_model_counts_every_shard() {
    let files: Vec<RemoteFile> = parse_tree(TREE).unwrap();
    let sizes = |path: &str| total_size(&family(&files, path));
    assert_eq!(sizes("m-00001-of-00002.gguf"), 30);
    assert_eq!(sizes("m-00002-of-00002.gguf"), 30);
    assert_eq!(sizes("Qwen3-0.6B-Q4_0.gguf"), 428_970_080);
    assert_eq!(sizes("absent.gguf"), 0);
}

#[test]
fn malformed_listings_do_not_panic() {
    assert!(parse_tree("not json").is_err());
    assert!(parse_tree("[]").unwrap().is_empty());
    assert!(parse_tree(r#"[{"type":"file","path":"x"}]"#).unwrap().is_empty());
}

#[test]
fn repository_names_are_validated_before_a_request() {
    assert!(list_files("", "[]").is_err());
    assert!(list_files("no-slash", "[]").is_err());
    assert!(list_files("owner/model/extra", "[]").is_err());
    assert!(list_files("owner/model", "[]").is_err());
    assert_eq!(list_files("owner/model", TREE).unwrap().len(), 4);
}

#[test]
fn snapshot_gguf_files_mark_a_hub_model_as_present() {
    let snapshot = vec![entry("weights.gguf", 2048), entry("readme.md", 4)];
    let main = Some(largest_gguf_bytes(&snapshot));
    assert_eq!(
        hub_model_gguf_bytes(main, &vec![2048], "tiny-GGUF", &Vec::new()),
        Some(2048)
    );
}

#[test]
fn non_gguf_hub_repos_are_ignored_without_gguf_snapshots() {
    let snapshot = vec![entry("model.safetensors", 512)];
    let blobs = read_blobs(&vec![entry("oid1", 512)]);
    assert_eq!(
        hub_model_gguf_bytes(None, &vec![largest_gguf_bytes(&snapshot)], "embeddings", &blobs),
        None
    );
}

#[test]
fn finished_blobs_count_for_gguf_named_repos_without_snapshots() {
    let blobs = read_blobs(&vec![entry("oid1", 4096), entry("oid2.downloadInProgress", 100)]);
    assert_eq!(hub_model_gguf_bytes(None, &Vec::new(), "weights-GGUF", &blobs), Some(4096));
}

fn hub_roots() -> Vec<HubRoot> {
    vec![HubRoot { path: "/hub".into(), model_there: true, locks_there: true }]
}

fn hub_paths(flats: Vec<FlatRoot>) -> Vec<String> {
    huggingface_cache_paths_in("owner/tiny-GGUF", &hub_roots(), &flats)
}

#[test]
fn hub_cache_paths_include_model_and_lock_directories() {
    let paths = hub_paths(vec![FlatRoot {
        path: "/flat".into(),
        names: vec!["owner_tiny-GGUF_weights.gguf".into(), "other.gguf".into()],
    }]);
    assert!(paths.contains(&"/hub/models--owner--tiny-GGUF".to_string()));
    assert!(paths.contains(&"/hub/.locks/models--owner--tiny-GGUF".to_string()));
    assert!(paths.contains(&"/flat/owner_tiny-GGUF_weights.gguf".to_string()));
    assert_eq!(paths.len(), 3);
}

#[test]
fn deleting_hub_paths_removes_model_cache_directories() {
    let source = ModelSource::HuggingFace("owner/tiny-GGUF".into());
    let bytes = |path: &str| if path.contains(".locks") { 0 } else { 128 };
    let facts = DiskFacts {
        hubs: hub_roots(),
        flats: Vec::new(),
        files: hub_paths(Vec::new())
            .into_iter()
            .map(|path| PathFact { bytes: bytes(&path), path, exists: true })
            .collect(),
    };
    let report = delete_local_files(&source, &facts).unwrap();
    assert!(report.removed_paths.contains(&"/hub/models--owner--tiny-GGUF".to_string()));
    assert!(report.removed_paths.contains(&"/hub/.locks/models--owner--tiny-GGUF".to_string()));
    assert!(report.freed_bytes >= 128);
    assert_eq!(report.freed_bytes, local_bytes(&source, &facts));
    let other = ModelSource::HuggingFace("no-owner".into());
    assert_eq!(
        delete_local_files(&other, &facts).unwrap_err(),
        "Not a valid Hugging Face repository id."
    );
    let gone = DiskFacts { hubs: hub_roots(), flats: Vec::new(), files: Vec::new() };
    assert_eq!(
        delete_local_files(&source, &gone).unwrap_err(),
        "No local cache found for this model."
    );
}

/// A disk with these regular files.
fn disk(files: &[(&str, u64)]) -> DiskFacts {
    DiskFacts {
        hubs: Vec::new(),
        flats: Vec::new(),
        files: files
            .iter()
            .map(|(path, bytes)| PathFact { path: path.to_string(), exists: true, bytes: *bytes })
            .collect(),
    }
}

#[test]
fn deleting_a_local_gguf_removes_the_file() {
    let source = ModelSource::Local("/models/weights.gguf".into());
    let before = disk(&[("/models/weights.gguf", 64), ("/models/other.gguf", 7)]);
    assert!(has_local_files(&source, &before));
    assert_eq!(local_bytes(&source, &before), 64);
    let report = delete_local_files(&source, &before).unwrap();
    assert_eq!(report.removed_paths, ["/models/weights.gguf"]);
    assert_eq!(report.freed_bytes, 64);
    let after = disk(&[("/models/other.gguf", 7)]);
    assert!(!has_local_files(&source, &after));
    assert_eq!(
        delete_local_files(&source, &after).unwrap_err(),
        "No local model file found to delete."
    );
}

#[test]
fn the_parts_of_a_split_model_go_together() {
    let source = ModelSource::Local("/models/m-00002-of-00003.gguf".into());
    assert_eq!(local_files(&source).len(), 9);
    let found = disk(&[
        ("/models/m-00003-of-00003.gguf", 30),
        ("/models/m-00001-of-00003.gguf", 10),
        ("/models/m-00002-of-00003.gguf.incomplete", 5),
        ("/models/n-00001-of-00003.gguf", 99),
    ]);
    assert!(!has_local_files(&source, &found));
    assert_eq!(local_bytes(&source, &found), 40);
    let report = delete_local_files(&source, &found).unwrap();
    assert_eq!(
        report.removed_paths,
        [
            "/models/m-00001-of-00003.gguf",
            "/models/m-00002-of-00003.gguf.incomplete",
            "/models/m-00003-of-00003.gguf",
        ]
    );
    assert_eq!(report.freed_bytes, 45);
    let huge = disk(&[("/a-1-of-2.gguf", u64::MAX), ("/a-2-of-2.gguf", 3)]);
    assert_eq!(local_bytes(&ModelSource::Local("/a-1-of-2.gguf".into()), &huge), u64::MAX);
}

#[test]
fn caches_are_looked_for_where_the_environment_says() {
    let environment = CacheEnvironment {
        hf_hub_cache: Some("/a".into()),
        huggingface_hub_cache: None,
        hf_home: Some("/b".into()),
        xdg_cache_home: None,
        llama_cache: Some("/l".into()),
        home_dir: Some("/home/me".into()),
        cache_dir: None,
    };
    let roots = environment.hub_roots();
    assert_eq!(roots[0], "/a");
    assert!(roots.contains(&"/b/hub".to_string()));
    assert!(environment.flat_roots().contains(&"/l".to_string()));
    assert_eq!(environment.default_hub_root(), "/a");
}

#[test]
fn segments_are_encoded_for_the_hub() {
    assert_eq!(encode_segment("a b/c"), "a%20b%2Fc");
    assert_eq!(encode_segment("é"), "%C3%A9");
}

fn gguf(path: &str, oid: &str, size: u64) -> RemoteFile {
    RemoteFile { path: path.into(), oid: oid.into(), size }
}

#[test]
fn a_fetch_goes_through_every_file() {
    let files = vec![gguf("m-00001-of-00002.gguf", "a", 10), gguf("m-00002-of-00002.gguf", "b", 20)];
    let (mut plan, started) = FetchPlan::start("owner/m", files).unwrap();
    assert!(matches!(started, FetchEvent::Started { total: 30, .. }));
    assert!(matches!(plan.step(false, Some(10)), FetchStep::Present(_)));
    assert!(matches!(plan.step(false, None), FetchStep::Download));
    let mut blob = BlobDownload::begin(plan.downloaded, plan.total);
    let file = plan.files[plan.next].clone();
    assert!(matches!(blob.step(&file, ReadEvent::Chunk(20)), BlobAction::Wrote(_)));
    assert!(matches!(blob.step(&file, ReadEvent::End), BlobAction::Finish(_)));
    plan.downloaded_file(blob.downloaded);
    assert!(matches!(plan.step(false, None), FetchStep::Done(30)));
    assert!(FetchPlan::start("owner/m", Vec::new()).is_err());
}

#[test]
fn a_cancelled_fetch_stops() {
    let (mut plan, _) = FetchPlan::start("owner/m", vec![gguf("m.gguf", "a", 10)]).unwrap();
    assert!(matches!(plan.step(true, None), FetchStep::Cancelled(_)));
    let mut blob = BlobDownload::begin(0, 10);
    assert!(matches!(blob.step(&gguf("m.gguf", "a", 10), ReadEvent::Cancelled), BlobAction::Abort(_)));
}

#[test]
fn the_wanted_quantisation_is_fetched() {
    let files = vec![gguf("m-Q4_K_M.gguf", "a", 10), gguf("m-Q8_0.gguf", "b", 20)];
    let chosen = primary_gguf_files(&files, "owner/m:Q8_0");
    assert_eq!(chosen.len(), 1);
    assert_eq!(chosen[0].oid, "b");
    assert_eq!(primary_gguf_bytes(&files, "owner/m:Q8_0"), Some(20));
    assert_eq!(revision_sha(r#"{"sha":"abc"}"#).as_deref(), Some("abc"));
    assert_eq!(revision_sha("{}"), None);
}

#[test]
fn found_models_are_listed_with_their_sizes() {
    let hub = HubDir {
        name: "models--owner--tiny-GGUF".into(),
        main: Some(2048),
        snapshots: vec![2048],
        blobs: Vec::new(),
    };
    let flat = FlatFile { path: "/l/x.gguf".into(), name: "x.gguf".into(), bytes: 5 };
    let found = discover_models(&vec![hub], &vec![flat]);
    assert_eq!(found.len(), 2);
    assert!(found.iter().any(|model| model.label() == "owner/tiny-GGUF" && model.bytes == 2048));
}
