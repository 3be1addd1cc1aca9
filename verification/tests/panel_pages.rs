use tinyinference::desktop::{hand_off, is_control_panel, navigate, Navigation};
use tinyinference::skills::{
    file_stem, find_skill, parse_skill_markdown, sanitize_content, sanitize_description,
    sanitize_name, user_skills_catalog_block, SkillStore, SkillUpsert, MAX_SKILLS,
};
use tinyinference::update::{
    check_for_update, parse_version, GhRelease, UpdateCache, CHECK_TTL,
};

const BASE: &str = "http://127.0.0.1:3920";

#[test]
fn control_panel_root_stays_in_the_window() {
    assert!(is_control_panel("http://127.0.0.1:3920", BASE));
    assert!(is_control_panel("http://127.0.0.1:3920/", BASE));
    assert!(is_control_panel("http://127.0.0.1:3920/#dashboard", BASE));
    assert!(is_control_panel("http://127.0.0.1:3920/?x=1", BASE));
}

#[test]
fn chat_and_outbound_links_go_to_the_browser() {
    assert!(!is_control_panel("http://127.0.0.1:3920/chat", BASE));
    assert!(!is_control_panel("http://127.0.0.1:8080/", BASE));
    assert!(!is_control_panel("https://huggingface.co/", BASE));
}

#[test]
fn lookalike_origins_are_external() {
    assert!(!is_control_panel("http://127.0.0.1:39201/", BASE));
    assert!(!is_control_panel("http://127.0.0.1:3920.evil.test/", BASE));
}

#[test]
fn only_web_pages_are_handed_to_the_browser() {
    assert!(hand_off("https://huggingface.co/"));
    assert!(!hand_off("file:///etc/passwd"));
    assert_eq!(navigate("http://127.0.0.1:3920/", BASE), Navigation::Stay);
    assert_eq!(navigate("https://huggingface.co/", BASE), Navigation::HandOff);
}

#[test]
fn import_parses_frontmatter_and_persists() {
    let mut store = SkillStore::new(Vec::new());
    let skill = store
        .import_markdown(
            &Some("code-review.md".into()),
            "---\nname: Code review\ndescription: Review diffs carefully\n---\n\n# Rules\nBe concise.\n",
            7,
        )
        .unwrap();
    assert_eq!(skill.name, "Code review");
    assert_eq!(skill.description, "Review diffs carefully");
    assert!(skill.content.contains("Be concise"));
    assert_eq!(skill.source_filename.as_deref(), Some("code-review.md"));
    assert!(skill.enabled);

    let listed = store.list();
    assert_eq!(listed.len(), 1);
    assert_eq!(listed[0].id, skill.id);

    let catalog = user_skills_catalog_block(&listed);
    assert!(catalog.contains("available skills:"));
    assert!(catalog.contains("Code review"));
    assert!(catalog.contains("Review diffs carefully"));
    assert!(!catalog.contains("Be concise"));
    assert!(listed[0].full_instructions().contains("Be concise"));
}

#[test]
fn update_and_delete_roundtrip() {
    let mut store = SkillStore::new(Vec::new());
    let created = store
        .create(
            &SkillUpsert {
                name: Some("Draft".into()),
                description: Some("desc".into()),
                content: Some("body".into()),
                enabled: Some(true),
                source_filename: None,
            },
            1,
        )
        .unwrap();
    let updated = store
        .update(
            &created.id,
            &SkillUpsert {
                name: Some("Renamed".into()),
                description: None,
                content: Some("new body".into()),
                enabled: Some(false),
                source_filename: None,
            },
            2,
        )
        .unwrap();
    assert_eq!(updated.name, "Renamed");
    assert!(!updated.enabled);
    assert_eq!(updated.content, "new body");
    assert_eq!(updated.description, "desc");
    store.delete(&created.id).unwrap();
    assert!(store.list().is_empty());
    assert!(store.delete(&created.id).is_err());
}

#[test]
fn skills_are_bounded() {
    assert!(sanitize_name("   ").is_err());
    assert!(sanitize_name(&"x".repeat(65)).is_err());
    assert!(sanitize_description(&"x".repeat(281)).is_err());
    assert_eq!(sanitize_content("  ").unwrap(), "  ");
    assert!(sanitize_content(&"x".repeat(65_537)).is_err());
    let mut store = SkillStore::new(Vec::new());
    for index in 0..MAX_SKILLS {
        store
            .import_markdown(&Some(format!("skill-{index}.md")), "# Body\ntext\n", 1)
            .unwrap();
    }
    assert!(store.import_markdown(&None, "# Body\ntext\n", 1).is_err());
    let listed = store.enabled_skills();
    assert_eq!(listed.len(), MAX_SKILLS);
    let last = listed.last().unwrap();
    assert!(find_skill(&listed, &last.name.to_uppercase()).is_some());
    assert!(find_skill(&listed, "nothing of the sort").is_none());
}

#[test]
fn markdown_without_a_heading_block_is_all_content() {
    let parsed = parse_skill_markdown("# Title\n\ntext");
    assert!(parsed.name.is_none());
    assert!(parsed.content.contains("text"));
    assert_eq!(file_stem("notes.tar.md"), "notes.tar");
}

#[test]
fn version_ordering() {
    assert!(parse_version("v0.5.0").unwrap() > parse_version("0.4.0-beta").unwrap());
    assert!(parse_version("0.4.0").unwrap() > parse_version("0.4.0-beta").unwrap());
    assert!(parse_version("0.4.1-beta").unwrap() > parse_version("0.4.0").unwrap());
    assert_eq!(parse_version("v1.2.3").unwrap(), parse_version("1.2.3").unwrap());
}

fn release(tag: &str, draft: bool) -> GhRelease {
    GhRelease {
        tag_name: tag.into(),
        name: tag.into(),
        html_url: format!("https://example.com/{tag}"),
        draft,
        prerelease: false,
    }
}

#[test]
fn the_newest_release_is_told() {
    let published =
        Some(vec![release("v0.4.0", false), release("v0.6.0", false), release("v0.9.0", true)]);
    let notice = check_for_update("0.5.0", 200, &published).unwrap();
    assert_eq!(notice.tag, "v0.6.0");
    assert!(check_for_update("0.6.0", 200, &published).is_none());
    assert!(check_for_update("0.5.0", 500, &published).is_none());
    assert!(check_for_update("0.5.0", 200, &None).is_none());
}

#[test]
fn releases_are_looked_up_once_in_a_while() {
    let mut cache = UpdateCache::default();
    assert!(cache.begin_probe(0));
    assert!(!cache.begin_probe(1));
    cache.finish_probe(None, 2);
    assert!(!cache.needs_refresh(3));
    assert!(cache.needs_refresh(CHECK_TTL + 3));
    assert!(cache.peek().is_none());
}
