//! Skills that the user writes in markdown, and the list that keeps them.
use vstd::prelude::*;

use crate::config::copy_opt;
use crate::fresh::{drawn, generate_skill_id, skill_id_text, ID_BYTES};
use crate::text::{
    byte_len, byte_length, chars_of, clip, clipped, find, is_space, join, joined, last_position,
    lemma_occurs_itself, lemma_occurs_within, lines, lines_of, lower, occurs, opt_text, position,
    rfind, same, slice, split, split_on, strip_prefix, texts, to_lower, trim, trim_end_char,
    trim_end_matches, trim_start, trim_start_char, trim_start_matches, trimmed, without_prefix,
    Text,
};

verus! {

broadcast use vstd::string::group_string_axioms;

/// How many skills a list may hold.
pub const MAX_SKILLS: usize = 32;

/// How many characters a name may have.
pub const MAX_NAME_LEN: usize = 64;

/// How many characters a description may have.
pub const MAX_DESCRIPTION_LEN: usize = 280;

/// How many bytes the text of a skill may take.
pub const MAX_CONTENT_BYTES: u128 = 65536;

/// How many characters of a file's name are kept.
pub const MAX_FILENAME_LEN: usize = 120;

/// A skill: what it is called, what it is for, and its instructions.
#[derive(Debug)]
pub struct UserSkill {
    pub id: String,
    pub name: String,
    pub description: String,
    pub enabled: bool,
    /// The markdown body, without its front matter.
    pub content: String,
    /// The name of the file that it came from.
    pub source_filename: Option<String>,
    pub created_at: u64,
    pub updated_at: u64,
}

/// The view of [`UserSkill`].
#[verifier::ext_equal]
pub struct SkillView {
    pub id: Text,
    pub name: Text,
    pub description: Text,
    pub enabled: bool,
    pub content: Text,
    pub source_filename: Option<Text>,
    pub created_at: u64,
    pub updated_at: u64,
}

impl View for UserSkill {
    type V = SkillView;

    open spec fn view(&self) -> SkillView {
        SkillView {
            id: self.id@,
            name: self.name@,
            description: self.description@,
            enabled: self.enabled,
            content: self.content@,
            source_filename: opt_text(self.source_filename),
            created_at: self.created_at,
            updated_at: self.updated_at,
        }
    }
}

impl Clone for UserSkill {
    fn clone(&self) -> (r: UserSkill)
        ensures
            r@ == self@,
    {
        UserSkill {
            id: self.id.clone(),
            name: self.name.clone(),
            description: self.description.clone(),
            enabled: self.enabled,
            content: self.content.clone(),
            source_filename: copy_opt(&self.source_filename),
            created_at: self.created_at,
            updated_at: self.updated_at,
        }
    }
}

/// The views of a list of skills.
pub open spec fn skills(v: Seq<UserSkill>) -> Seq<SkillView> {
    v.map_values(|s: UserSkill| s@)
}

/// A skill as the page shows it, with the length of its text.
#[derive(Debug)]
pub struct UserSkillPublic {
    pub id: String,
    pub name: String,
    pub description: String,
    pub enabled: bool,
    pub content: String,
    pub source_filename: Option<String>,
    pub created_at: u64,
    pub updated_at: u64,
    pub content_chars: usize,
}

/// What is asked of a new skill, or of a change to one.
#[derive(Debug)]
pub struct SkillUpsert {
    pub name: Option<String>,
    pub description: Option<String>,
    pub content: Option<String>,
    pub enabled: Option<bool>,
    pub source_filename: Option<String>,
}

/// The view of [`SkillUpsert`].
pub struct UpsertView {
    pub name: Option<Text>,
    pub description: Option<Text>,
    pub content: Option<Text>,
    pub enabled: Option<bool>,
    pub source_filename: Option<Text>,
}

impl View for SkillUpsert {
    type V = UpsertView;

    open spec fn view(&self) -> UpsertView {
        UpsertView {
            name: opt_text(self.name),
            description: opt_text(self.description),
            content: opt_text(self.content),
            enabled: self.enabled,
            source_filename: opt_text(self.source_filename),
        }
    }
}

/// The view of a text or of why there is none.
pub open spec fn res_view(r: Result<String, String>) -> Result<Text, Text> {
    match r {
        Ok(s) => Ok(s@),
        Err(e) => Err(e@),
    }
}

/// A name as it is kept.
pub open spec fn clean_name(raw: Text) -> Result<Text, Text> {
    let name = trimmed(raw);
    if name.len() == 0 {
        Err("Skill name cannot be empty."@)
    } else if name.len() > MAX_NAME_LEN {
        Err("Skill name must be at most 64 characters."@)
    } else {
        Ok(name)
    }
}

/// A name as it is kept.
pub fn sanitize_name(raw: &str) -> (r: Result<String, String>)
    ensures
        res_view(r) == clean_name(raw@),
{
    let name = trim(raw);
    let n: usize = name.as_str().unicode_len();
    if n == 0 {
        Err("Skill name cannot be empty.".to_owned())
    } else if n > MAX_NAME_LEN {
        Err("Skill name must be at most 64 characters.".to_owned())
    } else {
        Ok(name)
    }
}

/// A description as it is kept.
pub open spec fn clean_description(raw: Text) -> Result<Text, Text> {
    let description = trimmed(raw);
    if description.len() > MAX_DESCRIPTION_LEN {
        Err("Skill description must be at most 280 characters."@)
    } else {
        Ok(description)
    }
}

/// A description as it is kept.
pub fn sanitize_description(raw: &str) -> (r: Result<String, String>)
    ensures
        res_view(r) == clean_description(raw@),
{
    let description = trim(raw);
    if description.as_str().unicode_len() > MAX_DESCRIPTION_LEN {
        Err("Skill description must be at most 280 characters.".to_owned())
    } else {
        Ok(description)
    }
}

/// A body as it is kept.
pub open spec fn clean_content(raw: Text) -> Result<Text, Text> {
    if byte_len(raw) > MAX_CONTENT_BYTES {
        Err("Skill content must be at most 65536 bytes."@)
    } else {
        Ok(raw)
    }
}

/// A body as it is kept.
pub fn sanitize_content(raw: &str) -> (r: Result<String, String>)
    ensures
        res_view(r) == clean_content(raw@),
{
    if byte_length(raw) > MAX_CONTENT_BYTES {
        Err("Skill content must be at most 65536 bytes.".to_owned())
    } else {
        Ok(raw.to_owned())
    }
}

/// The last part of a path that names something; `None` where there is none or
/// it leads upwards.
pub open spec fn last_name(parts: Seq<Text>) -> Option<Text>
    decreases parts.len(),
{
    if parts.len() == 0 {
        None
    } else if parts.last().len() == 0 || parts.last() == "."@ {
        last_name(parts.drop_last())
    } else if parts.last() == ".."@ {
        None
    } else {
        Some(parts.last())
    }
}

/// The name of the file that a path leads to.
pub open spec fn file_name_of(path: Text) -> Option<Text> {
    last_name(split_on(path, '/'))
}

/// The name of the file that a path leads to.
pub fn file_name(path: &str) -> (r: Option<String>)
    ensures
        opt_text(r) == file_name_of(path@),
{
    let parts = split(path, '/');
    let ghost all = texts(parts@);
    let mut n: usize = parts.len();
    proof {
        assert(all.take(n as int) =~= all);
    }
    while n > 0
        invariant
            n <= parts.len(),
            all == texts(parts@),
            last_name(all.take(n as int)) == file_name_of(path@),
        decreases n,
    {
        let part: &str = parts[n - 1].as_str();
        proof {
            assert(all.take(n as int).last() == part@);
            assert(all.take(n as int).drop_last() =~= all.take(n - 1));
        }
        if part.unicode_len() == 0 || same(part, ".") {
            n = n - 1;
        } else if same(part, "..") {
            return None;
        } else {
            return Some(part.to_owned());
        }
    }
    None
}

/// A file's name without its last ending.
pub open spec fn stem_of(name: Text) -> Text {
    match rfind(name, '.') {
        Some(k) => if k > 0 {
            name.take(k)
        } else {
            name
        },
        None => name,
    }
}

/// A file's name without its last ending.
pub fn file_stem(name: &str) -> (out: String)
    ensures
        out@ == stem_of(name@),
{
    match last_position(name, '.') {
        Some(k) => {
            if k > 0 {
                let out = slice(name, 0, k);
                proof {
                    assert(out@ =~= name@.take(k as int));
                }
                out
            } else {
                name.to_owned()
            }
        },
        None => name.to_owned(),
    }
}

/// A file's name as it is kept.
pub open spec fn clean_filename(raw: Option<Text>) -> Option<Text> {
    match raw {
        Some(name) => {
            let kept = clipped(
                match file_name_of(trimmed(name)) {
                    Some(f) => f,
                    None => "skill.md"@,
                },
                MAX_FILENAME_LEN as int,
            );
            if kept.len() == 0 {
                None
            } else {
                Some(kept)
            }
        },
        None => None,
    }
}

/// A file's name as it is kept.
pub fn sanitize_filename(raw: &Option<String>) -> (r: Option<String>)
    ensures
        opt_text(r) == clean_filename(opt_text(*raw)),
{
    match raw {
        Some(name) => {
            let found = file_name(trim(name.as_str()).as_str());
            let full = match found {
                Some(f) => f,
                None => "skill.md".to_owned(),
            };
            let kept = clip(full.as_str(), MAX_FILENAME_LEN);
            if kept.as_str().unicode_len() == 0 {
                None
            } else {
                Some(kept)
            }
        },
        None => None,
    }
}

/// A text with spaces in place of underscores and hyphens.
pub open spec fn spaced(s: Text) -> Text {
    s.map_values(
        |c: char|
            if c == '_' || c == '-' {
                ' '
            } else {
                c
            },
    )
}

fn with_spaces(s: &str) -> (out: String)
    ensures
        out@ == spaced(s@),
{
    let v = chars_of(s);
    let mut out: String = String::new();
    let mut i: usize = 0;
    while i < v.len()
        invariant
            i <= v.len(),
            v@ == s@,
            out@ == spaced(s@.take(i as int)),
        decreases v.len() - i,
    {
        let c: char = v[i];
        out.push(
            if c == '_' || c == '-' {
                ' '
            } else {
                c
            },
        );
        i = i + 1;
        proof {
            assert(out@ =~= spaced(s@.take(i as int)));
        }
    }
    proof {
        assert(s@.take(v.len() as int) =~= s@);
    }
    out
}

/// What a skill's markdown holds.
#[derive(Debug)]
pub struct ParsedMarkdown {
    pub name: Option<String>,
    pub description: Option<String>,
    pub content: String,
}

/// The view of [`ParsedMarkdown`].
#[verifier::ext_equal]
pub struct MarkdownView {
    pub name: Option<Text>,
    pub description: Option<Text>,
    pub content: Text,
}

impl View for ParsedMarkdown {
    type V = MarkdownView;

    open spec fn view(&self) -> MarkdownView {
        MarkdownView {
            name: opt_text(self.name),
            description: opt_text(self.description),
            content: self.content@,
        }
    }
}

/// A value of the front matter, without its quotes.
pub open spec fn plain_value(s: Text) -> Text {
    trim_end_char(trim_start_char(trimmed(s), '"'), '"')
}

fn unquoted(s: &str) -> (out: String)
    ensures
        out@ == plain_value(s@),
{
    trim_end_matches(trim_start_matches(trim(s).as_str(), '"').as_str(), '"')
}

/// The name and the description that lines of front matter give; of each the
/// last.
pub open spec fn front_matter(front: Seq<Text>) -> (Option<Text>, Option<Text>)
    decreases front.len(),
{
    if front.len() == 0 {
        (None, None)
    } else {
        let before = front_matter(front.drop_last());
        let line = trimmed(front.last());
        match without_prefix(line, "name:"@) {
            Some(value) => (Some(plain_value(value)), before.1),
            None => match without_prefix(line, "description:"@) {
                Some(value) => (before.0, Some(plain_value(value))),
                None => before,
            },
        }
    }
}

fn read_front_matter(front: &Vec<String>) -> (r: (Option<String>, Option<String>))
    ensures
        (opt_text(r.0), opt_text(r.1)) == front_matter(texts(front@)),
{
    let ghost all = texts(front@);
    let mut name: Option<String> = None;
    let mut description: Option<String> = None;
    let mut i: usize = 0;
    while i < front.len()
        invariant
            i <= front.len(),
            all == texts(front@),
            (opt_text(name), opt_text(description)) == front_matter(all.take(i as int)),
        decreases front.len() - i,
    {
        let line = trim(front[i].as_str());
        proof {
            assert(all.take(i + 1).drop_last() =~= all.take(i as int));
            assert(all.take(i + 1).last() == front@[i as int]@);
        }
        match strip_prefix(line.as_str(), "name:") {
            Some(value) => {
                name = Some(unquoted(value.as_str()));
            },
            None => match strip_prefix(line.as_str(), "description:") {
                Some(value) => {
                    description = Some(unquoted(value.as_str()));
                },
                None => {},
            },
        }
        i = i + 1;
    }
    proof {
        assert(all.take(front.len() as int) =~= all);
    }
    (name, description)
}

/// What a skill's markdown holds: the name and description of its front
/// matter, where it has one, and the body.
pub open spec fn markdown(raw: Text) -> MarkdownView {
    let text = trimmed(raw);
    match without_prefix(text, "---"@) {
        Some(rest) => match find(rest, "\n---"@) {
            Some(end) => {
                let front = front_matter(lines_of(rest.take(end)));
                MarkdownView {
                    name: front.0,
                    description: front.1,
                    content: trim_start_char(rest.skip(end + 4), '\n'),
                }
            },
            None => MarkdownView { name: None, description: None, content: text },
        },
        None => MarkdownView { name: None, description: None, content: text },
    }
}

/// What a skill's markdown holds.
pub fn parse_skill_markdown(raw: &str) -> (r: ParsedMarkdown)
    ensures
        r@ == markdown(raw@),
{
    let text = trim(raw);
    match strip_prefix(text.as_str(), "---") {
        Some(rest) => match position(rest.as_str(), "\n---") {
            Some(end) => {
                proof {
                    reveal_strlit("\n---");
                    crate::text::lemma_find(rest@, "\n---"@);
                }
                let n: usize = rest.as_str().unicode_len();
                let front = slice(rest.as_str(), 0, end);
                let body = slice(rest.as_str(), end + 4, n);
                proof {
                    assert(front@ =~= rest@.take(end as int));
                    assert(body@ =~= rest@.skip(end + 4));
                }
                let (name, description) = read_front_matter(&lines(front.as_str()));
                ParsedMarkdown {
                    name,
                    description,
                    content: trim_start_matches(body.as_str(), '\n'),
                }
            },
            None => ParsedMarkdown { name: None, description: None, content: text },
        },
        None => ParsedMarkdown { name: None, description: None, content: text },
    }
}

/// The line that the list of skills shows of one.
pub open spec fn catalog_entry(s: SkillView) -> Text {
    let d = trimmed(s.description);
    let head = "- "@ + s.name + " (id: "@ + s.id + ")"@;
    if d.len() == 0 {
        head
    } else {
        head + ": "@ + d
    }
}

/// Everything that a skill says.
pub open spec fn instructions(s: SkillView) -> Text {
    let d = trimmed(s.description);
    let head = "# Skill: "@ + s.name + "\n"@;
    let described = if d.len() == 0 {
        head
    } else {
        head + "\n"@ + d + "\n"@
    };
    let full = described + "\n"@ + trimmed(s.content);
    if full.last() == '\n' {
        full
    } else {
        full.push('\n')
    }
}

impl UserSkill {
    /// The skill as the page shows it.
    pub fn to_public(&self) -> (r: UserSkillPublic)
        ensures
            r.id@ == self@.id,
            r.name@ == self@.name,
            r.description@ == self@.description,
            r.enabled == self@.enabled,
            r.content@ == self@.content,
            opt_text(r.source_filename) == self@.source_filename,
            r.created_at == self@.created_at,
            r.updated_at == self@.updated_at,
            r.content_chars == self@.content.len(),
    {
        UserSkillPublic {
            id: self.id.clone(),
            name: self.name.clone(),
            description: self.description.clone(),
            enabled: self.enabled,
            content: self.content.clone(),
            source_filename: copy_opt(&self.source_filename),
            created_at: self.created_at,
            updated_at: self.updated_at,
            content_chars: self.content.as_str().unicode_len(),
        }
    }

    /// The line that the list of skills shows of this one.
    pub fn catalog_line(&self) -> (out: String)
        ensures
            out@ == catalog_entry(self@),
    {
        let d = trim(self.description.as_str());
        let mut out = "- ".to_owned();
        out.append(self.name.as_str());
        out.append(" (id: ");
        out.append(self.id.as_str());
        out.append(")");
        if d.as_str().unicode_len() != 0 {
            out.append(": ");
            out.append(d.as_str());
        }
        out
    }

    /// Everything that the skill says.
    pub fn full_instructions(&self) -> (out: String)
        ensures
            out@ == instructions(self@),
    {
        let d = trim(self.description.as_str());
        let mut out = "# Skill: ".to_owned();
        out.append(self.name.as_str());
        out.append("\n");
        if d.as_str().unicode_len() != 0 {
            out.append("\n");
            out.append(d.as_str());
            out.append("\n");
        }
        out.append("\n");
        out.append(trim(self.content.as_str()).as_str());
        proof {
            reveal_strlit("\n");
        }
        let n: usize = out.as_str().unicode_len();
        if out.as_str().get_char(n - 1) != '\n' {
            out.push('\n');
        }
        out
    }
}

/// The lines that list the skills.
pub open spec fn catalog_lines(v: Seq<SkillView>) -> Seq<Text> {
    seq!["available skills:"@] + v.map_values(|s: SkillView| catalog_entry(s)) + seq![
        Seq::<char>::empty(),
        "These are progressive-disclosure skills: you only see name/description here. When a skill is relevant, activate it with activate_skill before following its instructions. Do not activate skills that are unrelated to the user's request."@,
    ]
}

/// The list of skills that a prompt carries: what each is for, and no more.
pub open spec fn catalog_block(v: Seq<SkillView>) -> Text {
    if v.len() == 0 {
        Seq::empty()
    } else {
        joined(catalog_lines(v), "\n"@)
    }
}

/// The list of skills that a prompt carries.
pub fn user_skills_catalog_block(v: &Vec<UserSkill>) -> (out: String)
    ensures
        out@ == catalog_block(skills(v@)),
{
    if v.len() == 0 {
        return String::new();
    }
    let mut all: Vec<String> = Vec::new();
    all.push("available skills:".to_owned());
    let ghost entries = skills(v@).map_values(|s: SkillView| catalog_entry(s));
    let mut i: usize = 0;
    proof {
        assert(texts(all@) =~= seq!["available skills:"@] + entries.take(0));
    }
    while i < v.len()
        invariant
            i <= v.len(),
            entries == skills(v@).map_values(|s: SkillView| catalog_entry(s)),
            texts(all@) == seq!["available skills:"@] + entries.take(i as int),
        decreases v.len() - i,
    {
        let ghost was = texts(all@);
        all.push(v[i].catalog_line());
        proof {
            assert(skills(v@)[i as int] == v@[i as int]@);
            assert(texts(all@) =~= was.push(entries[i as int]));
            assert(entries.take(i + 1) =~= entries.take(i as int).push(entries[i as int]));
            assert(texts(all@) =~= seq!["available skills:"@] + entries.take(i + 1));
        }
        i = i + 1;
    }
    all.push(String::new());
    all.push(
        "These are progressive-disclosure skills: you only see name/description here. When a skill is relevant, activate it with activate_skill before following its instructions. Do not activate skills that are unrelated to the user's request.".to_owned(),
    );
    proof {
        assert(entries.take(v.len() as int) =~= entries);
        assert(texts(all@) =~= catalog_lines(skills(v@)));
    }
    join(&all, "\n")
}

/// The list of skills shows nothing of their bodies: skills that differ in
/// nothing else are listed alike.
pub proof fn law_catalog_hides_bodies(a: Seq<SkillView>, b: Seq<SkillView>)
    requires
        a.len() == b.len(),
        forall|i: int|
            0 <= i < a.len() ==> (#[trigger] a[i]).id == b[i].id && a[i].name == b[i].name
                && a[i].description == b[i].description,
    ensures
        catalog_block(a) == catalog_block(b),
{
    assert(a.map_values(|s: SkillView| catalog_entry(s)) =~= b.map_values(
        |s: SkillView| catalog_entry(s),
    ));
}

/// Whether a skill goes by a name or an identifier, whatever the case.
pub open spec fn goes_by(s: SkillView, key: Text) -> bool {
    lower(s.id) == lower(key) || lower(s.name) == lower(key)
}

/// The first skill from position `i` on that goes by a key.
pub open spec fn named_from(v: Seq<SkillView>, key: Text, i: int) -> Option<SkillView>
    decreases v.len() - i,
{
    if i < 0 || i >= v.len() {
        None
    } else if goes_by(v[i], key) {
        Some(v[i])
    } else {
        named_from(v, key, i + 1)
    }
}

/// The skill that a key stands for.
pub open spec fn skill_named(v: Seq<SkillView>, key: Text) -> Option<SkillView> {
    if trimmed(key).len() == 0 {
        None
    } else {
        named_from(v, trimmed(key), 0)
    }
}

/// The skill that a key stands for.
pub fn find_skill<'a>(v: &'a Vec<UserSkill>, key: &str) -> (r: Option<&'a UserSkill>)
    ensures
        match r {
            Some(s) => skill_named(skills(v@), key@) == Some(s@),
            None => skill_named(skills(v@), key@) is None,
        },
{
    let asked = trim(key);
    if asked.as_str().unicode_len() == 0 {
        return None;
    }
    let low = to_lower(asked.as_str());
    let mut i: usize = 0;
    while i < v.len()
        invariant
            i <= v.len(),
            asked@ == trimmed(key@),
            asked@.len() > 0,
            low@ == lower(asked@),
            skill_named(skills(v@), key@) == named_from(skills(v@), asked@, i as int),
        decreases v.len() - i,
    {
        proof {
            assert(skills(v@)[i as int] == v@[i as int]@);
        }
        if same(to_lower(v[i].id.as_str()).as_str(), low.as_str()) || same(
            to_lower(v[i].name.as_str()).as_str(),
            low.as_str(),
        ) {
            return Some(&v[i]);
        }
        i = i + 1;
    }
    None
}

/// The skills that are switched on.
pub open spec fn switched_on(v: Seq<SkillView>) -> Seq<SkillView>
    decreases v.len(),
{
    if v.len() == 0 {
        Seq::empty()
    } else if v.last().enabled {
        switched_on(v.drop_last()).push(v.last())
    } else {
        switched_on(v.drop_last())
    }
}

/// The position of the first skill with an identifier, or the length of the
/// list.
pub open spec fn skill_at(v: Seq<SkillView>, id: Text, i: int) -> int
    decreases v.len() - i,
{
    if i < 0 || i >= v.len() {
        v.len() as int
    } else if v[i].id == id {
        i
    } else {
        skill_at(v, id, i + 1)
    }
}

/// The skills without those of an identifier.
pub open spec fn without_skill(v: Seq<SkillView>, id: Text) -> Seq<SkillView>
    decreases v.len(),
{
    if v.len() == 0 {
        Seq::empty()
    } else if v.last().id == id {
        without_skill(v.drop_last(), id)
    } else {
        without_skill(v.drop_last(), id).push(v.last())
    }
}

/// A new skill with the given identifier, made at the given time.
pub open spec fn new_skill(u: UpsertView, id: Text, now: u64) -> Result<SkillView, Text> {
    let name = clean_name(
        match u.name {
            Some(n) => n,
            None => "Untitled skill"@,
        },
    );
    let description = clean_description(
        match u.description {
            Some(d) => d,
            None => Seq::empty(),
        },
    );
    let content = clean_content(
        match u.content {
            Some(c) => c,
            None => Seq::empty(),
        },
    );
    match name {
        Err(e) => Err(e),
        Ok(name) => match description {
            Err(e) => Err(e),
            Ok(description) => match content {
                Err(e) => Err(e),
                Ok(content) => Ok(
                    SkillView {
                        id,
                        name,
                        description,
                        enabled: match u.enabled {
                            Some(on) => on,
                            None => true,
                        },
                        content,
                        source_filename: clean_filename(u.source_filename),
                        created_at: now,
                        updated_at: now,
                    },
                ),
            },
        },
    }
}

/// A skill after a change made at the given time.
pub open spec fn changed_skill(s: SkillView, u: UpsertView, now: u64) -> Result<SkillView, Text> {
    let name = match u.name {
        Some(n) => clean_name(n),
        None => Ok(s.name),
    };
    let description = match u.description {
        Some(d) => clean_description(d),
        None => Ok(s.description),
    };
    let content = match u.content {
        Some(c) => clean_content(c),
        None => Ok(s.content),
    };
    match name {
        Err(e) => Err(e),
        Ok(name) => match description {
            Err(e) => Err(e),
            Ok(description) => match content {
                Err(e) => Err(e),
                Ok(content) => Ok(
                    SkillView {
                        id: s.id,
                        name,
                        description,
                        enabled: match u.enabled {
                            Some(on) => on,
                            None => s.enabled,
                        },
                        content,
                        source_filename: match u.source_filename {
                            Some(f) => clean_filename(Some(f)),
                            None => s.source_filename,
                        },
                        created_at: s.created_at,
                        updated_at: now,
                    },
                ),
            },
        },
    }
}

/// What an uploaded file asks for.
pub open spec fn imported(filename: Option<Text>, raw: Text) -> UpsertView {
    let m = markdown(raw);
    UpsertView {
        name: Some(
            match m.name {
                Some(n) => n,
                None => match filename {
                    Some(f) => match file_name_of(f) {
                        Some(base) => spaced(stem_of(base)),
                        None => "Imported skill"@,
                    },
                    None => "Imported skill"@,
                },
            },
        ),
        description: Some(
            match m.description {
                Some(d) => d,
                None => Seq::empty(),
            },
        ),
        content: Some(m.content),
        enabled: Some(true),
        source_filename: filename,
    }
}

/// The view of a skill or of why there is none.
pub open spec fn skill_result(r: Result<UserSkill, String>) -> Result<SkillView, Text> {
    match r {
        Ok(s) => Ok(s@),
        Err(e) => Err(e@),
    }
}

/// The list of skills.
pub struct SkillStore {
    pub skills: Vec<UserSkill>,
}

impl View for SkillStore {
    type V = Seq<SkillView>;

    open spec fn view(&self) -> Seq<SkillView> {
        skills(self.skills@)
    }
}

/// The list after a skill was asked for: with it where it could be made.
pub open spec fn with_created(v: Seq<SkillView>, u: UpsertView, id: Text, now: u64) -> (
    Seq<SkillView>,
    Result<SkillView, Text>,
) {
    if v.len() >= MAX_SKILLS {
        (v, Err("At most 32 skills are allowed."@))
    } else {
        match new_skill(u, id, now) {
            Ok(s) => (v.push(s), Ok(s)),
            Err(e) => (v, Err(e)),
        }
    }
}

/// The list after a change to a skill was asked for.
pub open spec fn with_updated(v: Seq<SkillView>, id: Text, u: UpsertView, now: u64) -> (
    Seq<SkillView>,
    Result<SkillView, Text>,
) {
    let i = skill_at(v, id, 0);
    if i >= v.len() {
        (v, Err("Unknown skill id: "@ + id))
    } else {
        match changed_skill(v[i], u, now) {
            Ok(s) => (v.update(i, s), Ok(s)),
            Err(e) => (v, Err(e)),
        }
    }
}

impl SkillStore {
    /// A list of the given skills.
    pub fn new(skills: Vec<UserSkill>) -> (r: SkillStore)
        ensures
            r@ == self::skills(skills@),
    {
        SkillStore { skills }
    }

    /// The skills.
    pub fn list(&self) -> (out: Vec<UserSkill>)
        ensures
            skills(out@) == self@,
    {
        let mut out: Vec<UserSkill> = Vec::new();
        let mut i: usize = 0;
        while i < self.skills.len()
            invariant
                i <= self.skills.len(),
                out.len() == i,
                forall|k: int| 0 <= k < i ==> (#[trigger] out@[k])@ == self.skills@[k]@,
            decreases self.skills.len() - i,
        {
            out.push(self.skills[i].clone());
            i = i + 1;
        }
        proof {
            assert(skills(out@) =~= self@);
        }
        out
    }

    /// The skills that are switched on.
    pub fn enabled_skills(&self) -> (out: Vec<UserSkill>)
        ensures
            skills(out@) == switched_on(self@),
    {
        let mut out: Vec<UserSkill> = Vec::new();
        let ghost all = self@;
        let mut i: usize = 0;
        proof {
            assert(skills(out@) =~= switched_on(all.take(0)));
        }
        while i < self.skills.len()
            invariant
                i <= self.skills.len(),
                all == self@,
                skills(out@) == switched_on(all.take(i as int)),
            decreases self.skills.len() - i,
        {
            let ghost was = skills(out@);
            proof {
                assert(all.take(i + 1).drop_last() =~= all.take(i as int));
                assert(all.take(i + 1).last() == self.skills@[i as int]@);
            }
            if self.skills[i].enabled {
                let s = self.skills[i].clone();
                out.push(s);
                proof {
                    assert(skills(out@) =~= was.push(s@));
                }
            }
            i = i + 1;
        }
        proof {
            assert(all.take(self.skills.len() as int) =~= all);
        }
        out
    }

    /// Adds a skill with the given identifier.
    pub fn create_as(&mut self, u: &SkillUpsert, id: String, now: u64) -> (r: Result<
        UserSkill,
        String,
    >)
        ensures
            (final(self)@, skill_result(r)) == with_created(old(self)@, u@, id@, now),
    {
        if self.skills.len() >= MAX_SKILLS {
            return Err("At most 32 skills are allowed.".to_owned());
        }
        let name = match &u.name {
            Some(n) => sanitize_name(n.as_str()),
            None => sanitize_name("Untitled skill"),
        };
        let name = match name {
            Ok(n) => n,
            Err(e) => {
                return Err(e);
            },
        };
        proof {
            reveal_strlit("");
            assert(""@ =~= Seq::<char>::empty());
        }
        let description = match &u.description {
            Some(d) => sanitize_description(d.as_str()),
            None => sanitize_description(""),
        };
        let description = match description {
            Ok(d) => d,
            Err(e) => {
                return Err(e);
            },
        };
        let content = match &u.content {
            Some(c) => sanitize_content(c.as_str()),
            None => sanitize_content(""),
        };
        let content = match content {
            Ok(c) => c,
            Err(e) => {
                return Err(e);
            },
        };
        let skill = UserSkill {
            id,
            name,
            description,
            enabled: match u.enabled {
                Some(on) => on,
                None => true,
            },
            content,
            source_filename: sanitize_filename(&u.source_filename),
            created_at: now,
            updated_at: now,
        };
        let out = skill.clone();
        let ghost was = self@;
        self.skills.push(skill);
        proof {
            assert(self@ =~= was.push(skill@));
        }
        Ok(out)
    }

    /// Adds a skill under a new identifier: where it is added, it is the last,
    /// and nothing else changes.
    pub fn create(&mut self, u: &SkillUpsert, now: u64) -> (r: Result<UserSkill, String>)
        ensures
            exists|b: Option<Seq<u8>>|
                drawn(b, ID_BYTES as nat) && (final(self)@, skill_result(r)) == with_created(
                    old(self)@,
                    u@,
                    #[trigger] skill_id_text(b),
                    now,
                ),
    {
        let id = generate_skill_id();
        self.create_as(u, id, now)
    }

    /// Changes a skill.
    pub fn update(&mut self, id: &str, u: &SkillUpsert, now: u64) -> (r: Result<UserSkill, String>)
        ensures
            (final(self)@, skill_result(r)) == with_updated(old(self)@, id@, u@, now),
    {
        let ghost all = self@;
        let mut i: usize = 0;
        while i < self.skills.len()
            invariant
                i <= self.skills.len(),
                all == self@,
                skill_at(all, id@, 0) == skill_at(all, id@, i as int),
                *self == *old(self),
            ensures
                i <= self.skills.len(),
                all == self@,
                *self == *old(self),
                i == skill_at(all, id@, 0),
            decreases self.skills.len() - i,
        {
            proof {
                assert(all[i as int] == self.skills@[i as int]@);
            }
            if same(self.skills[i].id.as_str(), id) {
                break;
            }
            i = i + 1;
        }
        if i >= self.skills.len() {
            let mut e = "Unknown skill id: ".to_owned();
            e.append(id);
            return Err(e);
        }
        proof {
            assert(all[i as int] == self.skills@[i as int]@);
        }
        let name = match &u.name {
            Some(n) => sanitize_name(n.as_str()),
            None => Ok(self.skills[i].name.clone()),
        };
        let name = match name {
            Ok(n) => n,
            Err(e) => {
                return Err(e);
            },
        };
        let description = match &u.description {
            Some(d) => sanitize_description(d.as_str()),
            None => Ok(self.skills[i].description.clone()),
        };
        let description = match description {
            Ok(d) => d,
            Err(e) => {
                return Err(e);
            },
        };
        let content = match &u.content {
            Some(c) => sanitize_content(c.as_str()),
            None => Ok(self.skills[i].content.clone()),
        };
        let content = match content {
            Ok(c) => c,
            Err(e) => {
                return Err(e);
            },
        };
        let source_filename = match &u.source_filename {
            Some(_) => sanitize_filename(&u.source_filename),
            None => copy_opt(&self.skills[i].source_filename),
        };
        let skill = UserSkill {
            id: self.skills[i].id.clone(),
            name,
            description,
            enabled: match u.enabled {
                Some(on) => on,
                None => self.skills[i].enabled,
            },
            content,
            source_filename,
            created_at: self.skills[i].created_at,
            updated_at: now,
        };
        let out = skill.clone();
        self.skills.set(i, skill);
        proof {
            assert(self@ =~= all.update(i as int, skill@));
        }
        Ok(out)
    }

    /// Removes a skill.
    pub fn delete(&mut self, id: &str) -> (r: Result<(), String>)
        ensures
            final(self)@ == without_skill(old(self)@, id@),
            match r {
                Ok(()) => final(self)@.len() < old(self)@.len(),
                Err(e) => final(self)@ == old(self)@ && e@ == "Unknown skill id: "@ + id@,
            },
    {
        let ghost all = self@;
        let mut kept: Vec<UserSkill> = Vec::new();
        let mut i: usize = 0;
        proof {
            assert(skills(kept@) =~= without_skill(all.take(0), id@));
        }
        while i < self.skills.len()
            invariant
                i <= self.skills.len(),
                all == self@,
                *self == *old(self),
                kept.len() <= i,
                kept.len() == i ==> skills(kept@) == all.take(i as int),
                skills(kept@) == without_skill(all.take(i as int), id@),
            decreases self.skills.len() - i,
        {
            let ghost was = skills(kept@);
            proof {
                assert(all.take(i + 1).drop_last() =~= all.take(i as int));
                assert(all.take(i + 1).last() == self.skills@[i as int]@);
            }
            if !same(self.skills[i].id.as_str(), id) {
                let s = self.skills[i].clone();
                kept.push(s);
                proof {
                    assert(skills(kept@) =~= was.push(s@));
                    if kept.len() == i + 1 {
                        assert(all.take(i + 1) =~= all.take(i as int).push(s@));
                    }
                }
            }
            i = i + 1;
        }
        proof {
            assert(all.take(self.skills.len() as int) =~= all);
        }
        if kept.len() == self.skills.len() {
            let mut e = "Unknown skill id: ".to_owned();
            e.append(id);
            return Err(e);
        }
        self.skills = kept;
        Ok(())
    }

    /// Adds the skill that an uploaded file holds, with the given identifier.
    pub fn import_as(&mut self, filename: &Option<String>, raw: &str, id: String, now: u64) -> (r:
        Result<UserSkill, String>)
        ensures
            (final(self)@, skill_result(r)) == with_created(
                old(self)@,
                imported(opt_text(*filename), raw@),
                id@,
                now,
            ),
    {
        let parsed = parse_skill_markdown(raw);
        let name = match parsed.name {
            Some(n) => n,
            None => match filename {
                Some(f) => match file_name(f.as_str()) {
                    Some(base) => with_spaces(file_stem(base.as_str()).as_str()),
                    None => "Imported skill".to_owned(),
                },
                None => "Imported skill".to_owned(),
            },
        };
        let description = match parsed.description {
            Some(d) => d,
            None => String::new(),
        };
        let u = SkillUpsert {
            name: Some(name),
            description: Some(description),
            content: Some(parsed.content),
            enabled: Some(true),
            source_filename: copy_opt(filename),
        };
        self.create_as(&u, id, now)
    }

    /// Adds the skill that an uploaded file holds, under a new identifier.
    pub fn import_markdown(&mut self, filename: &Option<String>, raw: &str, now: u64) -> (r: Result<
        UserSkill,
        String,
    >)
        ensures
            exists|b: Option<Seq<u8>>|
                drawn(b, ID_BYTES as nat) && (final(self)@, skill_result(r)) == with_created(
                    old(self)@,
                    imported(opt_text(*filename), raw@),
                    #[trigger] skill_id_text(b),
                    now,
                ),
    {
        let id = generate_skill_id();
        self.import_as(filename, raw, id, now)
    }
}

/// No skill is added to a full list, and a skill that was added is found under
/// its identifier unless an earlier one goes by it.
pub proof fn law_created_is_found(v: Seq<SkillView>, u: UpsertView, id: Text, now: u64)
    requires
        v.len() <= MAX_SKILLS,
        trimmed(id) == id,
        id.len() > 0,
        forall|i: int| 0 <= i < v.len() ==> !goes_by(#[trigger] v[i], id),
    ensures
        with_created(v, u, id, now).0.len() <= MAX_SKILLS,
        with_created(v, u, id, now).1 matches Ok(s) ==> skill_named(
            with_created(v, u, id, now).0,
            id,
        ) == Some(s),
        with_created(v, u, id, now).1 is Err ==> with_created(v, u, id, now).0 == v,
{
    let after = with_created(v, u, id, now).0;
    if with_created(v, u, id, now).1 is Ok {
        lemma_named_last(after, id, 0);
    }
}

proof fn lemma_named_last(v: Seq<SkillView>, key: Text, i: int)
    requires
        0 <= i < v.len(),
        forall|k: int| 0 <= k < v.len() - 1 ==> !goes_by(#[trigger] v[k], key),
        goes_by(v.last(), key),
    ensures
        named_from(v, key, i) == Some(v.last()),
    decreases v.len() - i,
{
    if i < v.len() - 1 {
        assert(!goes_by(v[i], key));
        lemma_named_last(v, key, i + 1);
    }
}

/// A change keeps who a skill is, where it stands and when it was made, and
/// leaves every other skill as it is.
pub proof fn law_update_keeps_the_rest(v: Seq<SkillView>, id: Text, u: UpsertView, now: u64)
    ensures
        with_updated(v, id, u, now).0.len() == v.len(),
        forall|i: int|
            0 <= i < v.len() ==> (#[trigger] with_updated(v, id, u, now).0[i]).id == v[i].id
                && with_updated(v, id, u, now).0[i].created_at == v[i].created_at && (v[i].id != id
                ==> with_updated(v, id, u, now).0[i] == v[i]),
{
    lemma_skill_at(v, id, 0);
}

proof fn lemma_skill_at(v: Seq<SkillView>, id: Text, i: int)
    requires
        0 <= i <= v.len(),
    ensures
        i <= skill_at(v, id, i) <= v.len(),
        skill_at(v, id, i) < v.len() ==> v[skill_at(v, id, i)].id == id,
    decreases v.len() - i,
{
    if i < v.len() && v[i].id != id {
        lemma_skill_at(v, id, i + 1);
    }
}

/// After a skill is removed none of its identifier is left, and every other
/// one is.
pub proof fn law_deleted_is_gone(v: Seq<SkillView>, id: Text)
    ensures
        forall|s: SkillView|
            #[trigger] without_skill(v, id).contains(s) <==> v.contains(s) && s.id != id,
    decreases v.len(),
{
    if v.len() > 0 {
        let before = v.drop_last();
        law_deleted_is_gone(before, id);
        assert forall|s: SkillView|
            #[trigger] without_skill(v, id).contains(s) <==> v.contains(s) && s.id != id by {
            assert(v =~= before.push(v.last()));
            if v.contains(s) {
                let k = choose|k: int| 0 <= k < v.len() && v[k] == s;
                if k < before.len() {
                    assert(before[k] == s);
                }
            }
            if before.contains(s) {
                let k = choose|k: int| 0 <= k < before.len() && before[k] == s;
                assert(v[k] == s);
            }
            assert(v[v.len() - 1] == v.last());
            let rest = without_skill(before, id);
            if v.last().id != id {
                assert(without_skill(v, id) == rest.push(v.last()));
                if rest.contains(s) {
                    let k = choose|k: int| 0 <= k < rest.len() && rest[k] == s;
                    assert(rest.push(v.last())[k] == s);
                }
                assert(rest.push(v.last())[rest.len() as int] == v.last());
                if rest.push(v.last()).contains(s) {
                    let k = choose|k: int|
                        0 <= k < rest.push(v.last()).len() && rest.push(v.last())[k] == s;
                    if k < rest.len() {
                        assert(rest[k] == s);
                    }
                }
            }
        }
    }
}

proof fn lemma_no_newline(a: Text, b: Text)
    requires
        !a.contains('\n'),
        !b.contains('\n'),
    ensures
        !(a + b).contains('\n'),
{
    let s = a + b;
    if s.contains('\n') {
        let k = choose|k: int| 0 <= k < s.len() && s[k] == '\n';
        if k < a.len() {
            assert(a.contains(a[k]));
        } else {
            assert(b.contains(b[k - a.len()]));
        }
    }
}

/// Whether a text can stand as a value in front matter as it is: one line without
/// white space or quotes at its ends.
pub open spec fn plain_line(t: Text) -> bool {
    &&& t.len() > 0
    &&& !is_space(t[0])
    &&& !is_space(t.last())
    &&& t[0] != '"'
    &&& t.last() != '"'
    &&& !t.contains('\n')
}

proof fn lemma_value_read(key: Text, t: Text)
    requires
        plain_line(t),
        key == "name:"@ || key == "description:"@,
    ensures
        trimmed(key + " "@ + t) == key + " "@ + t,
        without_prefix(key + " "@ + t, key) == Some(" "@ + t),
        plain_value(" "@ + t) == t,
        key == "description:"@ ==> without_prefix(key + " "@ + t, "name:"@) is None,
        !(key + " "@ + t).contains('\n'),
        (key + " "@ + t).last() != '\r',
{
    reveal_strlit("name:");
    reveal_strlit("description:");
    reveal_strlit(" ");
    let line = key + " "@ + t;
    assert(line[0] == key[0]);
    assert(line.last() == t.last());
    assert(trimmed(line) == line);
    assert(line.take(key.len() as int) =~= key);
    assert(line.skip(key.len() as int) =~= " "@ + t);
    let v = " "@ + t;
    assert(v.drop_first() =~= t);
    assert(trim_start(v) == trim_start(t));
    assert(trim_start(t) == t);
    assert(trimmed(v) == t);
    if key == "description:"@ {
        if "name:"@.is_prefix_of(line) {
            assert(line[0] == "name:"@[0]);
        }
    }
    assert(!key.contains('\n'));
    assert(!" "@.contains('\n'));
    lemma_no_newline(key, " "@);
    lemma_no_newline(key + " "@, t);
}

/// A skill that is written with front matter has the name and the description
/// that stand there, and the rest of the text as its instructions.
pub proof fn law_front_matter_is_read(name: Text, description: Text, body: Text)
    requires
        plain_line(name),
        plain_line(description),
        body.len() > 0,
        body[0] != '\n',
        !is_space(body.last()),
    ensures
        ({
            let m = markdown(
                "---"@ + (seq!['\n'] + ("name:"@ + " "@ + name) + seq!['\n'] + ("description:"@
                    + " "@ + description)) + "\n---"@ + (seq!['\n'] + body),
            );
            &&& m.name == Some(name)
            &&& m.description == Some(description)
            &&& m.content == body
        }),
{
    let a = "name:"@ + " "@ + name;
    let b = "description:"@ + " "@ + description;
    let nl = seq!['\n'];
    let front = nl + a + nl + b;
    let tail = nl + body;
    let mark = "\n---"@;
    let whole = "---"@ + front + mark + tail;
    reveal_strlit("---");
    reveal_strlit("\n---");
    reveal_strlit("name:");
    reveal_strlit("description:");
    lemma_value_read("name:"@, name);
    lemma_value_read("description:"@, description);
    assert(whole[0] == '-' && whole.last() == body.last());
    assert(trimmed(whole) == whole);
    assert(whole.take(3) =~= "---"@);
    let rest = front + mark + tail;
    assert(whole.skip(3) =~= rest);
    assert(!occurs(front, mark)) by {
        if occurs(front, mark) {
            let i = choose|i: int| crate::text::occurs_at(front, mark, i);
            let part = front.subrange(i, i + 4);
            assert(part[0] == front[i] && part[1] == front[i + 1]);
            if i == 0 {
                assert(front[1] == a[0]);
            } else if i < 1 + a.len() {
                assert(a.contains(a[i - 1]));
            } else if i == 1 + a.len() {
                assert(front[i + 1] == b[0]);
            } else {
                assert(b.contains(b[i - 2 - a.len()]));
            }
        }
    }
    crate::text::lemma_found_behind(front, mark, tail);
    let end = front.len() as int;
    assert(rest.take(end) =~= front);
    assert(rest.skip(end + 4) =~= tail);
    assert(tail.drop_first() =~= body);
    assert(trim_start_char(tail, '\n') == trim_start_char(body, '\n'));
    lemma_front_lines(a, b);
    reveal_with_fuel(front_matter, 4);
    let l = lines_of(front);
    assert(l.drop_last() =~= seq![Seq::<char>::empty(), a]);
    assert(l.drop_last().drop_last() =~= seq![Seq::<char>::empty()]);
    assert(l.drop_last().drop_last().drop_last().len() == 0);
    lemma_blank_line();
}

proof fn lemma_blank_line()
    ensures
        trimmed(Seq::<char>::empty()) == Seq::<char>::empty(),
        without_prefix(Seq::<char>::empty(), "name:"@) is None,
        without_prefix(Seq::<char>::empty(), "description:"@) is None,
{
    reveal_strlit("name:");
    reveal_strlit("description:");
}

proof fn lemma_front_lines(a: Text, b: Text)
    requires
        !a.contains('\n'),
        !b.contains('\n'),
        a.len() > 0,
        b.len() > 0,
        a.last() != '\r',
    ensures
        lines_of(seq!['\n'] + a + seq!['\n'] + b) == seq![Seq::<char>::empty(), a, b],
{
    let e = Seq::<char>::empty();
    crate::text::lemma_split_one(e, '\n');
    crate::text::lemma_split_append(e, a, '\n');
    assert(e + seq!['\n'] + a =~= seq!['\n'] + a);
    crate::text::lemma_split_append(seq!['\n'] + a, b, '\n');
    let p = split_on(seq!['\n'] + a + seq!['\n'] + b, '\n');
    assert(p =~= seq![e, a, b]);
    assert(lines_of(seq!['\n'] + a + seq!['\n'] + b) =~= seq![e, a, b]);
}

proof fn lemma_holds_parts(a: Text, b: Text, c: Text, d: Text)
    ensures
        occurs(a + b + c + d, a),
        occurs(a + b + c + d, b),
        occurs(a + b + c + d, c),
{
    let s = a + b + c + d;
    lemma_occurs_itself(a);
    lemma_occurs_itself(b);
    lemma_occurs_itself(c);
    lemma_occurs_within(Seq::empty(), a, b + c + d, a);
    assert(Seq::<char>::empty() + a + (b + c + d) =~= s);
    lemma_occurs_within(a, b, c + d, b);
    assert(a + b + (c + d) =~= s);
    lemma_occurs_within(a + b, c, d, c);
}

/// The instructions of a skill hold its name and all that it says.
pub proof fn law_instructions_are_whole(s: SkillView)
    ensures
        occurs(instructions(s), "# Skill: "@ + s.name + "\n"@),
        occurs(instructions(s), trimmed(s.content)),
        trimmed(s.description).len() > 0 ==> occurs(
            instructions(s),
            "\n"@ + trimmed(s.description) + "\n"@,
        ),
{
    let d = trimmed(s.description);
    let head = "# Skill: "@ + s.name + "\n"@;
    let told = if d.len() == 0 {
        Seq::<char>::empty()
    } else {
        "\n"@ + d + "\n"@
    };
    let described = if d.len() == 0 {
        head
    } else {
        head + "\n"@ + d + "\n"@
    };
    assert(described =~= head + told);
    let body = trimmed(s.content);
    let full = described + "\n"@ + body;
    let end = if full.last() == '\n' {
        Seq::<char>::empty()
    } else {
        seq!['\n']
    };
    assert(instructions(s) =~= full + end);
    lemma_holds_parts(head, told, "\n"@, body + end);
    assert(head + told + "\n"@ + (body + end) =~= full + end);
    lemma_occurs_itself(body);
    lemma_occurs_within(described + "\n"@, body, end, body);
}

/// The line of a skill in the catalog holds its name, its identifier and its
/// description.
pub proof fn law_catalog_line_names_the_skill(s: SkillView)
    ensures
        occurs(catalog_entry(s), "- "@ + s.name + " (id: "@ + s.id + ")"@),
        trimmed(s.description).len() > 0 ==> occurs(catalog_entry(s), trimmed(s.description)),
{
    let d = trimmed(s.description);
    let entry = "- "@ + s.name + " (id: "@ + s.id + ")"@;
    lemma_occurs_itself(entry);
    if d.len() > 0 {
        lemma_holds_parts(entry, ": "@, d, Seq::empty());
        assert(entry + ": "@ + d + Seq::<char>::empty() =~= entry + ": "@ + d);
    }
}

} // verus!
