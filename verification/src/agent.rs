//! Agent mode: a conversation in which the model may call capabilities.
//!
//! The model asks for a capability in a block of its reply, `<tool_call>` and
//! `</tool_call>` around a JSON object with a name and arguments. The result
//! goes back as a message, until a reply holds no call or the rounds are used
//! up.
use vstd::prelude::*;

use crate::json::{array_at, json_at, json_quoted, json_raw, quote, read_json, read_raw, read_text, text_at, Json};
use crate::messages::{
    append_message, appended, instruct, instructed, message_text, messages_kept,
};
use crate::skills::{
    catalog_block, find_skill, instructions, res_view, skill_named, skills, user_skills_catalog_block,
    SkillView, UserSkill,
};
use crate::slot::signed;
use crate::text::{
    chars_of, clip, clipped, contains, decimal, find, find_from, join, joined, lemma_find,
    lemma_find_from, lemma_found_behind, lemma_found_later, lemma_occurs_itself,
    lemma_occurs_within, number, occurs, occurs_at, opt_text, position, position_from, same, slice,
    starts_with, texts, trim, trimmed, Text,
};
use crate::shards::{last_text_position, rfind_text};

verus! {

broadcast use vstd::string::group_string_axioms;

/// How many times the model may be asked in one run.
pub const MAX_AGENT_ROUNDS: usize = 6;

/// How many characters are taken from a page that was asked for.
pub const FETCH_URL_MAX_CHARS: usize = 8000;

/// How many characters of a result are shown.
pub const PREVIEW_CHARS: usize = 240;

/// How many result pages a search opens.
#[derive(Clone, Copy, Debug, PartialEq, Eq, Structural)]
pub enum WebSearchDepth {
    /// Titles and snippets, and no page.
    Off,
    Auto,
    Light,
    Standard,
    Deep,
}

impl Default for WebSearchDepth {
    fn default() -> (r: WebSearchDepth)
        ensures
            r == WebSearchDepth::Auto,
    {
        WebSearchDepth::Auto
    }
}

/// How many pages are opened and how many characters are taken from each.
pub open spec fn plan_of(d: WebSearchDepth) -> Option<(usize, usize)> {
    match d {
        WebSearchDepth::Off => None,
        WebSearchDepth::Auto => Some((3, 2800)),
        WebSearchDepth::Light => Some((2, 1600)),
        WebSearchDepth::Standard => Some((4, 3200)),
        WebSearchDepth::Deep => Some((6, 4800)),
    }
}

/// What a depth is called.
pub open spec fn depth_label(d: WebSearchDepth) -> Text {
    match d {
        WebSearchDepth::Off => "off"@,
        WebSearchDepth::Auto => "auto"@,
        WebSearchDepth::Light => "light"@,
        WebSearchDepth::Standard => "standard"@,
        WebSearchDepth::Deep => "deep"@,
    }
}

impl WebSearchDepth {
    /// How many pages are opened and how many characters are taken from each;
    /// `None` where no page is.
    pub fn scrape_plan(self) -> (r: Option<(usize, usize)>)
        ensures
            r == plan_of(self),
    {
        match self {
            WebSearchDepth::Off => None,
            WebSearchDepth::Auto => Some((3, 2800)),
            WebSearchDepth::Light => Some((2, 1600)),
            WebSearchDepth::Standard => Some((4, 3200)),
            WebSearchDepth::Deep => Some((6, 4800)),
        }
    }

    /// What the depth is called.
    pub fn label(self) -> (r: &'static str)
        ensures
            r@ == depth_label(self),
    {
        match self {
            WebSearchDepth::Off => "off",
            WebSearchDepth::Auto => "auto",
            WebSearchDepth::Light => "light",
            WebSearchDepth::Standard => "standard",
            WebSearchDepth::Deep => "deep",
        }
    }
}

/// The capabilities that are switched on.
#[derive(Clone, Copy, Debug, PartialEq, Eq, Structural)]
pub struct AgentSkills {
    pub web_search: bool,
    pub web_search_depth: WebSearchDepth,
    /// Opens one page that the user gave.
    pub fetch_url: bool,
}

impl Default for AgentSkills {
    fn default() -> (r: AgentSkills)
        ensures
            r == (AgentSkills {
                web_search: false,
                web_search_depth: WebSearchDepth::Auto,
                fetch_url: false,
            }),
    {
        AgentSkills { web_search: false, web_search_depth: WebSearchDepth::Auto, fetch_url: false }
    }
}

impl AgentSkills {
    /// Whether any capability is switched on.
    pub fn any_enabled(&self) -> (r: bool)
        ensures
            r == (self.web_search || self.fetch_url),
    {
        self.web_search || self.fetch_url
    }
}

/// A chat request that may run as an agent.
#[derive(Debug)]
pub struct AgentRequest {
    /// The conversation, as a JSON array.
    pub messages: String,
    pub agent: bool,
    pub skills: AgentSkills,
    /// What the server's template is given, as JSON.
    pub chat_template_kwargs: Option<String>,
    pub thinking_budget_tokens: Option<i64>,
    pub reasoning_effort: Option<String>,
}

/// The view of [`AgentRequest`].
#[verifier::ext_equal]
pub struct RequestView {
    pub messages: Text,
    pub agent: bool,
    pub skills: AgentSkills,
    pub chat_template_kwargs: Option<Text>,
    pub thinking_budget_tokens: Option<i64>,
    pub reasoning_effort: Option<Text>,
}

impl View for AgentRequest {
    type V = RequestView;

    open spec fn view(&self) -> RequestView {
        RequestView {
            messages: self.messages@,
            agent: self.agent,
            skills: self.skills,
            chat_template_kwargs: opt_text(self.chat_template_kwargs),
            thinking_budget_tokens: self.thinking_budget_tokens,
            reasoning_effort: opt_text(self.reasoning_effort),
        }
    }
}

/// Whether a request runs as an agent.
pub fn should_run_agent(request: &AgentRequest, user_skills: &Vec<UserSkill>) -> (r: bool)
    ensures
        r == (request.agent && (request.skills.web_search || request.skills.fetch_url
            || user_skills@.len() > 0)),
{
    request.agent && (request.skills.any_enabled() || user_skills.len() > 0)
}

/// Whether the model may use a capability.
pub open spec fn allowed(name: Text, on: AgentSkills, user: nat) -> bool {
    if name == "web_search"@ {
        on.web_search
    } else if name == "fetch_url"@ {
        on.fetch_url
    } else if name == "activate_skill"@ || name == "read_skill"@ {
        user > 0
    } else {
        false
    }
}

/// Whether the model may use a capability.
pub fn capability_allowed(name: &str, on: &AgentSkills, user_skills: &Vec<UserSkill>) -> (r: bool)
    ensures
        r == allowed(name@, *on, user_skills@.len()),
{
    if same(name, "web_search") {
        on.web_search
    } else if same(name, "fetch_url") {
        on.fetch_url
    } else if same(name, "activate_skill") || same(name, "read_skill") {
        user_skills.len() > 0
    } else {
        false
    }
}

/// What the model is told of how far a search goes.
pub open spec fn depth_note(d: WebSearchDepth) -> Text {
    match plan_of(d) {
        None => "Returns titles, URLs, and snippets only (page fetch depth is off)."@,
        Some(p) => "Also opens up to "@ + decimal(p.0 as nat) + " result pages and extracts ~"@
            + decimal(p.1 as nat) + " characters of text each (depth: "@ + depth_label(d) + ")."@,
    }
}

fn depth_text(d: WebSearchDepth) -> (out: String)
    ensures
        out@ == depth_note(d),
{
    match d.scrape_plan() {
        None => "Returns titles, URLs, and snippets only (page fetch depth is off).".to_owned(),
        Some((pages, chars)) => {
            let mut out = "Also opens up to ".to_owned();
            out.append(number(pages as u64).as_str());
            out.append(" result pages and extracts ~");
            out.append(number(chars as u64).as_str());
            out.append(" characters of text each (depth: ");
            out.append(d.label());
            out.append(").");
            out
        },
    }
}

/// What the model is always told in agent mode.
pub open spec fn agent_rules() -> Seq<Text> {
    seq![
        "You are running in agent mode with callable capabilities."@,
        "When a capability would help, emit EXACTLY one tool call in this form and nothing else after it:"@,
        "<tool_call>"@,
        "{\"name\":\"CAPABILITY_NAME\",\"arguments\":{...}}"@,
        "</tool_call>"@,
        "Do not invent capability results. Wait for a <tool_result> message."@,
        "You may call capabilities multiple times in sequence: after each <tool_result>, either emit another tool_call or reply normally with no tool_call."@,
        "Prefer a follow-up tool_call when the first result is incomplete, stale, or misses what the user asked."@,
        "If you can answer without a capability, reply normally with no tool_call."@,
    ]
}

fn rules() -> (out: Vec<String>)
    ensures
        texts(out@) == agent_rules(),
{
    let out = vec![
        "You are running in agent mode with callable capabilities.".to_owned(),
        "When a capability would help, emit EXACTLY one tool call in this form and nothing else after it:".to_owned(),
        "<tool_call>".to_owned(),
        "{\"name\":\"CAPABILITY_NAME\",\"arguments\":{...}}".to_owned(),
        "</tool_call>".to_owned(),
        "Do not invent capability results. Wait for a <tool_result> message.".to_owned(),
        "You may call capabilities multiple times in sequence: after each <tool_result>, either emit another tool_call or reply normally with no tool_call.".to_owned(),
        "Prefer a follow-up tool_call when the first result is incomplete, stale, or misses what the user asked.".to_owned(),
        "If you can answer without a capability, reply normally with no tool_call.".to_owned(),
    ];
    proof {
        assert(texts(out@) =~= agent_rules());
    }
    out
}

/// What the model is told of searching.
pub open spec fn search_note(d: WebSearchDepth) -> Text {
    "Available capability: web_search — search the public web via DuckDuckGo, then dig into sources. Use this when the user wants you to look something up and has not given a specific URL. "@
        + depth_note(d) + " Arguments: {\"query\":\"search terms\"}."@
}

/// What the model is told of opening a page.
pub open spec fn fetch_note() -> Text {
    "Available capability: fetch_url — open one specific http(s) URL and extract readable page text (~8000 characters). Prefer this over web_search when the user (or a prior result) already gives a concrete URL to view. Arguments: {\"url\":\"https://…\"}."@
}

/// What the model is told of skills.
pub open spec fn activate_note() -> Text {
    "Available capability: activate_skill — load a skill's full SKILL.md instructions into context. Arguments: {\"name\":\"skill name or id\"}. Only activate skills that match the user's request. read_skill is an alias."@
}

/// The lines that tell the model what it may do.
pub open spec fn agent_lines(on: AgentSkills, user: Seq<SkillView>) -> Seq<Text> {
    agent_rules() + (if on.web_search {
        seq![search_note(on.web_search_depth)]
    } else {
        Seq::empty()
    }) + (if on.fetch_url {
        seq![fetch_note()]
    } else {
        Seq::empty()
    }) + (if user.len() > 0 {
        seq![activate_note(), catalog_block(user)]
    } else {
        Seq::empty()
    })
}

/// What the model is told in agent mode.
pub fn agent_system_block(on: &AgentSkills, user_skills: &Vec<UserSkill>) -> (out: String)
    ensures
        out@ == joined(agent_lines(*on, skills(user_skills@)), "\n"@),
{
    let mut all = rules();
    let ghost mut told = agent_rules();
    if on.web_search {
        let mut line =
            "Available capability: web_search — search the public web via DuckDuckGo, then dig into sources. Use this when the user wants you to look something up and has not given a specific URL. ".to_owned();
        line.append(depth_text(on.web_search_depth).as_str());
        line.append(" Arguments: {\"query\":\"search terms\"}.");
        all.push(line);
        proof {
            told = told + seq![search_note(on.web_search_depth)];
            assert(texts(all@) =~= told);
        }
    } else {
        proof {
            told = told + Seq::empty();
            assert(texts(all@) =~= told);
        }
    }
    if on.fetch_url {
        all.push(
            "Available capability: fetch_url — open one specific http(s) URL and extract readable page text (~8000 characters). Prefer this over web_search when the user (or a prior result) already gives a concrete URL to view. Arguments: {\"url\":\"https://…\"}.".to_owned(),
        );
        proof {
            told = told + seq![fetch_note()];
            assert(texts(all@) =~= told);
        }
    } else {
        proof {
            told = told + Seq::empty();
            assert(texts(all@) =~= told);
        }
    }
    if user_skills.len() > 0 {
        all.push(
            "Available capability: activate_skill — load a skill's full SKILL.md instructions into context. Arguments: {\"name\":\"skill name or id\"}. Only activate skills that match the user's request. read_skill is an alias.".to_owned(),
        );
        all.push(user_skills_catalog_block(user_skills));
        proof {
            told = told + seq![activate_note(), catalog_block(skills(user_skills@))];
            assert(texts(all@) =~= told);
        }
    } else {
        proof {
            told = told + Seq::empty();
            assert(texts(all@) =~= told);
        }
    }
    proof {
        assert(told =~= agent_lines(*on, skills(user_skills@)));
    }
    join(&all, "\n")
}

/// What the model is told of the skills outside agent mode.
pub open spec fn catalog_note(user: Seq<SkillView>) -> Text {
    catalog_block(user)
        + "\n\nTo load full skill instructions you need agent mode (toggle Agent or @agent), which exposes activate_skill."@
}

/// Tells the model of the skills; without any the conversation stays as it is.
pub fn inject_skill_catalog_into_messages(messages: &mut String, user_skills: &Vec<UserSkill>)
    ensures
        final(messages)@ == (if catalog_block(skills(user_skills@)).len() == 0 {
            old(messages)@
        } else {
            instructed(old(messages)@, catalog_note(skills(user_skills@)))
        }),
{
    let block = user_skills_catalog_block(user_skills);
    if block.as_str().unicode_len() == 0 {
        return;
    }
    let mut note = block;
    note.append(
        "\n\nTo load full skill instructions you need agent mode (toggle Agent or @agent), which exposes activate_skill.",
    );
    let out = instruct(messages.as_str(), note.as_str());
    *messages = out;
}

/// A line without what ends it.
pub open spec fn without_ending(s: Text) -> Text
    decreases s.len(),
{
    if s.len() > 0 && (s.last() == '\r' || s.last() == '\n') {
        without_ending(s.drop_last())
    } else {
        s
    }
}

fn trim_ending(s: &str) -> (out: String)
    ensures
        out@ == without_ending(s@),
{
    let v = chars_of(s);
    let mut n: usize = v.len();
    proof {
        assert(s@.take(n as int) =~= s@);
    }
    while n > 0 && (v[n - 1] == '\r' || v[n - 1] == '\n')
        invariant
            n <= v.len(),
            v@ == s@,
            without_ending(s@.take(n as int)) == without_ending(s@),
        decreases n,
    {
        proof {
            assert(s@.take(n as int).drop_last() =~= s@.take(n - 1));
        }
        n = n - 1;
    }
    let out = clip(s, n);
    proof {
        assert(out@ =~= s@.take(n as int));
    }
    out
}

/// The piece of a reply that a line of the server's stream carries.
pub open spec fn delta_of(line: Text) -> Option<Text> {
    let t = without_ending(line);
    if !"data:"@.is_prefix_of(t) {
        None
    } else {
        let data = trimmed(t.skip(5));
        if data.len() == 0 || data == "[DONE]"@ {
            None
        } else {
            match text_at(data, "/choices/0/delta/content"@) {
                Some(d) => if d.len() > 0 {
                    Some(d)
                } else {
                    None
                },
                None => None,
            }
        }
    }
}

/// The piece of a reply that a line of the server's stream carries.
pub fn reply_delta(line: &str) -> (r: Option<String>)
    ensures
        opt_text(r) == delta_of(line@),
{
    let t = trim_ending(line);
    if !starts_with(t.as_str(), "data:") {
        return None;
    }
    proof {
        reveal_strlit("data:");
    }
    let n: usize = t.as_str().unicode_len();
    let rest = slice(t.as_str(), 5, n);
    proof {
        assert(rest@ =~= t@.skip(5));
    }
    let data = trim(rest.as_str());
    if data.as_str().unicode_len() == 0 || same(data.as_str(), "[DONE]") {
        return None;
    }
    match read_text(data.as_str(), "/choices/0/delta/content") {
        Some(d) => {
            if d.as_str().unicode_len() > 0 {
                Some(d)
            } else {
                None
            }
        },
        None => None,
    }
}

/// The event that carries what the agent is at.
pub open spec fn agent_event(payload: Text) -> Text {
    "event: agent\ndata: "@ + payload + "\n\n"@
}

/// The event that carries what the agent is at.
pub fn sse_agent(payload: &str) -> (out: String)
    ensures
        out@ == agent_event(payload@),
{
    let mut out = "event: agent\ndata: ".to_owned();
    out.append(payload);
    out.append("\n\n");
    out
}

/// The event that takes back what the page shows of a reply.
pub open spec fn clear_event() -> Text {
    agent_event("{\"phase\":\"content_clear\"}"@)
}

/// The event that says what the agent is doing.
pub open spec fn status_event(message: Text) -> Text {
    agent_event("{\"message\":"@ + json_quoted(message) + ",\"phase\":\"status\"}"@)
}

fn status_frame(message: &str) -> (out: String)
    ensures
        out@ == status_event(message@),
{
    let mut payload = "{\"message\":".to_owned();
    payload.append(quote(message).as_str());
    payload.append(",\"phase\":\"status\"}");
    sse_agent(payload.as_str())
}

/// The event that says which capability is called.
pub open spec fn call_event(c: CallView) -> Text {
    agent_event(
        "{\"arguments\":"@ + c.arguments + ",\"name\":"@ + json_quoted(c.name)
            + ",\"phase\":\"tool_call\"}"@,
    )
}

/// The event that shows the start of a capability's result.
pub open spec fn result_event(name: Text, result: Text) -> Text {
    agent_event(
        "{\"name\":"@ + json_quoted(name) + ",\"ok\":true,\"phase\":\"tool_result\",\"preview\":"@
            + json_quoted(clipped(result, PREVIEW_CHARS as int)) + "}"@,
    )
}

/// The event that carries a piece of a reply.
pub open spec fn content_event(delta: Text) -> Text {
    "data: {\"choices\":[{\"delta\":{\"content\":"@ + json_quoted(delta) + "},\"index\":0}]}\n\n"@
}

fn content_frame(delta: &str) -> (out: String)
    ensures
        out@ == content_event(delta@),
{
    let mut out = "data: {\"choices\":[{\"delta\":{\"content\":".to_owned();
    out.append(quote(delta).as_str());
    out.append("},\"index\":0}]}\n\n");
    out
}

/// A reply while it comes in.
#[derive(Debug)]
pub struct ReplyReader {
    pub content: String,
    /// Whether what comes in is passed on.
    pub forwarding: bool,
}

/// The view of [`ReplyReader`].
#[verifier::ext_equal]
pub struct ReplyView {
    pub content: Text,
    pub forwarding: bool,
}

impl View for ReplyReader {
    type V = ReplyView;

    open spec fn view(&self) -> ReplyView {
        ReplyView { content: self.content@, forwarding: self.forwarding }
    }
}

/// A reply that is passed on holds no call.
pub open spec fn sound_reply(r: ReplyView) -> bool {
    r.forwarding == !occurs(r.content, "<tool_call>"@)
}

/// A reply after a line of the stream, and what the page is told of it.
pub open spec fn reply_step(r: ReplyView, line: Text) -> (ReplyView, Option<Text>) {
    match delta_of(line) {
        None => (r, None),
        Some(d) => {
            let content = r.content + d;
            if r.forwarding && occurs(content, "<tool_call>"@) {
                (ReplyView { content, forwarding: false }, Some(clear_event()))
            } else if r.forwarding {
                (ReplyView { content, forwarding: true }, Some(content_event(d)))
            } else {
                (ReplyView { content, forwarding: false }, None)
            }
        },
    }
}

proof fn lemma_occurs_grows(s: Text, more: Text, p: Text)
    requires
        occurs(s, p),
    ensures
        occurs(s + more, p),
{
    lemma_find(s, p);
    let k = find(s, p)->0;
    assert((s + more).subrange(k, k + p.len()) =~= s.subrange(k, k + p.len()));
    assert(occurs_at(s + more, p, k));
    lemma_find(s + more, p);
}

/// What is passed on of a reply holds no call: once the mark of one has come
/// in, nothing more of the reply is shown.
pub proof fn law_calls_are_not_shown(r: ReplyView, line: Text)
    requires
        sound_reply(r),
    ensures
        sound_reply(reply_step(r, line).0),
        occurs(reply_step(r, line).0.content, "<tool_call>"@) ==> reply_step(r, line).1 is None
            || reply_step(r, line).1 == Some(clear_event()),
{
    match delta_of(line) {
        Some(d) => {
            if occurs(r.content, "<tool_call>"@) {
                lemma_occurs_grows(r.content, d, "<tool_call>"@);
            }
        },
        None => {},
    }
}

impl ReplyReader {
    /// A reply of which nothing has come in.
    pub fn new() -> (r: ReplyReader)
        ensures
            r@ == (ReplyView { content: Seq::empty(), forwarding: true }),
            sound_reply(r@),
    {
        let r = ReplyReader { content: String::new(), forwarding: true };
        proof {
            reveal_strlit("<tool_call>");
            assert(r@.content =~= Seq::<char>::empty());
            lemma_find(r@.content, "<tool_call>"@);
        }
        r
    }

    /// Takes in a line of the stream, and gives what the page is told.
    pub fn line(&mut self, line: &str) -> (r: Option<String>)
        requires
            sound_reply(old(self)@),
        ensures
            (final(self)@, opt_text(r)) == reply_step(old(self)@, line@),
            sound_reply(final(self)@),
    {
        proof {
            law_calls_are_not_shown(self@, line@);
        }
        let delta = match reply_delta(line) {
            Some(d) => d,
            None => {
                return None;
            },
        };
        self.content.append(delta.as_str());
        if self.forwarding && contains(self.content.as_str(), "<tool_call>") {
            self.forwarding = false;
            Some(sse_agent("{\"phase\":\"content_clear\"}"))
        } else if self.forwarding {
            Some(content_frame(delta.as_str()))
        } else {
            None
        }
    }

    /// The whole reply; one without content is an error.
    pub fn finish(&self) -> (r: Result<String, String>)
        ensures
            res_view(r) == (if self@.content.len() == 0 {
                Err("Model returned no message content."@)
            } else {
                Ok(self@.content)
            }),
    {
        if self.content.as_str().unicode_len() == 0 {
            Err("Model returned no message content.".to_owned())
        } else {
            Ok(self.content.clone())
        }
    }
}

/// A text without what stands between two marks; where nothing closes, the
/// rest is left out.
pub open spec fn without_between(s: Text, open: Text, close: Text) -> Text
    decreases s.len(),
{
    match find(s, open) {
        None => s,
        Some(start) => match find_from(s, close, start + open.len()) {
            None => s.take(start),
            Some(end) => {
                let rest = s.take(start) + s.skip(end + close.len());
                if rest.len() < s.len() {
                    without_between(rest, open, close)
                } else {
                    rest
                }
            },
        },
    }
}

fn remove_between(s: &str, open: &str, close: &str) -> (out: String)
    requires
        open@.len() > 0,
    ensures
        out@ == without_between(s@, open@, close@),
{
    let m: usize = open.unicode_len();
    let c: usize = close.unicode_len();
    let mut out = s.to_owned();
    loop
        invariant
            m == open@.len(),
            m > 0,
            c == close@.len(),
            without_between(out@, open@, close@) == without_between(s@, open@, close@),
        decreases out@.len(),
    {
        let n: usize = out.as_str().unicode_len();
        match position(out.as_str(), open) {
            None => {
                return out;
            },
            Some(start) => {
                proof {
                    lemma_find(out@, open@);
                }
                match position_from(out.as_str(), close, start + m) {
                    None => {
                        return clip_at(out.as_str(), start);
                    },
                    Some(end) => {
                        proof {
                            lemma_find_from(out@, close@, start + m);
                        }
                        let mut rest = clip_at(out.as_str(), start);
                        rest.append(slice(out.as_str(), end + c, n).as_str());
                        proof {
                            assert(out@.subrange(end + c, n as int) =~= out@.skip(end + c));
                        }
                        out = rest;
                    },
                }
            },
        }
    }
}

fn clip_at(s: &str, n: usize) -> (out: String)
    requires
        n <= s@.len(),
    ensures
        out@ == s@.take(n as int),
{
    let out = slice(s, 0, n);
    proof {
        assert(out@ =~= s@.take(n as int));
    }
    out
}

/// A reply without the model's thoughts.
pub open spec fn spoken(s: Text) -> Text {
    without_between(
        without_between(s, "<think>"@, "</think>"@),
        "<thinking>"@,
        "</thinking>"@,
    )
}

/// A reply without the model's thoughts.
pub fn strip_think_blocks(text: &str) -> (out: String)
    ensures
        out@ == spoken(text@),
{
    proof {
        reveal_strlit("<think>");
        reveal_strlit("<thinking>");
    }
    let once = remove_between(text, "<think>", "</think>");
    remove_between(once.as_str(), "<thinking>", "</thinking>")
}

proof fn lemma_without_between(s: Text, open: Text, close: Text)
    requires
        open.len() > 0,
    ensures
        !occurs(without_between(s, open, close), open),
    decreases s.len(),
{
    lemma_find(s, open);
    match find(s, open) {
        None => {},
        Some(start) => {
            lemma_find_from(s, close, start + open.len());
            match find_from(s, close, start + open.len()) {
                None => {
                    let t = s.take(start);
                    assert forall|j: int| !occurs_at(t, open, j) by {
                        if occurs_at(t, open, j) {
                            assert(s.subrange(j, j + open.len()) =~= t.subrange(j, j + open.len()));
                            assert(occurs_at(s, open, j));
                        }
                    }
                    lemma_find(t, open);
                },
                Some(end) => {
                    lemma_without_between(s.take(start) + s.skip(end + close.len()), open, close);
                },
            }
        },
    }
}

/// Once the thoughts between one kind of marks are out, none of that kind
/// opens; what is left of a reply opens none of the longer kind, which goes out
/// last.
pub proof fn law_thoughts_are_removed(s: Text)
    ensures
        !occurs(without_between(s, "<think>"@, "</think>"@), "<think>"@),
        !occurs(spoken(s), "<thinking>"@),
{
    reveal_strlit("<think>");
    reveal_strlit("<thinking>");
    lemma_without_between(s, "<think>"@, "</think>"@);
    lemma_without_between(
        without_between(s, "<think>"@, "</think>"@),
        "<thinking>"@,
        "</thinking>"@,
    );
}

/// A capability that the model calls.
#[derive(Debug)]
pub struct ToolCall {
    pub name: String,
    /// The arguments, as JSON.
    pub arguments: String,
}

/// The view of [`ToolCall`].
#[verifier::ext_equal]
pub struct CallView {
    pub name: Text,
    pub arguments: Text,
}

impl View for ToolCall {
    type V = CallView;

    open spec fn view(&self) -> CallView {
        CallView { name: self.name@, arguments: self.arguments@ }
    }
}

/// The view of a call that may be missing.
pub open spec fn opt_call(c: Option<ToolCall>) -> Option<CallView> {
    match c {
        Some(x) => Some(x@),
        None => None,
    }
}

/// The call that a piece of JSON makes.
pub open spec fn call_in(raw: Text) -> Option<CallView> {
    match text_at(raw, "/name"@) {
        Some(n) => if trimmed(n).len() == 0 {
            None
        } else {
            Some(
                CallView {
                    name: trimmed(n),
                    arguments: match json_raw(raw, "/arguments"@) {
                        Some(a) => a,
                        None => "{}"@,
                    },
                },
            )
        },
        None => None,
    }
}

/// The last call that a reply makes.
pub open spec fn call_of(text: Text) -> Option<CallView> {
    match rfind_text(text, "<tool_call>"@, text.len() as int) {
        None => None,
        Some(start) => {
            let after = start + "<tool_call>"@.len();
            match find_from(text, "</tool_call>"@, after) {
                None => None,
                Some(end) => call_in(trimmed(text.subrange(after, end))),
            }
        },
    }
}

/// The last call that a reply makes.
pub fn extract_tool_call(text: &str) -> (r: Option<ToolCall>)
    ensures
        opt_call(r) == call_of(text@),
{
    let n: usize = text.unicode_len();
    let start: usize = match last_text_position(text, "<tool_call>") {
        Some(k) => k,
        None => {
            return None;
        },
    };
    proof {
        reveal_strlit("<tool_call>");
        assert(start + 11 <= n);
    }
    let after: usize = start + 11;
    let end: usize = match position_from(text, "</tool_call>", after) {
        Some(k) => k,
        None => {
            return None;
        },
    };
    proof {
        lemma_find_from(text@, "</tool_call>"@, after as int);
    }
    let raw = trim(slice(text, after, end).as_str());
    let name = match read_text(raw.as_str(), "/name") {
        Some(n) => trim(n.as_str()),
        None => {
            return None;
        },
    };
    if name.as_str().unicode_len() == 0 {
        return None;
    }
    let arguments = match read_raw(raw.as_str(), "/arguments") {
        Some(a) => a,
        None => "{}".to_owned(),
    };
    Some(ToolCall { name, arguments })
}

/// What a call asks for.
#[derive(Debug)]
pub enum ToolPlan {
    /// A search of the web.
    Search(String),
    /// The text of one page.
    Fetch(String),
    /// Nothing that is not here already: the instructions of a skill.
    Answer(String),
}

/// The view of [`ToolPlan`].
pub enum PlanView {
    Search(Text),
    Fetch(Text),
    Answer(Text),
}

impl View for ToolPlan {
    type V = PlanView;

    open spec fn view(&self) -> PlanView {
        match self {
            ToolPlan::Search(q) => PlanView::Search(q@),
            ToolPlan::Fetch(u) => PlanView::Fetch(u@),
            ToolPlan::Answer(t) => PlanView::Answer(t@),
        }
    }
}

/// The view of a plan or of why there is none.
pub open spec fn plan_view(r: Result<ToolPlan, String>) -> Result<PlanView, Text> {
    match r {
        Ok(p) => Ok(p@),
        Err(e) => Err(e@),
    }
}

/// A text that holds more than white space, without that around it.
pub open spec fn filled(t: Option<Text>) -> Option<Text> {
    match t {
        Some(s) => if trimmed(s).len() == 0 {
            None
        } else {
            Some(trimmed(s))
        },
        None => None,
    }
}

fn fill(t: Option<String>) -> (r: Option<String>)
    ensures
        opt_text(r) == filled(opt_text(t)),
{
    match t {
        Some(s) => {
            let out = trim(s.as_str());
            if out.as_str().unicode_len() == 0 {
                None
            } else {
                Some(out)
            }
        },
        None => None,
    }
}

/// Which skill a call's arguments name; the name counts before the identifier.
pub open spec fn skill_key(arguments: Text) -> Option<Text> {
    filled(
        if json_at(arguments, "/name"@) is Some {
            text_at(arguments, "/name"@)
        } else {
            text_at(arguments, "/id"@)
        },
    )
}

/// What a call asks for, or what is wrong with it.
pub open spec fn planned(c: CallView, user: Seq<SkillView>) -> Result<PlanView, Text> {
    if c.name == "web_search"@ {
        match filled(text_at(c.arguments, "/query"@)) {
            Some(q) => Ok(PlanView::Search(q)),
            None => Err("web_search requires a non-empty \"query\" string."@),
        }
    } else if c.name == "fetch_url"@ {
        match filled(text_at(c.arguments, "/url"@)) {
            Some(u) => Ok(PlanView::Fetch(u)),
            None => Err("fetch_url requires a non-empty \"url\" string."@),
        }
    } else if c.name == "activate_skill"@ || c.name == "read_skill"@ {
        match skill_key(c.arguments) {
            Some(key) => match skill_named(user, key) {
                Some(s) => Ok(PlanView::Answer(instructions(s))),
                None => Err(
                    "Unknown skill '"@ + key
                        + "'. Use a name or id from the available skills list."@,
                ),
            },
            None => Err("activate_skill requires a non-empty \"name\" (or \"id\") string."@),
        }
    } else {
        Err("Unknown capability '"@ + c.name + "'."@)
    }
}

/// What a call asks for, or what is wrong with it.
pub fn plan_tool(call: &ToolCall, user_skills: &Vec<UserSkill>) -> (r: Result<ToolPlan, String>)
    ensures
        plan_view(r) == planned(call@, skills(user_skills@)),
{
    let name: &str = call.name.as_str();
    let arguments: &str = call.arguments.as_str();
    if same(name, "web_search") {
        match fill(read_text(arguments, "/query")) {
            Some(q) => Ok(ToolPlan::Search(q)),
            None => Err("web_search requires a non-empty \"query\" string.".to_owned()),
        }
    } else if same(name, "fetch_url") {
        match fill(read_text(arguments, "/url")) {
            Some(u) => Ok(ToolPlan::Fetch(u)),
            None => Err("fetch_url requires a non-empty \"url\" string.".to_owned()),
        }
    } else if same(name, "activate_skill") || same(name, "read_skill") {
        let given = match read_json(arguments, "/name") {
            Some(Json::Text(s)) => Some(s),
            Some(_) => None,
            None => read_text(arguments, "/id"),
        };
        match fill(given) {
            Some(key) => match find_skill(user_skills, key.as_str()) {
                Some(s) => Ok(ToolPlan::Answer(s.full_instructions())),
                None => {
                    let mut e = "Unknown skill '".to_owned();
                    e.append(key.as_str());
                    e.append("'. Use a name or id from the available skills list.");
                    Err(e)
                },
            },
            None => Err(
                "activate_skill requires a non-empty \"name\" (or \"id\") string.".to_owned(),
            ),
        }
    } else {
        let mut e = "Unknown capability '".to_owned();
        e.append(name);
        e.append("'.");
        Err(e)
    }
}

/// What the model is told with a capability's result.
pub open spec fn follow_up(name: Text) -> Text {
    if name == "activate_skill"@ || name == "read_skill"@ {
        "Follow the activated skill instructions for the user's request. You may activate another skill, call web_search, or fetch_url if needed. Otherwise reply normally without a tool_call."@
    } else {
        "Use these results to answer the user. If you need another search, to fetch a specific URL, or to activate a skill, emit another tool_call. Otherwise reply normally without a tool_call."@
    }
}

/// The message that carries a capability's result.
pub open spec fn result_message(name: Text, result: Text) -> Text {
    "<tool_result name=\""@ + name + "\">\n"@ + result + "\n</tool_result>\n\n"@ + follow_up(name)
}

fn result_text(name: &str, result: &str) -> (out: String)
    ensures
        out@ == result_message(name@, result@),
{
    let mut out = "<tool_result name=\"".to_owned();
    out.append(name);
    out.append("\">\n");
    out.append(result);
    out.append("\n</tool_result>\n\n");
    if same(name, "activate_skill") || same(name, "read_skill") {
        out.append(
            "Follow the activated skill instructions for the user's request. You may activate another skill, call web_search, or fetch_url if needed. Otherwise reply normally without a tool_call.",
        );
    } else {
        out.append(
            "Use these results to answer the user. If you need another search, to fetch a specific URL, or to activate a skill, emit another tool_call. Otherwise reply normally without a tool_call.",
        );
    }
    out
}

/// A member of an object, with the comma after it; nothing where there is no
/// value.
pub open spec fn member(key: Text, value: Option<Text>) -> Text {
    match value {
        Some(v) => "\""@ + key + "\":"@ + v + ","@,
        None => Seq::empty(),
    }
}

fn push_member(out: &mut String, key: &str, value: &Option<String>)
    ensures
        final(out)@ == old(out)@ + member(key@, opt_text(*value)),
{
    match value {
        Some(v) => {
            out.append("\"");
            out.append(key);
            out.append("\":");
            out.append(v.as_str());
            out.append(",");
            proof {
                assert(out@ =~= old(out)@ + member(key@, Some(v@)));
            }
        },
        None => {
            proof {
                assert(out@ =~= old(out)@ + Seq::<char>::empty());
            }
        },
    }
}

/// What the server is asked with a conversation.
pub open spec fn completion_body(r: RequestView) -> Text {
    "{"@ + member("chat_template_kwargs"@, r.chat_template_kwargs) + "\"messages\":"@ + r.messages
        + ",\"model\":\"local\","@ + member(
        "reasoning_effort"@,
        match r.reasoning_effort {
            Some(e) => Some(json_quoted(e)),
            None => None,
        },
    ) + "\"stream\":true"@ + (match r.thinking_budget_tokens {
        Some(n) => ",\"thinking_budget_tokens\":"@ + signed(n as int),
        None => Seq::empty(),
    }) + "}"@
}

fn budget_text(n: i64) -> (out: String)
    ensures
        out@ == signed(n as int),
{
    if n < 0 {
        let mut out = "-".to_owned();
        let size: i128 = -(n as i128);
        out.append(number(size as u64).as_str());
        out
    } else {
        number(n as u64)
    }
}

/// What the server is asked with a conversation.
pub fn completion_request(request: &AgentRequest) -> (out: String)
    ensures
        out@ == completion_body(request@),
{
    let mut out = "{".to_owned();
    push_member(&mut out, "chat_template_kwargs", &request.chat_template_kwargs);
    out.append("\"messages\":");
    out.append(request.messages.as_str());
    out.append(",\"model\":\"local\",");
    let effort = match &request.reasoning_effort {
        Some(e) => Some(quote(e.as_str())),
        None => None,
    };
    push_member(&mut out, "reasoning_effort", &effort);
    out.append("\"stream\":true");
    let ghost before = out@;
    match request.thinking_budget_tokens {
        Some(n) => {
            out.append(",\"thinking_budget_tokens\":");
            out.append(budget_text(n).as_str());
            proof {
                assert(out@ =~= before + (",\"thinking_budget_tokens\":"@ + signed(n as int)));
            }
        },
        None => {
            proof {
                assert(out@ =~= before + Seq::<char>::empty());
            }
        },
    }
    out.append("}");
    out
}

/// A run of the agent: its conversation and how often the model was asked.
#[derive(Debug)]
pub struct AgentRun {
    pub request: AgentRequest,
    pub user_skills: Vec<UserSkill>,
    pub round: usize,
}

/// The view of [`AgentRun`].
#[verifier::ext_equal]
pub struct RunView {
    pub request: RequestView,
    pub user_skills: Seq<SkillView>,
    pub round: usize,
}

impl View for AgentRun {
    type V = RunView;

    open spec fn view(&self) -> RunView {
        RunView {
            request: self.request@,
            user_skills: skills(self.user_skills@),
            round: self.round,
        }
    }
}

/// What comes of a reply.
#[derive(Debug)]
pub enum Heard {
    /// The reply was the answer; the last event.
    Answered(String),
    /// The model calls a capability that it may not use.
    Refused(String),
    /// The model calls a capability: the events that say so, the call, and what
    /// it asks for.
    Called(Vec<String>, ToolCall, Result<ToolPlan, String>),
}

/// The view of [`Heard`].
pub enum HeardView {
    Answered(Text),
    Refused(Text),
    Called(Seq<Text>, CallView, Result<PlanView, Text>),
}

impl View for Heard {
    type V = HeardView;

    open spec fn view(&self) -> HeardView {
        match self {
            Heard::Answered(t) => HeardView::Answered(t@),
            Heard::Refused(t) => HeardView::Refused(t@),
            Heard::Called(f, c, p) => HeardView::Called(texts(f@), c@, plan_view(*p)),
        }
    }
}

/// What comes of a reply.
pub open spec fn heard(run: RunView, reply: Text) -> HeardView {
    match call_of(spoken(reply)) {
        None => HeardView::Answered("data: [DONE]\n\n"@),
        Some(c) => if !allowed(c.name, run.request.skills, run.user_skills.len()) {
            HeardView::Refused("Capability '"@ + c.name + "' is not enabled."@)
        } else {
            HeardView::Called(seq![clear_event(), call_event(c)], c, planned(c, run.user_skills))
        },
    }
}

/// A run after a call's result.
pub open spec fn after_result(run: RunView, name: Text, reply: Text, result: Text) -> RunView {
    RunView {
        request: RequestView {
            messages: appended(
                appended(run.request.messages, "assistant"@, reply),
                "user"@,
                result_message(name, result),
            ),
            ..run.request
        },
        round: (run.round + 1) as usize,
        ..run
    }
}

/// The view of what the model is asked.
pub open spec fn asked_view(r: Result<(String, String), String>) -> Result<(Text, Text), Text> {
    match r {
        Ok(p) => Ok((p.0@, p.1@)),
        Err(e) => Err(e@),
    }
}

impl AgentRun {
    /// Starts a run: the conversation is told of the capabilities, and the
    /// page that the agent runs.
    pub fn begin(request: AgentRequest, user_skills: Vec<UserSkill>) -> (r: (AgentRun, String))
        ensures
            r.0@ == (RunView {
                request: RequestView {
                    messages: instructed(
                        request@.messages,
                        joined(agent_lines(request@.skills, skills(user_skills@)), "\n"@),
                    ),
                    ..request@
                },
                user_skills: skills(user_skills@),
                round: 0,
            }),
            r.1@ == status_event("Agent mode"@),
    {
        let block = agent_system_block(&request.skills, &user_skills);
        let messages = instruct(request.messages.as_str(), block.as_str());
        let request = AgentRequest {
            messages,
            agent: request.agent,
            skills: request.skills,
            chat_template_kwargs: request.chat_template_kwargs,
            thinking_budget_tokens: request.thinking_budget_tokens,
            reasoning_effort: request.reasoning_effort,
        };
        (AgentRun { request, user_skills, round: 0 }, status_frame("Agent mode"))
    }

    /// The next time that the model is asked: what the page is told, and the
    /// request. An error once the rounds are used up.
    pub fn ask(&self) -> (r: Result<(String, String), String>)
        ensures
            asked_view(r) == (if self@.round >= MAX_AGENT_ROUNDS {
                Err("Agent stopped after too many tool rounds."@)
            } else {
                Ok(
                    (
                        status_event(
                            if self@.round == 0 {
                                "Thinking…"@
                            } else {
                                "Continuing…"@
                            },
                        ),
                        completion_body(self@.request),
                    ),
                )
            }),
    {
        if self.round >= MAX_AGENT_ROUNDS {
            return Err("Agent stopped after too many tool rounds.".to_owned());
        }
        let frame = if self.round == 0 {
            status_frame("Thinking…")
        } else {
            status_frame("Continuing…")
        };
        Ok((frame, completion_request(&self.request)))
    }

    /// What comes of a reply.
    pub fn hear(&self, reply: &str) -> (r: Heard)
        ensures
            r@ == heard(self@, reply@),
    {
        let visible = strip_think_blocks(reply);
        let call = match extract_tool_call(visible.as_str()) {
            Some(c) => c,
            None => {
                return Heard::Answered("data: [DONE]\n\n".to_owned());
            },
        };
        if !capability_allowed(call.name.as_str(), &self.request.skills, &self.user_skills) {
            let mut e = "Capability '".to_owned();
            e.append(call.name.as_str());
            e.append("' is not enabled.");
            return Heard::Refused(e);
        }
        let mut payload = "{\"arguments\":".to_owned();
        payload.append(call.arguments.as_str());
        payload.append(",\"name\":");
        payload.append(quote(call.name.as_str()).as_str());
        payload.append(",\"phase\":\"tool_call\"}");
        let frames = vec![
            sse_agent("{\"phase\":\"content_clear\"}"),
            sse_agent(payload.as_str()),
        ];
        let plan = plan_tool(&call, &self.user_skills);
        proof {
            assert(texts(frames@) =~= seq![clear_event(), call_event(call@)]);
        }
        Heard::Called(frames, call, plan)
    }

    /// Takes in the result of a call: what the page is shown of it, and the
    /// conversation with the reply and the result.
    pub fn resume(&mut self, name: &str, reply: &str, result: &str) -> (frame: String)
        requires
            old(self)@.round < MAX_AGENT_ROUNDS,
        ensures
            final(self)@ == after_result(old(self)@, name@, reply@, result@),
            frame@ == result_event(name@, result@),
            array_at(old(self)@.request.messages, ""@) matches Some(n) ==> {
                let now = final(self)@.request.messages;
                &&& array_at(now, ""@) == Some(n + 2)
                &&& messages_kept(old(self)@.request.messages, 0, now, 0, n)
                &&& message_text(now, n, "role"@) == Some("assistant"@)
                &&& message_text(now, n, "content"@) == Some(reply@)
                &&& message_text(now, n + 1, "role"@) == Some("user"@)
                &&& message_text(now, n + 1, "content"@) == Some(result_message(name@, result@))
            },
    {
        let preview = clip(result, PREVIEW_CHARS);
        let mut payload = "{\"name\":".to_owned();
        payload.append(quote(name).as_str());
        payload.append(",\"ok\":true,\"phase\":\"tool_result\",\"preview\":");
        payload.append(quote(preview.as_str()).as_str());
        payload.append("}");
        let said = append_message(self.request.messages.as_str(), "assistant", reply);
        let told = append_message(said.as_str(), "user", result_text(name, result).as_str());
        self.request.messages = told;
        self.round = self.round + 1;
        sse_agent(payload.as_str())
    }
}

/// No capability runs that is not switched on: a call is only planned where
/// the model may make it.
pub proof fn law_only_enabled_capabilities_run(run: RunView, reply: Text)
    ensures
        heard(run, reply) matches HeardView::Called(_, c, p) ==> {
            &&& allowed(c.name, run.request.skills, run.user_skills.len())
            &&& p matches Ok(PlanView::Search(_)) ==> run.request.skills.web_search
            &&& p matches Ok(PlanView::Fetch(_)) ==> run.request.skills.fetch_url
            &&& p matches Ok(PlanView::Answer(_)) ==> run.user_skills.len() > 0
        },
{
}

/// Each result uses up one of the rounds, whatever it is, and changes nothing
/// but the conversation.
pub proof fn law_rounds_are_bounded(run: RunView, name: Text, reply: Text, result: Text)
    requires
        run.round < MAX_AGENT_ROUNDS,
    ensures
        ({
            let after = after_result(run, name, reply, result);
            &&& after.round == run.round + 1
            &&& after.user_skills == run.user_skills
            &&& after.request == (RequestView { messages: after.request.messages, ..run.request })
        }),
{
}

proof fn lemma_last_one(s: Text, p: Text, k: int, i: int)
    requires
        occurs_at(s, p, k),
        k <= i,
        forall|j: int| k < j <= i ==> !occurs_at(s, p, j),
    ensures
        rfind_text(s, p, i) == Some(k),
    decreases i - k,
{
    if i > k {
        lemma_last_one(s, p, k, i - 1);
    }
}

proof fn lemma_last_behind(a: Text, p: Text, b: Text)
    requires
        p.len() > 0,
        !occurs(b, p),
        forall|j: int| 0 < j < p.len() ==> #[trigger] p[j] != p[0],
    ensures
        rfind_text(a + p + b, p, (a + p + b).len() as int) == Some(a.len() as int),
{
    let s = a + p + b;
    let k = a.len() as int;
    let n = k + p.len();
    assert(s.subrange(k, n) =~= p);
    assert forall|j: int| k < j <= s.len() implies !occurs_at(s, p, j) by {
        if occurs_at(s, p, j) {
            if j >= n {
                assert(b.subrange(j - n, j - n + p.len()) =~= s.subrange(j, j + p.len()));
                assert(occurs_at(b, p, j - n));
            } else {
                assert(s.subrange(j, j + p.len())[0] == s[j]);
                assert(s[j] == p[j - k]);
            }
        }
    }
    lemma_last_one(s, p, k, s.len() as int);
}

proof fn lemma_call_place(before: Text, raw: Text, after: Text)
    requires
        !occurs(raw + "</tool_call>"@ + after, "<tool_call>"@),
        !occurs(raw, "</tool_call>"@),
    ensures
        call_of(before + "<tool_call>"@ + (raw + "</tool_call>"@ + after)) == call_in(
            trimmed(raw),
        ),
{
    let open = "<tool_call>"@;
    let close = "</tool_call>"@;
    let rest = raw + close + after;
    let s = before + open + rest;
    reveal_strlit("<tool_call>");
    reveal_strlit("</tool_call>");
    lemma_last_behind(before, open, rest);
    lemma_found_behind(raw, close, after);
    lemma_found_later(before + open, rest, close, 0);
    let n = (before.len() + open.len()) as int;
    assert(s.subrange(n, n + raw.len()) =~= raw);
}

/// A call is read from between its marks, the last ones of a reply, whatever is
/// said before and behind: its name is the one between them, and so are its
/// arguments.
pub proof fn law_call_is_read(before: Text, raw: Text, after: Text)
    requires
        !occurs(raw + "</tool_call>"@ + after, "<tool_call>"@),
        !occurs(raw, "</tool_call>"@),
    ensures
        ({
            let c = call_of(before + "<tool_call>"@ + (raw + "</tool_call>"@ + after));
            let name = text_at(trimmed(raw), "/name"@);
            &&& name is None ==> c is None
            &&& name matches Some(n) ==> trimmed(n).len() == 0 ==> c is None
            &&& name matches Some(n) ==> trimmed(n).len() > 0 ==> {
                &&& c matches Some(x)
                &&& x.name == trimmed(n)
                &&& json_raw(trimmed(raw), "/arguments"@) matches Some(a) ==> x.arguments == a
                &&& json_raw(trimmed(raw), "/arguments"@) is None ==> x.arguments == "{}"@
            }
        }),
{
    lemma_call_place(before, raw, after);
}

/// A reply without marks of a call calls nothing, and is the answer.
pub proof fn law_plain_reply_is_the_answer(run: RunView, reply: Text)
    requires
        !occurs(spoken(reply), "<tool_call>"@),
    ensures
        heard(run, reply) is Answered,
{
    let s = spoken(reply);
    lemma_none_found(s, "<tool_call>"@, s.len() as int);
}

proof fn lemma_none_found(s: Text, p: Text, i: int)
    requires
        !occurs(s, p),
    ensures
        rfind_text(s, p, i) is None,
    decreases i + 1,
{
    if i >= 0 {
        lemma_none_found(s, p, i - 1);
    }
}

/// Each capability gets what the call names for it: a search its words, a page
/// its address, a skill its name.
pub proof fn law_capability_gets_its_argument(c: CallView, user: Seq<SkillView>, t: Text)
    requires
        trimmed(t).len() > 0,
    ensures
        c.name == "web_search"@ && text_at(c.arguments, "/query"@) == Some(t) ==> planned(c, user)
            == Ok::<PlanView, Text>(PlanView::Search(trimmed(t))),
        c.name == "fetch_url"@ && text_at(c.arguments, "/url"@) == Some(t) ==> planned(c, user)
            == Ok::<PlanView, Text>(PlanView::Fetch(trimmed(t))),
        (c.name == "activate_skill"@ || c.name == "read_skill"@) && json_at(
            c.arguments,
            "/name"@,
        ) is Some && text_at(c.arguments, "/name"@) == Some(t) ==> match skill_named(
            user,
            trimmed(t),
        ) {
            Some(s) => planned(c, user) == Ok::<PlanView, Text>(PlanView::Answer(instructions(s))),
            None => planned(c, user) is Err,
        },
{
    reveal_strlit("web_search");
    reveal_strlit("fetch_url");
    reveal_strlit("activate_skill");
    reveal_strlit("read_skill");
    assert("web_search"@.len() == 10 && "fetch_url"@.len() == 9 && "activate_skill"@.len() == 14
        && "read_skill"@.len() == 10);
    assert("web_search"@[0] != "read_skill"@[0]);
}

/// What a capability found is told to the model whole, with the name of the
/// capability in front of it.
pub proof fn law_result_is_told(name: Text, result: Text)
    ensures
        occurs(
            result_message(name, result),
            "<tool_result name=\""@ + name + "\">\n"@ + result + "\n</tool_result>"@,
        ),
{
    let told = "<tool_result name=\""@ + name + "\">\n"@ + result + "\n</tool_result>"@;
    reveal_strlit("\n</tool_result>");
    reveal_strlit("\n</tool_result>\n\n");
    reveal_strlit("\n\n");
    assert("\n</tool_result>"@ + "\n\n"@ =~= "\n</tool_result>\n\n"@);
    lemma_occurs_itself(told);
    let rest = "\n\n"@ + follow_up(name);
    lemma_occurs_within(Seq::empty(), told, rest, told);
    let head = "<tool_result name=\""@ + name + "\">\n"@ + result;
    assert(result_message(name, result) =~= head + ("\n</tool_result>"@ + "\n\n"@) + follow_up(
        name,
    ));
    assert(Seq::<char>::empty() + told + rest =~= head + ("\n</tool_result>"@ + "\n\n"@)
        + follow_up(name));
}

/// The model is told of each capability that is switched on, with the depth of
/// the search, and of the skills where there are any, and of nothing else.
pub proof fn law_model_is_told_its_capabilities(on: AgentSkills, user: Seq<SkillView>)
    ensures
        ({
            let l = agent_lines(on, user);
            let n: int = 9;
            let web: int = if on.web_search {
                1
            } else {
                0
            };
            let page: int = if on.fetch_url {
                1
            } else {
                0
            };
            &&& l.len() == n + web + page + (if user.len() > 0 {
                2int
            } else {
                0
            })
            &&& on.web_search ==> l[n] == search_note(on.web_search_depth)
            &&& on.fetch_url ==> l[n + web] == fetch_note()
            &&& user.len() > 0 ==> l[n + web + page] == activate_note() && l[n + web + page + 1]
                == catalog_block(user)
        }),
{
}

/// The search note gives the number of pages and of characters for the depth:
/// deeper searches open more pages and read more of each.
pub proof fn law_deeper_searches_read_more()
    ensures
        plan_of(WebSearchDepth::Off) is None,
        opens_less(WebSearchDepth::Light, WebSearchDepth::Auto),
        opens_less(WebSearchDepth::Auto, WebSearchDepth::Standard),
        opens_less(WebSearchDepth::Standard, WebSearchDepth::Deep),
{
}

/// Whether a search of one depth opens fewer pages than one of another, and reads
/// less of each.
pub open spec fn opens_less(a: WebSearchDepth, b: WebSearchDepth) -> bool {
    match (plan_of(a), plan_of(b)) {
        (Some((pages, chars)), Some((more, longer))) => pages < more && chars < longer,
        _ => false,
    }
}

/// What stands between the marks of a thought goes, and what stands around it
/// stays.
pub proof fn law_thought_goes_alone(before: Text, thought: Text, after: Text)
    requires
        !occurs(before, "<think>"@),
        !occurs(thought, "</think>"@),
        !occurs(before + after, "<think>"@),
        !occurs(before + after, "<thinking>"@),
    ensures
        spoken(before + "<think>"@ + thought + "</think>"@ + after) == before + after,
{
    let open = "<think>"@;
    let close = "</think>"@;
    reveal_strlit("<think>");
    reveal_strlit("</think>");
    let rest = thought + close + after;
    let s = before + open + thought + close + after;
    assert(s =~= before + open + rest);
    lemma_found_behind(before, open, rest);
    lemma_found_behind(thought, close, after);
    lemma_found_later(before + open, rest, close, 0);
    assert(s =~= (before + open) + rest);
    let end = (before.len() + open.len() + thought.len()) as int;
    assert(find(s, open) == Some(before.len() as int));
    assert(find_from(s, close, (before.len() + open.len()) as int) == Some(end));
    assert(s.take(before.len() as int) + s.skip(end + close.len()) =~= before + after);
    reveal_with_fuel(without_between, 3);
    lemma_find(before + after, open);
    lemma_find(before + after, "<thinking>"@);
}

} // verus!
