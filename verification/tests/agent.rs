use tinyinference::agent::{
    capability_allowed, extract_tool_call, inject_skill_catalog_into_messages, plan_tool,
    reply_delta, should_run_agent, strip_think_blocks, AgentRequest, AgentRun, AgentSkills, Heard,
    ReplyReader, ToolCall, ToolPlan, WebSearchDepth, MAX_AGENT_ROUNDS,
};
use tinyinference::chat::{
    completion_url, prepare_payload, prepare_remote_payload, sse_error, upstream_failure,
};
use tinyinference::html::{
    collapse_ws, html_to_readable_text, html_unescape, remove_tag_blocks, strip_tags,
    truncate_chars,
};
use tinyinference::messages::{append_message, instruct, message_json};
use tinyinference::routing::{add_catalog, check_conversation, plain_chat_body, take_server_id};
use tinyinference::search::{
    append_scraped_pages, decode_ddg_href, duckduckgo_instant_answer, duckduckgo_search,
    fetch_page_text, fetch_single_url, fetched_page, parse_ddg_html, percent_decode,
    scrape_targets, scrapeable_url, HttpReply, SearchHit,
};
use tinyinference::skills::UserSkill;

fn member(json: &str, pointer: &str) -> serde_json::Value {
    let value: serde_json::Value = serde_json::from_str(json).unwrap();
    value.pointer(pointer).cloned().unwrap_or(serde_json::Value::Null)
}

fn skill(id: &str, name: &str, content: &str) -> UserSkill {
    UserSkill {
        id: id.into(),
        name: name.into(),
        description: "about it".into(),
        enabled: true,
        content: content.into(),
        source_filename: None,
        created_at: 1,
        updated_at: 2,
    }
}

fn request(messages: &str, skills: AgentSkills) -> AgentRequest {
    AgentRequest {
        messages: messages.into(),
        agent: true,
        skills,
        chat_template_kwargs: None,
        thinking_budget_tokens: None,
        reasoning_effort: None,
    }
}

fn searching() -> AgentSkills {
    AgentSkills { web_search: true, web_search_depth: WebSearchDepth::Light, fetch_url: true }
}

#[test]
fn parses_tool_call_json() {
    let text = r#"Sure.
<tool_call>
{"name":"web_search","arguments":{"query":"rust async"}}
</tool_call>"#;
    let call = extract_tool_call(text).unwrap();
    assert_eq!(call.name, "web_search");
    assert_eq!(member(&call.arguments, "/query"), "rust async");
}

#[test]
fn strips_think_before_tool_parse() {
    let text = r#"<think>plan</think>
<tool_call>
{"name":"web_search","arguments":{"query":"hi"}}
</tool_call>"#;
    let visible = strip_think_blocks(text);
    let call = extract_tool_call(&visible).unwrap();
    assert_eq!(member(&call.arguments, "/query"), "hi");
}

#[test]
fn decodes_ddg_redirect() {
    let href = "//duckduckgo.com/l/?uddg=https%3A%2F%2Fexample.com%2Fpath&rut=x";
    assert_eq!(decode_ddg_href(href), "https://example.com/path");
}

#[test]
fn extracts_readable_text_from_html() {
    let html = r#"<html><head><style>.x{color:red}</style><script>evil()</script></head>
        <body><nav>Skip to content</nav><article><h1>Hello</h1><p>World <b>there</b>.</p></article></body></html>"#;
    let text = html_to_readable_text(html, 500);
    assert!(text.contains("Hello"));
    assert!(text.contains("World there."));
    assert!(!text.contains("evil"));
    assert!(!text.contains("color:red"));
}

#[test]
fn scrape_plan_auto_fetches_pages() {
    assert!(WebSearchDepth::Off.scrape_plan().is_none());
    assert_eq!(WebSearchDepth::Auto.scrape_plan(), Some((3, 2800)));
    assert_eq!(WebSearchDepth::Deep.scrape_plan(), Some((6, 4800)));
}

#[test]
fn skips_binary_result_urls() {
    assert!(scrapeable_url("https://example.com/story"));
    assert!(!scrapeable_url("https://example.com/file.pdf"));
    assert!(!scrapeable_url("ftp://example.com/a"));
}

#[test]
fn fetch_url_capability_gated() {
    let off = AgentSkills::default();
    let on = AgentSkills { fetch_url: true, ..AgentSkills::default() };
    assert!(!capability_allowed("fetch_url", &off, &Vec::new()));
    assert!(capability_allowed("fetch_url", &on, &Vec::new()));
    assert!(on.any_enabled());
    assert!(!off.any_enabled());
}

#[test]
fn fetch_url_rejects_bad_targets() {
    let err = fetch_single_url("ftp://example.com/a").unwrap_err();
    assert!(err.contains("http(s)"));
    let err = fetch_single_url("https://example.com/doc.pdf").unwrap_err();
    assert!(err.contains("http(s)") || err.contains("PDF"));
}

#[test]
fn percent_signs_are_decoded_byte_by_byte() {
    assert_eq!(percent_decode("a%20b"), "a b");
    assert_eq!(percent_decode("%C3%A9"), "é");
    assert_eq!(percent_decode("100%"), "100%");
    assert_eq!(percent_decode("%zz"), "%zz");
    assert_eq!(percent_decode("%ff"), "\u{fffd}");
}

#[test]
fn pages_lose_their_tags_and_entities() {
    assert_eq!(remove_tag_blocks("a<script>x</script>b", "script").replace(' ', ""), "ab");
    assert_eq!(strip_tags("<p>x</p>").replace(' ', ""), "x");
    assert_eq!(html_unescape("a &amp; b &lt;c&gt;"), "a & b <c>");
    assert_eq!(collapse_ws("  a \n b  "), "a b");
    assert_eq!(truncate_chars("héllo", 10), "héllo");
    assert!(truncate_chars("héllo wörld", 4).starts_with("hél"));
}

#[test]
fn result_pages_are_read() {
    let html = r#"<a class="result__a" href="//duckduckgo.com/l/?uddg=https%3A%2F%2Fexample.com%2Fa&rut=1">First &amp; best</a>
        <a class="result__snippet" href="x">What it <b>says</b></a>"#;
    let hits = parse_ddg_html(html);
    assert_eq!(hits.len(), 1);
    assert_eq!(hits[0].url, "https://example.com/a");
    assert_eq!(hits[0].title, "First & best");
    assert!(hits[0].snippet.contains("What it says"));
}

fn page(status: u16, kind: &str, body: &str) -> Result<HttpReply, String> {
    Ok(HttpReply {
        status,
        shown: format!("{status}"),
        content_type: kind.into(),
        body: Ok(body.into()),
    })
}

#[test]
fn pages_that_cannot_be_read_are_told() {
    assert!(fetch_page_text(&Err("refused".into()), 100).is_err());
    assert!(fetch_page_text(&page(404, "text/html", "x"), 100).is_err());
    assert!(fetch_page_text(&page(200, "image/png", "x"), 100).is_err());
    let read = fetch_page_text(&page(200, "text/html", "<p>Hello page, which is long enough.</p>"), 100);
    assert!(read.unwrap().contains("Hello page"));
}

#[test]
fn a_fetched_page_names_its_address() {
    let url = fetch_single_url("https://example.com/story").unwrap();
    assert_eq!(url, "https://example.com/story");
    let shown = fetched_page(&url, Ok("text of it".into())).unwrap();
    assert!(shown.contains("https://example.com/story"));
    assert!(shown.contains("text of it"));
    assert!(fetched_page(&url, Err("timed out".into())).is_err());
}

#[test]
fn searches_without_results_turn_elsewhere() {
    assert!(duckduckgo_search("rust", &page(200, "text/html", "nothing")).unwrap().is_none());
    assert!(duckduckgo_search("rust", &Err("down".into())).is_err());
    let found = duckduckgo_instant_answer(
        "rust",
        r#"{"AbstractText":"A language","AbstractURL":"https://rust-lang.org","RelatedTopics":[]}"#,
    )
    .unwrap();
    assert!(found.text.contains("A language"));
    let refused = duckduckgo_instant_answer("rust", "<html>").unwrap_err();
    assert_eq!(
        refused,
        "Invalid Instant Answer JSON: json: expected value at line 1 column 1"
    );
    assert!(duckduckgo_instant_answer("rust", "[]").unwrap().text.ends_with("No results found."));
}

#[test]
fn pages_are_added_under_their_results() {
    let hits: Vec<SearchHit> = ["https://a.test/1", "https://a.test/x.pdf", "https://a.test/2"]
        .iter()
        .map(|url| SearchHit { title: "t".into(), url: url.to_string(), snippet: "s".into() })
        .collect();
    let targets = scrape_targets(&hits, WebSearchDepth::Light);
    assert!(!targets.is_empty());
    assert!(targets.iter().all(|hit| scrapeable_url(&hit.url)));
    assert!(scrape_targets(&hits, WebSearchDepth::Off).is_empty());
    let pages = targets.iter().map(|_| Ok("page text".to_string())).collect();
    let mut out = "results".to_string();
    append_scraped_pages(&mut out, &targets, WebSearchDepth::Light, &pages);
    assert!(out.starts_with("results"));
    assert!(out.contains("page text"));
}

#[test]
fn agents_run_only_where_something_is_on() {
    let none = Vec::new();
    assert!(!should_run_agent(&request("[]", AgentSkills::default()), &none));
    assert!(should_run_agent(&request("[]", searching()), &none));
    let off = AgentRequest { agent: false, ..request("[]", searching()) };
    assert!(!should_run_agent(&off, &none));
    assert!(should_run_agent(
        &request("[]", AgentSkills::default()),
        &vec![skill("s1", "Review", "body")]
    ));
}

#[test]
fn the_catalog_goes_into_the_system_message() {
    let skills = vec![skill("s1", "Review", "hidden body")];
    let mut messages = r#"[{"role":"user","content":"hi"}]"#.to_string();
    inject_skill_catalog_into_messages(&mut messages, &skills);
    assert_eq!(member(&messages, "/0/role"), "system");
    assert!(member(&messages, "/0/content").as_str().unwrap().contains("Review"));
    assert!(!messages.contains("hidden body"));
    assert_eq!(member(&messages, "/1/content"), "hi");

    let body = add_catalog(r#"{"messages":[{"role":"user","content":"hi"}]}"#, &skills);
    assert_eq!(member(&body, "/messages/0/role"), "system");
    assert_eq!(
        member(&plain_chat_body(r#"{"messages":[],"agent":false}"#, &Vec::new()), "/agent"),
        serde_json::Value::Null
    );
}

#[test]
fn messages_are_appended_and_instructions_lead() {
    let list = append_message("[]", "user", "say \"hi\"");
    assert_eq!(member(&list, "/0/content"), "say \"hi\"");
    let led = instruct(&list, "be brief");
    assert_eq!(member(&led, "/0/role"), "system");
    assert_eq!(member(&led, "/0/content"), "be brief");
    let again = instruct(&led, "be kind");
    let content = member(&again, "/0/content");
    assert!(content.as_str().unwrap().contains("be brief"));
    assert!(content.as_str().unwrap().contains("be kind"));
    assert_eq!(member(&again, "/1/role"), "user");
}

#[test]
fn replies_stream_until_a_call_begins() {
    let mut reader = ReplyReader::new();
    let line = |text: &str| {
        format!("data: {{\"choices\":[{{\"delta\":{{\"content\":{}}}}}]}}", serde_json::Value::from(text))
    };
    assert_eq!(reply_delta(&line("Hello")).as_deref(), Some("Hello"));
    assert!(reply_delta("data: [DONE]").is_none());
    assert!(reader.line(&line("Hello ")).unwrap().contains("Hello "));
    assert!(reader.line(&line("<tool_call>")).unwrap().contains("content_clear"));
    assert!(reader.line(&line("{}")).is_none());
    assert_eq!(reader.finish().unwrap(), "Hello <tool_call>{}");
    assert!(ReplyReader::new().finish().is_err());
}

#[test]
fn a_run_calls_tools_and_then_answers() {
    let (mut run, frame) = AgentRun::begin(
        request(r#"[{"role":"user","content":"hi"}]"#, searching()),
        Vec::new(),
    );
    assert!(frame.starts_with("event: agent\ndata: "));
    let (_, body) = run.ask().unwrap();
    assert_eq!(member(&body, "/messages/0/role"), "system");
    let reply = r#"<tool_call>{"name":"web_search","arguments":{"query":"rust"}}</tool_call>"#;
    match run.hear(reply) {
        Heard::Called(_, call, Ok(ToolPlan::Search(query))) => {
            assert_eq!(call.name, "web_search");
            assert_eq!(query, "rust");
        }
        other => panic!("unexpected: {other:?}"),
    }
    run.resume("web_search", reply, "found it");
    let (_, body) = run.ask().unwrap();
    assert!(body.contains("found it"));
    assert!(matches!(run.hear("All done."), Heard::Answered(_)));
    for _ in 1..MAX_AGENT_ROUNDS {
        run.resume("web_search", reply, "again");
    }
    assert!(run.ask().is_err());
}

#[test]
fn calls_that_are_not_enabled_are_refused() {
    let (run, _) = AgentRun::begin(
        request("[]", AgentSkills { fetch_url: false, ..searching() }),
        Vec::new(),
    );
    let reply = r#"<tool_call>{"name":"fetch_url","arguments":{"url":"https://a.test"}}</tool_call>"#;
    assert!(matches!(run.hear(reply), Heard::Refused(_)));
}

#[test]
fn plans_want_their_arguments() {
    let call = |name: &str, arguments: &str| ToolCall {
        name: name.into(),
        arguments: arguments.into(),
    };
    let skills = vec![skill("s1", "Review", "Be concise.")];
    assert!(plan_tool(&call("web_search", "{}"), &skills).is_err());
    assert!(plan_tool(&call("fetch_url", "{}"), &skills).is_err());
    assert!(plan_tool(&call("unheard_of", "{}"), &skills).is_err());
    assert!(matches!(
        plan_tool(&call("fetch_url", r#"{"url":"https://a.test/x"}"#), &skills),
        Ok(ToolPlan::Fetch(_))
    ));
}

#[test]
fn chat_requests_stream_and_lose_what_is_ours() {
    assert_eq!(completion_url("http://h/v1"), "http://h/v1/chat/completions");
    let remote = prepare_remote_payload(r#"{"messages":[],"agent":true,"skills":{}}"#);
    assert_eq!(member(&remote, "/stream"), true);
    assert_eq!(member(&remote, "/agent"), serde_json::Value::Null);
    let local = prepare_payload(r#"{"messages":[{"role":"user","content":"x"}]}"#);
    assert_eq!(member(&local, "/messages/0/content"), "x");
    let (body, id) = take_server_id(r#"{"server_id":"extra-1","messages":[]}"#);
    assert_eq!(id.as_deref(), Some("extra-1"));
    assert_eq!(member(&body, "/server_id"), serde_json::Value::Null);
    assert!(check_conversation("[]").is_err());
    assert!(check_conversation(r#"[{"role":"user","content":"x"}]"#).is_ok());
}

#[test]
fn failures_are_sent_as_events() {
    let frame = sse_error("it \"broke\"");
    assert!(frame.starts_with("event: error\ndata: "));
    assert!(frame.contains("it \\\"broke\\\""));
    let shown = upstream_failure("llama-server", "502 Bad Gateway", "body");
    assert!(shown.contains("502 Bad Gateway"));
}

/// A name that a JSON reader might give a meaning of its own.
const ODD_NAME: &str = "$serde_json::private::RawValue";

#[test]
fn every_name_of_a_member_is_only_a_name() {
    let sent = prepare_payload(&format!(r#"{{"model":"m","{ODD_NAME}":"5"}}"#));
    assert_eq!(sent, format!(r#"{{"{ODD_NAME}":"5","model":"m","stream":true}}"#));
    let body = format!(r#"{{"agent":true,"skills":{{}},"{ODD_NAME}":"5"}}"#);
    assert_eq!(plain_chat_body(&body, &Vec::new()), format!(r#"{{"{ODD_NAME}":"5"}}"#));
    let list = format!(r#"[{{"role":"user","content":"a","{ODD_NAME}":"5"}}]"#);
    let longer = append_message(&list, "assistant", "b");
    assert!(longer.contains(ODD_NAME));
    assert!(longer.ends_with(r#",{"content":"b","role":"assistant"}]"#));
}

#[test]
fn messages_say_who_speaks() {
    assert_eq!(message_json("user", "a \"b\""), r#"{"content":"a \"b\"","role":"user"}"#);
    let list = r#"[{"role":"user","content":"x","n":1}]"#;
    assert_eq!(
        instruct(list, "be kind"),
        r#"[{"content":"be kind","role":"system"},{"content":"x","n":1,"role":"user"}]"#
    );
    let told = instruct(&instruct(list, "be kind"), "be brief");
    assert!(told.starts_with(r#"[{"content":"be kind\n\nbe brief","role":"system"},"#));
    assert_eq!(append_message("no list", "user", "x"), "no list");
}
