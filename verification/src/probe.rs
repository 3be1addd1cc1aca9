//! What the managed server answers: HTTP replies, slots, counters and logs.
use vstd::prelude::*;

use crate::config::{Config, ConfigView};
use crate::bind::{connectable, server_host};
use crate::json::{
    array_at, bool_at, count_of, item_pointer, json_at, json_u64, pointer_of, read_array,
    read_bool, read_json, read_text, text_at, Json, JsonView,
};
use crate::text::{
    ascii_words, ascii_words_of, contains, decimal, find, lemma_find, lines, lines_of, lower,
    number, occurs, opt_text, parse, parsed, position, same, slice, split, split_on, starts_with,
    texts, to_lower, trim, trim_end_char, trim_end_matches, trimmed, words, words_of, Text,
};
use crate::shards::{last_text_position, rfind_text};

verus! {

broadcast use vstd::string::group_string_axioms;

/// The request for a path of the managed server: with the key where the
/// settings have one.
pub open spec fn request_text(c: ConfigView, path: Text) -> Text {
    let host = connectable(server_host(c));
    let at = if occurs(host, ":"@) {
        "["@ + host + "]:"@ + decimal(c.server.port as nat)
    } else {
        host + ":"@ + decimal(c.server.port as nat)
    };
    let key = trimmed(c.server.api_key);
    let auth = if key.len() == 0 {
        Seq::empty()
    } else {
        "Authorization: Bearer "@ + key + "\r\n"@
    };
    "GET "@ + path + " HTTP/1.1\r\nHost: "@ + at + "\r\n"@ + auth + "Connection: close\r\n\r\n"@
}

/// The request for a path of the managed server.
pub fn http_request(config: &Config, path: &str) -> (out: String)
    ensures
        out@ == request_text(config@, path@),
{
    let host = config.connect_host();
    let at = if contains(host.as_str(), ":") {
        let mut a = "[".to_owned();
        a.append(host.as_str());
        a.append("]:");
        a.append(number(config.server.port as u64).as_str());
        a
    } else {
        let mut a = host;
        a.append(":");
        a.append(number(config.server.port as u64).as_str());
        a
    };
    let key = trim(config.server.api_key.as_str());
    let auth = if key.as_str().is_empty() {
        String::new()
    } else {
        let mut a = "Authorization: Bearer ".to_owned();
        a.append(key.as_str());
        a.append("\r\n");
        a
    };
    let mut out = "GET ".to_owned();
    out.append(path);
    out.append(" HTTP/1.1\r\nHost: ");
    out.append(at.as_str());
    out.append("\r\n");
    out.append(auth.as_str());
    out.append("Connection: close\r\n\r\n");
    out
}

/// The status and body of a reply: the second word of its first line, and
/// what follows the first blank line.
pub open spec fn reply(response: Text) -> Option<(u16, Text)> {
    let l = lines_of(response);
    if l.len() == 0 {
        None
    } else {
        let w = ascii_words_of(l[0]);
        if w.len() < 2 {
            None
        } else {
            match parsed(w[1], 65535) {
                None => None,
                Some(status) => Some(
                    (
                        status as u16,
                        match find(response, "\r\n\r\n"@) {
                            Some(i) => response.skip(i + 4),
                            None => Seq::empty(),
                        },
                    ),
                ),
            }
        }
    }
}

/// The view of a reply.
pub open spec fn reply_view(o: Option<(u16, String)>) -> Option<(u16, Text)> {
    match o {
        Some(p) => Some((p.0, p.1@)),
        None => None,
    }
}

/// Reads a reply.
pub fn http_reply(response: &str) -> (r: Option<(u16, String)>)
    ensures
        reply_view(r) == reply(response@),
{
    let l = lines(response);
    if l.len() == 0 {
        proof {
            assert(texts(l@).len() == 0);
        }
        return None;
    }
    proof {
        assert(texts(l@)[0] == l@[0]@);
    }
    let w = ascii_words(l[0].as_str());
    if w.len() < 2 {
        proof {
            assert(texts(w@).len() < 2);
        }
        return None;
    }
    proof {
        assert(texts(w@)[1] == w@[1]@);
        reveal_strlit("\r\n\r\n");
        lemma_find(response@, "\r\n\r\n"@);
    }
    match parse(w[1].as_str(), 65535) {
        None => None,
        Some(status) => {
            let body = match position(response, "\r\n\r\n") {
                Some(i) => {
                    let n: usize = response.unicode_len();
                    let b = slice(response, i + 4, n);
                    proof {
                        assert(b@ =~= response@.skip(i + 4));
                    }
                    b
                },
                None => String::new(),
            };
            Some((status as u16, body))
        },
    }
}

/// Whether a reply says that the server is well.
pub open spec fn well(response: Text) -> bool {
    reply(response) matches Some(r) && r.0 == 200
}

/// Whether a reply says that the server is well.
pub fn endpoint_healthy(response: &str) -> (r: bool)
    ensures
        r == well(response@),
{
    match http_reply(response) {
        Some((status, _)) => status == 200,
        None => false,
    }
}

/// What a chat template names where it can think before it answers.
pub open spec fn thinking_marks() -> Seq<Text> {
    seq![
        "<think>"@,
        "</think>"@,
        "<thinking>"@,
        "</thinking>"@,
        "enable_thinking"@,
        "reasoning_effort"@,
        "thinking_budget"@,
        "reasoning_content"@,
        "redacted_thinking"@,
    ]
}

/// Whether a text holds one of the marks.
pub open spec fn marked(t: Text, marks: Seq<Text>) -> bool {
    exists|i: int| 0 <= i < marks.len() && occurs(t, #[trigger] marks[i])
}

/// Whether a chat template can think before it answers.
pub fn template_suggests_thinking(template: &str) -> (r: bool)
    ensures
        r == marked(lower(template@), thinking_marks()),
{
    let low = to_lower(template);
    let t = low.as_str();
    let ghost m = thinking_marks();
    proof {
        assert(m[0] == "<think>"@ && m[1] == "</think>"@ && m[2] == "<thinking>"@ && m[3]
            == "</thinking>"@ && m[4] == "enable_thinking"@ && m[5] == "reasoning_effort"@ && m[6]
            == "thinking_budget"@ && m[7] == "reasoning_content"@ && m[8] == "redacted_thinking"@);
    }
    contains(t, "<think>") || contains(t, "</think>") || contains(t, "<thinking>") || contains(
        t,
        "</thinking>",
    ) || contains(t, "enable_thinking") || contains(t, "reasoning_effort") || contains(
        t,
        "thinking_budget",
    ) || contains(t, "reasoning_content") || contains(t, "redacted_thinking")
}

/// The capabilities that say so outright.
pub open spec fn thinking_flags() -> Seq<Text> {
    seq![
        "supports_thinking"@,
        "enable_thinking"@,
        "supports_enable_thinking"@,
        "supports_reasoning_effort"@,
        "reasoning_budget"@,
        "supports_preserve_reasoning"@,
    ]
}

/// Where a capability stands in the server's properties.
pub open spec fn cap_pointer(flag: Text) -> Text {
    "/chat_template_caps/"@ + flag
}

/// Whether the server's properties say that the model can think: a capability
/// is set, or the chat template names it.
pub open spec fn can_think(body: Text) -> bool {
    ||| json_at(body, "/chat_template_caps"@) == Some(JsonView::Object) && exists|i: int|
        0 <= i < thinking_flags().len() && bool_at(
            body,
            cap_pointer(#[trigger] thinking_flags()[i]),
        ) == Some(true)
    ||| thinks(text_at(body, "/chat_template"@))
}

/// Whether a chat template that may be missing can think.
pub open spec fn thinks(template: Option<Text>) -> bool {
    template matches Some(t) && marked(lower(t), thinking_marks())
}

/// What the properties say, once read: whether one of the capabilities is set,
/// and the chat template.
pub fn thinking_support(flagged: bool, template: &Option<String>) -> (r: bool)
    ensures
        r == (flagged || thinks(opt_text(*template))),
{
    if flagged {
        return true;
    }
    match template {
        Some(t) => template_suggests_thinking(t.as_str()),
        None => false,
    }
}

fn thinking_flag(i: usize) -> (r: &'static str)
    requires
        i < 6,
    ensures
        r@ == thinking_flags()[i as int],
{
    match i {
        0 => "supports_thinking",
        1 => "enable_thinking",
        2 => "supports_enable_thinking",
        3 => "supports_reasoning_effort",
        4 => "reasoning_budget",
        _ => "supports_preserve_reasoning",
    }
}

/// Whether the server's properties say that the model can think.
pub fn thinking_support_from_props(body: &str) -> (r: bool)
    ensures
        r == can_think(body@),
{
    let object: bool = match read_json(body, "/chat_template_caps") {
        Some(Json::Object) => true,
        _ => false,
    };
    let mut flagged: bool = false;
    let mut i: usize = 0;
    while i < 6
        invariant
            i <= 6,
            flagged ==> exists|k: int|
                0 <= k < thinking_flags().len() && bool_at(
                    body@,
                    cap_pointer(#[trigger] thinking_flags()[k]),
                ) == Some(true),
            !flagged ==> forall|k: int|
                0 <= k < i ==> bool_at(body@, cap_pointer(#[trigger] thinking_flags()[k])) != Some(
                    true,
                ),
        decreases 6 - i,
    {
        let mut p = "/chat_template_caps/".to_owned();
        p.append(thinking_flag(i));
        if read_bool(body, p.as_str()) == Some(true) {
            proof {
                assert(bool_at(body@, cap_pointer(thinking_flags()[i as int])) == Some(true));
            }
            flagged = true;
        }
        i = i + 1;
    }
    let template = read_text(body, "/chat_template");
    thinking_support(object && flagged, &template)
}

/// The server's slots: how many tokens those at work have made, and how many
/// are at work.
#[derive(Clone, Copy, Debug, PartialEq, Eq, Structural)]
pub struct SlotsSnapshot {
    pub decoded_tokens: u64,
    pub requests_processing: u64,
}

/// One slot: whether it is at work, and how many tokens it has made.
#[derive(Clone, Copy, Debug, PartialEq, Eq, Structural)]
pub struct Slot {
    pub processing: bool,
    pub decoded: Option<u64>,
}

/// The sum of two counts, at most the greatest there is.
pub open spec fn plus(a: u64, b: u64) -> u64 {
    if a + b > u64::MAX {
        u64::MAX
    } else {
        (a + b) as u64
    }
}

/// What the slots come to.
pub open spec fn slots_sum(s: Seq<Slot>) -> SlotsSnapshot
    decreases s.len(),
{
    if s.len() == 0 {
        SlotsSnapshot { decoded_tokens: 0, requests_processing: 0 }
    } else {
        let init = slots_sum(s.drop_last());
        if s.last().processing {
            SlotsSnapshot {
                decoded_tokens: plus(
                    init.decoded_tokens,
                    match s.last().decoded {
                        Some(n) => n,
                        None => 0,
                    },
                ),
                requests_processing: (init.requests_processing + 1) as u64,
            }
        } else {
            init
        }
    }
}

/// What the slots come to.
pub fn sum_slots(s: &Vec<Slot>) -> (r: SlotsSnapshot)
    ensures
        r == slots_sum(s@),
{
    let mut decoded: u64 = 0;
    let mut busy: u64 = 0;
    let mut i: usize = 0;
    proof {
        assert(s@.take(0) =~= Seq::<Slot>::empty());
    }
    while i < s.len()
        invariant
            i <= s.len(),
            busy <= i,
            slots_sum(s@.take(i as int)) == (SlotsSnapshot {
                decoded_tokens: decoded,
                requests_processing: busy,
            }),
        decreases s.len() - i,
    {
        let slot = s[i];
        proof {
            assert(s@.take(i + 1).drop_last() =~= s@.take(i as int));
        }
        if slot.processing {
            busy = busy + 1;
            let n: u64 = match slot.decoded {
                Some(n) => n,
                None => 0,
            };
            decoded = decoded.saturating_add(n);
        }
        i = i + 1;
    }
    proof {
        assert(s@.take(s@.len() as int) =~= s@);
    }
    SlotsSnapshot { decoded_tokens: decoded, requests_processing: busy }
}

/// A count at a pointer, where there is a number that can be one.
pub open spec fn count_at(body: Text, pointer: Text) -> Option<u64> {
    match json_at(body, pointer) {
        Some(JsonView::Number(n)) => count_of(n),
        _ => None,
    }
}

/// Slot number `i` of the server's list.
pub open spec fn slot_at(body: Text, i: nat) -> Slot {
    Slot {
        processing: bool_at(body, item_pointer(i, "is_processing"@)) == Some(true),
        decoded: count_at(body, item_pointer(i, "next_token/n_decoded"@)),
    }
}

/// What the server's list of slots comes to; `None` where it is no list.
pub open spec fn slots_of(body: Text) -> Option<SlotsSnapshot> {
    match array_at(body, ""@) {
        Some(n) => Some(slots_sum(Seq::new(n, |i: int| slot_at(body, i as nat)))),
        None => None,
    }
}

/// What the server's list of slots comes to.
pub fn parse_slots_snapshot(body: &str) -> (r: Option<SlotsSnapshot>)
    ensures
        r == slots_of(body@),
{
    let n: usize = match read_array(body, "") {
        Some(n) => n,
        None => {
            return None;
        },
    };
    let mut slots: Vec<Slot> = Vec::new();
    let mut i: usize = 0;
    while i < n
        invariant
            i <= n,
            slots.len() == i,
            forall|k: int| 0 <= k < i ==> #[trigger] slots@[k] == slot_at(body@, k as nat),
        decreases n - i,
    {
        let busy = read_bool(body, pointer_of(i, "is_processing").as_str()) == Some(true);
        let decoded: Option<u64> = match read_json(
            body,
            pointer_of(i, "next_token/n_decoded").as_str(),
        ) {
            Some(Json::Number(x)) => json_u64(&x),
            _ => None,
        };
        slots.push(Slot { processing: busy, decoded });
        i = i + 1;
    }
    proof {
        assert(slots@ =~= Seq::new(n as nat, |i: int| slot_at(body@, i as nat)));
    }
    Some(sum_slots(&slots))
}

/// Whether the counters are worth asking for as well: not while tokens come,
/// when only the slots move.
pub open spec fn wants_metrics(requested: bool, slots: Option<SlotsSnapshot>) -> bool {
    requested && !(slots matches Some(s) && s.requests_processing > 0 && s.decoded_tokens > 0)
}

/// Whether the counters are worth asking for as well.
pub fn should_fetch_metrics(requested: bool, slots: &Option<SlotsSnapshot>) -> (r: bool)
    ensures
        r == wants_metrics(requested, *slots),
{
    match slots {
        Some(s) => requested && !(s.requests_processing > 0 && s.decoded_tokens > 0),
        None => requested,
    }
}

/// The value that a line of counters gives for a name.
pub open spec fn metric_on(line: Text, name: Text) -> Option<Text> {
    let w = ascii_words_of(line);
    if !"#"@.is_prefix_of(line) && w.len() >= 2 && split_on(w[0], '{')[0] == name {
        Some(w[1])
    } else {
        None
    }
}

/// The values that the lines of counters give for a name, in order.
pub open spec fn metric_texts(l: Seq<Text>, name: Text) -> Seq<Text>
    decreases l.len(),
{
    if l.len() == 0 {
        Seq::empty()
    } else {
        let init = metric_texts(l.drop_last(), name);
        match metric_on(l.last(), name) {
            Some(v) => init.push(v),
            None => init,
        }
    }
}

/// The values that the server's counters give for a name, in order. The first
/// that is a number counts.
pub fn metric_values(body: &str, name: &str) -> (out: Vec<String>)
    ensures
        texts(out@) == metric_texts(lines_of(body@), name@),
{
    let l = lines(body);
    let ghost t = texts(l@);
    let mut out: Vec<String> = Vec::new();
    let mut i: usize = 0;
    proof {
        assert(t.take(0) =~= Seq::<Text>::empty());
        assert(texts(out@) =~= metric_texts(t.take(0), name@));
    }
    while i < l.len()
        invariant
            t == texts(l@),
            i <= l.len(),
            texts(out@) == metric_texts(t.take(i as int), name@),
        decreases l.len() - i,
    {
        let line = l[i].as_str();
        let ghost was = texts(out@);
        proof {
            assert(t.take(i + 1).drop_last() =~= t.take(i as int));
            assert(t.take(i + 1).last() == line@);
        }
        if !starts_with(line, "#") {
            let w = ascii_words(line);
            let ghost tw = texts(w@);
            if w.len() >= 2 {
                proof {
                    assert(tw[0] == w@[0]@ && tw[1] == w@[1]@);
                }
                let p = split(w[0].as_str(), '{');
                proof {
                    assert(texts(p@)[0] == p@[0]@);
                }
                if same(p[0].as_str(), name) {
                    out.push(w[1].clone());
                    proof {
                        assert(texts(out@) =~= was.push(tw[1]));
                    }
                }
            }
        }
        i = i + 1;
    }
    proof {
        assert(t.take(t.len() as int) =~= t);
    }
    out
}

/// The word after a mark in a line.
pub open spec fn word_after(line: Text, mark: Text) -> Seq<Text> {
    match find(line, mark) {
        Some(i) => {
            let w = words_of(line.skip(i + mark.len()));
            if w.len() > 0 {
                seq![w[0]]
            } else {
                Seq::empty()
            }
        },
        None => Seq::empty(),
    }
}

/// The word before the last unit in a line, without commas at its end.
pub open spec fn word_before(line: Text, unit: Text) -> Seq<Text> {
    match rfind_text(line, unit, line.len() as int) {
        Some(i) => {
            let w = words_of(line.take(i));
            if w.len() > 0 {
                seq![trim_end_char(w.last(), ',')]
            } else {
                Seq::empty()
            }
        },
        None => Seq::empty(),
    }
}

/// The texts of a line that may give the rate of generation, best first: that
/// of a request that ended, then the recent one, then the mean.
pub open spec fn generated_rates(line: Text) -> Seq<Text> {
    (if occurs(line, "eval time ="@) && !occurs(line, "prompt eval"@) {
        word_before(line, "tokens per second"@)
    } else {
        Seq::empty()
    }) + word_after(line, "tg_3s ="@) + word_after(line, ", tg ="@) + word_after(line, " tg ="@)
}

/// The texts of a line that may give the rate of reading the prompt.
pub open spec fn prompt_rates(line: Text) -> Seq<Text> {
    if occurs(line, "prompt processing"@) || occurs(line, "prompt eval time ="@) {
        word_before(line, "tokens per second"@)
    } else {
        Seq::empty()
    }
}

/// The texts of a log line that may give rates, best first. The first that is
/// a positive number counts.
#[derive(Debug)]
pub struct RateTexts {
    pub generated: Vec<String>,
    pub prompt: Vec<String>,
}

fn push_after(out: &mut Vec<String>, line: &str, mark: &str)
    ensures
        texts(final(out)@) == texts(old(out)@) + word_after(line@, mark@),
{
    let ghost was = texts(out@);
    proof {
        lemma_find(line@, mark@);
    }
    match position(line, mark) {
        Some(i) => {
            let m: usize = mark.unicode_len();
            let n: usize = line.unicode_len();
            let rest = slice(line, i + m, n);
            proof {
                assert(rest@ =~= line@.skip(i + m));
            }
            let w = words(rest.as_str());
            let ghost tw = texts(w@);
            if w.len() > 0 {
                proof {
                    assert(tw[0] == w@[0]@);
                }
                out.push(w[0].clone());
            }
            proof {
                assert(texts(out@) =~= was + word_after(line@, mark@));
            }
        },
        None => {
            proof {
                assert(texts(out@) =~= was + word_after(line@, mark@));
            }
        },
    }
}

fn push_before(out: &mut Vec<String>, line: &str, unit: &str)
    ensures
        texts(final(out)@) == texts(old(out)@) + word_before(line@, unit@),
{
    let ghost was = texts(out@);
    match last_text_position(line, unit) {
        Some(i) => {
            let head = slice(line, 0, i);
            proof {
                assert(head@ =~= line@.take(i as int));
            }
            let w = words(head.as_str());
            let ghost tw = texts(w@);
            if w.len() > 0 {
                proof {
                    assert(tw.last() == w@[w@.len() - 1]@);
                }
                out.push(trim_end_matches(w[w.len() - 1].as_str(), ','));
            }
            proof {
                assert(texts(out@) =~= was + word_before(line@, unit@));
            }
        },
        None => {
            proof {
                assert(texts(out@) =~= was + word_before(line@, unit@));
            }
        },
    }
}

/// The texts of a log line that may give rates.
pub fn parse_log_throughput(line: &str) -> (r: RateTexts)
    ensures
        texts(r.generated@) == generated_rates(line@),
        texts(r.prompt@) == prompt_rates(line@),
{
    let mut generated: Vec<String> = Vec::new();
    proof {
        assert(texts(generated@) =~= Seq::<Text>::empty());
    }
    if contains(line, "eval time =") && !contains(line, "prompt eval") {
        push_before(&mut generated, line, "tokens per second");
    }
    proof {
        assert(texts(generated@) =~= (if occurs(line@, "eval time ="@) && !occurs(
            line@,
            "prompt eval"@,
        ) {
            word_before(line@, "tokens per second"@)
        } else {
            Seq::empty()
        }));
    }
    push_after(&mut generated, line, "tg_3s =");
    push_after(&mut generated, line, ", tg =");
    push_after(&mut generated, line, " tg =");
    let mut prompt: Vec<String> = Vec::new();
    if contains(line, "prompt processing") || contains(line, "prompt eval time =") {
        push_before(&mut prompt, line, "tokens per second");
    }
    proof {
        assert(texts(prompt@) =~= prompt_rates(line@));
    }
    RateTexts { generated, prompt }
}

/// Whether the first empty line of a reply stands right behind its head.
pub open spec fn heads(head: Text, s: Text) -> bool {
    &&& crate::text::occurs_at(s, "\r\n\r\n"@, head.len() as int)
    &&& forall|j: int|
        0 <= j < head.len() ==> !#[trigger] crate::text::occurs_at(s, "\r\n\r\n"@, j)
    &&& head.is_prefix_of(s)
}

proof fn lemma_empty_line_found(head: Text, s: Text)
    requires
        heads(head, s),
    ensures
        find(s, "\r\n\r\n"@) == Some(head.len() as int),
{
    crate::text::lemma_find(s, "\r\n\r\n"@);
}

/// The body of a reply is what stands behind its first empty line.
pub proof fn law_body_stands_behind_the_head(head: Text, s: Text)
    requires
        heads(head, s),
    ensures
        reply(s) matches Some(r) ==> r.1 == s.skip(head.len() as int + 4),
{
    lemma_empty_line_found(head, s);
}

/// The status of a reply is the second word of its first line, and only a reply
/// of 200 is a good one.
pub proof fn law_status_is_the_second_word(response: Text, status: u16)
    requires
        lines_of(response).len() > 0,
        ascii_words_of(lines_of(response)[0]).len() >= 2,
        ascii_words_of(lines_of(response)[0])[1] == decimal(status as nat),
    ensures
        reply(response) matches Some(r) && r.0 == status,
        well(response) <==> status == 200,
{
    crate::text::lemma_decimal(status as nat);
    assert(decimal(status as nat)[0] != '+');
}

/// A request asks for the path, and names the key of the server where it has one.
pub proof fn law_request_asks_for_the_path(c: ConfigView, path: Text)
    ensures
        ("GET "@ + path + " HTTP/1.1\r\n"@).is_prefix_of(request_text(c, path)),
        trimmed(c.server.api_key).len() > 0 ==> ("Authorization: Bearer "@ + trimmed(
            c.server.api_key,
        ) + "\r\nConnection: close\r\n\r\n"@).is_suffix_of(request_text(c, path)),
        trimmed(c.server.api_key).len() == 0 ==> (":"@ + decimal(c.server.port as nat)
            + "\r\nConnection: close\r\n\r\n"@).is_suffix_of(request_text(c, path)),
{
    let t = request_text(c, path);
    reveal_strlit(" HTTP/1.1\r\nHost: ");
    reveal_strlit(" HTTP/1.1\r\n");
    reveal_strlit("\r\nConnection: close\r\n\r\n");
    reveal_strlit("Connection: close\r\n\r\n");
    reveal_strlit("\r\n");
    reveal_strlit(":");
    reveal_strlit("]:");
    let a = "GET "@ + path + " HTTP/1.1\r\n"@;
    assert(t.subrange(0, a.len() as int) =~= a);
    let key = trimmed(c.server.api_key);
    if key.len() > 0 {
        let b = "Authorization: Bearer "@ + key + "\r\nConnection: close\r\n\r\n"@;
        assert(t.subrange(t.len() - b.len(), t.len() as int) =~= b);
    } else {
        let b = ":"@ + decimal(c.server.port as nat) + "\r\nConnection: close\r\n\r\n"@;
        assert(t.subrange(t.len() - b.len(), t.len() as int) =~= b);
    }
}

/// The slots that work.
pub open spec fn working(s: Seq<Slot>) -> Seq<Slot>
    decreases s.len(),
{
    if s.len() == 0 {
        Seq::empty()
    } else if s[0].processing {
        seq![s[0]] + working(s.skip(1))
    } else {
        working(s.skip(1))
    }
}

/// What slots have decoded together.
pub open spec fn decoded_by(s: Seq<Slot>) -> nat
    decreases s.len(),
{
    if s.len() == 0 {
        0
    } else {
        (match s[0].decoded {
            Some(n) => n as nat,
            None => 0nat,
        }) + decoded_by(s.skip(1))
    }
}

proof fn lemma_decoded_more(s: Seq<Slot>, x: Slot)
    ensures
        decoded_by(s.push(x)) == decoded_by(s) + (match x.decoded {
            Some(n) => n as nat,
            None => 0nat,
        }),
    decreases s.len(),
{
    let t = s.push(x);
    if s.len() > 0 {
        lemma_decoded_more(s.skip(1), x);
        assert(t.skip(1) =~= s.skip(1).push(x));
        assert(t[0] == s[0]);
    } else {
        assert(t.skip(1) =~= Seq::empty());
        reveal_with_fuel(decoded_by, 2);
    }
}

proof fn lemma_working_last(s: Seq<Slot>)
    requires
        s.len() > 0,
    ensures
        working(s) == if s.last().processing {
            working(s.drop_last()).push(s.last())
        } else {
            working(s.drop_last())
        },
    decreases s.len(),
{
    let init = s.drop_last();
    if s.len() > 1 {
        lemma_working_last(s.skip(1));
        assert(s.skip(1).drop_last() =~= init.skip(1));
        assert(s.skip(1).last() == s.last());
        assert(init[0] == s[0]);
        if s[0].processing && s.last().processing {
            assert(seq![s[0]] + working(init.skip(1)).push(s.last()) =~= (seq![s[0]] + working(
                init.skip(1),
            )).push(s.last()));
        }
    } else {
        assert(s.skip(1) =~= Seq::empty());
        assert(init =~= Seq::empty());
        reveal_with_fuel(working, 2);
        assert(s[0] == s.last());
        assert(seq![s[0]] + Seq::<Slot>::empty() =~= Seq::<Slot>::empty().push(s[0]));
    }
}

/// The slots are summed up as the number of those that work and what those have
/// decoded together.
pub proof fn law_working_slots_are_counted(s: Seq<Slot>)
    requires
        s.len() <= u64::MAX,
    ensures
        slots_sum(s).requests_processing == working(s).len(),
        working(s).len() <= s.len(),
        decoded_by(working(s)) <= u64::MAX ==> slots_sum(s).decoded_tokens == decoded_by(
            working(s),
        ),
    decreases s.len(),
{
    if s.len() > 0 {
        law_working_slots_are_counted(s.drop_last());
        lemma_working_last(s);
        lemma_decoded_more(working(s.drop_last()), s.last());
    }
}

/// A line on reading the prompt tells no rate of writing, unless it names one.
pub proof fn law_prompt_lines_tell_the_prompt(line: Text)
    requires
        occurs(line, "prompt eval"@),
        !occurs(line, "tg_3s ="@),
        !occurs(line, ", tg ="@),
        !occurs(line, " tg ="@),
    ensures
        generated_rates(line).len() == 0,
{
    crate::text::lemma_find(line, "tg_3s ="@);
    crate::text::lemma_find(line, ", tg ="@);
    crate::text::lemma_find(line, " tg ="@);
    if let Some(k) = find(line, "tg_3s ="@) {
        assert(crate::text::occurs_at(line, "tg_3s ="@, k));
    }
    if let Some(k) = find(line, ", tg ="@) {
        assert(crate::text::occurs_at(line, ", tg ="@, k));
    }
    if let Some(k) = find(line, " tg ="@) {
        assert(crate::text::occurs_at(line, " tg ="@, k));
    }
}

} // verus!
