//! Chat requests on their way to a server, and what is told of failures.
use vstd::prelude::*;

use crate::json::{
    bool_at, insert_member, is_flat, json_at, json_inserted, json_quoted, json_removed,
    members_kept, plain_key, quote, read_json, remove_member, Json, JsonView,
};
use crate::text::{trim_end_char, trim_end_matches, Text};

verus! {

broadcast use vstd::string::group_string_axioms;

/// How long a whole streamed reply may take, in seconds.
pub const REQUEST_SECONDS: u64 = 3600;

/// How many pieces of a reply may wait to be taken.
pub const CHANNEL_CAPACITY: usize = 32;

/// Where a server takes chat requests.
pub fn completion_url(api_base: &str) -> (out: String)
    ensures
        out@ == trim_end_char(api_base@, '/') + "/chat/completions"@,
{
    let mut url = trim_end_matches(api_base, '/');
    url.append("/chat/completions");
    url
}

/// An object with a member set; what is no object stays as it is.
pub open spec fn with_member(payload: Text, key: Text, value: JsonView) -> Text {
    match json_inserted(payload, key, value) {
        Some(t) => t,
        None => payload,
    }
}

/// An object with a member set, unless it has one of that name.
pub open spec fn with_default(payload: Text, key: Text, value: JsonView) -> Text {
    if json_at(payload, "/"@ + key) is Some {
        payload
    } else {
        with_member(payload, key, value)
    }
}

/// An object without a member.
pub open spec fn without_member(payload: Text, key: Text) -> Text {
    match json_removed(payload, key) {
        Some(t) => t,
        None => payload,
    }
}

pub(crate) fn set_member(payload: &str, key: &str, value: &Json) -> (out: String)
    requires
        crate::json::is_plain(value@),
    ensures
        out@ == with_member(payload@, key@, value@),
        json_at(payload@, ""@) == Some(JsonView::Object) ==> json_at(out@, ""@) == Some(
            JsonView::Object,
        ) && (plain_key(key@) ==> json_at(out@, "/"@ + key@) == Some(value@)) && members_kept(
            payload@,
            out@,
            key@,
        ) && (is_flat(payload@) ==> is_flat(out@)),
{
    match insert_member(payload, key, value) {
        Some(t) => t,
        None => payload.to_owned(),
    }
}

pub(crate) fn drop_member(payload: &str, key: &str) -> (out: String)
    ensures
        out@ == without_member(payload@, key@),
        json_at(payload@, ""@) == Some(JsonView::Object) ==> json_at(out@, ""@) == Some(
            JsonView::Object,
        ) && (plain_key(key@) ==> json_at(out@, "/"@ + key@) is None) && members_kept(
            payload@,
            out@,
            key@,
        ),
{
    match remove_member(payload, key) {
        Some(t) => t,
        None => payload.to_owned(),
    }
}

/// A request as a server gets it: for a stream, and for some model.
pub open spec fn local_payload(payload: Text) -> Text {
    with_member(
        with_default(payload, "model"@, JsonView::Text("local"@)),
        "stream"@,
        JsonView::Bool(true),
    )
}

pub(crate) proof fn lemma_names()
    ensures
        "/"@ + "agent"@ == "/agent"@,
        "/"@ + "skills"@ == "/skills"@,
        plain_key("agent"@),
        plain_key("skills"@),
        "agent"@ != "skills"@,
        "agent"@ != "model"@,
        "agent"@ != "stream"@,
        "skills"@ != "model"@,
        "skills"@ != "stream"@,
        "agent"@ != "messages"@,
        "skills"@ != "messages"@,
{
    reveal_strlit("/");
    reveal_strlit("model");
    reveal_strlit("stream");
    reveal_strlit("agent");
    reveal_strlit("skills");
    reveal_strlit("messages");
    reveal_strlit("/agent");
    reveal_strlit("/skills");
    assert("/"@ + "agent"@ =~= "/agent"@);
    assert("/"@ + "skills"@ =~= "/skills"@);
    assert("agent"@[0] == 'a');
    assert("skills"@[1] == 'k');
    assert("skills"@[0] == 's');
    assert("model"@[0] == 'm');
    assert("messages"@[0] == 'm');
    assert("stream"@[1] == 't');
}

/// A request as the managed server gets it: where it is an object, it asks for
/// a stream.
pub fn prepare_payload(payload: &str) -> (out: String)
    ensures
        out@ == local_payload(payload@),
        json_at(payload@, ""@) == Some(JsonView::Object) ==> bool_at(out@, "/stream"@) == Some(true)
            && (json_at(payload@, "/agent"@) is None ==> json_at(out@, "/agent"@) is None) && (
        json_at(payload@, "/skills"@) is None ==> json_at(out@, "/skills"@) is None),
{
    let named = match read_json(payload, "/model") {
        Some(_) => payload.to_owned(),
        None => set_member(payload, "model", &Json::Text("local".to_owned())),
    };
    let out = set_member(named.as_str(), "stream", &Json::Bool(true));
    proof {
        reveal_strlit("/");
        reveal_strlit("model");
        reveal_strlit("/model");
        reveal_strlit("stream");
        reveal_strlit("/stream");
        assert("/"@ + "model"@ =~= "/model"@);
        assert("/"@ + "stream"@ =~= "/stream"@);
        lemma_names();
        if json_at(payload@, ""@) == Some(JsonView::Object) {
            let agent = "/"@ + "agent"@;
            let skills = "/"@ + "skills"@;
            assert(json_at(payload@, agent) is None ==> json_at(named@, agent) is None);
            assert(json_at(payload@, agent) is None ==> json_at(out@, agent) is None);
            assert(json_at(payload@, skills) is None ==> json_at(named@, skills) is None);
            assert(json_at(payload@, skills) is None ==> json_at(out@, skills) is None);
        }
    }
    out
}

/// A request as a linked server gets it: without what only this program
/// understands.
pub open spec fn remote_payload(payload: Text) -> Text {
    local_payload(without_member(without_member(payload, "agent"@), "skills"@))
}

/// A request as a linked server gets it: where it is an object, it asks for a
/// stream and holds nothing of what is for this program alone.
pub fn prepare_remote_payload(payload: &str) -> (out: String)
    ensures
        out@ == remote_payload(payload@),
        json_at(payload@, ""@) == Some(JsonView::Object) ==> bool_at(out@, "/stream"@) == Some(true)
            && json_at(out@, "/agent"@) is None && json_at(out@, "/skills"@) is None,
{
    let a = drop_member(payload, "agent");
    let b = drop_member(a.as_str(), "skills");
    proof {
        lemma_names();
        if json_at(payload@, ""@) == Some(JsonView::Object) {
            assert(json_at(a@, "/"@ + "agent"@) is None);
            assert(json_at(b@, "/"@ + "agent"@) is None);
        }
    }
    prepare_payload(b.as_str())
}

/// What is told of a server that answers with another status than success.
pub fn upstream_failure(label: &str, shown: &str, body: &str) -> (out: String)
    ensures
        out@ == label@ + " responded with "@ + shown@ + ": "@ + body@,
{
    let mut out = label.to_owned();
    out.append(" responded with ");
    out.append(shown);
    out.append(": ");
    out.append(body);
    out
}

/// The event that tells of a failure.
pub open spec fn error_event(message: Text) -> Text {
    "event: error\ndata: {\"error\":"@ + json_quoted(message) + "}\n\n"@
}

/// The event that tells of a failure.
pub fn sse_error(message: &str) -> (out: String)
    ensures
        out@ == error_event(message@),
{
    let mut out = "event: error\ndata: {\"error\":".to_owned();
    out.append(quote(message).as_str());
    out.append("}\n\n");
    out
}

} // verus!
