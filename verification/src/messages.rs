//! A conversation: a JSON array of messages.
use vstd::prelude::*;

use crate::chat::{set_member, with_member};
use crate::json::{
    array_at, empty_object, insert_item, is_flat, item_holds, item_pointer, items_kept, json_at,
    json_put_in, json_quoted, json_replaced, plain_key, pointer_of, quote, read_array, read_text,
    replace_value, rest_kept, text_at, Json, JsonView,
};
use crate::text::{decimal, lemma_decimal, same, Text};

verus! {

broadcast use vstd::string::group_string_axioms;

/// What a message of a conversation holds under a name, where it is a text.
pub open spec fn message_text(list: Text, i: nat, field: Text) -> Option<Text> {
    text_at(list, item_pointer(i, field))
}

/// Whether `n` messages from position `a` on stand in another conversation from
/// position `b` on.
pub open spec fn messages_kept(from: Text, a: nat, to: Text, b: nat, n: nat) -> bool {
    forall|j: nat|
        #![trigger message_text(to, j, "role"@)]
        #![trigger message_text(to, j, "content"@)]
        b <= j < b + n ==> message_text(to, j, "role"@) == message_text(
            from,
            (j - b + a) as nat,
            "role"@,
        ) && message_text(to, j, "content"@) == message_text(from, (j - b + a) as nat, "content"@)
}

/// The names of a message's members can stand in a pointer.
proof fn lemma_fields()
    ensures
        plain_key("role"@),
        plain_key("content"@),
        "role"@ != "content"@,
        "/"@ + "role"@ == "/role"@,
        "/"@ + "content"@ == "/content"@,
{
    reveal_strlit("/");
    reveal_strlit("role");
    reveal_strlit("content");
    reveal_strlit("/role");
    reveal_strlit("/content");
    assert("role"@[0] == 'r');
    assert("content"@[0] == 'c');
    assert("/"@ + "role"@ =~= "/role"@);
    assert("/"@ + "content"@ =~= "/content"@);
}

proof fn lemma_items_are_messages(from: Text, a: nat, to: Text, b: nat, n: nat)
    requires
        items_kept(from, a, to, b, n),
    ensures
        messages_kept(from, a, to, b, n),
{
    lemma_fields();
}

/// A message as JSON: who says it, and what is said.
pub open spec fn message_of(role: Text, content: Text) -> Text {
    with_member(
        with_member("{}"@, "role"@, JsonView::Text(role)),
        "content"@,
        JsonView::Text(content),
    )
}

/// A message as JSON.
pub fn message_json(role: &str, content: &str) -> (out: String)
    ensures
        out@ == message_of(role@, content@),
        json_at(out@, ""@) == Some(JsonView::Object),
        is_flat(out@),
        text_at(out@, "/role"@) == Some(role@),
        text_at(out@, "/content"@) == Some(content@),
{
    let said_by = set_member(empty_object().as_str(), "role", &Json::Text(role.to_owned()));
    let out = set_member(said_by.as_str(), "content", &Json::Text(content.to_owned()));
    proof {
        lemma_fields();
        assert(json_at(out@, "/"@ + "role"@) == json_at(said_by@, "/"@ + "role"@));
    }
    out
}

/// A conversation with a message at a position, or as it is where it is no
/// array.
pub open spec fn with_message(list: Text, at: nat, role: Text, content: Text) -> Text {
    match json_put_in(list, at, message_of(role, content)) {
        Some(t) => t,
        None => list,
    }
}

/// Puts a message into a conversation.
fn put_message(list: &str, at: usize, role: &str, content: &str) -> (out: String)
    requires
        array_at(list@, ""@) matches Some(n) && at <= n,
    ensures
        out@ == with_message(list@, at as nat, role@, content@),
        ({
            let n = array_at(list@, ""@)->0;
            &&& array_at(out@, ""@) == Some(n + 1)
            &&& messages_kept(list@, 0, out@, 0, at as nat)
            &&& message_text(out@, at as nat, "role"@) == Some(role@)
            &&& message_text(out@, at as nat, "content"@) == Some(content@)
            &&& messages_kept(list@, at as nat, out@, at as nat + 1, (n - at) as nat)
        }),
{
    let message = message_json(role, content);
    match insert_item(list, at, message.as_str()) {
        Some(t) => {
            proof {
                let n = array_at(list@, ""@)->0;
                lemma_fields();
                lemma_items_are_messages(list@, 0, t@, 0, at as nat);
                lemma_items_are_messages(list@, at as nat, t@, at as nat + 1, (n - at) as nat);
                assert(item_holds(t@, at as nat, message@));
            }
            t
        },
        None => list.to_owned(),
    }
}

/// Where the first message says something.
pub open spec fn first_content() -> Text {
    item_pointer(0, "content"@)
}

/// A conversation whose first message says something else, or as it is where
/// that says nothing.
pub open spec fn saying_first(list: Text, content: Text) -> Text {
    match json_replaced(list, first_content(), json_quoted(content)) {
        Some(t) => t,
        None => list,
    }
}

/// Only what the first message says stands below its pointer.
proof fn lemma_elsewhere(j: nat, field: Text)
    requires
        field == "role"@ || (j > 0 && field == "content"@),
    ensures
        !item_pointer(j, field).contains('~'),
        !first_content().is_prefix_of(item_pointer(j, field)),
        !first_content().contains('~'),
{
    lemma_decimal(j);
    lemma_decimal(0);
    reveal_strlit("/");
    reveal_strlit("role");
    reveal_strlit("content");
    let p = item_pointer(j, field);
    let f = first_content();
    assert(f =~= seq!['/', '0', '/', 'c', 'o', 'n', 't', 'e', 'n', 't']);
    let d = decimal(j);
    assert forall|i: int| 0 <= i < p.len() implies p[i] != '~' by {
        if i == 0 {
            assert(p[i] == '/');
        } else if i < 1 + d.len() {
            assert(p[i] == d[i - 1]);
        } else if i == 1 + d.len() {
            assert(p[i] == '/');
        } else {
            assert(p[i] == field[i - 2 - d.len()]);
        }
    }
    if f.is_prefix_of(p) {
        assert(p[1] == d[0]);
        assert(f[1] == p[1]);
        assert(j == 0);
        assert(p[3] == field[0]);
        assert(f[3] == p[3]);
        assert(false);
    }
}

/// Has the first message say something else.
fn say_first(list: &str, content: &str) -> (out: String)
    requires
        array_at(list@, ""@) matches Some(n) && n > 0,
        message_text(list@, 0, "content"@) is Some,
    ensures
        out@ == saying_first(list@, content@),
        ({
            let n = array_at(list@, ""@)->0;
            &&& array_at(out@, ""@) == Some(n)
            &&& message_text(out@, 0, "role"@) == message_text(list@, 0, "role"@)
            &&& message_text(out@, 0, "content"@) == Some(content@)
            &&& messages_kept(list@, 1, out@, 1, (n - 1) as nat)
        }),
{
    let at = pointer_of(0, "content");
    let said = quote(content);
    match replace_value(list, at.as_str(), said.as_str()) {
        Some(t) => {
            proof {
                let n = array_at(list@, ""@)->0;
                lemma_elsewhere(0, "role"@);
                assert(rest_kept(list@, t@, first_content()));
                assert(!""@.contains('~') && !first_content().is_prefix_of(""@)) by {
                    reveal_strlit("");
                    reveal_strlit("/");
                }
                assert(json_at(t@, ""@) == json_at(t@, ""@));
                let role = item_pointer(0, "role"@);
                assert(json_at(t@, role) == json_at(t@, role));
                assert forall|j: nat|
                    #![trigger message_text(t@, j, "role"@)]
                    #![trigger message_text(t@, j, "content"@)]
                    1 <= j < 1 + (n - 1) implies message_text(t@, j, "role"@) == message_text(
                    list@,
                    (j - 1 + 1) as nat,
                    "role"@,
                ) && message_text(t@, j, "content"@) == message_text(
                    list@,
                    (j - 1 + 1) as nat,
                    "content"@,
                ) by {
                    lemma_elsewhere(j, "role"@);
                    lemma_elsewhere(j, "content"@);
                    let r = item_pointer(j, "role"@);
                    let c = item_pointer(j, "content"@);
                    assert(json_at(t@, r) == json_at(t@, r));
                    assert(json_at(t@, c) == json_at(t@, c));
                }
            }
            t
        },
        None => list.to_owned(),
    }
}

/// How a conversation is given instructions: after those that its first
/// message holds, where that is the system's, and else before everything.
pub open spec fn instructed(list: Text, note: Text) -> Text {
    match array_at(list, ""@) {
        Some(n) => {
            let said = message_text(list, 0, "content"@);
            if n > 0 && message_text(list, 0, "role"@) == Some("system"@) && said is Some {
                saying_first(list, said->0 + "\n\n"@ + note)
            } else {
                with_message(list, 0, "system"@, note)
            }
        },
        None => list,
    }
}

/// Gives a conversation instructions.
pub fn instruct(list: &str, note: &str) -> (out: String)
    ensures
        out@ == instructed(list@, note@),
        array_at(list@, ""@) matches Some(n) ==> {
            let said = message_text(list@, 0, "content"@);
            if n > 0 && message_text(list@, 0, "role"@) == Some("system"@) && said is Some {
                &&& array_at(out@, ""@) == Some(n)
                &&& message_text(out@, 0, "role"@) == Some("system"@)
                &&& message_text(out@, 0, "content"@) == Some(said->0 + "\n\n"@ + note@)
                &&& messages_kept(list@, 1, out@, 1, (n - 1) as nat)
            } else {
                &&& array_at(out@, ""@) == Some(n + 1)
                &&& message_text(out@, 0, "role"@) == Some("system"@)
                &&& message_text(out@, 0, "content"@) == Some(note@)
                &&& messages_kept(list@, 0, out@, 1, n)
            }
        },
{
    let n: usize = match read_array(list, "") {
        Some(n) => n,
        None => {
            return list.to_owned();
        },
    };
    let at_role = pointer_of(0, "role");
    let at_content = pointer_of(0, "content");
    let role = read_text(list, at_role.as_str());
    let said = read_text(list, at_content.as_str());
    let system = match &role {
        Some(r) => same(r.as_str(), "system"),
        None => false,
    };
    if n > 0 && system {
        if let Some(s) = said {
            let mut merged = s;
            merged.append("\n\n");
            merged.append(note);
            return say_first(list, merged.as_str());
        }
    }
    put_message(list, 0, "system", note)
}

/// A conversation with a message added, or as it is where it is no array.
pub open spec fn appended(list: Text, role: Text, content: Text) -> Text {
    match array_at(list, ""@) {
        Some(n) => with_message(list, n, role, content),
        None => list,
    }
}

/// Adds a message at the end of a conversation.
pub fn append_message(list: &str, role: &str, content: &str) -> (out: String)
    ensures
        out@ == appended(list@, role@, content@),
        array_at(list@, ""@) matches Some(n) ==> {
            &&& array_at(out@, ""@) == Some(n + 1)
            &&& message_text(out@, n, "role"@) == Some(role@)
            &&& message_text(out@, n, "content"@) == Some(content@)
            &&& messages_kept(list@, 0, out@, 0, n)
        },
{
    match read_array(list, "") {
        Some(n) => put_message(list, n, role, content),
        None => list.to_owned(),
    }
}

} // verus!
