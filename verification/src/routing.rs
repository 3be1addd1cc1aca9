//! Where a chat goes, and what is sent there.
use vstd::prelude::*;

use crate::agent::{catalog_note, inject_skill_catalog_into_messages};
use crate::app::{App, AppView};
use crate::bind::{base_url, law_urls_name_the_server, start_base};
use crate::chat::{drop_member, lemma_names, without_member};
use crate::config::ConfigView;
use crate::instance::ManagedView;
use crate::json::{
    array_at, insert_raw, json_at, json_raw, json_with_raw, members_kept, read_array, read_raw,
    read_text, text_at, JsonView,
};
use crate::messages::instructed;
use crate::network::InferenceMode;
use crate::remotes::{active_link, chat_url, link_ids, openai_base};
use crate::servers::{looked_up, server_at};
use crate::skills::{catalog_block, skills, SkillView, UserSkill};
use crate::slot::ServerStatus;
use crate::text::{
    decimal, index_in, lemma_decimal, lemma_index_in, opt_text, strip_suffix, trim, trim_end_char,
    trim_end_matches, trimmed, without_suffix, Text,
};

verus! {

broadcast use vstd::string::group_string_axioms;

/// Where a chat goes.
#[derive(Debug)]
pub enum ChatTarget {
    /// To a linked server: its chat address, its base address, its key as it is
    /// saved, and the key where there is one.
    Remote { url: String, api_base: String, token: String, key: Option<String> },
    /// To a server of this machine: its base address, the one under which it is
    /// reached where it was started, and the key where there is one.
    Local { api_base: String, reached_at: String, key: Option<String> },
}

/// The view of [`ChatTarget`].
pub enum TargetView {
    Remote { url: Text, api_base: Text, token: Text, key: Option<Text> },
    Local { api_base: Text, reached_at: Text, key: Option<Text> },
}

impl View for ChatTarget {
    type V = TargetView;

    open spec fn view(&self) -> TargetView {
        match self {
            ChatTarget::Remote { url, api_base, token, key } => TargetView::Remote {
                url: url@,
                api_base: api_base@,
                token: token@,
                key: opt_text(*key),
            },
            ChatTarget::Local { api_base, reached_at, key } => TargetView::Local {
                api_base: api_base@,
                reached_at: reached_at@,
                key: opt_text(*key),
            },
        }
    }
}

/// A key that holds more than white space.
pub open spec fn some_key(token: Text) -> Option<Text> {
    if trimmed(token).len() == 0 {
        None
    } else {
        Some(token)
    }
}

fn key_of(token: &str) -> (r: Option<String>)
    ensures
        opt_text(r) == some_key(token@),
{
    if trim(token).as_str().unicode_len() == 0 {
        None
    } else {
        Some(token.to_owned())
    }
}

/// The base address of a chat address.
pub open spec fn chat_base(url: Text) -> Text {
    let u = trim_end_char(url, '/');
    match without_suffix(u, "/chat/completions"@) {
        Some(b) => b,
        None => u,
    }
}

/// Where a chat goes, or why it cannot.
pub open spec fn routed(a: AppView, server_id: Option<Text>) -> Result<TargetView, Text> {
    let n = a.config.network;
    if n.inference_mode == InferenceMode::Remote {
        match (active_link(n), chat_url(n)) {
            (None, _) => Err("Remote inference is selected but no linked LLM is configured."@),
            (Some(_), None) => Err("Remote inference is selected but no remote URL is configured."@),
            (Some(r), Some(url)) => Ok(
                TargetView::Remote {
                    url,
                    api_base: chat_base(url),
                    token: r.token,
                    key: some_key(r.token),
                },
            ),
        }
    } else {
        let id = match server_id {
            Some(id) => id,
            None => a.active_server_id,
        };
        match looked_up(a, id) {
            None => Err(
                "The selected model server is not running. Start it from the dashboard first."@,
            ),
            Some(l) => if !l.ready {
                Err("The selected model server is not ready yet."@)
            } else {
                Ok(
                    TargetView::Local {
                        api_base: base_url(l.config) + "/v1"@,
                        reached_at: start_base(l.config) + "/v1"@,
                        key: some_key(l.config.server.api_key),
                    },
                )
            },
        }
    }
}

/// The view of where a chat goes.
pub open spec fn target_view(r: Result<ChatTarget, String>) -> Result<TargetView, Text> {
    match r {
        Ok(t) => Ok(t@),
        Err(e) => Err(e@),
    }
}

impl App {
    /// Where a chat goes: to the linked server where one is chosen, else to the
    /// server that it names or that is looked at, once that is ready.
    pub fn route_chat(&self, server_id: &Option<String>) -> (r: Result<ChatTarget, String>)
        ensures
            target_view(r) == routed(self@, opt_text(*server_id)),
    {
        let network = &self.config.network;
        if network.inference_mode == InferenceMode::Remote {
            let token = match network.active_remote() {
                Some(x) => x.token.clone(),
                None => {
                    return Err(
                        "Remote inference is selected but no linked LLM is configured.".to_owned(),
                    );
                },
            };
            let url = match network.remote_chat_url() {
                Some(u) => u,
                None => {
                    return Err(
                        "Remote inference is selected but no remote URL is configured.".to_owned(),
                    );
                },
            };
            let trimmed_url = trim_end_matches(url.as_str(), '/');
            let api_base = match strip_suffix(trimmed_url.as_str(), "/chat/completions") {
                Some(b) => b,
                None => trimmed_url,
            };
            let key = key_of(token.as_str());
            return Ok(ChatTarget::Remote { url, api_base, token, key });
        }
        let id: &str = match server_id {
            Some(id) => id.as_str(),
            None => self.active_server_id.as_str(),
        };
        match self.server_by_id(id) {
            None => Err(
                "The selected model server is not running. Start it from the dashboard first.".to_owned(),
            ),
            Some(l) => {
                if !l.ready {
                    Err("The selected model server is not ready yet.".to_owned())
                } else {
                    let mut reached_at = l.config.start_url();
                    reached_at.append("/v1");
                    Ok(
                        ChatTarget::Local {
                            api_base: l.config.api_endpoint(),
                            reached_at,
                            key: key_of(l.config.server.api_key.as_str()),
                        },
                    )
                }
            },
        }
    }
}

/// The server that a chat names, and the chat without that.
pub fn take_server_id(body: &str) -> (r: (String, Option<String>))
    ensures
        r.0@ == without_member(body@, "server_id"@),
        opt_text(r.1) == text_at(body@, "/server_id"@),
        json_at(body@, ""@) == Some(JsonView::Object) ==> json_at(r.0@, ""@) == Some(
            JsonView::Object,
        ) && json_at(r.0@, "/server_id"@) is None,
{
    let id = read_text(body, "/server_id");
    let rest = drop_member(body, "server_id");
    proof {
        reveal_strlit("/");
        reveal_strlit("server_id");
        reveal_strlit("/server_id");
        assert("/"@ + "server_id"@ =~= "/server_id"@);
    }
    (rest, id)
}

/// A chat whose conversation is told of the skills.
pub open spec fn with_catalog(body: Text, user: Seq<SkillView>) -> Text {
    match (array_at(body, "/messages"@), json_raw(body, "/messages"@)) {
        (Some(_), Some(list)) => if catalog_block(user).len() == 0 {
            body
        } else {
            match json_with_raw(body, "messages"@, instructed(list, catalog_note(user))) {
                Some(t) => t,
                None => body,
            }
        },
        _ => body,
    }
}

/// Tells a chat's conversation of the skills. What else the chat holds is kept,
/// as far as it does not nest too deeply to be read again.
pub fn add_catalog(body: &str, user_skills: &Vec<UserSkill>) -> (out: String)
    ensures
        out@ == with_catalog(body@, skills(user_skills@)),
        json_at(out@, ""@) is Some ==> members_kept(body@, out@, "messages"@),
{
    if read_array(body, "/messages").is_none() {
        return body.to_owned();
    }
    let mut list = match read_raw(body, "/messages") {
        Some(t) => t,
        None => {
            return body.to_owned();
        },
    };
    let block = crate::skills::user_skills_catalog_block(user_skills);
    if block.as_str().unicode_len() == 0 {
        return body.to_owned();
    }
    inject_skill_catalog_into_messages(&mut list, user_skills);
    match insert_raw(body, "messages", list.as_str()) {
        Some(t) => t,
        None => body.to_owned(),
    }
}

/// A plain chat as it goes to a server of this machine: without what is for the
/// agent, and with the skills told.
pub open spec fn plain_chat(body: Text, user: Seq<SkillView>) -> Text {
    with_catalog(without_member(without_member(body, "agent"@), "skills"@), user)
}

/// A plain chat as it goes to a server of this machine.
pub fn plain_chat_body(body: &str, user_skills: &Vec<UserSkill>) -> (out: String)
    ensures
        out@ == plain_chat(body@, skills(user_skills@)),
        json_at(body@, ""@) == Some(JsonView::Object) && json_at(out@, ""@) is Some ==> json_at(
            out@,
            "/agent"@,
        ) is None && json_at(out@, "/skills"@) is None,
{
    let a = drop_member(body, "agent");
    let b = drop_member(a.as_str(), "skills");
    let out = add_catalog(b.as_str(), user_skills);
    proof {
        lemma_names();
        if json_at(body@, ""@) == Some(JsonView::Object) && json_at(out@, ""@) is Some {
            assert(json_at(a@, "/"@ + "agent"@) is None);
            assert(json_at(b@, "/"@ + "agent"@) is None);
            assert(json_at(b@, "/"@ + "skills"@) is None);
            assert(json_at(out@, "/"@ + "agent"@) is None);
            assert(json_at(out@, "/"@ + "skills"@) is None);
        }
    }
    out
}

/// Whether an agent's conversation can be run: an empty one is refused.
pub fn check_conversation(messages: &str) -> (r: Result<(), String>)
    ensures
        match r {
            Ok(()) => array_at(messages@, ""@) != Some(0nat),
            Err(e) => array_at(messages@, ""@) == Some(0nat) && e@ == "messages must not be empty"@,
        },
{
    match read_array(messages, "") {
        Some(0) => Err("messages must not be empty".to_owned()),
        _ => Ok(()),
    }
}

/// A chat stays on this machine unless a linked server is chosen, and never
/// goes to a server that is not ready.
pub proof fn law_chats_go_where_they_are_sent(a: AppView, server_id: Option<Text>)
    ensures
        routed(a, server_id) matches Ok(TargetView::Remote { .. }) ==> a.config.network.inference_mode
            == InferenceMode::Remote && active_link(a.config.network) is Some,
        routed(a, server_id) matches Ok(TargetView::Local { .. }) ==> {
            let id = match server_id {
                Some(id) => id,
                None => a.active_server_id,
            };
            looked_up(a, id) matches Some(l) && l.ready
        },
{
}

proof fn lemma_named_server(s: Seq<ManagedView>, id: Text, i: int, from: int)
    requires
        0 <= from <= i < s.len(),
        s[i].id == id,
        forall|j: int| 0 <= j < i ==> (#[trigger] s[j]).id != id,
    ensures
        server_at(s, id, from) == Some(i),
    decreases i - from,
{
    if from < i {
        lemma_named_server(s, id, i, from + 1);
    }
}

/// Whether a chat goes to the server that runs with these settings: to its
/// address and its port, with its key.
pub open spec fn goes_to(t: Result<TargetView, Text>, c: ConfigView) -> bool {
    &&& t matches Ok(TargetView::Local { api_base, reached_at, key })
    &&& api_base == base_url(c) + "/v1"@
    &&& reached_at == start_base(c) + "/v1"@
    &&& (":"@ + decimal(c.server.port as nat) + "/v1"@).is_suffix_of(api_base)
    &&& (":"@ + decimal(c.server.port as nat) + "/v1"@).is_suffix_of(reached_at)
    &&& trimmed(c.server.api_key).len() == 0 ==> key is None
    &&& trimmed(c.server.api_key).len() > 0 ==> key == Some(c.server.api_key)
}

proof fn lemma_addresses_end(c: ConfigView)
    ensures
        (":"@ + decimal(c.server.port as nat) + "/v1"@).is_suffix_of(base_url(c) + "/v1"@),
        (":"@ + decimal(c.server.port as nat) + "/v1"@).is_suffix_of(start_base(c) + "/v1"@),
{
    law_urls_name_the_server(c);
    let tail = ":"@ + decimal(c.server.port as nat);
    let b = base_url(c);
    let w = start_base(c);
    assert((b + "/v1"@).skip((b + "/v1"@).len() - (tail + "/v1"@).len()) =~= b.skip(
        b.len() - tail.len(),
    ) + "/v1"@);
    assert((w + "/v1"@).skip((w + "/v1"@).len() - (tail + "/v1"@).len()) =~= w.skip(
        w.len() - tail.len(),
    ) + "/v1"@);
}

/// A chat that names a further server, which is ready, goes to that server: with
/// the settings that it runs with, whatever the settings page says.
pub proof fn law_chat_goes_to_the_named_server(a: AppView, i: int)
    requires
        a.config.network.inference_mode != InferenceMode::Remote,
        0 <= i < a.extra_servers.len(),
        a.extra_servers[i].id != "main"@,
        forall|j: int| 0 <= j < i ==> (#[trigger] a.extra_servers[j]).id != a.extra_servers[i].id,
        a.extra_servers[i].slot.status == ServerStatus::Ready,
        a.extra_servers[i].slot.endpoint_online,
    ensures
        goes_to(routed(a, Some(a.extra_servers[i].id)), a.extra_servers[i].running_config),
{
    lemma_named_server(a.extra_servers, a.extra_servers[i].id, i, 0);
    lemma_addresses_end(a.extra_servers[i].running_config);
}

/// A chat that names the first server, which is ready, goes to it, with the
/// settings that it runs with.
pub proof fn law_chat_goes_to_the_first_server(a: AppView)
    requires
        a.config.network.inference_mode != InferenceMode::Remote,
        a.running_config is Some,
        a.slot.process is Some,
        a.slot.status == ServerStatus::Ready,
        a.slot.endpoint_online,
    ensures
        goes_to(routed(a, Some("main"@)), a.running_config->0),
{
    lemma_addresses_end(a.running_config->0);
}

/// A chat that names no server goes where one goes that names the server that is
/// looked at.
pub proof fn law_chat_goes_to_the_server_looked_at(a: AppView)
    ensures
        routed(a, None) == routed(a, Some(a.active_server_id)),
{
}

/// Chats that name servers on different ports go to different addresses.
pub proof fn law_ports_tell_servers_apart(
    s: Result<TargetView, Text>,
    c: ConfigView,
    t: Result<TargetView, Text>,
    d: ConfigView,
)
    requires
        goes_to(s, c),
        goes_to(t, d),
        c.server.port != d.server.port,
    ensures
        s->Ok_0->Local_api_base != t->Ok_0->Local_api_base,
        s->Ok_0->Local_reached_at != t->Ok_0->Local_reached_at,
{
    lemma_ports_differ(s->Ok_0->Local_api_base, c.server.port, d.server.port);
    lemma_ports_differ(s->Ok_0->Local_reached_at, c.server.port, d.server.port);
}

proof fn lemma_ports_differ(u: Text, p: u16, q: u16)
    requires
        (":"@ + decimal(p as nat) + "/v1"@).is_suffix_of(u),
        p != q,
    ensures
        !(":"@ + decimal(q as nat) + "/v1"@).is_suffix_of(u),
{
    let a = decimal(p as nat);
    let b = decimal(q as nat);
    let x = ":"@ + a + "/v1"@;
    let y = ":"@ + b + "/v1"@;
    reveal_strlit(":");
    reveal_strlit("/v1");
    lemma_decimal(p as nat);
    lemma_decimal(q as nat);
    if y.is_suffix_of(u) {
        let n = u.len() as int;
        assert(u.subrange(n - x.len(), n) =~= x);
        assert(u.subrange(n - y.len(), n) =~= y);
        if a.len() == b.len() {
            assert(a =~= x.subrange(1, 1 + a.len() as int));
            assert(b =~= y.subrange(1, 1 + b.len() as int));
            assert(a == b);
        } else if a.len() < b.len() {
            assert(x[0] == ':');
            assert(y[b.len() - a.len()] == b[b.len() - a.len() - 1]);
            assert(u[n - x.len()] == x[0]);
            assert(u[n - x.len()] == y[b.len() - a.len()]);
        } else {
            assert(y[0] == ':');
            assert(x[a.len() - b.len()] == a[a.len() - b.len() - 1]);
            assert(u[n - y.len()] == y[0]);
            assert(u[n - y.len()] == x[a.len() - b.len()]);
        }
    }
}

/// A chat for the linked device goes to the base of the active link, with its
/// token, whichever server of this machine is named.
pub proof fn law_chat_goes_to_the_active_link(a: AppView, server_id: Option<Text>, i: int)
    requires
        a.config.network.inference_mode == InferenceMode::Remote,
        0 <= i < a.config.network.remotes.len(),
        a.config.network.remotes[i].id == a.config.network.active_remote_id,
        forall|j: int|
            0 <= j < i ==> (#[trigger] a.config.network.remotes[j]).id
                != a.config.network.active_remote_id,
        openai_base(trimmed(a.config.network.remotes[i].base)) is Some,
    ensures
        ({
            let r = a.config.network.remotes[i];
            let base = openai_base(trimmed(r.base))->0;
            routed(a, server_id) == Ok::<TargetView, Text>(
                TargetView::Remote {
                    url: base + "/chat/completions"@,
                    api_base: base,
                    token: r.token,
                    key: if trimmed(r.token).len() == 0 {
                        None
                    } else {
                        Some(r.token)
                    },
                },
            )
        }),
{
    let n = a.config.network;
    let ids = link_ids(n.remotes);
    lemma_index_in(ids, n.active_remote_id);
    let k = index_in(ids, n.active_remote_id);
    assert(ids[i] == n.active_remote_id);
    assert(ids.contains(n.active_remote_id));
    assert(k == i) by {
        if k < i {
            assert(ids[k] == n.remotes[k].id);
        }
    }
    let base = openai_base(trimmed(n.remotes[i].base))->0;
    let url = base + "/chat/completions"@;
    reveal_strlit("/chat/completions");
    assert(url.last() == 's');
    assert(trim_end_char(url, '/') == url);
    assert(url.skip(url.len() - "/chat/completions"@.len()) =~= "/chat/completions"@);
    assert("/chat/completions"@.is_suffix_of(url));
    assert(url.take(url.len() - "/chat/completions"@.len()) =~= base);
}

} // verus!
