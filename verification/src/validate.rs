//! What is wrong with settings before a launch, and the models remembered.
use vstd::prelude::*;

use crate::address::{ip, parse_ip};
use crate::bind::{panel_addr, server_host, server_secrets, strip_brackets, unbracketed};
use crate::config::{
    blank, named_cache_type, normalize_cache_type, sources, Config, ConfigView, ModelSource,
    RuntimeView, SourceView, MAX_RECENT,
};
use crate::listen::{listen_host, LocalAddrs};
use crate::paths::{file_name, path_name};
use crate::shards::{split_gguf_paths, split_paths};
use crate::text::{
    char_is_control, char_is_space, chars_of, contains, decimal, ends_with, find, is_control,
    is_space, last_position, lemma_find, lemma_split_one, list_contains, lower, occurs, occurs_at,
    position, rfind, same, slice, split, split_on, starts_with, texts, to_lower, trim,
    trimmed, Text,
};

verus! {

broadcast use vstd::string::group_string_axioms;

/// The extension of a file name: what follows its last dot, unless that dot
/// begins the name.
pub open spec fn extension(name: Text) -> Option<Text> {
    match rfind(name, '.') {
        Some(k) if k > 0 => Some(name.skip(k + 1)),
        _ => None,
    }
}

/// Whether a file name ends in `.gguf`, capitals aside.
pub open spec fn has_gguf_extension(name: Text) -> bool {
    extension(name) matches Some(e) && lower(e) == "gguf"@
}

fn gguf_extension(name: &str) -> (r: bool)
    ensures
        r == has_gguf_extension(name@),
{
    match last_position(name, '.') {
        Some(k) => {
            if k == 0 {
                return false;
            }
            let n: usize = name.unicode_len();
            let e = slice(name, k + 1, n);
            proof {
                assert(e@ =~= name@.skip(k + 1));
            }
            same(to_lower(e.as_str()).as_str(), "gguf")
        },
        None => false,
    }
}

/// Whether an argument is the option or gives it a value with `=`.
pub open spec fn is_option(arg: Text, option: Text) -> bool {
    arg == option || (option + "="@).is_prefix_of(arg)
}

/// Whether the arguments hold the option.
pub open spec fn has_option(args: Seq<Text>, option: Text) -> bool {
    exists|i: int| 0 <= i < args.len() && is_option(#[trigger] args[i], option)
}

/// Whether the arguments hold the option.
pub fn has_extra_option(args: &Vec<String>, option: &str) -> (r: bool)
    ensures
        r == has_option(texts(args@), option@),
{
    let mut prefix = option.to_owned();
    prefix.append("=");
    let ghost t = texts(args@);
    let mut i: usize = 0;
    while i < args.len()
        invariant
            i <= args.len(),
            t == texts(args@),
            prefix@ == option@ + "="@,
            forall|k: int| 0 <= k < i ==> !is_option(#[trigger] t[k], option@),
        decreases args.len() - i,
    {
        let a = args[i].as_str();
        proof {
            assert(t[i as int] == a@);
        }
        if same(a, option) || starts_with(a, prefix.as_str()) {
            proof {
                assert(is_option(t[i as int], option@));
            }
            return true;
        }
        i = i + 1;
    }
    false
}

/// Whether a character may stand in the name of a repository's owner or model.
pub open spec fn repo_char(c: char) -> bool {
    !is_control(c) && !is_space(c) && c != '?' && c != '#' && c != '\\'
}

/// Whether every character may stand in a repository's name.
pub open spec fn repo_chars(s: Text) -> bool {
    forall|i: int| 0 <= i < s.len() ==> repo_char(#[trigger] s[i])
}

/// Whether a text names a repository: `owner/model`, perhaps with a tag after
/// a colon.
pub open spec fn names_repository(id: Text) -> bool {
    let path = split_on(trimmed(id), ':')[0];
    match find(path, "/"@) {
        Some(i) => {
            let owner = path.take(i);
            let name = path.skip(i + 1);
            owner.len() > 0 && name.len() > 0 && !occurs(name, "/"@) && repo_chars(owner)
                && repo_chars(name)
        },
        None => false,
    }
}

pub(crate) fn only_repo_chars(s: &str) -> (r: bool)
    ensures
        r == repo_chars(s@),
{
    let v = chars_of(s);
    let mut i: usize = 0;
    while i < v.len()
        invariant
            v@ == s@,
            i <= v.len(),
            forall|k: int| 0 <= k < i ==> repo_char(#[trigger] s@[k]),
        decreases v.len() - i,
    {
        let c: char = v[i];
        proof {
            assert(s@[i as int] == c);
        }
        if char_is_control(c) || char_is_space(c) || c == '?' || c == '#' || c == '\\' {
            return false;
        }
        i = i + 1;
    }
    true
}

/// Whether a text names a repository.
pub fn valid_repository_id(id: &str) -> (r: bool)
    ensures
        r == names_repository(id@),
{
    let parts = split(trim(id).as_str(), ':');
    proof {
        assert(texts(parts@)[0] == parts@[0]@);
    }
    let path = parts[0].as_str();
    proof {
        reveal_strlit("/");
        lemma_find(path@, "/"@);
    }
    match position(path, "/") {
        Some(i) => {
            let n: usize = path.unicode_len();
            let owner = slice(path, 0, i);
            let name = slice(path, i + 1, n);
            proof {
                assert(owner@ =~= path@.take(i as int));
                assert(name@ =~= path@.skip(i + 1));
            }
            !owner.as_str().is_empty() && !name.as_str().is_empty() && !contains(
                name.as_str(),
                "/",
            ) && only_repo_chars(owner.as_str()) && only_repo_chars(name.as_str())
        },
        None => false,
    }
}

/// One message where something is wrong, else none.
pub open spec fn only_if(bad: bool, message: Text) -> Seq<Text> {
    if bad {
        seq![message]
    } else {
        Seq::empty()
    }
}

/// The message of a failure.
pub open spec fn failure(prefix: Text, r: Result<Text, Text>) -> Seq<Text> {
    match r {
        Ok(_) => Seq::empty(),
        Err(e) => seq![prefix + e],
    }
}

/// Whether a character cannot stand in a host.
pub open spec fn bad_host_char(c: char) -> bool {
    is_control(c) || is_space(c) || c == '/' || c == '?' || c == '#'
}

/// What is wrong with the server's host.
pub open spec fn host_errors(host: Text) -> Seq<Text> {
    let h = unbracketed(trimmed(host));
    if h.len() == 0 {
        seq!["host cannot be empty"@]
    } else if "["@.is_prefix_of(host) != "]"@.is_suffix_of(host) {
        seq!["IPv6 hosts must use matching brackets"@]
    } else if exists|i: int| 0 <= i < h.len() && bad_host_char(#[trigger] h[i]) {
        seq!["host contains invalid characters"@]
    } else if occurs(h, ":"@) && ip(h) is None {
        seq!["host must be a valid IPv6 address or hostname"@]
    } else {
        Seq::empty()
    }
}

/// What is wrong with sharing.
pub open spec fn share_errors(c: ConfigView, ts: Seq<crate::address::Ipv4>) -> Seq<Text> {
    if c.network.expose {
        failure(Seq::empty(), listen_host(c.network, ts)) + only_if(
            server_secrets(c).len() == 0,
            "sharing is on but no API keys are configured"@,
        )
    } else {
        Seq::empty()
    }
}

/// What is wrong with how the model is run.
pub open spec fn runtime_errors(r: RuntimeView) -> Seq<Text> {
    only_if(r.context_size == 0, "context size must be greater than zero"@) + only_if(
        r.batch_size == 0,
        "batch size must be greater than zero"@,
    ) + only_if(r.micro_batch_size == 0, "micro-batch size must be greater than zero"@) + only_if(
        r.micro_batch_size > r.batch_size,
        "micro-batch size cannot exceed batch size"@,
    ) + only_if(r.parallel == 0, "parallel slots must be greater than zero"@) + failure(
        "cache_type_k: "@,
        named_cache_type(r.cache_type_k),
    ) + failure("cache_type_v: "@, named_cache_type(r.cache_type_v))
}

/// The least size in bytes that a model may have: 0.1 GiB, rounded up.
pub const MIN_MODEL_BYTES: u64 = 107_374_183;

/// The greatest size in bytes that a model may have: 100000 GiB.
pub const MAX_MODEL_BYTES: u64 = 107_374_182_400_000;

/// The first of the files that is not there.
pub open spec fn first_missing(files: Seq<Text>, there: Seq<Text>) -> Option<Text>
    decreases files.len(),
{
    if files.len() == 0 {
        None
    } else {
        match first_missing(files.drop_last(), there) {
            Some(p) => Some(p),
            None => if there.contains(files.last()) {
                None
            } else {
                Some(files.last())
            },
        }
    }
}

/// What is wrong with the model, where of its files those in `there` are there.
pub open spec fn model_errors(c: ConfigView, there: Seq<Text>) -> Seq<Text> {
    if blank(c.model.source) {
        seq!["Select a model in the Models tab before starting"@]
    } else {
        match c.model.source {
            SourceView::HuggingFace(id) => only_if(
                !names_repository(id),
                "Hugging Face model ID must be owner/model"@,
            ) + only_if(
                !(c.model.estimated_bytes matches Some(b) && MIN_MODEL_BYTES <= b
                    <= MAX_MODEL_BYTES),
                "estimated file size must be between 0.1 and 100000 GiB"@,
            ),
            SourceView::Local(path) => if !there.contains(path) {
                seq!["model file does not exist: "@ + path]
            } else if !(path_name(path) matches Some(name) && has_gguf_extension(name)) {
                seq!["model file must have a .gguf extension: "@ + path]
            } else {
                match split_paths(path) {
                    Some(v) => match first_missing(v, there) {
                        Some(p) => seq!["model shard does not exist: "@ + p],
                        None => Seq::empty(),
                    },
                    None => Seq::empty(),
                }
            },
        }
    }
}

/// Everything that is wrong with the settings, in order.
pub open spec fn config_errors(
    c: ConfigView,
    ts: Seq<crate::address::Ipv4>,
    there: Seq<Text>,
) -> Seq<Text> {
    (match panel_addr(c.ui.host, c.ui.port) {
        Ok(_) => Seq::empty(),
        Err(e) => seq!["ui listen address is invalid: "@ + e],
    }) + host_errors(server_host(c)) + only_if(
        c.server.port == 0,
        "port must be between 1 and 65535"@,
    ) + only_if(
        has_option(c.server.extra_args, "--host"@),
        "extra --host is not allowed; the listen address is set only in Network sharing"@,
    ) + only_if(
        has_option(c.server.extra_args, "--port"@),
        "extra --port is not allowed; set the port in Configure"@,
    ) + only_if(
        has_option(c.server.extra_args, "--api-key"@),
        "extra --api-key is not allowed; manage keys in Network sharing when Share is on"@,
    ) + share_errors(c, ts) + runtime_errors(c.runtime) + model_errors(c, there)
}

pub(crate) fn note(errors: &mut Vec<String>, bad: bool, message: &str)
    ensures
        texts(final(errors)@) == texts(old(errors)@) + only_if(bad, message@),
{
    let ghost was = texts(errors@);
    if bad {
        errors.push(message.to_owned());
    }
    proof {
        assert(texts(errors@) =~= was + only_if(bad, message@));
    }
}

fn add_all(errors: &mut Vec<String>, more: &mut Vec<String>)
    ensures
        texts(final(errors)@) == texts(old(errors)@) + texts(old(more)@),
{
    let ghost was = texts(errors@);
    let ghost m = texts(more@);
    errors.append(more);
    proof {
        assert(texts(errors@) =~= was + m);
    }
}

fn note_failure(errors: &mut Vec<String>, prefix: &str, r: Result<String, String>)
    ensures
        texts(final(errors)@) == texts(old(errors)@) + failure(
            prefix@,
            crate::listen::res_text(r),
        ),
{
    let ghost was = texts(errors@);
    let ghost rv = crate::listen::res_text(r);
    match r {
        Ok(_) => {},
        Err(e) => {
            let mut m = prefix.to_owned();
            m.append(e.as_str());
            errors.push(m);
        },
    }
    proof {
        assert(texts(errors@) =~= was + failure(prefix@, rv));
    }
}

fn any_bad_host_char(s: &str) -> (r: bool)
    ensures
        r == exists|i: int| 0 <= i < s@.len() && bad_host_char(#[trigger] s@[i]),
{
    let v = chars_of(s);
    let mut i: usize = 0;
    while i < v.len()
        invariant
            v@ == s@,
            i <= v.len(),
            forall|k: int| 0 <= k < i ==> !bad_host_char(#[trigger] s@[k]),
        decreases v.len() - i,
    {
        let c: char = v[i];
        proof {
            assert(s@[i as int] == c);
        }
        if char_is_control(c) || char_is_space(c) || c == '/' || c == '?' || c == '#' {
            proof {
                assert(bad_host_char(s@[i as int]));
            }
            return true;
        }
        i = i + 1;
    }
    false
}

fn note_host(errors: &mut Vec<String>, host: &str)
    ensures
        texts(final(errors)@) == texts(old(errors)@) + host_errors(host@),
{
    let ghost was = texts(errors@);
    let h = strip_brackets(trim(host).as_str());
    if h.as_str().is_empty() {
        errors.push("host cannot be empty".to_owned());
    } else if starts_with(host, "[") != ends_with(host, "]") {
        errors.push("IPv6 hosts must use matching brackets".to_owned());
    } else if any_bad_host_char(h.as_str()) {
        errors.push("host contains invalid characters".to_owned());
    } else if contains(h.as_str(), ":") && parse_ip(h.as_str()).is_none() {
        errors.push("host must be a valid IPv6 address or hostname".to_owned());
    }
    proof {
        assert(texts(errors@) =~= was + host_errors(host@));
    }
}

fn find_missing(files: &Vec<String>, there: &Vec<String>) -> (r: Option<usize>)
    ensures
        match r {
            Some(k) => k < files.len() && first_missing(texts(files@), texts(there@)) == Some(
                files@[k as int]@,
            ),
            None => first_missing(texts(files@), texts(there@)) is None,
        },
{
    let ghost all = texts(files@);
    let ghost t = texts(there@);
    let mut found: Option<usize> = None;
    let mut i: usize = 0;
    proof {
        assert(all.take(0) =~= Seq::<Text>::empty());
    }
    while i < files.len()
        invariant
            all == texts(files@),
            t == texts(there@),
            i <= files.len(),
            match found {
                Some(k) => k < files.len() && first_missing(all.take(i as int), t) == Some(
                    files@[k as int]@,
                ),
                None => first_missing(all.take(i as int), t) is None,
            },
        decreases files.len() - i,
    {
        proof {
            assert(all.take(i + 1).drop_last() =~= all.take(i as int));
            assert(all.take(i + 1).last() == files@[i as int]@);
        }
        if found.is_none() && !list_contains(there, files[i].as_str()) {
            found = Some(i);
        }
        i = i + 1;
    }
    proof {
        assert(all.take(all.len() as int) =~= all);
    }
    found
}

impl Config {
    fn note_sharing(&self, errors: &mut Vec<String>, local: &LocalAddrs)
        ensures
            texts(final(errors)@) == texts(old(errors)@) + share_errors(self@, local.tailscale@),
    {
        let ghost was = texts(errors@);
        if self.network.expose {
            note_failure(errors, "", self.network.resolve_listen_host(local));
            let keys = self.llama_api_keys();
            proof {
                reveal_strlit("");
                assert(""@ =~= Seq::<char>::empty());
                assert(texts(keys@).len() == keys.len());
            }
            note(errors, keys.len() == 0, "sharing is on but no API keys are configured");
        }
        proof {
            assert(texts(errors@) =~= was + share_errors(self@, local.tailscale@));
        }
    }

    fn runtime_notes(&self) -> (errors: Vec<String>)
        ensures
            texts(errors@) == runtime_errors(self@.runtime),
    {
        let mut errors: Vec<String> = Vec::new();
        let r = &self.runtime;
        note(&mut errors, r.context_size == 0, "context size must be greater than zero");
        proof {
            assert(texts(errors@) =~= only_if(
                r.context_size == 0,
                "context size must be greater than zero"@,
            ));
        }
        note(&mut errors, r.batch_size == 0, "batch size must be greater than zero");
        note(&mut errors, r.micro_batch_size == 0, "micro-batch size must be greater than zero");
        note(
            &mut errors,
            r.micro_batch_size > r.batch_size,
            "micro-batch size cannot exceed batch size",
        );
        note(&mut errors, r.parallel == 0, "parallel slots must be greater than zero");
        note_failure(&mut errors, "cache_type_k: ", normalize_cache_type(r.cache_type_k.as_str()));
        note_failure(&mut errors, "cache_type_v: ", normalize_cache_type(r.cache_type_v.as_str()));
        errors
    }

    fn note_model(&self, errors: &mut Vec<String>, there: &Vec<String>)
        ensures
            texts(final(errors)@) == texts(old(errors)@) + model_errors(self@, texts(there@)),
    {
        let ghost was = texts(errors@);
        if self.model.source.is_blank() {
            note(errors, true, "Select a model in the Models tab before starting");
        } else {
            match &self.model.source {
                ModelSource::HuggingFace(id) => {
                    note(
                        errors,
                        !valid_repository_id(id.as_str()),
                        "Hugging Face model ID must be owner/model",
                    );
                    let fits: bool = match self.model.estimated_bytes {
                        Some(b) => MIN_MODEL_BYTES <= b && b <= MAX_MODEL_BYTES,
                        None => false,
                    };
                    note(
                        errors,
                        !fits,
                        "estimated file size must be between 0.1 and 100000 GiB",
                    );
                },
                ModelSource::Local(path) => {
                    let named: bool = match file_name(path.as_str()) {
                        Some(name) => gguf_extension(name.as_str()),
                        None => false,
                    };
                    if !list_contains(there, path.as_str()) {
                        let mut m = "model file does not exist: ".to_owned();
                        m.append(path.as_str());
                        errors.push(m);
                    } else if !named {
                        let mut m = "model file must have a .gguf extension: ".to_owned();
                        m.append(path.as_str());
                        errors.push(m);
                    } else {
                        match split_gguf_paths(path.as_str()) {
                            Some(parts) => match find_missing(&parts, there) {
                                Some(k) => {
                                    let mut m = "model shard does not exist: ".to_owned();
                                    m.append(parts[k].as_str());
                                    errors.push(m);
                                },
                                None => {},
                            },
                            None => {},
                        }
                    }
                },
            }
        }
        proof {
            assert(texts(errors@) =~= was + model_errors(self@, texts(there@)));
        }
    }

    /// Everything that is wrong with the settings, in order; nothing where the
    /// server may be started. `there` are the files that are there, among the
    /// model's at least.
    pub fn validate(&self, local: &LocalAddrs, there: &Vec<String>) -> (out: Vec<String>)
        ensures
            texts(out@) == config_errors(self@, local.tailscale@, texts(there@)),
    {
        let mut errors: Vec<String> = Vec::new();
        match self.ui_addr() {
            Ok(_) => {},
            Err(e) => {
                let mut m = "ui listen address is invalid: ".to_owned();
                m.append(e.as_str());
                errors.push(m);
            },
        }
        proof {
            assert(texts(errors@) =~= (match panel_addr(self@.ui.host, self@.ui.port) {
                Ok(_) => Seq::empty(),
                Err(e) => seq!["ui listen address is invalid: "@ + e],
            }));
        }
        note_host(&mut errors, self.effective_host().as_str());
        note(&mut errors, self.server.port == 0, "port must be between 1 and 65535");
        note(
            &mut errors,
            has_extra_option(&self.server.extra_args, "--host"),
            "extra --host is not allowed; the listen address is set only in Network sharing",
        );
        note(
            &mut errors,
            has_extra_option(&self.server.extra_args, "--port"),
            "extra --port is not allowed; set the port in Configure",
        );
        note(
            &mut errors,
            has_extra_option(&self.server.extra_args, "--api-key"),
            "extra --api-key is not allowed; manage keys in Network sharing when Share is on",
        );
        self.note_sharing(&mut errors, local);
        let mut runtime = self.runtime_notes();
        add_all(&mut errors, &mut runtime);
        self.note_model(&mut errors, there);
        errors
    }

    /// Puts a model at the front of those remembered; the oldest beyond the
    /// bound is forgotten.
    pub fn remember_model(&mut self, source: ModelSource)
        ensures
            final(self)@ == (ConfigView {
                recent_models: remembered(old(self)@.recent_models, source@),
                ..old(self)@
            }),
    {
        if source.is_blank() {
            return;
        }
        let ghost all = sources(self.recent_models@);
        let ghost sv = source@;
        let mut kept: Vec<ModelSource> = Vec::new();
        let mut i: usize = 0;
        proof {
            assert(sources(kept@) =~= others(all.take(0), sv));
        }
        while i < self.recent_models.len()
            invariant
                i <= self.recent_models.len(),
                *self == *old(self),
                sv == source@,
                all == sources(self.recent_models@),
                sources(kept@) == others(all.take(i as int), sv),
            decreases self.recent_models.len() - i,
        {
            let ghost was = sources(kept@);
            proof {
                assert(all.take(i + 1).drop_last() =~= all.take(i as int));
                assert(all.take(i + 1).last() == self.recent_models@[i as int]@);
            }
            if !self.recent_models[i].same(&source) {
                kept.push(self.recent_models[i].clone());
                proof {
                    assert(sources(kept@) =~= was.push(all[i as int]));
                }
            }
            i = i + 1;
        }
        proof {
            assert(all.take(all.len() as int) =~= all);
        }
        let ghost k = sources(kept@);
        kept.insert(0, source);
        proof {
            assert(sources(kept@) =~= seq![sv] + k);
        }
        if kept.len() > MAX_RECENT {
            kept.truncate(MAX_RECENT);
        }
        self.recent_models = kept;
        proof {
            assert(sources(self.recent_models@) =~= remembered(all, sv));
        }
    }
}

/// The sources that are not `x`.
pub open spec fn others(s: Seq<SourceView>, x: SourceView) -> Seq<SourceView>
    decreases s.len(),
{
    if s.len() == 0 {
        Seq::empty()
    } else {
        let init = others(s.drop_last(), x);
        if s.last() == x {
            init
        } else {
            init.push(s.last())
        }
    }
}

/// The models remembered after one more: it first, then the others, eight at
/// most. A source that names no model changes nothing.
pub open spec fn remembered(s: Seq<SourceView>, x: SourceView) -> Seq<SourceView> {
    if blank(x) {
        s
    } else {
        let all = seq![x] + others(s, x);
        if all.len() > MAX_RECENT {
            all.take(MAX_RECENT as int)
        } else {
            all
        }
    }
}

proof fn lemma_others(s: Seq<SourceView>, x: SourceView)
    ensures
        forall|i: int| 0 <= i < others(s, x).len() ==> #[trigger] others(s, x)[i] != x,
        forall|y: SourceView| others(s, x).contains(y) ==> s.contains(y),
        s.no_duplicates() ==> others(s, x).no_duplicates(),
        others(s, x).len() <= s.len(),
    decreases s.len(),
{
    if s.len() > 0 {
        lemma_others(s.drop_last(), x);
        let init = others(s.drop_last(), x);
        assert forall|y: SourceView| others(s, x).contains(y) implies s.contains(y) by {
            if init.contains(y) {
                assert(s.drop_last().contains(y));
                let k = choose|k: int| 0 <= k < s.drop_last().len() && s.drop_last()[k] == y;
                assert(s[k] == y);
            } else {
                assert(y == s.last());
            }
        }
        if s.no_duplicates() && s.last() != x {
            assert forall|i: int, j: int|
                0 <= i < j < others(s, x).len() implies others(s, x)[i] != others(s, x)[j] by {
                if j == init.len() {
                    assert(init.contains(init[i]));
                    assert(s.drop_last().contains(init[i]));
                    let k = choose|k: int|
                        0 <= k < s.drop_last().len() && s.drop_last()[k] == init[i];
                    assert(s[k] == init[i]);
                }
            }
        }
    }
}

/// The models remembered are at most eight, the newest first, and none twice.
pub proof fn law_recent_models(s: Seq<SourceView>, x: SourceView)
    requires
        s.no_duplicates(),
        s.len() <= MAX_RECENT,
    ensures
        remembered(s, x).no_duplicates(),
        remembered(s, x).len() <= MAX_RECENT,
        !blank(x) ==> remembered(s, x).len() > 0 && remembered(s, x)[0] == x,
{
    lemma_others(s, x);
    let all = seq![x] + others(s, x);
    assert forall|i: int, j: int| 0 <= i < j < all.len() implies all[i] != all[j] by {
        assert(all[j] == others(s, x)[j - 1]);
        if i > 0 {
            assert(all[i] == others(s, x)[i - 1]);
        }
    }
}

/// Remembering a model again changes nothing further.
pub proof fn law_remember_twice(s: Seq<SourceView>, x: SourceView)
    ensures
        remembered(remembered(s, x), x) == remembered(s, x),
{
    if !blank(x) {
        let r = remembered(s, x);
        lemma_others(s, x);
        assert(r[0] == x);
        assert forall|i: int| 1 <= i < r.len() implies #[trigger] r[i] != x by {
            assert(r[i] == others(s, x)[i - 1]);
        }
        lemma_others_head(r, x);
        assert(seq![x] + r.skip(1) =~= r);
    }
}

proof fn lemma_others_none(s: Seq<SourceView>, x: SourceView)
    requires
        forall|i: int| 0 <= i < s.len() ==> #[trigger] s[i] != x,
    ensures
        others(s, x) == s,
    decreases s.len(),
{
    if s.len() > 0 {
        lemma_others_none(s.drop_last(), x);
        assert(s.drop_last().push(s.last()) =~= s);
    } else {
        assert(others(s, x) =~= s);
    }
}

proof fn lemma_others_head(s: Seq<SourceView>, x: SourceView)
    requires
        s.len() > 0,
        s[0] == x,
        forall|i: int| 1 <= i < s.len() ==> #[trigger] s[i] != x,
    ensures
        others(s, x) == s.skip(1),
    decreases s.len(),
{
    if s.len() == 1 {
        assert(others(s.drop_last(), x) =~= Seq::<SourceView>::empty());
        assert(others(s, x) =~= s.skip(1));
    } else {
        lemma_others_head(s.drop_last(), x);
        assert(s.drop_last().skip(1).push(s.last()) =~= s.skip(1));
    }
}

/// The parts of new settings have nothing wrong with them.
proof fn lemma_default_parts(ts: Seq<crate::address::Ipv4>)
    ensures
        host_errors(server_host(crate::config::default_config())).len() == 0,
        runtime_errors(crate::config::default_runtime()).len() == 0,
        share_errors(crate::config::default_config(), ts).len() == 0,
{
    reveal_strlit("127.0.0.1");
    reveal_strlit("q8_0");
    reveal_strlit("[");
    reveal_strlit("]");
    reveal_strlit(":");
    let h = "127.0.0.1"@;
    assert(trimmed(h) =~= h);
    assert(!"["@.is_prefix_of(h)) by {
        assert(h[0] != "["@[0]);
    }
    assert(unbracketed(h) == h);
    assert(!"]"@.is_suffix_of(h)) by {
        assert(h.subrange(8, 9)[0] != "]"@[0]);
    }
    assert(!occurs(h, ":"@)) by {
        assert forall|i: int| !occurs_at(h, ":"@, i) by {
            if 0 <= i && i + 1 <= h.len() {
                assert(h.subrange(i, i + 1)[0] == h[i]);
                assert(h[i] != ':');
            }
        }
    }
    let q = "q8_0"@;
    assert(lower(trimmed(q)) =~= q);
    assert(crate::config::cache_types()[3] == q);
}

/// The model of new settings is a repository.
proof fn lemma_default_repository()
    ensures
        names_repository("ggml-org/gpt-oss-120b-GGUF"@),
        trimmed("ggml-org/gpt-oss-120b-GGUF"@).len() > 0,
{
    let id = "ggml-org/gpt-oss-120b-GGUF"@;
    reveal_strlit("ggml-org/gpt-oss-120b-GGUF");
    reveal_strlit("/");
    assert(trimmed(id) =~= id);
    assert(!id.contains(':'));
    lemma_split_one(id, ':');
    lemma_find(id, "/"@);
    assert(id.subrange(8, 9) =~= "/"@);
    assert(occurs_at(id, "/"@, 8));
    let i = find(id, "/"@)->0;
    assert(id.subrange(i, i + 1)[0] == id[i]);
    assert(id[i] == '/');
    assert(i == 8);
    let name = id.skip(9);
    assert forall|k: int| !occurs_at(name, "/"@, k) by {
        if 0 <= k && k + 1 <= name.len() {
            assert(name.subrange(k, k + 1)[0] == name[k]);
            assert(name[k] == id[k + 9]);
            assert(name[k] != '/');
        }
    }
    let owner = id.take(8);
    assert forall|k: int| 0 <= k < owner.len() implies repo_char(#[trigger] owner[k]) by {
        assert(owner[k] == id[k]);
    }
    assert forall|k: int| 0 <= k < name.len() implies repo_char(#[trigger] name[k]) by {
        assert(name[k] == id[k + 9]);
    }
}

/// Sharing without a key is refused.
pub proof fn law_sharing_needs_a_key(
    c: ConfigView,
    ts: Seq<crate::address::Ipv4>,
    there: Seq<Text>,
)
    requires
        c.network.expose,
        server_secrets(c).len() == 0,
    ensures
        config_errors(c, ts, there).contains("sharing is on but no API keys are configured"@),
{
    let e = "sharing is on but no API keys are configured"@;
    let head = (match panel_addr(c.ui.host, c.ui.port) {
        Ok(_) => Seq::<Text>::empty(),
        Err(e) => seq!["ui listen address is invalid: "@ + e],
    }) + host_errors(server_host(c)) + only_if(
        c.server.port == 0,
        "port must be between 1 and 65535"@,
    ) + only_if(
        has_option(c.server.extra_args, "--host"@),
        "extra --host is not allowed; the listen address is set only in Network sharing"@,
    ) + only_if(
        has_option(c.server.extra_args, "--port"@),
        "extra --port is not allowed; set the port in Configure"@,
    ) + only_if(
        has_option(c.server.extra_args, "--api-key"@),
        "extra --api-key is not allowed; manage keys in Network sharing when Share is on"@,
    );
    let share = share_errors(c, ts);
    assert(share.last() == e);
    let k = head.len() + share.len() - 1;
    assert(config_errors(c, ts, there)[k] == e);
}

/// New settings have nothing wrong with them.
pub proof fn law_defaults_are_valid(ts: Seq<crate::address::Ipv4>, there: Seq<Text>)
    ensures
        config_errors(crate::config::default_config(), ts, there).len() == 0,
{
    let c = crate::config::default_config();
    lemma_default_parts(ts);
    lemma_default_repository();
    let own = crate::address::Ipv4 { a: 127, b: 0, c: 0, d: 1 };
    let h = "127.0.0.1"@;
    reveal_strlit("127.0.0.1");
    reveal_strlit("[");
    assert(own.text() =~= h) by {
        reveal_with_fuel(decimal, 4);
        assert(decimal(127) =~= seq!['1', '2', '7']);
    }
    assert(ip(h) is Some) by {
        crate::ip_text::law_address_round_trip(crate::address::Ip::V4(own));
        assert(crate::address::Ip::V4(own).text() == own.text());
    }
    assert(trimmed(h) =~= h);
    assert(!"["@.is_prefix_of(h)) by {
        assert(h[0] != "["@[0]);
    }
    assert(unbracketed(h) == h);
    assert(panel_addr(c.ui.host, c.ui.port) is Ok);
}

/// Whether settings can be started with: what each rule asks for.
pub open spec fn in_order(
    c: ConfigView,
    ts: Seq<crate::address::Ipv4>,
    there: Seq<Text>,
) -> bool {
    let r = c.runtime;
    &&& panel_addr(c.ui.host, c.ui.port) is Ok
    &&& host_errors(server_host(c)).len() == 0
    &&& 1 <= c.server.port
    &&& !has_option(c.server.extra_args, "--host"@)
    &&& !has_option(c.server.extra_args, "--port"@)
    &&& !has_option(c.server.extra_args, "--api-key"@)
    &&& c.network.expose ==> listen_host(c.network, ts) is Ok && exists|i: int|
        0 <= i < c.network.api_keys.len() && trimmed(#[trigger] c.network.api_keys[i].secret).len()
            > 0
    &&& 1 <= r.context_size
    &&& 1 <= r.micro_batch_size <= r.batch_size
    &&& 1 <= r.parallel
    &&& named_cache_type(r.cache_type_k) is Ok
    &&& named_cache_type(r.cache_type_v) is Ok
    &&& !blank(c.model.source)
    &&& c.model.source matches SourceView::HuggingFace(id) ==> names_repository(id)
        && (c.model.estimated_bytes matches Some(b) && 107_374_183 <= b <= 107_374_182_400_000)
    &&& c.model.source matches SourceView::Local(path) ==> there.contains(path) && (path_name(
        path,
    ) matches Some(name) && has_gguf_extension(name)) && (split_paths(path) matches Some(v)
        ==> forall|i: int| 0 <= i < v.len() ==> there.contains(#[trigger] v[i]))
}

proof fn lemma_missing(files: Seq<Text>, there: Seq<Text>)
    ensures
        first_missing(files, there) is None <==> forall|i: int|
            0 <= i < files.len() ==> there.contains(#[trigger] files[i]),
        first_missing(files, there) matches Some(p) ==> files.contains(p) && !there.contains(p),
    decreases files.len(),
{
    if files.len() > 0 {
        let init = files.drop_last();
        lemma_missing(init, there);
        if forall|i: int| 0 <= i < files.len() ==> there.contains(#[trigger] files[i]) {
            assert forall|i: int| 0 <= i < init.len() implies there.contains(
                #[trigger] init[i],
            ) by {
                assert(files[i] == init[i]);
            }
            assert(there.contains(files[files.len() - 1]));
        }
        if first_missing(files, there) is None {
            assert forall|i: int| 0 <= i < files.len() implies there.contains(
                #[trigger] files[i],
            ) by {
                if i < init.len() {
                    assert(init[i] == files[i]);
                }
            }
        }
        match first_missing(files, there) {
            Some(p) => {
                if first_missing(init, there) is Some {
                    let k = choose|k: int| 0 <= k < init.len() && init[k] == p;
                    assert(files[k] == p);
                } else {
                    assert(files[files.len() - 1] == p);
                }
            },
            None => {},
        }
    }
}

/// Settings have nothing wrong with them exactly where every rule is met.
pub proof fn law_valid_settings_meet_every_rule(
    c: ConfigView,
    ts: Seq<crate::address::Ipv4>,
    there: Seq<Text>,
)
    ensures
        config_errors(c, ts, there).len() == 0 <==> in_order(c, ts, there),
{
    lemma_share_in_order(c, ts);
    lemma_runtime_in_order(c.runtime);
    lemma_model_in_order(c, there);
}

proof fn lemma_share_in_order(c: ConfigView, ts: Seq<crate::address::Ipv4>)
    ensures
        share_errors(c, ts).len() == 0 <==> (c.network.expose ==> listen_host(c.network, ts) is Ok
            && exists|i: int|
            0 <= i < c.network.api_keys.len() && trimmed(#[trigger] c.network.api_keys[i].secret).len()
                > 0),
{
    lemma_some_secret(c.network.api_keys);
}

proof fn lemma_runtime_in_order(r: RuntimeView)
    ensures
        runtime_errors(r).len() == 0 <==> 1 <= r.context_size && 1 <= r.micro_batch_size
            <= r.batch_size && 1 <= r.parallel && named_cache_type(r.cache_type_k) is Ok
            && named_cache_type(r.cache_type_v) is Ok,
{
}

proof fn lemma_model_in_order(c: ConfigView, there: Seq<Text>)
    ensures
        model_errors(c, there).len() == 0 <==> {
            &&& !blank(c.model.source)
            &&& c.model.source matches SourceView::HuggingFace(id) ==> names_repository(id) && (
            c.model.estimated_bytes matches Some(b) && 107_374_183 <= b <= 107_374_182_400_000)
            &&& c.model.source matches SourceView::Local(path) ==> there.contains(path) && (path_name(
                path,
            ) matches Some(name) && has_gguf_extension(name)) && (split_paths(path) matches Some(v)
                ==> forall|i: int| 0 <= i < v.len() ==> there.contains(#[trigger] v[i]))
        },
{
    match c.model.source {
        SourceView::Local(path) => match split_paths(path) {
            Some(v) => lemma_missing(v, there),
            None => {},
        },
        _ => {},
    }
}

proof fn lemma_some_secret(k: Seq<crate::network::KeyView>)
    ensures
        crate::keys::secrets_of(k).len() > 0 <==> exists|i: int|
            0 <= i < k.len() && trimmed(#[trigger] k[i].secret).len() > 0,
    decreases k.len(),
{
    if k.len() > 0 {
        let init = k.drop_last();
        lemma_some_secret(init);
        if crate::keys::secrets_of(k).len() > 0 {
            if crate::keys::secrets_of(init).len() > 0 {
                let i = choose|i: int|
                    0 <= i < init.len() && trimmed(#[trigger] init[i].secret).len() > 0;
                assert(trimmed(k[i].secret).len() > 0);
            } else {
                assert(trimmed(k[k.len() - 1].secret).len() > 0);
            }
        }
        if exists|i: int| 0 <= i < k.len() && trimmed(#[trigger] k[i].secret).len() > 0 {
            let i = choose|i: int| 0 <= i < k.len() && trimmed(#[trigger] k[i].secret).len() > 0;
            if i < init.len() {
                assert(trimmed(init[i].secret).len() > 0);
            }
        }
    }
}

/// What is wrong with a size, a count or the port is said in words of its own.
pub proof fn law_each_fault_is_named(
    c: ConfigView,
    ts: Seq<crate::address::Ipv4>,
    there: Seq<Text>,
)
    ensures
        ({
            let e = config_errors(c, ts, there);
            let r = c.runtime;
            &&& c.server.port == 0 ==> e.contains("port must be between 1 and 65535"@)
            &&& r.context_size == 0 ==> e.contains("context size must be greater than zero"@)
            &&& r.batch_size == 0 ==> e.contains("batch size must be greater than zero"@)
            &&& r.micro_batch_size == 0 ==> e.contains(
                "micro-batch size must be greater than zero"@,
            )
            &&& r.micro_batch_size > r.batch_size ==> e.contains(
                "micro-batch size cannot exceed batch size"@,
            )
            &&& r.parallel == 0 ==> e.contains("parallel slots must be greater than zero"@)
            &&& blank(c.model.source) ==> e.contains(
                "Select a model in the Models tab before starting"@,
            )
        }),
{
    let r = c.runtime;
    let e = config_errors(c, ts, there);
    let rt = runtime_errors(r);
    let md = model_errors(c, there);
    let n = e.len() - md.len() - rt.len();
    assert(e =~= e.take(n) + rt + md);
    lemma_runtime_faults(r);
    assert forall|m: Text| rt.contains(m) implies e.contains(m) by {
        let i = choose|i: int| 0 <= i < rt.len() && rt[i] == m;
        assert(e[n + i] == m);
    }
    if blank(c.model.source) {
        assert(md[0] == "Select a model in the Models tab before starting"@);
        assert(e[n + rt.len()] == md[0]);
    }
    if c.server.port == 0 {
        let head = (match panel_addr(c.ui.host, c.ui.port) {
            Ok(_) => Seq::<Text>::empty(),
            Err(x) => seq!["ui listen address is invalid: "@ + x],
        }) + host_errors(server_host(c));
        assert(e[head.len() as int] == "port must be between 1 and 65535"@);
    }
}

proof fn lemma_runtime_faults(r: RuntimeView)
    ensures
        ({
            let e = runtime_errors(r);
            &&& r.context_size == 0 ==> e.contains("context size must be greater than zero"@)
            &&& r.batch_size == 0 ==> e.contains("batch size must be greater than zero"@)
            &&& r.micro_batch_size == 0 ==> e.contains(
                "micro-batch size must be greater than zero"@,
            )
            &&& r.micro_batch_size > r.batch_size ==> e.contains(
                "micro-batch size cannot exceed batch size"@,
            )
            &&& r.parallel == 0 ==> e.contains("parallel slots must be greater than zero"@)
        }),
{
    let e = runtime_errors(r);
    let a = only_if(r.context_size == 0, "context size must be greater than zero"@);
    let b = only_if(r.batch_size == 0, "batch size must be greater than zero"@);
    let c = only_if(r.micro_batch_size == 0, "micro-batch size must be greater than zero"@);
    let d = only_if(
        r.micro_batch_size > r.batch_size,
        "micro-batch size cannot exceed batch size"@,
    );
    if r.context_size == 0 {
        assert(e[0] == a[0]);
    }
    if r.batch_size == 0 {
        assert(e[a.len() as int] == b[0]);
    }
    if r.micro_batch_size == 0 {
        assert(e[(a.len() + b.len()) as int] == c[0]);
    }
    if r.micro_batch_size > r.batch_size {
        assert(e[(a.len() + b.len() + c.len()) as int] == d[0]);
    }
    if r.parallel == 0 {
        assert(e[(a.len() + b.len() + c.len() + d.len()) as int]
            == "parallel slots must be greater than zero"@);
    }
}

} // verus!
