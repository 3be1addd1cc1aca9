//! The command line of the managed server.
use vstd::prelude::*;

use crate::bind::{authority, base_url, connectable, launch_host, start_base};
use crate::config::{Config, ConfigView, ModelSource, RuntimeView, SourceView};
use crate::text::{
    char_is_alnum, chars_of, decimal, is_alnum, join, joined, lemma_decimal, list_contains, number,
    starts_with, texts, Text,
};
use crate::validate::{config_errors, has_extra_option, has_option, is_option, note, only_if};

verus! {

broadcast use vstd::string::group_string_axioms;

/// A program and its arguments.
#[derive(Debug)]
pub struct CommandSpec {
    pub program: String,
    pub args: Vec<String>,
}

/// The view of [`CommandSpec`].
pub struct CommandView {
    pub program: Text,
    pub args: Seq<Text>,
}

impl View for CommandSpec {
    type V = CommandView;

    open spec fn view(&self) -> CommandView {
        CommandView { program: self.program@, args: texts(self.args@) }
    }
}

/// The options with a value that the settings own.
pub open spec fn owned_options() -> Seq<Text> {
    seq![
        "--host"@,
        "--port"@,
        "--api-key"@,
        "--ssl-cert-file"@,
        "--ssl-key-file"@,
        "--device"@,
        "--n-gpu-layers"@,
        "--fit"@,
        "--flash-attn"@,
        "-fa"@,
        "--cache-type-k"@,
        "-ctk"@,
        "--cache-type-v"@,
        "-ctv"@,
        "--ctx-size"@,
        "--batch-size"@,
        "--ubatch-size"@,
        "--parallel"@,
        "--cache-ram"@,
        "--ctx-checkpoints"@,
    ]
}

/// The options without a value that the settings own.
pub open spec fn owned_flags() -> Seq<Text> {
    seq![
        "--mmap"@,
        "--no-mmap"@,
        "--repack"@,
        "--no-repack"@,
        "--warmup"@,
        "--no-warmup"@,
        "--no-mmproj"@,
        "--jinja"@,
        "--metrics"@,
        "--no-webui"@,
        "--no-ui"@,
        "--no-slots"@,
    ]
}

/// Whether an argument gives one of the options a value with `=`.
pub open spec fn assigns(options: Seq<Text>, arg: Text) -> bool {
    exists|i: int|
        0 <= i < options.len() && (#[trigger] options[i] + "="@).is_prefix_of(arg)
}

/// Extra arguments without those that the settings own. An option that is
/// dropped takes its value with it.
pub open spec fn unmanaged(args: Seq<Text>) -> Seq<Text>
    decreases args.len(),
{
    if args.len() == 0 {
        Seq::empty()
    } else if owned_flags().contains(args[0]) {
        unmanaged(args.skip(1))
    } else if owned_options().contains(args[0]) {
        if args.len() >= 2 {
            unmanaged(args.skip(2))
        } else {
            Seq::empty()
        }
    } else if assigns(owned_options(), args[0]) {
        unmanaged(args.skip(1))
    } else {
        seq![args[0]] + unmanaged(args.skip(1))
    }
}

fn option_list() -> (out: Vec<String>)
    ensures
        texts(out@) == owned_options(),
{
    let mut out: Vec<String> = Vec::new();
    out.push("--host".to_owned());
    out.push("--port".to_owned());
    out.push("--api-key".to_owned());
    out.push("--ssl-cert-file".to_owned());
    out.push("--ssl-key-file".to_owned());
    out.push("--device".to_owned());
    out.push("--n-gpu-layers".to_owned());
    out.push("--fit".to_owned());
    out.push("--flash-attn".to_owned());
    out.push("-fa".to_owned());
    out.push("--cache-type-k".to_owned());
    out.push("-ctk".to_owned());
    out.push("--cache-type-v".to_owned());
    out.push("-ctv".to_owned());
    out.push("--ctx-size".to_owned());
    out.push("--batch-size".to_owned());
    out.push("--ubatch-size".to_owned());
    out.push("--parallel".to_owned());
    out.push("--cache-ram".to_owned());
    out.push("--ctx-checkpoints".to_owned());
    proof {
        assert(texts(out@) =~= owned_options());
    }
    out
}

fn flag_list() -> (out: Vec<String>)
    ensures
        texts(out@) == owned_flags(),
{
    let mut out: Vec<String> = Vec::new();
    out.push("--mmap".to_owned());
    out.push("--no-mmap".to_owned());
    out.push("--repack".to_owned());
    out.push("--no-repack".to_owned());
    out.push("--warmup".to_owned());
    out.push("--no-warmup".to_owned());
    out.push("--no-mmproj".to_owned());
    out.push("--jinja".to_owned());
    out.push("--metrics".to_owned());
    out.push("--no-webui".to_owned());
    out.push("--no-ui".to_owned());
    out.push("--no-slots".to_owned());
    proof {
        assert(texts(out@) =~= owned_flags());
    }
    out
}

fn is_assignment(options: &Vec<String>, arg: &str) -> (r: bool)
    ensures
        r == assigns(texts(options@), arg@),
{
    let ghost t = texts(options@);
    let mut i: usize = 0;
    while i < options.len()
        invariant
            i <= options.len(),
            t == texts(options@),
            forall|k: int| 0 <= k < i ==> !(#[trigger] t[k] + "="@).is_prefix_of(arg@),
        decreases options.len() - i,
    {
        let mut p = options[i].clone();
        p.append("=");
        proof {
            assert(t[i as int] == options@[i as int]@);
        }
        if starts_with(arg, p.as_str()) {
            return true;
        }
        i = i + 1;
    }
    false
}

/// Extra arguments without those that the settings own.
pub fn filter_managed_extra_args(args: &Vec<String>) -> (out: Vec<String>)
    ensures
        texts(out@) == unmanaged(texts(args@)),
{
    let options = option_list();
    let flags = flag_list();
    let ghost t = texts(args@);
    let mut out: Vec<String> = Vec::new();
    let mut i: usize = 0;
    proof {
        assert(t.skip(0) =~= t);
        assert(texts(out@) + unmanaged(t) =~= unmanaged(t));
    }
    while i < args.len()
        invariant
            i <= args.len(),
            t == texts(args@),
            texts(options@) == owned_options(),
            texts(flags@) == owned_flags(),
            texts(out@) + unmanaged(t.skip(i as int)) == unmanaged(t),
        decreases args.len() - i,
    {
        let a = args[i].as_str();
        let ghost rest = t.skip(i as int);
        let ghost was = texts(out@);
        proof {
            assert(rest[0] == a@);
            assert(rest.skip(1) =~= t.skip(i + 1));
            if i + 2 <= t.len() {
                assert(rest.skip(2) =~= t.skip(i + 2));
            }
        }
        if list_contains(&flags, a) {
            i = i + 1;
        } else if list_contains(&options, a) {
            if args.len() - i >= 2 {
                i = i + 2;
            } else {
                i = i + 1;
                proof {
                    assert(t.skip(i as int) =~= Seq::<Text>::empty());
                }
            }
        } else if is_assignment(&options, a) {
            i = i + 1;
        } else {
            out.push(args[i].clone());
            proof {
                assert(texts(out@) =~= was.push(a@));
                assert(was + (seq![a@] + unmanaged(t.skip(i + 1))) =~= texts(out@) + unmanaged(
                    t.skip(i + 1),
                ));
            }
            i = i + 1;
        }
    }
    proof {
        assert(t.skip(t.len() as int) =~= Seq::<Text>::empty());
        assert(texts(out@) + Seq::<Text>::empty() =~= texts(out@));
    }
    out
}

/// What a switch is written as.
pub open spec fn on_off(b: bool) -> Text {
    if b {
        "on"@
    } else {
        "off"@
    }
}

/// One of two texts.
pub open spec fn either(b: bool, yes: Text, no: Text) -> Text {
    if b {
        yes
    } else {
        no
    }
}

/// The arguments that name the model.
pub open spec fn model_args(s: SourceView) -> Seq<Text> {
    match s {
        SourceView::HuggingFace(id) => seq!["-hf"@, id],
        SourceView::Local(path) => seq!["-m"@, path],
    }
}

/// The arguments that say what runs on the GPU.
pub open spec fn gpu_args(r: RuntimeView) -> Seq<Text> {
    if r.cpu_only {
        seq!["--device"@, "none"@, "--n-gpu-layers"@, "0"@]
    } else if !r.fit {
        seq!["--n-gpu-layers"@, "999"@]
    } else {
        Seq::empty()
    }
}

/// The arguments that say how the model is run.
pub open spec fn runtime_args(r: RuntimeView) -> Seq<Text> {
    seq!["--fit"@, on_off(r.fit)] + seq![either(r.mmap, "--mmap"@, "--no-mmap"@)] + seq![
        either(r.repack, "--repack"@, "--no-repack"@),
    ] + seq![either(r.warmup, "--warmup"@, "--no-warmup"@)] + seq![
        "--flash-attn"@,
        on_off(r.flash_attn),
    ] + seq!["--cache-type-k"@, r.cache_type_k] + seq!["--cache-type-v"@, r.cache_type_v] + seq![
        "--ctx-size"@,
        decimal(r.context_size as nat),
    ] + seq!["--batch-size"@, decimal(r.batch_size as nat)] + seq![
        "--ubatch-size"@,
        decimal(r.micro_batch_size as nat),
    ] + seq!["--parallel"@, decimal(r.parallel as nat)] + seq![
        "--cache-ram"@,
        decimal(r.cache_ram_mib as nat),
    ] + seq!["--ctx-checkpoints"@, decimal(r.context_checkpoints as nat)] + only_if(
        !r.multimodal_projector,
        "--no-mmproj"@,
    ) + only_if(r.jinja, "--jinja"@)
}

/// The arguments that say how many threads to use, where no extra argument
/// does.
pub open spec fn thread_args(extra: Seq<Text>, threads: nat) -> Seq<Text> {
    if has_option(extra, "--threads"@) {
        Seq::empty()
    } else {
        seq![
            "--threads"@,
            decimal(
                if threads == 0 {
                    1
                } else {
                    threads
                },
            ),
        ]
    }
}

/// The arguments that say what the server offers: while sharing only
/// inference, else its counters.
pub open spec fn surface_args(expose: bool) -> Seq<Text> {
    if expose {
        seq!["--no-webui"@, "--no-slots"@]
    } else {
        seq!["--metrics"@]
    }
}

/// The command line for the settings.
pub open spec fn command_of(c: ConfigView, threads: nat) -> CommandView {
    let extra = unmanaged(c.server.extra_args);
    CommandView {
        program: c.server.executable,
        args: model_args(c.model.source) + extra + gpu_args(c.runtime) + runtime_args(c.runtime)
            + thread_args(extra, threads) + surface_args(c.network.expose) + seq![
            "--host"@,
            launch_host(c),
        ] + seq!["--port"@, decimal(c.server.port as nat)],
    }
}

fn one(args: &mut Vec<String>, a: &str)
    ensures
        texts(final(args)@) == texts(old(args)@) + seq![a@],
{
    let ghost was = texts(args@);
    args.push(a.to_owned());
    proof {
        assert(texts(args@) =~= was + seq![a@]);
    }
}

fn pair(args: &mut Vec<String>, a: &str, b: &str)
    ensures
        texts(final(args)@) == texts(old(args)@) + seq![a@, b@],
{
    let ghost was = texts(args@);
    args.push(a.to_owned());
    args.push(b.to_owned());
    proof {
        assert(texts(args@) =~= was + seq![a@, b@]);
    }
}

fn all(args: &mut Vec<String>, more: &mut Vec<String>)
    ensures
        texts(final(args)@) == texts(old(args)@) + texts(old(more)@),
{
    let ghost was = texts(args@);
    let ghost m = texts(more@);
    args.append(more);
    proof {
        assert(texts(args@) =~= was + m);
    }
}

fn switch_text(b: bool) -> (r: &'static str)
    ensures
        r@ == on_off(b),
{
    if b {
        "on"
    } else {
        "off"
    }
}

fn choice(b: bool, yes: &'static str, no: &'static str) -> (r: &'static str)
    ensures
        r@ == either(b, yes@, no@),
{
    if b {
        yes
    } else {
        no
    }
}

impl CommandSpec {
    fn runtime_list(config: &Config) -> (out: Vec<String>)
        ensures
            texts(out@) == runtime_args(config@.runtime),
    {
        let r = &config.runtime;
        let mut args: Vec<String> = Vec::new();
        pair(&mut args, "--fit", switch_text(r.fit));
        proof {
            assert(texts(args@) =~= seq!["--fit"@, on_off(r.fit)]);
        }
        one(&mut args, choice(r.mmap, "--mmap", "--no-mmap"));
        one(&mut args, choice(r.repack, "--repack", "--no-repack"));
        one(&mut args, choice(r.warmup, "--warmup", "--no-warmup"));
        pair(&mut args, "--flash-attn", switch_text(r.flash_attn));
        pair(&mut args, "--cache-type-k", r.cache_type_k.as_str());
        pair(&mut args, "--cache-type-v", r.cache_type_v.as_str());
        pair(&mut args, "--ctx-size", number(r.context_size as u64).as_str());
        pair(&mut args, "--batch-size", number(r.batch_size as u64).as_str());
        pair(&mut args, "--ubatch-size", number(r.micro_batch_size as u64).as_str());
        pair(&mut args, "--parallel", number(r.parallel as u64).as_str());
        pair(&mut args, "--cache-ram", number(r.cache_ram_mib as u64).as_str());
        pair(&mut args, "--ctx-checkpoints", number(r.context_checkpoints as u64).as_str());
        note(&mut args, !r.multimodal_projector, "--no-mmproj");
        note(&mut args, r.jinja, "--jinja");
        args
    }

    /// The command line for the settings, with as many threads as given unless
    /// the extra arguments say otherwise.
    pub fn from_config_with_threads(config: &Config, threads: usize) -> (r: CommandSpec)
        ensures
            r@ == command_of(config@, threads as nat),
    {
        let ghost c = config@;
        let mut args: Vec<String> = Vec::new();
        match &config.model.source {
            ModelSource::HuggingFace(id) => {
                pair(&mut args, "-hf", id.as_str());
            },
            ModelSource::Local(path) => {
                pair(&mut args, "-m", path.as_str());
            },
        }
        proof {
            assert(texts(args@) =~= model_args(c.model.source));
        }
        let mut extra = filter_managed_extra_args(&config.server.extra_args);
        let given: bool = has_extra_option(&extra, "--threads");
        let ghost ex = texts(extra@);
        all(&mut args, &mut extra);
        let ghost was = texts(args@);
        if config.runtime.cpu_only {
            pair(&mut args, "--device", "none");
            pair(&mut args, "--n-gpu-layers", "0");
        } else if !config.runtime.fit {
            pair(&mut args, "--n-gpu-layers", "999");
        }
        proof {
            assert(texts(args@) =~= was + gpu_args(c.runtime));
        }
        let mut run = CommandSpec::runtime_list(config);
        all(&mut args, &mut run);
        let ghost was = texts(args@);
        if !given {
            let n: usize = if threads == 0 {
                1
            } else {
                threads
            };
            pair(&mut args, "--threads", number(n as u64).as_str());
        }
        proof {
            assert(texts(args@) =~= was + thread_args(ex, threads as nat));
        }
        let ghost was = texts(args@);
        if config.network.expose {
            pair(&mut args, "--no-webui", "--no-slots");
        } else {
            one(&mut args, "--metrics");
        }
        proof {
            assert(texts(args@) =~= was + surface_args(c.network.expose));
        }
        pair(&mut args, "--host", config.start_host().as_str());
        pair(&mut args, "--port", number(config.server.port as u64).as_str());
        CommandSpec { program: config.server.executable.clone(), args }
    }

    /// The command as one line for a shell.
    pub fn display(&self) -> (out: String)
        ensures
            out@ == joined(seq![quoted(self@.program)] + quoted_all(self@.args), " "@),
    {
        let mut parts: Vec<String> = Vec::new();
        parts.push(shell_quote(self.program.as_str()));
        let ghost want = seq![quoted(self@.program)] + quoted_all(self@.args);
        let mut i: usize = 0;
        while i < self.args.len()
            invariant
                i <= self.args.len(),
                want == seq![quoted(self@.program)] + quoted_all(self@.args),
                parts.len() == i + 1,
                forall|k: int| 0 <= k <= i ==> (#[trigger] parts@[k])@ == want[k],
            decreases self.args.len() - i,
        {
            parts.push(shell_quote(self.args[i].as_str()));
            i = i + 1;
        }
        proof {
            assert(texts(parts@) =~= want);
        }
        join(&parts, " ")
    }
}

/// Whether a character needs no quotes in a shell.
pub open spec fn plain_char(c: char) -> bool {
    is_alnum(c) || c == '-' || c == '_' || c == '.' || c == '/' || c == ':' || c == '\\' || c == '@'
}

/// Whether a text needs no quotes in a shell.
pub open spec fn plain(s: Text) -> bool {
    forall|i: int| 0 <= i < s.len() ==> plain_char(#[trigger] s[i])
}

/// `s` with a backslash before each quote.
pub open spec fn escaped(s: Text) -> Text
    decreases s.len(),
{
    if s.len() == 0 {
        Seq::empty()
    } else if s.last() == '"' {
        escaped(s.drop_last()) + seq!['\\', '"']
    } else {
        escaped(s.drop_last()).push(s.last())
    }
}

/// A word of a shell command: as it is where it needs no quotes.
pub open spec fn quoted(s: Text) -> Text {
    if plain(s) {
        s
    } else {
        seq!['"'] + escaped(s) + seq!['"']
    }
}

/// The words of a shell command.
pub open spec fn quoted_all(v: Seq<Text>) -> Seq<Text> {
    Seq::new(v.len(), |i: int| quoted(v[i]))
}

/// A word of a shell command.
pub fn shell_quote(s: &str) -> (out: String)
    ensures
        out@ == quoted(s@),
{
    let v = chars_of(s);
    let mut ok: bool = true;
    let mut inner = String::new();
    inner.push('"');
    let mut i: usize = 0;
    proof {
        assert(inner@ =~= seq!['"'] + escaped(v@.take(0)));
    }
    while i < v.len()
        invariant
            v@ == s@,
            i <= v.len(),
            inner@ == seq!['"'] + escaped(v@.take(i as int)),
            ok ==> forall|k: int| 0 <= k < i ==> plain_char(#[trigger] s@[k]),
            !ok ==> !plain(s@),
        decreases v.len() - i,
    {
        let c: char = v[i];
        let ghost was = inner@;
        proof {
            assert(v@.take(i + 1).drop_last() =~= v@.take(i as int));
            assert(s@[i as int] == c);
        }
        if c == '"' {
            inner.push('\\');
        }
        inner.push(c);
        proof {
            assert(inner@ =~= seq!['"'] + escaped(v@.take(i + 1)));
        }
        if !(char_is_alnum(c) || c == '-' || c == '_' || c == '.' || c == '/' || c == ':' || c
            == '\\' || c == '@') {
            ok = false;
        }
        i = i + 1;
    }
    proof {
        assert(v@.take(v@.len() as int) =~= v@);
    }
    if ok {
        s.to_owned()
    } else {
        inner.push('"');
        proof {
            assert(inner@ =~= seq!['"'] + escaped(s@) + seq!['"']);
        }
        inner
    }
}

proof fn lemma_unmanaged_parts(args: Seq<Text>, k: int)
    requires
        0 <= k < unmanaged(args).len(),
    ensures
        !owned_flags().contains(unmanaged(args)[k]),
        !owned_options().contains(unmanaged(args)[k]),
        !assigns(owned_options(), unmanaged(args)[k]),
    decreases args.len(),
{
    if args.len() > 0 {
        if owned_flags().contains(args[0]) {
            lemma_unmanaged_parts(args.skip(1), k);
        } else if owned_options().contains(args[0]) {
            if args.len() >= 2 {
                lemma_unmanaged_parts(args.skip(2), k);
            }
        } else if assigns(owned_options(), args[0]) {
            lemma_unmanaged_parts(args.skip(1), k);
        } else if k > 0 {
            lemma_unmanaged_parts(args.skip(1), k - 1);
        }
    }
}

/// Extra arguments never set what the settings own: no option of theirs is
/// left, in any spelling.
pub proof fn law_extras_cannot_override(args: Seq<Text>)
    ensures
        forall|k: int|
            0 <= k < unmanaged(args).len() ==> !owned_flags().contains(#[trigger] unmanaged(args)[k])
                && !owned_options().contains(unmanaged(args)[k]) && !assigns(
                owned_options(),
                unmanaged(args)[k],
            ),
{
    assert forall|k: int| 0 <= k < unmanaged(args).len() implies !owned_flags().contains(
        #[trigger] unmanaged(args)[k],
    ) && !owned_options().contains(unmanaged(args)[k]) && !assigns(
        owned_options(),
        unmanaged(args)[k],
    ) by {
        lemma_unmanaged_parts(args, k);
    }
}

/// Filtering arguments that were filtered changes nothing.
pub proof fn law_filter_once(args: Seq<Text>)
    ensures
        unmanaged(unmanaged(args)) == unmanaged(args),
{
    law_extras_cannot_override(args);
    lemma_unmanaged_keeps(unmanaged(args));
}

proof fn lemma_unmanaged_keeps(a: Seq<Text>)
    requires
        forall|k: int|
            0 <= k < a.len() ==> !owned_flags().contains(#[trigger] a[k])
                && !owned_options().contains(a[k]) && !assigns(owned_options(), a[k]),
    ensures
        unmanaged(a) == a,
    decreases a.len(),
{
    if a.len() > 0 {
        assert(!owned_flags().contains(a[0]));
        assert forall|k: int| 0 <= k < a.skip(1).len() implies !owned_flags().contains(
            #[trigger] a.skip(1)[k],
        ) && !owned_options().contains(a.skip(1)[k]) && !assigns(
            owned_options(),
            a.skip(1)[k],
        ) by {
            assert(a.skip(1)[k] == a[k + 1]);
        }
        lemma_unmanaged_keeps(a.skip(1));
        assert(seq![a[0]] + a.skip(1) =~= a);
    } else {
        assert(unmanaged(a) =~= a);
    }
}

/// While sharing, the server is started on this machine only.
pub proof fn law_shared_launch_is_local(c: ConfigView)
    requires
        c.network.expose,
    ensures
        launch_host(c) == "127.0.0.1"@,
{
}

/// While sharing, the server offers neither its own page nor its slots. Its
/// counters are asked for while it is not shared, and no extra argument asks
/// for them.
pub proof fn law_shared_server_offers_inference(c: ConfigView, threads: nat)
    ensures
        c.network.expose ==> command_of(c, threads).args.contains("--no-webui"@) && command_of(
            c,
            threads,
        ).args.contains("--no-slots"@),
        !c.network.expose ==> command_of(c, threads).args.contains("--metrics"@),
        !unmanaged(c.server.extra_args).contains("--metrics"@),
{
    let args = command_of(c, threads).args;
    let n = args.len() as int;
    if c.network.expose {
        assert(args[n - 6] == "--no-webui"@);
        assert(args[n - 5] == "--no-slots"@);
    } else {
        assert(args[n - 5] == "--metrics"@);
    }
    law_extras_cannot_override(c.server.extra_args);
    assert(owned_flags().contains("--metrics"@));
}

/// The server is reached where the command line starts it: at the address and
/// the port that its last arguments give. While it is not shared, that is its
/// endpoint.
pub proof fn law_server_is_reached_where_it_starts(c: ConfigView, threads: nat)
    ensures
        ({
            let args = command_of(c, threads).args;
            let n = args.len() as int;
            &&& n >= 4
            &&& args[n - 4] == "--host"@
            &&& args[n - 2] == "--port"@
            &&& args[n - 1] == decimal(c.server.port as nat)
            &&& start_base(c) == "http://"@ + authority(connectable(args[n - 3]), c.server.port)
            &&& !c.network.expose ==> base_url(c) == start_base(c)
        }),
{
    reveal_strlit("http");
    reveal_strlit("://");
    reveal_strlit("http://");
    assert("http"@ + "://"@ =~= "http://"@);
}

/// The words of the command line that are no values.
spec fn command_words() -> Seq<Text> {
    seq![
        "-hf"@,
        "-m"@,
        "--device"@,
        "--n-gpu-layers"@,
        "--fit"@,
        "--mmap"@,
        "--no-mmap"@,
        "--repack"@,
        "--no-repack"@,
        "--warmup"@,
        "--no-warmup"@,
        "--flash-attn"@,
        "--cache-type-k"@,
        "--cache-type-v"@,
        "--ctx-size"@,
        "--batch-size"@,
        "--ubatch-size"@,
        "--parallel"@,
        "--cache-ram"@,
        "--ctx-checkpoints"@,
        "--no-mmproj"@,
        "--jinja"@,
        "--threads"@,
        "--no-webui"@,
        "--no-slots"@,
        "--metrics"@,
        "--host"@,
        "--port"@,
    ]
}

/// The piece of the command line in which each word stands.
spec fn piece_of(k: int) -> int {
    seq![0int, 0int, 2int, 2int, 3int, 4int, 4int, 5int, 5int, 6int, 6int, 7int, 8int, 9int, 10int, 11int, 12int, 13int, 14int, 15int, 16int, 17int, 18int, 19int, 19int, 19int, 20int, 21int][k]
}

/// Whether a text is no word of the command line.
spec fn free(t: Text) -> bool {
    t.len() == 0 || t[0] != '-'
}

/// Whether what the settings name freely cannot be taken for an option: the
/// model, the types of the context cache and the address do not begin with a
/// dash.
pub open spec fn no_disguise(c: ConfigView) -> bool {
    let model = match c.model.source {
        SourceView::HuggingFace(t) => t,
        SourceView::Local(t) => t,
    };
    let r = c.runtime;
    &&& model.len() > 0 ==> model[0] != '-'
    &&& r.cache_type_k.len() > 0 ==> r.cache_type_k[0] != '-'
    &&& r.cache_type_v.len() > 0 ==> r.cache_type_v[0] != '-'
    &&& launch_host(c).len() > 0 ==> launch_host(c)[0] != '-'
}

/// The command line, piece by piece.
spec fn pieces(c: ConfigView, threads: nat) -> Seq<Seq<Text>> {
    let r = c.runtime;
    let extra = unmanaged(c.server.extra_args);
    seq![model_args(c.model.source), extra, gpu_args(r)] + runtime_pieces(r) + seq![
        thread_args(extra, threads),
        surface_args(c.network.expose),
        seq!["--host"@, launch_host(c)],
        seq!["--port"@, decimal(c.server.port as nat)],
    ]
}

spec fn runtime_pieces(r: RuntimeView) -> Seq<Seq<Text>> {
    seq![
        seq!["--fit"@, on_off(r.fit)],
        seq![either(r.mmap, "--mmap"@, "--no-mmap"@)],
        seq![either(r.repack, "--repack"@, "--no-repack"@)],
        seq![either(r.warmup, "--warmup"@, "--no-warmup"@)],
        seq!["--flash-attn"@, on_off(r.flash_attn)],
        seq!["--cache-type-k"@, r.cache_type_k],
        seq!["--cache-type-v"@, r.cache_type_v],
        seq!["--ctx-size"@, decimal(r.context_size as nat)],
        seq!["--batch-size"@, decimal(r.batch_size as nat)],
        seq!["--ubatch-size"@, decimal(r.micro_batch_size as nat)],
        seq!["--parallel"@, decimal(r.parallel as nat)],
        seq!["--cache-ram"@, decimal(r.cache_ram_mib as nat)],
        seq!["--ctx-checkpoints"@, decimal(r.context_checkpoints as nat)],
        only_if(!r.multimodal_projector, "--no-mmproj"@),
        only_if(r.jinja, "--jinja"@),
    ]
}

spec fn strung(p: Seq<Seq<Text>>) -> Seq<Text>
    decreases p.len(),
{
    if p.len() == 0 {
        Seq::empty()
    } else {
        strung(p.drop_last()) + p.last()
    }
}

proof fn lemma_strung(x: Seq<Seq<Text>>, y: Seq<Seq<Text>>)
    ensures
        strung(x + y) == strung(x) + strung(y),
    decreases y.len(),
{
    if y.len() == 0 {
        assert(x + y =~= x);
        assert(strung(x) + strung(y) =~= strung(x));
    } else {
        lemma_strung(x, y.drop_last());
        assert((x + y).drop_last() =~= x + y.drop_last());
        assert(strung(x) + (strung(y.drop_last()) + y.last()) =~= strung(x) + strung(
            y.drop_last(),
        ) + y.last());
    }
}

proof fn lemma_runtime_strung(r: RuntimeView)
    ensures
        strung(runtime_pieces(r)) == runtime_args(r),
{
    let p = runtime_pieces(r);
    reveal_with_fuel(strung, 16);
    assert(p.drop_last().drop_last().drop_last().drop_last().drop_last().drop_last().drop_last().drop_last().drop_last().drop_last().drop_last().drop_last().drop_last().drop_last().drop_last().len()
        == 0);
    assert(strung(p) =~= runtime_args(r));
}

proof fn lemma_command_strung(c: ConfigView, threads: nat)
    ensures
        command_of(c, threads).args == strung(pieces(c, threads)),
{
    let r = c.runtime;
    let extra = unmanaged(c.server.extra_args);
    let first = seq![model_args(c.model.source), extra, gpu_args(r)];
    let last = seq![
        thread_args(extra, threads),
        surface_args(c.network.expose),
        seq!["--host"@, launch_host(c)],
        seq!["--port"@, decimal(c.server.port as nat)],
    ];
    lemma_strung(first, runtime_pieces(r));
    lemma_strung(first + runtime_pieces(r), last);
    lemma_runtime_strung(r);
    reveal_with_fuel(strung, 5);
    assert(first.drop_last().drop_last().drop_last().len() == 0);
    assert(strung(first) =~= model_args(c.model.source) + extra + gpu_args(r));
    assert(last.drop_last().drop_last().drop_last().drop_last().len() == 0);
    assert(strung(last) =~= thread_args(extra, threads) + surface_args(c.network.expose) + seq![
        "--host"@,
        launch_host(c),
    ] + seq!["--port"@, decimal(c.server.port as nat)]);
    let a = strung(first) + runtime_args(r);
    let t = thread_args(extra, threads);
    let s = surface_args(c.network.expose);
    assert(a + (t + s + seq!["--host"@, launch_host(c)] + seq![
        "--port"@,
        decimal(c.server.port as nat),
    ]) =~= a + t + s + seq!["--host"@, launch_host(c)] + seq![
        "--port"@,
        decimal(c.server.port as nat),
    ]);
}

proof fn lemma_words()
    ensures
        command_words().no_duplicates(),
        forall|k: int| 0 <= k < command_words().len() ==> !free(#[trigger] command_words()[k]),
        free("on"@),
        free("off"@),
        free("none"@),
        free("0"@),
        free("999"@),
{
    reveal_strlit("-hf");
    reveal_strlit("-m");
    reveal_strlit("--device");
    reveal_strlit("--n-gpu-layers");
    reveal_strlit("--fit");
    reveal_strlit("--mmap");
    reveal_strlit("--no-mmap");
    reveal_strlit("--repack");
    reveal_strlit("--no-repack");
    reveal_strlit("--warmup");
    reveal_strlit("--no-warmup");
    reveal_strlit("--flash-attn");
    reveal_strlit("--cache-type-k");
    reveal_strlit("--cache-type-v");
    reveal_strlit("--ctx-size");
    reveal_strlit("--batch-size");
    reveal_strlit("--ubatch-size");
    reveal_strlit("--parallel");
    reveal_strlit("--cache-ram");
    reveal_strlit("--ctx-checkpoints");
    reveal_strlit("--no-mmproj");
    reveal_strlit("--jinja");
    reveal_strlit("--threads");
    reveal_strlit("--no-webui");
    reveal_strlit("--no-slots");
    reveal_strlit("--metrics");
    reveal_strlit("--host");
    reveal_strlit("--port");
    reveal_strlit("on");
    reveal_strlit("off");
    reveal_strlit("none");
    reveal_strlit("0");
    reveal_strlit("999");
    let w = command_words();
    assert forall|i: int, j: int| 0 <= i < w.len() && 0 <= j < w.len() && i != j implies w[i]
        != w[j] by {
        assert(w[i].len() != w[j].len() || w[i][2] != w[j][2] || w[i][3] != w[j][3] || w[i][4]
            != w[j][4] || w[i][5] != w[j][5] || w[i][13] != w[j][13] || w[i][6] != w[j][6]);
    }
}

proof fn lemma_pieces(c: ConfigView, threads: nat, s: int, i: int)
    requires
        no_disguise(c),
        0 <= s < 22,
        s != 1,
        0 <= i < pieces(c, threads)[s].len(),
    ensures
        free(pieces(c, threads)[s][i]) || exists|k: int|
            0 <= k < 28 && #[trigger] piece_of(k) == s && pieces(c, threads)[s][i]
                == command_words()[k],
{
    lemma_words();
    let r = c.runtime;
    let e = pieces(c, threads)[s][i];
    let w = command_words();
    lemma_decimal(r.context_size as nat);
    lemma_decimal(r.batch_size as nat);
    lemma_decimal(r.micro_batch_size as nat);
    lemma_decimal(r.parallel as nat);
    lemma_decimal(r.cache_ram_mib as nat);
    lemma_decimal(r.context_checkpoints as nat);
    lemma_decimal(c.server.port as nat);
    lemma_decimal(threads);
    lemma_decimal(1);
    assert(piece_of(0) == 0 && w[0] == "-hf"@);
    assert(piece_of(1) == 0 && w[1] == "-m"@);
    assert(piece_of(2) == 2 && w[2] == "--device"@);
    assert(piece_of(3) == 2 && w[3] == "--n-gpu-layers"@);
    assert(piece_of(4) == 3 && w[4] == "--fit"@);
    assert(piece_of(5) == 4 && w[5] == "--mmap"@);
    assert(piece_of(6) == 4 && w[6] == "--no-mmap"@);
    assert(piece_of(7) == 5 && w[7] == "--repack"@);
    assert(piece_of(8) == 5 && w[8] == "--no-repack"@);
    assert(piece_of(9) == 6 && w[9] == "--warmup"@);
    assert(piece_of(10) == 6 && w[10] == "--no-warmup"@);
    assert(piece_of(11) == 7 && w[11] == "--flash-attn"@);
    assert(piece_of(12) == 8 && w[12] == "--cache-type-k"@);
    assert(piece_of(13) == 9 && w[13] == "--cache-type-v"@);
    assert(piece_of(14) == 10 && w[14] == "--ctx-size"@);
    assert(piece_of(15) == 11 && w[15] == "--batch-size"@);
    assert(piece_of(16) == 12 && w[16] == "--ubatch-size"@);
    assert(piece_of(17) == 13 && w[17] == "--parallel"@);
    assert(piece_of(18) == 14 && w[18] == "--cache-ram"@);
    assert(piece_of(19) == 15 && w[19] == "--ctx-checkpoints"@);
    assert(piece_of(20) == 16 && w[20] == "--no-mmproj"@);
    assert(piece_of(21) == 17 && w[21] == "--jinja"@);
    assert(piece_of(22) == 18 && w[22] == "--threads"@);
    assert(piece_of(23) == 19 && w[23] == "--no-webui"@);
    assert(piece_of(24) == 19 && w[24] == "--no-slots"@);
    assert(piece_of(25) == 19 && w[25] == "--metrics"@);
    assert(piece_of(26) == 20 && w[26] == "--host"@);
    assert(piece_of(27) == 21 && w[27] == "--port"@);
}

proof fn lemma_word_has_its_piece(c: ConfigView, threads: nat, k: int)
    requires
        no_disguise(c),
        0 <= k < 28,
        !unmanaged(c.server.extra_args).contains(command_words()[k]),
    ensures
        forall|s: int|
            0 <= s < 22 && s != piece_of(k) ==> !(#[trigger] pieces(c, threads)[s]).contains(
                command_words()[k],
            ),
{
    let o = command_words()[k];
    lemma_words();
    assert forall|s: int| 0 <= s < 22 && s != piece_of(k) implies !(#[trigger] pieces(
        c,
        threads,
    )[s]).contains(o) by {
        let p = pieces(c, threads)[s];
        if s != 1 && p.contains(o) {
            let i = choose|i: int| 0 <= i < p.len() && p[i] == o;
            lemma_pieces(c, threads, s, i);
            assert(!free(o));
            let m = choose|m: int|
                0 <= m < 28 && #[trigger] piece_of(m) == s && p[i] == command_words()[m];
            assert(m == k);
        }
    }
}

/// Whether the arguments give an option, and give it with this value wherever
/// they give it.
pub open spec fn gives(args: Seq<Text>, option: Text, value: Text) -> bool {
    &&& exists|i: int| 0 <= i < args.len() - 1 && #[trigger] args[i] == option && args[i + 1] == value
    &&& forall|i: int|
        0 <= i < args.len() && #[trigger] args[i] == option ==> i + 1 < args.len() && args[i + 1]
            == value
}

proof fn lemma_absent(p: Seq<Seq<Text>>, o: Text)
    requires
        forall|s: int| 0 <= s < p.len() ==> !(#[trigger] p[s]).contains(o),
    ensures
        !strung(p).contains(o),
    decreases p.len(),
{
    if p.len() > 0 {
        lemma_absent(p.drop_last(), o);
        let a = strung(p.drop_last());
        let b = p.last();
        assert(b == p[p.len() - 1]);
        if (a + b).contains(o) {
            let i = choose|i: int| 0 <= i < (a + b).len() && (a + b)[i] == o;
            if i < a.len() {
                assert(a.contains(a[i]));
            } else {
                assert(b.contains(b[i - a.len()]));
            }
        }
    }
}

proof fn lemma_split_pieces(p: Seq<Seq<Text>>, j: int, o: Text)
    requires
        0 <= j < p.len(),
        forall|s: int| 0 <= s < p.len() && s != j ==> !(#[trigger] p[s]).contains(o),
    ensures
        strung(p) == strung(p.take(j)) + p[j] + strung(p.skip(j + 1)),
        !strung(p.take(j)).contains(o),
        !strung(p.skip(j + 1)).contains(o),
{
    let x = p.take(j);
    let y = p.skip(j + 1);
    assert forall|s: int| 0 <= s < y.len() implies !(#[trigger] y[s]).contains(o) by {
        assert(y[s] == p[j + 1 + s]);
    }
    lemma_absent(x, o);
    lemma_absent(y, o);
    lemma_strung(p.take(j + 1), y);
    assert(p.take(j + 1) + y =~= p);
    assert(p.take(j + 1).drop_last() =~= x);
}

proof fn lemma_gives(p: Seq<Seq<Text>>, j: int, o: Text, v: Text)
    requires
        0 <= j < p.len(),
        p[j] == seq![o, v],
        v != o,
        forall|s: int| 0 <= s < p.len() && s != j ==> !(#[trigger] p[s]).contains(o),
    ensures
        gives(strung(p), o, v),
{
    lemma_split_pieces(p, j, o);
    let a = strung(p.take(j));
    let b = strung(p.skip(j + 1));
    let all = strung(p);
    assert(all =~= a + seq![o, v] + b);
    let n = a.len() as int;
    assert(all[n] == o && all[n + 1] == v);
    assert forall|i: int| 0 <= i < all.len() && #[trigger] all[i] == o implies i + 1 < all.len()
        && all[i + 1] == v by {
        if i < n {
            assert(a.contains(a[i]));
        } else if i > n + 1 {
            assert(b.contains(b[i - n - 2]));
        }
    }
}

proof fn lemma_holds(p: Seq<Seq<Text>>, j: int, o: Text)
    requires
        0 <= j < p.len(),
        forall|s: int| 0 <= s < p.len() && s != j ==> !(#[trigger] p[s]).contains(o),
    ensures
        strung(p).contains(o) == p[j].contains(o),
{
    lemma_split_pieces(p, j, o);
    let a = strung(p.take(j));
    let b = strung(p.skip(j + 1));
    let m = p[j];
    let all = a + m + b;
    if m.contains(o) {
        let i = choose|i: int| 0 <= i < m.len() && m[i] == o;
        assert(all[a.len() + i] == o);
    }
    if all.contains(o) {
        let i = choose|i: int| 0 <= i < all.len() && all[i] == o;
        if i < a.len() {
            assert(a.contains(a[i]));
        } else if i < a.len() + m.len() {
            assert(m.contains(m[i - a.len()]));
        } else {
            assert(b.contains(b[i - a.len() - m.len()]));
        }
    }
}

proof fn lemma_option(c: ConfigView, threads: nat, k: int, v: Text)
    requires
        no_disguise(c),
        0 <= k < 28,
        owned_options().contains(command_words()[k]),
        pieces(c, threads)[piece_of(k)] == seq![command_words()[k], v],
        free(v),
    ensures
        gives(command_of(c, threads).args, command_words()[k], v),
{
    let o = command_words()[k];
    lemma_words();
    lemma_not_extra(c.server.extra_args, o);
    lemma_word_has_its_piece(c, threads, k);
    lemma_command_strung(c, threads);
    lemma_gives(pieces(c, threads), piece_of(k), o, v);
}

proof fn lemma_not_extra(extra: Seq<Text>, o: Text)
    requires
        owned_options().contains(o) || owned_flags().contains(o),
    ensures
        !unmanaged(extra).contains(o),
{
    law_extras_cannot_override(extra);
    let u = unmanaged(extra);
    if u.contains(o) {
        let i = choose|i: int| 0 <= i < u.len() && u[i] == o;
        assert(!owned_flags().contains(u[i]));
    }
}

proof fn lemma_flag(c: ConfigView, threads: nat, k: int)
    requires
        no_disguise(c),
        0 <= k < 28,
        owned_options().contains(command_words()[k]) || owned_flags().contains(
            command_words()[k],
        ),
    ensures
        command_of(c, threads).args.contains(command_words()[k]) == pieces(
            c,
            threads,
        )[piece_of(k)].contains(command_words()[k]),
{
    lemma_not_extra(c.server.extra_args, command_words()[k]);
    lemma_word_has_its_piece(c, threads, k);
    lemma_command_strung(c, threads);
    lemma_holds(pieces(c, threads), piece_of(k), command_words()[k]);
}

/// Each number of the settings stands in the command line behind its own option,
/// and behind no other: the context, the batch and the micro-batch, the slots,
/// the memory of the prompt cache, the checkpoints and the port.
pub proof fn law_command_gives_the_numbers(c: ConfigView, threads: nat)
    requires
        no_disguise(c),
    ensures
        ({
            let args = command_of(c, threads).args;
            let r = c.runtime;
            &&& gives(args, "--ctx-size"@, decimal(r.context_size as nat))
            &&& gives(args, "--batch-size"@, decimal(r.batch_size as nat))
            &&& gives(args, "--ubatch-size"@, decimal(r.micro_batch_size as nat))
            &&& gives(args, "--parallel"@, decimal(r.parallel as nat))
            &&& gives(args, "--cache-ram"@, decimal(r.cache_ram_mib as nat))
            &&& gives(args, "--ctx-checkpoints"@, decimal(r.context_checkpoints as nat))
            &&& gives(args, "--port"@, decimal(c.server.port as nat))
        }),
{
    let r = c.runtime;
    lemma_owned();
    lemma_decimal(r.context_size as nat);
    lemma_decimal(r.batch_size as nat);
    lemma_decimal(r.micro_batch_size as nat);
    lemma_decimal(r.parallel as nat);
    lemma_decimal(r.cache_ram_mib as nat);
    lemma_decimal(r.context_checkpoints as nat);
    lemma_decimal(c.server.port as nat);
    lemma_option(c, threads, 14, decimal(r.context_size as nat));
    lemma_option(c, threads, 15, decimal(r.batch_size as nat));
    lemma_option(c, threads, 16, decimal(r.micro_batch_size as nat));
    lemma_option(c, threads, 17, decimal(r.parallel as nat));
    lemma_option(c, threads, 18, decimal(r.cache_ram_mib as nat));
    lemma_option(c, threads, 19, decimal(r.context_checkpoints as nat));
    lemma_option(c, threads, 27, decimal(c.server.port as nat));
}

/// Each choice of the settings stands in the command line behind its own option,
/// and behind no other: the types of the cache for keys and for values, the
/// fitting, flash attention and the address.
pub proof fn law_command_gives_the_choices(c: ConfigView, threads: nat)
    requires
        no_disguise(c),
    ensures
        ({
            let args = command_of(c, threads).args;
            let r = c.runtime;
            &&& gives(args, "--cache-type-k"@, r.cache_type_k)
            &&& gives(args, "--cache-type-v"@, r.cache_type_v)
            &&& gives(args, "--host"@, launch_host(c))
            &&& gives(
                args,
                "--fit"@,
                if r.fit {
                    "on"@
                } else {
                    "off"@
                },
            )
            &&& gives(
                args,
                "--flash-attn"@,
                if r.flash_attn {
                    "on"@
                } else {
                    "off"@
                },
            )
        }),
{
    let r = c.runtime;
    lemma_owned();
    lemma_words();
    lemma_option(c, threads, 12, r.cache_type_k);
    lemma_option(c, threads, 13, r.cache_type_v);
    lemma_option(c, threads, 26, launch_host(c));
    lemma_option(c, threads, 4, on_off(r.fit));
    lemma_option(c, threads, 11, on_off(r.flash_attn));
}

/// Each switch of the settings is on in the command line where it is on in the
/// settings, and nowhere else.
#[verifier::spinoff_prover]
#[verifier::rlimit(80)]
pub proof fn law_command_gives_the_switches(c: ConfigView, threads: nat)
    requires
        no_disguise(c),
    ensures
        ({
            let args = command_of(c, threads).args;
            let r = c.runtime;
            &&& args.contains("--mmap"@) == r.mmap
            &&& args.contains("--no-mmap"@) == !r.mmap
            &&& args.contains("--repack"@) == r.repack
            &&& args.contains("--no-repack"@) == !r.repack
            &&& args.contains("--warmup"@) == r.warmup
            &&& args.contains("--no-warmup"@) == !r.warmup
            &&& args.contains("--no-mmproj"@) == !r.multimodal_projector
            &&& args.contains("--jinja"@) == r.jinja
            &&& args.contains("--metrics"@) == !c.network.expose
            &&& args.contains("--no-webui"@) == c.network.expose
            &&& args.contains("--no-slots"@) == c.network.expose
            &&& args.contains("--device"@) == r.cpu_only
            &&& args.contains("--n-gpu-layers"@) == (r.cpu_only || !r.fit)
        }),
{
    let r = c.runtime;
    let p = pieces(c, threads);
    let w = command_words();
    lemma_owned();
    lemma_words();
    lemma_flag(c, threads, 5);
    lemma_flag(c, threads, 6);
    lemma_flag(c, threads, 7);
    lemma_flag(c, threads, 8);
    lemma_flag(c, threads, 9);
    lemma_flag(c, threads, 10);
    lemma_flag(c, threads, 20);
    lemma_flag(c, threads, 21);
    lemma_flag(c, threads, 25);
    lemma_flag(c, threads, 23);
    lemma_flag(c, threads, 24);
    lemma_flag(c, threads, 2);
    lemma_flag(c, threads, 3);
    lemma_single(p[4], w[5], w[6], r.mmap);
    lemma_single(p[5], w[7], w[8], r.repack);
    lemma_single(p[6], w[9], w[10], r.warmup);
    if !r.multimodal_projector {
        assert(p[16][0] == w[20]);
    }
    if r.jinja {
        assert(p[17][0] == w[21]);
    }
    if c.network.expose {
        assert(p[19][0] == w[23] && p[19][1] == w[24]);
    } else {
        assert(p[19][0] == w[25]);
    }
    if r.cpu_only {
        assert(p[2][0] == w[2] && p[2][2] == w[3]);
    } else if !r.fit {
        assert(p[2][0] == w[3]);
        assert(!free(w[2]));
    }
}

proof fn lemma_single(p: Seq<Text>, yes: Text, no: Text, b: bool)
    requires
        p == seq![either(b, yes, no)],
        yes != no,
    ensures
        p.contains(yes) == b,
        p.contains(no) == !b,
{
    assert(p[0] == either(b, yes, no));
}

proof fn lemma_owned()
    ensures
        owned_options().contains(command_words()[2]),
        owned_options().contains(command_words()[3]),
        owned_options().contains(command_words()[4]),
        owned_options().contains(command_words()[11]),
        owned_options().contains(command_words()[12]),
        owned_options().contains(command_words()[13]),
        owned_options().contains(command_words()[14]),
        owned_options().contains(command_words()[15]),
        owned_options().contains(command_words()[16]),
        owned_options().contains(command_words()[17]),
        owned_options().contains(command_words()[18]),
        owned_options().contains(command_words()[19]),
        owned_options().contains(command_words()[26]),
        owned_options().contains(command_words()[27]),
        owned_flags().contains(command_words()[5]),
        owned_flags().contains(command_words()[6]),
        owned_flags().contains(command_words()[7]),
        owned_flags().contains(command_words()[8]),
        owned_flags().contains(command_words()[9]),
        owned_flags().contains(command_words()[10]),
        owned_flags().contains(command_words()[20]),
        owned_flags().contains(command_words()[21]),
        owned_flags().contains(command_words()[23]),
        owned_flags().contains(command_words()[24]),
        owned_flags().contains(command_words()[25]),
{
    let o = owned_options();
    let f = owned_flags();
    let w = command_words();
    assert(o[5] == w[2] && o[6] == w[3] && o[7] == w[4] && o[8] == w[11] && o[10] == w[12] && o[12]
        == w[13] && o[14] == w[14] && o[15] == w[15] && o[16] == w[16] && o[17] == w[17] && o[18]
        == w[18] && o[19] == w[19] && o[0] == w[26] && o[1] == w[27]);
    assert(f[0] == w[5] && f[1] == w[6] && f[2] == w[7] && f[3] == w[8] && f[4] == w[9] && f[5]
        == w[10] && f[6] == w[20] && f[7] == w[21] && f[9] == w[23] && f[11] == w[24] && f[8]
        == w[25]);
}

/// The command line names the model first, behind the option for where it comes
/// from, and then holds the extra arguments that set nothing of the settings', in
/// their order.
pub proof fn law_command_names_the_model(c: ConfigView, threads: nat)
    ensures
        ({
            let args = command_of(c, threads).args;
            let extra = c.server.extra_args;
            &&& args.len() >= 2
            &&& c.model.source matches SourceView::HuggingFace(id) ==> args[0] == "-hf"@ && args[1]
                == id
            &&& c.model.source matches SourceView::Local(path) ==> args[0] == "-m"@ && args[1]
                == path
            &&& (forall|k: int|
                0 <= k < extra.len() ==> !owned_flags().contains(#[trigger] extra[k])
                    && !owned_options().contains(extra[k]) && !assigns(owned_options(), extra[k]))
                ==> extra.len() + 2 <= args.len() && args.subrange(2, 2 + extra.len() as int)
                == extra
            &&& command_of(c, threads).program == c.server.executable
        }),
{
    let args = command_of(c, threads).args;
    let extra = c.server.extra_args;
    let p = pieces(c, threads);
    lemma_command_strung(c, threads);
    let m = model_args(c.model.source);
    let u = unmanaged(extra);
    lemma_strung(p.take(2), p.skip(2));
    assert(p.take(2) + p.skip(2) =~= p);
    reveal_with_fuel(strung, 3);
    assert(p.take(2).drop_last().drop_last().len() == 0);
    assert(strung(p.take(2)) =~= m + u);
    assert(args =~= m + u + strung(p.skip(2)));
    if forall|k: int|
        0 <= k < extra.len() ==> !owned_flags().contains(#[trigger] extra[k])
            && !owned_options().contains(extra[k]) && !assigns(owned_options(), extra[k]) {
        lemma_unmanaged_keeps(extra);
        assert(args.subrange(2, 2 + extra.len() as int) =~= extra);
    }
}

/// The layers that go onto the graphics: none where only the processor is to be
/// used, all where nothing is to be fitted.
#[verifier::spinoff_prover]
#[verifier::rlimit(80)]
pub proof fn law_command_places_the_layers(c: ConfigView, threads: nat)
    requires
        no_disguise(c),
    ensures
        ({
            let args = command_of(c, threads).args;
            let r = c.runtime;
            &&& r.cpu_only ==> gives(args, "--device"@, "none"@) && gives(
                args,
                "--n-gpu-layers"@,
                "0"@,
            )
            &&& !r.cpu_only && !r.fit ==> gives(args, "--n-gpu-layers"@, "999"@)
        }),
{
    let r = c.runtime;
    let p = pieces(c, threads);
    let w = command_words();
    lemma_owned();
    lemma_words();
    lemma_not_extra(c.server.extra_args, w[2]);
    lemma_not_extra(c.server.extra_args, w[3]);
    lemma_word_has_its_piece(c, threads, 2);
    lemma_word_has_its_piece(c, threads, 3);
    lemma_command_strung(c, threads);
    let all = strung(p);
    lemma_split_pieces(p, 2, w[2]);
    lemma_split_pieces(p, 2, w[3]);
    let a = strung(p.take(2));
    let b = strung(p.skip(3));
    let n = a.len() as int;
    assert(all =~= a + p[2] + b);
    if r.cpu_only {
        assert(all[n] == w[2] && all[n + 1] == "none"@ && all[n + 2] == w[3] && all[n + 3] == "0"@);
        assert forall|i: int| 0 <= i < all.len() && #[trigger] all[i] == w[2] implies i == n by {
            lemma_outside(a, p[2], b, w[2], i);
        }
        assert forall|i: int| 0 <= i < all.len() && #[trigger] all[i] == w[3] implies i == n + 2 by {
            lemma_outside(a, p[2], b, w[3], i);
        }
    } else if !r.fit {
        lemma_gives(p, 2, w[3], "999"@);
    }
}

proof fn lemma_outside(a: Seq<Text>, m: Seq<Text>, b: Seq<Text>, o: Text, i: int)
    requires
        !a.contains(o),
        !b.contains(o),
        0 <= i < (a + m + b).len(),
        (a + m + b)[i] == o,
    ensures
        a.len() <= i < a.len() + m.len(),
{
    if i < a.len() {
        assert(a.contains(a[i]));
    } else if i >= a.len() + m.len() {
        assert(b.contains(b[i - a.len() - m.len()]));
    }
}

/// The server gets the threads of the machine, and at least one, unless the extra
/// arguments say how many.
pub proof fn law_command_gives_the_threads(c: ConfigView, threads: nat)
    requires
        no_disguise(c),
        !has_option(unmanaged(c.server.extra_args), "--threads"@),
    ensures
        gives(
            command_of(c, threads).args,
            "--threads"@,
            decimal(
                if threads == 0 {
                    1
                } else {
                    threads
                },
            ),
        ),
{
    let w = command_words();
    let u = unmanaged(c.server.extra_args);
    let n: nat = if threads == 0 {
        1
    } else {
        threads
    };
    lemma_words();
    lemma_decimal(n);
    assert(w[22] == "--threads"@);
    if u.contains(w[22]) {
        let i = choose|i: int| 0 <= i < u.len() && u[i] == w[22];
        assert(is_option(u[i], "--threads"@));
    }
    lemma_word_has_its_piece(c, threads, 22);
    lemma_command_strung(c, threads);
    lemma_gives(pieces(c, threads), 18, w[22], decimal(n));
}

/// With settings that are valid, the micro-batch that the server is given is no
/// larger than the batch that it is given.
#[verifier::spinoff_prover]
#[verifier::rlimit(80)]
pub proof fn law_micro_batch_fits_the_batch(
    c: ConfigView,
    threads: nat,
    ts: Seq<crate::address::Ipv4>,
    there: Seq<Text>,
    micro: nat,
    batch: nat,
)
    requires
        no_disguise(c),
        config_errors(c, ts, there).len() == 0,
        gives(command_of(c, threads).args, "--ubatch-size"@, decimal(micro)),
        gives(command_of(c, threads).args, "--batch-size"@, decimal(batch)),
    ensures
        1 <= micro <= batch,
{
    law_command_gives_the_numbers(c, threads);
    lemma_decimal(micro);
    lemma_decimal(batch);
    lemma_decimal(c.runtime.micro_batch_size as nat);
    lemma_decimal(c.runtime.batch_size as nat);
}

} // verus!
