//! The screens of a terminal: what stands on them, and in which colours.
use vstd::prelude::*;

use crate::app::{label_for, App, AppView};
use crate::bind::{base_url, label_of};
use crate::config::{Config, ConfigView};
use crate::disk::PathFact;
use crate::display::{access_parts, access_summary};
use crate::panel::{hint_for, local_size, shown_value};
use crate::servers::{displayed, pending_changes};
use crate::settings::{all_fields, SettingField};
use crate::slot::status_word;
use crate::system::Machine;
use crate::terminal::{
    detail_tone, editor_window, line_tone, lines_shown, log_tone, log_window, marker, memory_line,
    status_marker, status_tone, storage_line, told_tone, tone_of, window_of, Tone,
};
use crate::text::{
    chars_in_bytes, decimal, joined, lower, number, opt_text, texts, to_lower, Text,
};
use crate::units::gib_tenths;

verus! {

broadcast use vstd::string::group_string_axioms;

/// A piece of text in one colour.
#[derive(Debug)]
pub struct Span {
    pub text: String,
    pub tone: Tone,
    pub bold: bool,
}

/// The view of [`Span`].
#[verifier::ext_equal]
pub struct SpanView {
    pub text: Text,
    pub tone: Tone,
    pub bold: bool,
}

impl View for Span {
    type V = SpanView;

    open spec fn view(&self) -> SpanView {
        SpanView { text: self.text@, tone: self.tone, bold: self.bold }
    }
}

/// The views of a line's pieces.
pub open spec fn spans(v: Seq<Span>) -> Seq<SpanView> {
    Seq::new(v.len(), |i: int| v[i]@)
}

/// The views of several lines.
pub open spec fn lines_of(v: Seq<Vec<Span>>) -> Seq<Seq<SpanView>> {
    Seq::new(v.len(), |i: int| spans(v[i]@))
}

/// A piece in ordinary type.
pub open spec fn plain(text: Text, tone: Tone) -> SpanView {
    SpanView { text, tone, bold: false }
}

/// A piece in bold type.
pub open spec fn strong(text: Text, tone: Tone) -> SpanView {
    SpanView { text, tone, bold: true }
}

/// A piece in ordinary type.
fn plain_span(text: String, tone: Tone) -> (r: Span)
    ensures
        r@ == plain(text@, tone),
{
    Span { text, tone, bold: false }
}

/// A piece in bold type.
fn strong_span(text: String, tone: Tone) -> (r: Span)
    ensures
        r@ == strong(text@, tone),
{
    Span { text, tone, bold: true }
}

/// As many spaces.
pub open spec fn spaces(n: nat) -> Text {
    Seq::new(n, |i: int| ' ')
}

/// The spaces that a text lacks to be `width` characters long.
pub open spec fn filling(s: Text, width: nat) -> Text {
    spaces(if s.len() < width {
        (width - s.len()) as nat
    } else {
        0
    })
}

/// The spaces that a text lacks to be `width` characters long.
fn fill(s: &str, width: usize) -> (out: String)
    ensures
        out@ == filling(s@, width as nat),
{
    let n: usize = s.unicode_len();
    let missing: usize = if n < width {
        width - n
    } else {
        0
    };
    let mut out = String::new();
    let mut i: usize = 0;
    while i < missing
        invariant
            i <= missing,
            out@ == spaces(i as nat),
        decreases missing - i,
    {
        out.push(' ');
        i = i + 1;
        proof {
            assert(out@ =~= spaces(i as nat));
        }
    }
    out
}

/// A number of tokens, in thousands where it is whole ones of them.
pub open spec fn token_words(tokens: u32) -> Text {
    if tokens >= 1024 && tokens % 1024 == 0 {
        decimal((tokens / 1024) as nat) + "K"@
    } else {
        decimal(tokens as nat)
    }
}

/// A number of tokens, in thousands where it is whole ones of them.
pub fn format_tokens(tokens: u32) -> (out: String)
    ensures
        out@ == token_words(tokens),
{
    if tokens >= 1024 && tokens % 1024 == 0 {
        let mut out = number((tokens / 1024) as u64);
        out.append("K");
        out
    } else {
        number(tokens as u64)
    }
}

/// The word for one thing, or for several.
pub fn plural(value: u16, one: &'static str, several: &'static str) -> (r: &'static str)
    ensures
        r@ == (if value == 1 {
            one@
        } else {
            several@
        }),
{
    if value == 1 {
        one
    } else {
        several
    }
}

/// A line that gives a value its name.
pub open spec fn named_line(label: Text, value: Text, tone: Tone) -> Seq<SpanView> {
    seq![plain(label + filling(label, 10), Tone::Muted), plain(value, tone)]
}

/// A line that gives a value its name.
pub fn info_line(label: &str, value: String, tone: Tone) -> (out: Vec<Span>)
    ensures
        spans(out@) == named_line(label@, value@, tone),
{
    let ghost told = value@;
    let mut name = label.to_owned();
    name.append(fill(label, 10).as_str());
    let out = vec![plain_span(name, Tone::Muted), plain_span(value, tone)];
    proof {
        assert(spans(out@) =~= named_line(label@, told, tone));
    }
    out
}

/// A line of the list of keys.
pub open spec fn key_line(key: Text, description: Text) -> Seq<SpanView> {
    seq![strong(filling(key, 5) + key + "  "@, Tone::Ice), plain(description, Tone::Ink)]
}

/// A line of the list of keys.
pub fn help_line(key: &str, description: &str) -> (out: Vec<Span>)
    ensures
        spans(out@) == key_line(key@, description@),
{
    let mut name = fill(key, 5);
    name.append(key);
    name.append("  ");
    let out = vec![strong_span(name, Tone::Ice), plain_span(description.to_owned(), Tone::Ink)];
    proof {
        assert(spans(out@) =~= key_line(key@, description@));
    }
    out
}

/// Keys and what they do.
pub open spec fn keys_of(v: Seq<(&'static str, &'static str)>) -> Seq<(Text, Text)> {
    Seq::new(v.len(), |i: int| (v[i].0@, v[i].1@))
}

/// The line at the foot of a screen: each key with what it does.
pub open spec fn key_spans(keys: Seq<(Text, Text)>) -> Seq<SpanView>
    decreases keys.len(),
{
    if keys.len() == 0 {
        Seq::empty()
    } else {
        let before = key_spans(keys.drop_last());
        let gap = if keys.len() > 1 {
            before.push(plain("  ·  "@, Tone::Muted))
        } else {
            before
        };
        gap.push(strong(keys.last().0, Tone::Ice)).push(
            plain(" "@ + keys.last().1, Tone::Muted),
        )
    }
}

/// The line at the foot of a screen.
pub fn footer(keys: &Vec<(&'static str, &'static str)>) -> (out: Vec<Span>)
    ensures
        spans(out@) == key_spans(keys_of(keys@)),
{
    let mut out: Vec<Span> = Vec::new();
    let mut i: usize = 0;
    proof {
        assert(spans(out@) =~= key_spans(keys_of(keys@).take(0)));
    }
    while i < keys.len()
        invariant
            i <= keys.len(),
            spans(out@) == key_spans(keys_of(keys@).take(i as int)),
        decreases keys.len() - i,
    {
        let ghost was = spans(out@);
        if i > 0 {
            out.push(plain_span("  ·  ".to_owned(), Tone::Muted));
            proof {
                assert(spans(out@) =~= was.push(plain("  ·  "@, Tone::Muted)));
            }
        }
        let ghost gap = spans(out@);
        let (key, label) = keys[i];
        let mut told = " ".to_owned();
        told.append(label);
        out.push(strong_span(key.to_owned(), Tone::Ice));
        out.push(plain_span(told, Tone::Muted));
        proof {
            let k = keys_of(keys@).take(i + 1);
            assert(k.drop_last() =~= keys_of(keys@).take(i as int));
            assert(k.last() == (key@, label@));
            assert(spans(out@) =~= gap.push(strong(key@, Tone::Ice)).push(
                plain(" "@ + label@, Tone::Muted),
            ));
        }
        i = i + 1;
    }
    proof {
        assert(keys_of(keys@).take(i as int) =~= keys_of(keys@));
    }
    out
}

/// The first screen.
#[derive(Debug)]
pub struct Dashboard {
    pub title: Vec<Span>,
    pub status: Span,
    pub notice: Span,
    pub model: Span,
    pub lines: Vec<Vec<Span>>,
    pub footer: Vec<Span>,
}

/// The view of [`Dashboard`].
#[verifier::ext_equal]
pub struct DashboardView {
    pub title: Seq<SpanView>,
    pub status: SpanView,
    pub notice: SpanView,
    pub model: SpanView,
    pub lines: Seq<Seq<SpanView>>,
    pub footer: Seq<SpanView>,
}

impl View for Dashboard {
    type V = DashboardView;

    open spec fn view(&self) -> DashboardView {
        DashboardView {
            title: spans(self.title@),
            status: self.status@,
            notice: self.notice@,
            model: self.model@,
            lines: lines_of(self.lines@),
            footer: spans(self.footer@),
        }
    }
}

/// The size of the model that is mapped, where one is known.
pub open spec fn mapped(c: ConfigView, files: Seq<PathFact>) -> Option<u64> {
    match local_size(c.model.source, files) {
        Some(n) => Some(n),
        None => c.model.estimated_bytes,
    }
}

/// What the settings say of the server's work.
pub open spec fn work_text(c: ConfigView) -> Text {
    (if c.runtime.cpu_only {
        "CPU"@
    } else {
        "GPU offload"@
    }) + " · "@ + token_words(c.runtime.context_size) + " context · batch "@ + decimal(
        c.runtime.batch_size as nat,
    ) + " · "@ + decimal(c.runtime.parallel as nat) + " "@ + (if c.runtime.parallel == 1 {
        "slot"@
    } else {
        "slots"@
    })
}

/// What the settings say of the server's work.
fn work_line(config: &Config) -> (out: String)
    ensures
        out@ == work_text(config@),
{
    let r = &config.runtime;
    let mut out = if r.cpu_only {
        "CPU".to_owned()
    } else {
        "GPU offload".to_owned()
    };
    out.append(" · ");
    out.append(format_tokens(r.context_size).as_str());
    out.append(" context · batch ");
    out.append(number(r.batch_size as u64).as_str());
    out.append(" · ");
    out.append(number(r.parallel as u64).as_str());
    out.append(" ");
    out.append(plural(r.parallel, "slot", "slots"));
    out
}

/// What the first screen says of the model and the machine.
pub open spec fn dashboard_lines(
    a: AppView,
    available: u64,
    total: u64,
    size: u64,
) -> Seq<Seq<SpanView>> {
    let c = displayed(a);
    seq![
        named_line(
            "storage"@,
            gib_tenths(size) + " GiB mapped from disk · not required to fit in RAM"@,
            Tone::Ice,
        ),
        named_line(
            "ram"@,
            gib_tenths(available) + " GiB available · "@ + gib_tenths(total) + " GiB total"@,
            Tone::Ink,
        ),
        named_line("runtime"@, work_text(c), Tone::Ink),
        named_line("access"@, joined(access_parts(c), " · "@), Tone::Muted),
        named_line(
            "endpoint"@,
            base_url(c),
            if a.slot.endpoint_online {
                Tone::Mint
            } else {
                Tone::Muted
            },
        ),
    ]
}

/// The keys of the first screen.
pub open spec fn dashboard_keys(running: bool) -> Seq<(Text, Text)> {
    seq![
        (
            "s"@,
            if running {
                "stop"@
            } else {
                "start"@
            },
        ),
        ("c"@, "configure"@),
        ("l"@, "logs"@),
        ("?"@, "help"@),
        ("q"@, "quit"@),
    ]
}

/// The first screen.
pub open spec fn dashboard_of(
    a: AppView,
    available: u64,
    total: u64,
    size: u64,
    frame: usize,
) -> DashboardView {
    DashboardView {
        title: seq![strong("tiny"@, Tone::Ink), strong("inference"@, Tone::Ice)],
        status: plain(
            marker(a.slot.status, frame) + " "@ + status_word(a.slot.status),
            tone_of(a.slot.status),
        ),
        notice: if pending_changes(a) {
            plain("Settings changed · restart to apply"@, Tone::Ice)
        } else {
            plain(a.slot.status_detail, told_tone(a.slot.status))
        },
        model: strong(label_of(displayed(a).model.source), Tone::Ink),
        lines: dashboard_lines(a, available, total, size),
        footer: key_spans(dashboard_keys(a.slot.process is Some)),
    }
}

/// The first screen. `files` says of a local model's files which are there and
/// how long they are, and `frame` counts the pictures while a server starts.
pub fn dashboard(
    app: &App,
    machine: &Machine,
    files: &Vec<PathFact>,
    frame: usize,
) -> (r: Dashboard)
    requires
        mapped(displayed(app@), files@) is Some,
    ensures
        r@ == dashboard_of(
            app@,
            machine.available_memory_bytes,
            machine.total_memory_bytes,
            mapped(displayed(app@), files@)->0,
            frame,
        ),
{
    let config = app.displayed_config();
    let memory = machine.memory_profile(config, files);
    let size: u64 = match memory.mapped_model_bytes {
        Some(n) => n,
        None => 0,
    };
    let title = vec![
        strong_span("tiny".to_owned(), Tone::Ink),
        strong_span("inference".to_owned(), Tone::Ice),
    ];
    let mut status = status_marker(app.slot.status, frame).to_owned();
    status.append(" ");
    status.append(app.slot.status.label());
    let notice = if app.has_pending_changes() {
        plain_span("Settings changed · restart to apply".to_owned(), Tone::Ice)
    } else {
        plain_span(app.slot.status_detail.clone(), detail_tone(app.slot.status))
    };
    let reached = if app.slot.endpoint_online {
        Tone::Mint
    } else {
        Tone::Muted
    };
    let lines = vec![
        info_line("storage", storage_line(size), Tone::Ice),
        info_line("ram", memory_line(memory.available_bytes, memory.total_bytes), Tone::Ink),
        info_line("runtime", work_line(config), Tone::Ink),
        info_line("access", access_summary(config), Tone::Muted),
        info_line("endpoint", config.endpoint(), reached),
    ];
    let keys = vec![
        (
            "s",
            if app.slot.process.is_some() {
                "stop"
            } else {
                "start"
            },
        ),
        ("c", "configure"),
        ("l", "logs"),
        ("?", "help"),
        ("q", "quit"),
    ];
    proof {
        assert(spans(title@) =~= seq![strong("tiny"@, Tone::Ink), strong("inference"@, Tone::Ice)]);
        assert(lines_of(lines@) =~= dashboard_lines(
            app@,
            machine.available_memory_bytes,
            machine.total_memory_bytes,
            size,
        ));
        assert(keys_of(keys@) =~= dashboard_keys(app@.slot.process is Some));
    }
    Dashboard {
        title,
        status: plain_span(status, status_tone(app.slot.status)),
        notice,
        model: strong_span(config.model_label(), Tone::Ink),
        lines,
        footer: footer(&keys),
    }
}

/// The screen of the settings.
#[derive(Debug)]
pub struct ConfigureScreen {
    pub title: Span,
    pub note: Span,
    pub saved: Span,
    pub rows: Vec<(String, String)>,
    pub hint: Span,
    pub detail: Span,
    pub footer: Vec<Span>,
}

/// The names and values of the settings.
pub open spec fn setting_rows(a: AppView, files: Seq<PathFact>) -> Seq<(Text, Text)> {
    Seq::new(
        all_fields().len(),
        |i: int|
            (
                label_for(all_fields()[i], a.config.model.source),
                shown_value(a, all_fields()[i], files),
            ),
    )
}

/// The views of pairs of texts.
pub open spec fn pairs(v: Seq<(String, String)>) -> Seq<(Text, Text)> {
    Seq::new(v.len(), |i: int| (v[i].0@, v[i].1@))
}

/// What the keys do on the screen of the settings; where the model comes from is
/// switched rather than adjusted.
pub open spec fn setting_note(chosen: SettingField) -> Text {
    if chosen == SettingField::SourceKind {
        "enter exact  ·  ←→ switch source  ·  space toggle"@
    } else {
        "enter exact  ·  ←→ adjust  ·  space toggle"@
    }
}

/// The screen of the settings, on which `chosen` is marked. `files` says of
/// a local model's files which are there and how long they are.
pub fn configure(app: &App, files: &Vec<PathFact>, chosen: SettingField) -> (r: ConfigureScreen)
    ensures
        r.title@ == strong("configure"@, Tone::Ink),
        r.note@ == plain(setting_note(chosen), Tone::Muted),
        r.saved@ == plain("saved to  "@ + app@.config_path, Tone::Muted),
        pairs(r.rows@) == setting_rows(app@, files@),
        r.hint@ == plain(hint_for(chosen, app@.config.model.source), Tone::Ice),
        r.detail@ == plain(app@.slot.status_detail, told_tone(app@.slot.status)),
        spans(r.footer@) == key_spans(
            seq![("enter"@, "set"@), ("s"@, "save"@), ("esc"@, "back"@)],
        ),
{
    let mut saved = "saved to  ".to_owned();
    saved.append(app.config_path.as_str());
    let fields = SettingField::all();
    let mut rows: Vec<(String, String)> = Vec::new();
    let mut i: usize = 0;
    while i < fields.len()
        invariant
            fields@ == all_fields(),
            i <= fields.len(),
            pairs(rows@) == setting_rows(app@, files@).take(i as int),
        decreases fields.len() - i,
    {
        let ghost was = pairs(rows@);
        let f = fields[i];
        rows.push((app.setting_label(f).to_owned(), app.setting_value(f, files)));
        proof {
            let s = setting_rows(app@, files@);
            assert(pairs(rows@) =~= was.push(s[i as int]));
            assert(s.take(i + 1) =~= s.take(i as int).push(s[i as int]));
        }
        i = i + 1;
    }
    let note = if chosen == SettingField::SourceKind {
        "enter exact  ·  ←→ switch source  ·  space toggle"
    } else {
        "enter exact  ·  ←→ adjust  ·  space toggle"
    };
    let keys = vec![("enter", "set"), ("s", "save"), ("esc", "back")];
    proof {
        let s = setting_rows(app@, files@);
        assert(s.take(i as int) =~= s);
        assert(keys_of(keys@) =~= seq![("enter"@, "set"@), ("s"@, "save"@), ("esc"@, "back"@)]);
    }
    ConfigureScreen {
        title: strong_span("configure".to_owned(), Tone::Ink),
        note: plain_span(note.to_owned(), Tone::Muted),
        saved: plain_span(saved, Tone::Muted),
        rows,
        hint: plain_span(app.setting_hint(chosen).to_owned(), Tone::Ice),
        detail: plain_span(app.slot.status_detail.clone(), detail_tone(app.slot.status)),
        footer: footer(&keys),
    }
}

/// The screen of the log.
#[derive(Debug)]
pub struct LogScreen {
    pub title: Span,
    pub note: Span,
    pub rows: Vec<Span>,
    pub footer: Vec<Span>,
}

/// The lines of the log that are shown.
pub open spec fn log_rows(logs: Seq<Text>, offset: nat, room: nat) -> Seq<SpanView> {
    let (start, end) = lines_shown(logs.len(), offset, room);
    Seq::new(
        (end - start) as nat,
        |i: int| plain(logs[start + i], line_tone(logs[start + i])),
    )
}

/// The screen of the log, with room for as many lines, up to `offset` before
/// the end.
pub fn logs(app: &App, offset: usize, room: usize) -> (r: LogScreen)
    ensures
        r.title@ == strong("logs"@, Tone::Ink),
        r.note@ == plain(decimal(app@.logs.len()) + " lines"@, Tone::Muted),
        spans(r.rows@) == log_rows(app@.logs, offset as nat, room as nat),
        r.rows@.len() <= room,
        spans(r.footer@) == key_spans(
            seq![("↑↓"@, "scroll"@), ("home/end"@, "jump"@), ("esc"@, "back"@)],
        ),
{
    let n: usize = app.logs.len();
    let mut note = number(n as u64);
    note.append(" lines");
    let (start, end) = log_window(n, offset, room);
    let mut rows: Vec<Span> = Vec::new();
    let mut i: usize = start;
    proof {
        assert(spans(rows@) =~= log_rows(app@.logs, offset as nat, room as nat).take(0));
    }
    while i < end
        invariant
            n == app.logs@.len(),
            app@.logs == texts(app.logs@),
            start <= i <= end <= n,
            (start as int, end as int) == lines_shown(n as nat, offset as nat, room as nat),
            spans(rows@) == log_rows(app@.logs, offset as nat, room as nat).take(i - start),
        decreases end - i,
    {
        let ghost was = spans(rows@);
        let line = &app.logs[i];
        rows.push(plain_span(line.clone(), log_tone(line.as_str())));
        proof {
            let s = log_rows(app@.logs, offset as nat, room as nat);
            assert(app@.logs[i as int] == line@);
            assert(spans(rows@) =~= was.push(s[i - start]));
            assert(s.take(i + 1 - start) =~= s.take(i - start).push(s[i - start]));
        }
        i = i + 1;
    }
    let keys = vec![("↑↓", "scroll"), ("home/end", "jump"), ("esc", "back")];
    proof {
        let s = log_rows(app@.logs, offset as nat, room as nat);
        assert(s.take(i - start) =~= s);
        assert(rows@.len() == spans(rows@).len());
        assert(keys_of(keys@) =~= seq![
            ("↑↓"@, "scroll"@),
            ("home/end"@, "jump"@),
            ("esc"@, "back"@),
        ]);
    }
    LogScreen {
        title: strong_span("logs".to_owned(), Tone::Ink),
        note: plain_span(note, Tone::Muted),
        rows,
        footer: footer(&keys),
    }
}

/// A dialog in front of a screen.
#[derive(Debug)]
pub struct Dialog {
    pub title: Span,
    pub lines: Vec<Vec<Span>>,
}

/// The list of keys.
pub fn help_overlay() -> (r: Dialog)
    ensures
        r.title@ == strong(" keys "@, Tone::Ice),
        lines_of(r.lines@) == seq![
            key_line("s"@, "start or stop the server"@),
            key_line("c"@, "configure the launch profile"@),
            key_line("l"@, "read server output"@),
            key_line("r"@, "restart the server"@),
            key_line("q"@, "quit and stop the managed server"@),
            Seq::<SpanView>::empty(),
            seq![plain("? or esc closes this"@, Tone::Muted)],
        ],
{
    let closing = vec![plain_span("? or esc closes this".to_owned(), Tone::Muted)];
    let gap: Vec<Span> = Vec::new();
    proof {
        assert(spans(closing@) =~= seq![plain("? or esc closes this"@, Tone::Muted)]);
        assert(spans(gap@) =~= Seq::<SpanView>::empty());
    }
    let lines = vec![
        help_line("s", "start or stop the server"),
        help_line("c", "configure the launch profile"),
        help_line("l", "read server output"),
        help_line("r", "restart the server"),
        help_line("q", "quit and stop the managed server"),
        gap,
        closing,
    ];
    Dialog { title: strong_span(" keys ".to_owned(), Tone::Ice), lines }
}

/// What is told where there is no server program.
pub fn missing_server_overlay() -> (r: Dialog)
    ensures
        r.title@ == strong(" llama-server not found "@, Tone::Ice),
        lines_of(r.lines@) == seq![
            seq![plain("Set the executable path before starting inference."@, Tone::Ink)],
            Seq::<SpanView>::empty(),
            key_spans(seq![("enter"@, "configure"@), ("esc"@, "later"@), ("q"@, "quit"@)]),
        ],
{
    let told = vec![
        plain_span("Set the executable path before starting inference.".to_owned(), Tone::Ink),
    ];
    let gap: Vec<Span> = Vec::new();
    let keys = vec![("enter", "configure"), ("esc", "later"), ("q", "quit")];
    proof {
        assert(spans(told@) =~= seq![
            plain("Set the executable path before starting inference."@, Tone::Ink),
        ]);
        assert(spans(gap@) =~= Seq::<SpanView>::empty());
        assert(keys_of(keys@) =~= seq![
            ("enter"@, "configure"@),
            ("esc"@, "later"@),
            ("q"@, "quit"@),
        ]);
    }
    let lines = vec![told, gap, footer(&keys)];
    Dialog { title: strong_span(" llama-server not found ".to_owned(), Tone::Ice), lines }
}

/// The dialog in which a setting is edited.
#[derive(Debug)]
pub struct EditorScreen {
    pub title: Span,
    pub value: Span,
    pub column: u16,
    pub error: Span,
    pub hint: Span,
    pub keys: Span,
}

/// The dialog in which `field` is edited. Its cursor stands after `cursor`
/// bytes of `value`, and the text has `width` columns.
pub fn editor_overlay(
    app: &App,
    field: SettingField,
    value: &str,
    cursor: usize,
    error: &Option<String>,
    width: u16,
) -> (r: EditorScreen)
    requires
        chars_in_bytes(value@, cursor as int) is Some,
    ensures
        r.title@ == strong(
            " "@ + lower(label_for(field, app@.config.model.source)) + " "@,
            Tone::Ice,
        ),
        r.value@ == plain(
            value@.skip(window_of(value@, chars_in_bytes(value@, cursor as int)->0, width).0),
            Tone::Ink,
        ),
        r.column == window_of(value@, chars_in_bytes(value@, cursor as int)->0, width).1,
        width > 0 ==> r.column < width,
        r.error@ == plain(
            match opt_text(*error) {
                Some(told) => told,
                None => ""@,
            },
            Tone::Coral,
        ),
        r.hint@ == plain(hint_for(field, app@.config.model.source), Tone::Muted),
        r.keys@ == plain("enter apply  ·  esc cancel"@, Tone::Muted),
{
    let mut title = " ".to_owned();
    title.append(to_lower(app.setting_label(field)).as_str());
    title.append(" ");
    let (shown, column) = editor_window(value, cursor, width);
    let told = match error {
        Some(told) => told.clone(),
        None => "".to_owned(),
    };
    EditorScreen {
        title: strong_span(title, Tone::Ice),
        value: plain_span(shown, Tone::Ink),
        column,
        error: plain_span(told, Tone::Coral),
        hint: plain_span(app.setting_hint(field).to_owned(), Tone::Muted),
        keys: plain_span("enter apply  ·  esc cancel".to_owned(), Tone::Muted),
    }
}

/// The screens to choose from.
#[derive(Clone, Copy, Debug, PartialEq, Eq, Structural)]
pub enum Screen {
    Dashboard,
    Configure,
    Logs,
    Help,
}

/// What is drawn, each over what was drawn before.
#[derive(Clone, Copy, Debug, PartialEq, Eq, Structural)]
pub enum Layer {
    Dashboard,
    Configure,
    Logs,
    Help,
    MissingServer,
    Editor,
}

/// What is drawn on a screen before the dialogs.
pub open spec fn base_layers(screen: Screen) -> Seq<Layer> {
    match screen {
        Screen::Dashboard => seq![Layer::Dashboard],
        Screen::Configure => seq![Layer::Configure],
        Screen::Logs => seq![Layer::Logs],
        Screen::Help => seq![Layer::Dashboard, Layer::Help],
    }
}

/// What is drawn, from the back to the front.
pub open spec fn layers_of(screen: Screen, missing: bool, editing: bool) -> Seq<Layer> {
    let base = base_layers(screen);
    let told = if missing {
        base.push(Layer::MissingServer)
    } else {
        base
    };
    if editing {
        told.push(Layer::Editor)
    } else {
        told
    }
}

/// What is drawn, from the back to the front.
pub fn render(app: &App, screen: Screen, editing: bool) -> (out: Vec<Layer>)
    ensures
        out@ == layers_of(screen, app@.missing_server_prompt, editing),
{
    let mut out = match screen {
        Screen::Dashboard => vec![Layer::Dashboard],
        Screen::Configure => vec![Layer::Configure],
        Screen::Logs => vec![Layer::Logs],
        Screen::Help => vec![Layer::Dashboard, Layer::Help],
    };
    proof {
        assert(out@ =~= base_layers(screen));
    }
    if app.should_prompt_for_server() {
        out.push(Layer::MissingServer);
    }
    if editing {
        out.push(Layer::Editor);
    }
    out
}

/// The columns left free at either side of a screen.
pub fn margin(width: u16) -> (r: u16)
    ensures
        r == (if width > 72 {
            3u16
        } else {
            1u16
        }),
{
    if width > 72 {
        3
    } else {
        1
    }
}

/// While a setting is edited its dialog is in front of everything else.
pub proof fn law_editor_is_in_front(screen: Screen, missing: bool)
    ensures
        layers_of(screen, missing, true).last() == Layer::Editor,
        layers_of(screen, missing, true).drop_last() == layers_of(screen, missing, false),
        !layers_of(screen, missing, false).contains(Layer::Editor),
{
    let all = layers_of(screen, missing, false);
    assert(layers_of(screen, missing, true).drop_last() =~= all);
    assert(forall|i: int| 0 <= i < all.len() ==> all[i] != Layer::Editor);
}

/// The log is shown from its end: with no scrolling its last line comes last, and
/// the lines keep their order.
pub proof fn law_log_is_shown_from_its_end(logs: Seq<Text>, offset: nat, room: nat, i: int)
    requires
        offset <= logs.len(),
    ensures
        log_rows(logs, offset, room).len() <= room,
        logs.len() - offset >= room ==> log_rows(logs, offset, room).len() == room,
        logs.len() - offset < room ==> log_rows(logs, offset, room).len() == logs.len() - offset,
        0 <= i < log_rows(logs, offset, room).len() ==> log_rows(logs, offset, room)[i].text
            == logs[logs.len() - offset - log_rows(logs, offset, room).len() + i],
{
}

/// The settings page has a row for every setting, with its own value.
pub proof fn law_rows_are_the_settings(a: AppView, files: Seq<PathFact>, i: int)
    requires
        0 <= i < all_fields().len(),
    ensures
        setting_rows(a, files).len() == all_fields().len(),
        setting_rows(a, files)[i].0 == label_for(all_fields()[i], a.config.model.source),
        setting_rows(a, files)[i].1 == shown_value(a, all_fields()[i], files),
{
}

/// The terminal's dashboard shows the state of the server, the model that is
/// shown and where it is reached, and offers to stop what runs and to start what
/// does not.
pub proof fn law_terminal_shows_the_server(
    a: AppView,
    available: u64,
    total: u64,
    size: u64,
    frame: usize,
)
    ensures
        ({
            let d = dashboard_of(a, available, total, size, frame);
            &&& status_word(a.slot.status).is_suffix_of(d.status.text)
            &&& d.model.text == label_of(displayed(a).model.source)
            &&& !pending_changes(a) ==> d.notice.text == a.slot.status_detail
            &&& d.lines.len() == 5
            &&& d.lines[4][1].text == base_url(displayed(a))
            &&& gib_tenths(size).is_prefix_of(d.lines[0][1].text)
            &&& gib_tenths(available).is_prefix_of(d.lines[1][1].text)
        }),
{
    let d = dashboard_of(a, available, total, size, frame);
    let w = status_word(a.slot.status);
    let t = d.status.text;
    assert(t.subrange(t.len() - w.len(), t.len() as int) =~= w);
    let s = d.lines[0][1].text;
    assert(s.subrange(0, gib_tenths(size).len() as int) =~= gib_tenths(size));
    let m = d.lines[1][1].text;
    assert(m.subrange(0, gib_tenths(available).len() as int) =~= gib_tenths(available));
}

} // verus!
