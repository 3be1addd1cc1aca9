use tinyinference::address::Ipv4;
use tinyinference::app::App;
use tinyinference::appearance::{Appearance, UiFontScale, UiTheme};
use tinyinference::config::{Config, ModelSource};
use tinyinference::disk::PathFact;
use tinyinference::fresh::{Clock, Fresh};
use tinyinference::listen::LocalAddrs;
use tinyinference::screens::{
    configure, dashboard, editor_overlay, footer, format_tokens, help_line, help_overlay,
    info_line, logs, margin, missing_server_overlay, plural, render, Dashboard, Dialog, Layer,
    Screen, Span,
};
use tinyinference::settings::SettingField;
use tinyinference::slot::ServerStatus;
use tinyinference::system::Machine;
use tinyinference::terminal::Tone;
use tinyinference::units::GIB;

fn app_with(config: Config, found: bool) -> App {
    let look = Appearance {
        theme: UiTheme::System,
        font_body: "inter".into(),
        font_display: "inter".into(),
        font_mono: "mono".into(),
        font_scale: UiFontScale::Default,
    };
    let local = LocalAddrs { lan: vec![Ipv4 { a: 10, b: 0, c: 0, d: 5 }], tailscale: Vec::new() };
    let fresh = Fresh::draw(0, &Clock { seconds: 1, nanos: 2, pid: 3 });
    App::new(
        config,
        "test.toml",
        &look,
        found,
        false,
        &local,
        &fresh,
        Err("no certificate".into()),
        0,
    )
}

fn line_text(line: &Vec<Span>) -> String {
    line.iter().map(|span| span.text.as_str()).collect()
}

fn dashboard_text(screen: &Dashboard) -> String {
    let mut all = vec![
        line_text(&screen.title),
        screen.status.text.clone(),
        screen.notice.text.clone(),
        screen.model.text.clone(),
    ];
    all.extend(screen.lines.iter().map(line_text));
    all.push(line_text(&screen.footer));
    all.join("\n")
}

fn dialog_text(dialog: &Dialog) -> String {
    let mut all = vec![dialog.title.text.clone()];
    all.extend(dialog.lines.iter().map(line_text));
    all.join("\n")
}

fn machine() -> Machine {
    Machine::detect(16 * GIB, 12 * GIB, &vec!["CPU".to_string()], Some(1))
}

fn rendered_dashboard() -> String {
    let mut app = app_with(Config::default(), true);
    app.dismiss_server_prompt();
    assert_eq!(render(&app, Screen::Dashboard, false), vec![Layer::Dashboard]);
    dashboard_text(&dashboard(&app, &machine(), &Vec::new(), 0))
}

#[test]
fn dashboard_describes_disk_mapping_without_ram_requirement() {
    let text = rendered_dashboard();
    assert!(text.contains("59.1 GiB mapped from disk"));
    assert!(text.contains("not required to fit in RAM"));
    assert!(text.contains("MoE · 5.1B active/token"));
    assert!(!text.contains("GiB needed"));
    assert!(!text.contains("MEMORY RUNWAY"));
    assert!(!text.contains("LAUNCH COMMAND"));
}

#[test]
fn dashboard_keeps_core_controls_visible() {
    let text = rendered_dashboard();
    assert!(text.contains("ggml-org/gpt-oss-120b-GGUF"));
    assert!(text.contains("configure"));
    assert!(text.contains("logs"));
}

#[test]
fn local_models_do_not_claim_gpt_oss_active_parameter_count() {
    let mut config = Config::default();
    config.model.source = ModelSource::Local("other-model.gguf".into());
    let mut app = app_with(config, true);
    app.dismiss_server_prompt();
    let text = dashboard_text(&dashboard(&app, &machine(), &Vec::new(), 0));
    assert!(text.contains("other-model.gguf"));
    assert!(!text.contains("active/token"));
}

#[test]
fn missing_server_prompt_explains_the_next_action() {
    let mut config = Config::default();
    config.server.executable = "__tinyinference_missing_server__".into();
    let app = app_with(config, false);
    assert_eq!(
        render(&app, Screen::Dashboard, false),
        vec![Layer::Dashboard, Layer::MissingServer]
    );
    let text = dialog_text(&missing_server_overlay());
    assert!(text.contains("llama-server not found"));
    assert!(text.contains("Set the executable path"));
    assert!(text.contains("enter"));
    assert!(text.contains("configure"));
    assert!(text.ends_with("enter configure  ·  esc later  ·  q quit"));
}

#[test]
fn the_first_screen_follows_the_server() {
    let mut app = app_with(Config::default(), true);
    app.slot.status = ServerStatus::Starting;
    app.slot.process = Some(7);
    app.slot.endpoint_online = true;
    let screen = dashboard(&app, &machine(), &Vec::new(), 4);
    assert_eq!(line_text(&screen.title), "tinyinference");
    assert_eq!(screen.status.text, "✦ starting");
    assert_eq!(screen.status.tone, Tone::Ice);
    assert_eq!(line_text(&screen.lines[1]), "ram       12.0 GiB available · 16.0 GiB total");
    assert_eq!(
        line_text(&screen.lines[2]),
        "runtime   CPU · 8K context · batch 8 · 1 slot"
    );
    assert_eq!(screen.lines[4][1].tone, Tone::Mint);
    assert_eq!(
        line_text(&screen.footer),
        "s stop  ·  c configure  ·  l logs  ·  ? help  ·  q quit"
    );
}

fn configure_text(app: &App, files: &Vec<PathFact>, chosen: SettingField) -> String {
    let screen = configure(app, files, chosen);
    let mut all = vec![screen.title.text, screen.note.text, screen.saved.text];
    all.extend(screen.rows.iter().map(|(name, value)| format!("{name}  {value}")));
    all.extend([screen.hint.text, screen.detail.text, line_text(&screen.footer)]);
    all.join("\n")
}

#[test]
fn configure_screen_explains_repo_paths_and_server_lookup() {
    let mut app = app_with(Config::default(), true);
    app.dismiss_server_prompt();
    let text = configure_text(&app, &Vec::new(), SettingField::SourceKind);
    assert!(text.contains("Model repository"));
    assert!(text.contains("llama-server path"));
    assert!(text.contains("llama-server  (from PATH)"));
    assert!(text.contains("switch source"));

    app.adjust_field(SettingField::SourceKind, 1);
    let text = configure_text(&app, &Vec::new(), SettingField::SourceKind);
    assert!(text.contains("GGUF file path"));
    assert!(text.contains("<enter path to .gguf>"));
}

#[test]
fn settings_have_a_screen() {
    let mut app = app_with(Config::default(), true);
    let screen = configure(&app, &Vec::new(), SettingField::Jinja);
    assert_eq!(screen.title.text, "configure");
    assert_eq!(screen.saved.text, "saved to  test.toml");
    assert_eq!(screen.rows.len(), 22);
    assert_eq!(screen.rows[1].0, "Model repository");
    assert_eq!(screen.rows[3].0, "llama-server path");
    assert_eq!(screen.rows[3].1, "llama-server  (from PATH)");
    assert_eq!(screen.hint.text, "Uses the model's Jinja chat template.");
    assert_eq!(line_text(&screen.footer), "enter set  ·  s save  ·  esc back");
    app.adjust_field(SettingField::SourceKind, 1);
    let screen = configure(&app, &Vec::new(), SettingField::Model);
    assert_eq!(screen.rows[1].0, "GGUF file path");
    assert_eq!(screen.rows[1].1, "<enter path to .gguf>");
}

#[test]
fn the_log_has_a_screen() {
    let mut app = app_with(Config::default(), true);
    app.logs = vec!["$ run".into(), "plain".into(), "it failed".into()];
    let screen = logs(&app, 0, 2);
    assert_eq!(screen.note.text, "3 lines");
    assert_eq!(screen.rows.len(), 2);
    assert_eq!((screen.rows[0].text.as_str(), screen.rows[0].tone), ("plain", Tone::Ink));
    assert_eq!((screen.rows[1].text.as_str(), screen.rows[1].tone), ("it failed", Tone::Coral));
    let screen = logs(&app, 2, 2);
    assert_eq!(screen.rows.len(), 1);
    assert_eq!((screen.rows[0].text.as_str(), screen.rows[0].tone), ("$ run", Tone::Ice));
    assert_eq!(
        line_text(&screen.footer),
        "↑↓ scroll  ·  home/end jump  ·  esc back"
    );
}

#[test]
fn a_setting_is_edited_in_front() {
    let app = app_with(Config::default(), true);
    assert_eq!(
        render(&app, Screen::Help, true),
        vec![Layer::Dashboard, Layer::Help, Layer::Editor]
    );
    let error = Some("Enter port as a whole number.".to_string());
    let screen = editor_overlay(&app, SettingField::Model, "abcdef", 6, &error, 4);
    assert_eq!(screen.title.text, " model repository ");
    assert_eq!(screen.value.text, "def");
    assert_eq!(screen.column, 3);
    assert_eq!(screen.error.text, "Enter port as a whole number.");
    assert_eq!(screen.keys.text, "enter apply  ·  esc cancel");
}

#[test]
fn lines_are_laid_out() {
    assert_eq!(line_text(&info_line("ram", "x".into(), Tone::Ink)), "ram       x");
    assert_eq!(line_text(&help_line("s", "start")), "    s  start");
    assert_eq!(line_text(&footer(&vec![("q", "quit")])), "q quit");
    assert!(footer(&Vec::new()).is_empty());
    assert_eq!(format_tokens(8192), "8K");
    assert_eq!(format_tokens(1000), "1000");
    assert_eq!((plural(1, "slot", "slots"), plural(2, "slot", "slots")), ("slot", "slots"));
    assert_eq!((margin(72), margin(73)), (1, 3));
    assert!(dialog_text(&help_overlay()).contains("    r  restart the server"));
}
