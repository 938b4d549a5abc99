//! Styles of the terminal.

use karakuri::ui::{color_enabled, Ui};

const SGR_RESET: &str = "\x1b[0m";

#[test]
fn disabled_styles_have_no_escape_codes() {
    let ui = Ui::new(false);
    let cases: Vec<(&str, String)> = vec![
        ("dim", ui.dim("abc")),
        ("bold", ui.bold("abc")),
        ("italic", ui.italic("abc")),
        ("green", ui.green("abc")),
        ("cyan", ui.cyan("abc")),
        ("red", ui.red("abc")),
        ("yellow", ui.yellow("abc")),
        ("green_bold", ui.green_bold("abc")),
        ("cyan_bold", ui.cyan_bold("abc")),
        ("red_bold", ui.red_bold("abc")),
        (
            "tool_allowed",
            ui.tool_allowed("read_file", "{\"path\":\"x\"}"),
        ),
        ("tool_denied", ui.tool_denied("write_file")),
        ("reasoning_open", ui.reasoning_open().to_string()),
        ("reset", ui.reset().to_string()),
    ];
    for (name, output) in &cases {
        assert!(
            !output.contains('\x1b'),
            "{name}: disabled output leaked escape code: {output:?}"
        );
    }
}

#[test]
fn disabled_styles_return_verbatim_text() {
    let ui = Ui::new(false);
    assert_eq!(ui.dim("abc"), "abc");
    assert_eq!(ui.green_bold("You: "), "You: ");
    assert_eq!(ui.cyan_bold("AI: "), "AI: ");
    assert_eq!(ui.red_bold("error:"), "error:");
    assert_eq!(
        ui.tool_allowed("read_file", "{\"path\":\"x\"}"),
        "🔧 read_file {\"path\":\"x\"}"
    );
    assert_eq!(
        ui.tool_denied("write_file"),
        "🚫 write_file (permission denied)"
    );
    assert_eq!(ui.reasoning_open(), "");
    assert_eq!(ui.reset(), "");
}

#[test]
fn enabled_styles_wrap_with_sgr_and_reset() {
    let ui = Ui::new(true);
    let cases: Vec<(&str, &str, String)> = vec![
        ("dim", "\x1b[2m", ui.dim("abc")),
        ("bold", "\x1b[1m", ui.bold("abc")),
        ("italic", "\x1b[3m", ui.italic("abc")),
        ("green", "\x1b[32m", ui.green("abc")),
        ("cyan", "\x1b[36m", ui.cyan("abc")),
        ("red", "\x1b[31m", ui.red("abc")),
        ("yellow", "\x1b[33m", ui.yellow("abc")),
        ("green_bold", "\x1b[32m\x1b[1m", ui.green_bold("abc")),
        ("cyan_bold", "\x1b[36m\x1b[1m", ui.cyan_bold("abc")),
        ("red_bold", "\x1b[31m\x1b[1m", ui.red_bold("abc")),
        (
            "tool_allowed",
            "\x1b[2m",
            ui.tool_allowed("read_file", "{\"path\":\"x\"}"),
        ),
        ("tool_denied", "\x1b[31m", ui.tool_denied("write_file")),
    ];
    for (name, prefix, output) in &cases {
        assert!(
            output.starts_with(prefix),
            "{name}: expected prefix {prefix:?}, got {output:?}"
        );
        assert!(
            output.ends_with(SGR_RESET),
            "{name}: expected reset suffix, got {output:?}"
        );
    }
    assert_eq!(ui.reasoning_open(), "\x1b[2;3m");
    assert_eq!(ui.reset(), "\x1b[0m");
}

#[test]
fn tool_allowed_composes_dim_cyan_and_dim_args() {
    let ui = Ui::new(true);
    let line = ui.tool_allowed("read_file", "{\"path\":\"x\"}");
    assert_eq!(
        line,
        "\x1b[2m🔧 \x1b[36mread_file\x1b[39m {\"path\":\"x\"}\x1b[0m"
    );
}

#[test]
fn tool_denied_composes_red_and_bold_name() {
    let ui = Ui::new(true);
    let line = ui.tool_denied("write_file");
    assert_eq!(
        line,
        "\x1b[31m🚫 \x1b[1mwrite_file\x1b[22m (permission denied)\x1b[0m"
    );
}

#[test]
fn color_enabled_truth_table() {
    assert!(!color_enabled(false, None, None));
    assert!(!color_enabled(false, Some(""), None));
    assert!(!color_enabled(false, None, Some("1")));
    assert!(!color_enabled(false, None, Some("true")));
    assert!(!color_enabled(false, None, Some("0")));

    assert!(color_enabled(true, None, None));

    assert!(color_enabled(true, None, Some("0")));
    assert!(color_enabled(true, None, Some("false")));
    assert!(color_enabled(true, None, Some("")));
    assert!(color_enabled(true, None, None));

    assert!(!color_enabled(true, Some(""), None));
    assert!(!color_enabled(true, Some("1"), None));
    assert!(!color_enabled(true, Some("0"), None));
    assert!(!color_enabled(true, Some("anything"), None));

    assert!(!color_enabled(true, Some(""), Some("0")));
    assert!(!color_enabled(true, Some(""), Some("false")));

    assert!(!color_enabled(true, None, Some("1")));
    assert!(!color_enabled(true, None, Some("true")));
    assert!(!color_enabled(true, None, Some("TRUE")));
    assert!(!color_enabled(true, None, Some(" True ")));
    assert!(!color_enabled(true, None, Some("1 ")));
}

#[test]
fn styles_are_switched() {
    assert!(Ui::new(true).enabled());
    assert!(!Ui::new(false).enabled());
}
