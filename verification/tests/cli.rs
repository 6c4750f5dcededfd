use rucat::cli::Args;
use rucat::options::{EffectiveOptions, PersistedSettings, strip_components};
use rucat::syntax::GrammarRegistry;

fn toks(xs: &[&str]) -> Vec<String> {
    xs.iter().map(|s| s.to_string()).collect()
}

// Resolve a token list, merge with the given settings, and render one
// input through the selected formatter, as a run of the tool would.
fn run_one(tokens: &[&str], persisted: &PersistedSettings, path: &str, content: &str) -> String {
    let args = Args::parse_with_trailing(&toks(tokens), true).unwrap();
    let eff = EffectiveOptions::merge(&args, persisted);
    let reg = GrammarRegistry::new();
    let fmt = eff
        .format
        .into_formatter(
            eff.ansi_width,
            eff.utf8_width,
            eff.line_numbers,
            eff.pretty_syntax.as_deref(),
        )
        .unwrap();
    let disp = strip_components(path, eff.strip);
    fmt.render(&reg, &disp, content)
}

fn run_plain(tokens: &[&str], path: &str, content: &str) -> String {
    run_one(tokens, &PersistedSettings::empty(), path, content)
}

#[test]
fn cli_ascii_numbers() {
    let out = run_plain(&["-f", "ascii", "-n", "a.txt"], "a.txt", "hello\nworld\n");
    assert!(out.contains("1 | hello") && out.contains("2 | world"));
}

#[test]
fn cli_directory_recursion() {
    // two files of an expanded directory, rendered in order
    let out_x = run_plain(&["-f", "markdown", "x.rs"], "x.rs", "fn main(){}");
    let out_y = run_plain(&["-f", "markdown", "y.c"], "y.c", "int main(){}");
    let combined = format!("{}{}", out_x, out_y);
    assert_eq!(combined.matches("File:").count(), 2); // header appears twice
}

#[test]
fn cli_invalid_format_fails() {
    let err = Args::parse_with_trailing(&toks(&["--format", "bogus"]), true).unwrap_err();
    assert!(err.message().contains("Invalid format 'bogus'"));
}

#[test]
fn cli_strip_components() {
    let disp = strip_components("foo/bar/baz.h", 2);
    assert_eq!(disp, "baz.h");
    // after --strip 2 the printed header must end with "baz.h"
    let out = run_plain(&["-f", "ascii", "--strip", "2", "foo/bar/baz.h"], "foo/bar/baz.h", "x");
    assert!(out.contains("baz.h"));
}

#[test]
fn cli_pretty_default_by_extension() {
    let out = run_plain(&["-f", "pretty", "a.rs"], "a.rs", "fn main() {}");
    assert!(out.contains("\x1b[")); // Should be highlighted
}

#[test]
fn cli_pretty_syntax_flag_overrides_extension() {
    // A .txt file with rust content
    let out_rust = run_plain(
        &["-f", "pretty", "--pretty-syntax", "rust", "a.txt"],
        "a.txt",
        "fn main() {}",
    );
    let out_plain = run_plain(&["-f", "pretty", "a.txt"], "a.txt", "fn main() {}");
    assert_ne!(
        out_rust, out_plain,
        "Highlighting with flag should differ from highlighting by extension"
    );
}

#[test]
fn cli_pretty_modeline_overrides_extension() {
    // A .txt file with rust content and a modeline
    let out = run_plain(&["-f", "pretty", "b.txt"], "b.txt", "fn main() {}\n// vim: ft=rust");
    assert!(out.contains("\x1b[")); // Should be highlighted as Rust
}

#[test]
fn cli_pretty_flag_overrides_modeline() {
    // A file with shell content, a modeline for TOML, but overridden by flag for shell
    let content = "echo 'hello'\n# vim: ft=toml";
    let out_sh = run_plain(&["-f", "pretty", "--pretty-syntax", "sh", "c.txt"], "c.txt", content);
    assert!(out_sh.contains("\x1b[")); // Should be highlighted
    let out_toml = run_plain(&["-f", "pretty", "c.txt"], "c.txt", content);
    assert!(out_toml.contains("\x1b[")); // Should be highlighted
    assert_ne!(
        out_sh, out_toml,
        "Syntax highlighting from CLI flag and modeline should differ"
    );
}

#[test]
fn cli_pretty_config_file_is_used() {
    // the persisted store names 'rust' as the syntax override
    let mut persisted = PersistedSettings::empty();
    persisted.pretty_syntax = Some("rust".to_string());
    let out = run_one(&["-f", "pretty", "d.txt"], &persisted, "d.txt", "fn main() {}");
    assert!(out.contains("\x1b[")); // Should be highlighted as Rust due to config
}

#[test]
fn cli_pretty_config_is_overridden_by_flag() {
    // the persisted store wants 'toml'; the flag wants 'sh'
    let mut persisted = PersistedSettings::empty();
    persisted.pretty_syntax = Some("toml".to_string());
    let out_sh_from_flag = run_one(
        &["-f", "pretty", "--pretty-syntax", "sh", "e.txt"],
        &persisted,
        "e.txt",
        "echo 'hello'",
    );
    let out_toml_from_config = run_one(&["-f", "pretty", "e.txt"], &persisted, "e.txt", "echo 'hello'");
    assert_ne!(
        out_sh_from_flag, out_toml_from_config,
        "Highlighting from CLI flag should override config file"
    );
}
