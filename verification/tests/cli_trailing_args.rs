use rucat::OutputFormat;
use rucat::batch::{aggregate_entries, render_json};
use rucat::cli::Args;
use rucat::options::{EffectiveOptions, PersistedSettings, strip_components};
use rucat::syntax::GrammarRegistry;

fn toks(xs: &[&str]) -> Vec<String> {
    xs.iter().map(|s| s.to_string()).collect()
}

fn resolve(tokens: &[&str]) -> Args {
    Args::parse_with_trailing(&toks(tokens), true).unwrap()
}

fn render_with(args: &Args, path: &str, content: &str) -> String {
    let eff = EffectiveOptions::merge(args, &PersistedSettings::empty());
    let reg = GrammarRegistry::new();
    let fmt = eff
        .format
        .into_formatter(
            eff.ansi_width,
            eff.utf8_width,
            eff.line_numbers,
            eff.pretty_syntax.as_deref(),
        )
        .unwrap();
    let disp = strip_components(path, eff.strip);
    fmt.render(&reg, &disp, content)
}

#[test]
fn trailing_numbers_flag() {
    // -n after files
    let args = resolve(&["-f", "ascii", "a.txt", "b.txt", "-n"]);
    let out = format!(
        "{}{}",
        render_with(&args, "a.txt", "hello"),
        render_with(&args, "b.txt", "world")
    );
    assert!(out.contains("1 | hello") && out.contains("1 | world"));

    // --numbers after files
    let args = resolve(&["-f", "ascii", "a.txt", "b.txt", "--numbers"]);
    let out = format!(
        "{}{}",
        render_with(&args, "a.txt", "hello"),
        render_with(&args, "b.txt", "world")
    );
    assert!(out.contains("1 | hello") && out.contains("1 | world"));
}

#[test]
fn trailing_format_flag() {
    // -f after file
    let args = resolve(&["a.txt", "-f", "xml"]);
    let out = render_with(&args, "a.txt", "hello");
    assert!(out.contains("<file path="));

    // --format after file: the aggregate document
    let args = resolve(&["a.txt", "--format", "json"]);
    let eff = EffectiveOptions::merge(&args, &PersistedSettings::empty());
    assert_eq!(eff.format, OutputFormat::Json);
    let reads = vec![("a.txt".to_string(), Some("hello".to_string()))];
    let entries = aggregate_entries(&reads, eff.strip);
    let out = render_json(&entries);
    assert!(out.contains("\"path\":") && out.contains("\"content\":"));
}

#[test]
fn mixed_files_and_flags() {
    let args = resolve(&["a.txt", "-n", "b.txt", "-f", "ascii", "c.txt"]);
    assert_eq!(args.files, vec!["a.txt", "b.txt", "c.txt"]);
    let out = format!(
        "{}{}{}",
        render_with(&args, "a.txt", "first"),
        render_with(&args, "b.txt", "second"),
        render_with(&args, "c.txt", "third")
    );
    assert!(
        out.contains("1 | first")
            && out.contains("1 | second")
            && out.contains("1 | third")
            && out.contains("=== ") // ASCII format header
    );
}

#[test]
fn trailing_strip_flag() {
    let path = "foo/bar/baz.txt";
    let component_count = 3;
    let strip_count = component_count - 1;
    let args = resolve(&["-f", "ascii", path, "--strip", &strip_count.to_string()]);
    let out = render_with(&args, path, "content");
    assert!(out.contains("=== baz.txt ==="));
}

#[test]
fn trailing_width_flags() {
    // --ansi-width after file
    let args = resolve(&["-f", "ansi", "a.txt", "--ansi-width", "30"]);
    let eff = EffectiveOptions::merge(&args, &PersistedSettings::empty());
    assert_eq!(eff.ansi_width, 30);
    render_with(&args, "a.txt", "x");

    // --utf8-width after file
    let args = resolve(&["-f", "utf8", "a.txt", "--utf8-width", "40"]);
    let eff = EffectiveOptions::merge(&args, &PersistedSettings::empty());
    assert_eq!(eff.utf8_width, 40);
    render_with(&args, "a.txt", "x");
}

#[test]
fn trailing_pretty_syntax_flag() {
    let args = resolve(&["-f", "pretty", "a.txt", "--pretty-syntax", "rust"]);
    let out = render_with(&args, "a.txt", "fn main() {}");
    assert!(out.contains("\x1b[")); // Should be highlighted
}

#[test]
fn trailing_unknown_flag_error() {
    let err = Args::parse_with_trailing(&toks(&["a.txt", "--bogus-flag"]), true).unwrap_err();
    assert!(err.message().contains("Unknown flag '--bogus-flag'"));
}

#[test]
fn trailing_flag_missing_value_error() {
    let err = Args::parse_with_trailing(&toks(&["a.txt", "--format"]), true).unwrap_err();
    assert!(err.message().contains("The '--format' flag requires a value"));
}

#[test]
fn trailing_flag_invalid_value_error() {
    // invalid format value
    let err = Args::parse_with_trailing(&toks(&["a.txt", "--format", "bogus"]), true).unwrap_err();
    assert!(err.message().contains("Invalid format 'bogus'"));

    // invalid strip value
    let err =
        Args::parse_with_trailing(&toks(&["a.txt", "--strip", "not-a-number"]), true).unwrap_err();
    assert!(err.message().contains("Invalid value 'not-a-number' for --strip"));
}

#[test]
fn all_flags_after_files() {
    let args = resolve(&["a.rs", "b.rs", "-f", "ascii", "-n", "--strip", "0"]);
    let out = format!(
        "{}{}",
        render_with(&args, "a.rs", "fn main() {}"),
        render_with(&args, "b.rs", "fn test() {}")
    );
    assert!(out.contains("1 | fn main()") && out.contains("1 | fn test()"));
}

#[test]
fn flags_before_and_after_files() {
    let args = resolve(&["-f", "ascii", "a.txt", "-n"]);
    let out = render_with(&args, "a.txt", "hello\nworld");
    assert!(out.contains("1 | hello") && out.contains("2 | world"));
}

#[test]
fn trailing_copy_flag() {
    // -c after file (with the test provider, as a run would)
    let args = resolve(&["a.txt", "-c", "--clipboard-provider-for-test", "osc52"]);
    assert!(args.copy);
    let out = render_with(&args, "a.txt", "hello");
    assert!(out.contains("hello"));

    // --copy after file
    let args = resolve(&["a.txt", "--copy", "--clipboard-provider-for-test", "osc52"]);
    assert!(args.copy);
    let out = render_with(&args, "a.txt", "hello");
    assert!(out.contains("hello"));
}

#[test]
fn trailing_copy_flag_without_feature() {
    // -c after file, clipboard capability off
    let err = Args::parse_with_trailing(&toks(&["a.txt", "-c"]), false).unwrap_err();
    assert!(err.message().contains("The '-c' flag requires the 'clipboard' feature"));

    // --copy as well
    let err = Args::parse_with_trailing(&toks(&["a.txt", "--copy"]), false).unwrap_err();
    assert!(err.message().contains("The '--copy' flag requires the 'clipboard' feature"));
}
