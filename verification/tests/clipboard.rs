use base64::Engine as _;
use base64::engine::general_purpose;
use rucat::cli::Args;
use rucat::clipboard::ClipboardProvider;
use rucat::formatters::Formatter;
use rucat::formatters::markdown::Markdown;
use rucat::syntax::GrammarRegistry;

fn toks(xs: &[&str]) -> Vec<String> {
    xs.iter().map(|s| s.to_string()).collect()
}

// This test is cross-platform. It uses the hidden test flag to force an OSC provider.
#[test]
fn copy_flag_still_prints_to_stdout() {
    let args = Args::parse_with_trailing(
        &toks(&["--copy", "--clipboard-provider-for-test", "osc52", "a.txt"]),
        true,
    )
    .unwrap();
    assert!(args.copy);
    let reg = GrammarRegistry::new();
    let fmt = Markdown {
        line_numbers: false,
    };
    // the rendered document still goes to the primary sink, unchanged
    let out = fmt.render(&reg, "a.txt", "hello world");
    assert!(out.contains("hello world"));
}

// It forces the OSC 5522 provider via the hidden flag to verify the
// correct escape sequence is generated on any OS.
#[test]
fn force_osc5522_provider_works_on_all_platforms() {
    let input_content = "hello kitty";
    // the default format is Markdown; when reading from stdin, the path is "-"
    let expected_formatted_output = format!("---\nFile: -\n---\n```\n{input_content}\n```\n");
    let b64_content = general_purpose::STANDARD.encode(&expected_formatted_output);

    let reg = GrammarRegistry::new();
    let fmt = Markdown {
        line_numbers: false,
    };
    let out = fmt.render(&reg, "-", input_content);
    assert_eq!(out, expected_formatted_output);

    let seq = ClipboardProvider::Osc5522.copy_to_clipboard(&out);
    assert!(seq.contains(&b64_content));
    assert!(seq.starts_with("\x1b]5522;"));
    assert!(seq.ends_with("\x07"));
}

// Same as above for the OSC 52 provider.
#[test]
fn force_osc52_provider_works_on_all_platforms() {
    let input_content = "hello tmux";
    let expected_formatted_output = format!("---\nFile: -\n---\n```\n{input_content}\n```\n");
    let b64_content = general_purpose::STANDARD.encode(&expected_formatted_output);

    let reg = GrammarRegistry::new();
    let fmt = Markdown {
        line_numbers: false,
    };
    let out = fmt.render(&reg, "-", input_content);
    assert_eq!(out, expected_formatted_output);

    let seq = ClipboardProvider::Osc52.copy_to_clipboard(&out);
    assert!(seq.contains(&b64_content));
    assert!(seq.starts_with("\x1b]52;c;"));
    assert!(seq.ends_with("\x07"));
}

// The hidden test flag fails gracefully when given a bad provider name.
#[test]
fn invalid_test_provider_fails_gracefully() {
    assert!(ClipboardProvider::from_name("bogus-provider-name").is_none());
    assert!(ClipboardProvider::from_name("osc52").is_some());
    assert!(ClipboardProvider::from_name("osc5522").is_some());
}
