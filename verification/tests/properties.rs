use rucat::OutputFormat;
use rucat::batch::{FileEntry, aggregate_entries, render_json};
use rucat::cli::Args;
use rucat::formatters::Formatter;
use rucat::formatters::ascii::Ascii;
use rucat::formatters::pretty::Pretty;
use rucat::options::{EffectiveOptions, PersistedSettings, strip_components};
use rucat::syntax::{GrammarRegistry, SyntaxChoice, find_syntax_from_modeline, select_syntax};

fn toks(xs: &[&str]) -> Vec<String> {
    xs.iter().map(|s| s.to_string()).collect()
}

// --- the resolved file list is independent of where the flags stand ---

#[test]
fn file_order_independent_of_flag_position() {
    let mixed = Args::parse_with_trailing(
        &toks(&["a.txt", "-n", "b.txt", "-f", "ascii", "c.txt"]),
        true,
    )
    .unwrap();
    let flags_first = Args::parse_with_trailing(
        &toks(&["-n", "-f", "ascii", "a.txt", "b.txt", "c.txt"]),
        true,
    )
    .unwrap();
    let flags_last = Args::parse_with_trailing(
        &toks(&["a.txt", "b.txt", "c.txt", "-n", "-f", "ascii"]),
        true,
    )
    .unwrap();
    let expected = vec!["a.txt", "b.txt", "c.txt"];
    assert_eq!(mixed.files, expected);
    assert_eq!(flags_first.files, expected);
    assert_eq!(flags_last.files, expected);
    assert_eq!(mixed.format, Some(OutputFormat::Ascii));
    assert!(mixed.line_numbers);
}

#[test]
fn repeated_flag_last_occurrence_wins() {
    let args = Args::parse_with_trailing(
        &toks(&["-f", "xml", "a.txt", "-f", "ascii", "--strip", "1", "--strip", "4"]),
        true,
    )
    .unwrap();
    assert_eq!(args.format, Some(OutputFormat::Ascii));
    assert_eq!(args.strip, Some(4));
}

// --- the per-field precedence of the merge ---

#[test]
fn precedence_invocation_beats_persisted_beats_default() {
    let mut args = Args::parse_with_trailing(&toks(&[]), true).unwrap();
    args.format = Some(OutputFormat::Xml);
    args.strip = Some(7);
    let mut persisted = PersistedSettings::empty();
    persisted.format = Some(OutputFormat::Utf8);
    persisted.strip = Some(3);
    persisted.ansi_width = Some(44);
    persisted.numbers = Some(true);
    let eff = EffectiveOptions::merge(&args, &persisted);
    // invocation value present: it wins
    assert_eq!(eff.format, OutputFormat::Xml);
    assert_eq!(eff.strip, 7);
    // invocation absent, persisted present: the store wins
    assert_eq!(eff.ansi_width, 44);
    assert!(eff.line_numbers);
    // both absent: the built-in default
    assert_eq!(eff.utf8_width, 80);
    assert_eq!(eff.pretty_syntax, None);
}

#[test]
fn precedence_defaults_when_nothing_is_set() {
    let args = Args::parse_with_trailing(&toks(&["a.txt"]), true).unwrap();
    let eff = EffectiveOptions::merge(&args, &PersistedSettings::empty());
    assert_eq!(eff.format, OutputFormat::Markdown);
    assert!(!eff.line_numbers);
    assert_eq!(eff.strip, 0);
    assert_eq!(eff.ansi_width, 80);
    assert_eq!(eff.utf8_width, 80);
    assert_eq!(eff.pretty_syntax, None);
}

// --- resolving twice yields identical effective options ---

#[test]
fn resolution_is_deterministic() {
    let tokens = toks(&["-f", "utf8", "--utf8-width", "33", "a.txt", "-n"]);
    let mut persisted = PersistedSettings::empty();
    persisted.strip = Some(2);
    let e1 = EffectiveOptions::merge(
        &Args::parse_with_trailing(&tokens, true).unwrap(),
        &persisted,
    );
    let mut persisted2 = PersistedSettings::empty();
    persisted2.strip = Some(2);
    let e2 = EffectiveOptions::merge(
        &Args::parse_with_trailing(&tokens, true).unwrap(),
        &persisted2,
    );
    assert_eq!(e1.format, e2.format);
    assert_eq!(e1.line_numbers, e2.line_numbers);
    assert_eq!(e1.strip, e2.strip);
    assert_eq!(e1.ansi_width, e2.ansi_width);
    assert_eq!(e1.utf8_width, e2.utf8_width);
    assert_eq!(e1.pretty_syntax, e2.pretty_syntax);
}

// --- the four syntax tiers ---

#[test]
fn syntax_override_beats_modeline() {
    let reg = GrammarRegistry::new();
    let over = "python".to_string();
    let content = "fn main() {}\n// vim:set x:ft=rust";
    let choice = select_syntax(&reg, Some(&over), "foo.txt", content);
    match choice {
        SyntaxChoice::ExplicitOverride(name) => assert_eq!(name, "Python"),
        other => panic!("expected an override, got {:?}", name_of(&other)),
    }
}

#[test]
fn syntax_modeline_beats_extension() {
    let reg = GrammarRegistry::new();
    let content = "print('hello')\n# vim:set x:ft=python";
    let choice = select_syntax(&reg, None, "foo.rs", content);
    match choice {
        SyntaxChoice::ModelineDetected(name) => assert_eq!(name, "Python"),
        other => panic!("expected a modeline detection, got {:?}", name_of(&other)),
    }
}

#[test]
fn syntax_extension_when_nothing_else() {
    let reg = GrammarRegistry::new();
    let choice = select_syntax(&reg, None, "foo.rs", "fn main() {}");
    match choice {
        SyntaxChoice::ExtensionDetected(name) => assert_eq!(name, "Rust"),
        other => panic!("expected an extension detection, got {:?}", name_of(&other)),
    }
}

#[test]
fn syntax_plaintext_when_all_tiers_fail() {
    let reg = GrammarRegistry::new();
    let choice = select_syntax(&reg, None, "foo.qqqzz", "plain words");
    assert!(matches!(choice, SyntaxChoice::PlainText));
}

#[test]
fn syntax_unrecognized_override_falls_through() {
    let reg = GrammarRegistry::new();
    let over = "no-such-grammar-zzz".to_string();
    let choice = select_syntax(&reg, Some(&over), "foo.rs", "fn main() {}");
    assert!(matches!(choice, SyntaxChoice::ExtensionDetected(_)));
}

fn name_of(c: &SyntaxChoice) -> &'static str {
    match c {
        SyntaxChoice::ExplicitOverride(_) => "override",
        SyntaxChoice::ModelineDetected(_) => "modeline",
        SyntaxChoice::ExtensionDetected(_) => "extension",
        SyntaxChoice::PlainText => "plaintext",
    }
}

// --- the modeline pattern ---

#[test]
fn modeline_two_colon_forms_match() {
    assert_eq!(
        find_syntax_from_modeline("// vim:set px:ft=rust"),
        Some("rust".to_string())
    );
    assert_eq!(
        find_syntax_from_modeline("/* vim: set stuff :filetype=c */"),
        Some("c".to_string())
    );
    assert_eq!(
        find_syntax_from_modeline("# ex:noai:syntax=python"),
        Some("python".to_string())
    );
}

#[test]
fn modeline_first_five_lines_beat_last_five() {
    let content =
        "a\n// vim:x:ft=rust\nb\nc\nd\ne\nf\ng\nh\n// vim:x:ft=toml";
    assert_eq!(find_syntax_from_modeline(content), Some("rust".to_string()));
}

#[test]
fn modeline_last_five_scanned_backwards() {
    let content = "a\nb\nc\nd\ne\nf\n// vim:x:ft=toml\n// vim:x:ft=rust";
    assert_eq!(find_syntax_from_modeline(content), Some("rust".to_string()));
}

#[test]
fn modeline_needs_key_and_value() {
    assert_eq!(find_syntax_from_modeline("// vim:set px:ft="), None);
    assert_eq!(find_syntax_from_modeline("nothing to see here"), None);
    assert_eq!(find_syntax_from_modeline("a:b"), None);
}

// adapted scenario: a file whose content's final line carries a modeline,
// with an unrecognized extension and no override, resolves to the rust
// grammar rather than plain text
#[test]
fn modeline_final_line_resolves_to_rust() {
    let reg = GrammarRegistry::new();
    let content = "fn main() {}\n// vim:set x:ft=rust";
    let choice = select_syntax(&reg, None, "foo.zzz", content);
    match choice {
        SyntaxChoice::ModelineDetected(name) => assert_eq!(name, "Rust"),
        other => panic!("expected a modeline detection, got {:?}", name_of(&other)),
    }
    let fmt = Pretty {
        line_numbers: false,
        syntax_override: None,
    };
    let highlighted = fmt.render(&reg, "foo.zzz", content);
    let plain = fmt.render(&reg, "foo.zzz", "fn main() {}");
    assert_ne!(highlighted, plain);
}

// --- the aggregate strategy ---

#[test]
fn aggregate_omits_failures_keeps_order() {
    let reads = vec![
        ("one.txt".to_string(), Some("first".to_string())),
        ("gone.txt".to_string(), None),
        ("two.txt".to_string(), Some("second".to_string())),
    ];
    let entries = aggregate_entries(&reads, 0);
    assert_eq!(entries.len(), 2); // k - j = 3 - 1
    assert_eq!(entries[0].path, "one.txt");
    assert_eq!(entries[0].content, "first");
    assert_eq!(entries[1].path, "two.txt");
    assert_eq!(entries[1].content, "second");
}

#[test]
fn aggregate_document_matches_reference_serializer() {
    let entries = vec![
        FileEntry {
            path: "a/b.txt".to_string(),
            content: "line one\nline \"two\"\t\\ done\u{1}".to_string(),
        },
        FileEntry {
            path: "c.rs".to_string(),
            content: "fn main() {}".to_string(),
        },
    ];
    let ours = render_json(&entries);

    // the reference escaping comes from the reference serializer; the
    // field order is the entry's own (a JSON map would sort its keys)
    let esc = |s: &str| {
        serde_json::to_string(&serde_json::Value::String(s.to_string())).unwrap()
    };
    let mut reference = String::from("[");
    for (i, e) in entries.iter().enumerate() {
        if i > 0 {
            reference.push(',');
        }
        reference.push_str("\n  {\n    \"path\": ");
        reference.push_str(&esc(&e.path));
        reference.push_str(",\n    \"content\": ");
        reference.push_str(&esc(&e.content));
        reference.push_str("\n  }");
    }
    reference.push_str("\n]");
    assert_eq!(ours, reference);
}

#[test]
fn aggregate_document_empty_batch() {
    let entries: Vec<FileEntry> = Vec::new();
    assert_eq!(render_json(&entries), "[]");
}

// --- scenarios ---

#[test]
fn scenario_interleaved_ascii_numbers() {
    let args = Args::parse_with_trailing(
        &toks(&["a.txt", "-n", "b.txt", "-f", "ascii"]),
        true,
    )
    .unwrap();
    let eff = EffectiveOptions::merge(&args, &PersistedSettings::empty());
    assert_eq!(eff.format, OutputFormat::Ascii);
    assert!(eff.line_numbers);
    assert_eq!(args.files, vec!["a.txt", "b.txt"]);
    let reg = GrammarRegistry::new();
    let fmt = Ascii { line_numbers: true };
    let out = format!(
        "{}{}",
        fmt.render(&reg, "a.txt", "hi"),
        fmt.render(&reg, "b.txt", "yo")
    );
    let first = out.find("1 | hi").expect("first file rendered");
    let second = out.find("1 | yo").expect("second file rendered");
    assert!(first < second);
}

#[test]
fn scenario_format_flag_alone_misses_value() {
    let err = Args::parse_with_trailing(&toks(&["--format"]), true).unwrap_err();
    let msg = err.message();
    assert!(msg.contains("The '--format' flag requires a value"));
}

// --- resolver details ---

#[test]
fn numeric_values_parse_like_std() {
    let ok = Args::parse_with_trailing(&toks(&["--strip", "+12"]), true).unwrap();
    assert_eq!(ok.strip, Some(12));
    assert!(Args::parse_with_trailing(&toks(&["--strip", "-3"]), true).is_err());
    assert!(Args::parse_with_trailing(&toks(&["--strip", ""]), true).is_err());
    assert!(Args::parse_with_trailing(&toks(&["--strip", "1 2"]), true).is_err());
    assert!(
        Args::parse_with_trailing(&toks(&["--strip", "99999999999999999999999999"]), true)
            .is_err()
    );
}

#[test]
fn only_the_aggregate_format_buffers() {
    let all = [
        OutputFormat::Ansi,
        OutputFormat::Xml,
        OutputFormat::Json,
        OutputFormat::Markdown,
        OutputFormat::Ascii,
        OutputFormat::Utf8,
        OutputFormat::Pretty,
    ];
    for f in all {
        // the aggregate format is exactly the one without a streaming
        // renderer
        assert_eq!(f.is_aggregate(), f == OutputFormat::Json);
        assert_eq!(f.into_formatter(80, 80, false, None).is_none(), f.is_aggregate());
    }
}

#[test]
fn every_format_spelling_is_recognized() {
    let cases = [
        ("ansi", OutputFormat::Ansi),
        ("xml", OutputFormat::Xml),
        ("json", OutputFormat::Json),
        ("markdown", OutputFormat::Markdown),
        ("ascii", OutputFormat::Ascii),
        ("utf8", OutputFormat::Utf8),
        ("pretty", OutputFormat::Pretty),
    ];
    for (spelling, expected) in cases {
        let args = Args::parse_with_trailing(&toks(&["-f", spelling]), true).unwrap();
        assert_eq!(args.format, Some(expected));
    }
}

#[test]
fn stdin_is_the_sole_input_only_without_files_and_null_mode() {
    assert!(rucat::batch::uses_stdin(0, false));
    assert!(!rucat::batch::uses_stdin(1, false));
    assert!(!rucat::batch::uses_stdin(0, true));
    assert!(!rucat::batch::uses_stdin(2, true));
}

#[test]
fn nul_split_discards_empty_segments() {
    let bytes: Vec<u8> = b"\0\0a\0\0b\0".to_vec();
    let segments = rucat::batch::split_nul(&bytes);
    assert_eq!(segments, vec![b"a".to_vec(), b"b".to_vec()]);
    assert_eq!(rucat::batch::split_nul(&Vec::new()), Vec::<Vec<u8>>::new());
}

#[test]
fn bare_dash_is_an_unknown_flag() {
    let err = Args::parse_with_trailing(&toks(&["-"]), true).unwrap_err();
    assert!(err.message().contains("Unknown flag '-'"));
}

// --- exact documents ---

#[test]
fn ansi_box_pads_by_byte_width() {
    let reg = GrammarRegistry::new();
    let fmt = rucat::formatters::ansi::Ansi {
        width: 1,
        line_numbers: false,
    };
    // the body line "é" is one character but two bytes; the header
    // " File: p" is eight bytes and sets the interior width
    let out = fmt.render(&reg, "p", "é");
    let expected = "┌────────┐\n│ File: p│\n├────────┤\n│é      │\n└────────┘\n";
    assert_eq!(out, expected);
}

#[test]
fn utf8_box_exact_document() {
    let reg = GrammarRegistry::new();
    let fmt = rucat::formatters::utf8::Utf8 {
        width: 4,
        line_numbers: true,
    };
    let out = fmt.render(&reg, "p", "x\nyz");
    // the header " File: p " is nine bytes and sets the interior; the
    // numbered gutter "1 │ x" is five characters but seven bytes
    let expected = "┌─────────┐\n│ File: p │\n├─────────┤\n│1 │ x  │\n│2 │ yz │\n└─────────┘\n";
    assert_eq!(out, expected);
}

#[test]
fn xml_exact_document_with_escapes() {
    let reg = GrammarRegistry::new();
    let fmt = rucat::formatters::xml::Xml { line_numbers: true };
    let out = fmt.render(&reg, "p", "a<b\n&'c\"");
    let expected = "<file path=\"p\">\n  <line no=\"1\">a&lt;b</line>\n  <line no=\"2\">&amp;&apos;c&quot;</line>\n</file>\n";
    assert_eq!(out, expected);
    let plain = rucat::formatters::xml::Xml {
        line_numbers: false,
    };
    let out = plain.render(&reg, "p", "a>b");
    assert_eq!(out, "<file path=\"p\">a&gt;b</file>\n");
}

#[test]
fn diagnostics_spell_out_the_failure() {
    let err = Args::parse_with_trailing(&toks(&["--format"]), true).unwrap_err();
    assert_eq!(err.message(), "The '--format' flag requires a value");
    let err = Args::parse_with_trailing(&toks(&["--strip", "abc"]), true).unwrap_err();
    assert_eq!(
        err.message(),
        "Invalid value 'abc' for --strip, expected a number"
    );
    let err = Args::parse_with_trailing(&toks(&["-f", "wat"]), true).unwrap_err();
    assert_eq!(
        err.message(),
        "Invalid format 'wat'. Valid formats are: ansi, xml, json, markdown, ascii, utf8, pretty"
    );
}

// --- agreement with the standard library's readings ---

#[test]
fn lines_split_like_std() {
    let reg = GrammarRegistry::new();
    let fmt = Ascii {
        line_numbers: false,
    };
    let cases = [
        "a\r\nb", "a\r", "\n", "", "x\n\ny", "a\nb\r\n", "one\ntwo\nthree", "\r\n\r\n",
    ];
    for content in cases {
        let rendered = fmt.render(&reg, "p", content);
        let mut expected = String::from("=== p ===\n");
        for l in content.lines() {
            expected.push_str(l);
            expected.push('\n');
        }
        assert_eq!(rendered, expected, "content {:?}", content);
    }
}

#[test]
fn extension_read_like_std() {
    let reg = GrammarRegistry::new();
    let fmt = rucat::formatters::markdown::Markdown {
        line_numbers: false,
    };
    let cases = ["foo.rs", "foo", "foo.", "a/.gitignore", "a/b.c.d", "dir.x/file", "x.tar.gz"];
    for path in cases {
        let rendered = fmt.render(&reg, path, "");
        let std_ext = std::path::Path::new(path)
            .extension()
            .and_then(|s| s.to_str())
            .unwrap_or("");
        assert!(
            rendered.contains(&format!("```{}\n", std_ext)),
            "path {:?}: expected fence tag {:?} in {:?}",
            path,
            std_ext,
            rendered
        );
    }
}

#[test]
fn numeric_values_parse_like_std_boundaries() {
    let cases = ["0", "007", "+0", "18446744073709551615", "18446744073709551616", "1.0", "0x10"];
    for value in cases {
        let ours = Args::parse_with_trailing(&toks(&["--strip", value]), true);
        let std_parse = value.parse::<usize>();
        assert_eq!(
            ours.is_ok(),
            std_parse.is_ok(),
            "value {:?} disagreed with the standard parse",
            value
        );
        if let (Ok(a), Ok(n)) = (ours, std_parse) {
            assert_eq!(a.strip, Some(n));
        }
    }
}

// --- paths ---

#[test]
fn strip_never_removes_the_final_component() {
    assert_eq!(strip_components("foo/bar/baz.h", 99), "baz.h");
    assert_eq!(strip_components("baz.h", 5), "baz.h");
    assert_eq!(strip_components("foo/bar/baz.h", 0), "foo/bar/baz.h");
    assert_eq!(strip_components("/a/b/c", 1), "a/b/c");
    assert_eq!(strip_components("/a/b/c", 2), "b/c");
}
