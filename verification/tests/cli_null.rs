use rucat::batch::split_nul;
use rucat::cli::Args;
use rucat::formatters::Formatter;
use rucat::formatters::ascii::Ascii;
use rucat::syntax::GrammarRegistry;

#[test]
fn null_list_is_respected() {
    let f1 = "a.txt";
    let f2 = "b.txt";
    let input = format!("{}\0{}", f1, f2);

    let tokens: Vec<String> = vec!["-0".to_string(), "-f".to_string(), "ascii".to_string()];
    let args = Args::parse_with_trailing(&tokens, true).unwrap();
    assert!(args.null_sep);

    let segments = split_nul(&input.into_bytes());
    let paths: Vec<String> = segments
        .into_iter()
        .map(|s| String::from_utf8(s).unwrap())
        .collect();
    assert_eq!(paths, vec![f1.to_string(), f2.to_string()]);

    let reg = GrammarRegistry::new();
    let fmt = Ascii {
        line_numbers: false,
    };
    let mut out = String::new();
    for p in &paths {
        // each listed file holds its own name as content
        out.push_str(&fmt.render(&reg, p, p));
    }
    assert_eq!(out.matches("=== ").count(), 2); // both headers printed
}
