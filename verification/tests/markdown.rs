use rucat::formatters::Formatter;
use rucat::formatters::markdown::Markdown;
use rucat::syntax::GrammarRegistry;

#[test]
fn md_basic() {
    let reg = GrammarRegistry::new();
    let fmt = Markdown {
        line_numbers: false,
    }; // instantiate struct
    let out = fmt.render(&reg, "foo.rs", "fn main(){}");
    assert!(out.contains("```rs"));
}
