use tealdeer::formatter::{render_page_lines, render_token, Style, StyleConfig};
use tealdeer::tokenizer::{scan_code_spans, tokenize_line, CodeSpan, Token, Tokenizer};

fn page_lines() -> Vec<String> {
    vec![
        "# tar".to_string(),
        "".to_string(),
        "> Archiving utility".to_string(),
        "".to_string(),
        "- List the contents of a file:".to_string(),
        "`tar tf {{file}}`".to_string(),
    ]
}

#[test]
fn code_line_splits_into_literal_and_placeholder_spans() {
    let spans = scan_code_spans("cmd {{file}} --flag");
    assert_eq!(
        spans,
        vec![
            CodeSpan::Literal("cmd ".to_string()),
            CodeSpan::Placeholder("file".to_string()),
            CodeSpan::Literal(" --flag".to_string()),
        ]
    );
}

#[test]
fn unterminated_placeholder_stays_literal() {
    let spans = scan_code_spans("cmd {{file");
    assert_eq!(spans, vec![CodeSpan::Literal("cmd {{file".to_string())]);
}

#[test]
fn adjacent_placeholders_and_empty_literals() {
    let spans = scan_code_spans("{{a}}{{b}}");
    assert_eq!(
        spans,
        vec![
            CodeSpan::Placeholder("a".to_string()),
            CodeSpan::Placeholder("b".to_string()),
        ]
    );
}

#[test]
fn line_kinds_are_recognized() {
    assert_eq!(tokenize_line("# tar"), Some(Token::Title("tar".to_string())));
    assert_eq!(
        tokenize_line("> Archiving utility"),
        Some(Token::Description("Archiving utility".to_string()))
    );
    assert_eq!(
        tokenize_line("- List files:"),
        Some(Token::ExampleText("List files".to_string()))
    );
    assert_eq!(
        tokenize_line("`tar tf {{file}}`"),
        Some(Token::ExampleCode(vec![
            CodeSpan::Literal("tar tf ".to_string()),
            CodeSpan::Placeholder("file".to_string()),
        ]))
    );
    assert_eq!(tokenize_line(""), None);
    // An unrecognized non-blank line passes through rather than being dropped.
    assert_eq!(
        tokenize_line("stray content"),
        Some(Token::Description("stray content".to_string()))
    );
}

#[test]
fn token_stream_is_ordered_and_finite() {
    let mut tok = Tokenizer::new(page_lines());
    assert_eq!(tok.next_token(), Some(Token::Title("tar".to_string())));
    assert_eq!(
        tok.next_token(),
        Some(Token::Description("Archiving utility".to_string()))
    );
    assert_eq!(
        tok.next_token(),
        Some(Token::ExampleText("List the contents of a file".to_string()))
    );
    assert_eq!(
        tok.next_token(),
        Some(Token::ExampleCode(vec![
            CodeSpan::Literal("tar tf ".to_string()),
            CodeSpan::Placeholder("file".to_string()),
        ]))
    );
    assert_eq!(tok.next_token(), None);
    assert_eq!(tok.next_token(), None);
}

#[test]
fn tokens_reproduce_every_nonblank_line() {
    let lines = page_lines();
    let mut tok = Tokenizer::new(lines.clone());
    let mut rebuilt: Vec<String> = Vec::new();
    while let Some(t) = tok.next_token() {
        rebuilt.push(match t {
            Token::Title(x) => format!("# {}", x),
            Token::Description(x) => format!("> {}", x),
            Token::ExampleText(x) => format!("- {}:", x),
            Token::ExampleCode(spans) => {
                let mut line = "`".to_string();
                for sp in spans {
                    match sp {
                        CodeSpan::Literal(x) => line.push_str(&x),
                        CodeSpan::Placeholder(x) => {
                            line.push_str("{{");
                            line.push_str(&x);
                            line.push_str("}}");
                        }
                    }
                }
                line.push('`');
                line
            }
        });
    }
    let nonblank: Vec<String> = lines.into_iter().filter(|l| !l.is_empty()).collect();
    assert_eq!(rebuilt, nonblank);
}

#[test]
fn unstyled_rendering_keeps_content_and_layout_only() {
    let out = render_page_lines(page_lines(), &StyleConfig::no_styles());
    assert_eq!(
        out,
        vec![
            "tar",
            "  Archiving utility",
            "",
            "  List the contents of a file",
            "      tar tf file",
        ]
    );
    for line in &out {
        assert!(!line.contains('\u{1b}'));
    }
}

#[test]
fn styled_rendering_wraps_text_in_escape_codes() {
    let mut cfg = StyleConfig::no_styles();
    cfg.enabled = true;
    cfg.description = Style { color: None, bold: true, underline: false };
    let rendered = render_token(&Token::Description("hi".to_string()), &cfg);
    assert_eq!(rendered, vec!["  \u{1b}[1mhi\u{1b}[0m"]);
}

#[test]
fn styled_placeholder_differs_from_literal_text() {
    let mut cfg = StyleConfig::no_styles();
    cfg.enabled = true;
    cfg.command = Style { color: None, bold: false, underline: false };
    cfg.example_variable = Style { color: None, bold: false, underline: true };
    let rendered = render_token(
        &Token::ExampleCode(vec![
            CodeSpan::Literal("tar tf ".to_string()),
            CodeSpan::Placeholder("file".to_string()),
        ]),
        &cfg,
    );
    assert_eq!(rendered, vec!["      tar tf \u{1b}[4mfile\u{1b}[0m"]);
}
