//! The renderer: it consumes a token stream and a style configuration and
//! produces styled output lines, one (or, for code, one per span sequence)
//! per token, with layout preserved when styling is off.

use vstd::prelude::*;
use vstd::string::StringExecFns;
use crate::tokenizer::{SpanModel, Token, TokenModel, Tokenizer, tokens_of};

verus! {

broadcast use vstd::string::group_string_axioms;

/// One display style: an optional 256-colour palette index, emphasis and
/// underline flags. A style with none of them set paints text unchanged.
#[derive(Clone, Copy, Debug)]
pub struct Style {
    pub color: Option<u8>,
    pub bold: bool,
    pub underline: bool,
}

impl Style {
    pub open spec fn is_plain(self) -> bool {
        self.color is None && !self.bold && !self.underline
    }

    /// A style that paints text unchanged.
    pub fn plain() -> (r: Style)
        ensures
            r.is_plain(),
    {
        Style { color: None, bold: false, underline: false }
    }
}

/// The per-kind display styles, and the global styling switch.
#[derive(Clone, Copy, Debug)]
pub struct StyleConfig {
    /// Whether any styling is applied at all.
    pub enabled: bool,
    pub title: Style,
    pub description: Style,
    pub example_text: Style,
    pub command: Style,
    pub example_variable: Style,
}

impl StyleConfig {
    /// A configuration with styling switched off.
    pub fn no_styles() -> (r: StyleConfig)
        ensures
            !r.enabled,
    {
        StyleConfig {
            enabled: false,
            title: Style::plain(),
            description: Style::plain(),
            example_text: Style::plain(),
            command: Style::plain(),
            example_variable: Style::plain(),
        }
    }
}

/// What painting text with a style yields: the terminal's escape prefix for
/// the style, the text, and the escape suffix.
pub uninterp spec fn painted(
    color: Option<u8>,
    bold: bool,
    underline: bool,
    text: Seq<char>,
) -> Seq<char>;

/// Relies on ansi_term's `Style::paint` (with `Colour::Fixed` for the colour):
/// displaying the painted string writes the style's escape prefix, the text
/// unchanged, and the escape suffix; for a plain style both prefix and suffix
/// are empty, so the text comes back unchanged.
#[verifier::external_body]
fn paint(color: Option<u8>, bold: bool, underline: bool, text: &str) -> (r: String)
    ensures
        r@ == painted(color, bold, underline, text@),
        color is None && !bold && !underline ==> r@ == text@,
{
    let mut style = ansi_term::Style::new();
    if let Some(c) = color {
        style = style.fg(ansi_term::Color::Fixed(c));
    }
    if bold {
        style = style.bold();
    }
    if underline {
        style = style.underline();
    }
    format!("{}", style.paint(text))
}

/// Apply one style to a piece of text, when styling is enabled.
pub open spec fn styled_spec(st: Style, enabled: bool, text: Seq<char>) -> Seq<char> {
    if enabled {
        painted(st.color, st.bold, st.underline, text)
    } else {
        text
    }
}

fn apply_style(st: &Style, enabled: bool, text: &str) -> (r: String)
    ensures
        r@ == styled_spec(*st, enabled, text@),
{
    if enabled {
        paint(st.color, st.bold, st.underline, text)
    } else {
        text.to_owned()
    }
}

/// The rendering of one code span: literal text in the command style, a
/// placeholder's name in its own, visually distinct style.
pub open spec fn span_render(sp: SpanModel, cfg: StyleConfig) -> Seq<char> {
    match sp {
        SpanModel::Literal(t) => styled_spec(cfg.command, cfg.enabled, t),
        SpanModel::Placeholder(n) => styled_spec(cfg.example_variable, cfg.enabled, n),
    }
}

/// The rendering of a whole code line's spans, concatenated in order.
pub open spec fn spans_render(sps: Seq<SpanModel>, cfg: StyleConfig) -> Seq<char>
    decreases sps.len(),
{
    if sps.len() == 0 {
        Seq::empty()
    } else {
        spans_render(sps.drop_last(), cfg) + span_render(sps.last(), cfg)
    }
}

/// The output lines one token yields. The title stands alone; descriptions
/// and example texts are indented by two spaces; each example text is
/// preceded by one blank line, separating it from the block before it; a code
/// line is indented by six spaces.
pub open spec fn token_render(t: TokenModel, cfg: StyleConfig) -> Seq<Seq<char>> {
    match t {
        TokenModel::Title(x) => seq![styled_spec(cfg.title, cfg.enabled, x)],
        TokenModel::Description(x) => seq!["  "@ + styled_spec(cfg.description, cfg.enabled, x)],
        TokenModel::ExampleText(x) => seq![
            Seq::<char>::empty(),
            "  "@ + styled_spec(cfg.example_text, cfg.enabled, x),
        ],
        TokenModel::ExampleCode(sps) => seq!["      "@ + spans_render(sps, cfg)],
    }
}

/// The output lines of a whole token sequence, in token order.
pub open spec fn render_tokens(ts: Seq<TokenModel>, cfg: StyleConfig) -> Seq<Seq<char>>
    decreases ts.len(),
{
    if ts.len() == 0 {
        Seq::empty()
    } else {
        token_render(ts[0], cfg) + render_tokens(ts.drop_first(), cfg)
    }
}

/// Render one token into its output lines.
pub fn render_token(t: &Token, cfg: &StyleConfig) -> (r: Vec<String>)
    ensures
        r.deep_view() == token_render(t@, *cfg),
{
    let mut out: Vec<String> = Vec::new();
    match t {
        Token::Title(x) => {
            out.push(apply_style(&cfg.title, cfg.enabled, x.as_str()));
            proof {
                assert(out.deep_view() =~= token_render(t@, *cfg));
            }
        },
        Token::Description(x) => {
            let mut line: String = "  ".to_owned();
            line.append(apply_style(&cfg.description, cfg.enabled, x.as_str()).as_str());
            out.push(line);
            proof {
                assert(out.deep_view() =~= token_render(t@, *cfg));
            }
        },
        Token::ExampleText(x) => {
            out.push(String::new());
            let mut line: String = "  ".to_owned();
            line.append(apply_style(&cfg.example_text, cfg.enabled, x.as_str()).as_str());
            out.push(line);
            proof {
                assert(out.deep_view() =~= token_render(t@, *cfg));
            }
        },
        Token::ExampleCode(spans) => {
            let mut line: String = "      ".to_owned();
            let mut k: usize = 0;
            while k < spans.len()
                invariant
                    k <= spans@.len(),
                    line@ == "      "@ + spans_render(spans.deep_view().subrange(0, k as int), *cfg),
                decreases spans@.len() - k,
            {
                let piece = match &spans[k] {
                    crate::tokenizer::CodeSpan::Literal(s) => apply_style(
                        &cfg.command,
                        cfg.enabled,
                        s.as_str(),
                    ),
                    crate::tokenizer::CodeSpan::Placeholder(s) => apply_style(
                        &cfg.example_variable,
                        cfg.enabled,
                        s.as_str(),
                    ),
                };
                proof {
                    assert(piece@ == span_render(spans.deep_view()[k as int], *cfg));
                }
                line.append(piece.as_str());
                proof {
                    let pre = spans.deep_view().subrange(0, k as int);
                    let ext = spans.deep_view().subrange(0, k + 1);
                    assert(ext.drop_last() =~= pre);
                    assert(ext.last() == spans.deep_view()[k as int]);
                }
                k = k + 1;
            }
            proof {
                assert(spans.deep_view().subrange(0, spans@.len() as int) =~= spans.deep_view());
            }
            out.push(line);
            proof {
                assert(out.deep_view() =~= token_render(t@, *cfg));
            }
        },
    }
    out
}

/// Render a whole page's source lines: lex them into tokens and render each
/// token as it is produced, in order.
#[verifier::loop_isolation(false)]
pub fn render_page_lines(lines: Vec<String>, cfg: &StyleConfig) -> (r: Vec<String>)
    ensures
        r.deep_view() == render_tokens(tokens_of(lines.deep_view()), *cfg),
{
    let ghost all = tokens_of(lines.deep_view());
    let mut tok = Tokenizer::new(lines);
    let mut out: Vec<String> = Vec::new();
    proof {
        assert(out.deep_view() =~= Seq::<Seq<char>>::empty());
        assert(Seq::<Seq<char>>::empty() + render_tokens(all, *cfg) =~= render_tokens(all, *cfg));
    }
    loop
        invariant
            tok.wf(),
            render_tokens(all, *cfg) == out.deep_view() + render_tokens(tok.remaining(), *cfg),
        decreases tok.remaining().len(),
    {
        let ghost rem = tok.remaining();
        let next = tok.next_token();
        match next {
            Option::Some(t) => {
                proof {
                    assert(rem == seq![t@] + tok.remaining());
                    assert(rem[0] == t@);
                    assert(rem.drop_first() =~= tok.remaining());
                }
                let mut rendered = render_token(&t, cfg);
                let ghost pre = out.deep_view();
                let ghost piece = rendered.deep_view();
                out.append(&mut rendered);
                proof {
                    assert(out.deep_view() =~= pre + piece);
                    assert(pre + (token_render(t@, *cfg) + render_tokens(tok.remaining(), *cfg))
                        =~= (pre + token_render(t@, *cfg)) + render_tokens(tok.remaining(), *cfg));
                }
            },
            Option::None => {
                proof {
                    assert(render_tokens(rem, *cfg) =~= Seq::<Seq<char>>::empty());
                    assert(out.deep_view() + Seq::<Seq<char>>::empty() =~= out.deep_view());
                    assert(out.deep_view() =~= render_tokens(all, *cfg));
                }
                return out;
            },
        }
    }
}

/// No escape character occurs in the text.
pub open spec fn no_escapes(s: Seq<char>) -> bool {
    forall|i: int| 0 <= i < s.len() ==> s[i] != '\u{1b}'
}

/// All of a token's text is free of escape characters.
pub open spec fn token_no_escapes(t: TokenModel) -> bool {
    match t {
        TokenModel::Title(x) => no_escapes(x),
        TokenModel::Description(x) => no_escapes(x),
        TokenModel::ExampleText(x) => no_escapes(x),
        TokenModel::ExampleCode(sps) => forall|k: int|
            0 <= k < sps.len() ==> no_escapes(span_text(#[trigger] sps[k])),
    }
}

/// The bare text of one span.
pub open spec fn span_text(sp: SpanModel) -> Seq<char> {
    match sp {
        SpanModel::Literal(t) => t,
        SpanModel::Placeholder(n) => n,
    }
}

proof fn lemma_no_escapes_concat(a: Seq<char>, b: Seq<char>)
    requires
        no_escapes(a),
        no_escapes(b),
    ensures
        no_escapes(a + b),
{
    assert forall|i: int| 0 <= i < (a + b).len() implies (a + b)[i] != '\u{1b}' by {
        if i < a.len() {
            assert((a + b)[i] == a[i]);
        } else {
            assert((a + b)[i] == b[i - a.len()]);
        }
    }
}

proof fn lemma_spans_render_unstyled_no_escapes(sps: Seq<SpanModel>, cfg: StyleConfig)
    requires
        !cfg.enabled,
        forall|k: int| 0 <= k < sps.len() ==> no_escapes(span_text(#[trigger] sps[k])),
    ensures
        no_escapes(spans_render(sps, cfg)),
    decreases sps.len(),
{
    if sps.len() == 0 {
    } else {
        lemma_spans_render_unstyled_no_escapes(sps.drop_last(), cfg);
        assert(no_escapes(span_text(sps.last())));
        lemma_no_escapes_concat(spans_render(sps.drop_last(), cfg), span_render(sps.last(), cfg));
    }
}

/// With styling disabled, rendered output contains no escape characters:
/// every output line is made of the tokens' own text and layout whitespace
/// alone.
pub proof fn lemma_render_unstyled_no_escapes(ts: Seq<TokenModel>, cfg: StyleConfig)
    requires
        !cfg.enabled,
        forall|k: int| 0 <= k < ts.len() ==> token_no_escapes(#[trigger] ts[k]),
    ensures
        forall|i: int|
            0 <= i < render_tokens(ts, cfg).len() ==> no_escapes(
                #[trigger] render_tokens(ts, cfg)[i],
            ),
    decreases ts.len(),
{
    reveal_strlit("  ");
    reveal_strlit("      ");
    if ts.len() == 0 {
    } else {
        let rest = ts.drop_first();
        assert forall|k: int| 0 <= k < rest.len() implies token_no_escapes(#[trigger] rest[k]) by {
            assert(rest[k] == ts[k + 1]);
        }
        lemma_render_unstyled_no_escapes(rest, cfg);
        assert(token_no_escapes(ts[0]));
        assert(no_escapes("  "@));
        assert(no_escapes("      "@));
        assert(no_escapes(Seq::<char>::empty()));
        match ts[0] {
            TokenModel::Title(x) => {},
            TokenModel::Description(x) => {
                lemma_no_escapes_concat("  "@, x);
            },
            TokenModel::ExampleText(x) => {
                lemma_no_escapes_concat("  "@, x);
            },
            TokenModel::ExampleCode(sps) => {
                lemma_spans_render_unstyled_no_escapes(sps, cfg);
                lemma_no_escapes_concat("      "@, spans_render(sps, cfg));
            },
        }
        assert forall|i: int| 0 <= i < render_tokens(ts, cfg).len() implies no_escapes(
            #[trigger] render_tokens(ts, cfg)[i],
        ) by {
            let head = token_render(ts[0], cfg);
            if i >= head.len() {
                assert(render_tokens(ts, cfg)[i] == render_tokens(rest, cfg)[i - head.len()]);
            } else {
                assert(render_tokens(ts, cfg)[i] == head[i]);
            }
        }
    }
}

} // verus!
