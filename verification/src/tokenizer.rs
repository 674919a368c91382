//! The lexer for the page dialect: it turns a page's source lines into an
//! ordered, finite sequence of semantic tokens, and code lines into spans of
//! literal text and placeholders.

use vstd::prelude::*;
use vstd::string::StrSliceExecFns;

verus! {

broadcast use vstd::string::group_string_axioms;

/// One piece of an example code line, as a mathematical value.
pub enum SpanModel {
    Literal(Seq<char>),
    Placeholder(Seq<char>),
}

/// One piece of an example code line: literal text, or a placeholder the
/// user must substitute.
#[derive(Debug, PartialEq, Eq)]
pub enum CodeSpan {
    Literal(String),
    Placeholder(String),
}

impl View for CodeSpan {
    type V = SpanModel;

    open spec fn view(&self) -> SpanModel {
        match self {
            CodeSpan::Literal(t) => SpanModel::Literal(t@),
            CodeSpan::Placeholder(n) => SpanModel::Placeholder(n@),
        }
    }
}

impl DeepView for CodeSpan {
    type V = SpanModel;

    open spec fn deep_view(&self) -> SpanModel {
        self.view()
    }
}

/// One semantic token of a page, as a mathematical value.
pub enum TokenModel {
    Title(Seq<char>),
    Description(Seq<char>),
    ExampleText(Seq<char>),
    ExampleCode(Seq<SpanModel>),
}

/// One semantic token of a page, in source-line order.
#[derive(Debug, PartialEq, Eq)]
pub enum Token {
    Title(String),
    Description(String),
    ExampleText(String),
    ExampleCode(Vec<CodeSpan>),
}

impl View for Token {
    type V = TokenModel;

    open spec fn view(&self) -> TokenModel {
        match self {
            Token::Title(t) => TokenModel::Title(t@),
            Token::Description(t) => TokenModel::Description(t@),
            Token::ExampleText(t) => TokenModel::ExampleText(t@),
            Token::ExampleCode(v) => TokenModel::ExampleCode(v.deep_view()),
        }
    }
}

impl DeepView for Token {
    type V = TokenModel;

    open spec fn deep_view(&self) -> TokenModel {
        self.view()
    }
}

/// Index of the first position where `c` occurs twice in a row, or `s.len()`
/// when there is none.
pub open spec fn first_pair(s: Seq<char>, c: char) -> nat
    decreases s.len(),
{
    if s.len() < 2 {
        s.len()
    } else if s[0] == c && s[1] == c {
        0
    } else {
        1 + first_pair(s.drop_first(), c)
    }
}

proof fn lemma_first_pair(s: Seq<char>, c: char)
    ensures
        first_pair(s, c) <= s.len(),
        first_pair(s, c) < s.len() ==> first_pair(s, c) + 1 < s.len() && s[first_pair(
            s,
            c,
        ) as int] == c && s[first_pair(s, c) as int + 1] == c,
        forall|j: int|
            0 <= j < first_pair(s, c) && j + 1 < s.len() ==> !(#[trigger] s[j] == c && s[j + 1]
                == c),
    decreases s.len(),
{
    if s.len() < 2 {
    } else if s[0] == c && s[1] == c {
    } else {
        lemma_first_pair(s.drop_first(), c);
        assert forall|j: int|
            0 <= j < first_pair(s, c) && j + 1 < s.len() implies !(#[trigger] s[j] == c && s[j + 1]
            == c) by {
            if j > 0 {
                assert(s.drop_first()[j - 1] == s[j]);
                assert(s.drop_first()[j] == s[j + 1]);
            }
        }
        if first_pair(s, c) < s.len() {
            let f = first_pair(s.drop_first(), c) as int;
            assert(s.drop_first()[f] == s[f + 1]);
            assert(s.drop_first()[f + 1] == s[f + 2]);
        }
    }
}

/// Index of the first `cc` in `s`, or the length when there is none.
fn find_pair(s: &str, c: char) -> (r: usize)
    ensures
        r == first_pair(s@, c),
{
    let n = s.unicode_len();
    proof {
        lemma_first_pair(s@, c);
    }
    if n < 2 {
        return n;
    }
    let mut k: usize = 0;
    while k < n - 1
        invariant
            n == s@.len(),
            n >= 2,
            k <= n,
            forall|j: int| 0 <= j < k ==> !(#[trigger] s@[j] == c && s@[j + 1] == c),
        decreases n - k,
    {
        if s.get_char(k) == c && s.get_char(k + 1) == c {
            proof {
                lemma_first_pair(s@, c);
                if first_pair(s@, c) < k {
                    assert(!(s@[first_pair(s@, c) as int] == c && s@[first_pair(s@, c) as int + 1]
                        == c));
                    assert(false);
                }
                if first_pair(s@, c) > k {
                    assert(!(s@[k as int] == c && s@[k as int + 1] == c));
                    assert(false);
                }
            }
            return k;
        }
        k = k + 1;
    }
    proof {
        lemma_first_pair(s@, c);
        if first_pair(s@, c) < n {
            assert(!(s@[first_pair(s@, c) as int] == c && s@[first_pair(s@, c) as int + 1] == c));
            assert(false);
        }
    }
    n
}

/// The spans of one code line's content, scanned left to right. An opening
/// placeholder delimiter without a matching closer is kept as literal text.
pub open spec fn scan_spans(s: Seq<char>) -> Seq<SpanModel>
    decreases s.len(),
{
    if s.len() == 0 {
        Seq::empty()
    } else {
        let i = first_pair(s, '{') as int;
        if i + 2 > s.len() {
            seq![SpanModel::Literal(s)]
        } else {
            let rest = s.subrange(i + 2, s.len() as int);
            let j = first_pair(rest, '}') as int;
            if j + 2 > rest.len() {
                seq![SpanModel::Literal(s)]
            } else {
                let head: Seq<SpanModel> = if i == 0 {
                    seq![]
                } else {
                    seq![SpanModel::Literal(s.subrange(0, i))]
                };
                head + seq![SpanModel::Placeholder(rest.subrange(0, j))] + scan_spans(
                    rest.subrange(j + 2, rest.len() as int),
                )
            }
        }
    }
}

/// The source text a span stands for, placeholder delimiters included.
pub open spec fn span_source(sp: SpanModel) -> Seq<char> {
    match sp {
        SpanModel::Literal(t) => t,
        SpanModel::Placeholder(n) => "{{"@ + n + "}}"@,
    }
}

/// The source text a whole span sequence stands for.
pub open spec fn spans_source(sps: Seq<SpanModel>) -> Seq<char>
    decreases sps.len(),
{
    if sps.len() == 0 {
        Seq::empty()
    } else {
        span_source(sps[0]) + spans_source(sps.drop_first())
    }
}

proof fn lemma_spans_source_concat(a: Seq<SpanModel>, b: Seq<SpanModel>)
    ensures
        spans_source(a + b) == spans_source(a) + spans_source(b),
    decreases a.len(),
{
    if a.len() == 0 {
        assert(a + b =~= b);
        assert(Seq::<char>::empty() + spans_source(b) =~= spans_source(b));
    } else {
        assert((a + b)[0] == a[0]);
        assert((a + b).drop_first() =~= a.drop_first() + b);
        lemma_spans_source_concat(a.drop_first(), b);
        assert(span_source(a[0]) + (spans_source(a.drop_first()) + spans_source(b)) =~= (
        span_source(a[0]) + spans_source(a.drop_first())) + spans_source(b));
    }
}

/// Scanning a code line's content loses nothing: re-inserting the placeholder
/// delimiters and concatenating all spans reproduces the content verbatim.
pub proof fn lemma_scan_spans_roundtrip(s: Seq<char>)
    ensures
        spans_source(scan_spans(s)) == s,
    decreases s.len(),
{
    reveal_strlit("{{");
    reveal_strlit("}}");
    if s.len() == 0 {
    } else {
        lemma_first_pair(s, '{');
        let i = first_pair(s, '{') as int;
        if i + 2 > s.len() {
            let sps = seq![SpanModel::Literal(s)];
            assert(scan_spans(s) == sps);
            assert(sps.drop_first() =~= Seq::<SpanModel>::empty());
            assert(spans_source(sps.drop_first()) == Seq::<char>::empty());
            assert(sps[0] == SpanModel::Literal(s));
            assert(spans_source(sps) == span_source(sps[0]) + spans_source(sps.drop_first()));
            assert(spans_source(scan_spans(s)) =~= s);
        } else {
            let rest = s.subrange(i + 2, s.len() as int);
            lemma_first_pair(rest, '}');
            let j = first_pair(rest, '}') as int;
            if j + 2 > rest.len() {
                let sps = seq![SpanModel::Literal(s)];
                assert(scan_spans(s) == sps);
                assert(sps.drop_first() =~= Seq::<SpanModel>::empty());
                assert(spans_source(sps.drop_first()) == Seq::<char>::empty());
                assert(sps[0] == SpanModel::Literal(s));
                assert(spans_source(sps) == span_source(sps[0]) + spans_source(
                    sps.drop_first(),
                ));
                assert(spans_source(scan_spans(s)) =~= s);
            } else {
                let tail = rest.subrange(j + 2, rest.len() as int);
                lemma_scan_spans_roundtrip(tail);
                let head: Seq<SpanModel> = if i == 0 {
                    seq![]
                } else {
                    seq![SpanModel::Literal(s.subrange(0, i))]
                };
                let mid = seq![SpanModel::Placeholder(rest.subrange(0, j))];
                assert(scan_spans(s) == head + mid + scan_spans(tail));
                lemma_spans_source_concat(head + mid, scan_spans(tail));
                lemma_spans_source_concat(head, mid);
                assert(mid.drop_first() =~= Seq::<SpanModel>::empty());
                assert(spans_source(mid.drop_first()) == Seq::<char>::empty());
                assert(mid[0] == SpanModel::Placeholder(rest.subrange(0, j)));
                assert(spans_source(mid) == span_source(mid[0]) + spans_source(mid.drop_first()));
                assert(spans_source(mid) =~= "{{"@ + rest.subrange(0, j) + "}}"@);
                if i > 0 {
                    assert(head.drop_first() =~= Seq::<SpanModel>::empty());
                    assert(spans_source(head.drop_first()) == Seq::<char>::empty());
                    assert(head[0] == SpanModel::Literal(s.subrange(0, i)));
                    assert(spans_source(head) == span_source(head[0]) + spans_source(
                        head.drop_first(),
                    ));
                    assert(spans_source(head) =~= s.subrange(0, i));
                } else {
                    assert(spans_source(head) =~= Seq::<char>::empty());
                }
                assert("{{"@.len() == 2 && "{{"@[0] == '{' && "{{"@[1] == '{');
                assert("}}"@.len() == 2 && "}}"@[0] == '}' && "}}"@[1] == '}');
                assert(s[i] == '{' && s[i + 1] == '{');
                assert(rest[j] == '}' && rest[j + 1] == '}');
                assert(spans_source(scan_spans(s)) == spans_source(head) + spans_source(mid)
                    + spans_source(scan_spans(tail)));
                assert(spans_source(scan_spans(s)) =~= s);
            }
        }
    }
}

/// Scan one code line's content into spans.
pub fn scan_code_spans(s: &str) -> (r: Vec<CodeSpan>)
    ensures
        r.deep_view() == scan_spans(s@),
    decreases s@.len(),
{
    let n = s.unicode_len();
    let mut r: Vec<CodeSpan> = Vec::new();
    if n == 0 {
        proof {
            assert(r.deep_view() =~= scan_spans(s@));
        }
        return r;
    }
    proof {
        lemma_first_pair(s@, '{');
    }
    let i = find_pair(s, '{');
    if i == n {
        r.push(CodeSpan::Literal(s.to_owned()));
        proof {
            assert(r.deep_view() =~= scan_spans(s@));
        }
        return r;
    }
    let rest = s.substring_char(i + 2, n);
    proof {
        lemma_first_pair(rest@, '}');
    }
    let m = rest.unicode_len();
    let j = find_pair(rest, '}');
    if j == m {
        r.push(CodeSpan::Literal(s.to_owned()));
        proof {
            assert(r.deep_view() =~= scan_spans(s@));
        }
        return r;
    }
    if i > 0 {
        r.push(CodeSpan::Literal(s.substring_char(0, i).to_owned()));
    }
    r.push(CodeSpan::Placeholder(rest.substring_char(0, j).to_owned()));
    let tail = rest.substring_char(j + 2, m);
    proof {
        assert(tail@ == s@.subrange(i as int + 2, n as int).subrange(
            j as int + 2,
            s@.subrange(i as int + 2, n as int).len() as int,
        ));
        assert(tail@.len() < s@.len());
    }
    let mut tail_spans = scan_code_spans(tail);
    let ghost pre = r.deep_view();
    let ghost tail_deep = tail_spans.deep_view();
    r.append(&mut tail_spans);
    proof {
        assert(r.deep_view() =~= pre + tail_deep);
        let head: Seq<SpanModel> = if i == 0 {
            seq![]
        } else {
            seq![SpanModel::Literal(s@.subrange(0, i as int))]
        };
        let mid = seq![SpanModel::Placeholder(rest@.subrange(0, j as int))];
        assert(pre =~= head + mid);
        assert(r.deep_view() =~= head + mid + scan_spans(tail@));
        assert(scan_spans(s@) == head + mid + scan_spans(tail@));
    }
    r
}

/// A line carrying the given marker character followed by a space.
pub open spec fn marker_line(l: Seq<char>, c: char) -> bool {
    l.len() >= 2 && l[0] == c && l[1] == ' '
}

/// A line delimited by the code marker at both ends.
pub open spec fn code_line(l: Seq<char>) -> bool {
    l.len() >= 2 && l[0] == '`' && l[l.len() - 1] == '`'
}

/// Drop one trailing separator colon, if present.
pub open spec fn strip_trailing_colon(t: Seq<char>) -> Seq<char> {
    if t.len() > 0 && t[t.len() - 1] == ':' {
        t.drop_last()
    } else {
        t
    }
}

/// The token one source line yields: a blank line yields none, a recognized
/// marker yields its token family, and any other non-blank line passes
/// through as description-kind content so that nothing is silently dropped.
pub open spec fn line_token(l: Seq<char>) -> Option<TokenModel> {
    if l.len() == 0 {
        Option::None
    } else if marker_line(l, '#') {
        Option::Some(TokenModel::Title(l.subrange(2, l.len() as int)))
    } else if marker_line(l, '>') {
        Option::Some(TokenModel::Description(l.subrange(2, l.len() as int)))
    } else if marker_line(l, '-') {
        Option::Some(TokenModel::ExampleText(strip_trailing_colon(l.subrange(2, l.len() as int))))
    } else if code_line(l) {
        Option::Some(TokenModel::ExampleCode(scan_spans(l.subrange(1, l.len() - 1))))
    } else {
        Option::Some(TokenModel::Description(l))
    }
}

pub open spec fn view_opt_token(r: Option<Token>) -> Option<TokenModel> {
    match r {
        Option::None => Option::None,
        Option::Some(t) => Option::Some(t@),
    }
}

/// Lex one source line.
pub fn tokenize_line(line: &str) -> (r: Option<Token>)
    ensures
        view_opt_token(r) == line_token(line@),
{
    let n = line.unicode_len();
    if n == 0 {
        return Option::None;
    }
    let c0 = line.get_char(0);
    if n >= 2 && c0 == '#' && line.get_char(1) == ' ' {
        return Option::Some(Token::Title(line.substring_char(2, n).to_owned()));
    }
    if n >= 2 && c0 == '>' && line.get_char(1) == ' ' {
        return Option::Some(Token::Description(line.substring_char(2, n).to_owned()));
    }
    if n >= 2 && c0 == '-' && line.get_char(1) == ' ' {
        let t = if n > 2 && line.get_char(n - 1) == ':' {
            line.substring_char(2, n - 1)
        } else {
            line.substring_char(2, n)
        };
        proof {
            assert(t@ =~= strip_trailing_colon(line@.subrange(2, n as int)));
        }
        return Option::Some(Token::ExampleText(t.to_owned()));
    }
    if n >= 2 && c0 == '`' && line.get_char(n - 1) == '`' {
        let inner = line.substring_char(1, n - 1);
        return Option::Some(Token::ExampleCode(scan_code_spans(inner)));
    }
    Option::Some(Token::Description(line.to_owned()))
}

/// The tokens of a whole page, in source-line order.
pub open spec fn tokens_of(lines: Seq<Seq<char>>) -> Seq<TokenModel>
    decreases lines.len(),
{
    if lines.len() == 0 {
        Seq::empty()
    } else {
        (match line_token(lines[0]) {
            Option::Some(t) => seq![t],
            Option::None => Seq::empty(),
        }) + tokens_of(lines.drop_first())
    }
}

/// A well-formed page line: a title, description, example-text (with its
/// separator colon) or code line.
pub open spec fn wf_line(l: Seq<char>) -> bool {
    marker_line(l, '#') || marker_line(l, '>') || (marker_line(l, '-') && l[l.len() - 1] == ':')
        || code_line(l)
}

/// The source line a token stands for.
pub open spec fn token_line(t: TokenModel) -> Seq<char> {
    match t {
        TokenModel::Title(x) => "# "@ + x,
        TokenModel::Description(x) => "> "@ + x,
        TokenModel::ExampleText(x) => "- "@ + x + ":"@,
        TokenModel::ExampleCode(sps) => "`"@ + spans_source(sps) + "`"@,
    }
}

/// Lexing a well-formed line loses nothing: the line can be rebuilt from its
/// token verbatim.
pub proof fn lemma_line_roundtrip(l: Seq<char>)
    requires
        wf_line(l),
    ensures
        line_token(l) is Some,
        token_line(line_token(l)->0) == l,
{
    reveal_strlit("# ");
    reveal_strlit("> ");
    reveal_strlit("- ");
    reveal_strlit(":");
    reveal_strlit("`");
    if marker_line(l, '#') {
        assert(token_line(line_token(l)->0) =~= l);
    } else if marker_line(l, '>') {
        assert(token_line(line_token(l)->0) =~= l);
    } else if marker_line(l, '-') {
        let t = strip_trailing_colon(l.subrange(2, l.len() as int));
        assert(l[l.len() - 1] == ':');
        if l.len() > 2 {
            assert(t =~= l.subrange(2, l.len() - 1));
        }
        assert("- "@ + t + ":"@ =~= l);
    } else {
        let inner = l.subrange(1, l.len() - 1);
        lemma_scan_spans_roundtrip(inner);
        assert("`"@ + inner + "`"@ =~= l);
    }
}

/// Lexing a well-formed page loses nothing: it yields one token per line, in
/// order, and every line can be rebuilt from its token verbatim.
pub proof fn lemma_page_roundtrip(lines: Seq<Seq<char>>)
    requires
        forall|i: int| 0 <= i < lines.len() ==> wf_line(#[trigger] lines[i]),
    ensures
        tokens_of(lines).len() == lines.len(),
        forall|i: int|
            0 <= i < lines.len() ==> token_line(#[trigger] tokens_of(lines)[i]) == lines[i],
    decreases lines.len(),
{
    if lines.len() == 0 {
    } else {
        assert(wf_line(lines[0]));
        lemma_line_roundtrip(lines[0]);
        let rest = lines.drop_first();
        assert forall|i: int| 0 <= i < rest.len() implies wf_line(#[trigger] rest[i]) by {
            assert(rest[i] == lines[i + 1]);
        }
        lemma_page_roundtrip(rest);
        let t0 = line_token(lines[0])->0;
        assert(tokens_of(lines) == seq![t0] + tokens_of(rest));
        assert forall|i: int|
            0 <= i < lines.len() implies token_line(#[trigger] tokens_of(lines)[i]) == lines[i] by {
            if i == 0 {
                assert(tokens_of(lines)[0] == t0);
            } else {
                assert(tokens_of(lines)[i] == tokens_of(rest)[i - 1]);
                assert(lines[i] == rest[i - 1]);
            }
        }
    }
}

/// A lazy, finite, non-restartable token stream over a page's source lines.
///
/// The caller pulls one token at a time; the scan suspends between calls and
/// ends at end of input.
pub struct Tokenizer {
    lines: Vec<String>,
    pos: usize,
}

impl Tokenizer {
    /// The tokens not yet produced.
    pub closed spec fn remaining(&self) -> Seq<TokenModel> {
        tokens_of(self.lines.deep_view().subrange(self.pos as int, self.lines@.len() as int))
    }

    pub closed spec fn wf(&self) -> bool {
        self.pos <= self.lines@.len()
    }

    /// Start a scan over a page's source lines.
    pub fn new(lines: Vec<String>) -> (r: Tokenizer)
        ensures
            r.wf(),
            r.remaining() == tokens_of(lines.deep_view()),
    {
        let r = Tokenizer { lines, pos: 0 };
        proof {
            assert(r.lines.deep_view().subrange(0, r.lines@.len() as int) =~= r.lines.deep_view());
        }
        r
    }

    /// Produce the next token, resuming the forward scan; `None` at end of
    /// input.
    pub fn next_token(&mut self) -> (r: Option<Token>)
        requires
            old(self).wf(),
        ensures
            final(self).wf(),
            match r {
                Option::Some(t) => old(self).remaining() == seq![t@] + final(self).remaining(),
                Option::None => old(self).remaining().len() == 0 && final(self).remaining().len()
                    == 0,
            },
    {
        while self.pos < self.lines.len()
            invariant
                self.pos <= self.lines@.len(),
                self.lines == old(self).lines,
                old(self).remaining() == tokens_of(
                    self.lines.deep_view().subrange(self.pos as int, self.lines@.len() as int),
                ),
            decreases self.lines@.len() - self.pos,
        {
            let line_tok = tokenize_line(self.lines[self.pos].as_str());
            let ghost dv = self.lines.deep_view();
            let ghost p = self.pos as int;
            proof {
                let rem = dv.subrange(p, dv.len() as int);
                assert(rem.len() > 0);
                assert(rem[0] == dv[p]);
                assert(rem.drop_first() =~= dv.subrange(p + 1, dv.len() as int));
                if line_token(dv[p]) is None {
                    assert(Seq::<TokenModel>::empty() + tokens_of(rem.drop_first()) =~= tokens_of(
                        rem.drop_first(),
                    ));
                }
            }
            self.pos = self.pos + 1;
            if let Option::Some(t) = line_tok {
                return Option::Some(t);
            }
        }
        proof {
            assert(self.lines.deep_view().subrange(self.pos as int, self.lines@.len() as int)
                =~= Seq::<Seq<char>>::empty());
        }
        Option::None
    }
}


} // verus!
