//! The scanner: a single left-to-right pass over the source text. The
//! specification side describes one classification step (`scan_step`) and
//! its closure over the whole text (`scan_from`); the executable `Scanner`
//! is proved to produce exactly that token sequence, with an `EOF`
//! sentinel appended, and to report exactly the scan errors the
//! specification names while continuing past them.

use vstd::prelude::*;

use crate::numeric::{is_digit_char, is_number_text, num_of_text, parse_bits};
use crate::parser::interpreter::{ErrM, RuntimeError};
use crate::scanner::token::{
    keyword_token_type, keyword_type, LiteralType, Token, TokenM, TokenType, Val,
};

verus! {

/// Letters and the underscore: the characters that may open an
/// identifier.
pub open spec fn is_alpha_char(c: char) -> bool {
    ('a' <= c && c <= 'z') || ('A' <= c && c <= 'Z') || c == '_'
}

/// The characters that may continue an identifier.
pub open spec fn is_ident_char(c: char) -> bool {
    is_alpha_char(c) || is_digit_char(c)
}

/// The first position at or after `i` holding `c`, or the text's length
/// when there is none.
pub open spec fn find_char(src: Seq<char>, i: int, c: char) -> int
    decreases src.len() - i,
{
    if i < src.len() {
        if src[i] == c {
            i
        } else {
            find_char(src, i + 1, c)
        }
    } else {
        i
    }
}

/// The end of the maximal digit run starting at `i`.
pub open spec fn digits_end(src: Seq<char>, i: int) -> int
    decreases src.len() - i,
{
    if i < src.len() && is_digit_char(src[i]) {
        digits_end(src, i + 1)
    } else {
        i
    }
}

/// The end of the maximal identifier run starting at `i`.
pub open spec fn ident_end(src: Seq<char>, i: int) -> int
    decreases src.len() - i,
{
    if i < src.len() && is_ident_char(src[i]) {
        ident_end(src, i + 1)
    } else {
        i
    }
}

/// How many newline characters `src` holds in the range `[a, b)`.
pub open spec fn newlines_in(src: Seq<char>, a: int, b: int) -> int
    decreases b - a,
{
    if a < b {
        newlines_in(src, a, b - 1) + (if b - 1 < src.len() && src[b - 1] == '\n' {
            1int
        } else {
            0int
        })
    } else {
        0
    }
}

/// The outcome of classifying one character: at most one token, at most
/// one error report, the position to continue from, and the line there.
pub struct LexStep {
    pub token: Option<TokenM>,
    pub err: Option<ErrM>,
    pub next: int,
    pub line_after: int,
}

/// A fixed token whose lexeme is `src[i .. next)` and whose literal slot
/// holds the empty string.
pub open spec fn simple_token(
    tt: TokenType,
    src: Seq<char>,
    i: int,
    next: int,
    line: int,
) -> LexStep {
    LexStep {
        token: Some(
            TokenM {
                token_type: tt,
                lexeme: src.subrange(i, next),
                literal: Val::VStr(Seq::empty()),
                line: line,
            },
        ),
        err: None,
        next: next,
        line_after: line,
    }
}

/// One scanner step at position `i` (which must be in range): classifies
/// `src[i]` with maximal munch, greedy two-character operators, comment
/// and whitespace skipping, string literals tracking embedded newlines,
/// numbers `d+('.'d+)?`, identifiers against the reserved-word table, and
/// the two scan errors.
pub open spec fn scan_step(src: Seq<char>, i: int, line: int) -> LexStep {
    let c = src[i];
    if c == '(' {
        simple_token(TokenType::LEFT_PAREN, src, i, i + 1, line)
    } else if c == ')' {
        simple_token(TokenType::RIGHT_PAREN, src, i, i + 1, line)
    } else if c == '{' {
        simple_token(TokenType::LEFT_BRACE, src, i, i + 1, line)
    } else if c == '}' {
        simple_token(TokenType::RIGHT_BRACE, src, i, i + 1, line)
    } else if c == ',' {
        simple_token(TokenType::COMMA, src, i, i + 1, line)
    } else if c == '.' {
        simple_token(TokenType::DOT, src, i, i + 1, line)
    } else if c == '-' {
        simple_token(TokenType::MINUS, src, i, i + 1, line)
    } else if c == '+' {
        simple_token(TokenType::PLUS, src, i, i + 1, line)
    } else if c == ';' {
        simple_token(TokenType::SEMICOLON, src, i, i + 1, line)
    } else if c == '*' {
        simple_token(TokenType::STAR, src, i, i + 1, line)
    } else if c == '!' {
        if i + 1 < src.len() && src[i + 1] == '=' {
            simple_token(TokenType::BANG_EQUAL, src, i, i + 2, line)
        } else {
            simple_token(TokenType::BANG, src, i, i + 1, line)
        }
    } else if c == '=' {
        if i + 1 < src.len() && src[i + 1] == '=' {
            simple_token(TokenType::EQUAL_EQUAL, src, i, i + 2, line)
        } else {
            simple_token(TokenType::EQUAL, src, i, i + 1, line)
        }
    } else if c == '<' {
        if i + 1 < src.len() && src[i + 1] == '=' {
            simple_token(TokenType::LESS_EQUAL, src, i, i + 2, line)
        } else {
            simple_token(TokenType::LESS, src, i, i + 1, line)
        }
    } else if c == '>' {
        if i + 1 < src.len() && src[i + 1] == '=' {
            simple_token(TokenType::GREATER_EQUAL, src, i, i + 2, line)
        } else {
            simple_token(TokenType::GREATER, src, i, i + 1, line)
        }
    } else if c == '/' {
        if i + 1 < src.len() && src[i + 1] == '/' {
            LexStep { token: None, err: None, next: find_char(src, i + 2, '\n'), line_after: line }
        } else {
            simple_token(TokenType::SLASH, src, i, i + 1, line)
        }
    } else if c == '\n' {
        LexStep { token: None, err: None, next: i + 1, line_after: line + 1 }
    } else if c == ' ' || c == '\r' || c == '\t' {
        LexStep { token: None, err: None, next: i + 1, line_after: line }
    } else if c == '"' {
        let e = find_char(src, i + 1, '"');
        if e >= src.len() {
            let l2 = line + newlines_in(src, i + 1, src.len() as int);
            LexStep {
                token: None,
                err: Some(ErrM { line: l2, msg: "Unterminated string literal"@ }),
                next: src.len() as int,
                line_after: l2,
            }
        } else {
            let l2 = line + newlines_in(src, i + 1, e);
            LexStep {
                token: Some(
                    TokenM {
                        token_type: TokenType::STRING,
                        lexeme: src.subrange(i, e + 1),
                        literal: Val::VStr(src.subrange(i + 1, e)),
                        line: l2,
                    },
                ),
                err: None,
                next: e + 1,
                line_after: l2,
            }
        }
    } else if is_digit_char(c) {
        let d = digits_end(src, i);
        let end = if d < src.len() && src[d] == '.' && d + 1 < src.len() && is_digit_char(
            src[d + 1],
        ) {
            digits_end(src, d + 1)
        } else {
            d
        };
        LexStep {
            token: Some(
                TokenM {
                    token_type: TokenType::NUMBER,
                    lexeme: src.subrange(i, end),
                    literal: Val::VNum(num_of_text(src.subrange(i, end))),
                    line: line,
                },
            ),
            err: None,
            next: end,
            line_after: line,
        }
    } else if is_alpha_char(c) {
        let e = ident_end(src, i);
        LexStep {
            token: Some(
                TokenM {
                    token_type: keyword_token_type(src.subrange(i, e)),
                    lexeme: src.subrange(i, e),
                    literal: Val::VStr(Seq::empty()),
                    line: line,
                },
            ),
            err: None,
            next: e,
            line_after: line,
        }
    } else {
        LexStep {
            token: None,
            err: Some(ErrM { line: line, msg: "Unexpected character. "@ + seq![c] }),
            next: i + 1,
            line_after: line,
        }
    }
}

/// Clamps a continuation position into `(i, src.len()]`; `scan_step`
/// always lands there already, so the clamp only serves termination.
pub open spec fn step_clamp(src: Seq<char>, i: int, n: int) -> int {
    if n <= i {
        i + 1
    } else if n > src.len() {
        src.len() as int
    } else {
        n
    }
}

/// The tokens and error reports of the whole text from position `i` on,
/// and the line number at its end.
pub struct LexOut {
    pub tokens: Seq<TokenM>,
    pub errs: Seq<ErrM>,
    pub line_end: int,
}

/// Scanning from position `i` at line `line` to the end of the text.
pub open spec fn scan_from(src: Seq<char>, i: int, line: int) -> LexOut
    decreases src.len() - i,
{
    if 0 <= i < src.len() {
        let st = scan_step(src, i, line);
        let rest = scan_from(src, step_clamp(src, i, st.next), st.line_after);
        LexOut {
            tokens: (match st.token {
                Some(t) => seq![t] + rest.tokens,
                None => rest.tokens,
            }),
            errs: (match st.err {
                Some(e) => seq![e] + rest.errs,
                None => rest.errs,
            }),
            line_end: rest.line_end,
        }
    } else {
        LexOut { tokens: Seq::empty(), errs: Seq::empty(), line_end: line }
    }
}

/// The models of a sequence of tokens.
pub open spec fn token_views(ts: Seq<Token>) -> Seq<TokenM> {
    ts.map_values(|t: Token| t@)
}

/// The models of a sequence of error reports.
pub open spec fn err_views(es: Seq<RuntimeError>) -> Seq<ErrM> {
    es.map_values(|e: RuntimeError| e@)
}

proof fn lemma_find_char_bounds(src: Seq<char>, i: int, c: char)
    requires
        0 <= i <= src.len(),
    ensures
        i <= find_char(src, i, c) <= src.len(),
        forall|j: int| i <= j < find_char(src, i, c) ==> src[j] != c,
        find_char(src, i, c) < src.len() ==> src[find_char(src, i, c)] == c,
    decreases src.len() - i,
{
    if i < src.len() && src[i] != c {
        lemma_find_char_bounds(src, i + 1, c);
    }
}

proof fn lemma_find_char_eq(src: Seq<char>, a: int, b: int, c: char)
    requires
        0 <= a <= b <= src.len(),
        forall|j: int| a <= j < b ==> src[j] != c,
        b == src.len() || src[b] == c,
    ensures
        find_char(src, a, c) == b,
    decreases b - a,
{
    if a < b {
        lemma_find_char_eq(src, a + 1, b, c);
    }
}

proof fn lemma_digits_end_bounds(src: Seq<char>, i: int)
    requires
        0 <= i <= src.len(),
    ensures
        i <= digits_end(src, i) <= src.len(),
        forall|j: int| i <= j < digits_end(src, i) ==> is_digit_char(src[j]),
        digits_end(src, i) < src.len() ==> !is_digit_char(src[digits_end(src, i)]),
    decreases src.len() - i,
{
    if i < src.len() && is_digit_char(src[i]) {
        lemma_digits_end_bounds(src, i + 1);
    }
}

proof fn lemma_digits_end_eq(src: Seq<char>, a: int, b: int)
    requires
        0 <= a <= b <= src.len(),
        forall|j: int| a <= j < b ==> is_digit_char(src[j]),
        b == src.len() || !is_digit_char(src[b]),
    ensures
        digits_end(src, a) == b,
    decreases b - a,
{
    if a < b {
        lemma_digits_end_eq(src, a + 1, b);
    }
}

proof fn lemma_ident_end_eq(src: Seq<char>, a: int, b: int)
    requires
        0 <= a <= b <= src.len(),
        forall|j: int| a <= j < b ==> is_ident_char(src[j]),
        b == src.len() || !is_ident_char(src[b]),
    ensures
        ident_end(src, a) == b,
    decreases b - a,
{
    if a < b {
        lemma_ident_end_eq(src, a + 1, b);
    }
}

proof fn lemma_newlines_bound(src: Seq<char>, a: int, b: int)
    requires
        a <= b,
    ensures
        0 <= newlines_in(src, a, b) <= b - a,
    decreases b - a,
{
    if a < b {
        lemma_newlines_bound(src, a, b - 1);
    }
}

/// One step always makes progress and stays inside the text, and the line
/// counter cannot grow past one per character consumed.
proof fn lemma_scan_step_in_range(src: Seq<char>, i: int, line: int)
    requires
        0 <= i < src.len(),
    ensures
        i < scan_step(src, i, line).next <= src.len(),
        line <= scan_step(src, i, line).line_after <= line + (scan_step(src, i, line).next - i),
{
    let c = src[i];
    if c == '/' && i + 1 < src.len() && src[i + 1] == '/' {
        lemma_find_char_bounds(src, i + 2, '\n');
    } else if c == '"' {
        lemma_find_char_bounds(src, i + 1, '"');
        let e = find_char(src, i + 1, '"');
        if e >= src.len() {
            lemma_newlines_bound(src, i + 1, src.len() as int);
        } else {
            lemma_newlines_bound(src, i + 1, e);
        }
    } else if is_digit_char(c) {
        lemma_digits_end_bounds(src, i);
        let d = digits_end(src, i);
        if d < src.len() && src[d] == '.' && d + 1 < src.len() && is_digit_char(src[d + 1]) {
            lemma_digits_end_bounds(src, d + 2);
        }
    } else if is_alpha_char(c) {
        lemma_ident_end_bounds(src, i);
    }
}

proof fn lemma_ident_end_bounds(src: Seq<char>, i: int)
    requires
        0 <= i <= src.len(),
    ensures
        i <= ident_end(src, i) <= src.len(),
        forall|j: int| i <= j < ident_end(src, i) ==> is_ident_char(src[j]),
        ident_end(src, i) < src.len() ==> !is_ident_char(src[ident_end(src, i)]),
    decreases src.len() - i,
{
    if i < src.len() && is_ident_char(src[i]) {
        lemma_ident_end_bounds(src, i + 1);
    }
}

} // verus!

verus! {

/// True exactly for the ten ASCII decimal digit characters.
pub fn is_digit(c: char) -> (r: bool)
    ensures
        r == is_digit_char(c),
{
    '0' <= c && c <= '9'
}

/// True exactly for letters and the underscore.
pub fn is_alpha(c: char) -> (r: bool)
    ensures
        r == is_alpha_char(c),
{
    ('a' <= c && c <= 'z') || ('A' <= c && c <= 'Z') || c == '_'
}

/// The substring of `size` characters starting at character `start`, both
/// clamped to the text's end.
pub fn get_substr(str: &String, start: usize, size: usize) -> (r: String)
    ensures
        ({
            let n = str@.len() as int;
            let s0 = if start as int <= n {
                start as int
            } else {
                n
            };
            let e0 = if start as int + size as int <= n {
                start as int + size as int
            } else {
                n
            };
            r@ == str@.subrange(s0, e0)
        }),
{
    let n = str.as_str().unicode_len();
    let s0 = if start <= n {
        start
    } else {
        n
    };
    let e0 = if size <= n - s0 {
        s0 + size
    } else {
        n
    };
    proof {
        assert(str@.subrange(s0 as int, e0 as int) == str@.subrange(
            if start as int <= str@.len() as int {
                start as int
            } else {
                str@.len() as int
            },
            if start as int + size as int <= str@.len() as int {
                start as int + size as int
            } else {
                str@.len() as int
            },
        ));
    }
    str.as_str().substring_char(s0, e0).to_owned()
}

/// Relies on `char::to_string`: the one-character string of `c`.
#[verifier::external_body]
fn char_string(c: char) -> (r: String)
    ensures
        r@ == seq![c],
{
    c.to_string()
}

/// The scanner's cursor state over one source text. `errors` collects the
/// scan errors in order; `error` says whether there was any, so the
/// caller can treat the whole scan as failed while still receiving every
/// token that follows a bad character.
pub struct Scanner {
    pub source: String,
    pub start: usize,
    pub current: usize,
    pub line: i32,
    pub error: bool,
    pub errors: Vec<RuntimeError>,
}

impl Scanner {
    /// The cursor sits inside the text and the line counter stays small
    /// enough that counting one line per character cannot overflow.
    pub open spec fn wf(&self) -> bool {
        &&& self.source@.len() + 1 < 0x8000_0000
        &&& self.current <= self.source@.len()
        &&& 1 <= self.line
        &&& self.line as int <= 1 + self.current as int
    }

    spec fn at_step_start(&self) -> bool {
        &&& self.wf()
        &&& self.start == self.current
    }

    /// How `scan_token` and its helpers change the state and the token
    /// list: exactly as one `scan_step` from the old cursor says.
    spec fn step_done(
        &self,
        prev: Scanner,
        tokens: Seq<Token>,
        prev_tokens: Seq<Token>,
    ) -> bool {
        let st = scan_step(prev.source@, prev.start as int, prev.line as int);
        &&& self.source == prev.source
        &&& self.start == prev.start
        &&& self.current as int == st.next
        &&& self.line as int == st.line_after
        &&& token_views(tokens) == (match st.token {
            Some(t) => token_views(prev_tokens).push(t),
            None => token_views(prev_tokens),
        })
        &&& err_views(self.errors@) == (match st.err {
            Some(e) => err_views(prev.errors@).push(e),
            None => err_views(prev.errors@),
        })
        &&& self.error == (prev.error || st.err is Some)
        &&& self.wf()
    }
}

/// A scanner at the start of `source`, on line 1, with no errors.
pub fn new(source: String) -> (s: Scanner)
    requires
        source@.len() + 1 < 0x8000_0000,
    ensures
        s.wf(),
        s.source == source,
        s.current == 0,
        s.line == 1,
        s.error == false,
        s.errors@ == Seq::<RuntimeError>::empty(),
{
    Scanner { source, start: 0, current: 0, line: 1, error: false, errors: Vec::new() }
}

impl Scanner {
    fn is_at_end(&self) -> (r: bool)
        ensures
            r == (self.current as int >= self.source@.len()),
    {
        self.current >= self.source.as_str().unicode_len()
    }

    fn peek(&self) -> (c: char)
        requires
            self.current <= self.source@.len(),
        ensures
            c == (if (self.current as int) < self.source@.len() {
                self.source@[self.current as int]
            } else {
                '\u{0}'
            }),
    {
        if self.is_at_end() {
            return '\u{0}';
        }
        self.source.as_str().get_char(self.current)
    }

    fn peek_next(&self) -> (c: char)
        requires
            self.wf(),
        ensures
            c == (if (self.current as int) + 1 < self.source@.len() {
                self.source@[self.current as int + 1]
            } else {
                '\u{0}'
            }),
    {
        if self.current + 1 >= self.source.as_str().unicode_len() {
            return '\u{0}';
        }
        self.source.as_str().get_char(self.current + 1)
    }

    fn match_char(&self, expected: char) -> (r: bool)
        requires
            self.current <= self.source@.len(),
        ensures
            r == ((self.current as int) < self.source@.len() && self.source@[self.current as int]
                == expected),
    {
        if self.is_at_end() {
            return false;
        }
        self.source.as_str().get_char(self.current) == expected
    }

    /// Appends a token whose lexeme is the source text between `start`
    /// and `current`, at the current line; an absent literal slot holds
    /// the empty string.
    fn add_token(&self, tokens: &mut Vec<Token>, token_type: TokenType, literal: Option<
        LiteralType,
    >)
        requires
            self.start <= self.current <= self.source@.len(),
        ensures
            token_views(final(tokens)@) == token_views(old(tokens)@).push(
                TokenM {
                    token_type: token_type,
                    lexeme: self.source@.subrange(self.start as int, self.current as int),
                    literal: (match literal {
                        Some(l) => l@,
                        None => Val::VStr(Seq::empty()),
                    }),
                    line: self.line as int,
                },
            ),
    {
        let text = get_substr(&self.source, self.start, self.current - self.start);
        let value = match literal {
            Some(l) => l,
            None => LiteralType::String(String::new()),
        };
        tokens.push(Token { token_type, lexeme: text, literal: value, line: self.line });
        proof {
            assert(token_views(tokens@) =~= token_views(old(tokens)@).push(
                tokens@.last()@,
            ));
        }
    }
}

} // verus!

verus! {

impl Scanner {
    /// Scans a string literal; the opening quote sits at `start` and has
    /// been consumed. Embedded newlines advance the line counter; an
    /// unterminated literal is a scan error reported at the line where
    /// the text ends.
    #[verifier::loop_isolation(false)]
    fn string_literal(&mut self, tokens: &mut Vec<Token>)
        requires
            old(self).wf(),
            old(self).start as int + 1 == old(self).current as int,
            (old(self).start as int) < old(self).source@.len(),
            old(self).source@[old(self).start as int] == '"',
        ensures
            final(self).step_done(*old(self), final(tokens)@, old(tokens)@),
    {
        let ghost src = self.source@;
        let ghost i0 = self.start as int;
        let ghost line0 = self.line as int;
        loop
            invariant
                self.source == old(self).source,
                self.start == old(self).start,
                self.errors == old(self).errors,
                self.error == old(self).error,
                tokens@ == old(tokens)@,
                i0 + 1 <= self.current as int <= src.len(),
                forall|j: int| i0 + 1 <= j < self.current as int ==> src[j] != '"',
                self.line as int == line0 + newlines_in(src, i0 + 1, self.current as int),
                self.wf(),
            decreases src.len() - self.current,
        {
            if self.is_at_end() {
                break ;
            }
            let c = self.peek();
            if c == '"' {
                break ;
            }
            if c == '\n' {
                self.line = self.line + 1;
            }
            proof {
                lemma_newlines_bound(src, i0 + 1, self.current as int);
                assert(newlines_in(src, i0 + 1, self.current as int + 1) == newlines_in(
                    src,
                    i0 + 1,
                    self.current as int,
                ) + (if src[self.current as int] == '\n' {
                    1int
                } else {
                    0int
                }));
            }
            self.current = self.current + 1;
        }
        if self.is_at_end() {
            proof {
                lemma_find_char_eq(src, i0 + 1, src.len() as int, '"');
            }
            let report = RuntimeError::error(
                self.line,
                String::from_str("Unterminated string literal"),
            );
            self.errors.push(report);
            self.error = true;
            proof {
                assert(err_views(self.errors@) =~= err_views(old(self).errors@).push(
                    self.errors@.last()@,
                ));
            }
            return ;
        }
        proof {
            lemma_find_char_eq(src, i0 + 1, self.current as int, '"');
        }
        self.current = self.current + 1;
        let value = get_substr(&self.source, self.start + 1, self.current - self.start - 2);
        self.add_token(tokens, TokenType::STRING, Some(LiteralType::String(value)));
    }

    /// Scans a number `d+('.'d+)?`; the first digit sits at `start` and
    /// has been consumed. A trailing point with no digit after it is left
    /// for the next token.
    #[verifier::loop_isolation(false)]
    fn number(&mut self, tokens: &mut Vec<Token>)
        requires
            old(self).wf(),
            old(self).start as int + 1 == old(self).current as int,
            (old(self).start as int) < old(self).source@.len(),
            is_digit_char(old(self).source@[old(self).start as int]),
        ensures
            final(self).step_done(*old(self), final(tokens)@, old(tokens)@),
    {
        let ghost src = self.source@;
        let ghost i0 = self.start as int;
        loop
            invariant
                self.source == old(self).source,
                self.start == old(self).start,
                self.errors == old(self).errors,
                self.error == old(self).error,
                self.line == old(self).line,
                tokens@ == old(tokens)@,
                i0 + 1 <= self.current as int <= src.len(),
                forall|j: int| i0 <= j < self.current as int ==> is_digit_char(src[j]),
                self.wf(),
            decreases src.len() - self.current,
        {
            if !is_digit(self.peek()) {
                break ;
            }
            self.current = self.current + 1;
        }
        let ghost d = digits_end(src, i0);
        proof {
            lemma_digits_end_eq(src, i0, self.current as int);
        }
        if self.peek() == '.' && is_digit(self.peek_next()) {
            self.current = self.current + 1;
            let ghost dot = self.current as int;
            loop
                invariant
                    self.source == old(self).source,
                    self.start == old(self).start,
                    self.errors == old(self).errors,
                    self.error == old(self).error,
                    self.line == old(self).line,
                    tokens@ == old(tokens)@,
                    dot == d + 1,
                    dot <= self.current as int <= src.len(),
                    forall|j: int| dot <= j < self.current as int ==> is_digit_char(src[j]),
                    self.wf(),
                decreases src.len() - self.current,
            {
                if !is_digit(self.peek()) {
                    break ;
                }
                self.current = self.current + 1;
            }
            proof {
                lemma_digits_end_eq(src, d + 1, self.current as int);
            }
        }
        let size = self.current - self.start;
        let text = get_substr(&self.source, self.start, size);
        let ghost end = self.current as int;
        proof {
            assert(text@ == src.subrange(i0, end));
            lemma_number_lexeme(src, i0, d, end);
        }
        let value = parse_bits(text.as_str());
        self.add_token(tokens, TokenType::NUMBER, Some(LiteralType::Float(value)));
    }

    /// Scans an identifier run and classifies it against the
    /// reserved-word table; the first character sits at `start` and has
    /// been consumed.
    #[verifier::loop_isolation(false)]
    fn identifier(&mut self, tokens: &mut Vec<Token>)
        requires
            old(self).wf(),
            old(self).start as int + 1 == old(self).current as int,
            (old(self).start as int) < old(self).source@.len(),
            is_alpha_char(old(self).source@[old(self).start as int]),
        ensures
            final(self).step_done(*old(self), final(tokens)@, old(tokens)@),
    {
        let ghost src = self.source@;
        let ghost i0 = self.start as int;
        loop
            invariant
                self.source == old(self).source,
                self.start == old(self).start,
                self.errors == old(self).errors,
                self.error == old(self).error,
                self.line == old(self).line,
                tokens@ == old(tokens)@,
                i0 + 1 <= self.current as int <= src.len(),
                forall|j: int| i0 <= j < self.current as int ==> is_ident_char(src[j]),
                self.wf(),
            decreases src.len() - self.current,
        {
            let c = self.peek();
            if !(is_alpha(c) || is_digit(c)) {
                break ;
            }
            self.current = self.current + 1;
        }
        proof {
            lemma_ident_end_eq(src, i0, self.current as int);
        }
        let text = get_substr(&self.source, self.start, self.current - self.start);
        let tt = keyword_type(&text);
        self.add_token(tokens, tt, None);
    }
}

/// A well-formed numeric lexeme `[i0, end)` around its integer part
/// `[i0, d)` matches the numeric literal shape.
proof fn lemma_number_lexeme(src: Seq<char>, i0: int, d: int, end: int)
    requires
        0 <= i0 < d <= src.len(),
        forall|j: int| i0 <= j < d ==> is_digit_char(src[j]),
        d == end || (d + 2 <= end <= src.len() && src[d] == '.' && forall|j: int|
            d + 1 <= j < end ==> is_digit_char(src[j])),
    ensures
        is_number_text(src.subrange(i0, end)),
{
    let s = src.subrange(i0, end);
    if d == end {
        assert(crate::numeric::all_digits(s));
    } else {
        let k = d - i0;
        assert(s[k] == '.');
        assert(crate::numeric::all_digits(s.subrange(0, k)));
        assert(crate::numeric::all_digits(s.subrange(k + 1, s.len() as int)));
        assert(1 <= k <= s.len() - 2);
    }
}

} // verus!

verus! {

impl Scanner {
    /// Classifies the character at `current` (with `start == current`),
    /// advancing past everything the token or trivia consumed: one
    /// `scan_step` of the specification.
    #[verifier::loop_isolation(false)]
    fn scan_token(&mut self, tokens: &mut Vec<Token>)
        requires
            old(self).wf(),
            old(self).start == old(self).current,
            (old(self).current as int) < old(self).source@.len(),
        ensures
            final(self).step_done(*old(self), final(tokens)@, old(tokens)@),
    {
        let ghost src = self.source@;
        let ghost i0 = self.current as int;
        let c = self.source.as_str().get_char(self.current);
        self.current = self.current + 1;
        if c == '(' {
            self.add_token(tokens, TokenType::LEFT_PAREN, None);
        } else if c == ')' {
            self.add_token(tokens, TokenType::RIGHT_PAREN, None);
        } else if c == '{' {
            self.add_token(tokens, TokenType::LEFT_BRACE, None);
        } else if c == '}' {
            self.add_token(tokens, TokenType::RIGHT_BRACE, None);
        } else if c == ',' {
            self.add_token(tokens, TokenType::COMMA, None);
        } else if c == '.' {
            self.add_token(tokens, TokenType::DOT, None);
        } else if c == '-' {
            self.add_token(tokens, TokenType::MINUS, None);
        } else if c == '+' {
            self.add_token(tokens, TokenType::PLUS, None);
        } else if c == ';' {
            self.add_token(tokens, TokenType::SEMICOLON, None);
        } else if c == '*' {
            self.add_token(tokens, TokenType::STAR, None);
        } else if c == '!' {
            if self.match_char('=') {
                self.current = self.current + 1;
                self.add_token(tokens, TokenType::BANG_EQUAL, None);
            } else {
                self.add_token(tokens, TokenType::BANG, None);
            }
        } else if c == '=' {
            if self.match_char('=') {
                self.current = self.current + 1;
                self.add_token(tokens, TokenType::EQUAL_EQUAL, None);
            } else {
                self.add_token(tokens, TokenType::EQUAL, None);
            }
        } else if c == '<' {
            if self.match_char('=') {
                self.current = self.current + 1;
                self.add_token(tokens, TokenType::LESS_EQUAL, None);
            } else {
                self.add_token(tokens, TokenType::LESS, None);
            }
        } else if c == '>' {
            if self.match_char('=') {
                self.current = self.current + 1;
                self.add_token(tokens, TokenType::GREATER_EQUAL, None);
            } else {
                self.add_token(tokens, TokenType::GREATER, None);
            }
        } else if c == '/' {
            if self.match_char('/') {
                loop
                    invariant
                        self.source == old(self).source,
                        self.start == old(self).start,
                        self.errors == old(self).errors,
                        self.error == old(self).error,
                        self.line == old(self).line,
                        tokens@ == old(tokens)@,
                        i0 + 1 <= self.current as int <= src.len(),
                        forall|j: int| i0 + 1 <= j < self.current as int ==> src[j] != '\n',
                        self.wf(),
                    decreases src.len() - self.current,
                {
                    if self.is_at_end() {
                        break ;
                    }
                    if self.peek() == '\n' {
                        break ;
                    }
                    self.current = self.current + 1;
                }
                proof {
                    assert(self.current as int >= i0 + 2);
                    lemma_find_char_eq(src, i0 + 2, self.current as int, '\n');
                }
            } else {
                self.add_token(tokens, TokenType::SLASH, None);
            }
        } else if c == '\n' {
            self.line = self.line + 1;
        } else if c == ' ' || c == '\r' || c == '\t' {
        } else if c == '"' {
            self.string_literal(tokens);
        } else if is_digit(c) {
            self.number(tokens);
        } else if is_alpha(c) {
            self.identifier(tokens);
        } else {
            let message = String::from_str("Unexpected character. ").concat(
                char_string(c).as_str(),
            );
            let report = RuntimeError::error(self.line, message);
            self.errors.push(report);
            self.error = true;
            proof {
                assert(err_views(self.errors@) =~= err_views(old(self).errors@).push(
                    self.errors@.last()@,
                ));
            }
        }
    }

    /// Scans the whole source: exactly the tokens of `scan_from`, with an
    /// `EOF` sentinel carrying the last known line appended, and exactly
    /// its scan errors collected in `errors`.
    #[verifier::loop_isolation(false)]
    pub fn scan_tokens(&mut self) -> (r: Vec<Token>)
        requires
            old(self).wf(),
            old(self).current == 0,
            old(self).line == 1,
            old(self).error == false,
            old(self).errors@ == Seq::<RuntimeError>::empty(),
        ensures
            ({
                let out = scan_from(old(self).source@, 0, 1);
                &&& token_views(r@) == out.tokens.push(
                    TokenM {
                        token_type: TokenType::EOF,
                        lexeme: Seq::empty(),
                        literal: Val::VStr(Seq::empty()),
                        line: out.line_end,
                    },
                )
                &&& err_views(final(self).errors@) == out.errs
                &&& final(self).error == (out.errs.len() > 0)
                &&& final(self).source == old(self).source
            }),
    {
        let mut tokens: Vec<Token> = Vec::new();
        let ghost src = self.source@;
        let ghost out = scan_from(src, 0, 1);
        proof {
            assert(token_views(Seq::<Token>::empty()) =~= Seq::<TokenM>::empty());
            assert(err_views(Seq::<RuntimeError>::empty()) =~= Seq::<ErrM>::empty());
            assert(out.tokens =~= token_views(tokens@) + scan_from(src, 0, 1).tokens);
            assert(out.errs =~= err_views(self.errors@) + scan_from(src, 0, 1).errs);
        }
        while self.current < self.source.as_str().unicode_len()
            invariant
                self.source == old(self).source,
                self.wf(),
                out.tokens == token_views(tokens@) + scan_from(
                    src,
                    self.current as int,
                    self.line as int,
                ).tokens,
                out.errs == err_views(self.errors@) + scan_from(
                    src,
                    self.current as int,
                    self.line as int,
                ).errs,
                out.line_end == scan_from(src, self.current as int, self.line as int).line_end,
                self.error == (self.errors@.len() > 0),
            decreases src.len() - self.current,
        {
            self.start = self.current;
            let ghost pre = *self;
            let ghost pre_tokens = tokens@;
            self.scan_token(&mut tokens);
            proof {
                lemma_scan_step_in_range(src, pre.current as int, pre.line as int);
                let st = scan_step(src, pre.current as int, pre.line as int);
                assert(step_clamp(src, pre.current as int, st.next) == st.next);
                let rest = scan_from(src, st.next, st.line_after);
                match st.token {
                    Some(t) => {
                        assert(token_views(pre_tokens).push(t) + rest.tokens =~= token_views(
                            pre_tokens,
                        ) + (seq![t] + rest.tokens));
                    },
                    None => {},
                }
                match st.err {
                    Some(e) => {
                        assert(err_views(pre.errors@).push(e) + rest.errs =~= err_views(
                            pre.errors@,
                        ) + (seq![e] + rest.errs));
                    },
                    None => {},
                }
            }
        }
        proof {
            assert(self.current as int == src.len());
            assert(out.tokens == token_views(tokens@));
            assert(out.errs == err_views(self.errors@));
            assert(out.line_end == self.line as int);
        }
        tokens.push(
            Token {
                token_type: TokenType::EOF,
                lexeme: String::new(),
                literal: LiteralType::String(String::new()),
                line: self.line,
            },
        );
        proof {
            assert(token_views(tokens@) =~= out.tokens.push(tokens@.last()@));
        }
        tokens
    }
}

} // verus!

verus! {

/// The text from position `i` on consists solely of whitespace and
/// `//` comments.
pub open spec fn trivia_from(src: Seq<char>, i: int) -> bool
    decreases src.len() - i,
{
    if 0 <= i < src.len() {
        if src[i] == ' ' || src[i] == '\r' || src[i] == '\t' || src[i] == '\n' {
            trivia_from(src, i + 1)
        } else if src[i] == '/' && i + 1 < src.len() && src[i + 1] == '/' {
            trivia_from(src, step_clamp(src, i, find_char(src, i + 2, '\n')))
        } else {
            false
        }
    } else {
        true
    }
}

/// Law: a source consisting solely of whitespace and comments scans to
/// no tokens and no errors, so the scanner's output holds only the `EOF`
/// sentinel.
pub proof fn lemma_trivia_scans_empty(src: Seq<char>, i: int, line: int)
    requires
        trivia_from(src, i),
    ensures
        scan_from(src, i, line).tokens == Seq::<TokenM>::empty(),
        scan_from(src, i, line).errs == Seq::<ErrM>::empty(),
    decreases src.len() - i,
{
    if 0 <= i < src.len() {
        let st = scan_step(src, i, line);
        if src[i] == ' ' || src[i] == '\r' || src[i] == '\t' || src[i] == '\n' {
            lemma_trivia_scans_empty(src, i + 1, st.line_after);
        } else {
            lemma_trivia_scans_empty(src, step_clamp(src, i, st.next), st.line_after);
        }
    }
}

/// Law: every `NUMBER` token the scanner produces carries as its literal
/// value exactly its lexeme parsed as a 64-bit float, and its lexeme is a
/// well-formed numeral `d+('.'d+)?`.
pub proof fn lemma_number_literal_exact(src: Seq<char>, i: int, line: int, j: int)
    requires
        0 <= j < scan_from(src, i, line).tokens.len(),
        scan_from(src, i, line).tokens[j].token_type == TokenType::NUMBER,
    ensures
        scan_from(src, i, line).tokens[j].literal == Val::VNum(
            num_of_text(scan_from(src, i, line).tokens[j].lexeme),
        ),
        is_number_text(scan_from(src, i, line).tokens[j].lexeme),
    decreases src.len() - i,
{
    if 0 <= i < src.len() {
        let st = scan_step(src, i, line);
        let next = step_clamp(src, i, st.next);
        match st.token {
            Some(t) => {
                if j == 0 {
                    if t.token_type == TokenType::NUMBER {
                        let c = src[i];
                        assert(is_digit_char(c));
                        let d = digits_end(src, i);
                        lemma_digits_end_bounds(src, i);
                        if d < src.len() && src[d] == '.' && d + 1 < src.len() && is_digit_char(
                            src[d + 1],
                        ) {
                            lemma_digits_end_bounds(src, d + 1);
                            let end = digits_end(src, d + 1);
                            assert(end >= d + 2);
                            lemma_number_lexeme(src, i, d, end);
                        } else {
                            lemma_number_lexeme(src, i, d, d);
                        }
                    }
                } else {
                    lemma_number_literal_exact(src, next, st.line_after, j - 1);
                    assert(scan_from(src, i, line).tokens[j] == scan_from(
                        src,
                        next,
                        st.line_after,
                    ).tokens[j - 1]);
                }
            },
            None => {
                lemma_number_literal_exact(src, next, st.line_after, j);
            },
        }
    }
}

} // verus!
