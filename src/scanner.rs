use crate::error_reporter::{line_diagnostic, DiagnosticView, ErrorReporter};
use crate::tokens::{Object, ObjectView, Token, TokenType, TokenView};
use vstd::prelude::*;

verus! {

/// What `char::is_alphabetic` says of a character (Unicode's Alphabetic property).
pub uninterp spec fn alphabetic(c: char) -> bool;

/// What `char::is_alphanumeric` says of a character (Alphabetic or Numeric).
pub uninterp spec fn alphanumeric(c: char) -> bool;

/// Relies on `char::is_alphabetic`, whose result depends on the character
/// alone; the ASCII letters have the Alphabetic property.
#[verifier::external_body]
fn is_alphabetic(c: char) -> (r: bool)
    ensures
        r == alphabetic(c),
        ('a' <= c <= 'z' || 'A' <= c <= 'Z') ==> r,
{
    c.is_alphabetic()
}

/// Relies on `char::is_alphanumeric`, whose result depends on the character
/// alone; the ASCII letters and digits are alphanumeric.
#[verifier::external_body]
fn is_alphanumeric(c: char) -> (r: bool)
    ensures
        r == alphanumeric(c),
        ('a' <= c <= 'z' || 'A' <= c <= 'Z' || '0' <= c <= '9') ==> r,
{
    c.is_alphanumeric()
}

/// Relies on `str::chars` collected into a `Vec`: the characters of the text, in order.
#[verifier::external_body]
fn chars_of(s: &str) -> (r: Vec<char>)
    ensures
        r@ == s@,
{
    s.chars().collect()
}

/// Relies on collecting a slice of characters into a `String`: the same characters.
#[verifier::external_body]
fn text_of(chars: &[char]) -> (r: String)
    ensures
        r@ == chars@,
{
    chars.iter().collect()
}

pub open spec fn is_digit(c: char) -> bool {
    '0' <= c && c <= '9'
}

pub open spec fn identifier_start(c: char) -> bool {
    alphabetic(c) || c == '_'
}

pub open spec fn identifier_part(c: char) -> bool {
    alphanumeric(c) || is_digit(c) || c == '_'
}

/// The reserved word that `text` spells, or `Identifier`.
pub open spec fn keyword_type(text: Seq<char>) -> TokenType {
    if text == seq!['a', 'n', 'd'] {
        TokenType::And
    } else if text == seq!['c', 'l', 'a', 's', 's'] {
        TokenType::Class
    } else if text == seq!['e', 'l', 's', 'e'] {
        TokenType::Else
    } else if text == seq!['f', 'a', 'l', 's', 'e'] {
        TokenType::False
    } else if text == seq!['f', 'o', 'r'] {
        TokenType::For
    } else if text == seq!['f', 'u', 'n'] {
        TokenType::Fun
    } else if text == seq!['i', 'f'] {
        TokenType::If
    } else if text == seq!['n', 'i', 'l'] {
        TokenType::Nil
    } else if text == seq!['o', 'r'] {
        TokenType::Or
    } else if text == seq!['p', 'r', 'i', 'n', 't'] {
        TokenType::Print
    } else if text == seq!['r', 'e', 't', 'u', 'r', 'n'] {
        TokenType::Return
    } else if text == seq!['s', 'u', 'p', 'e', 'r'] {
        TokenType::Super
    } else if text == seq!['t', 'h', 'i', 's'] {
        TokenType::This
    } else if text == seq!['t', 'r', 'u', 'e'] {
        TokenType::True
    } else if text == seq!['v', 'a', 'r'] {
        TokenType::Var
    } else if text == seq!['w', 'h', 'i', 'l', 'e'] {
        TokenType::While
    } else {
        TokenType::Identifier
    }
}

/// The first index at or after `i` whose character is not a digit.
pub open spec fn digits_end(src: Seq<char>, i: int) -> int
    decreases src.len() - i,
{
    if 0 <= i < src.len() && is_digit(src[i]) {
        digits_end(src, i + 1)
    } else {
        i
    }
}

/// The end of a number whose first digit stands at `start`: its digits, and a
/// fractional part only where a digit follows the dot.
pub open spec fn number_end(src: Seq<char>, start: int) -> int {
    let e = digits_end(src, start + 1);
    if e + 1 < src.len() && src[e] == '.' && is_digit(src[e + 1]) {
        digits_end(src, e + 1)
    } else {
        e
    }
}

/// The first index at or after `i` whose character cannot continue an identifier.
pub open spec fn identifier_end(src: Seq<char>, i: int) -> int
    decreases src.len() - i,
{
    if 0 <= i < src.len() && identifier_part(src[i]) {
        identifier_end(src, i + 1)
    } else {
        i
    }
}

/// The first index at or after `i` that holds a newline, or the length.
pub open spec fn line_end(src: Seq<char>, i: int) -> int
    decreases src.len() - i,
{
    if 0 <= i < src.len() && src[i] != '\n' {
        line_end(src, i + 1)
    } else {
        i
    }
}

/// Scans a string body from `i`: the index of the closing quote (or the
/// length), and the line number after the newlines passed on the way.
pub open spec fn string_scan(src: Seq<char>, i: int, line: int) -> (int, int)
    decreases src.len() - i,
{
    if 0 <= i < src.len() && src[i] != '"' {
        string_scan(src, i + 1, if src[i] == '\n' { line + 1 } else { line })
    } else {
        (i, line)
    }
}

/// The outcome of scanning one lexeme that starts at a given index.
pub struct ScanStep {
    pub end: int,
    pub line: int,
    pub token: Option<TokenView>,
    pub diagnostic: Option<DiagnosticView>,
}

pub open spec fn plain_token(src: Seq<char>, start: int, end: int, kind: TokenType, line: int) -> ScanStep {
    ScanStep {
        end,
        line,
        token: Some(
            TokenView {
                token_type: kind,
                lexeme: src.subrange(start, end),
                literal: None,
                line: line as u32,
            },
        ),
        diagnostic: None,
    }
}

/// A token of one character, or of two where the second is `=`.
pub open spec fn with_equal(src: Seq<char>, i: int, line: int, one: TokenType, two: TokenType) -> ScanStep {
    if i + 1 < src.len() && src[i + 1] == '=' {
        plain_token(src, i, i + 2, two, line)
    } else {
        plain_token(src, i, i + 1, one, line)
    }
}

pub open spec fn nothing(end: int, line: int) -> ScanStep {
    ScanStep { end, line, token: None, diagnostic: None }
}

/// Scans the lexeme that starts at `i` (which holds a character), on line `line`.
pub open spec fn scan_step(src: Seq<char>, i: int, line: int) -> ScanStep {
    let c = src[i];
    if c == '(' {
        plain_token(src, i, i + 1, TokenType::LeftParen, line)
    } else if c == ')' {
        plain_token(src, i, i + 1, TokenType::RightParen, line)
    } else if c == '{' {
        plain_token(src, i, i + 1, TokenType::LeftBrace, line)
    } else if c == '}' {
        plain_token(src, i, i + 1, TokenType::RightBrace, line)
    } else if c == ',' {
        plain_token(src, i, i + 1, TokenType::Comma, line)
    } else if c == '.' {
        plain_token(src, i, i + 1, TokenType::Dot, line)
    } else if c == '-' {
        plain_token(src, i, i + 1, TokenType::Minus, line)
    } else if c == '+' {
        plain_token(src, i, i + 1, TokenType::Plus, line)
    } else if c == ';' {
        plain_token(src, i, i + 1, TokenType::Semicolon, line)
    } else if c == '*' {
        plain_token(src, i, i + 1, TokenType::Star, line)
    } else if c == '!' {
        with_equal(src, i, line, TokenType::Bang, TokenType::BangEqual)
    } else if c == '=' {
        with_equal(src, i, line, TokenType::Equal, TokenType::EqualEqual)
    } else if c == '<' {
        with_equal(src, i, line, TokenType::Less, TokenType::LessEqual)
    } else if c == '>' {
        with_equal(src, i, line, TokenType::Greater, TokenType::GreaterEqual)
    } else if c == '/' {
        if i + 1 < src.len() && src[i + 1] == '/' {
            nothing(line_end(src, i + 2), line)
        } else {
            plain_token(src, i, i + 1, TokenType::Slash, line)
        }
    } else if c == ' ' || c == '\r' || c == '\t' {
        nothing(i + 1, line)
    } else if c == '\n' {
        nothing(i + 1, line + 1)
    } else if c == '"' {
        let (close, l) = string_scan(src, i + 1, line);
        if close >= src.len() {
            ScanStep {
                end: close,
                line: l,
                token: None,
                diagnostic: Some(line_diagnostic(l as u32, "Unterminated string."@)),
            }
        } else {
            ScanStep {
                end: close + 1,
                line: l,
                token: Some(
                    TokenView {
                        token_type: TokenType::String,
                        lexeme: src.subrange(i, close + 1),
                        literal: Some(ObjectView::String(src.subrange(i + 1, close))),
                        line: l as u32,
                    },
                ),
                diagnostic: None,
            }
        }
    } else if is_digit(c) {
        let end = number_end(src, i);
        ScanStep {
            end,
            line,
            token: Some(
                TokenView {
                    token_type: TokenType::Number,
                    lexeme: src.subrange(i, end),
                    literal: Some(ObjectView::Number(src.subrange(i, end))),
                    line: line as u32,
                },
            ),
            diagnostic: None,
        }
    } else if identifier_start(c) {
        let end = identifier_end(src, i + 1);
        plain_token(src, i, end, keyword_type(src.subrange(i, end)), line)
    } else {
        ScanStep {
            end: i + 1,
            line,
            token: None,
            diagnostic: Some(line_diagnostic(line as u32, "Unexpected character."@)),
        }
    }
}

pub open spec fn option_seq<T>(o: Option<T>) -> Seq<T> {
    match o {
        Some(x) => seq![x],
        None => Seq::empty(),
    }
}

pub open spec fn eof_token(line: int) -> TokenView {
    TokenView { token_type: TokenType::Eof, lexeme: Seq::empty(), literal: None, line: line as u32 }
}

/// The tokens and diagnostics of scanning `src` from index `i` on line `line`
/// to its end, closed by an end-of-input token on the last line reached.
pub open spec fn scan_from(src: Seq<char>, i: int, line: int) -> (Seq<TokenView>, Seq<DiagnosticView>)
    decreases src.len() - i,
{
    if 0 <= i < src.len() {
        let s = scan_step(src, i, line);
        if i < s.end <= src.len() {
            let rest = scan_from(src, s.end, s.line);
            (option_seq(s.token) + rest.0, option_seq(s.diagnostic) + rest.1)
        } else {
            (seq![eof_token(line)], Seq::empty())
        }
    } else {
        (seq![eof_token(line)], Seq::empty())
    }
}

/// The tokens of a whole source text.
pub open spec fn tokens_of(src: Seq<char>) -> Seq<TokenView> {
    scan_from(src, 0, 1).0
}

/// Each two-character operator (`!=`, `==`, `<=`, `>=`) scans as exactly one
/// token of its own kind followed by the end marker, never as its
/// one-character prefix and a separate `=`.
pub proof fn lemma_two_character_operators(first: char, kind: TokenType)
    requires
        (first == '!' && kind == TokenType::BangEqual) || (first == '=' && kind
            == TokenType::EqualEqual) || (first == '<' && kind == TokenType::LessEqual) || (first
            == '>' && kind == TokenType::GreaterEqual),
    ensures
        tokens_of(seq![first, '=']) == seq![
            TokenView { token_type: kind, lexeme: seq![first, '='], literal: None, line: 1 },
            eof_token(1),
        ],
{
    let src = seq![first, '='];
    assert(src.subrange(0, 2) =~= src);
    assert(scan_step(src, 0, 1) == plain_token(src, 0, 2, kind, 1));
    assert(scan_from(src, 2, 1) == (seq![eof_token(1)], Seq::<DiagnosticView>::empty()));
    assert(tokens_of(src) =~= seq![
        TokenView { token_type: kind, lexeme: seq![first, '='], literal: None, line: 1 },
        eof_token(1),
    ]);
}

/// The one- and two-character kinds of an operator that may be followed by `=`.
pub open spec fn operator_kinds(c: char) -> (TokenType, TokenType) {
    if c == '!' {
        (TokenType::Bang, TokenType::BangEqual)
    } else if c == '=' {
        (TokenType::Equal, TokenType::EqualEqual)
    } else if c == '<' {
        (TokenType::Less, TokenType::LessEqual)
    } else {
        (TokenType::Greater, TokenType::GreaterEqual)
    }
}

/// Scanning is greedy at every position it reaches: where `!`, `=`, `<` or
/// `>` is followed by `=`, the two characters make one token of the
/// two-character kind and scanning goes on after both; the one-character
/// token is made only where no `=` follows, so it is never followed directly
/// by an `=` in the text.
pub proof fn lemma_operators_are_greedy(src: Seq<char>, i: int, line: int)
    requires
        0 <= i < src.len(),
        src[i] == '!' || src[i] == '=' || src[i] == '<' || src[i] == '>',
    ensures
        ({
            let s = scan_step(src, i, line);
            let (one, two) = operator_kinds(src[i]);
            if i + 1 < src.len() && src[i + 1] == '=' {
                &&& s.end == i + 2
                &&& s.token == Some(
                    TokenView {
                        token_type: two,
                        lexeme: seq![src[i], '='],
                        literal: None,
                        line: line as u32,
                    },
                )
            } else {
                &&& s.end == i + 1
                &&& s.token == Some(
                    TokenView { token_type: one, lexeme: seq![src[i]], literal: None, line: line as u32 },
                )
                &&& !(i + 1 < src.len() && src[i + 1] == '=')
            }
        }),
{
    if i + 1 < src.len() && src[i + 1] == '=' {
        assert(src.subrange(i, i + 2) =~= seq![src[i], '=']);
    } else {
        assert(src.subrange(i, i + 1) =~= seq![src[i]]);
    }
}

/// A dot after a number's digits that no digit follows is not part of the
/// number: `123.` scans as the number `123`, then a dot.
pub proof fn lemma_trailing_dot_is_separate()
    ensures
        tokens_of(seq!['1', '2', '3', '.']) == seq![
            TokenView {
                token_type: TokenType::Number,
                lexeme: seq!['1', '2', '3'],
                literal: Some(ObjectView::Number(seq!['1', '2', '3'])),
                line: 1,
            },
            TokenView { token_type: TokenType::Dot, lexeme: seq!['.'], literal: None, line: 1 },
            eof_token(1),
        ],
{
    let src = seq!['1', '2', '3', '.'];
    assert(digits_end(src, 3) == 3);
    assert(digits_end(src, 2) == 3);
    assert(digits_end(src, 1) == 3);
    assert(number_end(src, 0) == 3);
    assert(src.subrange(0, 3) =~= seq!['1', '2', '3']);
    assert(src.subrange(3, 4) =~= seq!['.']);
    assert(scan_step(src, 3, 1) == plain_token(src, 3, 4, TokenType::Dot, 1));
    assert(scan_from(src, 4, 1) == (seq![eof_token(1)], Seq::<DiagnosticView>::empty()));
    assert(scan_from(src, 3, 1).0 =~= seq![
        TokenView { token_type: TokenType::Dot, lexeme: seq!['.'], literal: None, line: 1 },
        eof_token(1),
    ]);
    assert(tokens_of(src) =~= seq![
        TokenView {
            token_type: TokenType::Number,
            lexeme: seq!['1', '2', '3'],
            literal: Some(ObjectView::Number(seq!['1', '2', '3'])),
            line: 1,
        },
        TokenView { token_type: TokenType::Dot, lexeme: seq!['.'], literal: None, line: 1 },
        eof_token(1),
    ]);
}

/// The diagnostics of scanning a whole source text.
pub open spec fn scan_diagnostics(src: Seq<char>) -> Seq<DiagnosticView> {
    scan_from(src, 0, 1).1
}

/// Whether `text` spells `word`.
fn spells(text: &[char], word: &[char]) -> (r: bool)
    ensures
        r == (text@ == word@),
{
    if text.len() != word.len() {
        return false;
    }
    let mut i: usize = 0;
    while i < text.len()
        invariant
            text@.len() == word@.len(),
            i <= text@.len(),
            forall|k: int| 0 <= k < i ==> text@[k] == word@[k],
        decreases text@.len() - i,
    {
        if text[i] != word[i] {
            return false;
        }
        i = i + 1;
    }
    assert(text@ =~= word@);
    true
}

/// The reserved word that `text` spells, or `Identifier`.
fn keyword_of(text: &[char]) -> (t: TokenType)
    ensures
        t == keyword_type(text@),
{
    if spells(text, vec!['a', 'n', 'd'].as_slice()) {
        TokenType::And
    } else if spells(text, vec!['c', 'l', 'a', 's', 's'].as_slice()) {
        TokenType::Class
    } else if spells(text, vec!['e', 'l', 's', 'e'].as_slice()) {
        TokenType::Else
    } else if spells(text, vec!['f', 'a', 'l', 's', 'e'].as_slice()) {
        TokenType::False
    } else if spells(text, vec!['f', 'o', 'r'].as_slice()) {
        TokenType::For
    } else if spells(text, vec!['f', 'u', 'n'].as_slice()) {
        TokenType::Fun
    } else if spells(text, vec!['i', 'f'].as_slice()) {
        TokenType::If
    } else if spells(text, vec!['n', 'i', 'l'].as_slice()) {
        TokenType::Nil
    } else if spells(text, vec!['o', 'r'].as_slice()) {
        TokenType::Or
    } else if spells(text, vec!['p', 'r', 'i', 'n', 't'].as_slice()) {
        TokenType::Print
    } else if spells(text, vec!['r', 'e', 't', 'u', 'r', 'n'].as_slice()) {
        TokenType::Return
    } else if spells(text, vec!['s', 'u', 'p', 'e', 'r'].as_slice()) {
        TokenType::Super
    } else if spells(text, vec!['t', 'h', 'i', 's'].as_slice()) {
        TokenType::This
    } else if spells(text, vec!['t', 'r', 'u', 'e'].as_slice()) {
        TokenType::True
    } else if spells(text, vec!['v', 'a', 'r'].as_slice()) {
        TokenType::Var
    } else if spells(text, vec!['w', 'h', 'i', 'l', 'e'].as_slice()) {
        TokenType::While
    } else {
        TokenType::Identifier
    }
}

fn digit(c: char) -> (r: bool)
    ensures
        r == is_digit(c),
{
    '0' <= c && c <= '9'
}

/// Converts source text into tokens in one left-to-right pass.
pub struct Scanner {
    source: Vec<char>,
    pub error_reporter: ErrorReporter,
    start: usize,
    current: usize,
    line: u32,
}

impl Scanner {
    /// The characters being scanned.
    pub closed spec fn text(&self) -> Seq<char> {
        self.source@
    }

    /// The reporter that collects this scanner's diagnostics.
    pub closed spec fn reporter(&self) -> ErrorReporter {
        self.error_reporter
    }

    /// The index of the next character to scan.
    pub closed spec fn position(&self) -> int {
        self.current as int
    }

    /// The current line number.
    pub closed spec fn line_number(&self) -> int {
        self.line as int
    }

    /// The cursor lies within the text, and the line counter cannot overflow
    /// before the end of the text.
    pub closed spec fn wf(&self) -> bool {
        &&& self.current <= self.source@.len()
        &&& self.source@.len() < u32::MAX
        &&& self.line as int + self.source@.len() - self.current <= u32::MAX
        &&& self.line >= 1
    }

    pub fn new(source: String) -> (r: Self)
        requires
            source@.len() < u32::MAX,
        ensures
            r.wf(),
            r.text() == source@,
            r.position() == 0,
            r.line_number() == 1,
            !r.reporter().had_error,
            !r.reporter().had_runtime_error,
            r.reporter().diags().len() == 0,
    {
        let chars = chars_of(source.as_str());
        Scanner { source: chars, error_reporter: ErrorReporter::new(), start: 0, current: 0, line: 1 }
    }

    /// Scans from the cursor to the end of the text. The tokens end with one
    /// end-of-input token on the last line reached; every lexical error is
    /// reported and scanning goes on.
    pub fn scan_tokens(&mut self) -> (r: Vec<Token>)
        requires
            old(self).wf(),
        ensures
            final(self).wf(),
            final(self).text() == old(self).text(),
            r@.map_values(|t: Token| t@) == scan_from(
                old(self).text(),
                old(self).position(),
                old(self).line_number(),
            ).0,
            final(self).reporter().extends(
                old(self).reporter(),
                scan_from(old(self).text(), old(self).position(), old(self).line_number()).1,
            ),
    {
        let ghost src = self.source@;
        let ghost c0 = self.current as int;
        let ghost l0 = self.line as int;
        let ghost r0 = self.error_reporter;
        let ghost mut ds: Seq<DiagnosticView> = Seq::empty();
        let mut tokens: Vec<Token> = Vec::new();
        while self.current < self.source.len()
            invariant
                self.wf(),
                self.source@ == src,
                scan_from(src, c0, l0).0 == tokens@.map_values(|t: Token| t@) + scan_from(
                    src,
                    self.current as int,
                    self.line as int,
                ).0,
                scan_from(src, c0, l0).1 == ds + scan_from(
                    src,
                    self.current as int,
                    self.line as int,
                ).1,
                self.error_reporter.extends(r0, ds),
            decreases src.len() - self.current,
        {
            let ghost before = tokens@.map_values(|t: Token| t@);
            let ghost i = self.current as int;
            let ghost l = self.line as int;
            self.start = self.current;
            let t = self.scan_token();
            let ghost s = scan_step(src, i, l);
            assert(r0.diags() + ds + option_seq(s.diagnostic) =~= r0.diags() + (ds + option_seq(s.diagnostic)));
            proof {
                ds = ds + option_seq(s.diagnostic);
            }
            match t {
                Some(t) => {
                    tokens.push(t);
                },
                None => {},
            }
            assert(tokens@.map_values(|t: Token| t@) =~= before + option_seq(s.token));
            assert(scan_from(src, i, l).0 == option_seq(s.token) + scan_from(
                src,
                self.current as int,
                self.line as int,
            ).0);
            assert(before + (option_seq(s.token) + scan_from(
                src,
                self.current as int,
                self.line as int,
            ).0) =~= (before + option_seq(s.token)) + scan_from(
                src,
                self.current as int,
                self.line as int,
            ).0);
        }
        let ghost before = tokens@.map_values(|t: Token| t@);
        tokens.push(Token::new(TokenType::Eof, String::new(), None, self.line));
        assert(tokens@.map_values(|t: Token| t@) =~= before + seq![eof_token(self.line as int)]);
        assert(ds + Seq::<DiagnosticView>::empty() =~= ds);
        tokens
    }

    fn peek(&self) -> (c: char)
        ensures
            c == if self.current < self.source@.len() {
                self.source@[self.current as int]
            } else {
                '\0'
            },
    {
        if self.current < self.source.len() {
            self.source[self.current]
        } else {
            '\0'
        }
    }

    /// The text from the start of the lexeme to the cursor.
    fn lexeme(&self) -> (r: String)
        requires
            self.start <= self.current <= self.source@.len(),
        ensures
            r@ == self.source@.subrange(self.start as int, self.current as int),
    {
        text_of(vstd::slice::slice_subrange(self.source.as_slice(), self.start, self.current))
    }

    fn add_token(&self, token_type: TokenType) -> (r: Token)
        requires
            self.start <= self.current <= self.source@.len(),
        ensures
            r@ == (TokenView {
                token_type,
                lexeme: self.source@.subrange(self.start as int, self.current as int),
                literal: None,
                line: self.line,
            }),
    {
        Token::new(token_type, self.lexeme(), None, self.line)
    }

    /// Consumes the next character where it is `expected`.
    fn match_token(&mut self, expected: char) -> (r: bool)
        requires
            old(self).current <= old(self).source@.len(),
        ensures
            r == (old(self).current < old(self).source@.len()
                && old(self).source@[old(self).current as int] == expected),
            final(self).current == if r {
                old(self).current + 1
            } else {
                old(self).current as int
            },
            final(self).source@ == old(self).source@,
            final(self).start == old(self).start,
            final(self).line == old(self).line,
            final(self).error_reporter == old(self).error_reporter,
    {
        if self.current >= self.source.len() || self.source[self.current] != expected {
            return false;
        }
        self.current = self.current + 1;
        true
    }

    fn number(&mut self) -> (r: Token)
        requires
            old(self).wf(),
            old(self).start + 1 == old(self).current,
            is_digit(old(self).source@[old(self).start as int]),
        ensures
            ({
                let src = old(self).source@;
                let i = old(self).start as int;
                let end = number_end(src, i);
                &&& r@ == (TokenView {
                    token_type: TokenType::Number,
                    lexeme: src.subrange(i, end),
                    literal: Some(ObjectView::Number(src.subrange(i, end))),
                    line: old(self).line,
                })
                &&& final(self).current == end
            }),
            final(self).wf(),
            final(self).source@ == old(self).source@,
            final(self).start == old(self).start,
            final(self).current > old(self).start,
            final(self).line == old(self).line,
            final(self).error_reporter == old(self).error_reporter,
    {
        let ghost src = self.source@;
        while self.current < self.source.len() && digit(self.source[self.current])
            invariant
                self.source@ == src,
                old(self).current <= self.current <= src.len(),
                src.len() < u32::MAX,
                digits_end(src, self.current as int) == digits_end(src, old(self).current as int),
                self.start == old(self).start,
                self.line == old(self).line,
                self.error_reporter == old(self).error_reporter,
            decreases src.len() - self.current,
        {
            self.current = self.current + 1;
        }
        if self.current + 1 < self.source.len() && self.source[self.current] == '.' && digit(
            self.source[self.current + 1],
        ) {
            self.current = self.current + 1;
            let ghost e = self.current as int;
            while self.current < self.source.len() && digit(self.source[self.current])
                invariant
                    self.source@ == src,
                    e <= self.current <= src.len(),
                    digits_end(src, self.current as int) == digits_end(src, e),
                    self.start == old(self).start,
                    self.line == old(self).line,
                    self.error_reporter == old(self).error_reporter,
                decreases src.len() - self.current,
            {
                self.current = self.current + 1;
            }
        }
        let text = self.lexeme();
        let numeral = text.clone();
        Token::new(TokenType::Number, text, Some(Object::Number(numeral)), self.line)
    }

    fn string(&mut self) -> (r: Option<Token>)
        requires
            old(self).wf(),
            old(self).start + 1 == old(self).current,
            old(self).source@[old(self).start as int] == '"',
        ensures
            ({
                let s = scan_step(old(self).source@, old(self).start as int, old(self).line as int);
                &&& r matches Some(t) ==> s.token == Some(t@)
                &&& r is None ==> s.token is None
                &&& final(self).current == s.end
                &&& final(self).line == s.line
                &&& final(self).error_reporter.extends(
                    old(self).error_reporter,
                    option_seq(s.diagnostic),
                )
            }),
            final(self).wf(),
            final(self).source@ == old(self).source@,
            final(self).start == old(self).start,
            final(self).current > old(self).start,
    {
        let ghost src = self.source@;
        while self.current < self.source.len() && self.source[self.current] != '"'
            invariant
                self.source@ == src,
                old(self).current <= self.current <= src.len(),
                self.line as int + src.len() - self.current <= u32::MAX,
                self.line >= 1,
                string_scan(src, self.current as int, self.line as int) == string_scan(
                    src,
                    old(self).current as int,
                    old(self).line as int,
                ),
                self.start == old(self).start,
                self.error_reporter == old(self).error_reporter,
            decreases src.len() - self.current,
        {
            if self.source[self.current] == '\n' {
                self.line = self.line + 1;
            }
            self.current = self.current + 1;
        }
        if self.current >= self.source.len() {
            self.error_reporter.error(self.line, "Unterminated string.");
            assert(self.error_reporter.diags() =~= old(self).error_reporter.diags() + seq![
                line_diagnostic(self.line, "Unterminated string."@),
            ]);
            return None;
        }
        self.current = self.current + 1;
        let text = self.lexeme();
        let body = text_of(
            vstd::slice::slice_subrange(self.source.as_slice(), self.start + 1, self.current - 1),
        );
        assert(self.error_reporter.diags() =~= old(self).error_reporter.diags() + Seq::<
            DiagnosticView,
        >::empty());
        Some(Token::new(TokenType::String, text, Some(Object::String(body)), self.line))
    }

    fn identifier(&mut self) -> (r: Token)
        requires
            old(self).wf(),
            old(self).start + 1 == old(self).current,
            identifier_start(old(self).source@[old(self).start as int]),
        ensures
            r@ == plain_token(
                old(self).source@,
                old(self).start as int,
                final(self).current as int,
                keyword_type(old(self).source@.subrange(old(self).start as int, final(self).current as int)),
                old(self).line as int,
            ).token->0,
            final(self).current == identifier_end(old(self).source@, old(self).current as int),
            final(self).wf(),
            final(self).source@ == old(self).source@,
            final(self).start == old(self).start,
            final(self).current > old(self).start,
            final(self).line == old(self).line,
            final(self).error_reporter == old(self).error_reporter,
    {
        let ghost src = self.source@;
        while self.current < self.source.len() && (is_alphanumeric(self.source[self.current])
            || digit(self.source[self.current]) || self.source[self.current] == '_')
            invariant
                self.source@ == src,
                old(self).current <= self.current <= src.len(),
                identifier_end(src, self.current as int) == identifier_end(
                    src,
                    old(self).current as int,
                ),
                self.start == old(self).start,
                self.line == old(self).line,
                self.error_reporter == old(self).error_reporter,
            decreases src.len() - self.current,
        {
            self.current = self.current + 1;
        }
        let kind = keyword_of(
            vstd::slice::slice_subrange(self.source.as_slice(), self.start, self.current),
        );
        self.add_token(kind)
    }

    /// Scans the lexeme at the cursor.
    fn scan_token(&mut self) -> (r: Option<Token>)
        requires
            old(self).wf(),
            old(self).current < old(self).source@.len(),
            old(self).start == old(self).current,
        ensures
            ({
                let s = scan_step(old(self).source@, old(self).current as int, old(self).line as int);
                &&& r matches Some(t) ==> s.token == Some(t@)
                &&& r is None ==> s.token is None
                &&& final(self).current == s.end
                &&& final(self).line == s.line
                &&& old(self).current < s.end
                &&& final(self).error_reporter.extends(
                    old(self).error_reporter,
                    option_seq(s.diagnostic),
                )
            }),
            final(self).wf(),
            final(self).source@ == old(self).source@,
    {
        let ghost r0 = self.error_reporter;
        assert(r0.diags() + Seq::<DiagnosticView>::empty() =~= r0.diags());
        let c = self.source[self.current];
        self.current = self.current + 1;
        if c == '(' {
            Some(self.add_token(TokenType::LeftParen))
        } else if c == ')' {
            Some(self.add_token(TokenType::RightParen))
        } else if c == '{' {
            Some(self.add_token(TokenType::LeftBrace))
        } else if c == '}' {
            Some(self.add_token(TokenType::RightBrace))
        } else if c == ',' {
            Some(self.add_token(TokenType::Comma))
        } else if c == '.' {
            Some(self.add_token(TokenType::Dot))
        } else if c == '-' {
            Some(self.add_token(TokenType::Minus))
        } else if c == '+' {
            Some(self.add_token(TokenType::Plus))
        } else if c == ';' {
            Some(self.add_token(TokenType::Semicolon))
        } else if c == '*' {
            Some(self.add_token(TokenType::Star))
        } else if c == '!' {
            if self.match_token('=') {
                Some(self.add_token(TokenType::BangEqual))
            } else {
                Some(self.add_token(TokenType::Bang))
            }
        } else if c == '=' {
            if self.match_token('=') {
                Some(self.add_token(TokenType::EqualEqual))
            } else {
                Some(self.add_token(TokenType::Equal))
            }
        } else if c == '<' {
            if self.match_token('=') {
                Some(self.add_token(TokenType::LessEqual))
            } else {
                Some(self.add_token(TokenType::Less))
            }
        } else if c == '>' {
            if self.match_token('=') {
                Some(self.add_token(TokenType::GreaterEqual))
            } else {
                Some(self.add_token(TokenType::Greater))
            }
        } else if c == '/' {
            if self.match_token('/') {
                let ghost src = self.source@;
                let ghost from = self.current as int;
                while self.peek() != '\n' && self.current < self.source.len()
                    invariant
                        self.source@ == src,
                        from <= self.current <= src.len(),
                        line_end(src, self.current as int) == line_end(src, from),
                        self.line == old(self).line,
                        self.error_reporter == r0,
                    decreases src.len() - self.current,
                {
                    self.current = self.current + 1;
                }
                None
            } else {
                Some(self.add_token(TokenType::Slash))
            }
        } else if c == ' ' || c == '\r' || c == '\t' {
            None
        } else if c == '\n' {
            self.line = self.line + 1;
            None
        } else if c == '"' {
            self.string()
        } else if digit(c) {
            Some(self.number())
        } else if c == '_' || is_alphabetic(c) {
            Some(self.identifier())
        } else {
            self.error_reporter.error(self.line, "Unexpected character.");
            assert(self.error_reporter.diags() =~= r0.diags() + seq![
                line_diagnostic(self.line, "Unexpected character."@),
            ]);
            None
        }
    }
}

} // verus!
