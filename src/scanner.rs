//! The scanner: source text to tokens, in one left-to-right pass.
//!
//! Lexical errors do not stop the scan: each is recorded as a diagnostic and
//! scanning resumes after the offending text, so one run reports them all.
//! What the scan produces is given exactly by `lex_one` and `scan_acc`. A
//! block comment without its `*/` is reported as unterminated, as a string
//! without its closing quote is, rather than silently running to the end.
use vstd::prelude::*;

use crate::error::{error_line, report_text, Error};
use crate::number::{make, Number};
use crate::text::{chars_of, copy_texts, text_of_chars, text_of_str, texts};
use crate::token::{Literal, Token, TokenType, TokenView, Val};

verus! {

pub open spec fn is_digit(c: char) -> bool {
    '0' <= c && c <= '9'
}

pub open spec fn is_alpha(c: char) -> bool {
    ('a' <= c && c <= 'z') || ('A' <= c && c <= 'Z') || c == '_'
}

pub open spec fn is_alnum(c: char) -> bool {
    is_alpha(c) || is_digit(c)
}

/// How many line breaks a text holds.
pub open spec fn newlines(s: Seq<char>) -> nat
    decreases s.len(),
{
    if s.len() == 0 {
        0
    } else {
        newlines(s.drop_last()) + if s.last() == '\n' {
            1nat
        } else {
            0nat
        }
    }
}

/// The kind of a word: a keyword's own kind, else an identifier.
pub open spec fn keyword_kind(s: Seq<char>) -> TokenType {
    if s == "and"@ {
        TokenType::And
    } else if s == "class"@ {
        TokenType::Class
    } else if s == "else"@ {
        TokenType::Else
    } else if s == "false"@ {
        TokenType::False
    } else if s == "for"@ {
        TokenType::For
    } else if s == "fun"@ {
        TokenType::Fun
    } else if s == "if"@ {
        TokenType::If
    } else if s == "nil"@ {
        TokenType::Nil
    } else if s == "or"@ {
        TokenType::Or
    } else if s == "print"@ {
        TokenType::Print
    } else if s == "return"@ {
        TokenType::Return
    } else if s == "super"@ {
        TokenType::Super
    } else if s == "this"@ {
        TokenType::This
    } else if s == "true"@ {
        TokenType::True
    } else if s == "var"@ {
        TokenType::Var
    } else if s == "while"@ {
        TokenType::While
    } else {
        TokenType::Identifier
    }
}

/// The text of each punctuation and operator kind; empty for the others.
pub open spec fn operator_text(k: TokenType) -> Seq<char> {
    match k {
        TokenType::LeftParen => seq!['('],
        TokenType::RightParen => seq![')'],
        TokenType::LeftBrace => seq!['{'],
        TokenType::RightBrace => seq!['}'],
        TokenType::Comma => seq![','],
        TokenType::Dot => seq!['.'],
        TokenType::Minus => seq!['-'],
        TokenType::Plus => seq!['+'],
        TokenType::Semicolon => seq![';'],
        TokenType::Slash => seq!['/'],
        TokenType::Star => seq!['*'],
        TokenType::Bang => seq!['!'],
        TokenType::BangEqual => seq!['!', '='],
        TokenType::Equal => seq!['='],
        TokenType::EqualEqual => seq!['=', '='],
        TokenType::Greater => seq!['>'],
        TokenType::GreaterEqual => seq!['>', '='],
        TokenType::Less => seq!['<'],
        TokenType::LessEqual => seq!['<', '='],
        _ => seq![],
    }
}

pub open spec fn is_operator(k: TokenType) -> bool {
    operator_text(k).len() > 0
}

pub open spec fn all_digits(s: Seq<char>) -> bool {
    forall|i: int| 0 <= i < s.len() ==> is_digit(#[trigger] s[i])
}

pub open spec fn digit_value(c: char) -> int {
    c as int - '0' as int
}

/// The natural number that a run of decimal digits spells.
pub open spec fn digits_value(s: Seq<char>) -> int
    decreases s.len(),
{
    if s.len() == 0 {
        0
    } else {
        digits_value(s.drop_last()) * 10 + digit_value(s.last())
    }
}

pub open spec fn pow10(k: nat) -> int
    decreases k,
{
    if k == 0 {
        1
    } else {
        10 * pow10((k - 1) as nat)
    }
}

/// The index of the first `.`, or the length where there is none.
pub open spec fn first_dot(s: Seq<char>) -> int
    decreases s.len(),
{
    if s.len() == 0 {
        0
    } else if s[0] == '.' {
        0
    } else {
        1 + first_dot(s.drop_first())
    }
}

/// The number that a numeric lexeme spells: digits, then optionally a `.`
/// and more digits; `None` where the text is no such lexeme, where its digits
/// spell `DIGITS_BOUND` or more or it has 36 digits or more after the `.`, or
/// where the value does not fit.
pub open spec fn number_of(s: Seq<char>) -> Option<Number> {
    let k = first_dot(s);
    let whole = s.take(k);
    let fraction = if k < s.len() {
        s.skip(k + 1)
    } else {
        seq![]
    };
    if whole.len() > 0 && all_digits(whole) && all_digits(fraction) && (k == s.len()
        || fraction.len() > 0) && digits_value(whole + fraction) < DIGITS_BOUND && pow10(
        fraction.len(),
    ) < DIGITS_BOUND {
        make(digits_value(whole + fraction), pow10(fraction.len()))
    } else {
        None
    }
}

/// A word: a letter or `_`, then letters, digits and `_`.
pub open spec fn is_word(s: Seq<char>) -> bool {
    &&& s.len() > 0
    &&& is_alpha(s[0])
    &&& forall|i: int| 0 <= i < s.len() ==> is_alnum(#[trigger] s[i])
}

/// A string lexeme: text between two quotes, holding no quote.
pub open spec fn is_string_lexeme(s: Seq<char>) -> bool {
    &&& s.len() >= 2
    &&& s[0] == '"'
    &&& s.last() == '"'
    &&& forall|i: int| 1 <= i < s.len() - 1 ==> #[trigger] s[i] != '"'
}

/// A token's kind and literal agree with its lexeme.
pub open spec fn token_matches(t: TokenView) -> bool {
    if is_operator(t.kind) {
        t.lexeme == operator_text(t.kind) && t.literal == Val::Nil
    } else if t.kind == TokenType::String_ {
        is_string_lexeme(t.lexeme) && t.literal == Val::Str(
            t.lexeme.subrange(1, t.lexeme.len() - 1),
        )
    } else if t.kind == TokenType::Number {
        match number_of(t.lexeme) {
            Some(n) => t.literal == Val::Num(n),
            None => false,
        }
    } else if t.kind == TokenType::Eof {
        false
    } else {
        is_word(t.lexeme) && t.kind == keyword_kind(t.lexeme) && t.literal == Val::Nil
    }
}

/// The character at `i`, or `'\0'` past the end.
pub open spec fn char_at(source: Seq<char>, i: int) -> char {
    if 0 <= i < source.len() {
        source[i]
    } else {
        '\0'
    }
}

/// Nothing right after a token, ending at `end`, could have extended it:
/// `!`, `=`, `<` and `>` are not followed by `=`; `/` does not begin a
/// comment; a word is not followed by a letter, digit or `_`; a number is not
/// followed by a digit, nor, when it has no `.`, by a `.` and a digit.
pub open spec fn maximal(source: Seq<char>, kind: TokenType, lexeme: Seq<char>, end: int) -> bool {
    let next = char_at(source, end);
    if kind == TokenType::Bang || kind == TokenType::Equal || kind == TokenType::Less || kind
        == TokenType::Greater {
        next != '='
    } else if kind == TokenType::Slash {
        next != '/' && next != '*'
    } else if kind == TokenType::Number {
        !is_digit(next) && (first_dot(lexeme) == lexeme.len() ==> !(next == '.' && is_digit(
            char_at(source, end + 1),
        )))
    } else if is_operator(kind) || kind == TokenType::String_ {
        true
    } else {
        !is_alnum(next)
    }
}

/// Token `t` was scanned from `source[span.0..span.1]`, as long a lexeme as
/// the source allows there, and its line is the line on which that text
/// ends.
pub open spec fn scanned_from(source: Seq<char>, t: TokenView, span: (int, int)) -> bool {
    &&& 0 <= span.0 < span.1 <= source.len()
    &&& t.lexeme == source.subrange(span.0, span.1)
    &&& t.line == 1 + newlines(source.take(span.1))
    &&& token_matches(t)
    &&& maximal(source, t.kind, t.lexeme, span.1)
}

/// The views of a token sequence.
pub open spec fn views(tokens: Seq<Token>) -> Seq<TokenView> {
    tokens.map_values(|t: Token| t@)
}

/// The tokens before the end marker come from disjoint pieces of `source`,
/// in order.
pub open spec fn scanned_prefix(source: Seq<char>, ts: Seq<TokenView>, spans: Seq<(int, int)>) -> bool {
    &&& ts.len() == spans.len()
    &&& forall|i: int| 0 <= i < spans.len() ==> scanned_from(source, #[trigger] ts[i], spans[i])
    &&& forall|i: int| 0 <= i < spans.len() - 1 ==> #[trigger] spans[i].1 <= spans[i + 1].0
}

/// The whole token sequence of `source`: the scanned tokens, then the end
/// marker, on the last line.
pub open spec fn scanned(source: Seq<char>, ts: Seq<TokenView>, spans: Seq<(int, int)>) -> bool {
    &&& ts.len() == spans.len() + 1
    &&& scanned_prefix(source, ts.drop_last(), spans)
    &&& ts.last().kind == TokenType::Eof
    &&& ts.last().lexeme == Seq::<char>::empty()
    &&& ts.last().literal == Val::Nil
    &&& ts.last().line == 1 + newlines(source)
}

/// A copy of a token sequence.
pub fn copy_tokens(v: &Vec<Token>) -> (r: Vec<Token>)
    ensures
        views(r@) == views(v@),
{
    let mut r: Vec<Token> = Vec::new();
    let mut i: usize = 0;
    while i < v.len()
        invariant
            i <= v@.len(),
            r@.len() == i,
            forall|j: int| 0 <= j < i ==> (#[trigger] r@[j])@ == v@[j]@,
        decreases v@.len() - i,
    {
        r.push(v[i].duplicate());
        i = i + 1;
    }
    assert(views(r@) =~= views(v@));
    r
}

/// What one lexeme of the source is: a token with its kind and literal, text
/// that is skipped, or a lexical error with its message.
pub enum Lexed {
    Token(TokenType, Val),
    Skip,
    Error(Seq<char>),
}

/// The first index at or after `j` that holds `c`, or the length.
pub open spec fn find_char(s: Seq<char>, j: int, c: char) -> int
    decreases s.len() - j,
{
    if !(0 <= j < s.len()) {
        s.len() as int
    } else if s[j] == c {
        j
    } else {
        find_char(s, j + 1, c)
    }
}

/// The first index at or after `j` where `*/` begins, or the length.
pub open spec fn find_close(s: Seq<char>, j: int) -> int
    decreases s.len() - j,
{
    if !(0 <= j < s.len()) {
        s.len() as int
    } else if s[j] == '*' && char_at(s, j + 1) == '/' {
        j
    } else {
        find_close(s, j + 1)
    }
}

/// The end of the run of letters, digits and `_` from `j`.
pub open spec fn word_end(s: Seq<char>, j: int) -> int
    decreases s.len() - j,
{
    if !(0 <= j < s.len()) || !is_alnum(s[j]) {
        j
    } else {
        word_end(s, j + 1)
    }
}

/// The end of the run of digits from `j`.
pub open spec fn digits_end(s: Seq<char>, j: int) -> int
    decreases s.len() - j,
{
    if !(0 <= j < s.len()) || !is_digit(s[j]) {
        j
    } else {
        digits_end(s, j + 1)
    }
}

/// The end of the number that starts with the digit at `i`: its digits,
/// and a `.` with more digits where a digit follows the `.`.
pub open spec fn number_end(s: Seq<char>, i: int) -> int {
    let a = digits_end(s, i + 1);
    if char_at(s, a) == '.' && is_digit(char_at(s, a + 1)) {
        digits_end(s, a + 1)
    } else {
        a
    }
}

/// The lexeme of `s` that starts at `i`, and where it ends.
pub open spec fn lex_one(s: Seq<char>, i: int) -> (Lexed, int) {
    let c = s[i];
    let next = char_at(s, i + 1);
    if c == '(' {
        (Lexed::Token(TokenType::LeftParen, Val::Nil), i + 1)
    } else if c == ')' {
        (Lexed::Token(TokenType::RightParen, Val::Nil), i + 1)
    } else if c == '{' {
        (Lexed::Token(TokenType::LeftBrace, Val::Nil), i + 1)
    } else if c == '}' {
        (Lexed::Token(TokenType::RightBrace, Val::Nil), i + 1)
    } else if c == ',' {
        (Lexed::Token(TokenType::Comma, Val::Nil), i + 1)
    } else if c == '.' {
        (Lexed::Token(TokenType::Dot, Val::Nil), i + 1)
    } else if c == '-' {
        (Lexed::Token(TokenType::Minus, Val::Nil), i + 1)
    } else if c == '+' {
        (Lexed::Token(TokenType::Plus, Val::Nil), i + 1)
    } else if c == ';' {
        (Lexed::Token(TokenType::Semicolon, Val::Nil), i + 1)
    } else if c == '*' {
        (Lexed::Token(TokenType::Star, Val::Nil), i + 1)
    } else if c == '!' {
        if next == '=' {
            (Lexed::Token(TokenType::BangEqual, Val::Nil), i + 2)
        } else {
            (Lexed::Token(TokenType::Bang, Val::Nil), i + 1)
        }
    } else if c == '=' {
        if next == '=' {
            (Lexed::Token(TokenType::EqualEqual, Val::Nil), i + 2)
        } else {
            (Lexed::Token(TokenType::Equal, Val::Nil), i + 1)
        }
    } else if c == '<' {
        if next == '=' {
            (Lexed::Token(TokenType::LessEqual, Val::Nil), i + 2)
        } else {
            (Lexed::Token(TokenType::Less, Val::Nil), i + 1)
        }
    } else if c == '>' {
        if next == '=' {
            (Lexed::Token(TokenType::GreaterEqual, Val::Nil), i + 2)
        } else {
            (Lexed::Token(TokenType::Greater, Val::Nil), i + 1)
        }
    } else if c == '/' {
        if next == '/' {
            (Lexed::Skip, find_char(s, i + 2, '\n'))
        } else if next == '*' {
            let k = find_close(s, i + 2);
            if k < s.len() {
                (Lexed::Skip, k + 2)
            } else {
                (Lexed::Error("Unterminated block comment"@), k)
            }
        } else {
            (Lexed::Token(TokenType::Slash, Val::Nil), i + 1)
        }
    } else if c == ' ' || c == '\r' || c == '\t' || c == '\n' {
        (Lexed::Skip, i + 1)
    } else if c == '"' {
        let k = find_char(s, i + 1, '"');
        if k < s.len() {
            (Lexed::Token(TokenType::String_, Val::Str(s.subrange(i + 1, k))), k + 1)
        } else {
            (Lexed::Error("Unterminated string"@), k)
        }
    } else if is_digit(c) {
        let e = number_end(s, i);
        match number_of(s.subrange(i, e)) {
            Some(n) => (Lexed::Token(TokenType::Number, Val::Num(n)), e),
            None => (Lexed::Error("Number literal out of range"@), e),
        }
    } else if is_alpha(c) {
        let e = word_end(s, i + 1);
        (Lexed::Token(keyword_kind(s.subrange(i, e)), Val::Nil), e)
    } else {
        (Lexed::Error("Unexpected character"@), i + 1)
    }
}

/// The tokens and diagnostics of `s` from `i` on, after `toks` and `diags`.
/// A token's line, and a diagnostic's, is the line on which its text ends.
pub open spec fn scan_acc(s: Seq<char>, i: int, toks: Seq<TokenView>, diags: Seq<Seq<char>>) -> (
    Seq<TokenView>,
    Seq<Seq<char>>,
)
    decreases s.len() - i,
{
    if !(0 <= i < s.len()) {
        (toks, diags)
    } else {
        let (item, e) = lex_one(s, i);
        if e <= i || e > s.len() {
            (toks, diags)
        } else {
            let line = 1 + newlines(s.take(e));
            match item {
                Lexed::Token(k, v) => scan_acc(
                    s,
                    e,
                    toks.push(TokenView { kind: k, lexeme: s.subrange(i, e), literal: v, line }),
                    diags,
                ),
                Lexed::Skip => scan_acc(s, e, toks, diags),
                Lexed::Error(m) => scan_acc(s, e, toks, diags.push(report_text(line, ""@, m))),
            }
        }
    }
}

/// The end marker of a source, on its last line.
pub open spec fn eof_view(s: Seq<char>) -> TokenView {
    TokenView { kind: TokenType::Eof, lexeme: seq![], literal: Val::Nil, line: 1 + newlines(s) }
}

/// The tokens of a whole source, before the end marker.
pub open spec fn lexed_tokens(s: Seq<char>) -> Seq<TokenView> {
    scan_acc(s, 0, seq![], seq![]).0
}

/// The diagnostics of a whole source.
pub open spec fn lexed_diagnostics(s: Seq<char>) -> Seq<Seq<char>> {
    scan_acc(s, 0, seq![], seq![]).1
}

pub struct Scanner {
    source: Vec<char>,
    tokens: Vec<Token>,
    diagnostics: Vec<String>,
    start: usize,
    current: usize,
    line: usize,
    spans: Ghost<Seq<(int, int)>>,
}

/// Whether `v[start..end]` is the text `w`.
fn same_text(v: &Vec<char>, start: usize, end: usize, w: &str) -> (r: bool)
    requires
        start <= end <= v@.len(),
    ensures
        r == (v@.subrange(start as int, end as int) == w@),
{
    let n = w.unicode_len();
    if end - start != n {
        return false;
    }
    let mut i: usize = 0;
    while i < n
        invariant
            start <= end <= v@.len(),
            end - start == n,
            n == w@.len(),
            i <= n,
            forall|j: int| 0 <= j < i ==> v@[start + j] == w@[j],
        decreases n - i,
    {
        if v[start + i] != w.get_char(i) {
            assert(v@.subrange(start as int, end as int)[i as int] != w@[i as int]);
            return false;
        }
        i = i + 1;
    }
    assert(v@.subrange(start as int, end as int) =~= w@);
    true
}

/// The kind of the word `v[start..end]`.
fn word_kind(v: &Vec<char>, start: usize, end: usize) -> (r: TokenType)
    requires
        start <= end <= v@.len(),
    ensures
        r == keyword_kind(v@.subrange(start as int, end as int)),
{
    if same_text(v, start, end, "and") {
        TokenType::And
    } else if same_text(v, start, end, "class") {
        TokenType::Class
    } else if same_text(v, start, end, "else") {
        TokenType::Else
    } else if same_text(v, start, end, "false") {
        TokenType::False
    } else if same_text(v, start, end, "for") {
        TokenType::For
    } else if same_text(v, start, end, "fun") {
        TokenType::Fun
    } else if same_text(v, start, end, "if") {
        TokenType::If
    } else if same_text(v, start, end, "nil") {
        TokenType::Nil
    } else if same_text(v, start, end, "or") {
        TokenType::Or
    } else if same_text(v, start, end, "print") {
        TokenType::Print
    } else if same_text(v, start, end, "return") {
        TokenType::Return
    } else if same_text(v, start, end, "super") {
        TokenType::Super
    } else if same_text(v, start, end, "this") {
        TokenType::This
    } else if same_text(v, start, end, "true") {
        TokenType::True
    } else if same_text(v, start, end, "var") {
        TokenType::Var
    } else if same_text(v, start, end, "while") {
        TokenType::While
    } else {
        TokenType::Identifier
    }
}

/// Digits accumulate while the value stays below this bound.
pub const DIGITS_BOUND: i128 = 1_000_000_000_000_000_000_000_000_000_000_000_000;

fn digit_of(c: char) -> (r: i128)
    requires
        is_digit(c),
    ensures
        r == digit_value(c),
        0 <= r < 10,
{
    (c as u32 - '0' as u32) as i128
}

pub proof fn lemma_pow10_positive(k: nat)
    ensures
        pow10(k) > 0,
    decreases k,
{
    if k > 0 {
        lemma_pow10_positive((k - 1) as nat);
    }
}

/// In `t`, the first `k` characters are digits and the next, if any, is a
/// `.`: the first `.` is at `k`.
proof fn lemma_first_dot(t: Seq<char>, k: int)
    requires
        0 <= k <= t.len(),
        forall|i: int| 0 <= i < k ==> is_digit(#[trigger] t[i]),
        k < t.len() ==> t[k] == '.',
    ensures
        first_dot(t) == k,
    decreases k,
{
    if k > 0 {
        assert forall|i: int| 0 <= i < k - 1 implies is_digit(#[trigger] t.drop_first()[i]) by {
            assert(t.drop_first()[i] == t[i + 1]);
        }
        lemma_first_dot(t.drop_first(), k - 1);
    }
}

proof fn lemma_keywords_are_not_operators(s: Seq<char>)
    ensures
        !is_operator(keyword_kind(s)),
        keyword_kind(s) != TokenType::String_,
        keyword_kind(s) != TokenType::Number,
        keyword_kind(s) != TokenType::Eof,
{
}

fn char_is_digit(c: char) -> (r: bool)
    ensures
        r == is_digit(c),
{
    '0' <= c && c <= '9'
}

fn char_is_alpha(c: char) -> (r: bool)
    ensures
        r == is_alpha(c),
{
    ('a' <= c && c <= 'z') || ('A' <= c && c <= 'Z') || c == '_'
}

impl Scanner {
    pub closed spec fn source(&self) -> Seq<char> {
        self.source@
    }

    /// Where each scanned token lies in the source.
    pub closed spec fn spans(&self) -> Seq<(int, int)> {
        self.spans@
    }

    pub closed spec fn scanned_tokens(&self) -> Seq<Token> {
        self.tokens@
    }

    pub closed spec fn reported(&self) -> Seq<String> {
        self.diagnostics@
    }

    pub closed spec fn inv(&self) -> bool {
        &&& self.source@.len() < usize::MAX
        &&& self.start <= self.current <= self.source@.len()
        &&& self.line == 1 + newlines(self.source@.take(self.current as int))
        &&& self.line <= self.current + 1
        &&& scanned_prefix(self.source@, views(self.tokens@), self.spans@)
        &&& forall|i: int| 0 <= i < self.spans@.len() ==> #[trigger] self.spans@[i].1 <= self.current
    }

    /// No token ends after the start of the current one.
    closed spec fn ready(&self) -> bool {
        forall|i: int| 0 <= i < self.spans@.len() ==> #[trigger] self.spans@[i].1 <= self.start
    }

    /// Only the cursor and the line moved.
    closed spec fn moved_from(&self, old: &Scanner) -> bool {
        &&& self.source == old.source
        &&& self.tokens == old.tokens
        &&& self.diagnostics == old.diagnostics
        &&& self.spans == old.spans
        &&& self.start == old.start
    }

    pub fn new(source: String) -> (r: Scanner)
        requires
            source@.len() < usize::MAX,
        ensures
            r.inv(),
            r.source() == source@,
            r.scanned_tokens().len() == 0,
            r.reported().len() == 0,
    {
        let chars = chars_of(source.as_str());
        let r = Scanner {
            source: chars,
            tokens: Vec::new(),
            diagnostics: Vec::new(),
            start: 0,
            current: 0,
            line: 1,
            spans: Ghost(Seq::empty()),
        };
        assert(r.source@.take(0) =~= Seq::<char>::empty());
        r
    }

    /// Scans the whole source. The tokens end with the end marker; the result
    /// is an error exactly when a lexical error was reported.
    pub fn scan_tokens(&mut self) -> (r: Result<Vec<Token>, Error>)
        requires
            old(self).inv(),
            old(self).scanned_tokens().len() == 0,
            old(self).reported().len() == 0,
        ensures
            final(self).source() == old(self).source(),
            scanned(old(self).source(), views(final(self).scanned_tokens()), final(self).spans()),
            r matches Ok(t) ==> views(t@) == views(final(self).scanned_tokens()),
            views(final(self).scanned_tokens()) == lexed_tokens(old(self).source()).push(
                eof_view(old(self).source()),
            ),
            texts(final(self).reported()) == lexed_diagnostics(old(self).source()),
            r is Ok <==> final(self).reported().len() == 0,
            r matches Err(e) ==> e is ScanError,
    {
        self.start = 0;
        self.current = 0;
        self.line = 1;
        assert(views(self.tokens@) =~= seq![]);
        assert(texts(self.diagnostics@) =~= seq![]);
        while self.current < self.source.len()
            invariant
                self.inv(),
                self.source@ == old(self).source@,
                scan_acc(self.source@, self.current as int, views(self.tokens@), texts(self.diagnostics@))
                    == scan_acc(self.source@, 0, seq![], seq![]),
            decreases self.source@.len() - self.current,
        {
            self.start = self.current;
            self.scan_token();
        }
        assert(self.source@.take(self.current as int) =~= self.source@);
        let eof = Token::new(TokenType::Eof, "", Literal::Nil, self.line);
        proof {
            reveal_strlit("");
        }
        let ghost before = self.tokens@;
        let ghost eof_view = eof@;
        self.tokens.push(eof);
        assert(views(self.tokens@).last() == eof_view);
        assert(views(self.tokens@).drop_last() =~= views(before));
        assert(scanned_prefix(self.source@, views(before), self.spans@));
        assert(eof_view.lexeme == Seq::<char>::empty());
        assert(eof_view.line == 1 + newlines(self.source@));
        assert(views(self.tokens@).len() == self.spans@.len() + 1);
        if self.diagnostics.len() == 0 {
            Ok(copy_tokens(&self.tokens))
        } else {
            Err(Error::ScanError)
        }
    }

    /// The tokens scanned so far, also after lexical errors.
    pub fn tokens(&self) -> (r: &Vec<Token>)
        ensures
            r@ == self.scanned_tokens(),
    {
        &self.tokens
    }

    /// The diagnostics reported so far.
    pub fn diagnostics(&self) -> (r: &Vec<String>)
        ensures
            r@ == self.reported(),
    {
        &self.diagnostics
    }

    fn is_at_end(&self) -> (r: bool)
        requires
            self.inv(),
        ensures
            r == (self.current == self.source@.len()),
    {
        self.current >= self.source.len()
    }

    /// Consumes one character.
    fn advance(&mut self) -> (c: char)
        requires
            old(self).inv(),
            old(self).current < old(self).source@.len(),
        ensures
            final(self).inv(),
            final(self).moved_from(old(self)),
            final(self).current == old(self).current + 1,
            c == old(self).source@[old(self).current as int],
    {
        let c = self.source[self.current];
        self.current = self.current + 1;
        if c == '\n' {
            self.line = self.line + 1;
        }
        assert(self.source@.take(self.current as int).drop_last() =~= self.source@.take(
            old(self).current as int,
        ));
        c
    }

    /// Consumes the next character if it is `expected`.
    fn match_next(&mut self, expected: char) -> (r: bool)
        requires
            old(self).inv(),
            expected != '\0',
        ensures
            final(self).inv(),
            final(self).moved_from(old(self)),
            r ==> old(self).current < old(self).source@.len() && old(self).source@[old(
                self,
            ).current as int] == expected && final(self).current == old(self).current + 1,
            !r ==> final(self).current == old(self).current && char_at(
                old(self).source@,
                old(self).current as int,
            ) != expected,
    {
        if self.is_at_end() {
            return false;
        }
        if self.source[self.current] != expected {
            return false;
        }
        self.advance();
        true
    }

    /// The next character, or `'\0'` at the end.
    fn peek(&self) -> (c: char)
        requires
            self.inv(),
        ensures
            self.current < self.source@.len() ==> c == self.source@[self.current as int],
            self.current == self.source@.len() ==> c == '\0',
    {
        if self.is_at_end() {
            '\0'
        } else {
            self.source[self.current]
        }
    }

    /// The character after the next one, or `'\0'` past the end.
    fn peek_next(&self) -> (c: char)
        requires
            self.inv(),
        ensures
            self.current + 1 < self.source@.len() ==> c == self.source@[self.current + 1],
            self.current + 1 >= self.source@.len() ==> c == '\0',
    {
        if self.current + 1 >= self.source.len() {
            '\0'
        } else {
            self.source[self.current + 1]
        }
    }

    fn error(&mut self, message: &str)
        requires
            old(self).inv(),
        ensures
            final(self).inv(),
            final(self).source == old(self).source,
            final(self).tokens == old(self).tokens,
            final(self).spans == old(self).spans,
            final(self).start == old(self).start,
            final(self).current == old(self).current,
            final(self).diagnostics@.len() == old(self).diagnostics@.len() + 1,
            texts(final(self).diagnostics@) == texts(old(self).diagnostics@).push(
                report_text(old(self).line as nat, ""@, message@),
            ),
    {
        let d = error_line(self.line, message);
        let ghost before = self.diagnostics@;
        let ghost dv = d@;
        self.diagnostics.push(d);
        assert(texts(self.diagnostics@) =~= texts(before).push(dv));
    }

    /// Adds the token `source[start..current]` of kind `type_`.
    fn add_full_token(&mut self, type_: TokenType, literal: Literal)
        requires
            old(self).inv(),
            old(self).ready(),
            old(self).start < old(self).current,
            token_matches(
                TokenView {
                    kind: type_,
                    lexeme: old(self).source@.subrange(
                        old(self).start as int,
                        old(self).current as int,
                    ),
                    literal: literal@,
                    line: old(self).line as nat,
                },
            ),
            maximal(
                old(self).source@,
                type_,
                old(self).source@.subrange(old(self).start as int, old(self).current as int),
                old(self).current as int,
            ),
        ensures
            final(self).inv(),
            final(self).source == old(self).source,
            final(self).diagnostics == old(self).diagnostics,
            final(self).start == old(self).start,
            final(self).current == old(self).current,
            views(final(self).tokens@) == views(old(self).tokens@).push(
                TokenView {
                    kind: type_,
                    lexeme: old(self).source@.subrange(
                        old(self).start as int,
                        old(self).current as int,
                    ),
                    literal: literal@,
                    line: old(self).line as nat,
                },
            ),
    {
        let lexeme = text_of_chars(&self.source, self.start, self.current);
        let token = Token { type_, lexeme, literal, line: self.line };
        let ghost span = (self.start as int, self.current as int);
        let ghost before = self.tokens@;
        self.tokens.push(token);
        self.spans = Ghost(self.spans@.push(span));
        assert forall|i: int| 0 <= i < self.spans@.len() implies scanned_from(
            self.source@,
            #[trigger] views(self.tokens@)[i],
            self.spans@[i],
        ) by {
            if i < before.len() {
                assert(self.tokens@[i] == before[i]);
                assert(views(before)[i] == before[i]@);
            }
        }
        assert forall|i: int| 0 <= i < self.spans@.len() - 1 implies #[trigger] self.spans@[i].1
            <= self.spans@[i + 1].0 by {
            if i + 1 < before.len() {
            } else {
                assert(self.spans@[i].1 <= old(self).start);
            }
        }
        assert(views(self.tokens@) =~= views(before).push(self.tokens@.last()@));
    }

    fn add_token(&mut self, type_: TokenType)
        requires
            old(self).inv(),
            old(self).ready(),
            old(self).start < old(self).current,
            is_operator(type_),
            old(self).source@.subrange(old(self).start as int, old(self).current as int)
                == operator_text(type_),
            maximal(old(self).source@, type_, operator_text(type_), old(self).current as int),
        ensures
            final(self).inv(),
            final(self).source == old(self).source,
            final(self).diagnostics == old(self).diagnostics,
            final(self).start == old(self).start,
            final(self).current == old(self).current,
            views(final(self).tokens@) == views(old(self).tokens@).push(
                TokenView {
                    kind: type_,
                    lexeme: old(self).source@.subrange(
                        old(self).start as int,
                        old(self).current as int,
                    ),
                    literal: Val::Nil,
                    line: old(self).line as nat,
                },
            ),
    {
        self.add_full_token(type_, Literal::Nil);
    }

    /// Scans one lexeme, or skips blank text or a comment, or reports one
    /// lexical error; always consumes at least one character.
    fn scan_token(&mut self)
        requires
            old(self).inv(),
            old(self).ready(),
            old(self).start == old(self).current,
            old(self).current < old(self).source@.len(),
        ensures
            final(self).inv(),
            final(self).source == old(self).source,
            final(self).current > old(self).current,
            scan_acc(
                old(self).source@,
                old(self).current as int,
                views(old(self).tokens@),
                texts(old(self).diagnostics@),
            ) == scan_acc(
                final(self).source@,
                final(self).current as int,
                views(final(self).tokens@),
                texts(final(self).diagnostics@),
            ),
    {
        let c = self.advance();
        let ghost s = self.source@;
        let ghost st = self.start as int;
        assert(s.subrange(st, st + 1) =~= seq![c]);
        if c == '(' {
            self.add_token(TokenType::LeftParen);
        } else if c == ')' {
            self.add_token(TokenType::RightParen);
        } else if c == '{' {
            self.add_token(TokenType::LeftBrace);
        } else if c == '}' {
            self.add_token(TokenType::RightBrace);
        } else if c == ',' {
            self.add_token(TokenType::Comma);
        } else if c == '.' {
            self.add_token(TokenType::Dot);
        } else if c == '-' {
            self.add_token(TokenType::Minus);
        } else if c == '+' {
            self.add_token(TokenType::Plus);
        } else if c == ';' {
            self.add_token(TokenType::Semicolon);
        } else if c == '*' {
            self.add_token(TokenType::Star);
        } else if c == '!' || c == '=' || c == '<' || c == '>' {
            let eq = self.match_next('=');
            assert(eq ==> s.subrange(st, st + 2) =~= seq![c, '=']);
            let t = if c == '!' {
                if eq { TokenType::BangEqual } else { TokenType::Bang }
            } else if c == '=' {
                if eq { TokenType::EqualEqual } else { TokenType::Equal }
            } else if c == '<' {
                if eq { TokenType::LessEqual } else { TokenType::Less }
            } else {
                if eq { TokenType::GreaterEqual } else { TokenType::Greater }
            };
            self.add_token(t);
        } else if c == '/' {
            if self.match_next('/') {
                self.line_comment();
            } else if self.match_next('*') {
                self.block_comment();
            } else {
                self.add_token(TokenType::Slash);
            }
        } else if c == ' ' || c == '\r' || c == '\t' || c == '\n' {
        } else if c == '"' {
            self.string();
        } else if char_is_digit(c) {
            self.number();
        } else if char_is_alpha(c) {
            self.identifier();
        } else {
            self.error("Unexpected character");
        }
    }

    /// Skips to the end of the line, leaving the line break.
    fn line_comment(&mut self)
        requires
            old(self).inv(),
        ensures
            final(self).inv(),
            final(self).moved_from(old(self)),
            final(self).current >= old(self).current,
            final(self).current == find_char(old(self).source@, old(self).current as int, '\n'),
    {
        while self.peek() != '\n' && !self.is_at_end()
            invariant
                self.inv(),
                self.moved_from(old(self)),
                self.current >= old(self).current,
                find_char(self.source@, self.current as int, '\n') == find_char(
                    old(self).source@,
                    old(self).current as int,
                    '\n',
                ),
            decreases self.source@.len() - self.current,
        {
            self.advance();
        }
    }

    /// Skips to just after the next `*/`; without one, reports the comment
    /// as unterminated and skips to the end.
    fn block_comment(&mut self)
        requires
            old(self).inv(),
        ensures
            final(self).inv(),
            final(self).source == old(self).source,
            final(self).tokens == old(self).tokens,
            final(self).spans == old(self).spans,
            final(self).start == old(self).start,
            final(self).current >= old(self).current,
            ({
                let k = find_close(old(self).source@, old(self).current as int);
                if k < old(self).source@.len() {
                    final(self).current == k + 2 && final(self).diagnostics == old(self).diagnostics
                } else {
                    final(self).current == k && texts(final(self).diagnostics@) == texts(
                        old(self).diagnostics@,
                    ).push(
                        report_text(
                            (1 + newlines(old(self).source@.take(k))) as nat,
                            ""@,
                            "Unterminated block comment"@,
                        ),
                    )
                }
            }),
    {
        while !(self.peek() == '*' && self.peek_next() == '/') && !self.is_at_end()
            invariant
                self.inv(),
                self.moved_from(old(self)),
                self.current >= old(self).current,
                find_close(self.source@, self.current as int) == find_close(
                    old(self).source@,
                    old(self).current as int,
                ),
            decreases self.source@.len() - self.current,
        {
            self.advance();
        }
        if self.is_at_end() {
            assert(self.source@.take(self.current as int) =~= self.source@.take(
                self.source@.len() as int,
            ));
            self.error("Unterminated block comment");
        } else {
            self.advance();
            self.advance();
        }
    }

    /// Scans a string literal whose opening quote was consumed.
    fn string(&mut self)
        requires
            old(self).inv(),
            old(self).ready(),
            old(self).current == old(self).start + 1,
            old(self).source@[old(self).start as int] == '"',
        ensures
            final(self).inv(),
            final(self).source == old(self).source,
            final(self).current >= old(self).current,
            ({
                let s = old(self).source@;
                let i = old(self).start as int;
                let k = find_char(s, i + 1, '"');
                if k < s.len() {
                    &&& final(self).current == k + 1
                    &&& final(self).diagnostics == old(self).diagnostics
                    &&& views(final(self).tokens@) == views(old(self).tokens@).push(
                        TokenView {
                            kind: TokenType::String_,
                            lexeme: s.subrange(i, k + 1),
                            literal: Val::Str(s.subrange(i + 1, k)),
                            line: (1 + newlines(s.take(k + 1))) as nat,
                        },
                    )
                } else {
                    &&& final(self).current == k
                    &&& final(self).tokens == old(self).tokens
                    &&& texts(final(self).diagnostics@) == texts(old(self).diagnostics@).push(
                        report_text((1 + newlines(s.take(k))) as nat, ""@, "Unterminated string"@),
                    )
                }
            }),
    {
        while self.peek() != '"' && !self.is_at_end()
            invariant
                self.inv(),
                self.moved_from(old(self)),
                self.current >= old(self).current,
                find_char(self.source@, self.current as int, '"') == find_char(
                    old(self).source@,
                    old(self).start + 1,
                    '"',
                ),
                forall|j: int| self.start < j < self.current ==> #[trigger] self.source@[j] != '"',
            decreases self.source@.len() - self.current,
        {
            self.advance();
        }
        if self.is_at_end() {
            assert(self.source@.take(self.current as int) =~= self.source@.take(
                self.source@.len() as int,
            ));
            self.error("Unterminated string");
        } else {
            self.advance();
            let text = text_of_chars(&self.source, self.start + 1, self.current - 1);
            let ghost lex = self.source@.subrange(self.start as int, self.current as int);
            assert(lex.subrange(1, lex.len() - 1) =~= text@);
            assert forall|i: int| 1 <= i < lex.len() - 1 implies #[trigger] lex[i] != '"' by {
                assert(lex[i] == self.source@[self.start + i]);
            }
            self.add_full_token(TokenType::String_, Literal::String_(text));
        }
    }

    /// Scans a word whose first letter was consumed.
    fn identifier(&mut self)
        requires
            old(self).inv(),
            old(self).ready(),
            old(self).current == old(self).start + 1,
            is_alpha(old(self).source@[old(self).start as int]),
        ensures
            final(self).inv(),
            final(self).source == old(self).source,
            final(self).current >= old(self).current,
            ({
                let s = old(self).source@;
                let i = old(self).start as int;
                let e = word_end(s, i + 1);
                &&& final(self).current == e
                &&& final(self).diagnostics == old(self).diagnostics
                &&& views(final(self).tokens@) == views(old(self).tokens@).push(
                    TokenView {
                        kind: keyword_kind(s.subrange(i, e)),
                        lexeme: s.subrange(i, e),
                        literal: Val::Nil,
                        line: (1 + newlines(s.take(e))) as nat,
                    },
                )
            }),
    {
        while char_is_alpha(self.peek()) || char_is_digit(self.peek())
            invariant
                self.inv(),
                self.moved_from(old(self)),
                self.current >= old(self).current,
                word_end(self.source@, self.current as int) == word_end(
                    old(self).source@,
                    old(self).start + 1,
                ),
                forall|j: int| self.start <= j < self.current ==> is_alnum(#[trigger] self.source@[j]),
            decreases self.source@.len() - self.current,
        {
            self.advance();
        }
        let kind = word_kind(&self.source, self.start, self.current);
        let ghost lex = self.source@.subrange(self.start as int, self.current as int);
        assert forall|i: int| 0 <= i < lex.len() implies is_alnum(#[trigger] lex[i]) by {
            assert(lex[i] == self.source@[self.start + i]);
        }
        proof {
            lemma_keywords_are_not_operators(lex);
        }
        self.add_full_token(kind, Literal::Nil);
    }

    /// Scans a number whose first digit was consumed.
    fn number(&mut self)
        requires
            old(self).inv(),
            old(self).ready(),
            old(self).current == old(self).start + 1,
            is_digit(old(self).source@[old(self).start as int]),
        ensures
            final(self).inv(),
            final(self).source == old(self).source,
            final(self).current >= old(self).current,
            ({
                let s = old(self).source@;
                let i = old(self).start as int;
                let e = number_end(s, i);
                let line = (1 + newlines(s.take(e))) as nat;
                &&& final(self).current == e
                &&& match number_of(s.subrange(i, e)) {
                    Some(x) => final(self).diagnostics == old(self).diagnostics && views(
                        final(self).tokens@,
                    ) == views(old(self).tokens@).push(
                        TokenView {
                            kind: TokenType::Number,
                            lexeme: s.subrange(i, e),
                            literal: Val::Num(x),
                            line,
                        },
                    ),
                    None => final(self).tokens == old(self).tokens && texts(final(self).diagnostics@)
                        == texts(old(self).diagnostics@).push(
                        report_text(line, ""@, "Number literal out of range"@),
                    ),
                }
            }),
    {
        let ghost s = self.source@;
        let ghost st = self.start as int;
        let mut n: i128 = digit_of(self.source[self.start]);
        let mut den: i128 = 1;
        let mut fits = true;
        assert(s.subrange(st, st + 1).drop_last() =~= Seq::<char>::empty());
        assert(digits_value(Seq::<char>::empty()) == 0);
        assert(digits_value(s.subrange(st, st + 1)) == digit_value(s[st]));
        while char_is_digit(self.peek())
            invariant
                self.inv(),
                self.moved_from(old(self)),
                self.source@ == s,
                self.start == st,
                self.current > st,
                all_digits(s.subrange(st, self.current as int)),
                fits ==> n == digits_value(s.subrange(st, self.current as int)),
                fits ==> 0 <= n < DIGITS_BOUND,
                fits <==> digits_value(s.subrange(st, self.current as int)) < DIGITS_BOUND,
                digits_value(s.subrange(st, self.current as int)) >= 0,
                digits_end(s, self.current as int) == digits_end(s, st + 1),
                den == 1,
            decreases self.source@.len() - self.current,
        {
            let ghost prev = self.current as int;
            let c = self.advance();
            if fits && n < DIGITS_BOUND / 10 {
                n = n * 10 + digit_of(c);
            } else {
                fits = false;
            }
            assert(s.subrange(st, self.current as int).drop_last() =~= s.subrange(st, prev));
        }
        let ghost dot = self.current as int;
        let ghost whole = s.subrange(st, dot);
        assert(whole =~= s.subrange(st, self.current as int));
        if self.peek() == '.' && char_is_digit(self.peek_next()) {
            self.advance();
            assert(s.subrange(dot + 1, dot + 1) =~= Seq::<char>::empty());
            assert(whole + s.subrange(dot + 1, dot + 1) =~= whole);
            assert(pow10(0) == 1);
            while char_is_digit(self.peek())
                invariant
                    self.inv(),
                    self.moved_from(old(self)),
                    self.source@ == s,
                    self.start == st,
                    st < dot < self.current,
                    self.current >= dot + 1,
                    s[dot] == '.',
                    is_digit(s[dot + 1]),
                    all_digits(whole),
                    whole == s.subrange(st, dot),
                    all_digits(s.subrange(dot + 1, self.current as int)),
                    fits ==> n == digits_value(whole + s.subrange(dot + 1, self.current as int)),
                    fits ==> 0 <= n < DIGITS_BOUND,
                    fits ==> den == pow10((self.current - dot - 1) as nat),
                    fits ==> 0 < den < DIGITS_BOUND,
                    fits <==> (digits_value(whole + s.subrange(dot + 1, self.current as int))
                        < DIGITS_BOUND && pow10((self.current - dot - 1) as nat) < DIGITS_BOUND),
                    digits_value(whole + s.subrange(dot + 1, self.current as int)) >= 0,
                    pow10((self.current - dot - 1) as nat) > 0,
                    digits_end(s, self.current as int) == digits_end(s, dot + 1),
                    dot == digits_end(s, st + 1),
                decreases self.source@.len() - self.current,
            {
                let ghost prev = self.current as int;
                let c = self.advance();
                if fits && n < DIGITS_BOUND / 10 && den < DIGITS_BOUND / 10 {
                    n = n * 10 + digit_of(c);
                    den = den * 10;
                } else {
                    fits = false;
                }
                assert((whole + s.subrange(dot + 1, self.current as int)).drop_last() =~= whole
                    + s.subrange(dot + 1, prev));
            }
            let ghost lex = s.subrange(st, self.current as int);
            proof {
                lemma_first_dot(lex, dot - st);
                assert(lex.take(dot - st) =~= whole);
                assert(lex.skip(dot - st + 1) =~= s.subrange(dot + 1, self.current as int));
                assert(self.current == number_end(s, st));
            }
        } else {
            let ghost lex = s.subrange(st, self.current as int);
            proof {
                lemma_first_dot(lex, lex.len() as int);
                assert(lex.take(lex.len() as int) =~= lex);
                assert(lex + Seq::<char>::empty() =~= lex);
                assert(self.current == number_end(s, st));
                assert(pow10(0) == 1);
            }
        }
        if fits {
            match Number::from_fraction(n, den) {
                Some(x) => {
                    self.add_full_token(TokenType::Number, Literal::Number(x));
                },
                None => {
                    self.error("Number literal out of range");
                },
            }
        } else {
            self.error("Number literal out of range");
        }
    }
}

/// Scans `source` to its tokens and its lexical diagnostics. The tokens
/// scanned before and after an error are all kept.
pub fn scan(source: &str) -> (r: (Vec<Token>, Vec<String>))
    requires
        source@.len() < usize::MAX,
    ensures
        views(r.0@) == lexed_tokens(source@).push(eof_view(source@)),
        texts(r.1@) == lexed_diagnostics(source@),
        exists|spans: Seq<(int, int)>| scanned(source@, views(r.0@), spans),
{
    let mut scanner = Scanner::new(text_of_str(source));
    let _ = scanner.scan_tokens();
    let tokens = copy_tokens(scanner.tokens());
    let diagnostics = copy_texts(scanner.diagnostics());
    let ghost spans = scanner.spans();
    let r = (tokens, diagnostics);
    assert(scanned(source@, views(r.0@), spans));
    r
}

} // verus!
