//! The scanner: turns source text into tokens, one at a time.
//!
//! The source is read as UTF-8 bytes.  Every token's text is either a slice
//! of the source or, for an `Error` token, the error message.

use vstd::prelude::*;
use vstd::slice::slice_to_vec;
use vstd::string::StringSliceAdditionalSpecFns;

use crate::token::{Token, TokenType};

verus! {

pub const NUL: u8 = 0;
pub const TAB: u8 = 9;
pub const NEWLINE: u8 = 10;
pub const CARRIAGE_RETURN: u8 = 13;
pub const SPACE: u8 = 32;
pub const BANG: u8 = 33;
pub const QUOTE: u8 = 34;
pub const LEFT_PAREN: u8 = 40;
pub const RIGHT_PAREN: u8 = 41;
pub const STAR: u8 = 42;
pub const PLUS: u8 = 43;
pub const COMMA: u8 = 44;
pub const MINUS: u8 = 45;
pub const DOT: u8 = 46;
pub const SLASH: u8 = 47;
pub const DIGIT_ZERO: u8 = 48;
pub const DIGIT_NINE: u8 = 57;
pub const SEMICOLON: u8 = 59;
pub const LESS: u8 = 60;
pub const EQUAL: u8 = 61;
pub const GREATER: u8 = 62;
pub const UPPER_A: u8 = 65;
pub const UPPER_Z: u8 = 90;
pub const UNDERSCORE: u8 = 95;
pub const LOWER_A: u8 = 97;
pub const LOWER_Z: u8 = 122;
pub const LEFT_BRACE: u8 = 123;
pub const RIGHT_BRACE: u8 = 125;

/// The byte at `i`, or NUL outside the source (what `peek` reads at the end).
pub open spec fn byte_at(s: Seq<u8>, i: int) -> u8 {
    if 0 <= i < s.len() {
        s[i]
    } else {
        NUL
    }
}

pub open spec fn is_digit_byte(c: u8) -> bool {
    DIGIT_ZERO <= c <= DIGIT_NINE
}

pub open spec fn is_alpha_byte(c: u8) -> bool {
    (UPPER_A <= c <= UPPER_Z) || (LOWER_A <= c <= LOWER_Z) || c == UNDERSCORE
}

pub open spec fn is_blank_byte(c: u8) -> bool {
    c == SPACE || c == CARRIAGE_RETURN || c == TAB || c == NEWLINE
}

/// A byte that can continue a word: an ASCII letter of either case, a
/// digit or `_`.
pub open spec fn ascii_word_byte(c: u8) -> bool {
    (48 <= c <= 57) || (65 <= c <= 90) || (97 <= c <= 122) || c == 95
}

/// A word starts with an ASCII letter of either case or `_`, and nothing else.
pub proof fn law_word_start_bytes(c: u8)
    ensures
        is_alpha_byte(c) <==> (65 <= c <= 90) || (97 <= c <= 122) || c == 95,
{
}

proof fn lemma_word_end_run(s: Seq<u8>, k: int, j: int)
    requires
        0 <= k <= j <= s.len(),
        forall|m: int| k <= m < j ==> ascii_word_byte(#[trigger] s[m]),
        j == s.len() || !ascii_word_byte(s[j]),
    ensures
        word_end(s, k) == j,
    decreases j - k,
{
    if k < j {
        lemma_word_end_run(s, k + 1, j);
    }
}

/// A word is read as one token: from a letter or `_`, the token runs over
/// every following letter (of either case), digit and `_`, and stops at the
/// first other byte; its text is that whole run and its kind is the keyword
/// it spells or `Identifier`.
pub proof fn law_words_scan_whole(s: Seq<u8>, i: int, j: int)
    requires
        0 <= i < j <= s.len(),
        (65 <= s[i] <= 90) || (97 <= s[i] <= 122) || s[i] == 95,
        forall|m: int| i <= m < j ==> ascii_word_byte(#[trigger] s[m]),
        j == s.len() || !ascii_word_byte(s[j]),
    ensures
        token_end(s, i) == j,
        token_kind(s, i) == word_kind(s.subrange(i, j)),
        token_kind(s, i) != TokenType::Error,
        token_text(s, i) == s.subrange(i, j),
{
    lemma_word_end_run(s, i, j);
}

/// The number of newline bytes among the first `n` bytes of `s`.
pub open spec fn newlines(s: Seq<u8>, n: int) -> nat
    decreases n,
{
    if n <= 0 || n > s.len() {
        0
    } else {
        newlines(s, n - 1) + if s[n - 1] == NEWLINE {
            1nat
        } else {
            0nat
        }
    }
}

/// The source can be scanned without the line counter overflowing.
pub open spec fn line_count_fits(s: Seq<u8>) -> bool {
    newlines(s, s.len() as int) < u32::MAX
}

/// The first index at or after `i` that holds a newline, or the end.
pub open spec fn comment_end(s: Seq<u8>, i: int) -> int
    decreases s.len() - i,
{
    if i < 0 || i >= s.len() || s[i] == NEWLINE {
        i
    } else {
        comment_end(s, i + 1)
    }
}

/// The first index at or after `i` that holds a quote, or the end.
pub open spec fn string_close(s: Seq<u8>, i: int) -> int
    decreases s.len() - i,
{
    if i < 0 || i >= s.len() || s[i] == QUOTE {
        i
    } else {
        string_close(s, i + 1)
    }
}

/// The first index at or after `i` that does not hold a digit.
pub open spec fn digits_end(s: Seq<u8>, i: int) -> int
    decreases s.len() - i,
{
    if 0 <= i < s.len() && is_digit_byte(s[i]) {
        digits_end(s, i + 1)
    } else {
        i
    }
}

/// The first index at or after `i` that holds neither a letter, `_` nor a digit.
pub open spec fn word_end(s: Seq<u8>, i: int) -> int
    decreases s.len() - i,
{
    if 0 <= i < s.len() && (is_alpha_byte(s[i]) || is_digit_byte(s[i])) {
        word_end(s, i + 1)
    } else {
        i
    }
}

/// Where a number that starts at `i` ends: digits, then optionally a dot
/// followed by at least one digit and the digits after it.
pub open spec fn number_end(s: Seq<u8>, i: int) -> int {
    let k = digits_end(s, i);
    if byte_at(s, k) == DOT && is_digit_byte(byte_at(s, k + 1)) {
        digits_end(s, k + 1)
    } else {
        k
    }
}

pub proof fn lemma_comment_end_bounds(s: Seq<u8>, i: int)
    requires
        0 <= i <= s.len(),
    ensures
        i <= comment_end(s, i) <= s.len(),
        forall|j: int| i <= j < comment_end(s, i) ==> s[j] != NEWLINE,
        comment_end(s, i) < s.len() ==> s[comment_end(s, i)] == NEWLINE,
    decreases s.len() - i,
{
    if i < s.len() && s[i] != NEWLINE {
        lemma_comment_end_bounds(s, i + 1);
    }
}

pub proof fn lemma_string_close_bounds(s: Seq<u8>, i: int)
    requires
        0 <= i <= s.len(),
    ensures
        i <= string_close(s, i) <= s.len(),
        forall|j: int| i <= j < string_close(s, i) ==> s[j] != QUOTE,
        string_close(s, i) < s.len() ==> s[string_close(s, i)] == QUOTE,
    decreases s.len() - i,
{
    if i < s.len() && s[i] != QUOTE {
        lemma_string_close_bounds(s, i + 1);
    }
}

pub proof fn lemma_digits_end_bounds(s: Seq<u8>, i: int)
    requires
        0 <= i <= s.len(),
    ensures
        i <= digits_end(s, i) <= s.len(),
        forall|j: int| i <= j < digits_end(s, i) ==> is_digit_byte(#[trigger] s[j]),
        digits_end(s, i) < s.len() ==> !is_digit_byte(s[digits_end(s, i)]),
        i < s.len() && is_digit_byte(s[i]) ==> i < digits_end(s, i),
    decreases s.len() - i,
{
    if i < s.len() && is_digit_byte(s[i]) {
        lemma_digits_end_bounds(s, i + 1);
    }
}

pub proof fn lemma_word_end_bounds(s: Seq<u8>, i: int)
    requires
        0 <= i <= s.len(),
    ensures
        i <= word_end(s, i) <= s.len(),
        forall|j: int|
            i <= j < word_end(s, i) ==> is_alpha_byte(#[trigger] s[j]) || is_digit_byte(s[j]),
        word_end(s, i) < s.len() ==> !(is_alpha_byte(s[word_end(s, i)]) || is_digit_byte(
            s[word_end(s, i)],
        )),
        i < s.len() && (is_alpha_byte(s[i]) || is_digit_byte(s[i])) ==> i < word_end(s, i),
    decreases s.len() - i,
{
    if i < s.len() && (is_alpha_byte(s[i]) || is_digit_byte(s[i])) {
        lemma_word_end_bounds(s, i + 1);
    }
}

/// Where the next token starts when scanning resumes at `i`: blanks and
/// `//` comments (up to, not including, their newline) are skipped.
pub open spec fn token_start(s: Seq<u8>, i: int) -> int
    decreases s.len() - i,
{
    if i < 0 || i >= s.len() {
        i
    } else if is_blank_byte(s[i]) {
        token_start(s, i + 1)
    } else if s[i] == SLASH && byte_at(s, i + 1) == SLASH {
        if i < comment_end(s, i + 1) <= s.len() {
            token_start(s, comment_end(s, i + 1))
        } else {
            i
        }
    } else {
        i
    }
}

pub proof fn lemma_token_start_bounds(s: Seq<u8>, i: int)
    requires
        0 <= i <= s.len(),
    ensures
        i <= token_start(s, i) <= s.len(),
        token_start(s, i) < s.len() ==> !is_blank_byte(s[token_start(s, i)]),
    decreases s.len() - i,
{
    if i < s.len() {
        if is_blank_byte(s[i]) {
            lemma_token_start_bounds(s, i + 1);
        } else if s[i] == SLASH && byte_at(s, i + 1) == SLASH {
            lemma_comment_end_bounds(s, i + 1);
            lemma_token_start_bounds(s, comment_end(s, i + 1));
        }
    }
}

/// The keyword that `word` spells, if any.
pub open spec fn keyword(word: Seq<u8>) -> Option<TokenType> {
    if word == seq![97u8, 110, 100] {
        Some(TokenType::And)
    } else if word == seq![99u8, 108, 97, 115, 115] {
        Some(TokenType::Class)
    } else if word == seq![101u8, 108, 115, 101] {
        Some(TokenType::Else)
    } else if word == seq![102u8, 97, 108, 115, 101] {
        Some(TokenType::False)
    } else if word == seq![102u8, 111, 114] {
        Some(TokenType::For)
    } else if word == seq![102u8, 117, 110] {
        Some(TokenType::Fun)
    } else if word == seq![105u8, 102] {
        Some(TokenType::If)
    } else if word == seq![110u8, 105, 108] {
        Some(TokenType::Nil)
    } else if word == seq![111u8, 114] {
        Some(TokenType::Or)
    } else if word == seq![114u8, 101, 116, 117, 114, 110] {
        Some(TokenType::Return)
    } else if word == seq![115u8, 117, 112, 101, 114] {
        Some(TokenType::Super)
    } else if word == seq![116u8, 104, 105, 115] {
        Some(TokenType::This)
    } else if word == seq![116u8, 114, 117, 101] {
        Some(TokenType::True)
    } else if word == seq![118u8, 97, 114] {
        Some(TokenType::Var)
    } else if word == seq![119u8, 104, 105, 108, 101] {
        Some(TokenType::While)
    } else {
        None
    }
}

/// The kind of a word: its keyword, or `Identifier`.
pub open spec fn word_kind(word: Seq<u8>) -> TokenType {
    match keyword(word) {
        Some(kind) => kind,
        None => TokenType::Identifier,
    }
}

/// The kind of the single-byte token `c`, if it is one.
pub open spec fn single_byte_kind(c: u8) -> Option<TokenType> {
    if c == LEFT_PAREN {
        Some(TokenType::LeftParen)
    } else if c == RIGHT_PAREN {
        Some(TokenType::RightParen)
    } else if c == LEFT_BRACE {
        Some(TokenType::LeftBrace)
    } else if c == RIGHT_BRACE {
        Some(TokenType::RightBrace)
    } else if c == SEMICOLON {
        Some(TokenType::Semicolon)
    } else if c == COMMA {
        Some(TokenType::Comma)
    } else if c == DOT {
        Some(TokenType::Dot)
    } else if c == MINUS {
        Some(TokenType::Minus)
    } else if c == PLUS {
        Some(TokenType::Plus)
    } else if c == SLASH {
        Some(TokenType::Slash)
    } else if c == STAR {
        Some(TokenType::Star)
    } else {
        None
    }
}

/// For `!`, `=`, `<`, `>`: the kind alone and the kind when followed by `=`.
pub open spec fn operator_kinds(c: u8) -> Option<(TokenType, TokenType)> {
    if c == BANG {
        Some((TokenType::Bang, TokenType::BangEqual))
    } else if c == EQUAL {
        Some((TokenType::Equal, TokenType::EqualEqual))
    } else if c == LESS {
        Some((TokenType::Less, TokenType::LessEqual))
    } else if c == GREATER {
        Some((TokenType::Greater, TokenType::GreaterEqual))
    } else {
        None
    }
}

/// The kind of the token that starts at `i` (after blanks and comments).
pub open spec fn token_kind(s: Seq<u8>, i: int) -> TokenType {
    if i >= s.len() {
        TokenType::EoF
    } else if single_byte_kind(s[i]) is Some {
        single_byte_kind(s[i])->0
    } else if let Some((alone, with_equal)) = operator_kinds(s[i]) {
        if byte_at(s, i + 1) == EQUAL {
            with_equal
        } else {
            alone
        }
    } else if s[i] == QUOTE {
        if string_close(s, i + 1) >= s.len() {
            TokenType::Error
        } else {
            TokenType::String
        }
    } else if is_digit_byte(s[i]) {
        TokenType::Number
    } else if is_alpha_byte(s[i]) {
        word_kind(s.subrange(i, word_end(s, i)))
    } else {
        TokenType::Error
    }
}

/// Where the token that starts at `i` ends.
pub open spec fn token_end(s: Seq<u8>, i: int) -> int {
    if i >= s.len() {
        i
    } else if operator_kinds(s[i]) is Some && byte_at(s, i + 1) == EQUAL {
        i + 2
    } else if s[i] == QUOTE {
        if string_close(s, i + 1) >= s.len() {
            s.len() as int
        } else {
            string_close(s, i + 1) + 1
        }
    } else if is_digit_byte(s[i]) {
        number_end(s, i)
    } else if is_alpha_byte(s[i]) {
        word_end(s, i)
    } else {
        i + 1
    }
}

/// The text of the token that starts at `i`: the error message for an error
/// token, else the source slice it covers.
pub open spec fn token_text(s: Seq<u8>, i: int) -> Seq<u8> {
    if token_kind(s, i) == TokenType::Error {
        if i < s.len() && s[i] == QUOTE {
            "Unterminated string.".spec_bytes()
        } else {
            "Unexpected character.".spec_bytes()
        }
    } else {
        s.subrange(i, token_end(s, i))
    }
}

pub proof fn lemma_token_end_bounds(s: Seq<u8>, i: int)
    requires
        0 <= i <= s.len(),
    ensures
        i <= token_end(s, i) <= s.len(),
        i < s.len() ==> i < token_end(s, i),
{
    if i < s.len() {
        if s[i] == QUOTE {
            lemma_string_close_bounds(s, i + 1);
        } else if is_digit_byte(s[i]) {
            lemma_digits_end_bounds(s, i);
            let k = digits_end(s, i);
            if byte_at(s, k) == DOT && is_digit_byte(byte_at(s, k + 1)) {
                lemma_digits_end_bounds(s, k + 1);
            }
        } else if is_alpha_byte(s[i]) {
            lemma_word_end_bounds(s, i);
        }
    }
}

/// Scanning always makes progress.  From any position the next token is
/// `EoF` exactly when only blanks and comments are left, and then scanning
/// stays at the end of the source; any other token ends past the position
/// that scanning resumed from.  So a source of `n` bytes yields at most `n`
/// tokens before `EoF`.
pub proof fn law_scanning_progresses(s: Seq<u8>, i: int)
    requires
        0 <= i <= s.len(),
    ensures
        i <= token_start(s, i) <= s.len(),
        (token_kind(s, token_start(s, i)) == TokenType::EoF) <==> token_start(s, i) == s.len(),
        token_start(s, i) == s.len() ==> token_end(s, token_start(s, i)) == s.len(),
        token_start(s, i) < s.len() ==> i < token_end(s, token_start(s, i)) <= s.len(),
{
    lemma_token_start_bounds(s, i);
    lemma_token_end_bounds(s, token_start(s, i));
}

/// Whether scanning from `i` on meets an error token (an unexpected
/// character or an unterminated string) before the end of the source.
pub open spec fn has_lexical_error(s: Seq<u8>, i: int) -> bool
    decreases s.len() - i,
{
    if i < 0 || i > s.len() {
        false
    } else {
        let t = token_start(s, i);
        if t < i || t >= s.len() || token_end(s, t) <= i || token_end(s, t) > s.len() {
            false
        } else if token_kind(s, t) == TokenType::Error {
            true
        } else {
            has_lexical_error(s, token_end(s, t))
        }
    }
}

/// Scanning one token from `i` on: an error is met from `i` exactly when the
/// token is an error token or one is met after it.
pub proof fn lemma_lexical_error_step(s: Seq<u8>, i: int)
    requires
        0 <= i <= s.len(),
    ensures
        has_lexical_error(s, i) == (token_start(s, i) < s.len() && (token_kind(s, token_start(s, i))
            == TokenType::Error || has_lexical_error(s, token_end(s, token_start(s, i))))),
        !has_lexical_error(s, s.len() as int),
{
    lemma_token_start_bounds(s, i);
    lemma_token_end_bounds(s, token_start(s, i));
    lemma_token_start_bounds(s, s.len() as int);
}

/// Scans a source, one token per call of `scan_token`.
pub struct Scanner<'source> {
    code: &'source [u8],
    start: usize,
    current: usize,
    line: u32,
}

impl<'source> Scanner<'source> {
    /// The source bytes.
    pub closed spec fn source(&self) -> Seq<u8> {
        self.code@
    }

    /// Where the token being scanned starts.
    pub closed spec fn start_pos(&self) -> int {
        self.start as int
    }

    /// How far the source has been read.
    pub closed spec fn position(&self) -> int {
        self.current as int
    }

    /// The current line number.
    pub closed spec fn line_number(&self) -> u32 {
        self.line
    }

    /// The scanner's state is consistent: positions lie within the source and
    /// the line number is one more than the newlines read so far.
    pub open spec fn wf(&self) -> bool {
        &&& 0 <= self.start_pos() <= self.position() <= self.source().len()
        &&& line_count_fits(self.source())
        &&& self.line_number() == 1 + newlines(self.source(), self.position())
    }

    pub fn new(source: &'source str) -> (scanner: Self)
        requires
            line_count_fits(source.spec_bytes()),
        ensures
            scanner.wf(),
            scanner.source() == source.spec_bytes(),
            scanner.position() == 0,
            scanner.start_pos() == 0,
    {
        Self { code: source.as_bytes(), start: 0, current: 0, line: 1 }
    }

    /// Scans the next token.
    pub fn scan_token(&mut self) -> (token: Token)
        requires
            old(self).wf(),
        ensures
            final(self).wf(),
            final(self).source() == old(self).source(),
            final(self).start_pos() == token_start(old(self).source(), old(self).position()),
            final(self).position() == token_end(old(self).source(), final(self).start_pos()),
            token.kind == token_kind(old(self).source(), final(self).start_pos()),
            token.lexeme@ == token_text(old(self).source(), final(self).start_pos()),
            token.line == final(self).line_number(),
    {
        let ghost s = self.code@;
        self.skip_whitespace();
        self.start = self.current;
        proof {
            lemma_token_start_bounds(s, old(self).position());
        }
        if self.is_at_end() {
            return self.make_token(TokenType::EoF);
        }
        let c = self.advance();
        proof {
            lemma_newlines_step(s, self.start as int);
            if self.current < s.len() {
                lemma_newlines_step(s, self.current as int);
            }
        }
        if c == LEFT_PAREN {
            self.make_token(TokenType::LeftParen)
        } else if c == RIGHT_PAREN {
            self.make_token(TokenType::RightParen)
        } else if c == LEFT_BRACE {
            self.make_token(TokenType::LeftBrace)
        } else if c == RIGHT_BRACE {
            self.make_token(TokenType::RightBrace)
        } else if c == SEMICOLON {
            self.make_token(TokenType::Semicolon)
        } else if c == COMMA {
            self.make_token(TokenType::Comma)
        } else if c == DOT {
            self.make_token(TokenType::Dot)
        } else if c == MINUS {
            self.make_token(TokenType::Minus)
        } else if c == PLUS {
            self.make_token(TokenType::Plus)
        } else if c == SLASH {
            self.make_token(TokenType::Slash)
        } else if c == STAR {
            self.make_token(TokenType::Star)
        } else if c == BANG {
            if self.matches(EQUAL) {
                self.make_token(TokenType::BangEqual)
            } else {
                self.make_token(TokenType::Bang)
            }
        } else if c == EQUAL {
            if self.matches(EQUAL) {
                self.make_token(TokenType::EqualEqual)
            } else {
                self.make_token(TokenType::Equal)
            }
        } else if c == LESS {
            if self.matches(EQUAL) {
                self.make_token(TokenType::LessEqual)
            } else {
                self.make_token(TokenType::Less)
            }
        } else if c == GREATER {
            if self.matches(EQUAL) {
                self.make_token(TokenType::GreaterEqual)
            } else {
                self.make_token(TokenType::Greater)
            }
        } else if c == QUOTE {
            self.string()
        } else if Self::is_digit(c) {
            self.number()
        } else if Self::is_alphabetic(c) {
            self.identifier()
        } else {
            self.error_token("Unexpected character.")
        }
    }

    /// Reads one byte.
    pub fn advance(&mut self) -> (c: u8)
        requires
            old(self).position() < old(self).source().len(),
        ensures
            c == old(self).source()[old(self).position()],
            final(self).position() == old(self).position() + 1,
            final(self).source() == old(self).source(),
            final(self).start_pos() == old(self).start_pos(),
            final(self).line_number() == old(self).line_number(),
    {
        let c = self.peek();
        let n = self.code.len();
        self.current = self.current + 1;
        c
    }

    /// Moves past blanks and `//` comments, counting newlines.
    pub fn skip_whitespace(&mut self)
        requires
            old(self).wf(),
        ensures
            final(self).wf(),
            final(self).source() == old(self).source(),
            final(self).start_pos() == old(self).start_pos(),
            final(self).position() == token_start(old(self).source(), old(self).position()),
    {
        let ghost s = self.code@;
        loop
            invariant
                self.wf(),
                self.code@ == s,
                s == old(self).source(),
                self.start == old(self).start,
                token_start(s, self.current as int) == token_start(s, old(self).position()),
            ensures
                self.wf(),
                self.code@ == s,
                self.start == old(self).start,
                self.current == token_start(s, old(self).position()),
            decreases s.len() - self.current,
        {
            let c = self.peek();
            if c == SPACE || c == CARRIAGE_RETURN || c == TAB {
                self.advance();
            } else if c == NEWLINE {
                proof {
                    lemma_newlines_step(s, self.current as int);
                    lemma_newlines_bounded(s, self.current as int + 1);
                }
                self.line += 1;
                self.advance();
            } else if c == SLASH && self.peek_next() == SLASH {
                let ghost from = self.current as int;
                proof {
                    lemma_comment_end_bounds(s, from + 1);
                }
                while self.peek() != NEWLINE && !self.is_at_end()
                    invariant
                        self.wf(),
                        self.code@ == s,
                        self.start == old(self).start,
                        from <= self.current <= comment_end(s, from + 1),
                        from + 1 <= comment_end(s, from + 1) <= s.len(),
                        forall|j: int| from + 1 <= j < comment_end(s, from + 1) ==> s[j] != NEWLINE,
                        comment_end(s, from + 1) < s.len() ==> s[comment_end(s, from + 1)] == NEWLINE,
                        s[from] == SLASH,
                    decreases s.len() - self.current,
                {
                    proof {
                        lemma_newlines_step(s, self.current as int);
                    }
                    self.advance();
                }
                assert(self.current == comment_end(s, from + 1));
            } else {
                proof {
                    if self.current < s.len() {
                        assert(s[self.current as int] == c);
                    }
                }
                return;
            }
        }
    }

    /// A token of the given kind whose text is the current lexeme.
    pub fn make_token(&self, kind: TokenType) -> (token: Token)
        requires
            self.start_pos() <= self.position() <= self.source().len(),
        ensures
            token.kind == kind,
            token.line == self.line_number(),
            token.lexeme@ == self.source().subrange(self.start_pos(), self.position()),
    {
        Token::new(kind, self.line, self.lexeme())
    }

    /// An error token carrying `message` as its text.
    pub fn error_token(&self, message: &'static str) -> (token: Token)
        ensures
            token.kind == TokenType::Error,
            token.line == self.line_number(),
            token.lexeme@ == message.spec_bytes(),
    {
        Token::new(TokenType::Error, self.line, slice_to_vec(message.as_bytes()))
    }

    /// Scans the rest of a string literal whose opening quote has been read.
    pub fn string(&mut self) -> (token: Token)
        requires
            old(self).wf(),
            old(self).start_pos() + 1 == old(self).position(),
            old(self).source()[old(self).start_pos()] == QUOTE,
        ensures
            final(self).wf(),
            final(self).source() == old(self).source(),
            final(self).start_pos() == old(self).start_pos(),
            final(self).position() == token_end(old(self).source(), old(self).start_pos()),
            token.kind == token_kind(old(self).source(), old(self).start_pos()),
            token.lexeme@ == token_text(old(self).source(), old(self).start_pos()),
            token.line == final(self).line_number(),
    {
        let ghost s = self.code@;
        let ghost i = self.start as int;
        proof {
            lemma_string_close_bounds(s, i + 1);
        }
        while self.peek() != QUOTE && !self.is_at_end()
            invariant
                self.wf(),
                self.code@ == s,
                self.start as int == i,
                i + 1 <= self.current <= string_close(s, i + 1),
                string_close(s, i + 1) <= s.len(),
                forall|j: int| i + 1 <= j < string_close(s, i + 1) ==> s[j] != QUOTE,
                string_close(s, i + 1) < s.len() ==> s[string_close(s, i + 1)] == QUOTE,
            decreases s.len() - self.current,
        {
            proof {
                lemma_newlines_step(s, self.current as int);
                lemma_newlines_bounded(s, self.current as int + 1);
            }
            if self.peek() == NEWLINE {
                self.line += 1;
            }
            self.advance();
        }
        if self.is_at_end() {
            return self.error_token("Unterminated string.");
        }
        proof {
            lemma_newlines_step(s, self.current as int);
        }
        self.advance();
        self.make_token(TokenType::String)
    }

    /// Scans the rest of a number whose first digit has been read.
    pub fn number(&mut self) -> (token: Token)
        requires
            old(self).wf(),
            old(self).start_pos() + 1 == old(self).position(),
            is_digit_byte(old(self).source()[old(self).start_pos()]),
        ensures
            final(self).wf(),
            final(self).source() == old(self).source(),
            final(self).start_pos() == old(self).start_pos(),
            final(self).position() == number_end(old(self).source(), old(self).start_pos()),
            token.kind == TokenType::Number,
            token.lexeme@ == old(self).source().subrange(
                old(self).start_pos(),
                final(self).position(),
            ),
            token.line == final(self).line_number(),
    {
        let ghost s = self.code@;
        let ghost i = self.start as int;
        proof {
            lemma_digits_end_bounds(s, i);
        }
        while Self::is_digit(self.peek())
            invariant
                self.wf(),
                self.code@ == s,
                self.start as int == i,
                i + 1 <= self.current <= digits_end(s, i),
                digits_end(s, i) <= s.len(),
                forall|j: int| i <= j < digits_end(s, i) ==> is_digit_byte(#[trigger] s[j]),
                digits_end(s, i) < s.len() ==> !is_digit_byte(s[digits_end(s, i)]),
            decreases s.len() - self.current,
        {
            proof {
                lemma_newlines_step(s, self.current as int);
            }
            self.advance();
        }
        if self.peek() == DOT && Self::is_digit(self.peek_next()) {
            let ghost k = self.current as int;
            proof {
                lemma_newlines_step(s, self.current as int);
                lemma_digits_end_bounds(s, k + 1);
            }
            self.advance();
            while Self::is_digit(self.peek())
                invariant
                    self.wf(),
                    self.code@ == s,
                    self.start as int == i,
                    k + 1 <= self.current <= digits_end(s, k + 1),
                    digits_end(s, k + 1) <= s.len(),
                    forall|j: int|
                        k + 1 <= j < digits_end(s, k + 1) ==> is_digit_byte(#[trigger] s[j]),
                    digits_end(s, k + 1) < s.len() ==> !is_digit_byte(s[digits_end(s, k + 1)]),
                decreases s.len() - self.current,
            {
                proof {
                    lemma_newlines_step(s, self.current as int);
                }
                self.advance();
            }
        }
        self.make_token(TokenType::Number)
    }

    /// Scans the rest of a word whose first letter has been read.
    pub fn identifier(&mut self) -> (token: Token)
        requires
            old(self).wf(),
            old(self).start_pos() + 1 == old(self).position(),
            is_alpha_byte(old(self).source()[old(self).start_pos()]),
        ensures
            final(self).wf(),
            final(self).source() == old(self).source(),
            final(self).start_pos() == old(self).start_pos(),
            final(self).position() == word_end(old(self).source(), old(self).start_pos()),
            token.kind == word_kind(
                old(self).source().subrange(old(self).start_pos(), final(self).position()),
            ),
            token.lexeme@ == old(self).source().subrange(
                old(self).start_pos(),
                final(self).position(),
            ),
            token.line == final(self).line_number(),
    {
        let ghost s = self.code@;
        let ghost i = self.start as int;
        proof {
            lemma_word_end_bounds(s, i);
        }
        while Self::is_alphabetic(self.peek()) || Self::is_digit(self.peek())
            invariant
                self.wf(),
                self.code@ == s,
                self.start as int == i,
                i + 1 <= self.current <= word_end(s, i),
                word_end(s, i) <= s.len(),
                forall|j: int|
                    i <= j < word_end(s, i) ==> is_alpha_byte(#[trigger] s[j]) || is_digit_byte(
                        s[j],
                    ),
                word_end(s, i) < s.len() ==> !(is_alpha_byte(s[word_end(s, i)])
                    || is_digit_byte(s[word_end(s, i)])),
            decreases s.len() - self.current,
        {
            proof {
                lemma_newlines_step(s, self.current as int);
            }
            self.advance();
        }
        let kind = self.identifier_type();
        self.make_token(kind)
    }

    /// The keyword that the current lexeme spells, or `Identifier`.
    pub fn identifier_type(&self) -> (kind: TokenType)
        requires
            self.start_pos() <= self.position() <= self.source().len(),
        ensures
            kind == word_kind(self.source().subrange(self.start_pos(), self.position())),
    {
        let w = self.lexeme();
        if bytes_equal(&w, &[97u8, 110, 100]) {
            TokenType::And
        } else if bytes_equal(&w, &[99u8, 108, 97, 115, 115]) {
            TokenType::Class
        } else if bytes_equal(&w, &[101u8, 108, 115, 101]) {
            TokenType::Else
        } else if bytes_equal(&w, &[102u8, 97, 108, 115, 101]) {
            TokenType::False
        } else if bytes_equal(&w, &[102u8, 111, 114]) {
            TokenType::For
        } else if bytes_equal(&w, &[102u8, 117, 110]) {
            TokenType::Fun
        } else if bytes_equal(&w, &[105u8, 102]) {
            TokenType::If
        } else if bytes_equal(&w, &[110u8, 105, 108]) {
            TokenType::Nil
        } else if bytes_equal(&w, &[111u8, 114]) {
            TokenType::Or
        } else if bytes_equal(&w, &[114u8, 101, 116, 117, 114, 110]) {
            TokenType::Return
        } else if bytes_equal(&w, &[115u8, 117, 112, 101, 114]) {
            TokenType::Super
        } else if bytes_equal(&w, &[116u8, 104, 105, 115]) {
            TokenType::This
        } else if bytes_equal(&w, &[116u8, 114, 117, 101]) {
            TokenType::True
        } else if bytes_equal(&w, &[118u8, 97, 114]) {
            TokenType::Var
        } else if bytes_equal(&w, &[119u8, 104, 105, 108, 101]) {
            TokenType::While
        } else {
            TokenType::Identifier
        }
    }

    /// The source byte at `n`.
    pub fn get_char(&self, n: usize) -> (c: u8)
        requires
            n < self.source().len(),
        ensures
            c == self.source()[n as int],
    {
        self.code[n]
    }

    /// The byte at the read position, or NUL at the end.
    pub fn peek(&self) -> (c: u8)
        ensures
            c == byte_at(self.source(), self.position()),
    {
        if self.is_at_end() {
            return NUL;
        }
        self.get_char(self.current)
    }

    /// The byte after the read position, or NUL past the end.
    pub fn peek_next(&self) -> (c: u8)
        requires
            self.position() <= self.source().len(),
        ensures
            c == byte_at(self.source(), self.position() + 1),
    {
        if self.current >= self.code.len() || self.current + 1 >= self.code.len() {
            return NUL;
        }
        self.get_char(self.current + 1)
    }

    pub fn is_at_end(&self) -> (b: bool)
        ensures
            b == (self.position() >= self.source().len()),
    {
        self.current >= self.code.len()
    }

    pub fn is_digit(c: u8) -> (b: bool)
        ensures
            b == is_digit_byte(c),
    {
        DIGIT_ZERO <= c && c <= DIGIT_NINE
    }

    pub fn is_alphabetic(c: u8) -> (b: bool)
        ensures
            b == is_alpha_byte(c),
    {
        (UPPER_A <= c && c <= UPPER_Z) || (LOWER_A <= c && c <= LOWER_Z) || c == UNDERSCORE
    }

    /// Reads one more byte if it is `expected`.
    pub fn matches(&mut self, expected: u8) -> (b: bool)
        requires
            old(self).position() <= old(self).source().len(),
        ensures
            b == (old(self).position() < old(self).source().len() && byte_at(
                old(self).source(),
                old(self).position(),
            ) == expected),
            final(self).position() == old(self).position() + if b {
                1int
            } else {
                0int
            },
            final(self).source() == old(self).source(),
            final(self).start_pos() == old(self).start_pos(),
            final(self).line_number() == old(self).line_number(),
    {
        if self.is_at_end() || self.peek() != expected {
            return false;
        }
        let n = self.code.len();
        self.current = self.current + 1;
        true
    }

    /// The text from the token start to the read position.
    pub fn lexeme(&self) -> (text: Vec<u8>)
        requires
            self.start_pos() <= self.position() <= self.source().len(),
        ensures
            text@ == self.source().subrange(self.start_pos(), self.position()),
    {
        let mut text: Vec<u8> = Vec::new();
        let mut i = self.start;
        while i < self.current
            invariant
                self.start <= i <= self.current <= self.code@.len(),
                text@ == self.code@.subrange(self.start as int, i as int),
            decreases self.current - i,
        {
            text.push(self.code[i]);
            i += 1;
        }
        text
    }
}

/// Whether two byte strings are equal.
pub fn bytes_equal(a: &[u8], b: &[u8]) -> (eq: bool)
    ensures
        eq == (a@ == b@),
{
    if a.len() != b.len() {
        return false;
    }
    let mut i: usize = 0;
    while i < a.len()
        invariant
            a@.len() == b@.len(),
            i <= a@.len(),
            forall|j: int| 0 <= j < i ==> a@[j] == b@[j],
        decreases a.len() - i,
    {
        if a[i] != b[i] {
            return false;
        }
        i += 1;
    }
    assert(a@ =~= b@);
    true
}

pub proof fn lemma_newlines_step(s: Seq<u8>, n: int)
    requires
        0 <= n < s.len(),
    ensures
        newlines(s, n + 1) == newlines(s, n) + if s[n] == NEWLINE {
            1nat
        } else {
            0nat
        },
{
}

pub proof fn lemma_newlines_bounded(s: Seq<u8>, n: int)
    requires
        0 <= n <= s.len(),
    ensures
        newlines(s, n) <= newlines(s, s.len() as int),
    decreases s.len() - n,
{
    if n < s.len() {
        lemma_newlines_bounded(s, n + 1);
    }
}

} // verus!
