//! The scanner: from characters to tokens.
//!
//! [`step`] says what one token's worth of input comes to, and [`scan`] what a
//! whole input comes to; [`Scanner::load`] is proved to do exactly that.
use vstd::prelude::*;
use crate::ast::{keyword_of, keyword_token_type, LoxError, Token, TokenLiteral, TokenType};
use crate::ast::{clone_tokens, token_views, TokenView, Value};
use crate::floats::{FloatRequest, FloatRequestView, FloatUnit, Floats, Oracle};
use crate::text::{digit, digits_of, integer_literal, integer_of, is_digit, is_letter};
use crate::text::{clone_chars, clone_texts, is_word_char, joined, natural_text, owned};
use crate::text::{slice_of, text_of, texts};

verus! {

/// The character at `i`, or NUL where there is none.
pub open spec fn char_at(src: Seq<char>, i: int) -> char {
    if 0 <= i < src.len() {
        src[i]
    } else {
        '\0'
    }
}

/// The end of the run of decimal digits that starts at `pos`.
pub open spec fn digits_end(src: Seq<char>, pos: int) -> int
    decreases src.len() - pos,
{
    if 0 <= pos < src.len() && is_digit(src[pos]) {
        digits_end(src, pos + 1)
    } else {
        pos
    }
}

/// The end of the run of letters and numbers that starts at `pos`.
pub open spec fn word_end(src: Seq<char>, pos: int) -> int
    decreases src.len() - pos,
{
    if 0 <= pos < src.len() && is_word_char(src[pos]) {
        word_end(src, pos + 1)
    } else {
        pos
    }
}

/// The first position at or after `pos` that holds `stop`, or the end of the
/// input.
pub open spec fn find(src: Seq<char>, pos: int, stop: char) -> int
    decreases src.len() - pos,
{
    if 0 <= pos < src.len() && src[pos] != stop {
        find(src, pos + 1, stop)
    } else {
        pos
    }
}

/// The first position at or after `pos` where `*/` stands, or the length of
/// the input where it stands nowhere.
pub open spec fn comment_close(src: Seq<char>, pos: int) -> int
    decreases src.len() - pos,
{
    if 0 <= pos && pos + 1 < src.len() {
        if src[pos] == '*' && src[pos + 1] == '/' {
            pos
        } else {
            comment_close(src, pos + 1)
        }
    } else {
        src.len() as int
    }
}

/// The number of newlines in `src[from..to]`.
pub open spec fn newlines(src: Seq<char>, from: int, to: int) -> int
    decreases to - from,
{
    if from < to {
        newlines(src, from, to - 1) + if char_at(src, to - 1) == '\n' {
            1int
        } else {
            0int
        }
    } else {
        0
    }
}

/// What the scanner says of a token: its kind, its text, its literal and its
/// line.
pub struct TokenSpec {
    pub token_type: TokenType,
    pub lexeme: Seq<char>,
    pub literal: Value,
    pub line: int,
}

impl TokenSpec {
    /// Whether a token is the one described.
    pub open spec fn met_by(self, t: TokenView) -> bool {
        &&& t.token_type == self.token_type
        &&& t.lexeme == self.lexeme
        &&& t.line == self.line
        &&& t.literal == self.literal
    }
}

/// One step of the scanner: where it goes on, on which line, and the token or
/// the complaint that the step produced, if any.
pub struct Step {
    pub next: int,
    pub line: int,
    pub token: Option<TokenSpec>,
    pub error: Option<Seq<char>>,
    /// Whether the float unit was consulted, which it is once for a number
    /// with a fraction and not otherwise.
    pub asks: bool,
}

/// A step that produces the token `src[pos..next]` of the given kind.
pub open spec fn emit(
    src: Seq<char>,
    pos: int,
    next: int,
    line: int,
    token_type: TokenType,
    literal: Value,
) -> Step {
    Step {
        next,
        line,
        token: Some(TokenSpec { token_type, lexeme: slice_of(src, pos, next), literal, line }),
        error: None,
        asks: false,
    }
}

/// A step for an operator of one character that becomes another with a
/// second character.
pub open spec fn one_or_two(
    src: Seq<char>,
    pos: int,
    line: int,
    second: char,
    two: TokenType,
    one: TokenType,
) -> Step {
    if pos + 1 < src.len() && src[pos + 1] == second {
        emit(src, pos, pos + 2, line, two, Value::Empty)
    } else {
        emit(src, pos, pos + 1, line, one, Value::Empty)
    }
}

/// A string: from the quote at `pos` to the next quote of the same kind, over
/// any newlines between. The literal is the text between the quotes, the line
/// that on which the string ends. Without a closing quote the rest of the
/// input is used up, a complaint is made and no token.
pub open spec fn string_step(src: Seq<char>, pos: int, line: int) -> Step {
    let close = find(src, pos + 1, src[pos]);
    let line_after = line + newlines(src, pos + 1, close);
    if close < src.len() {
        emit(
            src,
            pos,
            close + 1,
            line_after,
            TokenType::STRING,
            Value::Text(slice_of(src, pos + 1, close)),
        )
    } else {
        Step {
            next: close,
            line: line_after,
            token: None,
            error: Some("Unterminated string"@),
            asks: false,
        }
    }
}

/// What follows a slash: a comment up to the end of the line, a comment up to
/// the next `*/`, or nothing, and then the slash is a division sign. The
/// literal of a comment is its text without the marks. A block comment that
/// is not closed uses up the rest of the input and is a complaint.
pub open spec fn slash_step(src: Seq<char>, pos: int, line: int) -> Step {
    if char_at(src, pos + 1) == '/' {
        let end = find(src, pos + 2, '\n');
        emit(
            src,
            pos,
            end,
            line,
            TokenType::COMMENT,
            Value::Text(slice_of(src, pos + 2, end)),
        )
    } else if char_at(src, pos + 1) == '*' {
        let close = comment_close(src, pos + 2);
        if close < src.len() {
            emit(
                src,
                pos,
                close + 2,
                line + newlines(src, pos + 2, close),
                TokenType::BLOCK_COMMENT,
                Value::Text(slice_of(src, pos + 2, close)),
            )
        } else {
            Step {
                next: close,
                line: line + newlines(src, pos + 2, close),
                token: None,
                error: Some("Unterminated block comment!"@),
                asks: false,
            }
        }
    } else {
        emit(src, pos, pos + 1, line, TokenType::SLASH, Value::Empty)
    }
}

/// A number: digits, and a fraction if a point and a digit follow. Without a
/// fraction it is an integer, zero where it does not fit; with one it is the
/// double that the float unit reads from its text.
pub open spec fn number_step(src: Seq<char>, pos: int, line: int, o: Oracle, at: int) -> Step {
    let whole = digits_end(src, pos);
    if char_at(src, whole) == '.' && is_digit(char_at(src, whole + 1)) {
        let end = digits_end(src, whole + 1);
        Step {
            asks: true,
            ..emit(
                src,
                pos,
                end,
                line,
                TokenType::NUMBER,
                Value::Float((o.compute)(at, FloatRequestView::Literal(slice_of(src, pos, end)))),
            )
        }
    } else {
        emit(
            src,
            pos,
            whole,
            line,
            TokenType::NUMBER,
            Value::Integer(integer_literal(slice_of(src, pos, whole))),
        )
    }
}

/// A word: a keyword, or an identifier whose literal is its name.
pub open spec fn word_step(src: Seq<char>, pos: int, line: int) -> Step {
    let end = word_end(src, pos + 1);
    let word = slice_of(src, pos, end);
    match keyword_of(word) {
        Some(k) => emit(src, pos, end, line, k, Value::Empty),
        None => emit(src, pos, end, line, TokenType::IDENTIFIER, Value::Text(word)),
    }
}

/// The step that nothing else is: blank space, a newline, or a character that
/// starts no token.
pub open spec fn other_step(src: Seq<char>, pos: int, line: int, o: Oracle, at: int) -> Step {
    let c = src[pos];
    if c == ' ' || c == '\r' || c == '\t' {
        Step { next: pos + 1, line, token: None, error: None, asks: false }
    } else if c == '\n' {
        Step { next: pos + 1, line: line + 1, token: None, error: None, asks: false }
    } else if is_digit(c) {
        number_step(src, pos, line, o, at)
    } else if is_letter(c) {
        word_step(src, pos, line)
    } else {
        Step {
            next: pos + 1,
            line,
            token: None,
            error: Some("Unexpected character: "@.push(c)),
            asks: false,
        }
    }
}

/// The token kind of a character that is a token by itself.
pub open spec fn single(c: char) -> Option<TokenType> {
    if c == '(' {
        Some(TokenType::LEFT_PAREN)
    } else if c == ')' {
        Some(TokenType::RIGHT_PAREN)
    } else if c == '{' {
        Some(TokenType::LEFT_BRACE)
    } else if c == '}' {
        Some(TokenType::RIGHT_BRACE)
    } else if c == ',' {
        Some(TokenType::COMMA)
    } else if c == '.' {
        Some(TokenType::DOT)
    } else if c == '-' {
        Some(TokenType::MINUS)
    } else if c == '+' {
        Some(TokenType::PLUS)
    } else if c == ';' {
        Some(TokenType::SEMICOLON)
    } else if c == '^' {
        Some(TokenType::EXPONENT)
    } else {
        None
    }
}

/// One step of the scanner at `pos`, a position inside the input.
pub open spec fn step(src: Seq<char>, pos: int, line: int, o: Oracle, at: int) -> Step {
    let c = src[pos];
    if single(c) is Some {
        emit(src, pos, pos + 1, line, single(c)->0, Value::Empty)
    } else if c == '*' {
        one_or_two(src, pos, line, '*', TokenType::EXPONENT, TokenType::STAR)
    } else if c == '!' {
        one_or_two(src, pos, line, '=', TokenType::BANG_EQUAL, TokenType::BANG)
    } else if c == '=' {
        one_or_two(src, pos, line, '=', TokenType::EQUAL_EQUAL, TokenType::EQUAL)
    } else if c == '<' {
        one_or_two(src, pos, line, '=', TokenType::LESS_EQUAL, TokenType::LESS)
    } else if c == '>' {
        one_or_two(src, pos, line, '=', TokenType::GREATER_EQUAL, TokenType::GREATER)
    } else if c == '/' {
        slash_step(src, pos, line)
    } else if c == '"' || c == '\'' {
        string_step(src, pos, line)
    } else {
        other_step(src, pos, line, o, at)
    }
}

/// The text of a report: the line, where on it, and what is wrong.
pub open spec fn report_text(line: int, loc: Seq<char>, message: Seq<char>) -> Seq<char> {
    "[line: "@ + digits_of(line as nat) + "] Error "@ + loc + ": "@ + message
}

/// The text of a complaint of the scanner, which names a line and no place.
pub open spec fn complaint(line: int, message: Seq<char>) -> Seq<char> {
    report_text(line, Seq::empty(), message)
}

/// What a scan has produced: the tokens, the complaints, the line it has
/// reached, and the place where its last step began.
pub struct Scan {
    pub tokens: Seq<TokenSpec>,
    pub complaints: Seq<Seq<char>>,
    pub line: int,
    pub start: int,
    /// How often the float unit has been consulted.
    pub asked: int,
}

/// A scan that has produced nothing yet.
pub open spec fn nothing_yet(line: int, start: int, asked: int) -> Scan {
    Scan { tokens: Seq::empty(), complaints: Seq::empty(), line, start, asked }
}

impl Scan {
    /// The scan after one more step, which began at `pos`.
    pub open spec fn with(self, pos: int, s: Step) -> Scan {
        Scan {
            tokens: match s.token {
                Some(t) => self.tokens.push(t),
                None => self.tokens,
            },
            complaints: match s.error {
                Some(m) => self.complaints.push(complaint(s.line, m)),
                None => self.complaints,
            },
            line: s.line,
            start: pos,
            asked: if s.asks {
                self.asked + 1
            } else {
                self.asked
            },
        }
    }
}

/// The scan of `src` from `pos` on, after what `so_far` holds: step by step to
/// the end of the input. No step stops the scan.
pub open spec fn scan(src: Seq<char>, pos: int, so_far: Scan, o: Oracle) -> Scan
    decreases src.len() - pos,
{
    if 0 <= pos < src.len() {
        let s = step(src, pos, so_far.line, o, so_far.asked);
        if pos < s.next <= src.len() {
            scan(src, s.next, so_far.with(pos, s), o)
        } else {
            so_far
        }
    } else {
        so_far
    }
}

fn digits_end_of(src: &Vec<char>, pos: usize) -> (r: usize)
    requires
        pos <= src.len(),
    ensures
        r == digits_end(src@, pos as int),
        pos <= r <= src.len(),
{
    let mut i: usize = pos;
    while i < src.len() && digit(src[i])
        invariant
            pos <= i <= src.len(),
            digits_end(src@, pos as int) == digits_end(src@, i as int),
        decreases src.len() - i,
    {
        i += 1;
    }
    i
}

fn word_end_of(src: &Vec<char>, pos: usize) -> (r: usize)
    requires
        pos <= src.len(),
    ensures
        r == word_end(src@, pos as int),
        pos <= r <= src.len(),
{
    let mut i: usize = pos;
    while i < src.len() && src[i].is_alphanumeric()
        invariant
            pos <= i <= src.len(),
            word_end(src@, pos as int) == word_end(src@, i as int),
        decreases src.len() - i,
    {
        i += 1;
    }
    i
}

fn find_in(src: &Vec<char>, pos: usize, stop: char) -> (r: usize)
    requires
        pos <= src.len(),
    ensures
        r == find(src@, pos as int, stop),
        pos <= r <= src.len(),
{
    let mut i: usize = pos;
    while i < src.len() && src[i] != stop
        invariant
            pos <= i <= src.len(),
            find(src@, pos as int, stop) == find(src@, i as int, stop),
        decreases src.len() - i,
    {
        i += 1;
    }
    i
}

fn comment_close_of(src: &Vec<char>, pos: usize) -> (r: usize)
    requires
        pos <= src.len(),
    ensures
        r == comment_close(src@, pos as int),
        pos <= r <= src.len(),
        r < src.len() ==> r + 2 <= src.len(),
{
    let mut i: usize = pos;
    while i < src.len() && i + 1 < src.len()
        invariant
            pos <= i <= src.len(),
            comment_close(src@, pos as int) == comment_close(src@, i as int),
        decreases src.len() - i,
    {
        if src[i] == '*' && src[i + 1] == '/' {
            return i;
        }
        i += 1;
    }
    src.len()
}

fn newlines_in(src: &Vec<char>, from: usize, to: usize) -> (r: usize)
    requires
        from <= to <= src.len(),
    ensures
        r == newlines(src@, from as int, to as int),
        r <= to - from,
{
    let mut n: usize = 0;
    let mut i: usize = from;
    while i < to
        invariant
            from <= i <= to <= src.len(),
            n == newlines(src@, from as int, i as int),
            n <= i - from,
        decreases to - i,
    {
        if src[i] == '\n' {
            n += 1;
        }
        i += 1;
    }
    n
}

/// The token kind of a character that is a token by itself.
fn single_of(c: char) -> (r: Option<TokenType>)
    ensures
        r == single(c),
{
    if c == '(' {
        Some(TokenType::LEFT_PAREN)
    } else if c == ')' {
        Some(TokenType::RIGHT_PAREN)
    } else if c == '{' {
        Some(TokenType::LEFT_BRACE)
    } else if c == '}' {
        Some(TokenType::RIGHT_BRACE)
    } else if c == ',' {
        Some(TokenType::COMMA)
    } else if c == '.' {
        Some(TokenType::DOT)
    } else if c == '-' {
        Some(TokenType::MINUS)
    } else if c == '+' {
        Some(TokenType::PLUS)
    } else if c == ';' {
        Some(TokenType::SEMICOLON)
    } else if c == '^' {
        Some(TokenType::EXPONENT)
    } else {
        None
    }
}

/// The scanner: the input so far, the place it has reached in it, and the
/// tokens and complaints it has produced. It is fed piece by piece; tokens and
/// complaints add up.
#[derive(Debug)]
pub struct Scanner {
    pub had_error: bool,
    pub source: Vec<char>,
    pub start: usize,
    pub current: usize,
    pub line: usize,
    pub tokens: Vec<Token>,
    /// One line of text for each complaint, in the order they were made.
    pub diagnostics: Vec<String>,
}

impl Default for Scanner {
    fn default() -> (r: Self)
        ensures
            !r.had_error,
            r.source@.len() == 0,
            r.start == 0,
            r.current == 0,
            r.line == 1,
            r.tokens@.len() == 0,
            r.diagnostics@.len() == 0,
    {
        Scanner {
            line: 1,
            had_error: false,
            source: Vec::new(),
            start: 0,
            current: 0,
            tokens: Vec::new(),
            diagnostics: Vec::new(),
        }
    }
}

impl Clone for Scanner {
    fn clone(&self) -> (r: Self)
        ensures
            r.had_error == self.had_error,
            r.source@ == self.source@,
            r.start == self.start,
            r.current == self.current,
            r.line == self.line,
            token_views(r.tokens@) == token_views(self.tokens@),
            texts(r.diagnostics@) == texts(self.diagnostics@),
    {
        Scanner {
            had_error: self.had_error,
            source: clone_chars(&self.source),
            start: self.start,
            current: self.current,
            line: self.line,
            tokens: clone_tokens(&self.tokens),
            diagnostics: clone_texts(&self.diagnostics),
        }
    }
}

impl Scanner {
    /// Whether the step `s`, taken from the scanner `before`, leads to `self`:
    /// the place and the line are those of the step, its token, if any, is
    /// the one new token, and its complaint, if any, the one new complaint.
    pub open spec fn follows(self, before: Scanner, s: Step) -> bool {
        &&& self.source == before.source
        &&& self.current == s.next
        &&& self.line == s.line
        &&& match s.token {
            Some(t) => self.tokens@.len() == before.tokens@.len() + 1 && self.tokens@.drop_last()
                == before.tokens@ && t.met_by(self.tokens@.last()@),
            None => self.tokens@ == before.tokens@,
        }
        &&& match s.error {
            Some(m) => self.diagnostics@.len() == before.diagnostics@.len() + 1
                && self.diagnostics@.drop_last() == before.diagnostics@
                && self.diagnostics@.last()@ == complaint(s.line, m) && self.had_error,
            None => self.diagnostics@ == before.diagnostics@ && self.had_error
                == before.had_error,
        }
    }

    /// Whether the scan `done`, made from the scanner `before`, leads to
    /// `self`: the old tokens and complaints stand, and the new ones are those
    /// of the scan.
    pub open spec fn holds(self, before: Scanner, done: Scan) -> bool {
        &&& self.line == done.line
        &&& self.start == done.start
        &&& self.tokens@.len() == before.tokens@.len() + done.tokens.len()
        &&& self.tokens@.take(before.tokens@.len() as int) == before.tokens@
        &&& forall|i: int|
            0 <= i < done.tokens.len() ==> (#[trigger] done.tokens[i]).met_by(
                self.tokens@[before.tokens@.len() + i]@,
            )
        &&& self.diagnostics@.len() == before.diagnostics@.len() + done.complaints.len()
        &&& self.diagnostics@.take(before.diagnostics@.len() as int) == before.diagnostics@
        &&& forall|i: int|
            0 <= i < done.complaints.len() ==> #[trigger] done.complaints[i]
                == self.diagnostics@[before.diagnostics@.len() + i]@
        &&& self.had_error == (before.had_error || done.complaints.len() > 0)
    }

    /// Whether the scan `done`, made from the scanner `before`, leads to
    /// `self`, with the float unit consulted `asked` times by now.
    pub open spec fn scanned(self, before: Scanner, asked: int, done: Scan) -> bool {
        &&& self.holds(before, done)
        &&& asked == done.asked
        &&& forall|j: int|
            before.tokens@.len() <= j < self.tokens@.len() ==> done.tokens[j
                - before.tokens@.len()].met_by((#[trigger] self.tokens@[j])@)
        &&& forall|j: int|
            before.diagnostics@.len() <= j < self.diagnostics@.len() ==> done.complaints[j
                - before.diagnostics@.len()] == (#[trigger] self.diagnostics@[j])@
    }

    /// Whether the tokens and the complaints that `before` held still stand,
    /// in their places, and an error is noted if there was one or a complaint
    /// has been added.
    pub open spec fn kept(self, before: Scanner) -> bool {
        &&& before.tokens@.len() <= self.tokens@.len()
        &&& self.tokens@.take(before.tokens@.len() as int) == before.tokens@
        &&& before.diagnostics@.len() <= self.diagnostics@.len()
        &&& self.diagnostics@.take(before.diagnostics@.len() as int) == before.diagnostics@
        &&& self.had_error == (before.had_error || self.diagnostics@.len()
            > before.diagnostics@.len())
    }

    /// Appends `source` to the input and scans what has not been scanned yet.
    pub fn load<F: FloatUnit>(&mut self, source: Vec<char>, fpu: &mut Floats<F>)
        requires
            old(self).source.len() + source.len() + old(self).line <= usize::MAX,
        ensures
            final(self).source@ == old(self).source@ + source@,
            final(self).current == (if old(self).current <= final(self).source@.len() {
                final(self).source@.len()
            } else {
                old(self).current as nat
            }),
            final(self).kept(*old(self)),
            final(fpu).follows(old(fpu)),
            forall|o: Oracle| #[trigger]
                final(fpu).told(old(fpu), o) ==> final(self).scanned(
                    *old(self),
                    final(fpu).asked(),
                    scan(
                        final(self).source@,
                        old(self).current as int,
                        nothing_yet(
                            old(self).line as int,
                            old(self).start as int,
                            old(fpu).asked(),
                        ),
                        o,
                    ),
                ),
    {
        let mut source = source;
        self.source.append(&mut source);
        let ghost appended = *self;
        self.scan_tokens(fpu);
        proof {
            fpu.lemma_follows(old(fpu));
        }
        assert forall|o: Oracle| #[trigger] fpu.told(old(fpu), o) implies self.scanned(
            *old(self),
            fpu.asked(),
            scan(
                self.source@,
                old(self).current as int,
                nothing_yet(old(self).line as int, old(self).start as int, old(fpu).asked()),
                o,
            ),
        ) by {
            assert(self.scanned(
                appended,
                fpu.asked(),
                scan(
                    appended.source@,
                    appended.current as int,
                    nothing_yet(appended.line as int, appended.start as int, old(fpu).asked()),
                    o,
                ),
            ));
        }
    }

    fn scan_tokens<F: FloatUnit>(&mut self, fpu: &mut Floats<F>)
        requires
            old(self).source.len() + old(self).line <= usize::MAX,
        ensures
            final(self).source == old(self).source,
            final(self).current == (if old(self).current <= final(self).source@.len() {
                final(self).source@.len()
            } else {
                old(self).current as nat
            }),
            final(self).kept(*old(self)),
            final(fpu).extends(old(fpu)),
            forall|o: Oracle| #[trigger]
                final(fpu).told(old(fpu), o) ==> final(self).scanned(
                    *old(self),
                    final(fpu).asked(),
                    scan(
                        old(self).source@,
                        old(self).current as int,
                        nothing_yet(
                            old(self).line as int,
                            old(self).start as int,
                            old(fpu).asked(),
                        ),
                        o,
                    ),
                ),
    {
        let ghost before = *self;
        let ghost asked = *fpu;
        let ghost mut done = |o: Oracle|
            nothing_yet(before.line as int, before.start as int, asked.asked());
        assert(self.tokens@.take(self.tokens@.len() as int) =~= self.tokens@);
        assert(self.diagnostics@.take(self.diagnostics@.len() as int) =~= self.diagnostics@);
        while !self.is_at_end()
            invariant
                self.source == before.source,
                self.current >= before.current,
                self.current <= self.source.len() || self.current == before.current,
                self.line + (if self.current <= self.source.len() {
                    self.source.len() - self.current
                } else {
                    0
                }) <= usize::MAX,
                self.kept(before),
                fpu.extends(&asked),
                asked == *old(fpu),
                forall|o: Oracle| #[trigger]
                    fpu.told(&asked, o) ==> self.scanned(before, fpu.asked(), done(o)) && scan(
                        self.source@,
                        self.current as int,
                        done(o),
                        o,
                    ) == scan(
                        before.source@,
                        before.current as int,
                        nothing_yet(before.line as int, before.start as int, asked.asked()),
                        o,
                    ),
            decreases self.source.len() - self.current,
        {
            self.start = self.current;
            let ghost prior = *self;
            let ghost prior_asked = *fpu;
            let _ = self.scan_token(fpu);
            let ghost grown = |o: Oracle|
                done(o).with(
                    prior.current as int,
                    step(
                        prior.source@,
                        prior.current as int,
                        prior.line as int,
                        o,
                        prior_asked.asked(),
                    ),
                );
            proof {
                let n = before.tokens@.len() as int;
                let m = before.diagnostics@.len() as int;
                assert(self.tokens@.take(n) == before.tokens@) by {
                    assert(self.tokens@.take(n) =~= prior.tokens@.take(n));
                }
                assert(self.diagnostics@.take(m) == before.diagnostics@) by {
                    assert(self.diagnostics@.take(m) =~= prior.diagnostics@.take(m));
                }
                assert forall|o: Oracle| #[trigger] fpu.told(&asked, o) implies self.scanned(
                    before,
                    fpu.asked(),
                    grown(o),
                ) && scan(self.source@, self.current as int, grown(o), o) == scan(
                    before.source@,
                    before.current as int,
                    nothing_yet(before.line as int, before.start as int, asked.asked()),
                    o,
                ) by {
                    crate::floats::lemma_told_in_parts(&asked, &prior_asked, fpu, o);
                    let s = step(
                        prior.source@,
                        prior.current as int,
                        prior.line as int,
                        o,
                        prior_asked.asked(),
                    );
                    assert(self.follows(prior, s));
                    assert(done(o).asked == prior_asked.asked());
                    let g = grown(o);
                    let d = done(o);
                    assert forall|i: int| 0 <= i < g.tokens.len() implies (
                    #[trigger] g.tokens[i]).met_by(self.tokens@[n + i]@) by {
                        if i < d.tokens.len() {
                            assert(d.tokens[i].met_by(prior.tokens@[n + i]@));
                            if s.token is Some {
                                assert(self.tokens@.drop_last()[n + i] == prior.tokens@[n + i]);
                            }
                        }
                    }
                    assert forall|i: int| 0 <= i < g.complaints.len() implies
                        #[trigger] g.complaints[i] == self.diagnostics@[m + i]@ by {
                        if i < d.complaints.len() {
                            assert(d.complaints[i] == prior.diagnostics@[m + i]@);
                            if s.error is Some {
                                assert(self.diagnostics@.drop_last()[m + i] == prior.diagnostics@[m
                                    + i]);
                            }
                        }
                    }
                }
                done = grown;
            }
        }
    }

    /// Scans one token's worth of input.
    fn scan_token<F: FloatUnit>(&mut self, fpu: &mut Floats<F>) -> (res: Result<(), LoxError>)
        requires
            old(self).current < old(self).source.len(),
            old(self).start == old(self).current,
            old(self).line + (old(self).source.len() - old(self).current) <= usize::MAX,
        ensures
            final(fpu).extends(old(fpu)),
            forall|o: Oracle| #[trigger]
                final(fpu).told(old(fpu), o) ==> {
                    let s = step(
                        old(self).source@,
                        old(self).current as int,
                        old(self).line as int,
                        o,
                        old(fpu).asked(),
                    );
                    &&& final(self).follows(*old(self), s)
                    &&& final(fpu).asked() == old(fpu).asked() + if s.asks {
                        1int
                    } else {
                        0int
                    }
                },
            final(self).source == old(self).source,
            final(self).kept(*old(self)),
            old(self).current < final(self).current <= old(self).source.len(),
            final(self).line - old(self).line <= final(self).current - old(self).current,
            final(self).start == old(self).start,
            res matches Err(e) ==> e == LoxError::ScanError(
                old(self).source@[old(self).current as int],
            ),
    {
        let c = self.next();
        if let Some(kind) = single_of(c) {
            self.add_token(kind, TokenLiteral::Empty);
        } else if c == '*' {
            let kind = if self.consume_if_next('*') {
                TokenType::EXPONENT
            } else {
                TokenType::STAR
            };
            self.add_token(kind, TokenLiteral::Empty);
        } else if c == '!' {
            let kind = if self.consume_if_next('=') {
                TokenType::BANG_EQUAL
            } else {
                TokenType::BANG
            };
            self.add_token(kind, TokenLiteral::Empty);
        } else if c == '=' {
            let kind = if self.consume_if_next('=') {
                TokenType::EQUAL_EQUAL
            } else {
                TokenType::EQUAL
            };
            self.add_token(kind, TokenLiteral::Empty);
        } else if c == '<' {
            let kind = if self.consume_if_next('=') {
                TokenType::LESS_EQUAL
            } else {
                TokenType::LESS
            };
            self.add_token(kind, TokenLiteral::Empty);
        } else if c == '>' {
            let kind = if self.consume_if_next('=') {
                TokenType::GREATER_EQUAL
            } else {
                TokenType::GREATER
            };
            self.add_token(kind, TokenLiteral::Empty);
        } else if c == '/' {
            if self.consume_if_next('/') {
                self.comment();
            } else if self.consume_if_next('*') {
                self.block_comment();
            } else {
                self.add_token(TokenType::SLASH, TokenLiteral::Empty);
            }
        } else if c == '"' || c == '\'' {
            self.string(c);
        } else if c == ' ' || c == '\r' || c == '\t' {
        } else if c == '\n' {
            self.line += 1;
        } else if digit(c) {
            self.number(fpu);
        } else if c.is_alphabetic() {
            self.identifier();
        } else {
            let mut message = owned("Unexpected character: ");
            message.push(c);
            self.err(self.line, &message);
            assert(self.tokens@.take(old(self).tokens@.len() as int) =~= old(self).tokens@);
            assert(self.diagnostics@.take(old(self).diagnostics@.len() as int) =~= old(
                self).diagnostics@);
            return Err(LoxError::ScanError(c));
        }
        assert(self.tokens@.take(old(self).tokens@.len() as int) =~= old(self).tokens@);
        assert(self.diagnostics@.take(old(self).diagnostics@.len() as int) =~= old(
            self).diagnostics@);
        Ok(())
    }

    /// Takes the next character if it is `c`.
    fn consume_if_next(&mut self, c: char) -> (r: bool)
        requires
            old(self).current <= old(self).source.len(),
        ensures
            r == (char_at(old(self).source@, old(self).current as int) == c && old(self).current
                < old(self).source.len()),
            *final(self) == (Scanner {
                current: if r {
                    (old(self).current + 1) as usize
                } else {
                    old(self).current
                },
                ..*old(self)
            }),
    {
        if self.is_at_end() {
            return false;
        }
        if self.source[self.current] != c {
            return false;
        }
        self.current += 1;
        true
    }

    /// The rest of a number whose first digit has been taken.
    fn number<F: FloatUnit>(&mut self, fpu: &mut Floats<F>)
        requires
            old(self).start + 1 == old(self).current,
            old(self).current <= old(self).source.len(),
            is_digit(old(self).source@[old(self).start as int]),
        ensures
            final(fpu).extends(old(fpu)),
            forall|o: Oracle| #[trigger]
                final(fpu).told(old(fpu), o) ==> {
                    let s = number_step(
                        old(self).source@,
                        old(self).start as int,
                        old(self).line as int,
                        o,
                        old(fpu).asked(),
                    );
                    &&& final(self).follows(Scanner { current: old(self).start, ..*old(self) }, s)
                    &&& final(fpu).asked() == old(fpu).asked() + if s.asks {
                        1int
                    } else {
                        0int
                    }
                },
            final(self).source == old(self).source,
            final(self).line == old(self).line,
            final(self).diagnostics == old(self).diagnostics,
            final(self).had_error == old(self).had_error,
            final(self).tokens@.len() == old(self).tokens@.len() + 1,
            final(self).tokens@.drop_last() == old(self).tokens@,
            old(self).current <= final(self).current <= old(self).source.len(),
            final(self).start == old(self).start,
    {
        let whole = digits_end_of(&self.source, self.current);
        self.current = whole;
        let fraction = whole < self.source.len() && self.source[whole] == '.' && whole + 1
            < self.source.len() && digit(self.source[whole + 1]);
        if fraction {
            self.current = digits_end_of(&self.source, whole + 1);
            let request = FloatRequest::Literal(text_of(&self.source, self.start, self.current));
            let bits = fpu.compute(&request);
            self.add_token(TokenType::NUMBER, TokenLiteral::Float(bits));
        } else {
            let value = integer_of(&self.source, self.start, self.current);
            self.add_token(TokenType::NUMBER, TokenLiteral::Integer(value));
        }
    }

    /// The rest of a word whose first letter has been taken.
    fn identifier(&mut self)
        requires
            old(self).start + 1 == old(self).current,
            old(self).current <= old(self).source.len(),
        ensures
            final(self).follows(
                Scanner { current: old(self).start, ..*old(self) },
                word_step(old(self).source@, old(self).start as int, old(self).line as int),
            ),
            old(self).current <= final(self).current <= old(self).source.len(),
            final(self).start == old(self).start,
    {
        self.current = word_end_of(&self.source, self.current);
        let ident = text_of(&self.source, self.start, self.current);
        match keyword_token_type(ident.as_str()) {
            Some(kind) => self.add_token(kind, TokenLiteral::Empty),
            None => self.add_token(TokenType::IDENTIFIER, TokenLiteral::String(ident)),
        }
    }

    /// The rest of a string whose opening quote `c` has been taken.
    fn string(&mut self, c: char)
        requires
            old(self).start + 1 == old(self).current,
            old(self).current <= old(self).source.len(),
            old(self).source@[old(self).start as int] == c,
            old(self).line + (old(self).source.len() - old(self).current) <= usize::MAX,
        ensures
            final(self).follows(
                Scanner { current: old(self).start, ..*old(self) },
                string_step(old(self).source@, old(self).start as int, old(self).line as int),
            ),
            old(self).current <= final(self).current <= old(self).source.len(),
            final(self).line - old(self).line <= final(self).current - old(self).current,
            final(self).start == old(self).start,
    {
        let close = find_in(&self.source, self.current, c);
        self.line += newlines_in(&self.source, self.current, close);
        if close >= self.source.len() {
            self.current = close;
            self.err(self.line, &owned("Unterminated string"));
        } else {
            self.current = close + 1;
            let lit = text_of(&self.source, self.start + 1, close);
            self.add_token(TokenType::STRING, TokenLiteral::String(lit));
        }
    }

    /// The rest of a comment that runs to the end of the line; both slashes
    /// have been taken.
    fn comment(&mut self)
        requires
            old(self).start + 2 == old(self).current,
            old(self).current <= old(self).source.len(),
            old(self).source@[old(self).start + 1] == '/',
        ensures
            final(self).follows(
                Scanner { current: old(self).start, ..*old(self) },
                slash_step(old(self).source@, old(self).start as int, old(self).line as int),
            ),
            old(self).current <= final(self).current <= old(self).source.len(),
            final(self).line == old(self).line,
            final(self).start == old(self).start,
    {
        self.current = find_in(&self.source, self.current, '\n');
        let lit = text_of(&self.source, self.start + 2, self.current);
        self.add_token(TokenType::COMMENT, TokenLiteral::String(lit));
    }

    /// The rest of a comment that runs to the next `*/`; the slash and the
    /// star have been taken.
    fn block_comment(&mut self)
        requires
            old(self).start + 2 == old(self).current,
            old(self).current <= old(self).source.len(),
            old(self).source@[old(self).start + 1] == '*',
            old(self).line + (old(self).source.len() - old(self).current) <= usize::MAX,
        ensures
            final(self).follows(
                Scanner { current: old(self).start, ..*old(self) },
                slash_step(old(self).source@, old(self).start as int, old(self).line as int),
            ),
            old(self).current <= final(self).current <= old(self).source.len(),
            final(self).line - old(self).line <= final(self).current - old(self).current,
            final(self).start == old(self).start,
    {
        let close = comment_close_of(&self.source, self.current);
        self.line += newlines_in(&self.source, self.current, close);
        if close >= self.source.len() {
            self.current = close;
            self.err(self.line, &owned("Unterminated block comment!"));
        } else {
            self.current = close + 2;
            let lit = text_of(&self.source, self.start + 2, close);
            self.add_token(TokenType::BLOCK_COMMENT, TokenLiteral::String(lit));
        }
    }

    /// Adds the token that `source[start..current]` is.
    fn add_token(&mut self, token_type: TokenType, literal: TokenLiteral)
        ensures
            *final(self) == (Scanner { tokens: final(self).tokens, ..*old(self) }),
            final(self).tokens@.len() == old(self).tokens@.len() + 1,
            final(self).tokens@.drop_last() == old(self).tokens@,
            final(self).tokens@.last()@ == (TokenView {
                token_type,
                lexeme: slice_of(
                    old(self).source@,
                    old(self).start as int,
                    old(self).current as int,
                ),
                literal: literal@,
                line: old(self).line,
            }),
    {
        let lexeme = text_of(&self.source, self.start, self.current);
        let ghost before = self.tokens@;
        self.tokens.push(Token { token_type, lexeme, literal, line: self.line });
        assert(self.tokens@.drop_last() =~= before);
    }

    /// Takes the next character; NUL at the end of the input.
    fn next(&mut self) -> (c: char)
        ensures
            c == char_at(old(self).source@, old(self).current as int),
            *final(self) == (Scanner {
                current: if old(self).current < old(self).source.len() {
                    (old(self).current + 1) as usize
                } else {
                    old(self).current
                },
                ..*old(self)
            }),
    {
        if self.current >= self.source.len() {
            return '\0';
        }
        self.current += 1;
        self.source[self.current - 1]
    }

    fn is_at_end(&self) -> (r: bool)
        ensures
            r == (self.current >= self.source.len()),
    {
        self.current >= self.source.len()
    }

    /// Makes a complaint about `line`.
    fn err(&mut self, line: usize, msg: &String)
        ensures
            *final(self) == (Scanner {
                diagnostics: final(self).diagnostics,
                had_error: true,
                ..*old(self)
            }),
            final(self).diagnostics@.len() == old(self).diagnostics@.len() + 1,
            final(self).diagnostics@.drop_last() == old(self).diagnostics@,
            final(self).diagnostics@.last()@ == complaint(line as int, msg@),
    {
        self.report(line, &String::new(), msg);
        assert(report_text(line as int, Seq::empty(), msg@) =~= complaint(line as int, msg@));
    }

    /// Records the line of text `[line: N] Error LOC: MSG` and that there was
    /// an error.
    fn report(&mut self, line: usize, loc: &String, msg: &String)
        ensures
            *final(self) == (Scanner {
                diagnostics: final(self).diagnostics,
                had_error: true,
                ..*old(self)
            }),
            final(self).diagnostics@.len() == old(self).diagnostics@.len() + 1,
            final(self).diagnostics@.drop_last() == old(self).diagnostics@,
            final(self).diagnostics@.last()@ == report_text(line as int, loc@, msg@),
    {
        let a = joined(&owned("[line: "), &natural_text(line as u64));
        let b = joined(&a, &owned("] Error "));
        let c = joined(&b, loc);
        let d = joined(&c, &owned(": "));
        let text = joined(&d, msg);
        let ghost before = self.diagnostics@;
        self.diagnostics.push(text);
        self.had_error = true;
        assert(self.diagnostics@.drop_last() =~= before);
    }
}

/// What a token is apart from its literal: its kind, its text and its line.
pub open spec fn shape(t: TokenSpec) -> (TokenType, Seq<char>, int) {
    (t.token_type, t.lexeme, t.line)
}

/// Whether two scans are alike but for the literals of their tokens.
pub open spec fn alike(a: Scan, b: Scan) -> bool {
    &&& a.line == b.line
    &&& a.start == b.start
    &&& a.asked == b.asked
    &&& a.complaints == b.complaints
    &&& a.tokens.len() == b.tokens.len()
    &&& forall|i: int|
        0 <= i < a.tokens.len() ==> shape(#[trigger] a.tokens[i]) == shape(b.tokens[i])
    &&& forall|i: int|
        0 <= i < a.tokens.len() ==> (#[trigger] a.tokens[i]).literal == b.tokens[i].literal || (
        a.tokens[i].literal is Float && b.tokens[i].literal is Float)
}

/// Scanning is repeatable: however the float unit answers, the scan of an
/// input gives tokens of the same kinds, with the same texts, on the same
/// lines, the same complaints, and the same literals for all but the doubles;
/// and under one oracle it gives the same scan altogether.
pub proof fn scanning_is_repeatable(
    src: Seq<char>,
    pos: int,
    first: Scan,
    second: Scan,
    o1: Oracle,
    o2: Oracle,
)
    requires
        alike(first, second),
    ensures
        alike(scan(src, pos, first, o1), scan(src, pos, second, o2)),
        first == second ==> scan(src, pos, first, o1) == scan(src, pos, second, o1),
    decreases src.len() - pos,
{
    if 0 <= pos < src.len() {
        let s1 = step(src, pos, first.line, o1, first.asked);
        let s2 = step(src, pos, second.line, o2, second.asked);
        assert(s1.next == s2.next && s1.line == s2.line && s1.error == s2.error && s1.asks
            == s2.asks);
        if pos < s1.next <= src.len() {
            let a = first.with(pos, s1);
            let b = second.with(pos, s2);
            assert(alike(a, b)) by {
                assert forall|i: int| 0 <= i < a.tokens.len() implies shape(
                    #[trigger] a.tokens[i],
                ) == shape(b.tokens[i]) by {
                    if i < first.tokens.len() {
                        assert(shape(first.tokens[i]) == shape(second.tokens[i]));
                    }
                }
                assert forall|i: int| 0 <= i < a.tokens.len() implies (
                #[trigger] a.tokens[i]).literal == b.tokens[i].literal || (
                a.tokens[i].literal is Float && b.tokens[i].literal is Float) by {
                    if i < first.tokens.len() {
                        assert(first.tokens[i].literal == second.tokens[i].literal || (
                        first.tokens[i].literal is Float && second.tokens[i].literal is Float));
                    }
                }
            }
            scanning_is_repeatable(src, s1.next, a, b, o1, o2);
        }
    }
}

} // verus!
