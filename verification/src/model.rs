//! The mathematical model of the scanner: what a source text scans to,
//! stated over sequences of characters and integer positions.

use crate::laws::lemma_step_advances;
use crate::lox::{syntax_error, DiagnosticView, Log, LoxView, Problem};
use crate::token::{literal_of, TokenType, TokenView};
use vstd::prelude::*;

verus! {

/// Whether `c` is an ASCII digit.
pub open spec fn is_digit(c: char) -> bool {
    '0' <= c && c <= '9'
}

/// Whether `c` is an ASCII letter.
pub open spec fn is_alpha(c: char) -> bool {
    ('a' <= c && c <= 'z') || ('A' <= c && c <= 'Z')
}

/// Whether `c` may stand in a word: a letter, a digit or the underscore.
pub open spec fn is_word_char(c: char) -> bool {
    is_alpha(c) || is_digit(c) || c == '_'
}

/// Whether `c` opens a string literal.
pub open spec fn is_quote(c: char) -> bool {
    c == '"' || c == '\'' || c == '`'
}

/// The classes of characters of which the scanner consumes maximal runs.
#[derive(Clone, Copy, Debug, PartialEq, Eq, Structural)]
pub enum CharClass {
    /// ASCII digits.
    Digit,
    /// ASCII letters, ASCII digits and the underscore.
    Word,
    /// Everything but the newline.
    LineRest,
}

/// Whether `c` belongs to `class`.
pub open spec fn in_class(class: CharClass, c: char) -> bool {
    match class {
        CharClass::Digit => is_digit(c),
        CharClass::Word => is_word_char(c),
        CharClass::LineRest => c != '\n',
    }
}

/// The character at position `i`, or the nul character where there is none.
pub open spec fn peek_at(src: Seq<char>, i: int) -> char {
    if 0 <= i < src.len() {
        src[i]
    } else {
        '\0'
    }
}

/// The end of the longest run of characters of `class` that starts at `i`.
pub open spec fn run_end(src: Seq<char>, i: int, class: CharClass) -> int
    decreases src.len() - i,
{
    if 0 <= i < src.len() && in_class(class, src[i]) {
        run_end(src, i + 1, class)
    } else {
        i
    }
}

/// A position in the source: the index of the next unread character and
/// the line and column counters.
pub struct Cursor {
    pub index: int,
    pub line: int,
    pub column: int,
}

/// The cursor after one character that is no line break.
pub open spec fn step_char(cur: Cursor) -> Cursor {
    Cursor { index: cur.index + 1, line: cur.line, column: cur.column + 1 }
}

/// The cursor after a line break.
pub open spec fn step_newline(cur: Cursor) -> Cursor {
    Cursor { index: cur.index + 1, line: cur.line + 1, column: 0 }
}

/// The cursor after the longest run of characters of `class`.
pub open spec fn skip_run(src: Seq<char>, cur: Cursor, class: CharClass) -> Cursor {
    let end = run_end(src, cur.index, class);
    Cursor { index: end, line: cur.line, column: cur.column + (end - cur.index) }
}

/// Where a delimited construct ends, and whether its terminator was found
/// before the end of the input.
pub struct Span {
    pub cur: Cursor,
    pub closed: bool,
}

/// The rest of a block comment: everything up to and including the first
/// `*/` at or after the cursor, with every line break counted.
pub open spec fn block_comment(src: Seq<char>, cur: Cursor) -> Span
    decreases src.len() - cur.index,
{
    if !(0 <= cur.index < src.len()) {
        Span { cur, closed: false }
    } else if src[cur.index] == '*' && peek_at(src, cur.index + 1) == '/' {
        Span { cur: step_char(step_char(cur)), closed: true }
    } else if src[cur.index] == '\n' {
        block_comment(src, step_newline(cur))
    } else {
        block_comment(src, step_char(cur))
    }
}

/// The rest of a string literal: everything up to and including the first
/// `quote` at or after the cursor, with every line break counted.
pub open spec fn string_body(src: Seq<char>, cur: Cursor, quote: char) -> Span
    decreases src.len() - cur.index,
{
    if !(0 <= cur.index < src.len()) {
        Span { cur, closed: false }
    } else if src[cur.index] == quote {
        Span { cur: step_char(cur), closed: true }
    } else if src[cur.index] == '\n' {
        string_body(src, step_newline(cur), quote)
    } else {
        string_body(src, step_char(cur), quote)
    }
}

/// The rest of a number whose first digit has been read: more digits,
/// then at most one decimal point with the digits that follow it.
pub open spec fn number_rest(src: Seq<char>, cur: Cursor) -> Cursor {
    let whole = skip_run(src, cur, CharClass::Digit);
    if peek_at(src, whole.index) == '.' {
        skip_run(src, step_char(whole), CharClass::Digit)
    } else {
        whole
    }
}

/// The category of a word: its keyword, or `Identifier`.
pub open spec fn keyword_kind(word: Seq<char>) -> TokenType {
    if word == "var"@ {
        TokenType::Var
    } else if word == "fun"@ {
        TokenType::Fun
    } else if word == "return"@ {
        TokenType::Return
    } else if word == "if"@ {
        TokenType::If
    } else if word == "else"@ {
        TokenType::Else
    } else if word == "for"@ {
        TokenType::For
    } else if word == "while"@ {
        TokenType::While
    } else if word == "print"@ {
        TokenType::Print
    } else if word == "break"@ {
        TokenType::Break
    } else if word == "continue"@ {
        TokenType::Continue
    } else if word == "class"@ {
        TokenType::Class
    } else if word == "this"@ {
        TokenType::This
    } else if word == "true"@ {
        TokenType::True
    } else if word == "false"@ {
        TokenType::False
    } else if word == "nil"@ {
        TokenType::Nil
    } else if word == "or"@ {
        TokenType::Or
    } else if word == "and"@ {
        TokenType::And
    } else if word == "super"@ {
        TokenType::Super
    } else {
        TokenType::Identifier
    }
}

/// What one step of the scanner found.
pub enum Lexed {
    /// A token of the given category (a comment included).
    Emit(TokenType),
    /// Blank space.
    Nothing,
    /// A lexical error.
    Fault(Problem),
}

/// The result of one step: the cursor after it and what was found.
pub struct Lexing {
    pub cur: Cursor,
    pub lexed: Lexed,
}

/// A step that ends at `cur` and found a token of category `kind`.
pub open spec fn emit(cur: Cursor, kind: TokenType) -> Lexing {
    Lexing { cur, lexed: Lexed::Emit(kind) }
}

/// A one-character operator, or its two-character form where `=` follows.
pub open spec fn operator(src: Seq<char>, cur: Cursor, one: TokenType, two: TokenType) -> Lexing {
    if peek_at(src, cur.index) == '=' {
        emit(step_char(cur), two)
    } else {
        emit(cur, one)
    }
}

/// One step of the scanner from `start`, where a character is left to
/// read.  `after_semicolon` says whether the last token scanned so far
/// reads `;`.
pub open spec fn lex_token(src: Seq<char>, start: Cursor, after_semicolon: bool) -> Lexing
    recommends
        0 <= start.index < src.len(),
{
    let c = src[start.index];
    let cur = step_char(start);
    let next = peek_at(src, cur.index);
    if c == '(' {
        emit(cur, TokenType::LeftParen)
    } else if c == ')' {
        emit(cur, TokenType::RightParen)
    } else if c == '{' {
        emit(cur, TokenType::LeftBrace)
    } else if c == '}' {
        emit(cur, TokenType::RightBrace)
    } else if c == '.' {
        if is_digit(next) {
            emit(skip_run(src, cur, CharClass::Digit), TokenType::Number)
        } else {
            emit(cur, TokenType::Dot)
        }
    } else if c == '-' {
        emit(cur, TokenType::Minus)
    } else if c == '*' {
        emit(cur, TokenType::Star)
    } else if c == '+' {
        emit(cur, TokenType::Plus)
    } else if c == '%' {
        emit(cur, TokenType::Modulus)
    } else if c == '/' {
        if next == '/' {
            emit(skip_run(src, cur, CharClass::LineRest), TokenType::Comment)
        } else if next == '*' {
            let span = block_comment(src, cur);
            if span.closed {
                emit(span.cur, TokenType::Comment)
            } else {
                Lexing { cur: span.cur, lexed: Lexed::Fault(Problem::UnterminatedComment) }
            }
        } else {
            emit(cur, TokenType::Divide)
        }
    } else if c == ';' {
        if next == '\n' && after_semicolon {
            Lexing {
                cur: skip_run(src, cur, CharClass::LineRest),
                lexed: Lexed::Fault(Problem::DuplicateTerminator),
            }
        } else {
            emit(cur, TokenType::Semicolon)
        }
    } else if c == ',' {
        emit(cur, TokenType::Comma)
    } else if c == '!' {
        operator(src, cur, TokenType::Bang, TokenType::BangEqual)
    } else if c == '=' {
        operator(src, cur, TokenType::Equal, TokenType::EqualEqual)
    } else if c == '<' {
        operator(src, cur, TokenType::Less, TokenType::LessEqual)
    } else if c == '>' {
        operator(src, cur, TokenType::Greater, TokenType::GreaterEqual)
    } else if c == ' ' || c == '\r' || c == '\t' {
        Lexing { cur, lexed: Lexed::Nothing }
    } else if is_quote(c) {
        let span = string_body(src, cur, c);
        if span.closed {
            emit(span.cur, TokenType::String)
        } else {
            Lexing { cur: span.cur, lexed: Lexed::Fault(Problem::UnterminatedString(c)) }
        }
    } else if c == '\n' {
        Lexing { cur: step_newline(start), lexed: Lexed::Nothing }
    } else if is_alpha(c) || c == '_' {
        let end = skip_run(src, cur, CharClass::Word);
        emit(end, keyword_kind(src.subrange(start.index, end.index)))
    } else if is_digit(c) {
        emit(number_rest(src, cur), TokenType::Number)
    } else {
        Lexing { cur, lexed: Lexed::Fault(Problem::UnexpectedCharacter(c)) }
    }
}

/// The text of a number as it reaches the token: a trailing decimal point
/// is dropped, and a leading one gets a zero in front.
pub open spec fn normalize_number(raw: Seq<char>) -> Seq<char> {
    if raw.len() > 0 && raw.last() == '.' {
        raw.drop_last()
    } else if raw.len() > 0 && raw[0] == '.' {
        seq!['0'] + raw
    } else {
        raw
    }
}

/// The lexeme of a token of category `kind` that was read as `raw`:
/// strings lose their quotes, numbers are normalized.
pub open spec fn lexeme_text(kind: TokenType, raw: Seq<char>) -> Seq<char> {
    match kind {
        TokenType::String => raw.subrange(1, raw.len() - 1),
        TokenType::Number => normalize_number(raw),
        _ => raw,
    }
}

/// The token of category `kind` and text `lexeme` that ends at `cur`.
pub open spec fn make_token(kind: TokenType, lexeme: Seq<char>, cur: Cursor) -> TokenView {
    TokenView { kind, lexeme, literal: literal_of(kind), line: cur.line, column: cur.column + 1 }
}

/// Whether the last of `tokens` reads `;`.
pub open spec fn ends_with_semicolon(tokens: Seq<TokenView>) -> bool {
    tokens.len() > 0 && tokens.last().lexeme == seq![';']
}

/// The error diagnostic for `problem`, found with the cursor at `cur`.
pub open spec fn fault_diagnostic(problem: Problem, snippet: Seq<char>, cur: Cursor) -> DiagnosticView {
    let (line, column) = match problem {
        Problem::UnterminatedString(_) => (cur.line - 1, cur.column + 1),
        Problem::UnexpectedCharacter(_) => (cur.line, cur.column + 1),
        _ => (cur.line, cur.column),
    };
    DiagnosticView { level: syntax_error(), problem, snippet, line, column }
}

/// The hint that follows the report of a duplicate terminator.
pub open spec fn hint_diagnostic(cur: Cursor) -> DiagnosticView {
    DiagnosticView {
        level: Log::Info,
        problem: Problem::SingleTerminatorHint,
        snippet: Seq::empty(),
        line: cur.line,
        column: cur.column,
    }
}

/// The driver after `problem` was reported: the flag is set and the
/// diagnostics grow by one, or by two for a duplicate terminator.
pub open spec fn report(lox: LoxView, problem: Problem, snippet: Seq<char>, cur: Cursor) -> LoxView {
    let first = lox.diagnostics.push(fault_diagnostic(problem, snippet, cur));
    LoxView {
        has_error: true,
        diagnostics: if problem == Problem::DuplicateTerminator {
            first.push(hint_diagnostic(cur))
        } else {
            first
        },
    }
}

/// The state of a scan: the cursor, the tokens so far and the driver.
pub struct ScanState {
    pub cur: Cursor,
    pub tokens: Seq<TokenView>,
    pub lox: LoxView,
}

/// The state after one step of the scanner from a state in which a
/// character is left to read.
pub open spec fn scan_step(src: Seq<char>, st: ScanState) -> ScanState
    recommends
        0 <= st.cur.index < src.len(),
{
    let lexing = lex_token(src, st.cur, ends_with_semicolon(st.tokens));
    let raw = src.subrange(st.cur.index, lexing.cur.index);
    match lexing.lexed {
        Lexed::Nothing => ScanState { cur: lexing.cur, tokens: st.tokens, lox: st.lox },
        Lexed::Emit(kind) => ScanState {
            cur: lexing.cur,
            tokens: if kind == TokenType::Comment {
                st.tokens
            } else {
                st.tokens.push(make_token(kind, lexeme_text(kind, raw), lexing.cur))
            },
            lox: st.lox,
        },
        Lexed::Fault(problem) => ScanState {
            cur: lexing.cur,
            tokens: st.tokens,
            lox: report(
                st.lox,
                problem,
                if problem == Problem::DuplicateTerminator {
                    raw.subrange(1, raw.len() as int)
                } else {
                    Seq::empty()
                },
                lexing.cur,
            ),
        },
    }
}

/// The state when no character is left to read.
pub open spec fn scan_rest(src: Seq<char>, st: ScanState) -> ScanState
    decreases src.len() - st.cur.index,
    via scan_rest_terminates
{
    if 0 <= st.cur.index < src.len() {
        scan_rest(src, scan_step(src, st))
    } else {
        st
    }
}

#[via_fn]
proof fn scan_rest_terminates(src: Seq<char>, st: ScanState) {
    if 0 <= st.cur.index < src.len() {
        lemma_step_advances(src, st);
    }
}

/// The state after a whole scan: every step, then the end-of-input token.
pub open spec fn scan_all(src: Seq<char>, st: ScanState) -> ScanState {
    let end = scan_rest(src, st);
    ScanState {
        cur: end.cur,
        tokens: end.tokens.push(make_token(TokenType::Eof, "EOF"@, end.cur)),
        lox: end.lox,
    }
}

/// The state in which a scan of a fresh text starts.
pub open spec fn initial_state() -> ScanState {
    ScanState {
        cur: Cursor { index: 0, line: 1, column: 0 },
        tokens: Seq::empty(),
        lox: LoxView { has_error: false, diagnostics: Seq::empty() },
    }
}

} // verus!
