//! The scanner: a cursor over the source text and the tokens found so far.

use crate::laws::{lacks, lemma_comments_are_left_out, lemma_single_eof};
use crate::lox::{CompilerError, Log, Lox, LoxError, Problem};
use crate::model::{
    block_comment, emit, ends_with_semicolon, in_class, initial_state, is_alpha, is_digit,
    keyword_kind, lexeme_text, make_token, number_rest, operator, peek_at, report, run_end,
    scan_all, scan_rest, scan_step, skip_run, step_char, string_body, CharClass, Cursor,
    ScanState, Span,
};
use crate::text::push_char;
use crate::token::{literal_of, token_views, Literal, Token, TokenType};
use crate::utf8::{
    byte_len, char_width, decode, lemma_byte_len_is_encoding, lemma_byte_len_prefix,
    lemma_byte_len_step, utf8_width,
};
use vstd::prelude::*;
use vstd::string::StringExecFns;

verus! {

/// Whether `c` is an ASCII digit.
pub fn is_digit_char(c: char) -> (digit: bool)
    ensures
        digit == is_digit(c),
{
    '0' <= c && c <= '9'
}

/// Whether `c` is an ASCII letter.
pub fn is_alpha_char(c: char) -> (alpha: bool)
    ensures
        alpha == is_alpha(c),
{
    ('a' <= c && c <= 'z') || ('A' <= c && c <= 'Z')
}

/// Whether `c` belongs to `class`.
pub fn is_in_class(class: CharClass, c: char) -> (inside: bool)
    ensures
        inside == in_class(class, c),
{
    match class {
        CharClass::Digit => is_digit_char(c),
        CharClass::Word => is_alpha_char(c) || is_digit_char(c) || c == '_',
        CharClass::LineRest => c != '\n',
    }
}

/// The scanner's state: the source text, the tokens found so far, and the
/// cursor.  `start` and `current` are byte offsets into the UTF-8 form of
/// the source; `start_index` and `index` are the same two positions counted
/// in characters.
pub struct Scanner {
    pub source: Vec<char>,
    pub tokens: Vec<Token>,
    pub start: usize,
    pub current: usize,
    pub line: usize,
    pub column: usize,
    pub start_index: usize,
    pub index: usize,
}

impl Scanner {
    /// The cursor as a mathematical value.
    pub open spec fn cursor(&self) -> Cursor {
        Cursor { index: self.index as int, line: self.line as int, column: self.column as int }
    }

    /// The state of the scan that this scanner and `lox` hold together.
    pub open spec fn state(&self, lox: &Lox) -> ScanState {
        ScanState { cur: self.cursor(), tokens: token_views(self.tokens@), lox: lox@ }
    }

    /// The invariant of the cursor: both positions lie in the text with
    /// `start` not after `current`, the byte offsets are those of the
    /// character positions, and the counters are bounded by the text read.
    pub open spec fn wf(&self) -> bool {
        &&& self.start_index <= self.index <= self.source@.len() < usize::MAX
        &&& byte_len(self.source@) <= usize::MAX
        &&& self.start == byte_len(self.source@.take(self.start_index as int))
        &&& self.current == byte_len(self.source@.take(self.index as int))
        &&& 1 <= self.line <= self.index + 1
        &&& self.column <= self.index
    }

    /// Whether `other` has the same text, tokens and token start.
    pub open spec fn same_token(&self, other: &Scanner) -> bool {
        &&& self.source == other.source
        &&& self.tokens == other.tokens
        &&& self.start == other.start
        &&& self.start_index == other.start_index
    }

    /// A scanner at the start of `text`, with no tokens.
    pub fn new(text: &str) -> (scanner: Scanner)
        requires
            text@.len() < usize::MAX,
        ensures
            scanner.wf(),
            scanner.source@ == text@,
            scanner.tokens@.len() == 0,
            scanner.start == 0,
            scanner.current == 0,
            scanner.start_index == 0,
            scanner.cursor() == initial_state().cur,
    {
        // The length of the text's bytes is a `usize`: its encoding fits.
        let size = text.as_bytes().len();
        let source = decode(text);
        proof {
            assert(size == byte_len(text@)) by {
                lemma_byte_len_is_encoding(text@);
            }
            assert(source@.take(0) =~= Seq::<char>::empty());
        }
        Scanner {
            source,
            tokens: Vec::new(),
            start: 0,
            current: 0,
            line: 1,
            column: 0,
            start_index: 0,
            index: 0,
        }
    }

    /// Whether no character is left to read.
    pub fn is_at_end(&self) -> (at_end: bool)
        requires
            self.wf(),
        ensures
            at_end == (self.index >= self.source@.len()),
            at_end == (self.current >= byte_len(self.source@)),
    {
        proof {
            lemma_byte_len_prefix(self.source@, self.index as int);
            if self.index == self.source@.len() {
                assert(self.source@.take(self.index as int) =~= self.source@);
            }
        }
        self.index >= self.source.len()
    }

    /// The next unread character, or the nul character at the end.
    pub fn peek(&self) -> (next: Option<char>)
        requires
            self.wf(),
        ensures
            next == Some(peek_at(self.source@, self.index as int)),
    {
        if self.is_at_end() {
            Some('\0')
        } else {
            Some(self.source[self.index])
        }
    }

    /// The character after the next unread one, or the nul character
    /// where there is none.
    pub fn peek_next(&self) -> (next: Option<char>)
        requires
            self.wf(),
        ensures
            next == Some(peek_at(self.source@, self.index + 1)),
    {
        if self.index + 1 >= self.source.len() {
            Some('\0')
        } else {
            Some(self.source[self.index + 1])
        }
    }

    /// Whether the next unread character is `expected`; the cursor stays.
    pub fn match_char(&mut self, expected: char) -> (matched: bool)
        requires
            old(self).wf(),
        ensures
            *final(self) == *old(self),
            matched == (old(self).index < old(self).source@.len() && old(self).source@[old(
                self,
            ).index as int] == expected),
    {
        if self.is_at_end() {
            return false;
        }
        if self.source[self.index] != expected {
            return false;
        }
        true
    }

    /// Reads the next character: the cursor moves past it by its width in
    /// bytes, and the column grows by one.  At the end nothing moves and
    /// the nul character is returned.
    pub fn advance(&mut self) -> (c: char)
        requires
            old(self).wf(),
        ensures
            final(self).wf(),
            final(self).same_token(old(self)),
            c == peek_at(old(self).source@, old(self).index as int),
            old(self).index >= old(self).source@.len() ==> *final(self) == *old(self),
            old(self).index < old(self).source@.len() ==> {
                &&& final(self).cursor() == step_char(old(self).cursor())
                &&& final(self).current == old(self).current + char_width(c)
            },
    {
        if self.is_at_end() {
            return '\0';
        }
        let ch = self.source[self.index];
        proof {
            lemma_byte_len_step(self.source@, self.index as int);
            lemma_byte_len_prefix(self.source@, self.index + 1);
        }
        self.current += utf8_width(ch);
        self.index += 1;
        self.column += 1;
        ch
    }

    /// The characters from position `from` up to position `to`.
    pub fn text_between(&self, from: usize, to: usize) -> (text: String)
        requires
            from <= to <= self.source@.len(),
        ensures
            text@ == self.source@.subrange(from as int, to as int),
    {
        let mut text = String::new();
        let mut i: usize = from;
        while i < to
            invariant
                from <= i <= to <= self.source@.len(),
                text@ == self.source@.subrange(from as int, i as int),
            decreases to - i,
        {
            push_char(&mut text, self.source[i]);
            i += 1;
            assert(text@ =~= self.source@.subrange(from as int, i as int));
        }
        text
    }

    /// The text of the token being scanned: from `start` to `current`.
    pub fn current_lexeme(&self) -> (lexeme: String)
        requires
            self.wf(),
        ensures
            lexeme@ == self.source@.subrange(self.start_index as int, self.index as int),
    {
        self.text_between(self.start_index, self.index)
    }

    /// The literal tag that belongs to a token category.
    pub fn get_literal_type(token_type: &TokenType) -> (literal: Literal)
        ensures
            literal == literal_of(*token_type),
    {
        match token_type {
            TokenType::Number => Literal::Number,
            TokenType::String => Literal::String,
            TokenType::True => Literal::Boolean,
            TokenType::False => Literal::Boolean,
            _ => Literal::Nil,
        }
    }

    /// Appends a token of the given category and text, placed at the
    /// current line and one column past the last character read.
    pub fn add_token(&mut self, token_type: TokenType, lexeme: String)
        requires
            old(self).wf(),
        ensures
            final(self).wf(),
            final(self).source == old(self).source,
            final(self).start == old(self).start,
            final(self).start_index == old(self).start_index,
            final(self).current == old(self).current,
            final(self).cursor() == old(self).cursor(),
            token_views(final(self).tokens@) == token_views(old(self).tokens@).push(
                make_token(token_type, lexeme@, old(self).cursor()),
            ),
    {
        let literal = Scanner::get_literal_type(&token_type);
        self.tokens.push(Token::new(token_type, lexeme, literal, self.line, self.column + 1));
        assert(token_views(final(self).tokens@) =~= token_views(old(self).tokens@).push(
            make_token(token_type, lexeme@, old(self).cursor()),
        ));
    }

    /// Reads the longest run of characters of `class`.
    pub fn advance_while(&mut self, class: CharClass)
        requires
            old(self).wf(),
        ensures
            final(self).wf(),
            final(self).same_token(old(self)),
            final(self).cursor() == skip_run(old(self).source@, old(self).cursor(), class),
            old(self).index <= final(self).index,
    {
        let ghost before = *self;
        loop
            invariant
                self.wf(),
                self.same_token(&before),
                self.line == before.line,
                before.index <= self.index,
                self.column - before.column == self.index - before.index,
                run_end(self.source@, self.index as int, class) == run_end(
                    before.source@,
                    before.index as int,
                    class,
                ),
            ensures
                self.wf(),
                self.same_token(&before),
                before.index <= self.index,
                self.cursor() == skip_run(before.source@, before.cursor(), class),
            decreases self.source@.len() - self.index,
        {
            if self.is_at_end() {
                break ;
            }
            if !is_in_class(class, self.source[self.index]) {
                break ;
            }
            self.advance();
        }
    }

    /// Reads the rest of a number whose first digit has been read.
    pub fn tokenize_number(&mut self) -> (kind: TokenType)
        requires
            old(self).wf(),
        ensures
            final(self).wf(),
            final(self).same_token(old(self)),
            kind == TokenType::Number,
            final(self).cursor() == number_rest(old(self).source@, old(self).cursor()),
            old(self).index <= final(self).index,
    {
        self.advance_while(CharClass::Digit);
        if self.match_char('.') {
            self.advance();
            self.advance_while(CharClass::Digit);
        }
        TokenType::Number
    }

    /// Whether the text of the token being scanned is `word`.
    pub fn lexeme_is(&self, word: &str) -> (same: bool)
        requires
            self.wf(),
        ensures
            same == (self.source@.subrange(self.start_index as int, self.index as int) == word@),
    {
        let ghost raw = self.source@.subrange(self.start_index as int, self.index as int);
        let n = word.unicode_len();
        if self.index - self.start_index != n {
            return false;
        }
        let mut i: usize = 0;
        while i < n
            invariant
                self.wf(),
                n == word@.len(),
                self.index - self.start_index == n,
                raw == self.source@.subrange(self.start_index as int, self.index as int),
                i <= n,
                forall|k: int| 0 <= k < i ==> raw[k] == word@[k],
            decreases n - i,
        {
            if self.source[self.start_index + i] != word.get_char(i) {
                assert(raw[i as int] != word@[i as int]);
                return false;
            }
            i += 1;
        }
        assert(raw =~= word@);
        true
    }

    /// Reads the rest of a word whose first character has been read, and
    /// tells its keyword, or `Identifier` where it is none.
    pub fn tokenize_identifier(&mut self) -> (kind: TokenType)
        requires
            old(self).wf(),
        ensures
            final(self).wf(),
            final(self).same_token(old(self)),
            final(self).cursor() == skip_run(old(self).source@, old(self).cursor(), CharClass::Word),
            kind == keyword_kind(
                final(self).source@.subrange(
                    final(self).start_index as int,
                    final(self).index as int,
                ),
            ),
            old(self).index <= final(self).index,
    {
        self.advance_while(CharClass::Word);
        if self.lexeme_is("var") {
            TokenType::Var
        } else if self.lexeme_is("fun") {
            TokenType::Fun
        } else if self.lexeme_is("return") {
            TokenType::Return
        } else if self.lexeme_is("if") {
            TokenType::If
        } else if self.lexeme_is("else") {
            TokenType::Else
        } else if self.lexeme_is("for") {
            TokenType::For
        } else if self.lexeme_is("while") {
            TokenType::While
        } else if self.lexeme_is("print") {
            TokenType::Print
        } else if self.lexeme_is("break") {
            TokenType::Break
        } else if self.lexeme_is("continue") {
            TokenType::Continue
        } else if self.lexeme_is("class") {
            TokenType::Class
        } else if self.lexeme_is("this") {
            TokenType::This
        } else if self.lexeme_is("true") {
            TokenType::True
        } else if self.lexeme_is("false") {
            TokenType::False
        } else if self.lexeme_is("nil") {
            TokenType::Nil
        } else if self.lexeme_is("or") {
            TokenType::Or
        } else if self.lexeme_is("and") {
            TokenType::And
        } else if self.lexeme_is("super") {
            TokenType::Super
        } else {
            TokenType::Identifier
        }
    }

    /// Reads a block comment up to and including its `*/`, counting the
    /// line breaks in it; tells whether the `*/` was found.
    pub fn skip_block_comment(&mut self) -> (closed: bool)
        requires
            old(self).wf(),
        ensures
            final(self).wf(),
            final(self).same_token(old(self)),
            (Span { cur: final(self).cursor(), closed }) == block_comment(
                old(self).source@,
                old(self).cursor(),
            ),
            old(self).index <= final(self).index,
    {
        let ghost before = *self;
        let mut closed = false;
        loop
            invariant_except_break
                !closed,
                block_comment(self.source@, self.cursor()) == block_comment(
                    before.source@,
                    before.cursor(),
                ),
            invariant
                self.wf(),
                self.same_token(&before),
                before.index <= self.index,
            ensures
                self.wf(),
                self.same_token(&before),
                before.index <= self.index,
                (Span { cur: self.cursor(), closed }) == block_comment(
                    before.source@,
                    before.cursor(),
                ),
            decreases self.source@.len() - self.index,
        {
            if self.is_at_end() {
                break ;
            }
            let c = self.source[self.index];
            if c == '*' && self.peek_next() == Some('/') {
                self.advance();
                self.advance();
                closed = true;
                break ;
            }
            self.advance();
            if c == '\n' {
                self.line += 1;
                self.column = 0;
            }
        }
        closed
    }

    /// Reads a string literal's body up to and including the closing
    /// `quote`, counting the line breaks in it; tells whether the closing
    /// quote was found.
    pub fn skip_string(&mut self, quote: char) -> (closed: bool)
        requires
            old(self).wf(),
        ensures
            final(self).wf(),
            final(self).same_token(old(self)),
            (Span { cur: final(self).cursor(), closed }) == string_body(
                old(self).source@,
                old(self).cursor(),
                quote,
            ),
            old(self).index <= final(self).index,
            closed ==> old(self).index < final(self).index,
    {
        let ghost before = *self;
        let mut closed = false;
        loop
            invariant_except_break
                !closed,
                string_body(self.source@, self.cursor(), quote) == string_body(
                    before.source@,
                    before.cursor(),
                    quote,
                ),
            invariant
                self.wf(),
                self.same_token(&before),
                before.index <= self.index,
            ensures
                self.wf(),
                self.same_token(&before),
                before.index <= self.index,
                closed ==> before.index < self.index,
                (Span { cur: self.cursor(), closed }) == string_body(
                    before.source@,
                    before.cursor(),
                    quote,
                ),
            decreases self.source@.len() - self.index,
        {
            if self.is_at_end() {
                break ;
            }
            let c = self.advance();
            if c == quote {
                closed = true;
                break ;
            }
            if c == '\n' {
                self.line += 1;
                self.column = 0;
            }
        }
        closed
    }

    /// The lexeme that a token of category `kind` gets from the text
    /// between `start` and `current`: a string without its quotes, a
    /// number normalized, anything else as it was read.
    pub fn lexeme_for(&self, kind: TokenType) -> (lexeme: String)
        requires
            self.wf(),
            kind == TokenType::String ==> self.index - self.start_index >= 2,
        ensures
            lexeme@ == lexeme_text(
                kind,
                self.source@.subrange(self.start_index as int, self.index as int),
            ),
    {
        let ghost raw = self.source@.subrange(self.start_index as int, self.index as int);
        if kind == TokenType::String {
            let inner = self.text_between(self.start_index + 1, self.index - 1);
            assert(inner@ =~= raw.subrange(1, raw.len() - 1));
            inner
        } else if kind == TokenType::Number {
            if self.start_index < self.index && self.source[self.index - 1] == '.' {
                let whole = self.text_between(self.start_index, self.index - 1);
                assert(whole@ =~= raw.drop_last());
                whole
            } else if self.start_index < self.index && self.source[self.start_index] == '.' {
                let mut padded = String::new();
                push_char(&mut padded, '0');
                let rest = self.current_lexeme();
                padded.append(rest.as_str());
                assert(padded@ =~= seq!['0'] + raw);
                padded
            } else {
                self.current_lexeme()
            }
        } else {
            self.current_lexeme()
        }
    }

    /// Whether the last token found so far reads `;`.
    pub fn after_semicolon(&self) -> (after: bool)
        ensures
            after == ends_with_semicolon(token_views(self.tokens@)),
    {
        let n = self.tokens.len();
        if n == 0 {
            return false;
        }
        let last = self.tokens[n - 1].lexeme.as_str();
        assert(token_views(self.tokens@).last().lexeme == last@);
        if last.unicode_len() != 1 {
            return false;
        }
        let same = last.get_char(0) == ';';
        assert(same == (last@ =~= seq![';']));
        same
    }

    /// Reads a one-character operator, or its two-character form where
    /// `=` follows the character already read.
    pub fn tokenize_operator(&mut self, one: TokenType, two: TokenType) -> (kind: TokenType)
        requires
            old(self).wf(),
        ensures
            final(self).wf(),
            final(self).same_token(old(self)),
            emit(final(self).cursor(), kind) == operator(
                old(self).source@,
                old(self).cursor(),
                one,
                two,
            ),
            old(self).index <= final(self).index,
    {
        if self.match_char('=') {
            self.advance();
            two
        } else {
            one
        }
    }

    /// Sets the error flag of `lox` and records the error diagnostic for
    /// `problem`, followed by the hint where the problem is a duplicate
    /// terminator.
    pub fn report_fault(&self, lox: &mut Lox, problem: Problem, snippet: String)
        requires
            self.wf(),
        ensures
            final(lox)@ == report(old(lox)@, problem, snippet@, self.cursor()),
    {
        let level = Log::Error(LoxError::CompileError(CompilerError::SyntaxError));
        lox.has_error = true;
        match problem {
            Problem::UnterminatedString(_) => {
                lox.log_language(level, problem, snippet, self.line - 1, self.column + 1);
            },
            Problem::UnexpectedCharacter(_) => {
                lox.log_language(level, problem, snippet, self.line, self.column + 1);
            },
            Problem::DuplicateTerminator => {
                lox.log_language(level, problem, snippet, self.line, self.column);
                lox.log_language(
                    Log::Info,
                    Problem::SingleTerminatorHint,
                    String::new(),
                    self.line,
                    self.column,
                );
            },
            _ => {
                lox.log_language(level, problem, snippet, self.line, self.column);
            },
        }
    }

    /// One step of the scan: reads one token, stretch of blank space or
    /// malformed construct, and appends the token or reports the error.
    pub fn scan_token(&mut self, lox: &mut Lox)
        requires
            old(self).wf(),
            old(self).index < old(self).source@.len(),
        ensures
            final(self).wf(),
            final(self).source == old(self).source,
            final(self).start_index == old(self).index,
            final(self).index > old(self).index,
            final(self).state(final(lox)) == scan_step(
                old(self).source@,
                old(self).state(old(lox)),
            ),
    {
        self.start = self.current;
        self.start_index = self.index;
        let ghost src = self.source@;
        let ghost begin = self.cursor();
        let after = self.after_semicolon();
        let c = self.advance();
        let token_type: Option<TokenType> = if c == '(' {
            Some(TokenType::LeftParen)
        } else if c == ')' {
            Some(TokenType::RightParen)
        } else if c == '{' {
            Some(TokenType::LeftBrace)
        } else if c == '}' {
            Some(TokenType::RightBrace)
        } else if c == '.' {
            if is_digit_char(peek_at_cursor(self)) {
                self.advance_while(CharClass::Digit);
                Some(TokenType::Number)
            } else {
                Some(TokenType::Dot)
            }
        } else if c == '-' {
            Some(TokenType::Minus)
        } else if c == '*' {
            Some(TokenType::Star)
        } else if c == '+' {
            Some(TokenType::Plus)
        } else if c == '%' {
            Some(TokenType::Modulus)
        } else if c == '/' {
            if self.match_char('/') {
                self.advance_while(CharClass::LineRest);
                Some(TokenType::Comment)
            } else if self.match_char('*') {
                if !self.skip_block_comment() {
                    self.report_fault(lox, Problem::UnterminatedComment, String::new());
                    None
                } else {
                    Some(TokenType::Comment)
                }
            } else {
                Some(TokenType::Divide)
            }
        } else if c == ';' {
            if self.match_char('\n') && after {
                let from = self.index;
                self.advance_while(CharClass::LineRest);
                let snippet = self.text_between(from, self.index);
                assert(snippet@ =~= src.subrange(begin.index, self.index as int).subrange(
                    1,
                    self.index - begin.index,
                ));
                self.report_fault(lox, Problem::DuplicateTerminator, snippet);
                None
            } else {
                Some(TokenType::Semicolon)
            }
        } else if c == ',' {
            Some(TokenType::Comma)
        } else if c == '!' {
            Some(self.tokenize_operator(TokenType::Bang, TokenType::BangEqual))
        } else if c == '=' {
            Some(self.tokenize_operator(TokenType::Equal, TokenType::EqualEqual))
        } else if c == '<' {
            Some(self.tokenize_operator(TokenType::Less, TokenType::LessEqual))
        } else if c == '>' {
            Some(self.tokenize_operator(TokenType::Greater, TokenType::GreaterEqual))
        } else if c == ' ' || c == '\r' || c == '\t' {
            None
        } else if c == '"' || c == '\'' || c == '`' {
            if self.skip_string(c) {
                Some(TokenType::String)
            } else {
                self.report_fault(lox, Problem::UnterminatedString(c), String::new());
                None
            }
        } else if c == '\n' {
            self.line += 1;
            self.column = 0;
            None
        } else if is_alpha_char(c) || c == '_' {
            Some(self.tokenize_identifier())
        } else if is_digit_char(c) {
            Some(self.tokenize_number())
        } else {
            self.report_fault(lox, Problem::UnexpectedCharacter(c), String::new());
            None
        };
        match token_type {
            Some(kind) => {
                if kind != TokenType::Comment {
                    let lexeme = self.lexeme_for(kind);
                    self.add_token(kind, lexeme);
                }
            },
            None => {},
        }
    }

    /// Scans the rest of the source: every token from the cursor on is
    /// appended in source order, every lexical error is reported to `lox`
    /// without stopping the scan, and the end-of-input token comes last.
    pub fn scan_tokens(&mut self, lox: &mut Lox)
        requires
            old(self).wf(),
        ensures
            final(self).wf(),
            final(self).source == old(self).source,
            final(self).index == final(self).source@.len(),
            final(self).state(final(lox)) == scan_all(
                old(self).source@,
                old(self).state(old(lox)),
            ),
            lacks(token_views(old(self).tokens@), TokenType::Eof) ==> {
                &&& final(self).tokens@.len() > old(self).tokens@.len()
                &&& final(self).tokens@.last().token_type == TokenType::Eof
                &&& lacks(token_views(final(self).tokens@).drop_last(), TokenType::Eof)
            },
            lacks(token_views(old(self).tokens@), TokenType::Comment) ==> lacks(
                token_views(final(self).tokens@),
                TokenType::Comment,
            ),
    {
        proof {
            if lacks(token_views(old(self).tokens@), TokenType::Eof) {
                lemma_single_eof(old(self).source@, old(self).state(old(lox)));
            }
            if lacks(token_views(old(self).tokens@), TokenType::Comment) {
                lemma_comments_are_left_out(old(self).source@, old(self).state(old(lox)));
            }
        }
        while !self.is_at_end()
            invariant
                self.wf(),
                self.source == old(self).source,
                scan_rest(self.source@, self.state(lox)) == scan_rest(
                    old(self).source@,
                    old(self).state(old(lox)),
                ),
            decreases self.source@.len() - self.index,
        {
            self.scan_token(lox);
        }
        self.add_token(TokenType::Eof, String::from_str("EOF"));
    }
}

/// The next unread character of `scanner`, or the nul character at the end.
pub fn peek_at_cursor(scanner: &Scanner) -> (next: char)
    requires
        scanner.wf(),
    ensures
        next == peek_at(scanner.source@, scanner.index as int),
{
    match scanner.peek() {
        Some(c) => c,
        None => '\0',
    }
}

} // verus!
