//! The driver-side record of a scan: the error flag and the diagnostics
//! that the scanner reported.

use crate::text::{decimal, push_char, push_decimal};
use vstd::prelude::*;
use vstd::string::StringExecFns;

verus! {

/// Errors that arise while a program is compiled.
#[derive(Clone, Copy, Debug, PartialEq, Eq, Structural)]
pub enum CompilerError {
    SyntaxError,
    UnexpectedToken,
    MissingToken,
    UnterminatedString,
    InvalidLiteral,
    TypeMismatch,
    UndefinedVariable,
    Redeclaration,
    InvalidAssignment,
    MissingSemicolon,
    InvalidFunctionCall,
    ParameterCountMismatch,
    DivisionByZero,
    InvalidReturn,
    UnexpectedEOF,
    DuplicateLabel,
    InvalidOperator,
    ConstantReassignment,
}

/// The two families of language errors.
#[derive(Clone, Copy, Debug, PartialEq, Eq, Structural)]
pub enum LoxError {
    CompileError(CompilerError),
    RuntimeError,
}

/// The severity of a diagnostic.
#[derive(Clone, Copy, Debug, PartialEq, Eq, Structural)]
pub enum Log {
    Error(LoxError),
    Info,
}

/// What a diagnostic of the scanner is about.
#[derive(Clone, Copy, Debug, PartialEq, Eq, Structural)]
pub enum Problem {
    /// The input ended inside a `/* ... */` comment.
    UnterminatedComment,
    /// The input ended inside a string literal opened by the given quote.
    UnterminatedString(char),
    /// A character that starts no token.
    UnexpectedCharacter(char),
    /// A statement terminator that directly repeats the previous one.
    DuplicateTerminator,
    /// The hint that follows a duplicate terminator.
    SingleTerminatorHint,
}

/// One report of the scanner: severity, subject, the offending rest of the
/// line (empty where the subject has none) and the position it refers to.
#[derive(Clone, Debug)]
pub struct Diagnostic {
    pub level: Log,
    pub problem: Problem,
    pub snippet: String,
    pub line: usize,
    pub column: usize,
}

/// The mathematical value of a [`Diagnostic`].
pub struct DiagnosticView {
    pub level: Log,
    pub problem: Problem,
    pub snippet: Seq<char>,
    pub line: int,
    pub column: int,
}

impl View for Diagnostic {
    type V = DiagnosticView;

    open spec fn view(&self) -> DiagnosticView {
        DiagnosticView {
            level: self.level,
            problem: self.problem,
            snippet: self.snippet@,
            line: self.line as int,
            column: self.column as int,
        }
    }
}

/// The message of a diagnostic about `problem`.
pub open spec fn message_text(problem: Problem, snippet: Seq<char>) -> Seq<char> {
    match problem {
        Problem::UnterminatedComment => "Unterminated multi-line comment"@,
        Problem::UnterminatedString(quote) => "Unexpected character: `"@.push(quote)
            + "` String must have pairs of `"@ + seq![quote, '`'],
        Problem::UnexpectedCharacter(c) => "Unexpected character: "@.push(c),
        Problem::DuplicateTerminator => "Expect ';' after expression. Found ';"@ + snippet
            + "' instead."@,
        Problem::SingleTerminatorHint =>
            "Please make sure the end of your expression is followed by a single semicolon."@,
    }
}

/// A position as text: the line, a colon, the column.
pub open spec fn position_text(line: int, column: int) -> Seq<char> {
    decimal(line as nat) + seq![':'] + decimal(column as nat)
}

impl Diagnostic {
    /// The message of this diagnostic.
    pub fn message(&self) -> (text: String)
        ensures
            text@ == message_text(self.problem, self.snippet@),
    {
        match self.problem {
            Problem::UnterminatedComment => String::from_str("Unterminated multi-line comment"),
            Problem::UnterminatedString(quote) => {
                let mut text = String::from_str("Unexpected character: `");
                push_char(&mut text, quote);
                text.append("` String must have pairs of `");
                push_char(&mut text, quote);
                push_char(&mut text, '`');
                assert(text@ =~= message_text(self.problem, self.snippet@));
                text
            },
            Problem::UnexpectedCharacter(c) => {
                let mut text = String::from_str("Unexpected character: ");
                push_char(&mut text, c);
                text
            },
            Problem::DuplicateTerminator => {
                let mut text = String::from_str("Expect ';' after expression. Found ';");
                text.append(self.snippet.as_str());
                text.append("' instead.");
                text
            },
            Problem::SingleTerminatorHint => String::from_str(
                "Please make sure the end of your expression is followed by a single semicolon.",
            ),
        }
    }

    /// The position of this diagnostic as text: the line, a colon, the
    /// column.
    pub fn position(&self) -> (text: String)
        ensures
            text@ == position_text(self.line as int, self.column as int),
    {
        let mut text = String::new();
        push_decimal(&mut text, self.line);
        push_char(&mut text, ':');
        push_decimal(&mut text, self.column);
        assert(text@ =~= position_text(self.line as int, self.column as int));
        text
    }
}

/// The views of a sequence of diagnostics, in order.
pub open spec fn diagnostic_views(diagnostics: Seq<Diagnostic>) -> Seq<DiagnosticView> {
    diagnostics.map_values(|d: Diagnostic| d@)
}

/// The severity under which every lexical error is reported.
pub open spec fn syntax_error() -> Log {
    Log::Error(LoxError::CompileError(CompilerError::SyntaxError))
}

/// The driver's side of a scan: whether any error was found, and every
/// diagnostic in the order in which it was reported.
pub struct Lox {
    pub has_error: bool,
    pub diagnostics: Vec<Diagnostic>,
}

/// The mathematical value of a [`Lox`].
pub struct LoxView {
    pub has_error: bool,
    pub diagnostics: Seq<DiagnosticView>,
}

impl View for Lox {
    type V = LoxView;

    open spec fn view(&self) -> LoxView {
        LoxView { has_error: self.has_error, diagnostics: diagnostic_views(self.diagnostics@) }
    }
}

impl Lox {
    /// A driver that has seen no error yet.
    pub fn new() -> (lox: Lox)
        ensures
            !lox@.has_error,
            lox@.diagnostics == Seq::<DiagnosticView>::empty(),
    {
        let lox = Lox { has_error: false, diagnostics: Vec::new() };
        assert(lox@.diagnostics =~= Seq::<DiagnosticView>::empty());
        lox
    }

    /// Records one diagnostic after those already reported; the error flag
    /// is left as it is.
    pub fn log_language(
        &mut self,
        level: Log,
        problem: Problem,
        snippet: String,
        line: usize,
        column: usize,
    )
        ensures
            final(self)@.has_error == old(self)@.has_error,
            final(self)@.diagnostics == old(self)@.diagnostics.push(
                (DiagnosticView {
                    level,
                    problem,
                    snippet: snippet@,
                    line: line as int,
                    column: column as int,
                }),
            ),
    {
        self.diagnostics.push(Diagnostic { level, problem, snippet, line, column });
        assert(final(self)@.diagnostics =~= old(self)@.diagnostics.push(
            (DiagnosticView {
                level,
                problem,
                snippet: snippet@,
                line: line as int,
                column: column as int,
            }),
        ));
    }
}

} // verus!
