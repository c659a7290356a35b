//! What holds of every scan, proved over the model.

use crate::lox::Problem;
use crate::model::{
    block_comment, in_class, is_alpha, is_digit, is_quote, is_word_char, keyword_kind, peek_at,
    run_end, scan_all, scan_rest, scan_step, skip_run, step_char, step_newline, string_body,
    CharClass, Cursor, ScanState,
};
use crate::scanner::Scanner;
use crate::utf8::{lemma_byte_len_between, lemma_byte_len_is_encoding, lemma_byte_len_prefix};
use crate::token::{TokenType, TokenView};
use vstd::prelude::*;
use vstd::utf8::encode_utf8;

verus! {

/// No token of the sequence is of category `kind`.
pub open spec fn lacks(tokens: Seq<TokenView>, kind: TokenType) -> bool {
    forall|i: int| 0 <= i < tokens.len() ==> (#[trigger] tokens[i]).kind != kind
}

/// A run ends inside the text, every character of it belongs to the
/// class, and the character after it, if there is one, does not: the run
/// is the longest there is.
pub proof fn lemma_run_is_maximal(src: Seq<char>, i: int, class: CharClass)
    requires
        0 <= i <= src.len(),
    ensures
        i <= run_end(src, i, class) <= src.len(),
        forall|k: int| i <= k < run_end(src, i, class) ==> in_class(class, #[trigger] src[k]),
        run_end(src, i, class) < src.len() ==> !in_class(class, src[run_end(src, i, class)]),
    decreases src.len() - i,
{
    if i < src.len() && in_class(class, src[i]) {
        lemma_run_is_maximal(src, i + 1, class);
    }
}

/// A block comment ends inside the text and not before the cursor.
pub proof fn lemma_block_comment_bounds(src: Seq<char>, cur: Cursor)
    requires
        0 <= cur.index <= src.len(),
    ensures
        cur.index <= block_comment(src, cur).cur.index <= src.len(),
        !block_comment(src, cur).closed ==> block_comment(src, cur).cur.index == src.len(),
    decreases src.len() - cur.index,
{
    if cur.index < src.len() {
        if src[cur.index] == '*' && cur.index + 1 < src.len() && src[cur.index + 1] == '/' {
        } else if src[cur.index] == '\n' {
            lemma_block_comment_bounds(
                src,
                Cursor { index: cur.index + 1, line: cur.line + 1, column: 0 },
            );
        } else {
            lemma_block_comment_bounds(src, step_char(cur));
        }
    }
}

/// A string literal ends inside the text and not before the cursor.
pub proof fn lemma_string_body_bounds(src: Seq<char>, cur: Cursor, quote: char)
    requires
        0 <= cur.index <= src.len(),
    ensures
        cur.index <= string_body(src, cur, quote).cur.index <= src.len(),
        !string_body(src, cur, quote).closed ==> string_body(src, cur, quote).cur.index
            == src.len(),
    decreases src.len() - cur.index,
{
    if cur.index < src.len() {
        if src[cur.index] == quote {
        } else if src[cur.index] == '\n' {
            lemma_string_body_bounds(
                src,
                Cursor { index: cur.index + 1, line: cur.line + 1, column: 0 },
                quote,
            );
        } else {
            lemma_string_body_bounds(src, step_char(cur), quote);
        }
    }
}

/// Every step reads at least one character and stays inside the text, so
/// a scan never stops before the end of the text and never runs past it.
pub proof fn lemma_step_advances(src: Seq<char>, st: ScanState)
    requires
        0 <= st.cur.index < src.len(),
    ensures
        st.cur.index < scan_step(src, st).cur.index <= src.len(),
{
    let cur = step_char(st.cur);
    lemma_run_is_maximal(src, cur.index, CharClass::Digit);
    lemma_run_is_maximal(src, cur.index, CharClass::Word);
    lemma_run_is_maximal(src, cur.index, CharClass::LineRest);
    lemma_block_comment_bounds(src, cur);
    lemma_string_body_bounds(src, cur, src[st.cur.index]);
    let whole = skip_run(src, cur, CharClass::Digit);
    if whole.index < src.len() {
        lemma_run_is_maximal(src, whole.index + 1, CharClass::Digit);
    }
}

/// A step keeps the tokens found before it, in order, and adds at most
/// one token, which is neither a comment nor the end-of-input token.
pub proof fn lemma_step_appends(src: Seq<char>, st: ScanState)
    requires
        0 <= st.cur.index < src.len(),
    ensures
        scan_step(src, st).tokens == st.tokens || (scan_step(src, st).tokens.len()
            == st.tokens.len() + 1 && scan_step(src, st).tokens.drop_last() == st.tokens
            && scan_step(src, st).tokens.last().kind != TokenType::Eof && scan_step(
            src,
            st,
        ).tokens.last().kind != TokenType::Comment),
{
    let next = scan_step(src, st);
    if next.tokens != st.tokens {
        assert(next.tokens.drop_last() =~= st.tokens);
    }
}

/// The steps of a scan keep the tokens found before them and add neither
/// a comment nor an end-of-input token.
pub proof fn lemma_rest_keeps_out(src: Seq<char>, st: ScanState, kind: TokenType)
    requires
        kind == TokenType::Eof || kind == TokenType::Comment,
        lacks(st.tokens, kind),
    ensures
        lacks(scan_rest(src, st).tokens, kind),
        scan_rest(src, st).tokens.len() >= st.tokens.len(),
        scan_rest(src, st).tokens.take(st.tokens.len() as int) == st.tokens,
    decreases src.len() - st.cur.index,
{
    if 0 <= st.cur.index < src.len() {
        let next = scan_step(src, st);
        lemma_step_appends(src, st);
        lemma_step_advances(src, st);
        assert forall|i: int| 0 <= i < st.tokens.len() implies next.tokens[i]
            == st.tokens[i] by {
            if next.tokens != st.tokens {
                assert(next.tokens.drop_last()[i] == st.tokens[i]);
            }
        }
        assert(lacks(next.tokens, kind));
        lemma_rest_keeps_out(src, next, kind);
        let end = scan_rest(src, next);
        assert(end.tokens.take(st.tokens.len() as int) =~= st.tokens) by {
            assert forall|i: int| 0 <= i < st.tokens.len() implies end.tokens[i]
                == st.tokens[i] by {
                assert(end.tokens.take(next.tokens.len() as int)[i] == next.tokens[i]);
            }
        }
    } else {
        assert(st.tokens.take(st.tokens.len() as int) =~= st.tokens);
    }
}

/// A whole scan that starts without an end-of-input token ends with
/// exactly one: it is the last token, and no token before it is one.  The
/// tokens found before the scan stay where they were.
pub proof fn lemma_single_eof(src: Seq<char>, st: ScanState)
    requires
        lacks(st.tokens, TokenType::Eof),
    ensures
        scan_all(src, st).tokens.len() > st.tokens.len(),
        scan_all(src, st).tokens.last().kind == TokenType::Eof,
        scan_all(src, st).tokens.last().lexeme == "EOF"@,
        lacks(scan_all(src, st).tokens.drop_last(), TokenType::Eof),
        scan_all(src, st).tokens.take(st.tokens.len() as int) == st.tokens,
{
    lemma_rest_keeps_out(src, st, TokenType::Eof);
    let end = scan_rest(src, st);
    let all = scan_all(src, st).tokens;
    assert(all.drop_last() =~= end.tokens);
    assert(all.take(st.tokens.len() as int) =~= end.tokens.take(st.tokens.len() as int));
}

/// Comments never reach the tokens: a whole scan that starts without a
/// comment token ends without one.
pub proof fn lemma_comments_are_left_out(src: Seq<char>, st: ScanState)
    requires
        lacks(st.tokens, TokenType::Comment),
    ensures
        lacks(scan_all(src, st).tokens, TokenType::Comment),
{
    lemma_rest_keeps_out(src, st, TokenType::Comment);
}

/// A step over blank space (a space, a tab, a carriage return or a line
/// break) reads that one character and changes nothing but the cursor.
pub proof fn lemma_blank_changes_only_cursor(src: Seq<char>, st: ScanState)
    requires
        0 <= st.cur.index < src.len(),
        src[st.cur.index] == ' ' || src[st.cur.index] == '\t' || src[st.cur.index] == '\r'
            || src[st.cur.index] == '\n',
    ensures
        scan_step(src, st).tokens == st.tokens,
        scan_step(src, st).lox == st.lox,
        scan_step(src, st).cur.index == st.cur.index + 1,
        src[st.cur.index] == '\n' ==> scan_step(src, st).cur.line == st.cur.line + 1
            && scan_step(src, st).cur.column == 0,
        src[st.cur.index] != '\n' ==> scan_step(src, st).cur.line == st.cur.line
            && scan_step(src, st).cur.column == st.cur.column + 1,
{
}

/// A word is read to the end of the longest run of word characters: the
/// token's text is that whole run, its category is decided by the whole
/// run, and the character after it, if there is one, is no word character.
pub proof fn lemma_word_takes_longest_run(src: Seq<char>, st: ScanState)
    requires
        0 <= st.cur.index < src.len(),
        is_alpha(src[st.cur.index]) || src[st.cur.index] == '_',
    ensures
        ({
            let end = run_end(src, st.cur.index, CharClass::Word);
            let word = src.subrange(st.cur.index, end);
            let next = scan_step(src, st);
            &&& st.cur.index < end <= src.len()
            &&& end < src.len() ==> !is_word_char(src[end])
            &&& forall|k: int| st.cur.index <= k < end ==> is_word_char(#[trigger] src[k])
            &&& next.cur.index == end
            &&& next.lox == st.lox
            &&& next.tokens.len() == st.tokens.len() + 1
            &&& next.tokens.drop_last() == st.tokens
            &&& next.tokens.last().lexeme == word
            &&& next.tokens.last().kind == keyword_kind(word)
        }),
{
    lemma_run_is_maximal(src, st.cur.index, CharClass::Word);
    let next = scan_step(src, st);
    assert(next.tokens.drop_last() =~= st.tokens);
}

/// An operator character that is followed by `=` is read together with
/// it as one token of the two-character category.
pub proof fn lemma_operator_is_greedy(src: Seq<char>, st: ScanState)
    requires
        0 <= st.cur.index < src.len() - 1,
        src[st.cur.index] == '!' || src[st.cur.index] == '=' || src[st.cur.index] == '<'
            || src[st.cur.index] == '>',
        src[st.cur.index + 1] == '=',
    ensures
        ({
            let c = src[st.cur.index];
            let next = scan_step(src, st);
            &&& next.cur.index == st.cur.index + 2
            &&& next.lox == st.lox
            &&& next.tokens.len() == st.tokens.len() + 1
            &&& next.tokens.drop_last() == st.tokens
            &&& next.tokens.last().lexeme == seq![c, '=']
            &&& next.tokens.last().kind == if c == '!' {
                TokenType::BangEqual
            } else if c == '=' {
                TokenType::EqualEqual
            } else if c == '<' {
                TokenType::LessEqual
            } else {
                TokenType::GreaterEqual
            }
        }),
{
    let next = scan_step(src, st);
    assert(next.tokens.drop_last() =~= st.tokens);
    assert(src.subrange(st.cur.index, st.cur.index + 2) =~= seq![src[st.cur.index], '=']);
}

/// The byte offsets of a well-formed scanner are the lengths of the UTF-8
/// encodings of the characters before its two positions, so a character
/// of any width moves the offsets by exactly its encoded width.
pub proof fn lemma_offsets_follow_encoding(scanner: Scanner)
    requires
        scanner.wf(),
    ensures
        scanner.start == encode_utf8(scanner.source@.take(scanner.start_index as int)).len(),
        scanner.current == encode_utf8(scanner.source@.take(scanner.index as int)).len(),
        scanner.start <= scanner.current <= encode_utf8(scanner.source@).len(),
{
    lemma_byte_len_is_encoding(scanner.source@.take(scanner.start_index as int));
    lemma_byte_len_is_encoding(scanner.source@.take(scanner.index as int));
    lemma_byte_len_is_encoding(scanner.source@);
    lemma_byte_len_prefix(scanner.source@, scanner.index as int);
    lemma_byte_len_between(scanner.source@, scanner.start_index as int, scanner.index as int);
}

/// Where a string literal closes, its last character is the first
/// `quote` at or after the cursor; where it does not, there is none.
pub proof fn lemma_string_body_closes(src: Seq<char>, cur: Cursor, quote: char)
    requires
        0 <= cur.index <= src.len(),
    ensures
        ({
            let span = string_body(src, cur, quote);
            &&& span.closed ==> cur.index < span.cur.index <= src.len() && src[span.cur.index - 1]
                == quote
            &&& span.closed ==> forall|k: int|
                cur.index <= k < span.cur.index - 1 ==> #[trigger] src[k] != quote
            &&& !span.closed ==> forall|k: int|
                cur.index <= k < src.len() ==> #[trigger] src[k] != quote
        }),
    decreases src.len() - cur.index,
{
    if cur.index < src.len() {
        if src[cur.index] == quote {
        } else if src[cur.index] == '\n' {
            lemma_string_body_closes(src, step_newline(cur), quote);
        } else {
            lemma_string_body_closes(src, step_char(cur), quote);
        }
    }
}

/// A string literal becomes one token whose text is what stands between
/// the opening quote and the next quote of the same kind; where no such
/// quote follows, no token is added, the rest of the input is read, and
/// the error is reported.
pub proof fn lemma_string_is_dequoted(src: Seq<char>, st: ScanState)
    requires
        0 <= st.cur.index < src.len(),
        is_quote(src[st.cur.index]),
    ensures
        ({
            let quote = src[st.cur.index];
            let next = scan_step(src, st);
            let end = next.cur.index;
            if exists|k: int| st.cur.index < k < src.len() && src[k] == quote {
                &&& st.cur.index + 2 <= end <= src.len()
                &&& src[end - 1] == quote
                &&& forall|k: int| st.cur.index < k < end - 1 ==> #[trigger] src[k] != quote
                &&& next.lox == st.lox
                &&& next.tokens.len() == st.tokens.len() + 1
                &&& next.tokens.drop_last() == st.tokens
                &&& next.tokens.last().kind == TokenType::String
                &&& next.tokens.last().lexeme == src.subrange(st.cur.index + 1, end - 1)
            } else {
                &&& end == src.len()
                &&& next.tokens == st.tokens
                &&& next.lox.has_error
                &&& next.lox.diagnostics.len() == st.lox.diagnostics.len() + 1
                &&& next.lox.diagnostics.last().problem == Problem::UnterminatedString(quote)
            }
        }),
{
    let quote = src[st.cur.index];
    let cur = step_char(st.cur);
    lemma_string_body_closes(src, cur, quote);
    lemma_string_body_bounds(src, cur, quote);
    let span = string_body(src, cur, quote);
    let next = scan_step(src, st);
    if span.closed {
        assert(src[span.cur.index - 1] == quote);
        assert(next.tokens.drop_last() =~= st.tokens);
        let raw = src.subrange(st.cur.index, span.cur.index);
        assert(raw.subrange(1, raw.len() - 1) =~= src.subrange(
            st.cur.index + 1,
            span.cur.index - 1,
        ));
    }
}

/// The number of line breaks in a text.
pub open spec fn newlines(text: Seq<char>) -> nat
    decreases text.len(),
{
    if text.len() == 0 {
        0
    } else {
        newlines(text.drop_last()) + if text.last() == '\n' {
            1nat
        } else {
            0nat
        }
    }
}

/// The line breaks of a stretch of text are those of its two parts.
pub proof fn lemma_newlines_split(src: Seq<char>, a: int, b: int, c: int)
    requires
        0 <= a <= b <= c <= src.len(),
    ensures
        newlines(src.subrange(a, c)) == newlines(src.subrange(a, b)) + newlines(
            src.subrange(b, c),
        ),
    decreases c - b,
{
    if b < c {
        lemma_newlines_split(src, a, b, c - 1);
        assert(src.subrange(a, c).drop_last() =~= src.subrange(a, c - 1));
        assert(src.subrange(b, c).drop_last() =~= src.subrange(b, c - 1));
    } else {
        assert(src.subrange(b, c) =~= Seq::<char>::empty());
    }
}

/// The line breaks of a stretch of text are that of its first character
/// and those of the rest.
pub proof fn lemma_newlines_first(src: Seq<char>, a: int, c: int)
    requires
        0 <= a < c <= src.len(),
    ensures
        newlines(src.subrange(a, c)) == newlines(src.subrange(a + 1, c)) + if src[a] == '\n' {
            1nat
        } else {
            0nat
        },
{
    lemma_newlines_split(src, a, a + 1, c);
    assert(src.subrange(a, a + 1).drop_last() =~= Seq::<char>::empty());
    assert(newlines(src.subrange(a, a + 1).drop_last()) == 0);
}

/// A run of digits, of word characters or of the rest of a line holds no
/// line break.
pub proof fn lemma_run_has_no_newline(src: Seq<char>, i: int, class: CharClass)
    requires
        0 <= i <= src.len(),
    ensures
        i <= run_end(src, i, class) <= src.len(),
        newlines(src.subrange(i, run_end(src, i, class))) == 0,
    decreases src.len() - i,
{
    lemma_run_is_maximal(src, i, class);
    if i < src.len() && in_class(class, src[i]) {
        lemma_run_has_no_newline(src, i + 1, class);
        lemma_newlines_first(src, i, run_end(src, i, class));
    } else {
        assert(src.subrange(i, i) =~= Seq::<char>::empty());
    }
}

/// A block comment moves the line counter by the line breaks in it.
pub proof fn lemma_block_comment_lines(src: Seq<char>, cur: Cursor)
    requires
        0 <= cur.index <= src.len(),
    ensures
        cur.index <= block_comment(src, cur).cur.index <= src.len(),
        block_comment(src, cur).cur.line == cur.line + newlines(
            src.subrange(cur.index, block_comment(src, cur).cur.index),
        ),
    decreases src.len() - cur.index,
{
    lemma_block_comment_bounds(src, cur);
    let end = block_comment(src, cur).cur.index;
    if cur.index < src.len() {
        if src[cur.index] == '*' && peek_at(src, cur.index + 1) == '/' {
            lemma_newlines_first(src, cur.index, end);
            lemma_newlines_first(src, cur.index + 1, end);
            assert(src.subrange(cur.index + 2, end) =~= Seq::<char>::empty());
        } else if src[cur.index] == '\n' {
            lemma_block_comment_lines(src, step_newline(cur));
            lemma_newlines_first(src, cur.index, end);
        } else {
            lemma_block_comment_lines(src, step_char(cur));
            lemma_newlines_first(src, cur.index, end);
        }
    } else {
        assert(src.subrange(cur.index, end) =~= Seq::<char>::empty());
    }
}

/// A string literal moves the line counter by the line breaks in it.
pub proof fn lemma_string_body_lines(src: Seq<char>, cur: Cursor, quote: char)
    requires
        0 <= cur.index <= src.len(),
        quote != '\n',
    ensures
        cur.index <= string_body(src, cur, quote).cur.index <= src.len(),
        string_body(src, cur, quote).cur.line == cur.line + newlines(
            src.subrange(cur.index, string_body(src, cur, quote).cur.index),
        ),
    decreases src.len() - cur.index,
{
    lemma_string_body_bounds(src, cur, quote);
    let end = string_body(src, cur, quote).cur.index;
    if cur.index < src.len() {
        if src[cur.index] == quote {
            lemma_newlines_first(src, cur.index, end);
            assert(src.subrange(cur.index + 1, end) =~= Seq::<char>::empty());
        } else if src[cur.index] == '\n' {
            lemma_string_body_lines(src, step_newline(cur), quote);
            lemma_newlines_first(src, cur.index, end);
        } else {
            lemma_string_body_lines(src, step_char(cur), quote);
            lemma_newlines_first(src, cur.index, end);
        }
    } else {
        assert(src.subrange(cur.index, end) =~= Seq::<char>::empty());
    }
}

/// Every step moves the line counter by the line breaks in what it read,
/// wherever they stand: alone, in a comment or in a string literal.
pub proof fn lemma_step_counts_lines(src: Seq<char>, st: ScanState)
    requires
        0 <= st.cur.index < src.len(),
    ensures
        st.cur.index < scan_step(src, st).cur.index <= src.len(),
        scan_step(src, st).cur.line == st.cur.line + newlines(
            src.subrange(st.cur.index, scan_step(src, st).cur.index),
        ),
{
    lemma_step_advances(src, st);
    let c = src[st.cur.index];
    let cur = step_char(st.cur);
    let end = scan_step(src, st).cur.index;
    lemma_newlines_first(src, st.cur.index, end);
    lemma_run_has_no_newline(src, cur.index, CharClass::Digit);
    lemma_run_has_no_newline(src, cur.index, CharClass::Word);
    lemma_run_has_no_newline(src, cur.index, CharClass::LineRest);
    lemma_block_comment_lines(src, cur);
    if is_quote(c) {
        lemma_string_body_lines(src, cur, c);
    }
    if c == '\n' || cur.index == end {
        assert(src.subrange(cur.index, end) =~= Seq::<char>::empty());
    }
    if is_digit(c) {
        let whole = skip_run(src, cur, CharClass::Digit);
        if peek_at(src, whole.index) == '.' {
            lemma_run_has_no_newline(src, whole.index + 1, CharClass::Digit);
            lemma_newlines_split(src, cur.index, whole.index, end);
            lemma_newlines_first(src, whole.index, end);
        }
    }
    if (c == '!' || c == '=' || c == '<' || c == '>') && peek_at(src, cur.index) == '=' {
        lemma_newlines_first(src, cur.index, end);
        assert(src.subrange(cur.index + 1, end) =~= Seq::<char>::empty());
    }
}

/// A scan moves the line counter by the line breaks in the text it read:
/// from the start of a text, the last line is one more than the number
/// of line breaks in the text.
pub proof fn lemma_scan_counts_lines(src: Seq<char>, st: ScanState)
    requires
        0 <= st.cur.index <= src.len(),
    ensures
        scan_rest(src, st).cur.index == src.len(),
        scan_rest(src, st).cur.line == st.cur.line + newlines(
            src.subrange(st.cur.index, src.len() as int),
        ),
    decreases src.len() - st.cur.index,
{
    if st.cur.index < src.len() {
        let next = scan_step(src, st);
        lemma_step_counts_lines(src, st);
        lemma_scan_counts_lines(src, next);
        lemma_newlines_split(src, st.cur.index, next.cur.index, src.len() as int);
    } else {
        assert(src.subrange(st.cur.index, src.len() as int) =~= Seq::<char>::empty());
    }
}

/// A number becomes one token whose text starts and ends with a digit:
/// a decimal point at the end of what was read is dropped, and one at its
/// start gets a zero in front; anything else is kept as it was read.
pub proof fn lemma_number_is_normalized(src: Seq<char>, st: ScanState)
    requires
        0 <= st.cur.index < src.len(),
        is_digit(src[st.cur.index]) || (src[st.cur.index] == '.' && is_digit(
            peek_at(src, st.cur.index + 1),
        )),
    ensures
        ({
            let next = scan_step(src, st);
            let raw = src.subrange(st.cur.index, next.cur.index);
            let text = next.tokens.last().lexeme;
            &&& next.lox == st.lox
            &&& next.tokens.len() == st.tokens.len() + 1
            &&& next.tokens.drop_last() == st.tokens
            &&& next.tokens.last().kind == TokenType::Number
            &&& text.len() > 0
            &&& is_digit(text[0])
            &&& is_digit(text.last())
            &&& raw.last() == '.' ==> text == raw.drop_last()
            &&& raw[0] == '.' ==> text == seq!['0'] + raw
            &&& raw[0] != '.' && raw.last() != '.' ==> text == raw
        }),
{
    let start = st.cur.index;
    let next = scan_step(src, st);
    let end = next.cur.index;
    let raw = src.subrange(start, end);
    lemma_step_advances(src, st);
    assert(next.tokens.drop_last() =~= st.tokens);
    lemma_run_is_maximal(src, start + 1, CharClass::Digit);
    let whole = run_end(src, start + 1, CharClass::Digit);
    if src[start] == '.' {
        assert(whole > start + 1);
        assert(raw.last() == src[end - 1]);
    } else if peek_at(src, whole) == '.' {
        lemma_run_is_maximal(src, whole + 1, CharClass::Digit);
        assert(raw.last() == src[end - 1]);
        if end == whole + 1 {
            assert(raw.drop_last().last() == src[whole - 1]);
        }
    } else {
        assert(raw.last() == src[end - 1]);
    }
}

} // verus!
