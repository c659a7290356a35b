use lox_scanner::lox::{CompilerError, Diagnostic, Log, Lox, LoxError, Problem};
use lox_scanner::model::CharClass;
use lox_scanner::scanner::{
    is_alpha_char, is_digit_char, is_in_class, peek_at_cursor, Scanner,
};
use lox_scanner::utf8::{decode, utf8_width};
use lox_scanner::text::{digit_for, push_decimal};
use lox_scanner::token::{Literal, Token, TokenType};

fn scan(text: &str) -> (Vec<Token>, Lox) {
    let mut scanner = Scanner::new(text);
    let mut lox = Lox::new();
    scanner.scan_tokens(&mut lox);
    (scanner.tokens, lox)
}

fn kinds(tokens: &[Token]) -> Vec<TokenType> {
    tokens.iter().map(|t| t.token_type).collect()
}

fn lexemes(tokens: &[Token]) -> Vec<String> {
    tokens.iter().map(|t| t.lexeme.clone()).collect()
}

fn syntax_error() -> Log {
    Log::Error(LoxError::CompileError(CompilerError::SyntaxError))
}

fn check_diagnostic(d: &Diagnostic, level: Log, problem: Problem, snippet: &str, line: usize, column: usize) {
    assert_eq!(d.level, level);
    assert_eq!(d.problem, problem);
    assert_eq!(d.snippet, snippet);
    assert_eq!(d.line, line);
    assert_eq!(d.column, column);
}

#[test]
fn every_scan_ends_in_exactly_one_eof() {
    let inputs = [
        "",
        " ",
        "var x = 10;",
        "/* unterminated",
        "\"open",
        "@#$",
        "a\nb\nc",
        "eof EOF",
        ";\n;\n",
        "1.2.3",
        "// only a comment",
    ];
    for text in inputs {
        let (tokens, _) = scan(text);
        let count = tokens.iter().filter(|t| t.token_type == TokenType::Eof).count();
        assert_eq!(count, 1, "input {:?}", text);
        let last = tokens.last().unwrap();
        assert_eq!(last.token_type, TokenType::Eof);
        assert_eq!(last.lexeme, "EOF");
        assert_eq!(last.literal, Literal::Nil);
    }
}

#[test]
fn empty_input_gives_only_eof() {
    let (tokens, lox) = scan("");
    assert_eq!(tokens.len(), 1);
    assert_eq!(tokens[0].token_type, TokenType::Eof);
    assert_eq!(tokens[0].lexeme, "EOF");
    assert_eq!(tokens[0].line, 1);
    assert_eq!(tokens[0].column, 1);
    assert!(!lox.has_error);
    assert!(lox.diagnostics.is_empty());
}

#[test]
fn whitespace_does_not_change_the_tokens() {
    let (spread, _) = scan("a  \t\n  b");
    let (tight, _) = scan("a b");
    assert_eq!(kinds(&spread), vec![TokenType::Identifier, TokenType::Identifier, TokenType::Eof]);
    assert_eq!(kinds(&spread), kinds(&tight));
    assert_eq!(lexemes(&spread), vec!["a", "b", "EOF"]);
    assert_eq!(lexemes(&spread), lexemes(&tight));
    assert_eq!((tight[1].line, tight[1].column), (1, 4));
    assert_eq!((spread[1].line, spread[1].column), (2, 4));
}

#[test]
fn carriage_return_is_blank() {
    let (tokens, lox) = scan("a\r\nb");
    assert_eq!(lexemes(&tokens), vec!["a", "b", "EOF"]);
    assert!(!lox.has_error);
}

#[test]
fn identifier_takes_the_longest_run() {
    let (tokens, _) = scan("or_not");
    assert_eq!(kinds(&tokens), vec![TokenType::Identifier, TokenType::Eof]);
    assert_eq!(tokens[0].lexeme, "or_not");
    let (tokens, _) = scan("or");
    assert_eq!(kinds(&tokens), vec![TokenType::Or, TokenType::Eof]);
    let (tokens, _) = scan("_x9 variable printer");
    assert_eq!(
        kinds(&tokens),
        vec![TokenType::Identifier, TokenType::Identifier, TokenType::Identifier, TokenType::Eof]
    );
    assert_eq!(lexemes(&tokens), vec!["_x9", "variable", "printer", "EOF"]);
}

#[test]
fn every_keyword_is_recognised() {
    let (tokens, _) = scan(
        "var fun return if else for while print break continue class this true false nil or and super",
    );
    assert_eq!(
        kinds(&tokens),
        vec![
            TokenType::Var,
            TokenType::Fun,
            TokenType::Return,
            TokenType::If,
            TokenType::Else,
            TokenType::For,
            TokenType::While,
            TokenType::Print,
            TokenType::Break,
            TokenType::Continue,
            TokenType::Class,
            TokenType::This,
            TokenType::True,
            TokenType::False,
            TokenType::Nil,
            TokenType::Or,
            TokenType::And,
            TokenType::Super,
            TokenType::Eof,
        ]
    );
    assert_eq!(tokens[0].lexeme, "var");
    assert_eq!(tokens[17].lexeme, "super");
}

#[test]
fn keywords_are_case_sensitive() {
    let (tokens, _) = scan("Var TRUE nil_");
    assert_eq!(
        kinds(&tokens),
        vec![TokenType::Identifier, TokenType::Identifier, TokenType::Identifier, TokenType::Eof]
    );
}

#[test]
fn decimal_points_are_normalized() {
    let (tokens, _) = scan("3.");
    assert_eq!(kinds(&tokens), vec![TokenType::Number, TokenType::Eof]);
    assert_eq!(tokens[0].lexeme, "3");
    let (tokens, _) = scan(".5");
    assert_eq!(kinds(&tokens), vec![TokenType::Number, TokenType::Eof]);
    assert_eq!(tokens[0].lexeme, "0.5");
    let (tokens, _) = scan("3.14");
    assert_eq!(kinds(&tokens), vec![TokenType::Number, TokenType::Eof]);
    assert_eq!(tokens[0].lexeme, "3.14");
    assert_eq!(tokens[0].literal, Literal::Number);
}

#[test]
fn a_number_has_one_decimal_point() {
    let (tokens, _) = scan("1.2.3");
    assert_eq!(kinds(&tokens), vec![TokenType::Number, TokenType::Number, TokenType::Eof]);
    assert_eq!(lexemes(&tokens), vec!["1.2", "0.3", "EOF"]);
}

#[test]
fn a_lone_dot_is_a_dot() {
    let (tokens, _) = scan("a.b .");
    assert_eq!(
        kinds(&tokens),
        vec![
            TokenType::Identifier,
            TokenType::Dot,
            TokenType::Identifier,
            TokenType::Dot,
            TokenType::Eof
        ]
    );
}

#[test]
fn strings_lose_their_quotes() {
    let (tokens, lox) = scan("\"abc\"");
    assert_eq!(kinds(&tokens), vec![TokenType::String, TokenType::Eof]);
    assert_eq!(tokens[0].lexeme, "abc");
    assert_eq!(tokens[0].literal, Literal::String);
    assert!(!lox.has_error);
}

#[test]
fn unterminated_string_gives_no_token() {
    let (tokens, lox) = scan("\"abc");
    assert_eq!(kinds(&tokens), vec![TokenType::Eof]);
    assert!(lox.has_error);
    assert_eq!(lox.diagnostics.len(), 1);
    check_diagnostic(&lox.diagnostics[0], syntax_error(), Problem::UnterminatedString('"'), "", 0, 5);
}

#[test]
fn a_string_closes_on_its_own_quote() {
    let (tokens, lox) = scan("'a\"b' `c'd`");
    assert_eq!(kinds(&tokens), vec![TokenType::String, TokenType::String, TokenType::Eof]);
    assert_eq!(lexemes(&tokens), vec!["a\"b", "c'd", "EOF"]);
    assert!(!lox.has_error);
    let (tokens, lox) = scan("\"abc'");
    assert_eq!(kinds(&tokens), vec![TokenType::Eof]);
    assert!(lox.has_error);
}

#[test]
fn empty_string_literal() {
    let (tokens, _) = scan("\"\"");
    assert_eq!(kinds(&tokens), vec![TokenType::String, TokenType::Eof]);
    assert_eq!(tokens[0].lexeme, "");
}

#[test]
fn a_string_may_span_lines() {
    let (tokens, lox) = scan("\"a\nb\" c");
    assert_eq!(kinds(&tokens), vec![TokenType::String, TokenType::Identifier, TokenType::Eof]);
    assert_eq!(tokens[0].lexeme, "a\nb");
    assert_eq!((tokens[0].line, tokens[0].column), (2, 3));
    assert_eq!((tokens[1].line, tokens[1].column), (2, 5));
    assert!(!lox.has_error);
}

#[test]
fn two_character_operators_are_greedy() {
    let (tokens, _) = scan("!=");
    assert_eq!(kinds(&tokens), vec![TokenType::BangEqual, TokenType::Eof]);
    assert_eq!(tokens[0].lexeme, "!=");
    assert_eq!(tokens[0].column, 3);
    let (tokens, _) = scan("! = == <= < >= > !");
    assert_eq!(
        kinds(&tokens),
        vec![
            TokenType::Bang,
            TokenType::Equal,
            TokenType::EqualEqual,
            TokenType::LessEqual,
            TokenType::Less,
            TokenType::GreaterEqual,
            TokenType::Greater,
            TokenType::Bang,
            TokenType::Eof,
        ]
    );
    let (tokens, _) = scan("===");
    assert_eq!(kinds(&tokens), vec![TokenType::EqualEqual, TokenType::Equal, TokenType::Eof]);
}

#[test]
fn single_character_tokens() {
    let (tokens, lox) = scan("(){},.-+*/%;");
    assert_eq!(
        kinds(&tokens),
        vec![
            TokenType::LeftParen,
            TokenType::RightParen,
            TokenType::LeftBrace,
            TokenType::RightBrace,
            TokenType::Comma,
            TokenType::Dot,
            TokenType::Minus,
            TokenType::Plus,
            TokenType::Star,
            TokenType::Divide,
            TokenType::Modulus,
            TokenType::Semicolon,
            TokenType::Eof,
        ]
    );
    assert!(!lox.has_error);
}

#[test]
fn line_comments_are_left_out() {
    let (tokens, lox) = scan("x // comment\ny");
    assert_eq!(kinds(&tokens), vec![TokenType::Identifier, TokenType::Identifier, TokenType::Eof]);
    assert_eq!(lexemes(&tokens), vec!["x", "y", "EOF"]);
    assert_eq!(tokens[1].line, 2);
    assert!(!lox.has_error);
}

#[test]
fn a_line_comment_may_end_the_input() {
    let (tokens, lox) = scan("x // no line break");
    assert_eq!(lexemes(&tokens), vec!["x", "EOF"]);
    assert!(!lox.has_error);
}

#[test]
fn block_comments_are_left_out() {
    let (tokens, lox) = scan("a /* one\ntwo */ b");
    assert_eq!(lexemes(&tokens), vec!["a", "b", "EOF"]);
    assert_eq!((tokens[1].line, tokens[1].column), (2, 9));
    assert!(!lox.has_error);
    assert!(lox.diagnostics.is_empty());
}

#[test]
fn a_block_comment_may_end_the_input() {
    let (tokens, lox) = scan("a /* b */");
    assert_eq!(lexemes(&tokens), vec!["a", "EOF"]);
    assert!(!lox.has_error);
}

#[test]
fn line_and_column_are_tracked() {
    let (tokens, _) = scan("a\nb");
    assert_eq!((tokens[0].line, tokens[0].column), (1, 2));
    assert_eq!((tokens[1].line, tokens[1].column), (2, 2));
    assert_eq!((tokens[2].line, tokens[2].column), (2, 2));
}

#[test]
fn multi_byte_characters_keep_the_offsets() {
    let text = "\"h\u{e9}\u{4e16}\u{1f600}\" x";
    let mut scanner = Scanner::new(text);
    let mut lox = Lox::new();
    scanner.scan_tokens(&mut lox);
    assert_eq!(kinds(&scanner.tokens), vec![TokenType::String, TokenType::Identifier, TokenType::Eof]);
    assert_eq!(scanner.tokens[0].lexeme, "h\u{e9}\u{4e16}\u{1f600}");
    assert_eq!(scanner.tokens[1].lexeme, "x");
    assert_eq!(scanner.tokens[1].column, 9);
    assert_eq!(scanner.current, text.len());
    assert_eq!(scanner.current, 14);
    assert_eq!(scanner.index, 8);
    assert_eq!(scanner.start, 13);
    assert_eq!(&text[scanner.start..scanner.current], "x");
    assert!(!lox.has_error);
}

#[test]
fn a_multi_byte_character_outside_a_string_is_unexpected() {
    let (tokens, lox) = scan("a\u{e9}b");
    assert_eq!(lexemes(&tokens), vec!["a", "b", "EOF"]);
    assert!(lox.has_error);
    assert_eq!(lox.diagnostics.len(), 1);
    check_diagnostic(
        &lox.diagnostics[0],
        syntax_error(),
        Problem::UnexpectedCharacter('\u{e9}'),
        "",
        1,
        3,
    );
}

#[test]
fn scenario_variable_declaration() {
    let (tokens, lox) = scan("var x = 10;");
    assert_eq!(
        kinds(&tokens),
        vec![
            TokenType::Var,
            TokenType::Identifier,
            TokenType::Equal,
            TokenType::Number,
            TokenType::Semicolon,
            TokenType::Eof,
        ]
    );
    assert_eq!(lexemes(&tokens), vec!["var", "x", "=", "10", ";", "EOF"]);
    let columns: Vec<usize> = tokens.iter().map(|t| t.column).collect();
    assert_eq!(columns, vec![4, 6, 8, 11, 12, 12]);
    assert!(tokens.iter().all(|t| t.line == 1));
    assert!(!lox.has_error);
}

#[test]
fn scenario_if_statement() {
    let (tokens, lox) = scan("if (a >= b) { print a; }");
    assert_eq!(
        kinds(&tokens),
        vec![
            TokenType::If,
            TokenType::LeftParen,
            TokenType::Identifier,
            TokenType::GreaterEqual,
            TokenType::Identifier,
            TokenType::RightParen,
            TokenType::LeftBrace,
            TokenType::Print,
            TokenType::Identifier,
            TokenType::Semicolon,
            TokenType::RightBrace,
            TokenType::Eof,
        ]
    );
    assert_eq!(tokens[2].lexeme, "a");
    assert_eq!(tokens[3].lexeme, ">=");
    assert_eq!(tokens[4].lexeme, "b");
    assert_eq!(tokens[8].lexeme, "a");
    assert!(!lox.has_error);
}

#[test]
fn scenario_unterminated_comment() {
    let (tokens, lox) = scan("/* unterminated");
    assert_eq!(kinds(&tokens), vec![TokenType::Eof]);
    assert!(lox.has_error);
    assert_eq!(lox.diagnostics.len(), 1);
    check_diagnostic(&lox.diagnostics[0], syntax_error(), Problem::UnterminatedComment, "", 1, 15);
}

#[test]
fn scenario_unexpected_character() {
    let (tokens, lox) = scan("@");
    assert_eq!(kinds(&tokens), vec![TokenType::Eof]);
    assert!(lox.has_error);
    assert_eq!(lox.diagnostics.len(), 1);
    check_diagnostic(&lox.diagnostics[0], syntax_error(), Problem::UnexpectedCharacter('@'), "", 1, 2);
}

#[test]
fn the_scan_goes_on_after_an_error() {
    let (tokens, lox) = scan("a @ b # c");
    assert_eq!(lexemes(&tokens), vec!["a", "b", "c", "EOF"]);
    assert!(lox.has_error);
    assert_eq!(lox.diagnostics.len(), 2);
    assert_eq!(lox.diagnostics[0].problem, Problem::UnexpectedCharacter('@'));
    assert_eq!(lox.diagnostics[1].problem, Problem::UnexpectedCharacter('#'));
}

#[test]
fn an_earlier_error_does_not_spoil_a_string() {
    let (tokens, lox) = scan("@ \"ok\"");
    assert_eq!(kinds(&tokens), vec![TokenType::String, TokenType::Eof]);
    assert_eq!(tokens[0].lexeme, "ok");
    assert!(lox.has_error);
    assert_eq!(lox.diagnostics.len(), 1);
}

#[test]
fn duplicate_terminator_is_reported() {
    let (tokens, lox) = scan("a;\n;\nb");
    assert_eq!(
        kinds(&tokens),
        vec![TokenType::Identifier, TokenType::Semicolon, TokenType::Identifier, TokenType::Eof]
    );
    assert!(lox.has_error);
    assert_eq!(lox.diagnostics.len(), 2);
    check_diagnostic(&lox.diagnostics[0], syntax_error(), Problem::DuplicateTerminator, "", 2, 1);
    check_diagnostic(&lox.diagnostics[1], Log::Info, Problem::SingleTerminatorHint, "", 2, 1);
}

#[test]
fn a_semicolon_before_a_line_break_is_fine() {
    let (tokens, lox) = scan(";\na;\n");
    assert_eq!(
        kinds(&tokens),
        vec![TokenType::Semicolon, TokenType::Identifier, TokenType::Semicolon, TokenType::Eof]
    );
    assert!(!lox.has_error);
    let (tokens, lox) = scan(";;");
    assert_eq!(kinds(&tokens), vec![TokenType::Semicolon, TokenType::Semicolon, TokenType::Eof]);
    assert!(!lox.has_error);
}

#[test]
fn literal_tags_follow_the_category() {
    let (tokens, _) = scan("true false 1 'a' nil x");
    let tags: Vec<Literal> = tokens.iter().map(|t| t.literal).collect();
    assert_eq!(
        tags,
        vec![
            Literal::Boolean,
            Literal::Boolean,
            Literal::Number,
            Literal::String,
            Literal::Nil,
            Literal::Nil,
            Literal::Nil,
        ]
    );
    assert_eq!(Scanner::get_literal_type(&TokenType::Number), Literal::Number);
    assert_eq!(Scanner::get_literal_type(&TokenType::String), Literal::String);
    assert_eq!(Scanner::get_literal_type(&TokenType::True), Literal::Boolean);
    assert_eq!(Scanner::get_literal_type(&TokenType::False), Literal::Boolean);
    assert_eq!(Scanner::get_literal_type(&TokenType::Eof), Literal::Nil);
}

#[test]
fn cursor_primitives() {
    let mut scanner = Scanner::new("a\u{e9}=");
    assert!(!scanner.is_at_end());
    assert_eq!(scanner.peek(), Some('a'));
    assert_eq!(scanner.peek_next(), Some('\u{e9}'));
    assert!(scanner.match_char('a'));
    assert!(!scanner.match_char('b'));
    assert_eq!(scanner.current, 0);
    assert_eq!(scanner.advance(), 'a');
    assert_eq!((scanner.current, scanner.index, scanner.column), (1, 1, 1));
    assert_eq!(scanner.advance(), '\u{e9}');
    assert_eq!((scanner.current, scanner.index, scanner.column), (3, 2, 2));
    assert_eq!(scanner.current_lexeme(), "a\u{e9}");
    assert_eq!(scanner.peek(), Some('='));
    assert_eq!(scanner.peek_next(), Some('\0'));
    assert_eq!(scanner.advance(), '=');
    assert!(scanner.is_at_end());
    assert_eq!(scanner.peek(), Some('\0'));
    assert_eq!(scanner.peek_next(), Some('\0'));
    assert!(!scanner.match_char('\0'));
    assert_eq!(scanner.advance(), '\0');
    assert_eq!((scanner.current, scanner.index, scanner.column), (4, 3, 3));
    assert_eq!(scanner.line, 1);
}

#[test]
fn add_token_places_the_token_after_the_cursor() {
    let mut scanner = Scanner::new("ab");
    scanner.advance();
    scanner.advance();
    scanner.add_token(TokenType::Identifier, scanner.current_lexeme());
    assert_eq!(scanner.tokens.len(), 1);
    assert_eq!(scanner.tokens[0].token_type, TokenType::Identifier);
    assert_eq!(scanner.tokens[0].lexeme, "ab");
    assert_eq!(scanner.tokens[0].literal, Literal::Nil);
    assert_eq!((scanner.tokens[0].line, scanner.tokens[0].column), (1, 3));
}

#[test]
fn sub_tokenizers() {
    let mut scanner = Scanner::new("12.50+");
    scanner.advance();
    assert_eq!(scanner.tokenize_number(), TokenType::Number);
    assert_eq!(scanner.current_lexeme(), "12.50");
    assert_eq!(scanner.lexeme_for(TokenType::Number), "12.50");
    let mut scanner = Scanner::new("while_1 x");
    scanner.advance();
    assert_eq!(scanner.tokenize_identifier(), TokenType::Identifier);
    assert_eq!(scanner.current_lexeme(), "while_1");
    let mut scanner = Scanner::new("while(");
    scanner.advance();
    assert_eq!(scanner.tokenize_identifier(), TokenType::While);
    assert!(scanner.lexeme_is("while"));
    assert!(!scanner.lexeme_is("whale"));
    assert!(!scanner.lexeme_is("whil"));
}

#[test]
fn character_classes_and_widths() {
    assert_eq!(decode("a\u{e9}"), vec!['a', '\u{e9}']);
    assert_eq!(utf8_width('a'), 1);
    assert_eq!(utf8_width('\u{7f}'), 1);
    assert_eq!(utf8_width('\u{80}'), 2);
    assert_eq!(utf8_width('\u{7ff}'), 2);
    assert_eq!(utf8_width('\u{800}'), 3);
    assert_eq!(utf8_width('\u{ffff}'), 3);
    assert_eq!(utf8_width('\u{10000}'), 4);
    for c in ['a', '\u{e9}', '\u{4e16}', '\u{1f600}', '\0'] {
        assert_eq!(utf8_width(c), c.len_utf8());
    }
    assert!(is_digit_char('0') && is_digit_char('9') && !is_digit_char('a') && !is_digit_char('/'));
    assert!(is_alpha_char('a') && is_alpha_char('Z') && !is_alpha_char('_') && !is_alpha_char('\u{e9}'));
    assert!(is_in_class(CharClass::Word, '_') && !is_in_class(CharClass::Word, '-'));
    assert!(is_in_class(CharClass::Digit, '5') && !is_in_class(CharClass::Digit, 'x'));
    assert!(is_in_class(CharClass::LineRest, 'x') && !is_in_class(CharClass::LineRest, '\n'));
}

#[test]
fn the_driver_records_in_order() {
    let mut lox = Lox::new();
    assert!(!lox.has_error);
    lox.log_language(Log::Info, Problem::SingleTerminatorHint, String::new(), 3, 4);
    lox.log_language(syntax_error(), Problem::UnterminatedComment, String::from("x"), 5, 6);
    assert!(!lox.has_error);
    assert_eq!(lox.diagnostics.len(), 2);
    check_diagnostic(&lox.diagnostics[0], Log::Info, Problem::SingleTerminatorHint, "", 3, 4);
    check_diagnostic(&lox.diagnostics[1], syntax_error(), Problem::UnterminatedComment, "x", 5, 6);
}

#[test]
fn scanning_goes_on_from_the_cursor() {
    let mut scanner = Scanner::new("a b");
    let mut lox = Lox::new();
    scanner.scan_token(&mut lox);
    assert_eq!(scanner.tokens.len(), 1);
    assert_eq!((scanner.start, scanner.current), (0, 1));
    scanner.scan_token(&mut lox);
    assert_eq!(scanner.tokens.len(), 1);
    scanner.scan_tokens(&mut lox);
    assert_eq!(lexemes(&scanner.tokens), vec!["a", "b", "EOF"]);
}

#[test]
fn diagnostics_render_their_message_and_position() {
    let (_, lox) = scan("@");
    assert_eq!(lox.diagnostics[0].message(), "Unexpected character: @");
    assert_eq!(lox.diagnostics[0].position(), "1:2");
    let (_, lox) = scan("/* unterminated");
    assert_eq!(lox.diagnostics[0].message(), "Unterminated multi-line comment");
    assert_eq!(lox.diagnostics[0].position(), "1:15");
    let (_, lox) = scan("x\n'abc");
    assert_eq!(
        lox.diagnostics[0].message(),
        "Unexpected character: `'` String must have pairs of `'`"
    );
    assert_eq!(lox.diagnostics[0].position(), "1:5");
    let (_, lox) = scan("a;\n;\n");
    assert_eq!(lox.diagnostics[0].message(), "Expect ';' after expression. Found ';' instead.");
    assert_eq!(
        lox.diagnostics[1].message(),
        "Please make sure the end of your expression is followed by a single semicolon."
    );
    assert_eq!(lox.diagnostics[1].position(), "2:1");
}

#[test]
fn decimal_text_of_numbers() {
    for (n, expected) in [
        (0usize, "0"),
        (7, "7"),
        (10, "10"),
        (109, "109"),
        (1234567890, "1234567890"),
    ] {
        let mut text = String::from("n=");
        push_decimal(&mut text, n);
        assert_eq!(text, format!("n={}", expected));
    }
    let mut text = String::new();
    push_decimal(&mut text, usize::MAX);
    assert_eq!(text, usize::MAX.to_string());
    assert_eq!(digit_for(0), '0');
    assert_eq!(digit_for(9), '9');
}

#[test]
fn a_diagnostic_with_a_snippet_quotes_it() {
    let mut lox = Lox::new();
    lox.log_language(syntax_error(), Problem::DuplicateTerminator, String::from(" ;"), 12, 340);
    assert_eq!(lox.diagnostics[0].message(), "Expect ';' after expression. Found '; ;' instead.");
    assert_eq!(lox.diagnostics[0].position(), "12:340");
}

#[test]
fn token_new_keeps_its_parts() {
    let token = Token::new(TokenType::Number, String::from("0.5"), Literal::Number, 3, 9);
    assert_eq!(token.token_type, TokenType::Number);
    assert_eq!(token.lexeme, "0.5");
    assert_eq!(token.literal, Literal::Number);
    assert_eq!((token.line, token.column), (3, 9));
}

#[test]
fn helpers_of_the_scan() {
    let mut scanner = Scanner::new("ab  /* x\n*/ 'q\nr' <= ;");
    scanner.advance_while(CharClass::Word);
    assert_eq!(scanner.current_lexeme(), "ab");
    assert_eq!(scanner.text_between(1, 4), "b  ");
    scanner.advance_while(CharClass::Word);
    assert_eq!(scanner.index, 2);
    scanner.advance_while(CharClass::LineRest);
    assert_eq!(scanner.index, 8);
    let mut scanner = Scanner::new("x */ y");
    assert!(scanner.skip_block_comment());
    assert_eq!((scanner.index, scanner.line, scanner.column), (4, 1, 4));
    let mut scanner = Scanner::new("x\n* /");
    assert!(!scanner.skip_block_comment());
    assert_eq!((scanner.index, scanner.line, scanner.column), (5, 2, 3));
    let mut scanner = Scanner::new("q\nr' z");
    assert!(scanner.skip_string('\''));
    assert_eq!((scanner.index, scanner.line, scanner.column), (4, 2, 2));
    assert!(!scanner.skip_string('"'));
    assert!(scanner.is_at_end());
    let mut scanner = Scanner::new("<=<");
    scanner.advance();
    assert_eq!(scanner.tokenize_operator(TokenType::Less, TokenType::LessEqual), TokenType::LessEqual);
    assert_eq!(scanner.index, 2);
    scanner.advance();
    assert_eq!(scanner.tokenize_operator(TokenType::Less, TokenType::LessEqual), TokenType::Less);
    assert_eq!(scanner.index, 3);
    assert!(!scanner.after_semicolon());
    scanner.add_token(TokenType::Semicolon, String::from(";"));
    assert!(scanner.after_semicolon());
    scanner.add_token(TokenType::Identifier, String::from(";;"));
    assert!(!scanner.after_semicolon());
    assert_eq!(peek_at_cursor(&scanner), '\0');
    let mut lox = Lox::new();
    scanner.report_fault(&mut lox, Problem::UnexpectedCharacter('<'), String::new());
    assert!(lox.has_error);
    assert_eq!(lox.diagnostics.len(), 1);
    assert_eq!(lox.diagnostics[0].position(), "1:4");
}

#[test]
fn lexemes_by_category() {
    let mut scanner = Scanner::new("\"abc\"");
    while !scanner.is_at_end() {
        scanner.advance();
    }
    assert_eq!(scanner.lexeme_for(TokenType::String), "abc");
    assert_eq!(scanner.lexeme_for(TokenType::Identifier), "\"abc\"");
    let mut scanner = Scanner::new("42.");
    scanner.advance_while(CharClass::LineRest);
    assert_eq!(scanner.lexeme_for(TokenType::Number), "42");
    let mut scanner = Scanner::new(".25");
    scanner.advance_while(CharClass::LineRest);
    assert_eq!(scanner.lexeme_for(TokenType::Number), "0.25");
    assert_eq!(scanner.lexeme_for(TokenType::Dot), ".25");
}

#[test]
fn the_last_line_counts_every_line_break() {
    let text = "a\n/* b\nc */ 'd\ne' // f\n\n;";
    let breaks = text.chars().filter(|&c| c == '\n').count();
    let mut scanner = Scanner::new(text);
    let mut lox = Lox::new();
    scanner.scan_tokens(&mut lox);
    assert_eq!(breaks, 5);
    assert_eq!(scanner.line, 6);
    assert_eq!(scanner.tokens.last().unwrap().line, 6);
    assert_eq!(lexemes(&scanner.tokens), vec!["a", "d\ne", ";", "EOF"]);
    let lines: Vec<usize> = scanner.tokens.iter().map(|t| t.line).collect();
    assert_eq!(lines, vec![1, 4, 6, 6]);
    assert!(scanner.tokens.iter().all(|t| t.token_type != TokenType::Comment));
    assert!(!lox.has_error);
}

#[test]
fn a_slash_star_slash_is_a_whole_comment() {
    let (tokens, lox) = scan("a /*/ b");
    assert_eq!(lexemes(&tokens), vec!["a", "b", "EOF"]);
    assert!(!lox.has_error);
}
