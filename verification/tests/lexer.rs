use teenytiny::error::CompileError;
use teenytiny::lex::Lexer;
use teenytiny::token::{Token, TokenType};

fn kinds(source: &str) -> Vec<TokenType> {
    let mut lexer = Lexer::new(source);
    let mut out = Vec::new();
    loop {
        let token = lexer.get_token().unwrap();
        out.push(token.kind);
        if token.kind == TokenType::Eof {
            return out;
        }
    }
}

fn texts(source: &str) -> Vec<String> {
    let mut lexer = Lexer::new(source);
    let mut out = Vec::new();
    loop {
        let token = lexer.get_token().unwrap();
        if token.kind == TokenType::Eof {
            return out;
        }
        out.push(token.text);
    }
}

fn first_error(source: &str) -> CompileError {
    let mut lexer = Lexer::new(source);
    loop {
        match lexer.get_token() {
            Ok(token) => assert_ne!(token.kind, TokenType::Eof, "no error in {:?}", source),
            Err(e) => return e,
        }
    }
}

#[test]
fn new_appends_one_newline() {
    let lexer = Lexer::new("LET");
    assert_eq!(lexer.source, "LET\n");
    assert_eq!(lexer.cur_pos, 0);
    assert_eq!(lexer.cur_char, 'L');
}

#[test]
fn new_on_empty_text_stands_at_the_newline() {
    let lexer = Lexer::new("");
    assert_eq!(lexer.source, "\n");
    assert_eq!(lexer.cur_char, '\n');
}

#[test]
fn next_char_and_peek_walk_the_text() {
    let mut lexer = Lexer::new("ab");
    assert_eq!(lexer.peek(), 'b');
    lexer.next_char();
    assert_eq!(lexer.cur_char, 'b');
    assert_eq!(lexer.peek(), '\n');
    lexer.next_char();
    assert_eq!(lexer.cur_char, '\n');
    assert_eq!(lexer.peek(), '\0');
    lexer.next_char();
    assert_eq!(lexer.cur_char, '\0');
    assert_eq!(lexer.cur_pos, 3);
    lexer.next_char();
    assert_eq!(lexer.cur_char, '\0');
    assert_eq!(lexer.cur_pos, 4);
    assert_eq!(lexer.peek(), '\0');
    lexer.next_char();
    assert_eq!(lexer.cur_char, '\0');
    assert_eq!(lexer.cur_pos, 5);
}

#[test]
fn skip_whitespace_stops_at_newline() {
    let mut lexer = Lexer::new("   \n  x");
    lexer.skip_whitespace();
    assert_eq!(lexer.cur_pos, 3);
    assert_eq!(lexer.cur_char, '\n');
    lexer.skip_whitespace();
    assert_eq!(lexer.cur_pos, 3);
}

#[test]
fn skip_comment_stops_at_newline() {
    let mut lexer = Lexer::new("# a comment\nx");
    lexer.skip_comment();
    assert_eq!(lexer.cur_char, '\n');
    assert_eq!(lexer.cur_pos, 11);
    let mut plain = Lexer::new("x # y");
    plain.skip_comment();
    assert_eq!(plain.cur_pos, 0);
}

#[test]
fn single_character_tokens() {
    assert_eq!(
        kinds("+-*/"),
        vec![
            TokenType::Plus,
            TokenType::Minus,
            TokenType::Asterisk,
            TokenType::Slash,
            TokenType::Newline,
            TokenType::Eof
        ]
    );
    assert_eq!(texts("+-*/"), vec!["+", "-", "*", "/", "\n"]);
}

#[test]
fn composite_operators_are_one_token() {
    assert_eq!(kinds(">="), vec![TokenType::GtEq, TokenType::Newline, TokenType::Eof]);
    assert_eq!(texts(">="), vec![">=", "\n"]);
    assert_eq!(
        kinds("= == > >= < <= !="),
        vec![
            TokenType::Eq,
            TokenType::EqEq,
            TokenType::Gt,
            TokenType::GtEq,
            TokenType::Lt,
            TokenType::LtEq,
            TokenType::NotEq,
            TokenType::Newline,
            TokenType::Eof
        ]
    );
    assert_eq!(texts("= == > >= < <= !="), vec!["=", "==", ">", ">=", "<", "<=", "!=", "\n"]);
    assert_eq!(kinds("==="), vec![TokenType::EqEq, TokenType::Eq, TokenType::Newline, TokenType::Eof]);
}

#[test]
fn lone_bang_is_an_error() {
    let e = first_error("!");
    assert!(matches!(e, CompileError::LoneBang(ref t) if t == "\n"));
    assert!(e.is_lexical());
    assert_eq!(e.message(), "Expected !=, got !\n");
    assert!(matches!(first_error("1 ! 2"), CompileError::LoneBang(ref t) if t == " "));
}

#[test]
fn string_literal_is_its_inside() {
    let mut lexer = Lexer::new("\"hello, world\" x");
    let token = lexer.get_token().unwrap();
    assert_eq!(token.kind, TokenType::String);
    assert_eq!(token.text, "hello, world");
    let next = lexer.get_token().unwrap();
    assert_eq!(next.kind, TokenType::Ident);
    assert_eq!(next.text, "x");
    assert_eq!(texts("\"\""), vec!["", "\n"]);
}

#[test]
fn string_literal_with_tab_or_percent_is_an_error() {
    assert!(matches!(first_error("\"a\tb\""), CompileError::IllegalStringChar));
    assert!(matches!(first_error("\"100%\""), CompileError::IllegalStringChar));
    assert!(matches!(first_error("\"a\\b\""), CompileError::IllegalStringChar));
    assert!(matches!(first_error("\"a\rb\""), CompileError::IllegalStringChar));
    assert!(matches!(first_error("\"a\nb\""), CompileError::IllegalStringChar));
    assert!(matches!(first_error("\"a\u{1}b\""), CompileError::IllegalStringChar));
    assert!(matches!(first_error("\"a\u{0}b\""), CompileError::IllegalStringChar));
    assert!(matches!(first_error("\"a\u{7f}b\""), CompileError::IllegalStringChar));
    assert!(matches!(first_error("\"a\u{9f}b\""), CompileError::IllegalStringChar));
    assert_eq!(texts("\"a\u{a0}b ~ \u{e9}\""), vec!["a\u{a0}b ~ \u{e9}", "\n"]);
    assert_eq!(first_error("\"a\tb\"").message(), "Illegal character in string");
}

#[test]
fn unterminated_string_is_an_error() {
    assert!(matches!(first_error("PRINT \"abc"), CompileError::IllegalStringChar));
}

#[test]
fn numbers() {
    assert_eq!(texts("12 3.25 007"), vec!["12", "3.25", "007", "\n"]);
    assert_eq!(
        kinds("12 3.25"),
        vec![TokenType::Number, TokenType::Number, TokenType::Newline, TokenType::Eof]
    );
    assert_eq!(texts("1.5.2"[..3].as_ref()), vec!["1.5", "\n"]);
}

#[test]
fn number_with_bare_point_is_an_error() {
    let e = first_error("1.");
    assert!(matches!(e, CompileError::IllegalNumberChar));
    assert_eq!(e.message(), "Illegal character in number");
    assert!(matches!(first_error("1.x"), CompileError::IllegalNumberChar));
    let dot = first_error(".5");
    assert!(matches!(dot, CompileError::UnknownChar(ref t) if t == "."));
}

#[test]
fn number_then_letters_are_two_tokens() {
    assert_eq!(texts("12ab"), vec!["12", "ab", "\n"]);
    assert_eq!(
        kinds("12ab"),
        vec![TokenType::Number, TokenType::Ident, TokenType::Newline, TokenType::Eof]
    );
}

#[test]
fn identifiers_are_runs_of_letters() {
    assert_eq!(texts("foo bar1"), vec!["foo", "bar", "1", "\n"]);
    assert_eq!(
        kinds("foo bar1"),
        vec![
            TokenType::Ident,
            TokenType::Ident,
            TokenType::Number,
            TokenType::Newline,
            TokenType::Eof
        ]
    );
    assert_eq!(kinds("\u{e9}t\u{e9}"), vec![TokenType::Ident, TokenType::Newline, TokenType::Eof]);
    assert_eq!(texts("\u{e9}t\u{e9} x"), vec!["\u{e9}t\u{e9}", "x", "\n"]);
    assert!(matches!(first_error("a_b"), CompileError::UnknownChar(ref t) if t == "_"));
}

#[test]
fn keywords_are_recognised_by_exact_text() {
    assert_eq!(
        kinds("LABEL GOTO PRINT INPUT LET IF THEN ENDIF WHILE REPEAT ENDWHILE"),
        vec![
            TokenType::Label,
            TokenType::Goto,
            TokenType::Print,
            TokenType::Input,
            TokenType::Let,
            TokenType::If,
            TokenType::Then,
            TokenType::EndIf,
            TokenType::While,
            TokenType::Repeat,
            TokenType::EndWhile,
            TokenType::Newline,
            TokenType::Eof
        ]
    );
    assert_eq!(
        kinds("let Print IFF"),
        vec![
            TokenType::Ident,
            TokenType::Ident,
            TokenType::Ident,
            TokenType::Newline,
            TokenType::Eof
        ]
    );
}

#[test]
fn check_if_keyword_table() {
    assert_eq!(Token::check_if_keyword("LABEL"), TokenType::Label);
    assert_eq!(Token::check_if_keyword("GOTO"), TokenType::Goto);
    assert_eq!(Token::check_if_keyword("PRINT"), TokenType::Print);
    assert_eq!(Token::check_if_keyword("INPUT"), TokenType::Input);
    assert_eq!(Token::check_if_keyword("LET"), TokenType::Let);
    assert_eq!(Token::check_if_keyword("IF"), TokenType::If);
    assert_eq!(Token::check_if_keyword("THEN"), TokenType::Then);
    assert_eq!(Token::check_if_keyword("ENDIF"), TokenType::EndIf);
    assert_eq!(Token::check_if_keyword("WHILE"), TokenType::While);
    assert_eq!(Token::check_if_keyword("REPEAT"), TokenType::Repeat);
    assert_eq!(Token::check_if_keyword("ENDWHILE"), TokenType::EndWhile);
    assert_eq!(Token::check_if_keyword("label"), TokenType::Unknown);
    assert_eq!(Token::check_if_keyword("foo"), TokenType::Unknown);
    assert_eq!(Token::check_if_keyword(""), TokenType::Unknown);
}

#[test]
fn default_token_is_blank() {
    let token = Token::default();
    assert_eq!(token.text, "");
    assert_eq!(token.kind, TokenType::Unknown);
    let copy = token.clone();
    assert_eq!(copy.text, "");
    assert_eq!(copy.kind, TokenType::Unknown);
}

#[test]
fn kind_names() {
    assert_eq!(TokenType::EndWhile.name(), "EndWhile");
    assert_eq!(TokenType::Newline.name(), "Newline");
    assert_eq!(TokenType::GtEq.name(), "GtEq");
}

#[test]
fn comments_and_spaces_are_skipped() {
    assert_eq!(texts("  LET   x # set x\n  PRINT x"), vec!["LET", "x", "\n", "PRINT", "x", "\n"]);
    assert_eq!(kinds("# only a comment"), vec![TokenType::Newline, TokenType::Eof]);
}

#[test]
fn end_of_input_is_returned_forever() {
    let mut lexer = Lexer::new("x");
    assert_eq!(lexer.get_token().unwrap().kind, TokenType::Ident);
    assert_eq!(lexer.get_token().unwrap().kind, TokenType::Newline);
    for calls in 1..6 {
        let token = lexer.get_token().unwrap();
        assert_eq!(token.kind, TokenType::Eof);
        assert_eq!(token.text, "\0");
        assert_eq!(lexer.cur_pos, 2 + calls);
        assert_eq!(lexer.cur_char, '\0');
    }
}

#[test]
fn unknown_character_is_an_error() {
    let e = first_error("LET x = 1 @");
    assert!(matches!(e, CompileError::UnknownChar(ref t) if t == "@"));
    assert_eq!(e.message(), "Unknown token: @");
    assert!(e.is_lexical());
    assert!(matches!(first_error("\t"), CompileError::UnknownChar(ref t) if t == "\t"));
}

#[test]
fn nul_character_is_an_end_of_input_token() {
    let mut lexer = Lexer::new("a\0b");
    assert_eq!(lexer.get_token().unwrap().kind, TokenType::Ident);
    let nul = lexer.get_token().unwrap();
    assert_eq!(nul.kind, TokenType::Eof);
    assert_eq!(nul.text, "\0");
    assert_eq!(lexer.cur_pos, 2);
    let b = lexer.get_token().unwrap();
    assert_eq!(b.kind, TokenType::Ident);
    assert_eq!(b.text, "b");
    assert_eq!(lexer.get_token().unwrap().kind, TokenType::Newline);
    assert_eq!(lexer.get_token().unwrap().kind, TokenType::Eof);
    assert_eq!(lexer.cur_pos, 5);
}

#[test]
fn cursor_stands_behind_the_token() {
    let mut lexer = Lexer::new("LET  x=12.5 # c");
    let expected = [("LET", 3), ("x", 6), ("=", 7), ("12.5", 11), ("\n", 16), ("\0", 17)];
    for (text, pos) in expected {
        let token = lexer.get_token().unwrap();
        assert_eq!(token.text, text);
        assert_eq!(lexer.cur_pos, pos);
    }
}

#[test]
fn cursor_stops_at_the_character_that_caused_the_error() {
    let cases = [("  !x", 2), ("\"ab%c\"", 3), ("\"ab", 3), ("12.x", 2), (" a @", 3), ("# c\n$", 4)];
    for (source, pos) in cases {
        let mut lexer = Lexer::new(source);
        loop {
            match lexer.get_token() {
                Ok(token) => assert_ne!(token.kind, TokenType::Eof, "no error in {:?}", source),
                Err(_) => break,
            }
        }
        assert_eq!(lexer.cur_pos, pos, "in {:?}", source);
    }
}
