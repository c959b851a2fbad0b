use teenytiny::compile::compile;
use teenytiny::emitter::Emitter;
use teenytiny::error::CompileError;
use teenytiny::lex::Lexer;
use teenytiny::parse::Parser;
use teenytiny::token::TokenType;

const HEAD: &str = "#include <stdio.h>\nint main(void) {\n";
const TAIL: &str = "return 0;\n}\n";

fn run(source: &str) -> Result<(String, String), CompileError> {
    let lexer = Lexer::new(source);
    let mut emitter = Emitter::new("out.c");
    {
        let mut parser = Parser::new(lexer, &mut emitter)?;
        parser.program()?;
    }
    Ok((emitter.header, emitter.code))
}

fn body(source: &str) -> String {
    let (_, code) = run(source).unwrap();
    assert!(code.ends_with(TAIL));
    code[..code.len() - TAIL.len()].to_string()
}

fn error(source: &str) -> CompileError {
    match run(source) {
        Ok(_) => panic!("{:?} compiled", source),
        Err(e) => e,
    }
}

#[test]
fn empty_program() {
    assert_eq!(run("").unwrap(), (HEAD.to_string(), TAIL.to_string()));
    assert_eq!(run("\n\n\n").unwrap(), (HEAD.to_string(), TAIL.to_string()));
    assert_eq!(run("# nothing here").unwrap(), (HEAD.to_string(), TAIL.to_string()));
}

#[test]
fn let_then_print() {
    let (header, code) = run("LET x = 1\nPRINT x\n").unwrap();
    assert_eq!(header, "#include <stdio.h>\nint main(void) {\nfloat x;\n");
    assert_eq!(code, "x = 1;\nprintf(\"%.2f\\n\", (float)(x));\nreturn 0;\n}\n");
    assert_eq!(header.matches("float x;").count(), 1);
}

#[test]
fn variable_is_declared_once() {
    let (header, code) = run("LET x = 1\nLET x = 2\n").unwrap();
    assert_eq!(header, "#include <stdio.h>\nint main(void) {\nfloat x;\n");
    assert_eq!(code, "x = 1;\nx = 2;\nreturn 0;\n}\n");
}

#[test]
fn declarations_come_in_order_of_first_use() {
    let (header, _) = run("LET b = 1\nINPUT a\nLET b = a\nINPUT b\n").unwrap();
    assert_eq!(header, "#include <stdio.h>\nint main(void) {\nfloat b;\nfloat a;\n");
}

#[test]
fn print_string() {
    assert_eq!(body("PRINT \"hello, world\""), "printf(\"hello, world\\n\");\n");
}

#[test]
fn print_expression() {
    assert_eq!(body("PRINT 1 + 2 * 3"), "printf(\"%.2f\\n\", (float)(1+2*3));\n");
    assert_eq!(body("PRINT -1.5 / +2 - 3"), "printf(\"%.2f\\n\", (float)(-1.5/+2-3));\n");
}

#[test]
fn input_statement() {
    let (header, code) = run("INPUT n").unwrap();
    assert_eq!(header, "#include <stdio.h>\nint main(void) {\nfloat n;\n");
    assert_eq!(
        code,
        "if (0 == scanf(\"%f\", &n)) {\nn = 0;\nscanf(\"%*s\");\n}\nreturn 0;\n}\n"
    );
}

#[test]
fn if_statement() {
    assert_eq!(
        body("LET x = 1\nIF x > 0 THEN\nPRINT \"pos\"\nENDIF\n"),
        "x = 1;\nif(x>0){\nprintf(\"pos\\n\");\n}\n"
    );
}

#[test]
fn while_statement() {
    assert_eq!(
        body("LET i = 0\nWHILE i < 3 REPEAT\n\nLET i = i + 1\n\nENDWHILE\n"),
        "i = 0;\nwhile(i<3){\ni = i+1;\n}\n"
    );
}

#[test]
fn nested_blocks() {
    assert_eq!(
        body("LET a = 1\nWHILE a <= 9 REPEAT\nIF a == 2 THEN\nIF a != 3 THEN\nPRINT a\nENDIF\nENDIF\nLET a = a + 1\nENDWHILE"),
        "a = 1;\nwhile(a<=9){\nif(a==2){\nif(a!=3){\nprintf(\"%.2f\\n\", (float)(a));\n}\n}\na = a+1;\n}\n"
    );
}

#[test]
fn chained_comparison() {
    assert_eq!(
        body("IF 1 < 2 >= 3 THEN\nENDIF"),
        "if(1<2>=3){\n}\n"
    );
}

#[test]
fn label_and_goto() {
    assert_eq!(body("LABEL top\nGOTO top\n"), "top:\ngoto top;\n");
}

#[test]
fn goto_may_come_before_its_label() {
    assert_eq!(body("GOTO end\nPRINT \"skipped\"\nLABEL end\n"), "goto end;\nprintf(\"skipped\\n\");\nend:\n");
}

#[test]
fn goto_without_label_fails_at_the_end() {
    let e = error("GOTO nowhere\nPRINT \"x\"\n");
    assert!(matches!(e, CompileError::UndeclaredLabel(ref n) if n == "nowhere"));
    assert!(!e.is_lexical());
    assert_eq!(e.message(), "Label nowhere referenced but not declared");
}

#[test]
fn first_undeclared_label_is_reported() {
    let e = error("GOTO b\nGOTO a\nGOTO b\nLABEL c\n");
    assert!(matches!(e, CompileError::UndeclaredLabel(ref n) if n == "b"));
    let e = error("GOTO b\nGOTO a\nLABEL b\n");
    assert!(matches!(e, CompileError::UndeclaredLabel(ref n) if n == "a"));
}

#[test]
fn duplicate_label_fails() {
    let e = error("LABEL x\nLABEL x\n");
    assert!(matches!(e, CompileError::DuplicateLabel(ref n) if n == "x"));
    assert_eq!(e.message(), "Label already exists: x");
    let far = error("LABEL x\nLET a = 1\nWHILE a < 2 REPEAT\nLET a = a + 1\nENDWHILE\nLABEL y\nPRINT a\nLABEL x\n");
    assert!(matches!(far, CompileError::DuplicateLabel(ref n) if n == "x"));
    let nested = error("LABEL x\nIF 1 == 1 THEN\nLABEL x\nENDIF\n");
    assert!(matches!(nested, CompileError::DuplicateLabel(ref n) if n == "x"));
}

#[test]
fn print_of_undeclared_variable_fails() {
    let e = error("PRINT x");
    assert!(matches!(e, CompileError::UndefinedVariable(ref n) if n == "x"));
    assert_eq!(e.message(), "Referencing variable before assignment: x");
}

#[test]
fn variable_must_be_declared_before_it_is_read() {
    assert!(matches!(error("PRINT x\nLET x = 1\n"), CompileError::UndefinedVariable(ref n) if n == "x"));
    assert!(matches!(error("LET x = 1\nPRINT x + y\n"), CompileError::UndefinedVariable(ref n) if n == "y"));
    assert!(matches!(error("LET x = 1\nIF x > z THEN\nENDIF\n"), CompileError::UndefinedVariable(ref n) if n == "z"));
    assert!(run("INPUT y\nLET x = y\nPRINT x * y\n").is_ok());
}

#[test]
fn let_may_read_its_own_target() {
    // The target is declared before the expression is parsed.
    assert_eq!(body("LET x = x"), "x = x;\n");
}

#[test]
fn comparison_needs_an_operator() {
    let e = error("IF 1 THEN\nPRINT 1\nENDIF\n");
    assert!(matches!(e, CompileError::MissingComparison(ref t) if t == "THEN"));
    assert_eq!(e.message(), "Expected comparison operator at: THEN");
    assert!(matches!(error("WHILE 1 + 2 REPEAT\nENDWHILE\n"), CompileError::MissingComparison(ref t) if t == "REPEAT"));
}

#[test]
fn wrong_token_kind_is_reported_with_both_kinds() {
    let e = error("LET 5 = 1");
    assert!(matches!(
        e,
        CompileError::UnexpectedKind { expected: TokenType::Ident, found: TokenType::Number }
    ));
    assert_eq!(e.message(), "Expected Ident, got Number");
    let e = error("LET x 1");
    assert!(matches!(
        e,
        CompileError::UnexpectedKind { expected: TokenType::Eq, found: TokenType::Number }
    ));
    let e = error("IF 1 == 1 PRINT 1\nENDIF\n");
    assert!(matches!(
        e,
        CompileError::UnexpectedKind { expected: TokenType::Then, found: TokenType::Print }
    ));
    let e = error("PRINT 1 PRINT 2");
    assert!(matches!(
        e,
        CompileError::UnexpectedKind { expected: TokenType::Newline, found: TokenType::Print }
    ));
    assert_eq!(e.message(), "Expected Newline, got Print");
}

#[test]
fn invalid_statement() {
    let e = error("x = 1");
    assert!(matches!(
        e,
        CompileError::InvalidStatement { ref text, found: TokenType::Ident } if text == "x"
    ));
    assert_eq!(e.message(), "Invalid statement at x (Ident)");
    let e = error("IF 1 == 1 THEN\nPRINT 1\n");
    assert!(matches!(e, CompileError::InvalidStatement { found: TokenType::Eof, .. }));
    let e = error("ENDIF");
    assert!(matches!(e, CompileError::InvalidStatement { found: TokenType::EndIf, .. }));
}

#[test]
fn operand_must_be_number_or_identifier() {
    let e = error("PRINT +");
    assert!(matches!(e, CompileError::UnexpectedToken(ref t) if t == "\n"));
    assert_eq!(e.message(), "Unexpected token at \n");
    assert!(matches!(error("LET x = \"s\""), CompileError::UnexpectedToken(ref t) if t == "s"));
    assert!(matches!(error("PRINT 1 + * 2"), CompileError::UnexpectedToken(ref t) if t == "*"));
}

#[test]
fn lexical_error_stops_the_parser() {
    assert!(matches!(error("PRINT \"a\tb\""), CompileError::IllegalStringChar));
    assert!(matches!(error("PRINT \"50%\""), CompileError::IllegalStringChar));
    assert!(matches!(error("LET x = 1 ! 2"), CompileError::LoneBang(_)));
    assert!(matches!(error("LET x = 1.\n"), CompileError::IllegalNumberChar));
    assert!(matches!(error("LET x = 1\nLET y = $\n"), CompileError::UnknownChar(ref t) if t == "$"));
    // The error is raised as soon as the lookahead reaches the bad token.
    assert!(matches!(error("PRINT x @"), CompileError::UnknownChar(ref t) if t == "@"));
}

#[test]
fn parser_new_reads_two_tokens() {
    let lexer = Lexer::new("LET x = 1");
    let mut emitter = Emitter::new("out.c");
    let parser = Parser::new(lexer, &mut emitter).unwrap();
    assert!(parser.check_token(TokenType::Let));
    assert!(!parser.check_token(TokenType::Ident));
    assert_eq!(parser.cur_token.text, "LET");
    assert_eq!(parser.peek_token.kind, TokenType::Ident);
    assert_eq!(parser.peek_token.text, "x");
    assert_eq!(parser.lexer.cur_pos, 5);
}

#[test]
fn parser_new_reports_a_lexical_error() {
    let lexer = Lexer::new("LET @");
    let mut emitter = Emitter::new("out.c");
    let r = Parser::new(lexer, &mut emitter);
    assert!(matches!(r, Err(CompileError::UnknownChar(ref t)) if t == "@"));
    assert_eq!(emitter.header, "");
    assert_eq!(emitter.code, "");
}

#[test]
fn match_token_and_next_token() {
    let lexer = Lexer::new("LET x = 1");
    let mut emitter = Emitter::new("out.c");
    let mut parser = Parser::new(lexer, &mut emitter).unwrap();
    assert!(parser.match_token(TokenType::Let).is_ok());
    assert!(parser.check_token(TokenType::Ident));
    let e = parser.match_token(TokenType::Eq).unwrap_err();
    assert!(matches!(
        e,
        CompileError::UnexpectedKind { expected: TokenType::Eq, found: TokenType::Ident }
    ));
    assert!(parser.check_token(TokenType::Ident));
    parser.next_token().unwrap();
    assert!(parser.check_token(TokenType::Eq));
    parser.next_token().unwrap();
    parser.next_token().unwrap();
    assert!(parser.check_token(TokenType::Newline));
    parser.nl().unwrap();
    assert!(parser.check_token(TokenType::Eof));
    parser.next_token().unwrap();
    assert!(parser.check_token(TokenType::Eof));
}

#[test]
fn nl_takes_one_or_more_newlines() {
    let lexer = Lexer::new("\n\n\nPRINT 1");
    let mut emitter = Emitter::new("out.c");
    let mut parser = Parser::new(lexer, &mut emitter).unwrap();
    parser.nl().unwrap();
    assert!(parser.check_token(TokenType::Print));
    let e = parser.nl().unwrap_err();
    assert!(matches!(
        e,
        CompileError::UnexpectedKind { expected: TokenType::Newline, found: TokenType::Print }
    ));
}

#[test]
fn expression_rules_emit_their_tokens() {
    let lexer = Lexer::new("1 * 2 + 3 / 4 - 5 == 6 7");
    let mut emitter = Emitter::new("out.c");
    {
        let mut parser = Parser::new(lexer, &mut emitter).unwrap();
        parser.primary().unwrap();
        assert!(parser.check_token(TokenType::Asterisk));
        parser.next_token().unwrap();
        parser.unary().unwrap();
        assert!(parser.check_token(TokenType::Plus));
        parser.next_token().unwrap();
        parser.term().unwrap();
        assert!(parser.check_token(TokenType::Minus));
        parser.next_token().unwrap();
        parser.comparison().unwrap();
        assert!(parser.check_token(TokenType::Number));
        parser.expression().unwrap();
        assert!(parser.check_token(TokenType::Newline));
    }
    assert_eq!(emitter.code, "123/45==67");
    assert_eq!(emitter.header, "");
}

#[test]
fn statement_compiles_one_statement() {
    let lexer = Lexer::new("LET x = 2\nPRINT x\n");
    let mut emitter = Emitter::new("out.c");
    {
        let mut parser = Parser::new(lexer, &mut emitter).unwrap();
        parser.statement().unwrap();
        assert!(parser.check_token(TokenType::Print));
        assert!(parser.symbols.contains("x"));
    }
    assert_eq!(emitter.code, "x = 2;\n");
    assert_eq!(emitter.header, "float x;\n");
}

#[test]
fn compiling_twice_gives_the_same_text() {
    let source = "INPUT n\nLET f = 1\nWHILE n > 1 REPEAT\nLET f = f * n\nLET n = n - 1\nENDWHILE\nPRINT f\n";
    let first = compile(source, "out.c").unwrap();
    let second = compile(source, "out.c").unwrap();
    assert_eq!(first.contents(), second.contents());
    assert_eq!(first.header, second.header);
    assert_eq!(first.code, second.code);
    assert_eq!(
        first.contents(),
        "#include <stdio.h>\nint main(void) {\nfloat n;\nfloat f;\nif (0 == scanf(\"%f\", &n)) {\nn = 0;\nscanf(\"%*s\");\n}\nf = 1;\nwhile(n>1){\nf = f*n;\nn = n-1;\n}\nprintf(\"%.2f\\n\", (float)(f));\nreturn 0;\n}\n"
    );
}

#[test]
fn compile_keeps_the_path_and_reports_errors() {
    let emitter = compile("PRINT \"ok\"", "dir/prog.c").unwrap();
    assert_eq!(emitter.full_path, "dir/prog.c");
    assert_eq!(emitter.contents(), format!("{}printf(\"ok\\n\");\n{}", HEAD, TAIL));
    let a = compile("LABEL a\nLABEL a", "out.c").unwrap_err();
    let b = compile("LABEL a\nLABEL a", "out.c").unwrap_err();
    assert_eq!(a.message(), b.message());
    assert!(matches!(a, CompileError::DuplicateLabel(ref n) if n == "a"));
}

fn failed(source: &str) -> (CompileError, String, String) {
    let lexer = Lexer::new(source);
    let mut emitter = Emitter::new("out.c");
    let error = {
        let mut parser = Parser::new(lexer, &mut emitter).unwrap();
        parser.program().unwrap_err()
    };
    (error, emitter.header, emitter.code)
}

#[test]
fn undeclared_variable_leaves_no_declaration() {
    let (e, header, code) = failed("PRINT x");
    assert!(matches!(e, CompileError::UndefinedVariable(ref n) if n == "x"));
    assert_eq!(header, HEAD);
    assert_eq!(code, "printf(\"%.2f\\n\", (float)(");
}

#[test]
fn duplicate_label_emits_no_second_marker() {
    let (e, header, code) = failed("LABEL a\nLABEL a\n");
    assert!(matches!(e, CompileError::DuplicateLabel(ref n) if n == "a"));
    assert_eq!(header, HEAD);
    assert_eq!(code, "a:\n");
}

#[test]
fn invalid_statement_emits_nothing() {
    let lexer = Lexer::new("x = 1");
    let mut emitter = Emitter::new("out.c");
    {
        let mut parser = Parser::new(lexer, &mut emitter).unwrap();
        let e = parser.statement().unwrap_err();
        assert!(matches!(e, CompileError::InvalidStatement { found: TokenType::Ident, .. }));
        assert!(parser.check_token(TokenType::Ident));
        assert_eq!(parser.cur_token.text, "x");
        assert_eq!(parser.peek_token.kind, TokenType::Eq);
        assert_eq!(parser.lexer.cur_pos, 3);
    }
    assert_eq!(emitter.header, "");
    assert_eq!(emitter.code, "");
}

#[test]
fn failed_operand_changes_nothing() {
    let lexer = Lexer::new("y + 1");
    let mut emitter = Emitter::new("out.c");
    {
        let mut parser = Parser::new(lexer, &mut emitter).unwrap();
        let e = parser.primary().unwrap_err();
        assert!(matches!(e, CompileError::UndefinedVariable(ref n) if n == "y"));
        assert_eq!(parser.cur_token.text, "y");
        assert_eq!(parser.peek_token.kind, TokenType::Plus);
        assert!(!parser.symbols.contains("y"));
        assert_eq!(parser.lexer.cur_pos, 3);
    }
    assert_eq!(emitter.header, "");
    assert_eq!(emitter.code, "");
}

#[test]
fn failed_match_changes_nothing() {
    let lexer = Lexer::new("LET x = 1\nGOTO l\nLABEL m\nPRINT 1");
    let mut emitter = Emitter::new("out.c");
    {
        let mut parser = Parser::new(lexer, &mut emitter).unwrap();
        parser.statement().unwrap();
        parser.statement().unwrap();
        parser.statement().unwrap();
        let pos = parser.lexer.cur_pos;
        let e = parser.match_token(TokenType::Ident).unwrap_err();
        assert!(matches!(
            e,
            CompileError::UnexpectedKind { expected: TokenType::Ident, found: TokenType::Print }
        ));
        assert!(parser.check_token(TokenType::Print));
        assert_eq!(parser.lexer.cur_pos, pos);
        assert!(parser.symbols.contains("x"));
        assert!(parser.labels_gotoed.contains("l"));
        assert!(parser.labels_declared.contains("m"));
        assert!(!parser.labels_declared.contains("l"));
    }
    assert_eq!(emitter.header, "float x;\n");
    assert_eq!(emitter.code, "x = 1;\ngoto l;\nm:\n");
}

#[test]
fn lexical_error_keeps_the_tokens_in_hand() {
    let lexer = Lexer::new("PRINT x @");
    let mut emitter = Emitter::new("out.c");
    {
        let mut parser = Parser::new(lexer, &mut emitter).unwrap();
        let e = parser.next_token().unwrap_err();
        assert!(matches!(e, CompileError::UnknownChar(ref t) if t == "@"));
        assert!(parser.check_token(TokenType::Print));
        assert_eq!(parser.peek_token.text, "x");
        assert_eq!(parser.lexer.cur_pos, 8);
    }
    assert_eq!(emitter.code, "");
}

#[test]
fn parser_goes_on_counting_behind_the_text() {
    let lexer = Lexer::new("");
    let mut emitter = Emitter::new("out.c");
    let mut parser = Parser::new(lexer, &mut emitter).unwrap();
    assert!(parser.check_token(TokenType::Newline));
    assert_eq!(parser.lexer.cur_pos, 2);
    parser.next_token().unwrap();
    assert!(parser.check_token(TokenType::Eof));
    assert_eq!(parser.lexer.cur_pos, 3);
    parser.match_token(TokenType::Eof).unwrap();
    assert_eq!(parser.lexer.cur_pos, 4);
}

#[test]
fn too_long_message() {
    let e = CompileError::SourceTooLong;
    assert_eq!(e.message(), "Source text is too long");
    assert!(!e.is_lexical());
}
