//! What holds of every program: the rules on variables and labels, and
//! that a compilation depends on the source text alone.
use crate::compile::{compiled, generated};
use crate::emitter::line;
use crate::error::ErrorView;
use crate::grammar::{
    is_comparison_operator, is_factor_operator, is_sign, lemma_advance, lemma_block,
    lemma_comparison, lemma_conditional, lemma_emit, lemma_expect, lemma_expression, lemma_nl,
    lemma_skip_newlines, lemma_start, lemma_statement, lemma_term, lemma_unary, Failure,
    ParserView, Step,
};
use crate::lex::{char_at, is_control, run_end, scan, token_at, CharClass, Lexeme};
use crate::names::{first_missing, lemma_first_missing, lemma_with_name_distinct, with_name};
use crate::token::{TokenType, TokenView};
use vstd::prelude::*;

verus! {

/// A run is maximal: every character of it is of the class, and the
/// character behind it, if there is one, is not.
pub proof fn lemma_run_end_maximal(s: Seq<char>, pos: int, class: CharClass)
    requires
        0 <= pos <= s.len(),
    ensures
        pos <= run_end(s, pos, class) <= s.len(),
        forall|i: int| pos <= i < run_end(s, pos, class) ==> class.holds(#[trigger] s[i]),
        run_end(s, pos, class) < s.len() ==> !class.holds(s[run_end(s, pos, class)]),
    decreases s.len() - pos,
{
    if pos < s.len() && class.holds(s[pos]) {
        lemma_run_end_maximal(s, pos + 1, class);
    }
}

/// An operator character with `=` behind it is one token of two
/// characters, not two tokens.
pub proof fn lemma_composite_operator(s: Seq<char>, start: int)
    requires
        0 <= start,
        start + 1 < s.len(),
        s[start] == '=' || s[start] == '>' || s[start] == '<' || s[start] == '!',
        s[start + 1] == '=',
    ensures
        token_at(s, start) matches Ok(lx) && lx.next == start + 2 && lx.token.text == seq![
            s[start],
            '=',
        ] && lx.token.kind == (if s[start] == '=' {
            TokenType::EqEq
        } else if s[start] == '>' {
            TokenType::GtEq
        } else if s[start] == '<' {
            TokenType::LtEq
        } else {
            TokenType::NotEq
        }),
{
    assert(s.subrange(start, start + 2) =~= seq![s[start], '=']);
}

/// A `!` with anything but `=` behind it is a lexical error.
pub proof fn lemma_lone_bang_is_rejected(s: Seq<char>, start: int)
    requires
        0 <= start < s.len(),
        s[start] == '!',
        char_at(s, start + 1) != '=',
    ensures
        token_at(s, start) matches Err(e) && e is LoneBang && e.is_lexical(),
{
}

/// A string literal that holds a control character (a newline, a carriage
/// return or a tab among them), a backslash or a percent sign before its
/// closing quote is a lexical error.
pub proof fn lemma_illegal_character_in_literal(s: Seq<char>, start: int, at: int)
    requires
        0 <= start < at < s.len(),
        s[start] == '"',
        is_control(s[at]) || s[at] == '\\' || s[at] == '%',
        forall|i: int| start < i < at ==> s[i] != '"',
    ensures
        token_at(s, start) == Err::<Lexeme, ErrorView>(ErrorView::IllegalStringChar),
{
    let close: int = run_end(s, start + 1, CharClass::Literal);
    lemma_run_end_maximal(s, start + 1, CharClass::Literal);
    if close > at {
        assert(CharClass::Literal.holds(s[at]));
    }
}

/// Behind the text every scan gives the end-of-input token and moves
/// the position one on.
pub proof fn lemma_end_of_input_forever(s: Seq<char>, pos: int)
    requires
        s.len() <= pos,
    ensures
        scan(s, pos) == Ok::<Lexeme, ErrorView>(
            Lexeme { token: TokenView { text: seq!['\0'], kind: TokenType::Eof }, next: pos + 1 },
        ),
{
    assert(run_end(s, pos, CharClass::Space) == pos);
}

/// An operand is accepted exactly when it is a number, or an identifier
/// that was declared before, and the token behind the lookahead scans.
pub proof fn lemma_primary_accepts(s: ParserView)
    ensures
        s.primary() is Ok <==> (s.cur.kind == TokenType::Number || (s.cur.kind == TokenType::Ident
            && s.symbols.contains(s.cur.text))) && scan(s.source, s.pos) is Ok,
{
}

/// An identifier that no `LET` or `INPUT` declared cannot be read: the
/// operand, and every expression and comparison that begins with it, ends
/// the compilation with the error that names it, in the state in which it
/// was met: nothing is emitted and no name is recorded.
pub proof fn lemma_undeclared_read_is_rejected(s: ParserView)
    requires
        s.cur.kind == TokenType::Ident,
        !s.symbols.contains(s.cur.text),
    ensures
        s.primary() == s.fail(ErrorView::UndefinedVariable(s.cur.text)),
        s.unary() == s.primary(),
        s.term() == s.primary(),
        s.expression() == s.primary(),
        s.comparison() == s.primary(),
{
}

/// A `PRINT` of an identifier that was not declared fails where the
/// identifier is met: the opening of the print is in the body section, the
/// header and the declared variables are as they were before the statement.
pub proof fn lemma_print_of_undeclared_fails(s: ParserView)
    requires
        s.wf(),
        s.cur.kind == TokenType::Print,
        s.peek.kind == TokenType::Ident,
        !s.symbols.contains(s.peek.text),
    ensures
        s.advance() matches Ok(t) ==> s.statement() == t.emit(
            "printf(\"%.2f\\n\", (float)("@,
        ).fail(ErrorView::UndefinedVariable(s.peek.text)) && t.header == s.header && t.symbols
            == s.symbols,
{
    lemma_advance(s);
    if let Ok(t) = s.advance() {
        lemma_undeclared_read_is_rejected(t.emit("printf(\"%.2f\\n\", (float)("@));
    }
}

/// A token that begins no statement fails in the state in which it is
/// met: nothing is emitted, nothing recorded, no token used up.
pub proof fn lemma_invalid_statement_changes_nothing(s: ParserView)
    requires
        s.wf(),
        s.cur.kind != TokenType::Print,
        s.cur.kind != TokenType::If,
        s.cur.kind != TokenType::While,
        s.cur.kind != TokenType::Label,
        s.cur.kind != TokenType::Goto,
        s.cur.kind != TokenType::Let,
        s.cur.kind != TokenType::Input,
    ensures
        s.statement() == s.fail(
            ErrorView::InvalidStatement { text: s.cur.text, found: s.cur.kind },
        ),
{
}

/// Of the statements that hold no other statement, only `LET` and `INPUT`
/// declare a variable: the one they name. It gets its line in the header
/// if it was not declared before, and no line if it was.
pub proof fn lemma_only_let_and_input_declare(s: ParserView)
    requires
        s.wf(),
        s.cur.kind != TokenType::If,
        s.cur.kind != TokenType::While,
    ensures
        s.statement() matches Ok(t) ==> t.symbols == (if s.cur.kind == TokenType::Let || s.cur.kind
            == TokenType::Input {
            with_name(s.symbols, s.peek.text)
        } else {
            s.symbols
        }) && t.header == (if (s.cur.kind == TokenType::Let || s.cur.kind == TokenType::Input)
            && !s.symbols.contains(s.peek.text) {
            s.header + line("float "@ + s.peek.text + ";"@)
        } else {
            s.header
        }),
{
    lemma_advance(s);
    if let Ok(t) = s.advance() {
        let name = t.cur.text;
        if s.cur.kind == TokenType::Print {
            if t.cur.kind == TokenType::String {
                let u = t.emit_line("printf(\""@ + name + "\\n\");"@);
                lemma_emit(t, "printf(\""@ + name + "\\n\");"@);
                lemma_advance(u);
            } else {
                let u = t.emit("printf(\"%.2f\\n\", (float)("@);
                lemma_emit(t, "printf(\"%.2f\\n\", (float)("@);
                lemma_expression(u);
                if let Ok(v) = u.expression() {
                    lemma_emit(v, "));"@);
                }
            }
            if let Ok(b) = s.print_statement() {
                lemma_nl(b);
            }
        } else if s.cur.kind == TokenType::Label {
            if !t.labels_declared.contains(name) {
                lemma_with_name_distinct(t.labels_declared, name);
                let u = ParserView { labels_declared: t.labels_declared.push(name), ..t };
                lemma_emit(u, name + ":"@);
                lemma_expect(u.emit_line(name + ":"@), TokenType::Ident);
            }
            if let Ok(b) = s.label_statement() {
                lemma_nl(b);
            }
        } else if s.cur.kind == TokenType::Goto {
            lemma_with_name_distinct(t.labels_gotoed, name);
            let u = ParserView { labels_gotoed: with_name(t.labels_gotoed, name), ..t };
            lemma_emit(u, "goto "@ + name + ";"@);
            lemma_expect(u.emit_line("goto "@ + name + ";"@), TokenType::Ident);
            if let Ok(b) = s.goto_statement() {
                lemma_nl(b);
            }
        } else if s.cur.kind == TokenType::Let {
            let d = t.declare(name);
            lemma_emit(t, name);
            let e = d.emit(name + " = "@);
            lemma_emit(d, name + " = "@);
            lemma_expect(e, TokenType::Ident);
            if let Ok(u) = e.expect(TokenType::Ident) {
                lemma_expect(u, TokenType::Eq);
                if let Ok(v) = u.expect(TokenType::Eq) {
                    lemma_expression(v);
                    if let Ok(w) = v.expression() {
                        lemma_emit(w, ";"@);
                    }
                }
            }
            if let Ok(b) = s.let_statement() {
                lemma_nl(b);
            }
        } else if s.cur.kind == TokenType::Input {
            let d = t.declare(name);
            lemma_emit(t, name);
            let e1 = d.emit_line("if (0 == scanf(\"%f\", &"@ + name + ")) {"@);
            lemma_emit(d, "if (0 == scanf(\"%f\", &"@ + name + ")) {"@);
            let e2 = e1.emit_line(name + " = 0;"@);
            lemma_emit(e1, name + " = 0;"@);
            let e3 = e2.emit_line("scanf(\"%*s\");"@);
            lemma_emit(e2, "scanf(\"%*s\");"@);
            let e4 = e3.emit_line("}"@);
            lemma_emit(e3, "}"@);
            lemma_expect(e4, TokenType::Ident);
            if let Ok(b) = s.input_statement() {
                lemma_nl(b);
            }
        }
    }
}

/// The state after the next `n` tokens were copied to the body section:
/// each is emitted as it stands, with nothing between it and the next,
/// and advanced past.
pub open spec fn copy_tokens(s: ParserView, n: nat) -> Step
    decreases n,
{
    if n == 0 {
        Ok(s)
    } else {
        match s.emit(s.cur.text).advance() {
            Ok(t) => copy_tokens(t, (n - 1) as nat),
            Err(e) => Err(e),
        }
    }
}

/// Copying `m` tokens and then `n` more is copying `m + n` tokens.
proof fn lemma_copy_more(s: ParserView, m: nat, n: nat)
    ensures
        copy_tokens(s, m) matches Ok(t) ==> copy_tokens(s, m + n) == copy_tokens(t, n),
    decreases m,
{
    if m > 0 {
        if let Ok(t) = s.emit(s.cur.text).advance() {
            lemma_copy_more(t, (m - 1) as nat, n);
        }
    }
}

/// Copying one token is emitting it and advancing.
proof fn lemma_copy_one(s: ParserView)
    ensures
        copy_tokens(s, 1) == s.emit(s.cur.text).advance(),
{
    if let Ok(t) = s.emit(s.cur.text).advance() {
        assert(copy_tokens(t, 0) == Ok::<ParserView, Failure>(t));
    }
}

proof fn lemma_unary_copies(s: ParserView) -> (n: nat)
    ensures
        1 <= n <= 2,
        s.unary() matches Ok(t) ==> copy_tokens(s, n) == Ok::<ParserView, Failure>(t),
{
    lemma_copy_one(s);
    if is_sign(s.cur.kind) {
        if let Ok(t) = s.emit(s.cur.text).advance() {
            lemma_copy_one(t);
            lemma_copy_more(s, 1, 1);
        }
        2
    } else {
        1
    }
}

proof fn lemma_factors_copy(s: ParserView) -> (n: nat)
    requires
        s.wf(),
    ensures
        s.factors() matches Ok(t) ==> copy_tokens(s, n) == Ok::<ParserView, Failure>(t),
    decreases s.rank(),
{
    if is_factor_operator(s.cur.kind) {
        lemma_copy_one(s);
        lemma_emit(s, s.cur.text);
        lemma_advance(s.emit(s.cur.text));
        if let Ok(t) = s.emit(s.cur.text).advance() {
            let k: nat = lemma_unary_copies(t);
            lemma_unary(t);
            if let Ok(u) = t.unary() {
                let m: nat = lemma_factors_copy(u);
                lemma_copy_more(t, k, m);
                lemma_copy_more(s, 1, k + m);
                1 + k + m
            } else {
                0
            }
        } else {
            0
        }
    } else {
        0
    }
}

proof fn lemma_term_copies(s: ParserView) -> (n: nat)
    requires
        s.wf(),
    ensures
        1 <= n,
        s.term() matches Ok(t) ==> copy_tokens(s, n) == Ok::<ParserView, Failure>(t),
{
    let k: nat = lemma_unary_copies(s);
    lemma_unary(s);
    if let Ok(t) = s.unary() {
        let m: nat = lemma_factors_copy(t);
        lemma_copy_more(s, k, m);
        k + m
    } else {
        1
    }
}

proof fn lemma_terms_copy(s: ParserView) -> (n: nat)
    requires
        s.wf(),
    ensures
        s.terms() matches Ok(t) ==> copy_tokens(s, n) == Ok::<ParserView, Failure>(t),
    decreases s.rank(),
{
    if is_sign(s.cur.kind) {
        lemma_copy_one(s);
        lemma_emit(s, s.cur.text);
        lemma_advance(s.emit(s.cur.text));
        if let Ok(t) = s.emit(s.cur.text).advance() {
            let k: nat = lemma_term_copies(t);
            lemma_term(t);
            if let Ok(u) = t.term() {
                let m: nat = lemma_terms_copy(u);
                lemma_copy_more(t, k, m);
                lemma_copy_more(s, 1, k + m);
                1 + k + m
            } else {
                0
            }
        } else {
            0
        }
    } else {
        0
    }
}

/// An expression copies its tokens to the body section, in their order
/// and with nothing between them, and does nothing else: it ends in the
/// state that copying some number of tokens, at least one, ends in.
pub proof fn lemma_expression_copies_tokens(s: ParserView) -> (n: nat)
    requires
        s.wf(),
    ensures
        1 <= n,
        s.expression() matches Ok(t) ==> copy_tokens(s, n) == Ok::<ParserView, Failure>(t),
{
    let k: nat = lemma_term_copies(s);
    lemma_term(s);
    if let Ok(t) = s.term() {
        let m: nat = lemma_terms_copy(t);
        lemma_copy_more(s, k, m);
        k + m
    } else {
        1
    }
}

proof fn lemma_comparisons_copy(s: ParserView) -> (n: nat)
    requires
        s.wf(),
    ensures
        s.comparisons() matches Ok(t) ==> copy_tokens(s, n) == Ok::<ParserView, Failure>(t),
        is_comparison_operator(s.cur.kind) ==> n >= 2,
    decreases s.rank(),
{
    if is_comparison_operator(s.cur.kind) {
        lemma_copy_one(s);
        lemma_emit(s, s.cur.text);
        lemma_advance(s.emit(s.cur.text));
        if let Ok(t) = s.emit(s.cur.text).advance() {
            let k: nat = lemma_expression_copies_tokens(t);
            lemma_expression(t);
            if let Ok(u) = t.expression() {
                let m: nat = lemma_comparisons_copy(u);
                lemma_copy_more(t, k, m);
                lemma_copy_more(s, 1, k + m);
                1 + k + m
            } else {
                2
            }
        } else {
            2
        }
    } else {
        0
    }
}

/// A comparison copies its tokens to the body section and does nothing
/// else; there are at least three of them: two operands and the operator
/// between them.
pub proof fn lemma_comparison_copies_tokens(s: ParserView) -> (n: nat)
    requires
        s.wf(),
    ensures
        3 <= n,
        s.comparison() matches Ok(t) ==> copy_tokens(s, n) == Ok::<ParserView, Failure>(t),
{
    let k: nat = lemma_expression_copies_tokens(s);
    lemma_expression(s);
    if let Ok(t) = s.expression() {
        let m: nat = lemma_comparisons_copy(t);
        lemma_copy_more(s, k, m);
        if is_comparison_operator(t.cur.kind) {
            k + m
        } else {
            3
        }
    } else {
        3
    }
}

/// The header lines that declare the variables `names`, in their order.
pub open spec fn declarations(names: Seq<Seq<char>>) -> Seq<char>
    decreases names.len(),
{
    if names.len() == 0 {
        Seq::empty()
    } else {
        declarations(names.drop_last()) + line("float "@ + names.last() + ";"@)
    }
}

/// The header section is `base` and, behind it, one declaration for each
/// variable declared so far, in the order in which they were declared.
pub open spec fn header_lists_symbols(s: ParserView, base: Seq<char>) -> bool {
    s.header == base + declarations(s.symbols)
}

/// A statement that holds no other statement keeps the header in step
/// with the declared variables.
proof fn lemma_simple_statement_lists(s: ParserView, base: Seq<char>)
    requires
        s.wf(),
        s.cur.kind != TokenType::If,
        s.cur.kind != TokenType::While,
        header_lists_symbols(s, base),
    ensures
        s.statement() matches Ok(t) ==> header_lists_symbols(t, base),
{
    lemma_only_let_and_input_declare(s);
    if let Ok(t) = s.statement() {
        if t.symbols != s.symbols {
            let name = s.peek.text;
            assert(t.symbols == s.symbols.push(name));
            assert(t.symbols.drop_last() =~= s.symbols);
            assert(t.symbols.last() == name);
            assert(t.header =~= base + declarations(t.symbols));
        }
    }
}

/// An `IF` or `WHILE` statement keeps the header in step with the declared
/// variables.
proof fn lemma_conditional_lists(
    s: ParserView,
    base: Seq<char>,
    opening: Seq<char>,
    then_kind: TokenType,
    end_kind: TokenType,
)
    requires
        s.wf(),
        s.cur.kind != TokenType::Eof,
        header_lists_symbols(s, base),
    ensures
        s.conditional(opening, then_kind, end_kind) matches Ok(t) ==> header_lists_symbols(t, base),
    decreases s.rank(), 0int,
{
    lemma_advance(s);
    if let Ok(t) = s.advance() {
        let t1 = t.emit(opening);
        lemma_emit(t, opening);
        lemma_comparison(t1);
        if let Ok(u) = t1.comparison() {
            lemma_expect(u, then_kind);
            if let Ok(v) = u.expect(then_kind) {
                lemma_nl(v);
                if let Ok(w) = v.nl() {
                    let w1 = w.emit_line("){"@);
                    lemma_emit(w, "){"@);
                    lemma_block(w1, end_kind);
                    lemma_block_lists(w1, base, end_kind);
                    if let Ok(x) = w1.block(end_kind) {
                        lemma_expect(x, end_kind);
                        if let Ok(y) = x.expect(end_kind) {
                            lemma_emit(y, "}"@);
                        }
                    }
                }
            }
        }
    }
}

/// Every statement keeps the header in step with the declared variables.
proof fn lemma_statement_lists(s: ParserView, base: Seq<char>)
    requires
        s.wf(),
        header_lists_symbols(s, base),
    ensures
        s.statement() matches Ok(t) ==> header_lists_symbols(t, base),
    decreases s.rank(), 1int,
{
    if s.cur.kind == TokenType::If {
        lemma_conditional(s, "if("@, TokenType::Then, TokenType::EndIf);
        lemma_conditional_lists(s, base, "if("@, TokenType::Then, TokenType::EndIf);
        if let Ok(t) = s.conditional("if("@, TokenType::Then, TokenType::EndIf) {
            lemma_nl(t);
        }
    } else if s.cur.kind == TokenType::While {
        lemma_conditional(s, "while("@, TokenType::Repeat, TokenType::EndWhile);
        lemma_conditional_lists(s, base, "while("@, TokenType::Repeat, TokenType::EndWhile);
        if let Ok(t) = s.conditional("while("@, TokenType::Repeat, TokenType::EndWhile) {
            lemma_nl(t);
        }
    } else {
        lemma_simple_statement_lists(s, base);
    }
}

/// A run of statements keeps the header in step with the declared variables.
proof fn lemma_block_lists(s: ParserView, base: Seq<char>, end: TokenType)
    requires
        s.wf(),
        header_lists_symbols(s, base),
    ensures
        s.block(end) matches Ok(t) ==> header_lists_symbols(t, base),
    decreases s.rank(), 2int,
{
    if s.cur.kind != end {
        lemma_statement(s);
        lemma_statement_lists(s, base);
        if let Ok(t) = s.statement() {
            lemma_block_lists(t, base, end);
        }
    }
}

/// Every variable is declared exactly once: the header of a compiled
/// program is the two lines that open the generated program and, behind
/// them, one declaration for each variable of the program, in the order of
/// first use, and no variable comes twice.
pub proof fn lemma_header_declares_each_variable_once(source: Seq<char>, path: Seq<char>)
    ensures
        compiled(source, path) matches Ok(t) ==> t.symbols.no_duplicates() && t.header == line(
            "#include <stdio.h>"@,
        ) + line("int main(void) {"@) + declarations(t.symbols),
{
    let text = source.push('\n');
    let base = line("#include <stdio.h>"@) + line("int main(void) {"@);
    lemma_start(text, 0, path, Seq::empty(), Seq::empty());
    if let Ok(s) = ParserView::start(text, 0, path, Seq::empty(), Seq::empty()) {
        let s1 = s.header_line("#include <stdio.h>"@);
        lemma_emit(s, "#include <stdio.h>"@);
        let s2 = s1.header_line("int main(void) {"@);
        lemma_emit(s1, "int main(void) {"@);
        assert(s2.header =~= base + declarations(s2.symbols));
        lemma_skip_newlines(s2);
        if let Ok(t) = s2.skip_newlines() {
            lemma_block(t, TokenType::Eof);
            lemma_block_lists(t, base, TokenType::Eof);
            if let Ok(u) = t.block(TokenType::Eof) {
                lemma_emit(u, "return 0;"@);
                lemma_emit(u.emit_line("return 0;"@), "}"@);
            }
        }
    }
}

/// A `LABEL` statement that is accepted records the label it names.
pub proof fn lemma_label_is_recorded(s: ParserView)
    requires
        s.wf(),
        s.cur.kind == TokenType::Label,
    ensures
        s.statement() matches Ok(t) ==> t.labels_declared.contains(s.peek.text),
{
    lemma_advance(s);
    if let Ok(t) = s.advance() {
        let name = t.cur.text;
        if !t.labels_declared.contains(name) {
            lemma_with_name_distinct(t.labels_declared, name);
            let u = ParserView { labels_declared: t.labels_declared.push(name), ..t };
            assert(u.labels_declared == with_name(t.labels_declared, name));
            lemma_emit(u, name + ":"@);
            lemma_expect(u.emit_line(name + ":"@), TokenType::Ident);
        }
        if let Ok(b) = s.label_statement() {
            lemma_nl(b);
        }
    }
}

/// A `LABEL` statement that names a label which is defined already is
/// rejected, and as a duplicate unless the token behind the name does not
/// scan. The failure leaves the state behind the keyword: no marker is
/// emitted and the defined labels are as they were.
pub proof fn lemma_duplicate_label_is_rejected(s: ParserView)
    requires
        s.wf(),
        s.cur.kind == TokenType::Label,
        s.labels_declared.contains(s.peek.text),
    ensures
        s.statement() is Err,
        s.advance() matches Ok(t) ==> s.statement() == t.fail(
            ErrorView::DuplicateLabel(s.peek.text),
        ),
{
    lemma_advance(s);
}

/// Label definitions are unique, however far apart they stand: once a
/// `LABEL` statement was accepted, a `LABEL` statement with the same name
/// is rejected in every state that follows.
pub proof fn lemma_label_cannot_be_defined_twice(first: ParserView, second: ParserView)
    requires
        first.wf(),
        first.cur.kind == TokenType::Label,
        first.statement() matches Ok(t) && second.follows(t),
        second.wf(),
        second.cur.kind == TokenType::Label,
        second.peek.text == first.peek.text,
    ensures
        second.statement() is Err,
{
    lemma_label_is_recorded(first);
    lemma_duplicate_label_is_rejected(second);
}

/// A `GOTO` statement that is accepted records the label it names.
pub proof fn lemma_goto_is_recorded(s: ParserView)
    requires
        s.wf(),
        s.cur.kind == TokenType::Goto,
    ensures
        s.statement() matches Ok(t) ==> t.labels_gotoed.contains(s.peek.text),
{
    lemma_advance(s);
    if let Ok(t) = s.advance() {
        let name = t.cur.text;
        lemma_with_name_distinct(t.labels_gotoed, name);
        let u = ParserView { labels_gotoed: with_name(t.labels_gotoed, name), ..t };
        lemma_emit(u, "goto "@ + name + ";"@);
        lemma_expect(u.emit_line("goto "@ + name + ";"@), TokenType::Ident);
        if let Ok(b) = s.goto_statement() {
            lemma_nl(b);
        }
    }
}

/// `step` with the defined labels replaced by `labels`.
pub open spec fn with_labels(step: Step, labels: Seq<Seq<char>>) -> Step {
    match step {
        Ok(t) => Ok(ParserView { labels_declared: labels, ..t }),
        Err(f) => Err(Failure { state: ParserView { labels_declared: labels, ..f.state }, ..f }),
    }
}

/// Skipping newlines does not look at the defined labels.
pub proof fn lemma_skip_newlines_ignores_labels(s: ParserView, labels: Seq<Seq<char>>)
    requires
        s.wf(),
        labels.no_duplicates(),
    ensures
        (ParserView { labels_declared: labels, ..s }).skip_newlines() == with_labels(
            s.skip_newlines(),
            labels,
        ),
    decreases s.rank(),
{
    if s.cur.kind == TokenType::Newline {
        lemma_advance(s);
        if let Ok(t) = s.advance() {
            lemma_skip_newlines_ignores_labels(t, labels);
        }
    }
}

/// A `GOTO` is accepted whether its label is defined yet or not: what the
/// statement comes to does not depend on the labels defined so far.
pub proof fn lemma_goto_ignores_defined_labels(s: ParserView, labels: Seq<Seq<char>>)
    requires
        s.wf(),
        labels.no_duplicates(),
        s.cur.kind == TokenType::Goto,
    ensures
        (ParserView { labels_declared: labels, ..s }).statement() == with_labels(
            s.statement(),
            labels,
        ),
{
    lemma_advance(s);
    if let Ok(t) = s.advance() {
        let name = t.cur.text;
        lemma_with_name_distinct(t.labels_gotoed, name);
        let u = ParserView { labels_gotoed: with_name(t.labels_gotoed, name), ..t };
        let v = u.emit_line("goto "@ + name + ";"@);
        lemma_emit(u, "goto "@ + name + ";"@);
        lemma_expect(v, TokenType::Ident);
        if let Ok(w) = v.expect(TokenType::Ident) {
            lemma_expect(w, TokenType::Newline);
            if let Ok(x) = w.expect(TokenType::Newline) {
                lemma_skip_newlines_ignores_labels(x, labels);
            }
        }
    }
}

/// A program is accepted exactly when its statements are and every label
/// that a `GOTO` names is defined somewhere in it, before the `GOTO` or
/// behind it. Where the statements are accepted and a `GOTO` names a label
/// that is defined nowhere, the program ends with the error for such a label.
pub proof fn lemma_program_checks_labels(s: ParserView)
    requires
        s.wf(),
    ensures
        s.program() matches Ok(t) ==> s.generate() == Ok::<ParserView, Failure>(t) && forall|
            n: Seq<char>,
        | #[trigger] t.labels_gotoed.contains(n) ==> t.labels_declared.contains(n),
        s.generate() matches Ok(t) ==> (s.program() is Ok <==> forall|n: Seq<char>| #[trigger]
            t.labels_gotoed.contains(n) ==> t.labels_declared.contains(n)),
        s.generate() matches Ok(t) ==> (s.program() matches Err(e) ==> e.error matches
            ErrorView::UndeclaredLabel(n) && t.labels_gotoed.contains(n)
            && !t.labels_declared.contains(n)),
{
    if let Ok(t) = s.generate() {
        lemma_first_missing(t.labels_gotoed, t.labels_declared, 0);
        if first_missing(t.labels_gotoed, t.labels_declared, 0) is None {
            assert forall|n: Seq<char>| #[trigger]
                t.labels_gotoed.contains(n) implies t.labels_declared.contains(n) by {
                let i: int = choose|i: int| 0 <= i < t.labels_gotoed.len() && t.labels_gotoed[i] == n;
                assert(t.labels_declared.contains(t.labels_gotoed[i]));
            }
        }
    }
}

/// Compiling is a function of the source text and the path: two
/// compilations of the same text end in the same state, with the same
/// generated program or the same error.
pub proof fn lemma_compile_is_deterministic(
    first: Seq<char>,
    second: Seq<char>,
    first_path: Seq<char>,
    second_path: Seq<char>,
)
    requires
        first == second,
        first_path == second_path,
    ensures
        compiled(first, first_path) == compiled(second, second_path),
        generated(first, first_path) == generated(second, second_path),
{
}

} // verus!
