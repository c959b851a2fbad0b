//! The model of the parser: its state as plain values, and each grammar rule
//! as a function from the state before the rule to the state after it.
use crate::emitter::line;
use crate::error::ErrorView;
use crate::lex::{error_position, lemma_scan_advances, scan, well_terminated};
use crate::names::{first_missing, lemma_with_name_distinct, with_name};
use crate::token::{TokenType, TokenView};
use vstd::prelude::*;

verus! {

/// The state of a compilation: where the lexer stands, the two tokens in
/// hand, the text emitted so far and the names met so far.
pub struct ParserView {
    /// The text that is compiled, with its closing newline.
    pub source: Seq<char>,
    /// The lexer's position: behind the token `peek`.
    pub pos: int,
    /// The current token.
    pub cur: TokenView,
    /// The token behind the current one.
    pub peek: TokenView,
    /// Where the emitted text is to be written.
    pub path: Seq<char>,
    /// The emitted header section.
    pub header: Seq<char>,
    /// The emitted body section.
    pub code: Seq<char>,
    /// The variables declared so far, in order of declaration.
    pub symbols: Seq<Seq<char>>,
    /// The labels defined so far.
    pub labels_declared: Seq<Seq<char>>,
    /// The labels referenced so far, in order of first reference.
    pub labels_gotoed: Seq<Seq<char>>,
}

/// A rule that failed: the error that ends the compilation, and the state
/// in which it was raised.
pub struct Failure {
    pub error: ErrorView,
    pub state: ParserView,
}

/// The outcome of a rule: the state behind it, or the failure that ends the compilation.
pub type Step = Result<ParserView, Failure>;

/// Whether `kind` is `+` or `-`.
pub open spec fn is_sign(kind: TokenType) -> bool {
    kind == TokenType::Plus || kind == TokenType::Minus
}

/// Whether `kind` is `*` or `/`.
pub open spec fn is_factor_operator(kind: TokenType) -> bool {
    kind == TokenType::Asterisk || kind == TokenType::Slash
}

/// Whether `kind` is one of the six comparison operators.
pub open spec fn is_comparison_operator(kind: TokenType) -> bool {
    kind == TokenType::Gt || kind == TokenType::GtEq || kind == TokenType::Lt || kind
        == TokenType::LtEq || kind == TokenType::EqEq || kind == TokenType::NotEq
}

/// The placeholder that stands for a token before the first one is scanned.
pub open spec fn blank_token() -> TokenView {
    TokenView { text: Seq::<char>::empty(), kind: TokenType::Unknown }
}

impl ParserView {
    /// The text ends with a newline, the position is none before the text,
    /// and no set holds a name twice.
    pub open spec fn wf(self) -> bool {
        &&& well_terminated(self.source)
        &&& 0 <= self.pos
        &&& self.symbols.no_duplicates()
        &&& self.labels_declared.no_duplicates()
        &&& self.labels_gotoed.no_duplicates()
    }

    /// A bound on the tokens that are still to come: the characters not yet
    /// scanned, and one for each token in hand that is not the end of input.
    pub open spec fn rank(self) -> int {
        (if self.pos < self.source.len() {
            self.source.len() - self.pos
        } else {
            0int
        }) + (if self.peek.kind != TokenType::Eof {
            1int
        } else {
            0int
        }) + (if self.cur.kind != TokenType::Eof {
            1int
        } else {
            0int
        })
    }

    /// A bound on where the lexer's position can get while the rules
    /// advance past tokens that are not the end of input: the end of the
    /// text, or the position if it lies behind that, and one for each token
    /// in hand that is not the end of input.
    pub open spec fn reach(self) -> int {
        (if self.pos < self.source.len() {
            self.source.len() as int
        } else {
            self.pos
        }) + (if self.peek.kind != TokenType::Eof {
            1int
        } else {
            0int
        }) + (if self.cur.kind != TokenType::Eof {
            1int
        } else {
            0int
        })
    }

    /// The rule fails in this state with `error`.
    pub open spec fn fail(self, error: ErrorView) -> Step {
        Err(Failure { error, state: self })
    }

    /// `self` is a state that a run of rules reaches from `earlier`: the
    /// text is the same, no token came back, the position can get no
    /// further than it could, no name was forgotten and nothing that was
    /// emitted was taken back.
    pub open spec fn follows(self, earlier: ParserView) -> bool {
        &&& self.source == earlier.source
        &&& self.path == earlier.path
        &&& self.rank() <= earlier.rank()
        &&& self.reach() <= earlier.reach()
        &&& forall|n: Seq<char>| #[trigger]
            earlier.symbols.contains(n) ==> self.symbols.contains(n)
        &&& forall|n: Seq<char>| #[trigger]
            earlier.labels_declared.contains(n) ==> self.labels_declared.contains(n)
        &&& forall|n: Seq<char>| #[trigger]
            earlier.labels_gotoed.contains(n) ==> self.labels_gotoed.contains(n)
        &&& earlier.header.is_prefix_of(self.header)
        &&& earlier.code.is_prefix_of(self.code)
    }

    /// `self` knows the names that `earlier` knew, and no others, and has
    /// the same header section.
    pub open spec fn same_names(self, earlier: ParserView) -> bool {
        &&& self.symbols == earlier.symbols
        &&& self.labels_declared == earlier.labels_declared
        &&& self.labels_gotoed == earlier.labels_gotoed
        &&& self.header == earlier.header
    }

    /// Appends `text` to the body section.
    pub open spec fn emit(self, text: Seq<char>) -> ParserView {
        ParserView { code: self.code + text, ..self }
    }

    /// Appends `text` and a line terminator to the body section.
    pub open spec fn emit_line(self, text: Seq<char>) -> ParserView {
        ParserView { code: self.code + line(text), ..self }
    }

    /// Appends `text` and a line terminator to the header section.
    pub open spec fn header_line(self, text: Seq<char>) -> ParserView {
        ParserView { header: self.header + line(text), ..self }
    }

    /// Declares the variable `name` unless it is declared already: the
    /// first time, and only then, its declaration goes to the header.
    pub open spec fn declare(self, name: Seq<char>) -> ParserView {
        if self.symbols.contains(name) {
            self
        } else {
            ParserView { symbols: self.symbols.push(name), ..self }.header_line(
                "float "@ + name + ";"@,
            )
        }
    }

    /// Makes the lookahead token the current one and scans a new lookahead.
    /// Where the scan fails, the tokens in hand stay and the position is
    /// where the lexer stopped.
    pub open spec fn advance(self) -> Step {
        match scan(self.source, self.pos) {
            Ok(lx) => Ok(ParserView { cur: self.peek, peek: lx.token, pos: lx.next, ..self }),
            Err(e) => ParserView { pos: error_position(self.source, self.pos), ..self }.fail(e),
        }
    }

    /// Asks for a current token of category `kind`, and advances past it.
    pub open spec fn expect(self, kind: TokenType) -> Step {
        if self.cur.kind != kind {
            self.fail(ErrorView::UnexpectedKind { expected: kind, found: self.cur.kind })
        } else {
            self.advance()
        }
    }

    /// Advances past the newlines at the current token, if there are any.
    pub open spec fn skip_newlines(self) -> Step
        decreases self.rank(),
        when self.wf()
    {
        if self.cur.kind == TokenType::Newline {
            match self.advance() {
                Ok(t) => {
                    proof {
                        lemma_advance(self);
                    }
                    t.skip_newlines()
                },
                Err(e) => Err(e),
            }
        } else {
            Ok(self)
        }
    }

    /// nl ::= '\n'+
    pub open spec fn nl(self) -> Step {
        match self.expect(TokenType::Newline) {
            Ok(t) => t.skip_newlines(),
            Err(e) => Err(e),
        }
    }

    /// primary ::= number | ident
    ///
    /// The operand is emitted as it stands. An identifier must be a
    /// variable that was declared before.
    pub open spec fn primary(self) -> Step {
        if self.cur.kind == TokenType::Number {
            self.emit(self.cur.text).advance()
        } else if self.cur.kind == TokenType::Ident {
            if self.symbols.contains(self.cur.text) {
                self.emit(self.cur.text).advance()
            } else {
                self.fail(ErrorView::UndefinedVariable(self.cur.text))
            }
        } else {
            self.fail(ErrorView::UnexpectedToken(self.cur.text))
        }
    }

    /// unary ::= ["+" | "-"] primary
    pub open spec fn unary(self) -> Step {
        if is_sign(self.cur.kind) {
            match self.emit(self.cur.text).advance() {
                Ok(t) => t.primary(),
                Err(e) => Err(e),
            }
        } else {
            self.primary()
        }
    }

    /// {( "/" | "*" ) unary}
    pub open spec fn factors(self) -> Step
        decreases self.rank(),
        when self.wf()
    {
        if is_factor_operator(self.cur.kind) {
            match self.emit(self.cur.text).advance() {
                Ok(t) => match t.unary() {
                    Ok(u) => {
                        proof {
                            lemma_advance(self.emit(self.cur.text));
                            lemma_unary(t);
                        }
                        u.factors()
                    },
                    Err(e) => Err(e),
                },
                Err(e) => Err(e),
            }
        } else {
            Ok(self)
        }
    }

    /// term ::= unary {( "/" | "*" ) unary}
    pub open spec fn term(self) -> Step {
        match self.unary() {
            Ok(t) => t.factors(),
            Err(e) => Err(e),
        }
    }

    /// {( "-" | "+" ) term}
    pub open spec fn terms(self) -> Step
        decreases self.rank(),
        when self.wf()
    {
        if is_sign(self.cur.kind) {
            match self.emit(self.cur.text).advance() {
                Ok(t) => match t.term() {
                    Ok(u) => {
                        proof {
                            lemma_advance(self.emit(self.cur.text));
                            lemma_term(t);
                        }
                        u.terms()
                    },
                    Err(e) => Err(e),
                },
                Err(e) => Err(e),
            }
        } else {
            Ok(self)
        }
    }

    /// expression ::= term {( "-" | "+" ) term}
    pub open spec fn expression(self) -> Step {
        match self.term() {
            Ok(t) => t.terms(),
            Err(e) => Err(e),
        }
    }

    /// {comparison_operator expression}
    pub open spec fn comparisons(self) -> Step
        decreases self.rank(),
        when self.wf()
    {
        if is_comparison_operator(self.cur.kind) {
            match self.emit(self.cur.text).advance() {
                Ok(t) => match t.expression() {
                    Ok(u) => {
                        proof {
                            lemma_advance(self.emit(self.cur.text));
                            lemma_expression(t);
                        }
                        u.comparisons()
                    },
                    Err(e) => Err(e),
                },
                Err(e) => Err(e),
            }
        } else {
            Ok(self)
        }
    }

    /// comparison ::= expression (("==" | "!=" | ">" | ">=" | "<" | "<=") expression)+
    ///
    /// An expression with no comparison operator behind it is an error.
    pub open spec fn comparison(self) -> Step {
        match self.expression() {
            Ok(t) => if is_comparison_operator(t.cur.kind) {
                t.comparisons()
            } else {
                t.fail(ErrorView::MissingComparison(t.cur.text))
            },
            Err(e) => Err(e),
        }
    }

    /// "PRINT" (string | expression)
    pub open spec fn print_statement(self) -> Step {
        match self.advance() {
            Ok(t) => if t.cur.kind == TokenType::String {
                t.emit_line("printf(\""@ + t.cur.text + "\\n\");"@).advance()
            } else {
                match t.emit("printf(\"%.2f\\n\", (float)("@).expression() {
                    Ok(u) => Ok(u.emit_line("));"@)),
                    Err(e) => Err(e),
                }
            },
            Err(e) => Err(e),
        }
    }

    /// "LABEL" ident
    ///
    /// A label that is defined already is an error; a new one is recorded.
    pub open spec fn label_statement(self) -> Step {
        match self.advance() {
            Ok(t) => if t.labels_declared.contains(t.cur.text) {
                t.fail(ErrorView::DuplicateLabel(t.cur.text))
            } else {
                ParserView {
                    labels_declared: t.labels_declared.push(t.cur.text),
                    ..t
                }.emit_line(t.cur.text + ":"@).expect(TokenType::Ident)
            },
            Err(e) => Err(e),
        }
    }

    /// "GOTO" ident
    ///
    /// The label is recorded, whether it is defined yet or not.
    pub open spec fn goto_statement(self) -> Step {
        match self.advance() {
            Ok(t) => ParserView {
                labels_gotoed: with_name(t.labels_gotoed, t.cur.text),
                ..t
            }.emit_line("goto "@ + t.cur.text + ";"@).expect(TokenType::Ident),
            Err(e) => Err(e),
        }
    }

    /// "LET" ident "=" expression
    pub open spec fn let_statement(self) -> Step {
        match self.advance() {
            Ok(t) => match t.declare(t.cur.text).emit(t.cur.text + " = "@).expect(
                TokenType::Ident,
            ) {
                Ok(u) => match u.expect(TokenType::Eq) {
                    Ok(v) => match v.expression() {
                        Ok(w) => Ok(w.emit_line(";"@)),
                        Err(e) => Err(e),
                    },
                    Err(e) => Err(e),
                },
                Err(e) => Err(e),
            },
            Err(e) => Err(e),
        }
    }

    /// "INPUT" ident
    pub open spec fn input_statement(self) -> Step {
        match self.advance() {
            Ok(t) => t.declare(t.cur.text).emit_line(
                "if (0 == scanf(\"%f\", &"@ + t.cur.text + ")) {"@,
            ).emit_line(t.cur.text + " = 0;"@).emit_line("scanf(\"%*s\");"@).emit_line(
                "}"@,
            ).expect(TokenType::Ident),
            Err(e) => Err(e),
        }
    }

    /// keyword comparison then_kind nl {statement} end_kind
    ///
    /// The shape that `IF` and `WHILE` share; `opening` is what the body
    /// section gets in front of the comparison.
    pub open spec fn conditional(
        self,
        opening: Seq<char>,
        then_kind: TokenType,
        end_kind: TokenType,
    ) -> Step
        decreases self.rank(), 0int,
        when self.wf() && self.cur.kind != TokenType::Eof
    {
        match self.advance() {
            Ok(t) => match t.emit(opening).comparison() {
                Ok(u) => match u.expect(then_kind) {
                    Ok(v) => match v.nl() {
                        Ok(w) => {
                            proof {
                                lemma_advance(self);
                                lemma_comparison(t.emit(opening));
                                lemma_expect(u, then_kind);
                                lemma_nl(v);
                            }
                            match w.emit_line("){"@).block(end_kind) {
                                Ok(x) => match x.expect(end_kind) {
                                    Ok(y) => Ok(y.emit_line("}"@)),
                                    Err(e) => Err(e),
                                },
                                Err(e) => Err(e),
                            }
                        },
                        Err(e) => Err(e),
                    },
                    Err(e) => Err(e),
                },
                Err(e) => Err(e),
            },
            Err(e) => Err(e),
        }
    }

    /// statement ::= (print | if | while | label | goto | let | input) nl
    pub open spec fn statement(self) -> Step
        decreases self.rank(), 1int,
        when self.wf()
    {
        let body = if self.cur.kind == TokenType::Print {
            self.print_statement()
        } else if self.cur.kind == TokenType::If {
            self.conditional("if("@, TokenType::Then, TokenType::EndIf)
        } else if self.cur.kind == TokenType::While {
            self.conditional("while("@, TokenType::Repeat, TokenType::EndWhile)
        } else if self.cur.kind == TokenType::Label {
            self.label_statement()
        } else if self.cur.kind == TokenType::Goto {
            self.goto_statement()
        } else if self.cur.kind == TokenType::Let {
            self.let_statement()
        } else if self.cur.kind == TokenType::Input {
            self.input_statement()
        } else {
            self.fail(ErrorView::InvalidStatement { text: self.cur.text, found: self.cur.kind })
        };
        match body {
            Ok(t) => t.nl(),
            Err(e) => Err(e),
        }
    }

    /// {statement}, up to a current token of category `end`.
    ///
    /// Every statement uses up a token (`lemma_statement`), so the test on
    /// the rank always holds (`lemma_block_unfolds`); it is there to make
    /// the recursion well-founded.
    pub open spec fn block(self, end: TokenType) -> Step
        decreases self.rank(), 2int,
        when self.wf()
    {
        if self.cur.kind == end {
            Ok(self)
        } else {
            match self.statement() {
                Ok(t) => if 0 <= t.rank() < self.rank() {
                    t.block(end)
                } else {
                    Ok(t)
                },
                Err(e) => Err(e),
            }
        }
    }

    /// What the end of the program checks: every label that a `GOTO`
    /// names is defined somewhere. The first that is not is the error.
    pub open spec fn check_labels(self) -> Step {
        match first_missing(self.labels_gotoed, self.labels_declared, 0) {
            Some(name) => self.fail(ErrorView::UndeclaredLabel(name)),
            None => Ok(self),
        }
    }

    /// {nl} {statement} end of input
    ///
    /// The code of the program's statements, wrapped in the entry
    /// point of the generated program.
    pub open spec fn generate(self) -> Step {
        match self.header_line("#include <stdio.h>"@).header_line(
            "int main(void) {"@,
        ).skip_newlines() {
            Ok(t) => match t.block(TokenType::Eof) {
                Ok(u) => Ok(u.emit_line("return 0;"@).emit_line("}"@)),
                Err(e) => Err(e),
            },
            Err(e) => Err(e),
        }
    }

    /// program ::= {nl} {statement} end of input
    ///
    /// The code is generated, and then the labels are checked.
    pub open spec fn program(self) -> Step {
        match self.generate() {
            Ok(t) => t.check_labels(),
            Err(e) => Err(e),
        }
    }

    /// The state in which parsing begins: the first two tokens of the text
    /// in hand, no name known yet.
    pub open spec fn start(
        source: Seq<char>,
        pos: int,
        path: Seq<char>,
        header: Seq<char>,
        code: Seq<char>,
    ) -> Step {
        match (ParserView {
            source,
            pos,
            cur: blank_token(),
            peek: blank_token(),
            path,
            header,
            code,
            symbols: Seq::empty(),
            labels_declared: Seq::empty(),
            labels_gotoed: Seq::empty(),
        }).advance() {
            Ok(t) => t.advance(),
            Err(e) => Err(e),
        }
    }
}

/// Advancing keeps the state well-formed and brings no token back; past a
/// token that is not the end of input it uses one up.
pub proof fn lemma_advance(s: ParserView)
    requires
        s.wf(),
    ensures
        s.advance() matches Ok(t) ==> t.wf() && t.same_names(s) && t.source == s.source
            && t.rank() <= s.rank() && (s.cur.kind != TokenType::Eof ==> t.follows(s) && t.rank()
            < s.rank()),
        s.advance() matches Err(f) ==> f.state.wf(),
{
    lemma_scan_advances(s.source, s.pos);
}

/// Emitting changes one section and nothing else.
pub proof fn lemma_emit(s: ParserView, text: Seq<char>)
    requires
        s.wf(),
    ensures
        s.emit(text).wf() && s.emit(text).follows(s) && s.emit(text).rank() == s.rank(),
        s.emit_line(text).wf() && s.emit_line(text).follows(s) && s.emit_line(text).rank()
            == s.rank(),
        s.header_line(text).wf() && s.header_line(text).follows(s) && s.header_line(text).rank()
            == s.rank(),
        s.declare(text).wf() && s.declare(text).follows(s) && s.declare(text).rank() == s.rank(),
        s.declare(text).symbols == with_name(s.symbols, text),
{
    lemma_with_name_distinct(s.symbols, text);
    assert(s.code.is_prefix_of(s.code + text));
    assert(s.code.is_prefix_of(s.code + line(text)));
    assert(s.header.is_prefix_of(s.header + line(text)));
    assert(s.header.is_prefix_of(s.header + line("float "@ + text + ";"@)));
}

/// What follows a state that follows another follows that one too.
pub proof fn lemma_follows_transitive(a: ParserView, b: ParserView, c: ParserView)
    requires
        b.follows(a),
        c.follows(b),
    ensures
        c.follows(a),
{
    assert forall|n: Seq<char>| #[trigger] a.symbols.contains(n) implies c.symbols.contains(n) by {
        assert(b.symbols.contains(n));
    }
    assert forall|n: Seq<char>| #[trigger]
        a.labels_declared.contains(n) implies c.labels_declared.contains(n) by {
        assert(b.labels_declared.contains(n));
    }
    assert forall|n: Seq<char>| #[trigger]
        a.labels_gotoed.contains(n) implies c.labels_gotoed.contains(n) by {
        assert(b.labels_gotoed.contains(n));
    }
    assert(a.header.is_prefix_of(c.header));
    assert(a.code.is_prefix_of(c.code));
}

/// Expecting a category is advancing past a token that has it.
pub proof fn lemma_expect(s: ParserView, kind: TokenType)
    requires
        s.wf(),
    ensures
        s.expect(kind) matches Ok(t) ==> t.wf() && t.same_names(s) && s.cur.kind == kind
            && t.source == s.source && t.rank() <= s.rank() && (kind != TokenType::Eof
            ==> t.follows(s) && t.rank() < s.rank()),
{
    lemma_advance(s);
}

/// Skipping newlines touches no name and ends at a token that is no newline.
pub proof fn lemma_skip_newlines(s: ParserView)
    requires
        s.wf(),
    ensures
        s.skip_newlines() matches Ok(t) ==> t.wf() && t.follows(s) && t.same_names(s) && t.cur.kind
            != TokenType::Newline,
    decreases s.rank(),
{
    if s.cur.kind == TokenType::Newline {
        lemma_advance(s);
        if let Ok(t) = s.advance() {
            lemma_skip_newlines(t);
            if let Ok(u) = t.skip_newlines() {
                lemma_follows_transitive(s, t, u);
            }
        }
    }
}

/// The end of a statement uses up at least one token and touches no name.
pub proof fn lemma_nl(s: ParserView)
    requires
        s.wf(),
    ensures
        s.nl() matches Ok(t) ==> t.wf() && t.follows(s) && t.same_names(s) && t.rank() < s.rank(),
{
    lemma_expect(s, TokenType::Newline);
    if let Ok(t) = s.expect(TokenType::Newline) {
        lemma_skip_newlines(t);
        if let Ok(u) = t.skip_newlines() {
            lemma_follows_transitive(s, t, u);
        }
    }
}

/// Emitting the current token and advancing past it.
pub proof fn lemma_emit_advance(s: ParserView)
    requires
        s.wf(),
    ensures
        s.emit(s.cur.text).advance() matches Ok(t) ==> t.wf() && t.same_names(s) && (s.cur.kind
            != TokenType::Eof ==> t.follows(s) && t.rank() < s.rank()),
{
    lemma_emit(s, s.cur.text);
    lemma_advance(s.emit(s.cur.text));
    if let Ok(t) = s.emit(s.cur.text).advance() {
        if s.cur.kind != TokenType::Eof {
            lemma_follows_transitive(s, s.emit(s.cur.text), t);
        }
    }
}

/// An operand uses up a token and touches no name.
pub proof fn lemma_primary(s: ParserView)
    requires
        s.wf(),
    ensures
        s.primary() matches Ok(t) ==> t.wf() && t.follows(s) && t.same_names(s) && t.rank() < s.rank(),
{
    lemma_emit_advance(s);
}

/// A signed operand uses up a token and touches no name.
pub proof fn lemma_unary(s: ParserView)
    requires
        s.wf(),
    ensures
        s.unary() matches Ok(t) ==> t.wf() && t.follows(s) && t.same_names(s) && t.rank() < s.rank(),
{
    lemma_primary(s);
    if is_sign(s.cur.kind) {
        lemma_emit_advance(s);
        if let Ok(t) = s.emit(s.cur.text).advance() {
            lemma_primary(t);
            if let Ok(u) = t.primary() {
                lemma_follows_transitive(s, t, u);
            }
        }
    }
}

/// A run of factors brings no token back and touches no name.
pub proof fn lemma_factors(s: ParserView)
    requires
        s.wf(),
    ensures
        s.factors() matches Ok(t) ==> t.wf() && t.follows(s) && t.same_names(s),
    decreases s.rank(),
{
    if is_factor_operator(s.cur.kind) {
        lemma_emit_advance(s);
        if let Ok(t) = s.emit(s.cur.text).advance() {
            lemma_unary(t);
            if let Ok(u) = t.unary() {
                lemma_follows_transitive(s, t, u);
                lemma_factors(u);
                if let Ok(v) = u.factors() {
                    lemma_follows_transitive(s, u, v);
                }
            }
        }
    }
}

/// A term uses up a token and touches no name.
pub proof fn lemma_term(s: ParserView)
    requires
        s.wf(),
    ensures
        s.term() matches Ok(t) ==> t.wf() && t.follows(s) && t.same_names(s) && t.rank() < s.rank(),
{
    lemma_unary(s);
    if let Ok(t) = s.unary() {
        lemma_factors(t);
        if let Ok(u) = t.factors() {
            lemma_follows_transitive(s, t, u);
        }
    }
}

/// A run of terms brings no token back and touches no name.
pub proof fn lemma_terms(s: ParserView)
    requires
        s.wf(),
    ensures
        s.terms() matches Ok(t) ==> t.wf() && t.follows(s) && t.same_names(s),
    decreases s.rank(),
{
    if is_sign(s.cur.kind) {
        lemma_emit_advance(s);
        if let Ok(t) = s.emit(s.cur.text).advance() {
            lemma_term(t);
            if let Ok(u) = t.term() {
                lemma_follows_transitive(s, t, u);
                lemma_terms(u);
                if let Ok(v) = u.terms() {
                    lemma_follows_transitive(s, u, v);
                }
            }
        }
    }
}

/// An expression uses up a token and touches no name.
pub proof fn lemma_expression(s: ParserView)
    requires
        s.wf(),
    ensures
        s.expression() matches Ok(t) ==> t.wf() && t.follows(s) && t.same_names(s) && t.rank() < s.rank(),
{
    lemma_term(s);
    if let Ok(t) = s.term() {
        lemma_terms(t);
        if let Ok(u) = t.terms() {
            lemma_follows_transitive(s, t, u);
        }
    }
}

/// A run of comparisons brings no token back and touches no name.
pub proof fn lemma_comparisons(s: ParserView)
    requires
        s.wf(),
    ensures
        s.comparisons() matches Ok(t) ==> t.wf() && t.follows(s) && t.same_names(s),
    decreases s.rank(),
{
    if is_comparison_operator(s.cur.kind) {
        lemma_emit_advance(s);
        if let Ok(t) = s.emit(s.cur.text).advance() {
            lemma_expression(t);
            if let Ok(u) = t.expression() {
                lemma_follows_transitive(s, t, u);
                lemma_comparisons(u);
                if let Ok(v) = u.comparisons() {
                    lemma_follows_transitive(s, u, v);
                }
            }
        }
    }
}

/// A comparison uses up a token and touches no name.
pub proof fn lemma_comparison(s: ParserView)
    requires
        s.wf(),
    ensures
        s.comparison() matches Ok(t) ==> t.wf() && t.follows(s) && t.same_names(s) && t.rank() < s.rank(),
{
    lemma_expression(s);
    if let Ok(t) = s.expression() {
        lemma_comparisons(t);
        if let Ok(u) = t.comparisons() {
            lemma_follows_transitive(s, t, u);
        }
    }
}

/// A `PRINT` statement uses up a token and forgets nothing.
pub proof fn lemma_print_statement(s: ParserView)
    requires
        s.wf(),
        s.cur.kind != TokenType::Eof,
    ensures
        s.print_statement() matches Ok(t) ==> t.wf() && t.follows(s) && t.rank() < s.rank(),
{
    lemma_advance(s);
    if let Ok(t) = s.advance() {
        if t.cur.kind == TokenType::String {
            let u = t.emit_line("printf(\""@ + t.cur.text + "\\n\");"@);
            lemma_emit(t, "printf(\""@ + t.cur.text + "\\n\");"@);
            lemma_advance(u);
            lemma_follows_transitive(s, t, u);
            if let Ok(v) = u.advance() {
                lemma_follows_transitive(s, u, v);
            }
        } else {
            let u = t.emit("printf(\"%.2f\\n\", (float)("@);
            lemma_emit(t, "printf(\"%.2f\\n\", (float)("@);
            lemma_follows_transitive(s, t, u);
            lemma_expression(u);
            if let Ok(v) = u.expression() {
                lemma_follows_transitive(s, u, v);
                lemma_emit(v, "));"@);
                lemma_follows_transitive(s, v, v.emit_line("));"@));
            }
        }
    }
}

/// A `LABEL` statement uses up a token and forgets nothing.
pub proof fn lemma_label_statement(s: ParserView)
    requires
        s.wf(),
        s.cur.kind != TokenType::Eof,
    ensures
        s.label_statement() matches Ok(t) ==> t.wf() && t.follows(s) && t.rank() < s.rank(),
{
    lemma_advance(s);
    if let Ok(t) = s.advance() {
        if !t.labels_declared.contains(t.cur.text) {
            lemma_with_name_distinct(t.labels_declared, t.cur.text);
            let u = ParserView { labels_declared: t.labels_declared.push(t.cur.text), ..t };
            assert(u.wf() && u.follows(t));
            lemma_follows_transitive(s, t, u);
            let v = u.emit_line(t.cur.text + ":"@);
            lemma_emit(u, t.cur.text + ":"@);
            lemma_follows_transitive(s, u, v);
            lemma_expect(v, TokenType::Ident);
            if let Ok(w) = v.expect(TokenType::Ident) {
                lemma_follows_transitive(s, v, w);
            }
        }
    }
}

/// A `GOTO` statement uses up a token and forgets nothing.
pub proof fn lemma_goto_statement(s: ParserView)
    requires
        s.wf(),
        s.cur.kind != TokenType::Eof,
    ensures
        s.goto_statement() matches Ok(t) ==> t.wf() && t.follows(s) && t.rank() < s.rank(),
{
    lemma_advance(s);
    if let Ok(t) = s.advance() {
        lemma_with_name_distinct(t.labels_gotoed, t.cur.text);
        let u = ParserView { labels_gotoed: with_name(t.labels_gotoed, t.cur.text), ..t };
        assert(u.wf() && u.follows(t));
        lemma_follows_transitive(s, t, u);
        let v = u.emit_line("goto "@ + t.cur.text + ";"@);
        lemma_emit(u, "goto "@ + t.cur.text + ";"@);
        lemma_follows_transitive(s, u, v);
        lemma_expect(v, TokenType::Ident);
        if let Ok(w) = v.expect(TokenType::Ident) {
            lemma_follows_transitive(s, v, w);
        }
    }
}

/// A `LET` statement uses up a token and forgets nothing.
pub proof fn lemma_let_statement(s: ParserView)
    requires
        s.wf(),
        s.cur.kind != TokenType::Eof,
    ensures
        s.let_statement() matches Ok(t) ==> t.wf() && t.follows(s) && t.rank() < s.rank(),
{
    lemma_advance(s);
    if let Ok(t) = s.advance() {
        let d = t.declare(t.cur.text);
        lemma_emit(t, t.cur.text);
        lemma_follows_transitive(s, t, d);
        let e = d.emit(t.cur.text + " = "@);
        lemma_emit(d, t.cur.text + " = "@);
        lemma_follows_transitive(s, d, e);
        lemma_expect(e, TokenType::Ident);
        if let Ok(u) = e.expect(TokenType::Ident) {
            lemma_follows_transitive(s, e, u);
            lemma_expect(u, TokenType::Eq);
            if let Ok(v) = u.expect(TokenType::Eq) {
                lemma_follows_transitive(s, u, v);
                lemma_expression(v);
                if let Ok(w) = v.expression() {
                    lemma_follows_transitive(s, v, w);
                    lemma_emit(w, ";"@);
                    lemma_follows_transitive(s, w, w.emit_line(";"@));
                }
            }
        }
    }
}

/// An `INPUT` statement uses up a token and forgets nothing.
pub proof fn lemma_input_statement(s: ParserView)
    requires
        s.wf(),
        s.cur.kind != TokenType::Eof,
    ensures
        s.input_statement() matches Ok(t) ==> t.wf() && t.follows(s) && t.rank() < s.rank(),
{
    lemma_advance(s);
    if let Ok(t) = s.advance() {
        let d = t.declare(t.cur.text);
        lemma_emit(t, t.cur.text);
        lemma_follows_transitive(s, t, d);
        let e1 = d.emit_line("if (0 == scanf(\"%f\", &"@ + t.cur.text + ")) {"@);
        lemma_emit(d, "if (0 == scanf(\"%f\", &"@ + t.cur.text + ")) {"@);
        lemma_follows_transitive(s, d, e1);
        let e2 = e1.emit_line(t.cur.text + " = 0;"@);
        lemma_emit(e1, t.cur.text + " = 0;"@);
        lemma_follows_transitive(s, e1, e2);
        let e3 = e2.emit_line("scanf(\"%*s\");"@);
        lemma_emit(e2, "scanf(\"%*s\");"@);
        lemma_follows_transitive(s, e2, e3);
        let e4 = e3.emit_line("}"@);
        lemma_emit(e3, "}"@);
        lemma_follows_transitive(s, e3, e4);
        lemma_expect(e4, TokenType::Ident);
        if let Ok(u) = e4.expect(TokenType::Ident) {
            lemma_follows_transitive(s, e4, u);
        }
    }
}

/// An `IF` or `WHILE` statement uses up a token and forgets nothing.
pub proof fn lemma_conditional(
    s: ParserView,
    opening: Seq<char>,
    then_kind: TokenType,
    end_kind: TokenType,
)
    requires
        s.wf(),
        s.cur.kind != TokenType::Eof,
        then_kind != TokenType::Eof,
        end_kind != TokenType::Eof,
    ensures
        s.conditional(opening, then_kind, end_kind) matches Ok(t) ==> t.wf() && t.follows(s)
            && t.rank() < s.rank(),
    decreases s.rank(), 0int,
{
    lemma_advance(s);
    if let Ok(t) = s.advance() {
        let t1 = t.emit(opening);
        lemma_emit(t, opening);
        lemma_follows_transitive(s, t, t1);
        lemma_comparison(t1);
        if let Ok(u) = t1.comparison() {
            lemma_follows_transitive(s, t1, u);
            lemma_expect(u, then_kind);
            if let Ok(v) = u.expect(then_kind) {
                lemma_follows_transitive(s, u, v);
                lemma_nl(v);
                if let Ok(w) = v.nl() {
                    lemma_follows_transitive(s, v, w);
                    let w1 = w.emit_line("){"@);
                    lemma_emit(w, "){"@);
                    lemma_follows_transitive(s, w, w1);
                    lemma_block(w1, end_kind);
                    if let Ok(x) = w1.block(end_kind) {
                        lemma_follows_transitive(s, w1, x);
                        lemma_expect(x, end_kind);
                        if let Ok(y) = x.expect(end_kind) {
                            lemma_follows_transitive(s, x, y);
                            lemma_emit(y, "}"@);
                            lemma_follows_transitive(s, y, y.emit_line("}"@));
                        }
                    }
                }
            }
        }
    }
}

/// A statement keeps the state well-formed, forgets nothing and uses up
/// at least one token.
pub proof fn lemma_statement(s: ParserView)
    requires
        s.wf(),
    ensures
        s.statement() matches Ok(t) ==> t.wf() && t.follows(s) && t.rank() < s.rank(),
    decreases s.rank(), 1int,
{
    let body = if s.cur.kind == TokenType::Print {
        lemma_print_statement(s);
        s.print_statement()
    } else if s.cur.kind == TokenType::If {
        lemma_conditional(s, "if("@, TokenType::Then, TokenType::EndIf);
        s.conditional("if("@, TokenType::Then, TokenType::EndIf)
    } else if s.cur.kind == TokenType::While {
        lemma_conditional(s, "while("@, TokenType::Repeat, TokenType::EndWhile);
        s.conditional("while("@, TokenType::Repeat, TokenType::EndWhile)
    } else if s.cur.kind == TokenType::Label {
        lemma_label_statement(s);
        s.label_statement()
    } else if s.cur.kind == TokenType::Goto {
        lemma_goto_statement(s);
        s.goto_statement()
    } else if s.cur.kind == TokenType::Let {
        lemma_let_statement(s);
        s.let_statement()
    } else if s.cur.kind == TokenType::Input {
        lemma_input_statement(s);
        s.input_statement()
    } else {
        s.fail(ErrorView::InvalidStatement { text: s.cur.text, found: s.cur.kind })
    };
    if let Ok(t) = body {
        lemma_nl(t);
        if let Ok(u) = t.nl() {
            lemma_follows_transitive(s, t, u);
        }
    }
}

/// A run of statements keeps the state well-formed, forgets nothing and
/// ends at a token of the category that closes it.
pub proof fn lemma_block(s: ParserView, end: TokenType)
    requires
        s.wf(),
    ensures
        s.block(end) matches Ok(t) ==> t.wf() && t.follows(s) && t.cur.kind == end,
    decreases s.rank(), 2int,
{
    if s.cur.kind != end {
        lemma_statement(s);
        if let Ok(t) = s.statement() {
            lemma_block(t, end);
            if let Ok(u) = t.block(end) {
                lemma_follows_transitive(s, t, u);
            }
        }
    }
}

/// A run of statements is the first statement followed by the rest of the run.
pub proof fn lemma_block_unfolds(s: ParserView, end: TokenType)
    requires
        s.wf(),
        s.cur.kind != end,
    ensures
        s.block(end) == match s.statement() {
            Ok(t) => t.block(end),
            Err(e) => Err(e),
        },
{
    lemma_statement(s);
}

/// A program that is accepted ends well-formed, at the end of input, with
/// nothing forgotten.
pub proof fn lemma_program(s: ParserView)
    requires
        s.wf(),
    ensures
        s.program() matches Ok(t) ==> t.wf() && t.follows(s) && t.cur.kind == TokenType::Eof,
{
    let s1 = s.header_line("#include <stdio.h>"@);
    lemma_emit(s, "#include <stdio.h>"@);
    let s2 = s1.header_line("int main(void) {"@);
    lemma_emit(s1, "int main(void) {"@);
    lemma_follows_transitive(s, s1, s2);
    lemma_skip_newlines(s2);
    if let Ok(t) = s2.skip_newlines() {
        lemma_follows_transitive(s, s2, t);
        lemma_block(t, TokenType::Eof);
        if let Ok(u) = t.block(TokenType::Eof) {
            lemma_follows_transitive(s, t, u);
            let u1 = u.emit_line("return 0;"@);
            lemma_emit(u, "return 0;"@);
            lemma_follows_transitive(s, u, u1);
            lemma_emit(u1, "}"@);
            lemma_follows_transitive(s, u1, u1.emit_line("}"@));
        }
    }
}

/// Parsing begins in a well-formed state with the sections as they were
/// handed over and no name known.
pub proof fn lemma_start(
    source: Seq<char>,
    pos: int,
    path: Seq<char>,
    header: Seq<char>,
    code: Seq<char>,
)
    requires
        well_terminated(source),
        0 <= pos,
    ensures
        ParserView::start(source, pos, path, header, code) matches Ok(t) ==> t.wf() && t.source
            == source && t.path == path && t.header == header && t.code == code && t.symbols
            == Seq::<Seq<char>>::empty() && t.labels_declared == Seq::<Seq<char>>::empty()
            && t.labels_gotoed == Seq::<Seq<char>>::empty() && t.reach() <= (if pos
            < source.len() {
            source.len() as int
        } else {
            pos
        }) + 2,
{
    let s = ParserView {
        source,
        pos,
        cur: blank_token(),
        peek: blank_token(),
        path,
        header,
        code,
        symbols: Seq::empty(),
        labels_declared: Seq::empty(),
        labels_gotoed: Seq::empty(),
    };
    lemma_advance(s);
    if let Ok(t) = s.advance() {
        lemma_advance(t);
    }
}

} // verus!
