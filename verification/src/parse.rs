//! The parser: recursive descent over the token stream, emitting the C
//! code of each rule as the rule is recognised.
use crate::emitter::Emitter;
use crate::error::CompileError;
use crate::grammar::{
    is_comparison_operator, lemma_advance, lemma_comparison, lemma_expect, lemma_expression,
    lemma_nl, lemma_statement, lemma_term, lemma_unary, ParserView, Step,
};
use crate::lex::Lexer;
use crate::names::NameSet;
use crate::token::{Token, TokenType};
use vstd::prelude::*;
use vstd::string::*;

verus! {

/// The parser's state: the lexer it pulls tokens from, the emitter it
/// writes to, the current token and one token of lookahead, and the names
/// met so far.
///
/// Each rule is a method. Its contract says: the parser goes on writing to
/// the emitter it was created with; the rule ends as the model of it in
/// `grammar` says (`agrees`), with `Ok` in the state that the model gives,
/// or with the error that the model gives, in the state in which the model
/// raises it; and the parser stays well-formed. A rule asks for room to
/// count (`fits`): the lexer's cursor moves one on behind every token, the
/// end of input too, and must not pass what the machine can count.
#[derive(Debug)]
pub struct Parser<'a> {
    pub lexer: Lexer,
    pub emitter: &'a mut Emitter,
    pub cur_token: Token,
    pub peek_token: Token,
    /// Variables declared so far.
    pub symbols: NameSet,
    /// Labels defined so far.
    pub labels_declared: NameSet,
    /// Labels that a `GOTO` named so far.
    pub labels_gotoed: NameSet,
}

impl<'a> View for Parser<'a> {
    type V = ParserView;

    open spec fn view(&self) -> ParserView {
        ParserView {
            source: self.lexer.source@,
            pos: self.lexer.cur_pos as int,
            cur: self.cur_token@,
            peek: self.peek_token@,
            path: self.emitter.full_path@,
            header: self.emitter.header@,
            code: self.emitter.code@,
            symbols: self.symbols@,
            labels_declared: self.labels_declared@,
            labels_gotoed: self.labels_gotoed@,
        }
    }
}

/// A rule ended as the model says: with `Ok` in the state that `step`
/// holds, or with the error that `step` holds, in the state in which the
/// model raises it.
pub open spec fn agrees(step: Step, after: ParserView, r: Result<(), CompileError>) -> bool {
    match step {
        Ok(t) => r is Ok && after == t,
        Err(f) => r matches Err(x) && x@ == f.error && after == f.state,
    }
}

/// The three pieces one behind the other.
fn join3(a: &str, b: &str, c: &str) -> (r: String)
    ensures
        r@ == a@ + b@ + c@,
{
    String::from_str(a).concat(b).concat(c)
}

impl<'a> Parser<'a> {
    /// The lexer is well-formed, and so is the state as a whole.
    pub open spec fn wf(&self) -> bool {
        self.lexer.wf() && self@.wf()
    }

    /// The machine's limit: the lexer's cursor can count as far as the
    /// rules can still move it.
    pub open spec fn fits(&self) -> bool {
        self@.reach() <= usize::MAX
    }

    /// A parser over `lexer` that writes to `emitter`, with the first two
    /// tokens scanned. A lexical error in one of them is returned.
    pub fn new(lexer: Lexer, emitter: &'a mut Emitter) -> (r: Result<Self, CompileError>)
        requires
            lexer.wf(),
            lexer.cur_pos + 2 <= usize::MAX,
            lexer.source@.len() + 2 <= usize::MAX,
        ensures
            match ParserView::start(
                lexer.source@,
                lexer.cur_pos as int,
                old(emitter).full_path@,
                old(emitter).header@,
                old(emitter).code@,
            ) {
                Ok(t) => r matches Ok(p) && p@ == t && p.wf() && p.fits()
                    && *final(p.emitter) == *final(emitter),
                Err(f) => r matches Err(x) && x@ == f.error && *final(emitter) == *old(emitter),
            },
    {
        let mut new_self = Self {
            lexer,
            emitter,
            cur_token: Token::default(),
            peek_token: Token::default(),
            symbols: NameSet::new(),
            labels_declared: NameSet::new(),
            labels_gotoed: NameSet::new(),
        };
        proof {
            lemma_advance(new_self@);
        }
        new_self.next_token()?;
        proof {
            lemma_advance(new_self@);
        }
        new_self.next_token()?;
        Ok(new_self)
    }

    /// Whether the current token is of category `kind`.
    pub fn check_token(&self, kind: TokenType) -> (r: bool)
        ensures
            r == (self@.cur.kind == kind),
    {
        self.cur_token.kind == kind
    }

    /// Asks for a current token of category `kind` and advances past it;
    /// a token of another category is an error.
    pub fn match_token(&mut self, kind: TokenType) -> (r: Result<(), CompileError>)
        requires
            old(self).wf(),
            old(self)@.cur.kind == kind ==> old(self).lexer.cur_pos < usize::MAX,
        ensures
            *final(final(self).emitter) == *final(old(self).emitter),
            *final(self).emitter == *old(self).emitter,
            agrees(old(self)@.expect(kind), final(self)@, r),
            final(self).wf(),
    {
        if self.cur_token.kind != kind {
            return Err(CompileError::UnexpectedKind { expected: kind, found: self.cur_token.kind });
        }
        proof {
            lemma_advance(self@);
        }
        self.next_token()
    }

    /// Makes the lookahead token the current one and scans a new lookahead.
    pub fn next_token(&mut self) -> (r: Result<(), CompileError>)
        requires
            old(self).wf(),
            old(self).lexer.cur_pos < usize::MAX,
        ensures
            *final(final(self).emitter) == *final(old(self).emitter),
            *final(self).emitter == *old(self).emitter,
            agrees(old(self)@.advance(), final(self)@, r),
            final(self).wf(),
    {
        let token = self.lexer.get_token()?;
        self.cur_token = self.peek_token.clone();
        self.peek_token = token;
        Ok(())
    }

    /// Advances past the newlines at the current token, if there are any.
    fn skip_newlines(&mut self) -> (r: Result<(), CompileError>)
        requires
            old(self).wf(),
            old(self).fits(),
        ensures
            *final(final(self).emitter) == *final(old(self).emitter),
            r is Ok ==> final(self).fits(),
            agrees(old(self)@.skip_newlines(), final(self)@, r),
            final(self).wf(),
    {
        while self.check_token(TokenType::Newline)
            invariant
                self.wf(),
                self.fits(),
                *final(self.emitter) == *final(old(self).emitter),
                self@.skip_newlines() == old(self)@.skip_newlines(),
            decreases self@.rank(),
        {
            proof {
                lemma_advance(self@);
            }
            self.next_token()?;
        }
        Ok(())
    }

    /// nl ::= '\n'+
    pub fn nl(&mut self) -> (r: Result<(), CompileError>)
        requires
            old(self).wf(),
            old(self).fits(),
        ensures
            *final(final(self).emitter) == *final(old(self).emitter),
            r is Ok ==> final(self).fits(),
            agrees(old(self)@.nl(), final(self)@, r),
            final(self).wf(),
    {
        // Require at least one newline
        proof {
            lemma_expect(self@, TokenType::Newline);
        }
        self.match_token(TokenType::Newline)?;
        // But allow extra newlines too
        self.skip_newlines()
    }

    /// program ::= {nl} {statement} end of input
    ///
    /// Compiles the whole program: writes the entry point of the generated
    /// program round the code of the statements and, at the end, checks
    /// that every label a `GOTO` names is defined.
    pub fn program(&mut self) -> (r: Result<(), CompileError>)
        requires
            old(self).wf(),
            old(self).fits(),
        ensures
            *final(final(self).emitter) == *final(old(self).emitter),
            r is Ok ==> final(self).fits(),
            agrees(old(self)@.program(), final(self)@, r),
            final(self).wf(),
    {
        self.emitter.header_line("#include <stdio.h>");
        self.emitter.header_line("int main(void) {");
        // Some newlines are required by the grammar; skip the excess
        self.skip_newlines()?;
        // Parse all the statements in the program
        while !self.check_token(TokenType::Eof)
            invariant
                self.wf(),
                self.fits(),
                *final(self.emitter) == *final(old(self).emitter),
                old(self)@.generate() == (match self@.block(TokenType::Eof) {
                    Ok(u) => Ok(u.emit_line("return 0;"@).emit_line("}"@)),
                    Err(e) => Err(e),
                }),
            decreases self@.rank(),
        {
            proof {
                lemma_statement(self@);
            }
            self.statement()?;
        }
        // Wrap things up
        self.emitter.emit_line("return 0;");
        self.emitter.emit_line("}");
        // Check that each label referenced in a GOTO is declared
        match self.labels_gotoed.first_missing_from(&self.labels_declared) {
            Some(name) => Err(CompileError::UndeclaredLabel(name)),
            None => {
                Ok(())
            },
        }
    }

    /// statement ::= (print | if | while | label | goto | let | input) nl
    pub fn statement(&mut self) -> (r: Result<(), CompileError>)
        requires
            old(self).wf(),
            old(self).fits(),
        ensures
            *final(final(self).emitter) == *final(old(self).emitter),
            r is Ok ==> final(self).fits(),
            agrees(old(self)@.statement(), final(self)@, r),
            final(self).wf(),
        decreases old(self)@.rank(), 1int,
    {
        // The first token says what kind of statement this is.
        if self.check_token(TokenType::Print) {
            // "PRINT" (expression | string)
            proof {
                lemma_advance(self@);
            }
            self.next_token()?;
            if self.check_token(TokenType::String) {
                let text = join3("printf(\"", self.cur_token.text.as_str(), "\\n\");");
                self.emitter.emit_line(text.as_str());
                proof {
                    lemma_advance(self@);
                }
                self.next_token()?;
            } else {
                self.emitter.emit("printf(\"%.2f\\n\", (float)(");
                self.expression()?;
                self.emitter.emit_line("));");
            }
        } else if self.check_token(TokenType::If) {
            // "IF" comparison "THEN" nl {statement} "ENDIF"
            self.conditional("if(", TokenType::Then, TokenType::EndIf)?;
        } else if self.check_token(TokenType::While) {
            // "WHILE" comparison "REPEAT" nl {statement} "ENDWHILE"
            self.conditional("while(", TokenType::Repeat, TokenType::EndWhile)?;
        } else if self.check_token(TokenType::Label) {
            // "LABEL" ident
            proof {
                lemma_advance(self@);
            }
            self.next_token()?;
            // Make sure this label doesn't already exist.
            if self.labels_declared.contains(self.cur_token.text.as_str()) {
                return Err(CompileError::DuplicateLabel(self.cur_token.text.clone()));
            }
            self.labels_declared.insert(self.cur_token.text.clone());
            let text = String::from_str(self.cur_token.text.as_str()).concat(":");
            self.emitter.emit_line(text.as_str());
            proof {
                lemma_expect(self@, TokenType::Ident);
            }
            self.match_token(TokenType::Ident)?;
        } else if self.check_token(TokenType::Goto) {
            // "GOTO" ident
            proof {
                lemma_advance(self@);
            }
            self.next_token()?;
            self.labels_gotoed.insert(self.cur_token.text.clone());
            let text = join3("goto ", self.cur_token.text.as_str(), ";");
            self.emitter.emit_line(text.as_str());
            proof {
                lemma_expect(self@, TokenType::Ident);
            }
            self.match_token(TokenType::Ident)?;
        } else if self.check_token(TokenType::Let) {
            // "LET" ident "=" expression
            proof {
                lemma_advance(self@);
            }
            self.next_token()?;
            self.declare();
            let text = String::from_str(self.cur_token.text.as_str()).concat(" = ");
            self.emitter.emit(text.as_str());
            proof {
                lemma_expect(self@, TokenType::Ident);
            }
            self.match_token(TokenType::Ident)?;
            proof {
                lemma_expect(self@, TokenType::Eq);
            }
            self.match_token(TokenType::Eq)?;
            self.expression()?;
            self.emitter.emit_line(";");
        } else if self.check_token(TokenType::Input) {
            // "INPUT" ident
            proof {
                lemma_advance(self@);
            }
            self.next_token()?;
            self.declare();
            let test = join3("if (0 == scanf(\"%f\", &", self.cur_token.text.as_str(), ")) {");
            self.emitter.emit_line(test.as_str());
            let reset = String::from_str(self.cur_token.text.as_str()).concat(" = 0;");
            self.emitter.emit_line(reset.as_str());
            self.emitter.emit_line("scanf(\"%*s\");");
            self.emitter.emit_line("}");
            proof {
                lemma_expect(self@, TokenType::Ident);
            }
            self.match_token(TokenType::Ident)?;
        } else {
            return Err(
                CompileError::InvalidStatement {
                    text: self.cur_token.text.clone(),
                    found: self.cur_token.kind,
                },
            );
        }
        // Newline
        self.nl()
    }

    /// Declares the variable that the current token names, unless it is
    /// declared already.
    fn declare(&mut self)
        requires
            old(self).wf(),
        ensures
            *final(final(self).emitter) == *final(old(self).emitter),
            final(self)@ == old(self)@.declare(old(self)@.cur.text),
            final(self).wf(),
            final(self).fits() == old(self).fits(),
    {
        if !self.symbols.contains(self.cur_token.text.as_str()) {
            self.symbols.insert(self.cur_token.text.clone());
            let text = join3("float ", self.cur_token.text.as_str(), ";");
            self.emitter.header_line(text.as_str());
        }
    }

    /// keyword comparison then_kind nl {statement} end_kind
    fn conditional(&mut self, opening: &str, then_kind: TokenType, end_kind: TokenType) -> (r:
        Result<(), CompileError>)
        requires
            old(self).wf(),
            old(self).fits(),
            old(self)@.cur.kind != TokenType::Eof,
            then_kind != TokenType::Eof,
            end_kind != TokenType::Eof,
        ensures
            *final(final(self).emitter) == *final(old(self).emitter),
            r is Ok ==> final(self).fits(),
            agrees(old(self)@.conditional(opening@, then_kind, end_kind), final(self)@, r),
            final(self).wf(),
        decreases old(self)@.rank(), 0int,
    {
        proof {
            lemma_advance(self@);
        }
        self.next_token()?;
        self.emitter.emit(opening);
        proof {
            lemma_comparison(self@);
        }
        self.comparison()?;
        proof {
            lemma_expect(self@, then_kind);
        }
        self.match_token(then_kind)?;
        proof {
            lemma_nl(self@);
        }
        self.nl()?;
        self.emitter.emit_line("){");
        while !self.check_token(end_kind)
            invariant
                self.wf(),
                self.fits(),
                *final(self.emitter) == *final(old(self).emitter),
                self@.rank() < old(self)@.rank(),
                old(self)@.conditional(opening@, then_kind, end_kind) == (match self@.block(
                    end_kind,
                ) {
                    Ok(x) => match x.expect(end_kind) {
                        Ok(y) => Ok(y.emit_line("}"@)),
                        Err(e) => Err(e),
                    },
                    Err(e) => Err(e),
                }),
            decreases self@.rank(),
        {
            proof {
                lemma_statement(self@);
            }
            self.statement()?;
        }
        proof {
            lemma_expect(self@, end_kind);
        }
        self.match_token(end_kind)?;
        self.emitter.emit_line("}");
        Ok(())
    }

    /// comparison ::= expression (("==" | "!=" | ">" | ">=" | "<" | "<=") expression)+
    pub fn comparison(&mut self) -> (r: Result<(), CompileError>)
        requires
            old(self).wf(),
            old(self).fits(),
        ensures
            *final(final(self).emitter) == *final(old(self).emitter),
            r is Ok ==> final(self).fits(),
            agrees(old(self)@.comparison(), final(self)@, r),
            final(self).wf(),
    {
        self.expression()?;
        // Must be at least one comparison operator and another expression
        if !self.is_comparison_operator() {
            return Err(CompileError::MissingComparison(self.cur_token.text.clone()));
        }
        while self.is_comparison_operator()
            invariant
                self.wf(),
                self.fits(),
                *final(self.emitter) == *final(old(self).emitter),
                self@.comparisons() == old(self)@.comparison(),
            decreases self@.rank(),
        {
            self.emitter.emit(self.cur_token.text.as_str());
            proof {
                lemma_advance(self@);
            }
            self.next_token()?;
            proof {
                lemma_expression(self@);
            }
            self.expression()?;
        }
        Ok(())
    }

    /// expression ::= term {( "-" | "+" ) term}
    pub fn expression(&mut self) -> (r: Result<(), CompileError>)
        requires
            old(self).wf(),
            old(self).fits(),
        ensures
            *final(final(self).emitter) == *final(old(self).emitter),
            r is Ok ==> final(self).fits(),
            agrees(old(self)@.expression(), final(self)@, r),
            final(self).wf(),
    {
        self.term()?;
        // Can have 0 or more +/- and terms
        while self.check_token(TokenType::Plus) || self.check_token(TokenType::Minus)
            invariant
                self.wf(),
                self.fits(),
                *final(self.emitter) == *final(old(self).emitter),
                self@.terms() == old(self)@.expression(),
            decreases self@.rank(),
        {
            self.emitter.emit(self.cur_token.text.as_str());
            proof {
                lemma_advance(self@);
            }
            self.next_token()?;
            proof {
                lemma_term(self@);
            }
            self.term()?;
        }
        Ok(())
    }

    /// term ::= unary {( "/" | "*" ) unary}
    pub fn term(&mut self) -> (r: Result<(), CompileError>)
        requires
            old(self).wf(),
            old(self).fits(),
        ensures
            *final(final(self).emitter) == *final(old(self).emitter),
            r is Ok ==> final(self).fits(),
            agrees(old(self)@.term(), final(self)@, r),
            final(self).wf(),
    {
        self.unary()?;
        // Can have 0 or more * or / and operands
        while self.check_token(TokenType::Slash) || self.check_token(TokenType::Asterisk)
            invariant
                self.wf(),
                self.fits(),
                *final(self.emitter) == *final(old(self).emitter),
                self@.factors() == old(self)@.term(),
            decreases self@.rank(),
        {
            self.emitter.emit(self.cur_token.text.as_str());
            proof {
                lemma_advance(self@);
            }
            self.next_token()?;
            proof {
                lemma_unary(self@);
            }
            self.unary()?;
        }
        Ok(())
    }

    /// unary ::= ["+" | "-"] primary
    pub fn unary(&mut self) -> (r: Result<(), CompileError>)
        requires
            old(self).wf(),
            old(self).fits(),
        ensures
            *final(final(self).emitter) == *final(old(self).emitter),
            r is Ok ==> final(self).fits(),
            agrees(old(self)@.unary(), final(self)@, r),
            final(self).wf(),
    {
        if self.check_token(TokenType::Plus) || self.check_token(TokenType::Minus) {
            self.emitter.emit(self.cur_token.text.as_str());
            proof {
                lemma_advance(self@);
            }
            self.next_token()?;
        }
        self.primary()
    }

    /// primary ::= number | ident
    ///
    /// An identifier must name a variable that a `LET` or `INPUT` before
    /// it declared.
    pub fn primary(&mut self) -> (r: Result<(), CompileError>)
        requires
            old(self).wf(),
            old(self).fits(),
        ensures
            *final(final(self).emitter) == *final(old(self).emitter),
            r is Ok ==> final(self).fits(),
            agrees(old(self)@.primary(), final(self)@, r),
            final(self).wf(),
    {
        if self.check_token(TokenType::Number) {
            self.emitter.emit(self.cur_token.text.as_str());
            proof {
                lemma_advance(self@);
            }
            self.next_token()
        } else if self.check_token(TokenType::Ident) {
            if !self.symbols.contains(self.cur_token.text.as_str()) {
                return Err(CompileError::UndefinedVariable(self.cur_token.text.clone()));
            }
            self.emitter.emit(self.cur_token.text.as_str());
            proof {
                lemma_advance(self@);
            }
            self.next_token()
        } else {
            Err(CompileError::UnexpectedToken(self.cur_token.text.clone()))
        }
    }

    /// Whether the current token is a comparison operator.
    fn is_comparison_operator(&self) -> (r: bool)
        ensures
            r == is_comparison_operator(self@.cur.kind),
    {
        self.check_token(TokenType::Gt) || self.check_token(TokenType::GtEq) || self.check_token(
            TokenType::Lt,
        ) || self.check_token(TokenType::LtEq) || self.check_token(TokenType::EqEq)
            || self.check_token(TokenType::NotEq)
    }
}

} // verus!
