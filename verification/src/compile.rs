//! A whole compilation, from source text to the generated program.
use crate::emitter::Emitter;
use crate::error::{CompileError, ErrorView};
use crate::grammar::{lemma_program, lemma_start, ParserView, Step};
use crate::lex::Lexer;
use crate::parse::Parser;
use vstd::prelude::*;
use vstd::string::*;

verus! {

/// What compiling `source` comes to: the state in which the parser ends,
/// whose `header` and `code` are the two sections of the generated program,
/// or the error that stops the compilation. The text is compiled with one
/// newline appended, from its start, into empty sections.
pub open spec fn compiled(source: Seq<char>, path: Seq<char>) -> Step {
    match ParserView::start(source.push('\n'), 0, path, Seq::empty(), Seq::empty()) {
        Ok(t) => t.program(),
        Err(e) => Err(e),
    }
}

/// The generated program: the header section followed by the body section.
pub open spec fn generated(source: Seq<char>, path: Seq<char>) -> Result<Seq<char>, ErrorView> {
    match compiled(source, path) {
        Ok(t) => Ok(t.header + t.code),
        Err(f) => Err(f.error),
    }
}

/// Compiles `source` with a fresh lexer, parser and emitter. Returns the
/// emitter that holds the generated program, to be written to `full_path`,
/// or the first error. A text so long that the lexer's cursor could not
/// count past its end is refused before anything is scanned.
pub fn compile(source: &str, full_path: &str) -> (r: Result<Emitter, CompileError>)
    ensures
        source@.len() + 3 > usize::MAX ==> (r matches Err(e) && e@ == ErrorView::SourceTooLong),
        source@.len() + 3 <= usize::MAX ==> match compiled(source@, full_path@) {
            Ok(t) => r matches Ok(e) && e.full_path@ == full_path@ && e.header@ == t.header
                && e.code@ == t.code,
            Err(f) => r matches Err(e) && e@ == f.error,
        },
{
    let n: usize = source.unicode_len();
    if n > usize::MAX - 3 {
        return Err(CompileError::SourceTooLong);
    }
    let lexer = Lexer::new(source);
    let mut emitter = Emitter::new(full_path);
    proof {
        lemma_start(lexer.source@, 0, full_path@, Seq::empty(), Seq::empty());
    }
    let mut parser = Parser::new(lexer, &mut emitter)?;
    proof {
        lemma_program(parser@);
    }
    parser.program()?;
    Ok(emitter)
}

} // verus!
