//! The output sink: two append-only text sections.
use vstd::prelude::*;
use vstd::string::*;

verus! {

/// Collects the generated program in two sections. Declarations that turn up
/// in the middle of the source go to `header`, the code of the statements to
/// `code`; in the finished text the header comes first.
#[derive(Debug)]
pub struct Emitter {
    pub full_path: String,
    pub header: String,
    pub code: String,
}

/// A piece of text followed by a line terminator.
pub open spec fn line(text: Seq<char>) -> Seq<char> {
    text.push('\n')
}

impl Emitter {
    /// An emitter with both sections empty, to be written to `full_path`.
    pub fn new(full_path: &str) -> (e: Self)
        ensures
            e.full_path@ == full_path@,
            e.header@ == Seq::<char>::empty(),
            e.code@ == Seq::<char>::empty(),
    {
        Self { full_path: String::from_str(full_path), header: String::new(), code: String::new() }
    }

    /// Appends `code` to the body section.
    pub fn emit(&mut self, code: &str)
        ensures
            final(self).code@ == old(self).code@ + code@,
            final(self).header == old(self).header,
            final(self).full_path == old(self).full_path,
    {
        self.code.append(code);
    }

    /// Appends `code` and a line terminator to the body section.
    pub fn emit_line(&mut self, code: &str)
        ensures
            final(self).code@ == old(self).code@ + line(code@),
            final(self).header == old(self).header,
            final(self).full_path == old(self).full_path,
    {
        proof {
            reveal_strlit("\n");
        }
        self.code.append(code);
        self.code.append("\n");
        assert(self.code@ =~= old(self).code@ + line(code@));
    }

    /// Appends `code` and a line terminator to the header section.
    pub fn header_line(&mut self, code: &str)
        ensures
            final(self).header@ == old(self).header@ + line(code@),
            final(self).code == old(self).code,
            final(self).full_path == old(self).full_path,
    {
        proof {
            reveal_strlit("\n");
        }
        self.header.append(code);
        self.header.append("\n");
        assert(self.header@ =~= old(self).header@ + line(code@));
    }

    /// The finished text: the header section followed by the body section.
    pub fn contents(&self) -> (text: String)
        ensures
            text@ == self.header@ + self.code@,
    {
        self.header.clone().concat(self.code.as_str())
    }
}

} // verus!
