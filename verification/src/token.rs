//! The vocabulary of tokens and the keyword table.
use vstd::prelude::*;
use vstd::string::*;

verus! {

/// The category of a token.
#[derive(Copy, Clone, Debug, PartialEq, Eq, Structural)]
pub enum TokenType {
    Unknown,
    Eof,
    Newline,
    Number,
    Ident,
    String,
    // Keywords
    Label,
    Goto,
    Print,
    Input,
    Let,
    If,
    Then,
    EndIf,
    While,
    Repeat,
    EndWhile,
    // Operators
    Eq,
    Plus,
    Minus,
    Asterisk,
    Slash,
    EqEq,
    NotEq,
    Lt,
    LtEq,
    Gt,
    GtEq,
}

/// The keyword that a lexeme spells, or `Unknown` when it spells none.
pub open spec fn keyword_kind(text: Seq<char>) -> TokenType {
    if text == "LABEL"@ {
        TokenType::Label
    } else if text == "GOTO"@ {
        TokenType::Goto
    } else if text == "PRINT"@ {
        TokenType::Print
    } else if text == "INPUT"@ {
        TokenType::Input
    } else if text == "LET"@ {
        TokenType::Let
    } else if text == "IF"@ {
        TokenType::If
    } else if text == "THEN"@ {
        TokenType::Then
    } else if text == "ENDIF"@ {
        TokenType::EndIf
    } else if text == "WHILE"@ {
        TokenType::While
    } else if text == "REPEAT"@ {
        TokenType::Repeat
    } else if text == "ENDWHILE"@ {
        TokenType::EndWhile
    } else {
        TokenType::Unknown
    }
}

/// The printed name of a token category, as it appears in messages.
pub open spec fn kind_name(kind: TokenType) -> Seq<char> {
    match kind {
        TokenType::Unknown => "Unknown"@,
        TokenType::Eof => "Eof"@,
        TokenType::Newline => "Newline"@,
        TokenType::Number => "Number"@,
        TokenType::Ident => "Ident"@,
        TokenType::String => "String"@,
        TokenType::Label => "Label"@,
        TokenType::Goto => "Goto"@,
        TokenType::Print => "Print"@,
        TokenType::Input => "Input"@,
        TokenType::Let => "Let"@,
        TokenType::If => "If"@,
        TokenType::Then => "Then"@,
        TokenType::EndIf => "EndIf"@,
        TokenType::While => "While"@,
        TokenType::Repeat => "Repeat"@,
        TokenType::EndWhile => "EndWhile"@,
        TokenType::Eq => "Eq"@,
        TokenType::Plus => "Plus"@,
        TokenType::Minus => "Minus"@,
        TokenType::Asterisk => "Asterisk"@,
        TokenType::Slash => "Slash"@,
        TokenType::EqEq => "EqEq"@,
        TokenType::NotEq => "NotEq"@,
        TokenType::Lt => "Lt"@,
        TokenType::LtEq => "LtEq"@,
        TokenType::Gt => "Gt"@,
        TokenType::GtEq => "GtEq"@,
    }
}

impl TokenType {
    /// The printed name of this category.
    pub fn name(self) -> (r: &'static str)
        ensures
            r@ == kind_name(self),
    {
        match self {
            TokenType::Unknown => "Unknown",
            TokenType::Eof => "Eof",
            TokenType::Newline => "Newline",
            TokenType::Number => "Number",
            TokenType::Ident => "Ident",
            TokenType::String => "String",
            TokenType::Label => "Label",
            TokenType::Goto => "Goto",
            TokenType::Print => "Print",
            TokenType::Input => "Input",
            TokenType::Let => "Let",
            TokenType::If => "If",
            TokenType::Then => "Then",
            TokenType::EndIf => "EndIf",
            TokenType::While => "While",
            TokenType::Repeat => "Repeat",
            TokenType::EndWhile => "EndWhile",
            TokenType::Eq => "Eq",
            TokenType::Plus => "Plus",
            TokenType::Minus => "Minus",
            TokenType::Asterisk => "Asterisk",
            TokenType::Slash => "Slash",
            TokenType::EqEq => "EqEq",
            TokenType::NotEq => "NotEq",
            TokenType::Lt => "Lt",
            TokenType::LtEq => "LtEq",
            TokenType::Gt => "Gt",
            TokenType::GtEq => "GtEq",
        }
    }
}

/// A token: the exact lexeme and its category.
#[derive(Debug)]
pub struct Token {
    pub text: String,
    pub kind: TokenType,
}

/// What a token is, as plain values.
pub struct TokenView {
    pub text: Seq<char>,
    pub kind: TokenType,
}

impl View for Token {
    type V = TokenView;

    open spec fn view(&self) -> TokenView {
        TokenView { text: self.text@, kind: self.kind }
    }
}

impl Clone for Token {
    fn clone(&self) -> (r: Self)
        ensures
            r@ == self@,
    {
        Token { text: self.text.clone(), kind: self.kind }
    }
}

impl Default for Token {
    /// The placeholder token: empty text, category `Unknown`.
    fn default() -> (r: Self)
        ensures
            r@ == (TokenView { text: Seq::<char>::empty(), kind: TokenType::Unknown }),
    {
        Token { text: String::new(), kind: TokenType::Unknown }
    }
}

/// Whether two strings hold the same characters.
pub(crate) fn same_text(a: &str, b: &str) -> (r: bool)
    ensures
        r == (a@ == b@),
{
    let x = String::from_str(a);
    let y = String::from_str(b);
    x == y
}

impl Token {
    /// Looks a lexeme up in the keyword table: the keyword's category on an
    /// exact match, `Unknown` otherwise.
    pub fn check_if_keyword(token_text: &str) -> (kind: TokenType)
        ensures
            kind == keyword_kind(token_text@),
    {
        if same_text(token_text, "LABEL") {
            TokenType::Label
        } else if same_text(token_text, "GOTO") {
            TokenType::Goto
        } else if same_text(token_text, "PRINT") {
            TokenType::Print
        } else if same_text(token_text, "INPUT") {
            TokenType::Input
        } else if same_text(token_text, "LET") {
            TokenType::Let
        } else if same_text(token_text, "IF") {
            TokenType::If
        } else if same_text(token_text, "THEN") {
            TokenType::Then
        } else if same_text(token_text, "ENDIF") {
            TokenType::EndIf
        } else if same_text(token_text, "WHILE") {
            TokenType::While
        } else if same_text(token_text, "REPEAT") {
            TokenType::Repeat
        } else if same_text(token_text, "ENDWHILE") {
            TokenType::EndWhile
        } else {
            TokenType::Unknown
        }
    }
}

} // verus!
