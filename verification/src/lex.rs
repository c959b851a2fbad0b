//! The lexer: from characters to tokens, one token per call.
use crate::error::{CompileError, ErrorView};
use crate::token::{keyword_kind, Token, TokenType, TokenView};
use vstd::prelude::*;
use vstd::string::*;

verus! {

/// Whether `c` has the Unicode property Alphabetic, as `char::is_alphabetic`
/// of the standard library reports it.
pub uninterp spec fn unicode_alphabetic(c: char) -> bool;

/// `char::is_alphabetic` of the standard library. Its answer is taken on
/// trust to depend on the character alone; `unicode_alphabetic` names it.
pub assume_specification[ char::is_alphabetic ](c: char) -> (b: bool)
    ensures
        b == unicode_alphabetic(c),
;

/// Whether `c` is a control character: one of the code points up to
/// U+001F, or from U+007F to U+009F. Newline, carriage return and tab are
/// among them.
pub open spec fn is_control(c: char) -> bool {
    c <= '\u{1f}' || ('\u{7f}' <= c && c <= '\u{9f}')
}

/// Whether `c` is a control character.
fn is_control_char(c: char) -> (r: bool)
    ensures
        r == is_control(c),
{
    c <= '\u{1f}' || ('\u{7f}' <= c && c <= '\u{9f}')
}

/// Whether `c` is one of the ten decimal digits.
fn is_digit_char(c: char) -> (r: bool)
    ensures
        r == CharClass::Digit.holds(c),
{
    '0' <= c && c <= '9'
}

/// The classes of characters that a lexeme, or the gap before one, is a run of.
pub enum CharClass {
    /// The space character, skipped between tokens.
    Space,
    /// What a comment may hold: anything but a newline.
    Comment,
    /// What a string literal may hold between its quotes: no quote, no
    /// backslash, no percent sign and no control character.
    Literal,
    /// A decimal digit.
    Digit,
    /// A letter of an identifier or keyword.
    Letter,
}

impl CharClass {
    /// Whether `c` belongs to the class.
    pub open spec fn holds(self, c: char) -> bool {
        match self {
            CharClass::Space => c == ' ',
            CharClass::Comment => c != '\n',
            CharClass::Literal => c != '"' && c != '\\' && c != '%' && !is_control(c),
            CharClass::Digit => '0' <= c && c <= '9',
            CharClass::Letter => unicode_alphabetic(c),
        }
    }
}

/// The character at `pos`, and the sentinel `'\0'` outside the text.
pub open spec fn char_at(s: Seq<char>, pos: int) -> char {
    if 0 <= pos < s.len() {
        s[pos]
    } else {
        '\0'
    }
}

/// Where the longest run of `class` characters that begins at `pos` ends:
/// the first position from `pos` on that holds no such character.
pub open spec fn run_end(s: Seq<char>, pos: int, class: CharClass) -> int
    decreases s.len() - pos,
{
    if 0 <= pos < s.len() && class.holds(s[pos]) {
        run_end(s, pos + 1, class)
    } else {
        pos
    }
}

/// Text that ends with the newline that closes its last statement.
pub open spec fn well_terminated(s: Seq<char>) -> bool {
    s.len() > 0 && s.last() == '\n'
}

/// Where the next token begins: behind the spaces at `pos` and, if a `#`
/// follows them, at the newline that ends the comment.
pub open spec fn token_start(s: Seq<char>, pos: int) -> int {
    let p: int = run_end(s, pos, CharClass::Space);
    if char_at(s, p) == '#' {
        run_end(s, p, CharClass::Comment)
    } else {
        p
    }
}

/// A scanned token and the position behind it.
pub struct Lexeme {
    pub token: TokenView,
    pub next: int,
}

/// The token whose text is `s[start..end]`.
pub open spec fn lexeme(s: Seq<char>, start: int, end: int, kind: TokenType) -> Result<
    Lexeme,
    ErrorView,
> {
    Ok(Lexeme { token: TokenView { text: s.subrange(start, end), kind }, next: end })
}

/// An operator that is one character long, or two when `=` follows it.
pub open spec fn operator(s: Seq<char>, start: int, single: TokenType, double: TokenType) -> Result<
    Lexeme,
    ErrorView,
> {
    if char_at(s, start + 1) == '=' {
        lexeme(s, start, start + 2, double)
    } else {
        lexeme(s, start, start + 1, single)
    }
}

/// A number: digits, then optionally a point and at least one more digit.
pub open spec fn number(s: Seq<char>, start: int) -> Result<Lexeme, ErrorView> {
    let whole: int = run_end(s, start, CharClass::Digit);
    if char_at(s, whole) == '.' {
        if CharClass::Digit.holds(char_at(s, whole + 1)) {
            lexeme(s, start, run_end(s, whole + 1, CharClass::Digit), TokenType::Number)
        } else {
            Err(ErrorView::IllegalNumberChar)
        }
    } else {
        lexeme(s, start, whole, TokenType::Number)
    }
}

/// A string literal whose opening quote stands at `start`. The token's text
/// is what stands between the quotes.
pub open spec fn literal(s: Seq<char>, start: int) -> Result<Lexeme, ErrorView> {
    let close: int = run_end(s, start + 1, CharClass::Literal);
    if char_at(s, close) == '"' {
        Ok(
            Lexeme {
                token: TokenView { text: s.subrange(start + 1, close), kind: TokenType::String },
                next: close + 1,
            },
        )
    } else {
        Err(ErrorView::IllegalStringChar)
    }
}

/// The category of a run of letters: its keyword, or `Ident`.
pub open spec fn word_kind(text: Seq<char>) -> TokenType {
    if keyword_kind(text) == TokenType::Unknown {
        TokenType::Ident
    } else {
        keyword_kind(text)
    }
}

/// A run of letters: a keyword if the table holds it, else an identifier.
pub open spec fn word(s: Seq<char>, start: int) -> Result<Lexeme, ErrorView> {
    let end: int = run_end(s, start, CharClass::Letter);
    lexeme(s, start, end, word_kind(s.subrange(start, end)))
}

/// The end-of-input token, at the sentinel character. The position moves
/// one on, as behind every token, also behind the text.
pub open spec fn end_of_input(start: int) -> Result<Lexeme, ErrorView> {
    Ok(Lexeme { token: TokenView { text: seq!['\0'], kind: TokenType::Eof }, next: start + 1 })
}

/// The token that begins at `start`, by its first character.
pub open spec fn token_at(s: Seq<char>, start: int) -> Result<Lexeme, ErrorView> {
    let c = char_at(s, start);
    if c == '+' {
        lexeme(s, start, start + 1, TokenType::Plus)
    } else if c == '-' {
        lexeme(s, start, start + 1, TokenType::Minus)
    } else if c == '*' {
        lexeme(s, start, start + 1, TokenType::Asterisk)
    } else if c == '/' {
        lexeme(s, start, start + 1, TokenType::Slash)
    } else if c == '\n' {
        lexeme(s, start, start + 1, TokenType::Newline)
    } else if c == '\0' {
        end_of_input(start)
    } else if c == '=' {
        operator(s, start, TokenType::Eq, TokenType::EqEq)
    } else if c == '>' {
        operator(s, start, TokenType::Gt, TokenType::GtEq)
    } else if c == '<' {
        operator(s, start, TokenType::Lt, TokenType::LtEq)
    } else if c == '!' {
        if char_at(s, start + 1) == '=' {
            lexeme(s, start, start + 2, TokenType::NotEq)
        } else {
            Err(ErrorView::LoneBang(s.subrange(start + 1, start + 2)))
        }
    } else if c == '"' {
        literal(s, start)
    } else if CharClass::Digit.holds(c) {
        number(s, start)
    } else if CharClass::Letter.holds(c) {
        word(s, start)
    } else {
        Err(ErrorView::UnknownChar(s.subrange(start, start + 1)))
    }
}

/// The next token of `s` from `pos` on, with the position behind it, or the
/// lexical error that stands in its place.
pub open spec fn scan(s: Seq<char>, pos: int) -> Result<Lexeme, ErrorView> {
    token_at(s, token_start(s, pos))
}

/// Where the cursor stands when the scan from `pos` ends in an error: at
/// the character that cannot go on the token. In a string literal that is
/// the illegal character, in a number the decimal point, else the first
/// character of what should be a token.
pub open spec fn error_position(s: Seq<char>, pos: int) -> int {
    let start: int = token_start(s, pos);
    let c = char_at(s, start);
    if c == '"' {
        run_end(s, start + 1, CharClass::Literal)
    } else if CharClass::Digit.holds(c) {
        run_end(s, start, CharClass::Digit)
    } else {
        start
    }
}

/// A run ends at or behind its start, and inside the text.
pub proof fn lemma_run_end_bounds(s: Seq<char>, pos: int, class: CharClass)
    requires
        0 <= pos <= s.len(),
    ensures
        pos <= run_end(s, pos, class) <= s.len(),
    decreases s.len() - pos,
{
    if pos < s.len() && class.holds(s[pos]) {
        lemma_run_end_bounds(s, pos + 1, class);
    }
}

/// In well-terminated text a run of characters that are no newlines ends
/// before the end of the text.
pub proof fn lemma_run_stops_at_newline(s: Seq<char>, pos: int, class: CharClass)
    requires
        well_terminated(s),
        0 <= pos < s.len(),
        !class.holds('\n'),
    ensures
        pos <= run_end(s, pos, class) < s.len(),
    decreases s.len() - pos,
{
    if class.holds(s[pos]) {
        lemma_run_stops_at_newline(s, pos + 1, class);
    }
}

/// Scanning moves forward. In the text a token ends inside the text and
/// behind the position at which the scan began. Behind the text every
/// token is the end-of-input token, and the position moves one on. A scan
/// that ends in an error stops inside the text, not before where it began.
pub proof fn lemma_scan_advances(s: Seq<char>, pos: int)
    requires
        well_terminated(s),
        0 <= pos,
    ensures
        scan(s, pos) matches Ok(lx) ==> (if pos < s.len() {
            pos < lx.next <= s.len()
        } else {
            lx.next == pos + 1 && lx.token.kind == TokenType::Eof
        }),
        scan(s, pos) is Err ==> pos <= error_position(s, pos) < s.len(),
{
    if pos >= s.len() {
        assert(run_end(s, pos, CharClass::Space) == pos);
        assert(token_start(s, pos) == pos);
        assert(scan(s, pos) == end_of_input(pos));
    } else {
        let p: int = run_end(s, pos, CharClass::Space);
        lemma_run_stops_at_newline(s, pos, CharClass::Space);
        if char_at(s, p) == '#' {
            lemma_run_stops_at_newline(s, p, CharClass::Comment);
        }
        let start: int = token_start(s, pos);
        assert(pos <= start < s.len());
        let c = s[start];
        assert(c == '\n' || start + 1 < s.len());
        if c == '"' {
            lemma_run_stops_at_newline(s, start + 1, CharClass::Literal);
            assert(literal(s, start) matches Ok(lx) ==> start < lx.next <= s.len());
        } else if CharClass::Digit.holds(c) {
            let whole: int = run_end(s, start, CharClass::Digit);
            lemma_run_stops_at_newline(s, start, CharClass::Digit);
            assert(whole == run_end(s, start + 1, CharClass::Digit));
            lemma_run_end_bounds(s, start + 1, CharClass::Digit);
            if char_at(s, whole) == '.' && CharClass::Digit.holds(char_at(s, whole + 1)) {
                lemma_run_stops_at_newline(s, whole + 1, CharClass::Digit);
            }
            assert(number(s, start) matches Ok(lx) ==> start < lx.next <= s.len());
        } else if CharClass::Letter.holds(c) {
            lemma_run_end_bounds(s, start + 1, CharClass::Letter);
            assert(run_end(s, start, CharClass::Letter) == run_end(
                s,
                start + 1,
                CharClass::Letter,
            ));
            assert(word(s, start) matches Ok(lx) ==> start < lx.next <= s.len());
        } else {
            assert(token_at(s, start) matches Ok(lx) ==> start < lx.next <= s.len());
        }
    }
}

/// The scanner's state: the text and a cursor into it.
#[derive(Debug)]
pub struct Lexer {
    /// The text, with the newline that was appended to it.
    pub source: String,
    /// The cursor: how many characters lie behind it.
    pub cur_pos: usize,
    /// The character at the cursor, `'\0'` behind the text.
    pub cur_char: char,
}

impl Lexer {
    /// The text ends with a newline, and `cur_char` is the character at
    /// the cursor: the sentinel `'\0'` where the cursor stands behind the text.
    pub open spec fn wf(&self) -> bool {
        &&& well_terminated(self.source@)
        &&& self.source@.len() <= usize::MAX
        &&& self.cur_char == char_at(self.source@, self.cur_pos as int)
    }

    /// A lexer at the start of `source`, to which one newline is appended.
    pub fn new(source: &str) -> (lexer: Self)
        ensures
            lexer.wf(),
            lexer.source@ == source@.push('\n'),
            lexer.cur_pos == 0,
    {
        proof {
            reveal_strlit("\n");
        }
        let text = String::from_str(source).concat("\n");
        assert(text@ =~= source@.push('\n'));
        let _n: usize = text.as_str().unicode_len();
        let first = text.as_str().get_char(0);
        Self { source: text, cur_pos: 0, cur_char: first }
    }

    /// Moves the cursor one character on, in the text and behind it.
    pub fn next_char(&mut self)
        requires
            old(self).wf(),
            old(self).cur_pos < usize::MAX,
        ensures
            final(self).wf(),
            final(self).source == old(self).source,
            final(self).cur_pos == old(self).cur_pos + 1,
            final(self).cur_char == char_at(final(self).source@, final(self).cur_pos as int),
    {
        self.cur_pos += 1;
        let n: usize = self.source.as_str().unicode_len();
        if self.cur_pos >= n {
            self.cur_char = '\0';
        } else {
            self.cur_char = self.source.as_str().get_char(self.cur_pos);
        }
    }

    /// The character behind the one at the cursor, `'\0'` behind the text.
    pub fn peek(&self) -> (c: char)
        requires
            self.wf(),
        ensures
            c == char_at(self.source@, self.cur_pos + 1),
    {
        let n: usize = self.source.as_str().unicode_len();
        if self.cur_pos >= n || self.cur_pos + 1 >= n {
            return '\0';
        }
        self.source.as_str().get_char(self.cur_pos + 1)
    }

    /// Moves the cursor behind the spaces that it stands at. A newline ends
    /// a statement and is not skipped.
    pub fn skip_whitespace(&mut self)
        requires
            old(self).wf(),
        ensures
            final(self).wf(),
            final(self).source == old(self).source,
            final(self).cur_pos == run_end(
                old(self).source@,
                old(self).cur_pos as int,
                CharClass::Space,
            ),
    {
        while self.cur_char == ' '
            invariant
                self.wf(),
                self.source == old(self).source,
                run_end(self.source@, self.cur_pos as int, CharClass::Space) == run_end(
                    old(self).source@,
                    old(self).cur_pos as int,
                    CharClass::Space,
                ),
            decreases self.source@.len() - self.cur_pos,
        {
            self.next_char()
        }
    }

    /// At a `#`, moves the cursor to the newline that ends the comment.
    pub fn skip_comment(&mut self)
        requires
            old(self).wf(),
        ensures
            final(self).wf(),
            final(self).source == old(self).source,
            final(self).cur_pos == if old(self).cur_char == '#' {
                run_end(old(self).source@, old(self).cur_pos as int, CharClass::Comment)
            } else {
                old(self).cur_pos as int
            },
    {
        if self.cur_char == '#' {
            while self.cur_char != '\n'
                invariant
                    self.wf(),
                    self.source == old(self).source,
                    self.cur_pos < self.source@.len(),
                    run_end(self.source@, self.cur_pos as int, CharClass::Comment) == run_end(
                        old(self).source@,
                        old(self).cur_pos as int,
                        CharClass::Comment,
                    ),
                decreases self.source@.len() - self.cur_pos,
            {
                self.next_char()
            }
        }
    }

    /// Scans the next token and moves the cursor behind it. Behind the text
    /// every call returns the end-of-input token and moves the cursor one
    /// on. A lexical error is returned in place of the token at which it
    /// stands, with the cursor at the character that caused it.
    pub fn get_token(&mut self) -> (r: Result<Token, CompileError>)
        requires
            old(self).wf(),
            old(self).cur_pos < usize::MAX,
        ensures
            final(self).wf(),
            final(self).source == old(self).source,
            match scan(old(self).source@, old(self).cur_pos as int) {
                Ok(lx) => r matches Ok(t) && t@ == lx.token && final(self).cur_pos == lx.next,
                Err(e) => r matches Err(x) && x@ == e && final(self).cur_pos == error_position(
                    old(self).source@,
                    old(self).cur_pos as int,
                ),
            },
    {
        let ghost s = self.source@;
        proof {
            if self.cur_pos < s.len() {
                lemma_run_stops_at_newline(s, self.cur_pos as int, CharClass::Space);
            }
        }
        self.skip_whitespace();
        proof {
            if self.cur_char == '#' {
                lemma_run_stops_at_newline(s, self.cur_pos as int, CharClass::Comment);
            }
        }
        self.skip_comment();
        let start: usize = self.cur_pos;
        let c = self.cur_char;
        let token;
        if c == '+' {
            token = Token { text: self.get_token_text(start, start + 1), kind: TokenType::Plus };
        } else if c == '-' {
            token = Token { text: self.get_token_text(start, start + 1), kind: TokenType::Minus };
        } else if c == '*' {
            token = Token {
                text: self.get_token_text(start, start + 1),
                kind: TokenType::Asterisk,
            };
        } else if c == '/' {
            token = Token { text: self.get_token_text(start, start + 1), kind: TokenType::Slash };
        } else if c == '\n' {
            token = Token { text: self.get_token_text(start, start + 1), kind: TokenType::Newline };
        } else if c == '\0' {
            proof {
                reveal_strlit("\0");
            }
            token = Token { text: String::from_str("\0"), kind: TokenType::Eof };
            assert(token.text@ =~= seq!['\0']);
        } else if c == '=' {
            token = self.handle_next_char_for_composite_chars(TokenType::Eq, TokenType::EqEq);
        } else if c == '>' {
            token = self.handle_next_char_for_composite_chars(TokenType::Gt, TokenType::GtEq);
        } else if c == '<' {
            token = self.handle_next_char_for_composite_chars(TokenType::Lt, TokenType::LtEq);
        } else if c == '!' {
            if self.peek() == '=' {
                self.next_char();
                token = Token { text: self.get_token_text(start, start + 2), kind: TokenType::NotEq };
            } else {
                return Err(CompileError::LoneBang(self.get_token_text(start + 1, start + 2)));
            }
        } else if c == '"' {
            self.next_char();
            let start_pos: usize = self.cur_pos;
            while self.cur_char != '"'
                invariant
                    self.wf(),
                    self.source@ == s,
                    self.source == old(self).source,
                    old(self).source@ == s,
                    token_start(s, old(self).cur_pos as int) == start,
                    char_at(s, start as int) == '"',
                    start_pos == start + 1,
                    start_pos <= self.cur_pos < s.len(),
                    run_end(s, self.cur_pos as int, CharClass::Literal) == run_end(
                        s,
                        start_pos as int,
                        CharClass::Literal,
                    ),
                decreases s.len() - self.cur_pos,
            {
                let d = self.cur_char;
                if d == '\\' || d == '%' || is_control_char(d) {
                    assert(!CharClass::Literal.holds(s[self.cur_pos as int]));
                    assert(run_end(s, self.cur_pos as int, CharClass::Literal) == self.cur_pos);
                    return Err(CompileError::IllegalStringChar);
                }
                self.next_char();
            }
            token = Token {
                text: self.get_token_text(start_pos, self.cur_pos),
                kind: TokenType::String,
            };
        } else if is_digit_char(c) {
            while is_digit_char(self.peek())
                invariant
                    self.wf(),
                    self.source@ == s,
                    self.source == old(self).source,
                    start <= self.cur_pos < s.len(),
                    CharClass::Digit.holds(s[self.cur_pos as int]),
                    run_end(s, self.cur_pos as int, CharClass::Digit) == run_end(
                        s,
                        start as int,
                        CharClass::Digit,
                    ),
                decreases s.len() - self.cur_pos,
            {
                self.next_char();
            }
            assert(run_end(s, self.cur_pos + 1, CharClass::Digit) == self.cur_pos + 1);
            if self.peek() == '.' {
                self.next_char();
                let ghost point: usize = self.cur_pos;
                if !is_digit_char(self.peek()) {
                    return Err(CompileError::IllegalNumberChar);
                }
                while is_digit_char(self.peek())
                    invariant
                        self.wf(),
                        self.source@ == s,
                        self.source == old(self).source,
                        point <= self.cur_pos < s.len(),
                        run_end(s, self.cur_pos + 1, CharClass::Digit) == run_end(
                            s,
                            point + 1,
                            CharClass::Digit,
                        ),
                    decreases s.len() - self.cur_pos,
                {
                    self.next_char();
                }
            }
            token = Token {
                text: self.get_token_text(start, self.cur_pos + 1),
                kind: TokenType::Number,
            };
        } else if c.is_alphabetic() {
            let n: usize = self.source.as_str().unicode_len();
            while self.cur_pos + 1 < n && self.peek().is_alphabetic()
                invariant
                    self.wf(),
                    self.source@ == s,
                    self.source == old(self).source,
                    n == s.len(),
                    start <= self.cur_pos < s.len(),
                    CharClass::Letter.holds(s[self.cur_pos as int]),
                    run_end(s, self.cur_pos as int, CharClass::Letter) == run_end(
                        s,
                        start as int,
                        CharClass::Letter,
                    ),
                decreases s.len() - self.cur_pos,
            {
                self.next_char();
            }
            assert(run_end(s, self.cur_pos + 1, CharClass::Letter) == self.cur_pos + 1);
            let token_text = self.get_token_text(start, self.cur_pos + 1);
            let keyword = Token::check_if_keyword(token_text.as_str());
            if keyword == TokenType::Unknown {
                token = Token { text: token_text, kind: TokenType::Ident };
            } else {
                token = Token { text: token_text, kind: keyword };
            }
        } else {
            return Err(CompileError::UnknownChar(self.get_token_text(start, start + 1)));
        }
        self.next_char();
        Ok(token)
    }

    /// At an operator character: the two-character token if `=` follows,
    /// with the cursor moved onto that `=`, else the one-character token.
    fn handle_next_char_for_composite_chars(
        &mut self,
        token_type: TokenType,
        other_token_type: TokenType,
    ) -> (token: Token)
        requires
            old(self).wf(),
            old(self).cur_pos < old(self).source@.len(),
        ensures
            final(self).wf(),
            final(self).source == old(self).source,
            final(self).cur_pos < final(self).source@.len(),
            operator(
                old(self).source@,
                old(self).cur_pos as int,
                token_type,
                other_token_type,
            ) matches Ok(lx) && token@ == lx.token && final(self).cur_pos + 1 == lx.next,
            if char_at(old(self).source@, old(self).cur_pos + 1) == '=' {
                &&& token@.text == seq![old(self).cur_char, '=']
                &&& token@.kind == other_token_type
                &&& final(self).cur_pos == old(self).cur_pos + 1
            } else {
                &&& token@.text == seq![old(self).cur_char]
                &&& token@.kind == token_type
                &&& final(self).cur_pos == old(self).cur_pos
            },
    {
        let start: usize = self.cur_pos;
        if self.peek() == '=' {
            self.next_char();
            let token = Token {
                text: self.get_token_text(start, start + 2),
                kind: other_token_type,
            };
            assert(token.text@ =~= seq![old(self).cur_char, '=']);
            token
        } else {
            let token = Token { text: self.get_token_text(start, start + 1), kind: token_type };
            assert(token.text@ =~= seq![old(self).cur_char]);
            token
        }
    }

    /// The characters of the text from `start_pos` up to `end_pos`.
    fn get_token_text(&self, start_pos: usize, end_pos: usize) -> (text: String)
        requires
            start_pos <= end_pos <= self.source@.len(),
        ensures
            text@ == self.source@.subrange(start_pos as int, end_pos as int),
    {
        String::from_str(self.source.as_str().substring_char(start_pos, end_pos))
    }
}

} // verus!
