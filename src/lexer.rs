use vstd::prelude::*;
use crate::token::{Token, TokenV, word_token, lookup_ident, chars_of};

verus! {

/// Whether a character has the Unicode `Alphabetic` property.
pub uninterp spec fn alphabetic(c: char) -> bool;

/// Relies on `char::is_alphabetic`: the answer depends on the character
/// alone; of the ASCII characters, the Unicode `Alphabetic` property holds
/// of the Latin letters and of no other.
#[verifier::external_body]
fn char_is_alphabetic(c: char) -> (r: bool)
    ensures
        r == alphabetic(c),
        c <= '\u{7f}' ==> (r <==> ascii_letter(c)),
{
    c.is_alphabetic()
}

/// The character at index `i`, or the NUL sentinel past either end.
pub open spec fn char_at(s: Seq<char>, i: int) -> char {
    if 0 <= i < s.len() {
        s[i]
    } else {
        '\u{0}'
    }
}

pub open spec fn ascii_letter(c: char) -> bool {
    'a' <= c <= 'z' || 'A' <= c <= 'Z'
}

/// A character that may start or continue an identifier: `_`, `.`, `$`, or
/// an alphabetic character (of ASCII, the Latin letters).
pub open spec fn letter(c: char) -> bool {
    c == '_' || c == '.' || c == '$' || ascii_letter(c) || (c > '\u{7f}' && alphabetic(c))
}

pub open spec fn digit(c: char) -> bool {
    '0' <= c <= '9'
}

pub open spec fn whitespace(c: char) -> bool {
    c == ' ' || c == '\t' || c == '\n' || c == '\r'
}

/// The first index at or after `i` that holds no whitespace.
pub open spec fn skip_ws(s: Seq<char>, i: int) -> int
    decreases s.len() - i,
{
    if 0 <= i < s.len() && whitespace(s[i]) {
        skip_ws(s, i + 1)
    } else {
        i
    }
}

/// The end of the run of letters and digits that starts at `i`.
pub open spec fn word_end(s: Seq<char>, i: int) -> int
    decreases s.len() - i,
{
    if 0 <= i < s.len() && (letter(s[i]) || digit(s[i])) {
        word_end(s, i + 1)
    } else {
        i
    }
}

/// The end of the run of digits that starts at `i`.
pub open spec fn digits_end(s: Seq<char>, i: int) -> int
    decreases s.len() - i,
{
    if 0 <= i < s.len() && digit(s[i]) {
        digits_end(s, i + 1)
    } else {
        i
    }
}

/// The index of the first `"` or NUL at or after `i`, or the end of input.
pub open spec fn string_end(s: Seq<char>, i: int) -> int
    decreases s.len() - i,
{
    if 0 <= i < s.len() && s[i] != '"' && s[i] != '\u{0}' {
        string_end(s, i + 1)
    } else {
        i
    }
}

/// The index just past the character at `i`; the end of input stays put.
pub open spec fn step(s: Seq<char>, i: int) -> int {
    if i < s.len() {
        i + 1
    } else {
        i
    }
}

/// The token that starts at cursor `pos` of `s`, and the cursor after it.
pub open spec fn lex_step(s: Seq<char>, pos: int) -> (TokenV, int) {
    let p = skip_ws(s, pos);
    let c = char_at(s, p);
    if c == '(' {
        (TokenV::Plain(Token::Lparen), p + 1)
    } else if c == ')' {
        (TokenV::Plain(Token::Rparen), p + 1)
    } else if c == ',' {
        (TokenV::Plain(Token::Comma), p + 1)
    } else if c == '+' {
        (TokenV::Plain(Token::Plus), p + 1)
    } else if c == '-' {
        (TokenV::Plain(Token::Minus), p + 1)
    } else if c == '"' {
        let e = string_end(s, p + 1);
        (TokenV::Str(s.subrange(p + 1, e)), step(s, e))
    } else if c == '\u{0}' {
        (TokenV::Plain(Token::Eof), step(s, p))
    } else if letter(c) {
        let e = word_end(s, p + 1);
        (word_token(s.subrange(p, e)), e)
    } else if digit(c) {
        let e = digits_end(s, p);
        if char_at(s, e) == '.' && digit(char_at(s, e + 1)) {
            let f = digits_end(s, e + 1);
            (TokenV::Float(s.subrange(p, f)), f)
        } else {
            (TokenV::Int(s.subrange(p, e)), e)
        }
    } else {
        (TokenV::Plain(Token::Illegal), p + 1)
    }
}

/// Whether only whitespace is left from `pos` on.
pub open spec fn exhausted(s: Seq<char>, pos: int) -> bool {
    skip_ws(s, pos) >= s.len()
}

/// The tokens of `s` from cursor `pos` on, up to and including the `Eof`
/// at the end of input.
pub open spec fn tokens_from(s: Seq<char>, pos: int) -> Seq<TokenV>
    decreases s.len() - pos,
{
    let (t, q) = lex_step(s, pos);
    // Past whitespace the cursor always moves (lemma_lex_progress); the
    // second test only keeps the recursion visibly well-founded.
    if exhausted(s, pos) || !(pos < q <= s.len()) {
        seq![t]
    } else {
        seq![t] + tokens_from(s, q)
    }
}

/// The tokens of a whole input.
pub open spec fn tokens(s: Seq<char>) -> Seq<TokenV> {
    tokens_from(s, 0)
}

proof fn lemma_ends(s: Seq<char>, i: int)
    requires
        0 <= i <= s.len(),
    ensures
        i <= skip_ws(s, i) <= s.len(),
        i <= word_end(s, i) <= s.len(),
        i <= digits_end(s, i) <= s.len(),
        i <= string_end(s, i) <= s.len(),
        forall|j: int| i <= j < digits_end(s, i) ==> digit(#[trigger] s[j]),
    decreases s.len() - i,
{
    if i < s.len() {
        lemma_ends(s, i + 1);
    }
}

/// The cursor moves forward at each token, and stays put only at the end.
pub proof fn lemma_lex_progress(s: Seq<char>, pos: int)
    requires
        0 <= pos <= s.len(),
    ensures
        pos <= lex_step(s, pos).1 <= s.len(),
        !exhausted(s, pos) ==> pos < lex_step(s, pos).1,
        exhausted(s, pos) ==> lex_step(s, pos).0 == TokenV::Plain(Token::Eof),
{
    lemma_ends(s, pos);
    let p = skip_ws(s, pos);
    if p < s.len() {
        lemma_ends(s, p + 1);
        let e = digits_end(s, p);
        lemma_ends(s, p);
        if e < s.len() && char_at(s, e) == '.' && digit(char_at(s, e + 1)) {
            lemma_ends(s, e + 1);
        }
    }
}

proof fn lemma_string_runs_out(s: Seq<char>, i: int)
    requires
        0 <= i <= s.len(),
        forall|j: int| i <= j < s.len() ==> s[j] != '"' && s[j] != '\u{0}',
    ensures
        string_end(s, i) == s.len(),
    decreases s.len() - i,
{
    if i < s.len() {
        lemma_string_runs_out(s, i + 1);
    }
}

/// A string literal that is never closed is no error: from an opening `"`
/// with no `"` or NUL after it, the token is a string holding the rest of
/// the input, and the cursor stops at the end.
pub proof fn lemma_unterminated_string(s: Seq<char>, p: int)
    requires
        0 <= p < s.len(),
        s[p] == '"',
        forall|j: int| p < j < s.len() ==> s[j] != '"' && s[j] != '\u{0}',
    ensures
        lex_step(s, p) == (TokenV::Str(s.subrange(p + 1, s.len() as int)), s.len() as int),
{
    lemma_string_runs_out(s, p + 1);
}

/// A lexer over an owned input, with a cursor that counts characters.
pub struct Lexer {
    input: String,
    chars: Vec<char>,
    pos: usize,
}

fn is_letter(ch: char) -> (r: bool)
    ensures
        r == letter(ch),
{
    if ch <= '\u{7f}' {
        ch == '_' || ch == '.' || ch == '$' || ('a' <= ch && ch <= 'z') || ('A' <= ch && ch <= 'Z')
    } else {
        char_is_alphabetic(ch)
    }
}

fn is_digit(ch: char) -> (r: bool)
    ensures
        r == digit(ch),
{
    '0' <= ch && ch <= '9'
}

fn is_whitespace(ch: char) -> (r: bool)
    ensures
        r == whitespace(ch),
{
    ch == ' ' || ch == '\t' || ch == '\n' || ch == '\r'
}

impl Lexer {
    pub closed spec fn text(&self) -> Seq<char> {
        self.chars@
    }

    pub closed spec fn cursor(&self) -> int {
        self.pos as int
    }

    pub closed spec fn wf(&self) -> bool {
        &&& self.chars@ == self.input@
        &&& self.pos <= self.chars.len()
    }

    pub proof fn lemma_cursor_in_text(&self)
        requires
            self.wf(),
        ensures
            0 <= self.cursor() <= self.text().len(),
    {
    }

    /// A lexer at the start of `input`.
    pub fn new(input: String) -> (r: Lexer)
        ensures
            r.wf(),
            r.text() == input@,
            r.cursor() == 0,
    {
        let chars = chars_of(input.as_str());
        Lexer { input, chars, pos: 0 }
    }

    pub fn input(&self) -> (r: &str)
        requires
            self.wf(),
        ensures
            r@ == self.text(),
    {
        self.input.as_str()
    }

    /// Whether nothing but whitespace is left.
    pub fn at_end(&self) -> (r: bool)
        requires
            self.wf(),
        ensures
            r == exhausted(self.text(), self.cursor()),
    {
        let mut i = self.pos;
        while i < self.chars.len() && is_whitespace(self.chars[i])
            invariant
                self.wf(),
                self.pos <= i <= self.chars.len(),
                skip_ws(self.text(), self.cursor()) == skip_ws(self.text(), i as int),
            decreases self.chars.len() - i,
        {
            i = i + 1;
        }
        i >= self.chars.len()
    }

    fn ch(&self) -> (c: char)
        requires
            self.wf(),
        ensures
            c == char_at(self.text(), self.cursor()),
    {
        if self.pos < self.chars.len() {
            self.chars[self.pos]
        } else {
            '\u{0}'
        }
    }

    fn peek_char(&self) -> (c: char)
        requires
            self.wf(),
        ensures
            c == char_at(self.text(), self.cursor() + 1),
    {
        if self.chars.len() - self.pos > 1 {
            self.chars[self.pos + 1]
        } else {
            '\u{0}'
        }
    }

    fn read_char(&mut self)
        requires
            old(self).wf(),
        ensures
            final(self).wf(),
            final(self).text() == old(self).text(),
            final(self).cursor() == step(old(self).text(), old(self).cursor()),
    {
        if self.pos < self.chars.len() {
            self.pos = self.pos + 1;
        }
    }

    fn skip_whitespace(&mut self)
        requires
            old(self).wf(),
        ensures
            final(self).wf(),
            final(self).text() == old(self).text(),
            final(self).cursor() == skip_ws(old(self).text(), old(self).cursor()),
    {
        while self.pos < self.chars.len() && is_whitespace(self.chars[self.pos])
            invariant
                self.wf(),
                self.text() == old(self).text(),
                old(self).pos <= self.pos,
                skip_ws(old(self).text(), old(self).cursor()) == skip_ws(self.text(), self.cursor()),
            decreases self.chars.len() - self.pos,
        {
            self.pos = self.pos + 1;
        }
    }

    /// The input text between two cursors.
    fn slice(&self, from: usize, to: usize) -> (r: String)
        requires
            self.wf(),
            from <= to <= self.text().len(),
        ensures
            r@ == self.text().subrange(from as int, to as int),
    {
        String::from_str(self.input.as_str().substring_char(from, to))
    }

    fn read_identifier(&mut self) -> (r: String)
        requires
            old(self).wf(),
            old(self).cursor() < old(self).text().len(),
        ensures
            final(self).wf(),
            final(self).text() == old(self).text(),
            final(self).cursor() == word_end(old(self).text(), old(self).cursor() + 1),
            r@ == old(self).text().subrange(old(self).cursor(), final(self).cursor()),
    {
        let start = self.pos;
        self.pos = self.pos + 1;
        while self.pos < self.chars.len() && (is_letter(self.chars[self.pos]) || is_digit(
            self.chars[self.pos],
        ))
            invariant
                self.wf(),
                self.text() == old(self).text(),
                start < self.pos,
                word_end(self.text(), start + 1) == word_end(self.text(), self.cursor()),
            decreases self.chars.len() - self.pos,
        {
            self.pos = self.pos + 1;
        }
        self.slice(start, self.pos)
    }

    fn read_number(&mut self)
        requires
            old(self).wf(),
        ensures
            final(self).wf(),
            final(self).text() == old(self).text(),
            final(self).cursor() == digits_end(old(self).text(), old(self).cursor()),
    {
        while self.pos < self.chars.len() && is_digit(self.chars[self.pos])
            invariant
                self.wf(),
                self.text() == old(self).text(),
                old(self).pos <= self.pos,
                digits_end(old(self).text(), old(self).cursor()) == digits_end(self.text(), self.cursor()),
            decreases self.chars.len() - self.pos,
        {
            self.pos = self.pos + 1;
        }
    }

    fn read_string(&mut self) -> (r: String)
        requires
            old(self).wf(),
            old(self).cursor() < old(self).text().len(),
        ensures
            final(self).wf(),
            final(self).text() == old(self).text(),
            final(self).cursor() == string_end(old(self).text(), old(self).cursor() + 1),
            r@ == old(self).text().subrange(old(self).cursor() + 1, final(self).cursor()),
    {
        let start = self.pos + 1;
        self.pos = start;
        while self.pos < self.chars.len() && self.chars[self.pos] != '"' && self.chars[self.pos]
            != '\u{0}'
            invariant
                self.wf(),
                self.text() == old(self).text(),
                start <= self.pos,
                string_end(self.text(), start as int) == string_end(self.text(), self.cursor()),
            decreases self.chars.len() - self.pos,
        {
            self.pos = self.pos + 1;
        }
        self.slice(start, self.pos)
    }

    /// Scans the next token.
    pub fn next_token(&mut self) -> (r: Token)
        requires
            old(self).wf(),
        ensures
            final(self).wf(),
            final(self).text() == old(self).text(),
            (r.view(), final(self).cursor()) == lex_step(old(self).text(), old(self).cursor()),
    {
        proof {
            lemma_ends(self.text(), self.cursor());
        }
        self.skip_whitespace();
        proof {
            lemma_ends(self.text(), self.cursor());
            if self.cursor() < self.text().len() {
                lemma_ends(self.text(), self.cursor() + 1);
            }
        }
        let c = self.ch();
        let tok: Token;
        if c == '(' {
            tok = Token::Lparen;
        } else if c == ')' {
            tok = Token::Rparen;
        } else if c == ',' {
            tok = Token::Comma;
        } else if c == '+' {
            tok = Token::Plus;
        } else if c == '-' {
            tok = Token::Minus;
        } else if c == '"' {
            tok = Token::Str(self.read_string());
        } else if c == '\u{0}' {
            tok = Token::Eof;
        } else if is_letter(c) {
            let word = self.read_identifier();
            return lookup_ident(word.as_str());
        } else if is_digit(c) {
            let start = self.pos;
            self.read_number();
            proof {
                if self.cursor() < self.text().len() {
                    lemma_ends(self.text(), self.cursor() + 1);
                }
            }
            if self.ch() == '.' && is_digit(self.peek_char()) {
                self.read_char();
                self.read_number();
                return Token::Float(self.slice(start, self.pos));
            } else {
                return Token::Int(self.slice(start, self.pos));
            }
        } else {
            tok = Token::Illegal;
        }
        self.read_char();
        tok
    }
}

} // verus!
