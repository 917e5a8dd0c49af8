use vstd::prelude::*;

use crate::token::TokenType;
use crate::util::{
    alphabet_spec, digit_spec, identifier_spec, is_alphabet, is_identifier, is_number,
    is_white_space, white_space_spec,
};

verus! {

/// What a token stands for, with the text of identifiers and strings as
/// character sequences.
pub enum Lexeme {
    Plain(TokenType),
    Ident(Seq<char>),
    Str(Seq<char>),
}

/// Token `t` is the token that lexeme `l` describes.
pub open spec fn denotes(t: TokenType, l: Lexeme) -> bool {
    match l {
        Lexeme::Plain(p) => t == p,
        Lexeme::Ident(n) => t is IDENTIFIER && t->IDENTIFIER_0@ == n,
        Lexeme::Str(n) => t is STRING && t->STRING_0@ == n,
    }
}

/// The first position at or after `i` that holds no white space.
pub open spec fn skip_ws(s: Seq<char>, i: int) -> int
    decreases s.len() - i,
{
    if 0 <= i < s.len() && white_space_spec(s[i]) {
        skip_ws(s, i + 1)
    } else {
        i
    }
}

/// The end of the run of identifier characters that starts at `i`.
pub open spec fn ident_end(s: Seq<char>, i: int) -> int
    decreases s.len() - i,
{
    if 0 <= i < s.len() && identifier_spec(s[i]) {
        ident_end(s, i + 1)
    } else {
        i
    }
}

/// The end of the run of digits that starts at `i`.
pub open spec fn digits_end(s: Seq<char>, i: int) -> int
    decreases s.len() - i,
{
    if 0 <= i < s.len() && digit_spec(s[i]) {
        digits_end(s, i + 1)
    } else {
        i
    }
}

/// The position of the first `"` at or after `i`, or the length of `s`.
pub open spec fn quote_end(s: Seq<char>, i: int) -> int
    decreases s.len() - i,
{
    if 0 <= i < s.len() && s[i] != '"' {
        quote_end(s, i + 1)
    } else {
        i
    }
}

/// The value of a sequence of decimal digits.
pub open spec fn digits_value(d: Seq<char>) -> nat
    decreases d.len(),
{
    if d.len() == 0 {
        0
    } else {
        digits_value(d.drop_last()) * 10 + (d.last() as nat - '0' as nat) as nat
    }
}

/// The keyword token spelled by `name`, if any.
pub open spec fn keyword(name: Seq<char>) -> Option<TokenType> {
    if name == seq!['t', 'r', 'u', 'e'] {
        Some(TokenType::TRUE)
    } else if name == seq!['f', 'a', 'l', 's', 'e'] {
        Some(TokenType::FALSE)
    } else if name == seq!['l', 'e', 't'] {
        Some(TokenType::LET)
    } else if name == seq!['f', 'n'] {
        Some(TokenType::FN)
    } else if name == seq!['i', 'f'] {
        Some(TokenType::IF)
    } else if name == seq!['e', 'l', 's', 'e'] {
        Some(TokenType::ELSE)
    } else if name == seq!['w', 'h', 'i', 'l', 'e'] {
        Some(TokenType::WHILE)
    } else if name == seq!['b', 'r', 'e', 'a', 'k'] {
        Some(TokenType::BREAK)
    } else if name == seq!['r', 'e', 't', 'u', 'r', 'n'] {
        Some(TokenType::RETURN)
    } else {
        None
    }
}

/// A word: its keyword token, or an identifier.
pub open spec fn word(name: Seq<char>) -> Lexeme {
    match keyword(name) {
        Some(k) => Lexeme::Plain(k),
        None => Lexeme::Ident(name),
    }
}

/// The operator that `c` starts, followed by `=` (`two`) or not.
pub open spec fn operator(c: char, two: bool) -> TokenType {
    if c == '!' {
        if two { TokenType::BANG_EQUAL } else { TokenType::BANG }
    } else if c == '=' {
        if two { TokenType::EQUAL_EQUAL } else { TokenType::ASSIGN }
    } else if c == '<' {
        if two { TokenType::LESS_EQUAL } else { TokenType::LESS }
    } else {
        if two { TokenType::GREATER_EQUAL } else { TokenType::GREATER }
    }
}

/// The token of a single punctuation or arithmetic character.
pub open spec fn single(c: char) -> Option<TokenType> {
    if c == '(' {
        Some(TokenType::LEFT_PAREN)
    } else if c == ')' {
        Some(TokenType::RIGHT_PAREN)
    } else if c == '{' {
        Some(TokenType::LEFT_CURLY_BRACE)
    } else if c == '}' {
        Some(TokenType::RIGHT_CURLY_BRACE)
    } else if c == '[' {
        Some(TokenType::LEFT_BRACE)
    } else if c == ']' {
        Some(TokenType::RIGHT_BRACE)
    } else if c == ',' {
        Some(TokenType::COMMA)
    } else if c == '.' {
        Some(TokenType::DOT)
    } else if c == ':' {
        Some(TokenType::COLON)
    } else if c == ';' {
        Some(TokenType::SEMICOLON)
    } else if c == '+' {
        Some(TokenType::ADD)
    } else if c == '-' {
        Some(TokenType::MINUS)
    } else if c == '*' {
        Some(TokenType::MULTIPLY)
    } else if c == '/' {
        Some(TokenType::DIVIDE)
    } else {
        None
    }
}

/// The token that starts at position `i` (which holds no white space),
/// and the position after it.
pub open spec fn scan(s: Seq<char>, i: int) -> (Lexeme, int) {
    let c = s[i];
    if single(c) is Some {
        (Lexeme::Plain(single(c)->0), i + 1)
    } else if c == '!' || c == '=' || c == '<' || c == '>' {
        if i + 1 < s.len() && s[i + 1] == '=' {
            (Lexeme::Plain(operator(c, true)), i + 2)
        } else {
            (Lexeme::Plain(operator(c, false)), i + 1)
        }
    } else if c == '"' {
        let e = quote_end(s, i + 1);
        if e < s.len() {
            (Lexeme::Str(s.subrange(i + 1, e)), e + 1)
        } else {
            (Lexeme::Plain(TokenType::UNKNOWN('"')), e)
        }
    } else if digit_spec(c) {
        let e = digits_end(s, i);
        let v = digits_value(s.subrange(i, e));
        if v <= u64::MAX {
            (Lexeme::Plain(TokenType::NUMBER(v as u64)), e)
        } else {
            (Lexeme::Plain(TokenType::UNKNOWN(c)), e)
        }
    } else if alphabet_spec(c) || c == '_' {
        let e = ident_end(s, i);
        (word(s.subrange(i, e)), e)
    } else {
        (Lexeme::Plain(TokenType::UNKNOWN(c)), i + 1)
    }
}

/// The next token from position `i` on, white space skipped, and the
/// position after it; at the end of input, `EOF` and the end.
pub open spec fn next_lexeme(s: Seq<char>, i: int) -> (Lexeme, int) {
    let j = skip_ws(s, i);
    if j >= s.len() {
        (Lexeme::Plain(TokenType::EOF), j)
    } else {
        scan(s, j)
    }
}

/// The tokens of `s` from position `i` on, ending with one `EOF`.
pub open spec fn lex_from(s: Seq<char>, i: int) -> Seq<Lexeme>
    decreases s.len() - i,
{
    let (l, k) = next_lexeme(s, i);
    if i < 0 || s.len() <= skip_ws(s, i) || k <= i || k > s.len() {
        seq![Lexeme::Plain(TokenType::EOF)]
    } else {
        seq![l].add(lex_from(s, k))
    }
}

/// The tokens of source text `s`.
pub open spec fn lex(s: Seq<char>) -> Seq<Lexeme> {
    lex_from(s, 0)
}

pub proof fn lemma_skip_ws(s: Seq<char>, i: int)
    requires
        0 <= i <= s.len(),
    ensures
        i <= skip_ws(s, i) <= s.len(),
        forall|k: int| i <= k < skip_ws(s, i) ==> white_space_spec(#[trigger] s[k]),
        skip_ws(s, i) < s.len() ==> !white_space_spec(s[skip_ws(s, i)]),
    decreases s.len() - i,
{
    if i < s.len() && white_space_spec(s[i]) {
        lemma_skip_ws(s, i + 1);
    }
}

pub proof fn lemma_ident_end(s: Seq<char>, i: int)
    requires
        0 <= i <= s.len(),
    ensures
        i <= ident_end(s, i) <= s.len(),
        forall|k: int| i <= k < ident_end(s, i) ==> identifier_spec(#[trigger] s[k]),
        ident_end(s, i) < s.len() ==> !identifier_spec(s[ident_end(s, i)]),
    decreases s.len() - i,
{
    if i < s.len() && identifier_spec(s[i]) {
        lemma_ident_end(s, i + 1);
    }
}

pub proof fn lemma_digits_end(s: Seq<char>, i: int)
    requires
        0 <= i <= s.len(),
    ensures
        i <= digits_end(s, i) <= s.len(),
        forall|k: int| i <= k < digits_end(s, i) ==> digit_spec(#[trigger] s[k]),
        digits_end(s, i) < s.len() ==> !digit_spec(s[digits_end(s, i)]),
    decreases s.len() - i,
{
    if i < s.len() && digit_spec(s[i]) {
        lemma_digits_end(s, i + 1);
    }
}

pub proof fn lemma_quote_end(s: Seq<char>, i: int)
    requires
        0 <= i <= s.len(),
    ensures
        i <= quote_end(s, i) <= s.len(),
        forall|k: int| i <= k < quote_end(s, i) ==> #[trigger] s[k] != '"',
        quote_end(s, i) < s.len() ==> s[quote_end(s, i)] == '"',
    decreases s.len() - i,
{
    if i < s.len() && s[i] != '"' {
        lemma_quote_end(s, i + 1);
    }
}

/// A token read at a position with no white space ends after that position.
pub proof fn lemma_scan_advances(s: Seq<char>, i: int)
    requires
        0 <= i < s.len(),
    ensures
        i < scan(s, i).1 <= s.len(),
        scan(s, i).0 != Lexeme::Plain(TokenType::EOF),
{
    lemma_quote_end(s, i + 1);
    lemma_digits_end(s, i);
    lemma_ident_end(s, i);
}

} // verus!

verus! {

/// Reads the tokens of a source text one at a time.
#[derive(Debug)]
pub struct Lexer {
    input: Vec<char>,
    current_pos: usize,
}

impl Lexer {
    /// The source text.
    pub closed spec fn text(&self) -> Seq<char> {
        self.input@
    }

    /// The position of the next unread character.
    pub closed spec fn pos(&self) -> int {
        self.current_pos as int
    }

    pub closed spec fn wf(&self) -> bool {
        self.current_pos <= self.input@.len()
    }

    /// A well-formed lexer's position lies within its text.
    pub proof fn lemma_pos_within(&self)
        requires
            self.wf(),
        ensures
            0 <= self.pos() <= self.text().len(),
    {
    }

    /// A lexer at the start of `input`.
    pub fn new(input: &str) -> (r: Lexer)
        ensures
            r.wf(),
            r.text() == input@,
            r.pos() == 0,
    {
        Lexer { input: crate::text::chars_of(input), current_pos: 0 }
    }

    pub fn get_cur_pos(&self) -> (r: usize)
        ensures
            r == self.pos(),
    {
        self.current_pos
    }

    /// Whether only white space is left, so that the next token is `EOF`.
    pub fn is_end(&self) -> (r: bool)
        requires
            self.wf(),
        ensures
            r == (skip_ws(self.text(), self.pos()) >= self.text().len()),
    {
        let mut i = self.current_pos;
        while i < self.input.len() && is_white_space(self.input[i])
            invariant
                self.wf(),
                self.pos() <= i <= self.text().len(),
                skip_ws(self.text(), self.pos()) == skip_ws(self.text(), i as int),
            decreases self.text().len() - i,
        {
            i += 1;
        }
        i >= self.input.len()
    }

    /// Whether a character is left to read.
    pub fn is_peekable(&self) -> (r: bool)
        requires
            self.wf(),
        ensures
            r == (self.pos() < self.text().len()),
    {
        self.current_pos < self.input.len()
    }

    /// Skips the white space at the current position.
    pub fn skip_white_space(&mut self)
        requires
            old(self).wf(),
        ensures
            final(self).wf(),
            final(self).text() == old(self).text(),
            final(self).pos() == skip_ws(old(self).text(), old(self).pos()),
    {
        while self.current_pos < self.input.len() && is_white_space(self.input[self.current_pos])
            invariant
                self.wf(),
                self.text() == old(self).text(),
                old(self).pos() <= self.pos(),
                skip_ws(self.text(), old(self).pos()) == skip_ws(self.text(), self.pos()),
            decreases self.text().len() - self.pos(),
        {
            self.current_pos += 1;
        }
    }

    /// Reads one character.
    pub fn next_char(&mut self) -> (r: Option<char>)
        requires
            old(self).wf(),
        ensures
            final(self).wf(),
            final(self).text() == old(self).text(),
            old(self).pos() < old(self).text().len() ==> r == Some(old(self).text()[old(self).pos()])
                && final(self).pos() == old(self).pos() + 1,
            old(self).pos() >= old(self).text().len() ==> r is None && final(self).pos() == old(self).pos(),
    {
        if self.current_pos < self.input.len() {
            let c = self.input[self.current_pos];
            self.current_pos += 1;
            Some(c)
        } else {
            None
        }
    }

    /// The next character, not read.
    pub fn peek_char(&self) -> (r: Option<char>)
        requires
            self.wf(),
        ensures
            self.pos() < self.text().len() ==> r == Some(self.text()[self.pos()]),
            self.pos() >= self.text().len() ==> r is None,
    {
        if self.current_pos < self.input.len() {
            Some(self.input[self.current_pos])
        } else {
            None
        }
    }

    /// Reads the run of identifier characters at the current position.
    pub fn read_identifier(&mut self) -> (r: Vec<char>)
        requires
            old(self).wf(),
        ensures
            final(self).wf(),
            final(self).text() == old(self).text(),
            final(self).pos() == ident_end(old(self).text(), old(self).pos()),
            r@ == old(self).text().subrange(old(self).pos(), final(self).pos()),
    {
        let mut identifier: Vec<char> = Vec::new();
        while self.current_pos < self.input.len() && is_identifier(self.input[self.current_pos])
            invariant
                self.wf(),
                self.text() == old(self).text(),
                old(self).pos() <= self.pos(),
                ident_end(self.text(), old(self).pos()) == ident_end(self.text(), self.pos()),
                identifier@ == self.text().subrange(old(self).pos(), self.pos()),
            decreases self.text().len() - self.pos(),
        {
            identifier.push(self.input[self.current_pos]);
            self.current_pos += 1;
            assert(identifier@ =~= self.text().subrange(old(self).pos(), self.pos()));
        }
        identifier
    }

    /// Reads a word at the current position: a keyword or an identifier.
    pub fn read_keyword(&mut self) -> (r: TokenType)
        requires
            old(self).wf(),
        ensures
            final(self).wf(),
            final(self).text() == old(self).text(),
            final(self).pos() == ident_end(old(self).text(), old(self).pos()),
            denotes(r, word(old(self).text().subrange(old(self).pos(), final(self).pos()))),
    {
        let name = self.read_identifier();
        if crate::text::chars_eq(&name, &['t', 'r', 'u', 'e']) {
            TokenType::TRUE
        } else if crate::text::chars_eq(&name, &['f', 'a', 'l', 's', 'e']) {
            TokenType::FALSE
        } else if crate::text::chars_eq(&name, &['l', 'e', 't']) {
            TokenType::LET
        } else if crate::text::chars_eq(&name, &['f', 'n']) {
            TokenType::FN
        } else if crate::text::chars_eq(&name, &['i', 'f']) {
            TokenType::IF
        } else if crate::text::chars_eq(&name, &['e', 'l', 's', 'e']) {
            TokenType::ELSE
        } else if crate::text::chars_eq(&name, &['w', 'h', 'i', 'l', 'e']) {
            TokenType::WHILE
        } else if crate::text::chars_eq(&name, &['b', 'r', 'e', 'a', 'k']) {
            TokenType::BREAK
        } else if crate::text::chars_eq(&name, &['r', 'e', 't', 'u', 'r', 'n']) {
            TokenType::RETURN
        } else {
            TokenType::IDENTIFIER(crate::text::string_of(&name))
        }
    }

    /// Reads a string literal whose opening `"` is at the current position.
    fn scan_string(&mut self) -> (r: TokenType)
        requires
            old(self).wf(),
            old(self).pos() < old(self).text().len(),
            old(self).text()[old(self).pos()] == '"',
        ensures
            final(self).wf(),
            final(self).text() == old(self).text(),
            final(self).pos() == scan(old(self).text(), old(self).pos()).1,
            denotes(r, scan(old(self).text(), old(self).pos()).0),
    {
        let ghost s = self.text();
        let ghost start = self.pos();
        // Reading the length bounds it by usize::MAX for the step below.
        let _len = self.input.len();
        self.current_pos += 1;
        let mut chars: Vec<char> = Vec::new();
        proof {
            lemma_quote_end(s, start + 1);
        }
        while self.current_pos < self.input.len() && self.input[self.current_pos] != '"'
            invariant
                self.wf(),
                self.text() == s,
                s == old(self).text(),
                start == old(self).pos(),
                self.pos() <= s.len(),
                start + 1 <= self.pos(),
                quote_end(s, start + 1) == quote_end(s, self.pos()),
                chars@ == s.subrange(start + 1, self.pos()),
            decreases s.len() - self.pos(),
        {
            chars.push(self.input[self.current_pos]);
            self.current_pos += 1;
            assert(chars@ =~= s.subrange(start + 1, self.pos()));
        }
        if self.current_pos < self.input.len() {
            self.current_pos += 1;
            TokenType::STRING(crate::text::string_of(&chars))
        } else {
            TokenType::UNKNOWN('"')
        }
    }

    /// Reads an integer literal whose first digit is at the current position.
    fn scan_number(&mut self) -> (r: TokenType)
        requires
            old(self).wf(),
            old(self).pos() < old(self).text().len(),
            digit_spec(old(self).text()[old(self).pos()]),
        ensures
            final(self).wf(),
            final(self).text() == old(self).text(),
            final(self).pos() == scan(old(self).text(), old(self).pos()).1,
            denotes(r, scan(old(self).text(), old(self).pos()).0),
    {
        let ghost s = self.text();
        let ghost start = self.pos();
        let first = self.input[self.current_pos];
        let mut value: u64 = 0;
        let mut overflow = false;
        while self.current_pos < self.input.len() && is_number(self.input[self.current_pos])
            invariant
                self.wf(),
                self.text() == s,
                s == old(self).text(),
                start == old(self).pos(),
                self.pos() <= s.len(),
                start <= self.pos(),
                digits_end(s, start) == digits_end(s, self.pos()),
                !overflow ==> value == digits_value(s.subrange(start, self.pos())),
                overflow ==> digits_value(s.subrange(start, self.pos())) > u64::MAX,
            decreases s.len() - self.pos(),
        {
            let c = self.input[self.current_pos];
            let d = (c as u32 - '0' as u32) as u64;
            let ghost prev = s.subrange(start, self.pos());
            self.current_pos += 1;
            let ghost next = s.subrange(start, self.pos());
            assert(next.drop_last() =~= prev);
            assert(next.last() == c);
            if !overflow {
                match value.checked_mul(10) {
                    Some(m) => match m.checked_add(d) {
                        Some(v) => {
                            value = v;
                        },
                        None => {
                            overflow = true;
                        },
                    },
                    None => {
                        overflow = true;
                    },
                }
            }
            proof {
                assert(digits_value(next) == digits_value(prev) * 10 + d);
                assert(digits_value(next) >= digits_value(prev) * 10) by (nonlinear_arith)
                    requires digits_value(next) == digits_value(prev) * 10 + d;
                if digits_value(prev) > u64::MAX {
                    assert(digits_value(prev) * 10 >= digits_value(prev)) by (nonlinear_arith);
                }
            }
        }
        if overflow {
            TokenType::UNKNOWN(first)
        } else {
            TokenType::NUMBER(value)
        }
    }

    /// Reads a string literal if one starts at the current position (at a
    /// `"`); otherwise reads nothing and gives `None`.
    pub fn read_string(&mut self) -> (r: Option<TokenType>)
        requires
            old(self).wf(),
        ensures
            final(self).wf(),
            final(self).text() == old(self).text(),
            old(self).pos() < old(self).text().len() && old(self).text()[old(self).pos()] == '"'
                ==> r is Some && final(self).pos() == scan(old(self).text(), old(self).pos()).1
                && denotes(r->0, scan(old(self).text(), old(self).pos()).0),
            !(old(self).pos() < old(self).text().len() && old(self).text()[old(self).pos()] == '"')
                ==> r is None && final(self).pos() == old(self).pos(),
    {
        if self.current_pos < self.input.len() && self.input[self.current_pos] == '"' {
            Some(self.scan_string())
        } else {
            None
        }
    }

    /// Reads an integer literal if one starts at the current position (at a
    /// digit); otherwise reads nothing and gives `None`.
    pub fn read_number(&mut self) -> (r: Option<TokenType>)
        requires
            old(self).wf(),
        ensures
            final(self).wf(),
            final(self).text() == old(self).text(),
            old(self).pos() < old(self).text().len() && digit_spec(old(self).text()[old(self).pos()])
                ==> r is Some && final(self).pos() == scan(old(self).text(), old(self).pos()).1
                && denotes(r->0, scan(old(self).text(), old(self).pos()).0),
            !(old(self).pos() < old(self).text().len() && digit_spec(old(self).text()[old(self).pos()]))
                ==> r is None && final(self).pos() == old(self).pos(),
    {
        if self.current_pos < self.input.len() && is_number(self.input[self.current_pos]) {
            Some(self.scan_number())
        } else {
            None
        }
    }

    /// Reads the next token; at the end of input, `EOF`, again and again.
    pub fn next_token(&mut self) -> (r: TokenType)
        requires
            old(self).wf(),
        ensures
            final(self).wf(),
            final(self).text() == old(self).text(),
            final(self).pos() == next_lexeme(old(self).text(), old(self).pos()).1,
            denotes(r, next_lexeme(old(self).text(), old(self).pos()).0),
    {
        let ghost s = self.text();
        proof {
            lemma_skip_ws(s, self.pos());
        }
        self.skip_white_space();
        if self.current_pos >= self.input.len() {
            return TokenType::EOF;
        }
        let c = self.input[self.current_pos];
        let single = if c == '(' {
            Some(TokenType::LEFT_PAREN)
        } else if c == ')' {
            Some(TokenType::RIGHT_PAREN)
        } else if c == '{' {
            Some(TokenType::LEFT_CURLY_BRACE)
        } else if c == '}' {
            Some(TokenType::RIGHT_CURLY_BRACE)
        } else if c == '[' {
            Some(TokenType::LEFT_BRACE)
        } else if c == ']' {
            Some(TokenType::RIGHT_BRACE)
        } else if c == ',' {
            Some(TokenType::COMMA)
        } else if c == '.' {
            Some(TokenType::DOT)
        } else if c == ':' {
            Some(TokenType::COLON)
        } else if c == ';' {
            Some(TokenType::SEMICOLON)
        } else if c == '+' {
            Some(TokenType::ADD)
        } else if c == '-' {
            Some(TokenType::MINUS)
        } else if c == '*' {
            Some(TokenType::MULTIPLY)
        } else if c == '/' {
            Some(TokenType::DIVIDE)
        } else {
            None
        };
        if let Some(t) = single {
            self.current_pos += 1;
            return t;
        }
        if c == '!' || c == '=' || c == '<' || c == '>' {
            self.current_pos += 1;
            let two = self.current_pos < self.input.len() && self.input[self.current_pos] == '=';
            if two {
                self.current_pos += 1;
            }
            if c == '!' {
                if two { TokenType::BANG_EQUAL } else { TokenType::BANG }
            } else if c == '=' {
                if two { TokenType::EQUAL_EQUAL } else { TokenType::ASSIGN }
            } else if c == '<' {
                if two { TokenType::LESS_EQUAL } else { TokenType::LESS }
            } else {
                if two { TokenType::GREATER_EQUAL } else { TokenType::GREATER }
            }
        } else if c == '"' {
            self.scan_string()
        } else if is_number(c) {
            self.scan_number()
        } else if is_alphabet(c) || c == '_' {
            self.read_keyword()
        } else {
            self.current_pos += 1;
            TokenType::UNKNOWN(c)
        }
    }
}

} // verus!

verus! {

/// Tokenizing is total: the tokens of any text from any position end with
/// `EOF`, and `EOF` appears nowhere else.
pub proof fn lemma_lex_from_ends_with_eof(s: Seq<char>, i: int)
    requires
        0 <= i <= s.len(),
    ensures
        lex_from(s, i).len() >= 1,
        lex_from(s, i).last() == Lexeme::Plain(TokenType::EOF),
        forall|k: int|
            0 <= k < lex_from(s, i).len() - 1 ==> #[trigger] lex_from(s, i)[k] != Lexeme::Plain(
                TokenType::EOF,
            ),
    decreases s.len() - i,
{
    lemma_skip_ws(s, i);
    let j = skip_ws(s, i);
    if j < s.len() {
        lemma_scan_advances(s, j);
        let k = scan(s, j).1;
        lemma_lex_from_ends_with_eof(s, k);
        let rest = lex_from(s, k);
        assert(lex_from(s, i) == seq![scan(s, j).0].add(rest));
        assert forall|m: int| 0 <= m < lex_from(s, i).len() - 1 implies #[trigger] lex_from(
            s,
            i,
        )[m] != Lexeme::Plain(TokenType::EOF) by {
            if m > 0 {
                assert(lex_from(s, i)[m] == rest[m - 1]);
            }
        }
    }
}

/// The tokens of `input`: what `Lexer::next_token` gives until and with the
/// first `EOF`.
pub fn tokenize(input: &str) -> (r: Vec<TokenType>)
    ensures
        r@.len() == lex(input@).len(),
        forall|k: int| 0 <= k < r@.len() ==> denotes(#[trigger] r@[k], lex(input@)[k]),
        r@.len() >= 1,
        r@.last() == TokenType::EOF,
        forall|k: int| 0 <= k < r@.len() - 1 ==> #[trigger] r@[k] != TokenType::EOF,
{
    let mut lexer = Lexer::new(input);
    let ghost s = input@;
    let mut tokens: Vec<TokenType> = Vec::new();
    let ghost mut done: Seq<Lexeme> = Seq::empty();
    proof {
        lemma_lex_from_ends_with_eof(s, 0);
    }
    loop
        invariant_except_break
            done.add(lex_from(s, lexer.pos())) == lex(s),
        invariant
            lexer.wf(),
            lexer.text() == s,
            0 <= lexer.pos() <= s.len(),
            done.len() == tokens@.len(),
            forall|k: int| 0 <= k < tokens@.len() ==> denotes(#[trigger] tokens@[k], done[k]),
        ensures
            done == lex(s),
        decreases s.len() - lexer.pos(),
    {
        let ghost before = lexer.pos();
        proof {
            lemma_skip_ws(s, before);
            if skip_ws(s, before) < s.len() {
                lemma_scan_advances(s, skip_ws(s, before));
            }
        }
        let t = lexer.next_token();
        let ghost l = next_lexeme(s, before).0;
        let is_eof = match t {
            TokenType::EOF => true,
            _ => false,
        };
        tokens.push(t);
        proof {
            done = done.push(l);
            assert forall|k: int| 0 <= k < tokens@.len() implies denotes(
                #[trigger] tokens@[k],
                done[k],
            ) by {}
        }
        if is_eof {
            proof {
                if skip_ws(s, before) < s.len() {
                    assert(l != Lexeme::Plain(TokenType::EOF));
                    assert(false);
                }
                assert(lex_from(s, before) == seq![Lexeme::Plain(TokenType::EOF)]);
                assert(done =~= lex(s));
            }
            break;
        }
        proof {
            assert(skip_ws(s, before) < s.len());
            assert(lex_from(s, before) == seq![l].add(lex_from(s, lexer.pos())));
            assert(done.add(lex_from(s, lexer.pos())) =~= lex(s));
        }
    }
    proof {
        lemma_lex_from_ends_with_eof(s, 0);
        assert forall|k: int| 0 <= k < tokens@.len() - 1 implies #[trigger] tokens@[k]
            != TokenType::EOF by {
            assert(denotes(tokens@[k], lex(s)[k]));
        }
        assert(denotes(tokens@.last(), lex(s).last()));
    }
    tokens
}

} // verus!
