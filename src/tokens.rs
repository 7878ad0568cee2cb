//! Tokenisation: source text into spanned tokens.
use vstd::prelude::*;
use crate::spans::{Pos, Span, Spanning, pos_after, has_room, lemma_pos_after_bounds};

verus! {

/// Why no token could be read at the current position.
#[derive(Clone, Copy, Debug, PartialEq, Eq, Hash, Structural)]
pub enum TokenError {
    /// A control character outside any literal.
    InvalidChar(char),
    /// A lexeme that stops before it is complete, such as `0x` without digits.
    Partial,
    /// An integer literal whose value does not fit in an `i64`.
    Overflow,
}

/// The three kinds of brackets.
#[derive(Clone, Copy, Debug, PartialEq, Eq, Hash, Structural)]
pub enum Paren {
    Paren,
    Brace,
    Square,
}

impl Paren {
    pub open spec fn open_char(self) -> char {
        match self {
            Paren::Paren => '(',
            Paren::Brace => '{',
            Paren::Square => '[',
        }
    }

    pub open spec fn close_char(self) -> char {
        match self {
            Paren::Paren => ')',
            Paren::Brace => '}',
            Paren::Square => ']',
        }
    }

    /// The character that opens this kind of bracket.
    pub fn open(self) -> (r: char)
        ensures
            r == self.open_char(),
    {
        match self {
            Paren::Paren => '(',
            Paren::Brace => '{',
            Paren::Square => '[',
        }
    }

    /// The character that closes this kind of bracket.
    pub fn close(self) -> (r: char)
        ensures
            r == self.close_char(),
    {
        match self {
            Paren::Paren => ')',
            Paren::Brace => '}',
            Paren::Square => ']',
        }
    }

    pub open spec fn of_char(c: char) -> Option<Paren> {
        if c == '(' || c == ')' {
            Some(Paren::Paren)
        } else if c == '{' || c == '}' {
            Some(Paren::Brace)
        } else if c == '[' || c == ']' {
            Some(Paren::Square)
        } else {
            None
        }
    }

    /// The kind of bracket that `c` opens or closes, if any.
    pub fn from_char(c: char) -> (r: Option<Paren>)
        ensures
            r == Paren::of_char(c),
    {
        if c == '(' || c == ')' {
            Some(Paren::Paren)
        } else if c == '{' || c == '}' {
            Some(Paren::Brace)
        } else if c == '[' || c == ']' {
            Some(Paren::Square)
        } else {
            None
        }
    }
}

/// The five prefix markers. `:` ascribes a type and takes two forms; `\`
/// (lambda), `` ` `` (quasiquote), `'` (quote) and `~` (unquote) take one.
#[derive(Clone, Copy, Debug, PartialEq, Eq, Hash, Structural)]
pub enum Prefix {
    HasType,
    Lambda,
    Quasiquote,
    Quote,
    Unquote,
}

impl Prefix {
    pub open spec fn of_char(c: char) -> Option<Prefix> {
        if c == ':' {
            Some(Prefix::HasType)
        } else if c == '\\' {
            Some(Prefix::Lambda)
        } else if c == '`' {
            Some(Prefix::Quasiquote)
        } else if c == '\'' {
            Some(Prefix::Quote)
        } else if c == '~' {
            Some(Prefix::Unquote)
        } else {
            None
        }
    }

    /// The prefix that `c` marks, if any.
    pub fn from_char(c: char) -> (r: Option<Prefix>)
        ensures
            r == Prefix::of_char(c),
    {
        if c == ':' {
            Some(Prefix::HasType)
        } else if c == '\\' {
            Some(Prefix::Lambda)
        } else if c == '`' {
            Some(Prefix::Quasiquote)
        } else if c == '\'' {
            Some(Prefix::Quote)
        } else if c == '~' {
            Some(Prefix::Unquote)
        } else {
            None
        }
    }
}

pub open spec fn spec_is_open(c: char) -> bool {
    c == '(' || c == '{' || c == '['
}

pub open spec fn spec_is_close(c: char) -> bool {
    c == ')' || c == '}' || c == ']'
}

pub open spec fn spec_is_prefix(c: char) -> bool {
    c == '\\' || c == ':' || c == '`' || c == '\'' || c == '~'
}

pub open spec fn spec_is_digit(c: char) -> bool {
    '0' as u32 <= c as u32 <= '9' as u32
}

pub open spec fn spec_is_hex_digit(c: char) -> bool {
    spec_is_digit(c) || 'a' as u32 <= c as u32 <= 'f' as u32 || 'A' as u32 <= c as u32 <= 'F' as u32
}

/// Space, tab, line feed, form feed and carriage return.
pub open spec fn spec_is_whitespace(c: char) -> bool {
    c == ' ' || c == '\t' || c == '\n' || c == '\x0C' || c == '\r'
}

/// The control characters: U+0000 to U+001F and U+007F to U+009F.
pub open spec fn spec_is_control(c: char) -> bool {
    c as u32 <= 0x1f || 0x7f <= c as u32 <= 0x9f
}

pub open spec fn spec_is_symbol(c: char) -> bool {
    !spec_is_prefix(c) && !spec_is_open(c) && !spec_is_close(c) && !spec_is_digit(c)
        && !spec_is_whitespace(c) && !spec_is_control(c)
}

pub fn is_open(c: char) -> (r: bool)
    ensures
        r == spec_is_open(c),
{
    c == '(' || c == '{' || c == '['
}

pub fn is_close(c: char) -> (r: bool)
    ensures
        r == spec_is_close(c),
{
    c == ')' || c == '}' || c == ']'
}

pub fn is_prefix(c: char) -> (r: bool)
    ensures
        r == spec_is_prefix(c),
{
    c == '\\' || c == ':' || c == '`' || c == '\'' || c == '~'
}

fn is_digit(c: char) -> (r: bool)
    ensures
        r == spec_is_digit(c),
{
    let n = c as u32;
    48 <= n && n <= 57
}

fn is_hex_digit(c: char) -> (r: bool)
    ensures
        r == spec_is_hex_digit(c),
{
    let n = c as u32;
    (48 <= n && n <= 57) || (97 <= n && n <= 102) || (65 <= n && n <= 70)
}

fn is_whitespace(c: char) -> (r: bool)
    ensures
        r == spec_is_whitespace(c),
{
    c == ' ' || c == '\t' || c == '\n' || c == '\x0C' || c == '\r'
}

fn is_control(c: char) -> (r: bool)
    ensures
        r == spec_is_control(c),
{
    let n = c as u32;
    n <= 0x1f || (0x7f <= n && n <= 0x9f)
}

/// Whether `c` may stand in a symbol.
pub fn is_symbol(c: char) -> (r: bool)
    ensures
        r == spec_is_symbol(c),
{
    !is_prefix(c) && !is_open(c) && !is_close(c) && !is_digit(c) && !is_whitespace(c)
        && !is_control(c)
}


/// A literal token.
#[derive(Clone, Debug, PartialEq, Eq, Hash)]
pub enum Literal {
    Int(i64),
    Symbol(String),
}

/// A token of program text.
#[derive(Clone, Debug, PartialEq, Eq, Hash)]
pub enum Token {
    Literal(Literal),
    Open(Paren),
    Close(Paren),
    Prefix(Prefix),
    Whitespace(String),
}

impl Token {
    /// Whether more characters of the same kind could extend this token.
    pub fn may_continue(&self) -> (r: bool)
        ensures
            r == (self is Literal || self is Whitespace),
    {
        match self {
            Token::Literal(_) => true,
            Token::Open(_) => false,
            Token::Close(_) => false,
            Token::Prefix(_) => false,
            Token::Whitespace(_) => true,
        }
    }
}

/// The character classes that a token is a run of.
pub enum Class {
    Digit,
    HexDigit,
    Whitespace,
    Symbol,
}

pub open spec fn in_class(c: char, class: Class) -> bool {
    match class {
        Class::Digit => spec_is_digit(c),
        Class::HexDigit => spec_is_hex_digit(c),
        Class::Whitespace => spec_is_whitespace(c),
        Class::Symbol => spec_is_symbol(c),
    }
}

/// The end of the longest run of characters of `class` that starts at `i`.
pub open spec fn run_end(s: Seq<char>, i: int, class: Class) -> int
    decreases s.len() - i,
{
    if i < 0 || i >= s.len() || !in_class(s[i], class) {
        i
    } else {
        run_end(s, i + 1, class)
    }
}

pub open spec fn digit_value(c: char) -> int {
    if spec_is_digit(c) {
        c as u32 - '0' as u32
    } else if 'a' as u32 <= c as u32 <= 'f' as u32 {
        c as u32 - 'a' as u32 + 10
    } else {
        c as u32 - 'A' as u32 + 10
    }
}

/// The value of the digits `s` in base `radix`.
pub open spec fn digits_value(s: Seq<char>, radix: int) -> int
    decreases s.len(),
{
    if s.len() == 0 {
        0
    } else {
        digits_value(s.drop_last(), radix) * radix + digit_value(s.last())
    }
}

proof fn lemma_digits_value_nonneg(s: Seq<char>, radix: int)
    requires
        radix == 10 || radix == 16,
        forall|i: int| 0 <= i < s.len() ==> spec_is_hex_digit(#[trigger] s[i]),
    ensures
        digits_value(s, radix) >= 0,
    decreases s.len(),
{
    if s.len() > 0 {
        lemma_digits_value_nonneg(s.drop_last(), radix);
        assert(spec_is_hex_digit(s[s.len() - 1]));
    }
}

/// Relies on `i64::from_str_radix`: a non-empty run of digits of the radix
/// parses to its value, and fails exactly when that value exceeds `i64::MAX`.
#[verifier::external_body]
fn parse_digits(digits: &str, radix: u32) -> (r: Option<i64>)
    requires
        radix == 10 || radix == 16,
        digits@.len() > 0,
        forall|i: int| 0 <= i < digits@.len() ==> in_class(digits@[i],
            if radix == 10 { Class::Digit } else { Class::HexDigit }),
    ensures
        r matches Some(v) ==> v == digits_value(digits@, radix as int),
        r is None <==> digits_value(digits@, radix as int) > i64::MAX,
{
    i64::from_str_radix(digits, radix).ok()
}

/// What the text at a position reads as.
pub enum Lexeme {
    Int(int),
    Symbol(Seq<char>),
    Open(Paren),
    Close(Paren),
    Prefix(Prefix),
    Whitespace(Seq<char>),
    Fail(TokenError),
}

/// Whether a hexadecimal literal starts at `i`.
pub open spec fn hex_at(s: Seq<char>, i: int) -> bool {
    s[i] == '0' && i + 1 < s.len() && s[i + 1] == 'x'
}

/// The end of the token that starts at `i < s.len()`.
pub open spec fn lexeme_end(s: Seq<char>, i: int) -> int {
    let c = s[i];
    if spec_is_digit(c) {
        if hex_at(s, i) { run_end(s, i + 2, Class::HexDigit) } else { run_end(s, i, Class::Digit) }
    } else if spec_is_whitespace(c) {
        run_end(s, i, Class::Whitespace)
    } else if spec_is_control(c) {
        i + 1
    } else if spec_is_prefix(c) || spec_is_open(c) || spec_is_close(c) {
        i + 1
    } else {
        run_end(s, i, Class::Symbol)
    }
}

pub open spec fn int_lexeme(v: int) -> Lexeme {
    if v > i64::MAX { Lexeme::Fail(TokenError::Overflow) } else { Lexeme::Int(v) }
}

/// What the token that starts at `i < s.len()` reads as. Whitespace is tested
/// before control characters, so that line breaks and tabs separate tokens.
pub open spec fn lexeme_at(s: Seq<char>, i: int) -> Lexeme {
    let c = s[i];
    let end = lexeme_end(s, i);
    if spec_is_digit(c) {
        if hex_at(s, i) {
            if end == i + 2 {
                Lexeme::Fail(TokenError::Partial)
            } else {
                int_lexeme(digits_value(s.subrange(i + 2, end), 16))
            }
        } else {
            int_lexeme(digits_value(s.subrange(i, end), 10))
        }
    } else if spec_is_whitespace(c) {
        Lexeme::Whitespace(s.subrange(i, end))
    } else if spec_is_control(c) {
        Lexeme::Fail(TokenError::InvalidChar(c))
    } else if spec_is_prefix(c) {
        Lexeme::Prefix(Prefix::of_char(c)->0)
    } else if spec_is_open(c) {
        Lexeme::Open(Paren::of_char(c)->0)
    } else if spec_is_close(c) {
        Lexeme::Close(Paren::of_char(c)->0)
    } else {
        Lexeme::Symbol(s.subrange(i, end))
    }
}

pub open spec fn token_lexeme(t: Token) -> Lexeme {
    match t {
        Token::Literal(Literal::Int(v)) => Lexeme::Int(v as int),
        Token::Literal(Literal::Symbol(s)) => Lexeme::Symbol(s@),
        Token::Open(p) => Lexeme::Open(p),
        Token::Close(p) => Lexeme::Close(p),
        Token::Prefix(p) => Lexeme::Prefix(p),
        Token::Whitespace(s) => Lexeme::Whitespace(s@),
    }
}

/// Reads tokens from source text, one at a time.
pub struct Tokens<'a> {
    source: &'a str,
    chars: Vec<char>,
    index: usize,
    pos: Pos,
}

impl<'a> Tokens<'a> {
    /// The characters of the source.
    pub closed spec fn text(&self) -> Seq<char> {
        self.source@
    }

    /// The position of the next character.
    pub closed spec fn position(&self) -> Pos {
        self.pos
    }

    /// The position of the next character.
    pub fn pos(&self) -> (r: Pos)
        ensures
            r == self.position(),
    {
        self.pos
    }

    /// How many characters have been read.
    pub closed spec fn read_so_far(&self) -> int {
        self.index as int
    }

    pub closed spec fn wf(&self) -> bool {
        &&& self.chars@ == self.source@
        &&& self.index <= self.chars@.len()
        &&& has_room(self.pos, self.chars@.len() - self.index)
    }

    /// Start reading `source` at its beginning.
    pub fn new(source: &'a str) -> (r: Tokens<'a>)
        ensures
            r.wf(),
            r.text() == source@,
            r.read_so_far() == 0,
            r.position() == (Pos { offset: 0, line: 0, column: 0 }),
    {
        let n = source.unicode_len();
        let mut chars: Vec<char> = Vec::new();
        let mut i: usize = 0;
        while i < n
            invariant
                n == source@.len(),
                i <= n,
                chars@ == source@.subrange(0, i as int),
            decreases n - i,
        {
            chars.push(source.get_char(i));
            i = i + 1;
        }
        assert(chars@ =~= source@);
        Tokens { source, chars, index: 0, pos: Pos { offset: 0, line: 0, column: 0 } }
    }

    /// Whether all of the source has been read.
    pub fn at_end(&self) -> (r: bool)
        requires
            self.wf(),
        ensures
            r == (self.read_so_far() == self.text().len()),
    {
        self.index == self.chars.len()
    }

    fn scan(&self, from: usize, class: &Class) -> (r: usize)
        requires
            self.wf(),
            from <= self.chars@.len(),
        ensures
            r == run_end(self.chars@, from as int, *class),
            from <= r <= self.chars@.len(),
            from < self.chars@.len() && in_class(self.chars@[from as int], *class) ==> r > from,
            forall|k: int| from <= k < r ==> in_class(self.chars@[k], *class),
    {
        let mut j = from;
        while j < self.chars.len() && in_class_exec(self.chars[j], class)
            invariant
                self.wf(),
                from <= j <= self.chars@.len(),
                run_end(self.chars@, j as int, *class) == run_end(self.chars@, from as int, *class),
                forall|k: int| from <= k < j ==> in_class(self.chars@[k], *class),
            decreases self.chars@.len() - j,
        {
            j = j + 1;
        }
        j
    }

    /// Move on to the character at `end`, and return the span covered.
    fn advance(&mut self, end: usize) -> (r: Span)
        requires
            old(self).wf(),
            old(self).index <= end <= old(self).chars@.len(),
        ensures
            final(self).wf(),
            final(self).source == old(self).source,
            final(self).index == end,
            final(self).pos == pos_after(old(self).pos, old(self).chars@.subrange(old(self).index as int, end as int)),
            r == (Span { start: old(self).pos, end: final(self).pos }),
    {
        let start = self.pos;
        let text = self.source.substring_char(self.index, end);
        proof {
            lemma_pos_after_bounds(start, text@);
        }
        self.pos = start.after(text);
        self.index = end;
        Span::new(start, self.pos)
    }

    /// Read an integer literal from `digits_at` to `end`.
    fn number(&mut self, digits_at: usize, end: usize, radix: u32) -> (r: Result<Spanning<Token>, TokenError>)
        requires
            old(self).wf(),
            old(self).index <= digits_at < end <= old(self).chars@.len(),
            radix == 10 || radix == 16,
            forall|k: int| digits_at <= k < end ==> in_class(old(self).chars@[k],
                if radix == 10 { Class::Digit } else { Class::HexDigit }),
        ensures
            ({
                let v = digits_value(old(self).chars@.subrange(digits_at as int, end as int), radix as int);
                match r {
                    Ok(t) => 0 <= v <= i64::MAX && t.inner == Token::Literal(Literal::Int(v as i64))
                        && final(self).wf() && final(self).source == old(self).source
                        && final(self).index == end
                        && final(self).pos == pos_after(old(self).pos, old(self).chars@.subrange(old(self).index as int, end as int))
                        && t.span == (Span { start: old(self).pos, end: final(self).pos }),
                    Err(e) => v > i64::MAX && e == TokenError::Overflow
                        && final(self).wf() && final(self).source == old(self).source
                        && final(self).index == end
                        && final(self).pos == pos_after(old(self).pos, old(self).chars@.subrange(old(self).index as int, end as int)),
                }
            }),
    {
        let digits = self.source.substring_char(digits_at, end);
        assert(digits@ =~= self.chars@.subrange(digits_at as int, end as int));
        proof {
            lemma_digits_value_nonneg(digits@, radix as int);
        }
        match parse_digits(digits, radix) {
            Some(v) => {
                let span = self.advance(end);
                Ok(Spanning::new(Token::Literal(Literal::Int(v)), span))
            },
            None => {
                self.advance(end);
                Err(TokenError::Overflow)
            },
        }
    }

    /// Read the next token, or `None` at the end of the source. An error
    /// skips the text it is about (the character, or the whole malformed
    /// literal), so that reading always moves on.
    pub fn next(&mut self) -> (r: Option<Result<Spanning<Token>, TokenError>>)
        requires
            old(self).wf(),
        ensures
            final(self).wf(),
            final(self).text() == old(self).text(),
            0 <= old(self).read_so_far() <= old(self).text().len(),
            0 <= final(self).read_so_far() <= final(self).text().len(),
            old(self).read_so_far() == old(self).text().len() ==> r is None && *final(self) == *old(self),
            old(self).read_so_far() < old(self).text().len() ==> ({
                let s = old(self).text();
                let i = old(self).read_so_far();
                let end = lexeme_end(s, i);
                &&& i < end <= s.len()
                &&& final(self).read_so_far() == end
                &&& final(self).position() == pos_after(old(self).position(), s.subrange(i, end))
                &&& match lexeme_at(s, i) {
                    Lexeme::Fail(e) => r == Some(Err::<Spanning<Token>, TokenError>(e)),
                    lx => r matches Some(Ok(t)) && token_lexeme(t.inner) == lx
                        && t.span == (Span { start: old(self).position(), end: final(self).position() }),
                }
            }),
    {
        if self.index == self.chars.len() {
            return None;
        }
        let i = self.index;
        let c = self.chars[i];
        if is_digit(c) {
            if c == '0' && i + 1 < self.chars.len() && self.chars[i + 1] == 'x' {
                let end = self.scan(i + 2, &Class::HexDigit);
                if end == i + 2 {
                    self.advance(end);
                    return Some(Err(TokenError::Partial));
                }
                Some(self.number(i + 2, end, 16))
            } else {
                let end = self.scan(i, &Class::Digit);
                Some(self.number(i, end, 10))
            }
        } else if is_whitespace(c) {
            let end = self.scan(i, &Class::Whitespace);
            let text = self.source.substring_char(i, end).to_owned();
            let span = self.advance(end);
            Some(Ok(Spanning::new(Token::Whitespace(text), span)))
        } else if is_control(c) {
            self.advance(i + 1);
            Some(Err(TokenError::InvalidChar(c)))
        } else if is_prefix(c) {
            let span = self.advance(i + 1);
            match Prefix::from_char(c) {
                Some(p) => Some(Ok(Spanning::new(Token::Prefix(p), span))),
                None => Some(Err(TokenError::InvalidChar(c))),
            }
        } else if is_open(c) {
            let span = self.advance(i + 1);
            match Paren::from_char(c) {
                Some(p) => Some(Ok(Spanning::new(Token::Open(p), span))),
                None => Some(Err(TokenError::InvalidChar(c))),
            }
        } else if is_close(c) {
            let span = self.advance(i + 1);
            match Paren::from_char(c) {
                Some(p) => Some(Ok(Spanning::new(Token::Close(p), span))),
                None => Some(Err(TokenError::InvalidChar(c))),
            }
        } else {
            let end = self.scan(i, &Class::Symbol);
            let text = self.source.substring_char(i, end).to_owned();
            let span = self.advance(end);
            Some(Ok(Spanning::new(Token::Literal(Literal::Symbol(text)), span)))
        }
    }
}

fn in_class_exec(c: char, class: &Class) -> (r: bool)
    ensures
        r == in_class(c, *class),
{
    match class {
        Class::Digit => is_digit(c),
        Class::HexDigit => is_hex_digit(c),
        Class::Whitespace => is_whitespace(c),
        Class::Symbol => is_symbol(c),
    }
}

} // verus!
