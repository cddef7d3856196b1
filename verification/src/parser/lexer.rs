//! The lexer: from characters to tokens.
//!
//! White space and comments (from `#` to the end of the line) separate
//! tokens and are otherwise dropped. A name or a number is the longest run of
//! its characters; a string runs to the next double quote and knows no
//! escapes.
//!
//! An error is located by its offset in bytes of UTF-8, its line and its
//! column.

use vstd::prelude::*;
use vstd::string::StringExecFns;
use vstd::utf8::{char_is_scalar, encode_scalar, encode_utf8};
use crate::parser::token::{Lexeme, Position, Token, TokenKind, TokenView, token_views};

verus! {

/// What went wrong in the lexer.
#[derive(Clone, Copy, Debug, PartialEq, Eq, Structural)]
pub enum LexErrorKind {
    /// A character that starts no token.
    UnexpectedChar,
    /// A string literal without its closing quote.
    UnterminatedString,
}

/// The first place at which the source is not made of tokens.
#[derive(Clone, Copy, Debug, PartialEq, Eq, Structural)]
pub struct LexError {
    pub kind: LexErrorKind,
    pub position: Position,
}

impl LexErrorKind {
    /// The message of this kind of error.
    pub open spec fn text(self) -> Seq<char> {
        match self {
            LexErrorKind::UnexpectedChar => "unexpected character"@,
            LexErrorKind::UnterminatedString => "unterminated string"@,
        }
    }
}

impl LexError {
    /// A message for people.
    pub fn message(&self) -> (res: String)
        ensures
            res@ == self.kind.text(),
    {
        match self.kind {
            LexErrorKind::UnexpectedChar => String::from_str("unexpected character"),
            LexErrorKind::UnterminatedString => String::from_str("unterminated string"),
        }
    }
}

/// Sets of characters that the lexer scans runs of.
#[derive(Clone, Copy, Debug, PartialEq, Eq, Structural)]
pub enum CharClass {
    /// Letters, digits and the underscore.
    NamePart,
    /// Decimal digits.
    Digit,
    /// All but the double quote.
    InString,
    /// All but the line feed.
    InComment,
}

pub open spec fn is_space(c: char) -> bool {
    c == ' ' || c == '\t' || c == '\n' || c == '\r'
}

pub open spec fn is_digit(c: char) -> bool {
    '0' <= c <= '9'
}

pub open spec fn is_name_start(c: char) -> bool {
    'a' <= c <= 'z' || 'A' <= c <= 'Z' || c == '_'
}

/// Whether `text` is a run of digits, as a number token holds one.
pub open spec fn is_number(text: Seq<char>) -> bool {
    text.len() > 0 && forall|i: int| 0 <= i < text.len() ==> is_digit(#[trigger] text[i])
}

/// Whether `text` is an identifier, as a name token holds one.
pub open spec fn is_identifier(text: Seq<char>) -> bool {
    text.len() > 0 && is_name_start(text[0]) && forall|i: int|
        0 <= i < text.len() ==> CharClass::NamePart.holds(#[trigger] text[i])
}

impl CharClass {
    pub open spec fn holds(self, c: char) -> bool {
        match self {
            CharClass::NamePart => is_name_start(c) || is_digit(c),
            CharClass::Digit => is_digit(c),
            CharClass::InString => c != '"',
            CharClass::InComment => c != '\n',
        }
    }

    pub fn contains(self, c: char) -> (res: bool)
        ensures
            res == self.holds(c),
    {
        match self {
            CharClass::NamePart => name_start(c) || digit(c),
            CharClass::Digit => digit(c),
            CharClass::InString => c != '"',
            CharClass::InComment => c != '\n',
        }
    }
}

pub fn space(c: char) -> (res: bool)
    ensures
        res == is_space(c),
{
    c == ' ' || c == '\t' || c == '\n' || c == '\r'
}

pub fn digit(c: char) -> (res: bool)
    ensures
        res == is_digit(c),
{
    '0' <= c && c <= '9'
}

pub fn name_start(c: char) -> (res: bool)
    ensures
        res == is_name_start(c),
{
    ('a' <= c && c <= 'z') || ('A' <= c && c <= 'Z') || c == '_'
}

/// The end of the longest run of characters of `class` that starts at `i`.
pub open spec fn run_end(s: Seq<char>, i: int, class: CharClass) -> int
    decreases s.len() - i,
{
    if 0 <= i < s.len() && class.holds(s[i]) {
        run_end(s, i + 1, class)
    } else {
        i
    }
}

/// A run ends at or after its start and within the text, on the first
/// character outside the class, and holds only characters of the class.
pub proof fn lemma_run_end(s: Seq<char>, i: int, class: CharClass)
    requires
        0 <= i <= s.len(),
    ensures
        i <= run_end(s, i, class) <= s.len(),
        run_end(s, i, class) < s.len() ==> !class.holds(s[run_end(s, i, class)]),
        forall|k: int| i <= k < run_end(s, i, class) ==> class.holds(#[trigger] s[k]),
    decreases s.len() - i,
{
    if i < s.len() && class.holds(s[i]) {
        lemma_run_end(s, i + 1, class);
    }
}

/// The first place at or after `i` that is neither white space nor inside a
/// comment; the length of the text if there is none.
pub open spec fn skip_ignored(s: Seq<char>, i: int) -> int
    decreases s.len() - i,
{
    if 0 <= i < s.len() {
        if is_space(s[i]) {
            skip_ignored(s, i + 1)
        } else if s[i] == '#' {
            proof {
                lemma_run_end(s, i + 1, CharClass::InComment);
            }
            skip_ignored(s, run_end(s, i + 1, CharClass::InComment))
        } else {
            i
        }
    } else {
        i
    }
}

pub proof fn lemma_skip_ignored(s: Seq<char>, i: int)
    requires
        0 <= i <= s.len(),
    ensures
        i <= skip_ignored(s, i) <= s.len(),
    decreases s.len() - i,
{
    if i < s.len() {
        if is_space(s[i]) {
            lemma_skip_ignored(s, i + 1);
        } else if s[i] == '#' {
            lemma_run_end(s, i + 1, CharClass::InComment);
            lemma_skip_ignored(s, run_end(s, i + 1, CharClass::InComment));
        }
    }
}

/// The token that starts at `i`, with the place just behind it.
pub open spec fn token_at(s: Seq<char>, i: int) -> Result<(Lexeme, int), LexErrorKind>
    recommends
        0 <= i < s.len(),
{
    let c = s[i];
    if c == '{' {
        Ok((Lexeme::LBrace, i + 1))
    } else if c == '}' {
        Ok((Lexeme::RBrace, i + 1))
    } else if c == '(' {
        Ok((Lexeme::LParen, i + 1))
    } else if c == ')' {
        Ok((Lexeme::RParen, i + 1))
    } else if c == '[' {
        Ok((Lexeme::LBracket, i + 1))
    } else if c == ']' {
        Ok((Lexeme::RBracket, i + 1))
    } else if c == ':' {
        Ok((Lexeme::Colon, i + 1))
    } else if c == ',' {
        Ok((Lexeme::Comma, i + 1))
    } else if c == '"' {
        let end = run_end(s, i + 1, CharClass::InString);
        if end < s.len() {
            Ok((Lexeme::Str(s.subrange(i + 1, end)), end + 1))
        } else {
            Err(LexErrorKind::UnterminatedString)
        }
    } else if is_name_start(c) {
        let end = run_end(s, i + 1, CharClass::NamePart);
        Ok((Lexeme::Name(s.subrange(i, end)), end))
    } else if is_digit(c) {
        let end = run_end(s, i + 1, CharClass::Digit);
        Ok((Lexeme::Number(s.subrange(i, end)), end))
    } else {
        Err(LexErrorKind::UnexpectedChar)
    }
}

pub proof fn lemma_token_at(s: Seq<char>, i: int)
    requires
        0 <= i < s.len(),
    ensures
        token_at(s, i) matches Ok((_, end)) ==> i < end <= s.len(),
{
    lemma_run_end(s, i + 1, CharClass::InString);
    lemma_run_end(s, i + 1, CharClass::NamePart);
    lemma_run_end(s, i + 1, CharClass::Digit);
}

/// The number of line feeds before `i`.
pub open spec fn line_of(s: Seq<char>, i: int) -> int
    decreases i,
{
    if i <= 0 || i > s.len() {
        0
    } else if s[i - 1] == '\n' {
        line_of(s, i - 1) + 1
    } else {
        line_of(s, i - 1)
    }
}

/// The number of characters between `i` and the last line feed before it.
pub open spec fn column_of(s: Seq<char>, i: int) -> int
    decreases i,
{
    if i <= 0 || i > s.len() || s[i - 1] == '\n' {
        0
    } else {
        column_of(s, i - 1) + 1
    }
}

/// The tokens of `s` from `i` on, or the first place where none starts.
pub open spec fn lex_from(s: Seq<char>, i: int) -> Result<Seq<TokenView>, (LexErrorKind, int)>
    decreases s.len() - i,
{
    if 0 <= i <= s.len() {
        let start = skip_ignored(s, i);
        if start >= s.len() {
            Ok(Seq::empty())
        } else {
            match token_at(s, start) {
                Err(kind) => Err((kind, start)),
                Ok((kind, end)) => {
                    proof {
                        lemma_skip_ignored(s, i);
                        lemma_token_at(s, start);
                    }
                    match lex_from(s, end) {
                        Err(e) => Err(e),
                        Ok(rest) => Ok(seq![TokenView { kind, offset: start }] + rest),
                    }
                },
            }
        }
    } else {
        Ok(Seq::empty())
    }
}


/// The number of bytes that the character `c` takes in UTF-8.
pub open spec fn char_width(c: char) -> int {
    let code = c as u32;
    if code <= 0x7f {
        1
    } else if code <= 0x7ff {
        2
    } else if code <= 0xffff {
        3
    } else {
        4
    }
}

/// The number of bytes that the characters before `i` take in UTF-8.
pub open spec fn byte_of(s: Seq<char>, i: int) -> int {
    encode_utf8(s.take(i)).len() as int
}

/// Whether the text `s` is short enough for its offsets in bytes to be
/// machine words.
pub open spec fn fits_usize(s: Seq<char>) -> bool {
    encode_utf8(s).len() <= usize::MAX
}

/// The position record of the place `i` characters into `s`.
pub open spec fn position_at(s: Seq<char>, i: int) -> Position {
    Position {
        offset: byte_of(s, i) as usize,
        line: line_of(s, i) as usize,
        column: column_of(s, i) as usize,
    }
}

/// The encoding of a text with one more character is the encoding of the
/// text with the encoding of the character behind it.
pub proof fn lemma_encode_push(a: Seq<char>, c: char)
    ensures
        encode_utf8(a.push(c)) == encode_utf8(a) + encode_scalar(c as u32),
    decreases a.len(),
{
    if a.len() == 0 {
        assert(a.push(c).drop_first() =~= Seq::<char>::empty());
        assert(encode_utf8(a.push(c).drop_first()) =~= Seq::<u8>::empty());
        assert(encode_utf8(a) =~= Seq::<u8>::empty());
        assert(a.push(c)[0] == c);
        assert(encode_utf8(a.push(c)) =~= encode_utf8(a) + encode_scalar(c as u32));
    } else {
        assert(a.push(c).drop_first() =~= a.drop_first().push(c));
        lemma_encode_push(a.drop_first(), c);
        assert(encode_utf8(a.push(c)) =~= encode_utf8(a) + encode_scalar(c as u32));
    }
}

/// One character further, the offset in bytes is larger by the width of
/// the character.
pub proof fn lemma_byte_of_step(s: Seq<char>, i: int)
    requires
        0 <= i < s.len(),
    ensures
        byte_of(s, i + 1) == byte_of(s, i) + char_width(s[i]),
{
    assert(s.take(i + 1) =~= s.take(i).push(s[i]));
    lemma_encode_push(s.take(i), s[i]);
    char_is_scalar(s[i]);
    assert(encode_scalar(s[i] as u32).len() == char_width(s[i]));
}

/// No offset in bytes lies behind the length of the encoding of the text.
pub proof fn lemma_byte_of_bound(s: Seq<char>, i: int)
    requires
        0 <= i <= s.len(),
    ensures
        0 <= byte_of(s, i) <= encode_utf8(s).len(),
    decreases s.len() - i,
{
    if i < s.len() {
        lemma_byte_of_step(s, i);
        lemma_byte_of_bound(s, i + 1);
    } else {
        assert(s.take(i) =~= s);
    }
}

/// The tokens of `s`, or the first place at which no token starts.
pub open spec fn lex(s: Seq<char>) -> Result<Seq<TokenView>, LexError> {
    match lex_from(s, 0) {
        Ok(tokens) => Ok(tokens),
        Err((kind, at)) => Err(LexError { kind, position: position_at(s, at) }),
    }
}

/// `tokens` put in front of the tokens of an outcome; an error stays.
pub open spec fn after(tokens: Seq<TokenView>, outcome: Result<Seq<TokenView>, (LexErrorKind, int)>)
    -> Result<Seq<TokenView>, (LexErrorKind, int)> {
    match outcome {
        Ok(rest) => Ok(tokens + rest),
        Err(e) => Err(e),
    }
}

pub proof fn lemma_position_bounds(s: Seq<char>, i: int)
    requires
        0 <= i <= s.len(),
    ensures
        0 <= line_of(s, i) <= i,
        0 <= column_of(s, i) <= i,
    decreases i,
{
    if i > 0 {
        lemma_position_bounds(s, i - 1);
    }
}

/// Every token starts inside the text, at or behind the place the lexer
/// started from.
pub proof fn lemma_lex_offsets(s: Seq<char>, i: int)
    requires
        0 <= i <= s.len(),
    ensures
        lex_from(s, i) matches Ok(tokens) ==> forall|k: int|
            0 <= k < tokens.len() ==> i <= (#[trigger] tokens[k]).offset < s.len(),
        lex_from(s, i) matches Err((_, at)) ==> i <= at < s.len(),
    decreases s.len() - i,
{
    let start = skip_ignored(s, i);
    lemma_skip_ignored(s, i);
    if start < s.len() {
        lemma_token_at(s, start);
        if let Ok((_, end)) = token_at(s, start) {
            lemma_lex_offsets(s, end);
        }
    }
}

/// `String::push` of std appends one character to the end of the string.
pub assume_specification[ std::string::String::push ](s: &mut std::string::String, c: char)
    ensures
        final(s)@ == old(s)@.push(c),
;

/// The characters of `input`, in order.
pub fn chars_of(input: &str) -> (res: Vec<char>)
    ensures
        res@ == input@,
        fits_usize(res@),
{
    let bytes = input.as_bytes();
    let mut res: Vec<char> = Vec::with_capacity(bytes.len());
    proof {
        vstd::slice::axiom_spec_len(bytes);
    }
    for c in it: input.chars()
        invariant
            res@ == it.seq().take(it.index() as int),
            it.seq() == input@,
    {
        res.push(c);
        assert(res@ =~= it.seq().take(it.index() + 1));
    }
    assert(res@ =~= input@);
    res
}

/// The number of bytes that `c` takes in UTF-8.
pub fn width_of(c: char) -> (res: usize)
    ensures
        res == char_width(c),
{
    let code = c as u32;
    if code <= 0x7f {
        1
    } else if code <= 0x7ff {
        2
    } else if code <= 0xffff {
        3
    } else {
        4
    }
}

/// The offset in bytes, the line and the column of the place `offset`
/// characters into `chars`.
pub fn locate(chars: &Vec<char>, offset: usize) -> (res: Position)
    requires
        offset <= chars.len(),
        fits_usize(chars@),
    ensures
        res == position_at(chars@, offset as int),
{
    let mut bytes: usize = 0;
    let mut line: usize = 0;
    let mut column: usize = 0;
    let mut i: usize = 0;
    assert(chars@.take(0) =~= Seq::<char>::empty());
    while i < offset
        invariant
            i <= offset <= chars.len(),
            fits_usize(chars@),
            bytes == byte_of(chars@, i as int),
            line == line_of(chars@, i as int),
            column == column_of(chars@, i as int),
        decreases offset - i,
    {
        proof {
            lemma_position_bounds(chars@, i + 1);
            lemma_byte_of_step(chars@, i as int);
            lemma_byte_of_bound(chars@, i + 1);
        }
        bytes = bytes + width_of(chars[i]);
        if chars[i] == '\n' {
            line = line + 1;
            column = 0;
        } else {
            column = column + 1;
        }
        i = i + 1;
    }
    Position { offset: bytes, line, column }
}

/// Scans the longest run of characters of `class` from `start`.
pub fn scan_run(chars: &Vec<char>, start: usize, class: CharClass) -> (end: usize)
    requires
        start <= chars.len(),
    ensures
        end == run_end(chars@, start as int, class),
        start <= end <= chars.len(),
{
    let mut end: usize = start;
    while end < chars.len() && class.contains(chars[end])
        invariant
            start <= end <= chars.len(),
            run_end(chars@, start as int, class) == run_end(chars@, end as int, class),
        decreases chars.len() - end,
    {
        end = end + 1;
    }
    end
}

/// Skips white space and comments from `i`.
pub fn skip(chars: &Vec<char>, i: usize) -> (start: usize)
    requires
        i <= chars.len(),
    ensures
        start == skip_ignored(chars@, i as int),
        i <= start <= chars.len(),
{
    let mut start: usize = i;
    while start < chars.len() && (space(chars[start]) || chars[start] == '#')
        invariant
            i <= start <= chars.len(),
            skip_ignored(chars@, i as int) == skip_ignored(chars@, start as int),
        decreases chars.len() - start,
    {
        if chars[start] == '#' {
            start = scan_run(chars, start + 1, CharClass::InComment);
        } else {
            start = start + 1;
        }
    }
    start
}

/// The characters of `chars` from `from` up to `to`, as a string.
pub fn slice_text(chars: &Vec<char>, from: usize, to: usize) -> (res: String)
    requires
        from <= to <= chars.len(),
    ensures
        res@ == chars@.subrange(from as int, to as int),
{
    let mut res = String::new();
    let mut i: usize = from;
    while i < to
        invariant
            from <= i <= to <= chars.len(),
            res@ == chars@.subrange(from as int, i as int),
        decreases to - i,
    {
        res.push(chars[i]);
        i = i + 1;
        assert(res@ =~= chars@.subrange(from as int, i as int));
    }
    res
}

/// Reads the token that starts at `i`.
pub fn scan_token(chars: &Vec<char>, i: usize) -> (res: Result<(TokenKind, usize), LexErrorKind>)
    requires
        i < chars.len(),
    ensures
        match token_at(chars@, i as int) {
            Ok((kind, end)) => res matches Ok((k, e)) && k@ == kind && e == end && i < e
                <= chars.len(),
            Err(kind) => res == Err::<(TokenKind, usize), LexErrorKind>(kind),
        },
{
    let c = chars[i];
    if c == '{' {
        Ok((TokenKind::LBrace, i + 1))
    } else if c == '}' {
        Ok((TokenKind::RBrace, i + 1))
    } else if c == '(' {
        Ok((TokenKind::LParen, i + 1))
    } else if c == ')' {
        Ok((TokenKind::RParen, i + 1))
    } else if c == '[' {
        Ok((TokenKind::LBracket, i + 1))
    } else if c == ']' {
        Ok((TokenKind::RBracket, i + 1))
    } else if c == ':' {
        Ok((TokenKind::Colon, i + 1))
    } else if c == ',' {
        Ok((TokenKind::Comma, i + 1))
    } else if c == '"' {
        let end = scan_run(chars, i + 1, CharClass::InString);
        if end < chars.len() {
            Ok((TokenKind::Str(slice_text(chars, i + 1, end)), end + 1))
        } else {
            Err(LexErrorKind::UnterminatedString)
        }
    } else if name_start(c) {
        let end = scan_run(chars, i + 1, CharClass::NamePart);
        Ok((TokenKind::Name(slice_text(chars, i, end)), end))
    } else if digit(c) {
        let end = scan_run(chars, i + 1, CharClass::Digit);
        Ok((TokenKind::Number(slice_text(chars, i, end)), end))
    } else {
        Err(LexErrorKind::UnexpectedChar)
    }
}

/// Splits `chars` into tokens.
pub fn tokenise_chars(chars: &Vec<char>) -> (res: Result<Vec<Token>, LexError>)
    requires
        fits_usize(chars@),
    ensures
        match lex(chars@) {
            Ok(tokens) => res matches Ok(v) && token_views(v@) == tokens,
            Err(e) => res == Err::<Vec<Token>, LexError>(e),
        },
{
    let mut tokens: Vec<Token> = Vec::new();
    let mut i: usize = 0;
    assert(token_views(tokens@) + Seq::<TokenView>::empty() =~= Seq::<TokenView>::empty());
    assert(token_views(tokens@) =~= Seq::<TokenView>::empty());
    loop
        invariant
            i <= chars.len(),
            fits_usize(chars@),
            lex_from(chars@, 0) == after(token_views(tokens@), lex_from(chars@, i as int)),
        decreases chars.len() - i,
    {
        let start = skip(chars, i);
        if start >= chars.len() {
            assert(token_views(tokens@) + Seq::<TokenView>::empty() =~= token_views(tokens@));
            return Ok(tokens);
        }
        match scan_token(chars, start) {
            Err(kind) => {
                return Err(LexError { kind, position: locate(chars, start) });
            },
            Ok((kind, end)) => {
                let ghost before = token_views(tokens@);
                let ghost token = TokenView { kind: kind@, offset: start as int };
                tokens.push(Token { kind, offset: start });
                proof {
                    assert(token_views(tokens@) =~= before.push(token));
                    match lex_from(chars@, end as int) {
                        Ok(rest) => {
                            assert(before + (seq![token] + rest) =~= before.push(token) + rest);
                        },
                        Err(_) => {},
                    }
                }
                i = end;
            },
        }
    }
}

/// Splits source text into tokens.
///
/// The result is the token sequence that [`lex`] defines, or the error that
/// it gives at the first character that starts no token.
pub fn tokenise(input: &str) -> (res: Result<Vec<Token>, LexError>)
    ensures
        match lex(input@) {
            Ok(tokens) => res matches Ok(v) && token_views(v@) == tokens,
            Err(e) => res == Err::<Vec<Token>, LexError>(e),
        },
{
    let chars = chars_of(input);
    tokenise_chars(&chars)
}

} // verus!
