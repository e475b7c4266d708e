//! The lexer: from the bytes of the source text to tokens.
//!
//! Tokens are words (keywords and identifiers), decimal integers, and the
//! symbols `( ) { } : , -> + - * /`. Blanks separate tokens and mean
//! nothing else. A token list always ends with one closing token: `End`
//! at the end of the text, or `Invalid` at the first byte that starts no
//! token.

use vstd::prelude::*;
use vstd::string::StringSliceAdditionalSpecFns;

verus! {

/// What a token is.
#[derive(Clone, Copy, Debug, PartialEq, Eq, Structural)]
pub enum TokenKind {
    Export,
    Def,
    True,
    False,
    Ident,
    Integer,
    LParen,
    RParen,
    LBrace,
    RBrace,
    Colon,
    Comma,
    Arrow,
    Plus,
    Minus,
    Star,
    Slash,
    /// The end of the text.
    End,
    /// A byte that starts no token.
    Invalid,
}

/// A token: its kind and the bytes `start..end` that spell it.
#[derive(Clone, Copy, Debug, PartialEq, Eq)]
pub struct Token {
    pub kind: TokenKind,
    pub start: usize,
    pub end: usize,
}

pub open spec fn is_space(byte: u8) -> bool {
    byte == 32 || byte == 9 || byte == 10 || byte == 13
}

pub open spec fn is_word_start(byte: u8) -> bool {
    (97 <= byte <= 122) || (65 <= byte <= 90) || byte == 95
}

pub open spec fn is_digit(byte: u8) -> bool {
    48 <= byte <= 57
}

pub open spec fn is_word(byte: u8) -> bool {
    is_word_start(byte) || is_digit(byte)
}

/// The class of bytes that a run is made of.
#[derive(Clone, Copy, Debug, PartialEq, Eq, Structural)]
pub enum Run {
    Spaces,
    Word,
    Digits,
}

pub open spec fn in_run(run: Run, byte: u8) -> bool {
    match run {
        Run::Spaces => is_space(byte),
        Run::Word => is_word(byte),
        Run::Digits => is_digit(byte),
    }
}

/// The first position at or after `pos` whose byte is not of `run`.
pub open spec fn run_end(bytes: Seq<u8>, run: Run, pos: int) -> int
    decreases bytes.len() - pos,
{
    if 0 <= pos < bytes.len() && in_run(run, bytes[pos]) {
        run_end(bytes, run, pos + 1)
    } else {
        pos
    }
}

/// Whether the bytes `start..end` are the bytes of `word`.
pub open spec fn spells(bytes: Seq<u8>, start: int, end: int, word: &str) -> bool {
    bytes.subrange(start, end) == word.spec_bytes()
}

/// The kind of the word at `start..end`: a keyword, or an identifier.
pub open spec fn word_kind(bytes: Seq<u8>, start: int, end: int) -> TokenKind {
    if spells(bytes, start, end, "export") {
        TokenKind::Export
    } else if spells(bytes, start, end, "def") {
        TokenKind::Def
    } else if spells(bytes, start, end, "true") {
        TokenKind::True
    } else if spells(bytes, start, end, "false") {
        TokenKind::False
    } else {
        TokenKind::Ident
    }
}

/// The kind of the one-byte token `byte`.
pub open spec fn symbol_kind(byte: u8) -> TokenKind {
    if byte == 40 {
        TokenKind::LParen
    } else if byte == 41 {
        TokenKind::RParen
    } else if byte == 123 {
        TokenKind::LBrace
    } else if byte == 125 {
        TokenKind::RBrace
    } else if byte == 58 {
        TokenKind::Colon
    } else if byte == 44 {
        TokenKind::Comma
    } else if byte == 43 {
        TokenKind::Plus
    } else if byte == 45 {
        TokenKind::Minus
    } else if byte == 42 {
        TokenKind::Star
    } else if byte == 47 {
        TokenKind::Slash
    } else {
        TokenKind::Invalid
    }
}

/// The token that starts at `pos`, which is no blank.
pub open spec fn token_at(bytes: Seq<u8>, pos: int) -> Token {
    if pos < 0 || pos >= bytes.len() {
        Token { kind: TokenKind::End, start: bytes.len() as usize, end: bytes.len() as usize }
    } else if is_word_start(bytes[pos]) {
        let end = run_end(bytes, Run::Word, pos + 1);
        Token { kind: word_kind(bytes, pos, end), start: pos as usize, end: end as usize }
    } else if is_digit(bytes[pos]) {
        let end = run_end(bytes, Run::Digits, pos + 1);
        Token { kind: TokenKind::Integer, start: pos as usize, end: end as usize }
    } else if bytes[pos] == 45 && pos + 1 < bytes.len() && bytes[pos + 1] == 62 {
        Token { kind: TokenKind::Arrow, start: pos as usize, end: (pos + 2) as usize }
    } else {
        Token { kind: symbol_kind(bytes[pos]), start: pos as usize, end: (pos + 1) as usize }
    }
}

/// Whether a token of this kind closes a token list.
pub open spec fn closes(kind: TokenKind) -> bool {
    kind == TokenKind::End || kind == TokenKind::Invalid
}

/// The tokens of the text from `pos` on, up to the closing token.
pub open spec fn tokens_from(bytes: Seq<u8>, pos: int) -> Seq<Token>
    decreases bytes.len() - pos,
{
    let start = run_end(bytes, Run::Spaces, pos);
    let token = token_at(bytes, start);
    if !closes(token.kind) && pos < token.end <= bytes.len() {
        seq![token] + tokens_from(bytes, token.end as int)
    } else {
        seq![token]
    }
}

/// The tokens of the text `bytes`.
pub open spec fn lex_spec(bytes: Seq<u8>) -> Seq<Token> {
    tokens_from(bytes, 0)
}

/// The shape of every token list: the last token closes it and no other
/// does; every token lies in the text and they follow each other.
pub open spec fn well_formed(tokens: Seq<Token>, len: int) -> bool {
    &&& 0 < tokens.len() <= usize::MAX
    &&& closes(tokens.last().kind)
    &&& forall|i: int| 0 <= i < tokens.len() - 1 ==> !closes((#[trigger] tokens[i]).kind)
    &&& forall|i: int|
        0 <= i < tokens.len() ==> (#[trigger] tokens[i]).start <= tokens[i].end <= len
    &&& forall|i: int|
        0 <= i < tokens.len() - 1 ==> (#[trigger] tokens[i]).start < tokens[i].end
}

fn byte_in_run(run: Run, byte: u8) -> (inside: bool)
    ensures
        inside == in_run(run, byte),
{
    match run {
        Run::Spaces => byte == 32 || byte == 9 || byte == 10 || byte == 13,
        Run::Word => (97 <= byte && byte <= 122) || (65 <= byte && byte <= 90) || byte == 95 || (48
            <= byte && byte <= 57),
        Run::Digits => 48 <= byte && byte <= 57,
    }
}

fn scan_run(bytes: &[u8], run: Run, pos: usize) -> (end: usize)
    requires
        pos <= bytes@.len(),
    ensures
        end == run_end(bytes@, run, pos as int),
        pos <= end <= bytes@.len(),
{
    let mut end = pos;
    while end < bytes.len() && byte_in_run(run, bytes[end])
        invariant
            pos <= end <= bytes@.len(),
            run_end(bytes@, run, end as int) == run_end(bytes@, run, pos as int),
        decreases bytes@.len() - end,
    {
        end = end + 1;
    }
    end
}

/// Whether the bytes `start..end` are the bytes of `word`.
pub fn word_is(bytes: &[u8], start: usize, end: usize, word: &str) -> (same: bool)
    requires
        start <= end <= bytes@.len(),
    ensures
        same == spells(bytes@, start as int, end as int, word),
{
    let letters = word.as_bytes();
    if letters.len() != end - start {
        return false;
    }
    let mut index: usize = 0;
    while index < letters.len()
        invariant
            start <= end <= bytes@.len(),
            letters@.len() == end - start,
            index <= letters@.len(),
            letters@ == word.spec_bytes(),
            forall|i: int| 0 <= i < index ==> bytes@[start + i] == letters@[i],
        decreases letters@.len() - index,
    {
        if bytes[start + index] != letters[index] {
            assert(bytes@.subrange(start as int, end as int)[index as int] != letters@[index as int]);
            return false;
        }
        index = index + 1;
    }
    assert(bytes@.subrange(start as int, end as int) =~= letters@);
    true
}

fn kind_of_word(bytes: &[u8], start: usize, end: usize) -> (kind: TokenKind)
    requires
        start <= end <= bytes@.len(),
    ensures
        kind == word_kind(bytes@, start as int, end as int),
{
    if word_is(bytes, start, end, "export") {
        TokenKind::Export
    } else if word_is(bytes, start, end, "def") {
        TokenKind::Def
    } else if word_is(bytes, start, end, "true") {
        TokenKind::True
    } else if word_is(bytes, start, end, "false") {
        TokenKind::False
    } else {
        TokenKind::Ident
    }
}

fn kind_of_symbol(byte: u8) -> (kind: TokenKind)
    ensures
        kind == symbol_kind(byte),
{
    if byte == 40 {
        TokenKind::LParen
    } else if byte == 41 {
        TokenKind::RParen
    } else if byte == 123 {
        TokenKind::LBrace
    } else if byte == 125 {
        TokenKind::RBrace
    } else if byte == 58 {
        TokenKind::Colon
    } else if byte == 44 {
        TokenKind::Comma
    } else if byte == 43 {
        TokenKind::Plus
    } else if byte == 45 {
        TokenKind::Minus
    } else if byte == 42 {
        TokenKind::Star
    } else if byte == 47 {
        TokenKind::Slash
    } else {
        TokenKind::Invalid
    }
}

fn scan_token(bytes: &[u8], pos: usize) -> (token: Token)
    requires
        pos <= bytes@.len(),
    ensures
        token == token_at(bytes@, pos as int),
        token.start <= token.end <= bytes@.len(),
        token.kind != TokenKind::End ==> token.start == pos && pos < token.end,
{
    let len = bytes.len();
    if pos >= len {
        return Token { kind: TokenKind::End, start: len, end: len };
    }
    let byte = bytes[pos];
    if (97 <= byte && byte <= 122) || (65 <= byte && byte <= 90) || byte == 95 {
        let end = scan_run(bytes, Run::Word, pos + 1);
        Token { kind: kind_of_word(bytes, pos, end), start: pos, end }
    } else if 48 <= byte && byte <= 57 {
        let end = scan_run(bytes, Run::Digits, pos + 1);
        Token { kind: TokenKind::Integer, start: pos, end }
    } else if byte == 45 && pos + 1 < len && bytes[pos + 1] == 62 {
        Token { kind: TokenKind::Arrow, start: pos, end: pos + 2 }
    } else {
        Token { kind: kind_of_symbol(byte), start: pos, end: pos + 1 }
    }
}

/// Splits the source text into tokens.
pub fn lex(source: &str) -> (tokens: Vec<Token>)
    ensures
        tokens@ == lex_spec(source.spec_bytes()),
        well_formed(tokens@, source.spec_bytes().len() as int),
{
    let bytes = source.as_bytes();
    let mut tokens: Vec<Token> = Vec::new();
    let mut pos: usize = 0;
    loop
        invariant
            pos <= bytes@.len(),
            bytes@ == source.spec_bytes(),
            tokens@ + tokens_from(bytes@, pos as int) == tokens_from(bytes@, 0),
            forall|i: int| 0 <= i < tokens@.len() ==> !closes((#[trigger] tokens@[i]).kind),
            forall|i: int|
                0 <= i < tokens@.len() ==> (#[trigger] tokens@[i]).start < tokens@[i].end
                    <= bytes@.len(),
        decreases bytes@.len() - pos,
    {
        let start = scan_run(bytes, Run::Spaces, pos);
        let token = scan_token(bytes, start);
        let ghost before = tokens@;
        tokens.push(token);
        assert(tokens.len() == tokens@.len());
        match token.kind {
            TokenKind::End | TokenKind::Invalid => {
                assert(tokens_from(bytes@, pos as int) == seq![token]);
                assert(tokens@ =~= before + seq![token]);
                return tokens;
            },
            _ => {
                assert(tokens_from(bytes@, pos as int) == seq![token] + tokens_from(
                    bytes@,
                    token.end as int,
                ));
                assert(tokens@ + tokens_from(bytes@, token.end as int) =~= before + (seq![token]
                    + tokens_from(bytes@, token.end as int)));
                pos = token.end;
            },
        }
    }
}

} // verus!
