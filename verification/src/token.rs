use vstd::prelude::*;

verus! {

/// The kind of a lexical token of the SQL dialect.
///
/// Keywords are written in upper case, as the dialect spells them.  A keyword is never an
/// identifier: the parser accepts only `Ident` tokens where a name is expected.
#[allow(non_camel_case_types)]
#[derive(PartialEq, Eq, Structural, Clone, Copy, Debug)]
pub enum TokenKind {
    Ident,
    LiteralString,
    LiteralNumber,
    // symbols
    LParen,
    RParen,
    Comma,
    Period,
    Multiply,
    Divide,
    Modulo,
    Plus,
    Minus,
    Eq,
    NotEq,
    Lt,
    Lte,
    Gt,
    Gte,
    RArrow,
    // keywords
    ALL,
    AND,
    AS,
    ASC,
    AT,
    BY,
    CROSS,
    DESC,
    DISTINCT,
    EXCEPT,
    FALSE,
    FORMAT,
    FROM,
    FULL,
    GROUP,
    HAVING,
    INNER,
    INTERSECT,
    JOIN,
    LEFT,
    LIMIT,
    NATURAL,
    NOT,
    NULL,
    OFFSET,
    ON,
    OR,
    ORDER,
    OUTER,
    RIGHT,
    SELECT,
    SNAPSHOT,
    TRUE,
    UNION,
    USING,
    WHERE,
}

/// A lexical token: its kind and its text.
///
/// For an identifier the text is the name; for a string literal it is the value that stands
/// between the quotes; for a number literal it is the number as written.
#[derive(Debug, PartialEq, Eq)]
pub struct Token {
    pub kind: TokenKind,
    pub text: String,
}

impl Token {
    pub fn new(kind: TokenKind, text: String) -> (t: Token)
        ensures
            t.kind == kind,
            t.text == text,
    {
        Token { kind, text }
    }
}

/// Whether the token at `pos` exists and has the kind `k`.
pub open spec fn kind_at(toks: Seq<Token>, pos: int, k: TokenKind) -> bool {
    0 <= pos < toks.len() && toks[pos].kind == k
}

/// The number of tokens from `pos` to the end of the input.
pub open spec fn remaining(toks: Seq<Token>, pos: int) -> nat {
    if 0 <= pos <= toks.len() {
        (toks.len() - pos) as nat
    } else {
        0
    }
}

/// Tells whether the token at `pos` exists and has the kind `k`.
pub fn is_kind(toks: &[Token], pos: usize, k: TokenKind) -> (b: bool)
    ensures
        b == kind_at(toks@, pos as int, k),
        toks@.len() <= usize::MAX,
{
    pos < toks.len() && toks[pos].kind == k
}

} // verus!
