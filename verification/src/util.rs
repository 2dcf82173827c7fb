use vstd::prelude::*;

use crate::ast::Identifier;
use crate::token::{is_kind, kind_at, Token, TokenKind};

verus! {

/// Why a parser did not succeed.
///
/// `Error` lets an enclosing alternative try its next branch; `Failure` is final: it is raised
/// past a commit point (after `ORDER`, `BY`, `FROM`, `WHERE`, ...) and no alternative catches it.
/// `MissingOperand` is final too: a set operator (`UNION`, `EXCEPT`, `INTERSECT`) is not
/// followed by its right operand, and the statement has no syntax tree.
/// Each carries the token position where the failing match was attempted.
#[derive(PartialEq, Eq, Structural, Clone, Copy, Debug)]
pub enum ParseError {
    Error(usize),
    Failure(usize),
    MissingOperand(usize),
}

/// The result of a parser: the position after what it consumed, and the value.
pub type PResult<T> = Result<(usize, T), ParseError>;

/// The mathematical outcome of a grammar rule at a position of a token sequence.
///
/// `Parsed(end, value)`, `Backtrack(pos)` (a recoverable error), `Cut(pos)` (an unrecoverable
/// error), and `Abort(pos)`: the input makes the rule's evaluation stop without any result (a
/// set operator whose right operand is missing at `pos`).
pub enum Outcome<V> {
    Parsed(int, V),
    Backtrack(int),
    Cut(int),
    Abort(int),
}

/// The executable result `r` is the outcome `o`, its value mapped by `f`.
pub open spec fn agrees<T, V>(r: PResult<T>, o: Outcome<V>, f: spec_fn(T) -> V) -> bool {
    match r {
        Ok((n, v)) => o == Outcome::Parsed(n as int, f(v)),
        Err(ParseError::Error(p)) => o == Outcome::<V>::Backtrack(p as int),
        Err(ParseError::Failure(p)) => o == Outcome::<V>::Cut(p as int),
        Err(ParseError::MissingOperand(p)) => o == Outcome::<V>::Abort(p as int),
    }
}

/// A successful result consumed at least one token, and no token past the end.
pub open spec fn progress<T>(r: PResult<T>, toks: Seq<Token>, pos: usize) -> bool {
    r matches Ok((n, _)) ==> pos < n <= toks.len()
}

/// A successful result consumed no token past the end, and went no backwards.
pub open spec fn within<T>(r: PResult<T>, toks: Seq<Token>, pos: usize) -> bool {
    r matches Ok((n, _)) ==> pos <= n <= toks.len()
}

/// The non-success outcomes carried over to another value type.
pub open spec fn fail_as<V, W>(o: Outcome<V>) -> Outcome<W> {
    match o {
        Outcome::Backtrack(p) => Outcome::Backtrack(p),
        Outcome::Cut(p) => Outcome::Cut(p),
        Outcome::Abort(p) => Outcome::Abort(p),
        Outcome::Parsed(p, _) => Outcome::Backtrack(p),
    }
}

/// `a | b`: `b` is tried where `a` fails recoverably.
pub open spec fn or_else<V>(a: Outcome<V>, b: Outcome<V>) -> Outcome<V> {
    match a {
        Outcome::Backtrack(_) => b,
        _ => a,
    }
}

/// An identifier token, taken as a name.
pub open spec fn spec_ident(toks: Seq<Token>, pos: int) -> Outcome<Identifier> {
    if kind_at(toks, pos, TokenKind::Ident) {
        Outcome::Parsed(pos + 1, Identifier { name: toks[pos].text })
    } else {
        Outcome::Backtrack(pos)
    }
}

/// Parses an identifier.
pub fn ident(toks: &[Token], pos: usize) -> (r: PResult<Identifier>)
    ensures
        agrees(r, spec_ident(toks@, pos as int), |i: Identifier| i),
        progress(r, toks@, pos),
{
    if is_kind(toks, pos, TokenKind::Ident) {
        Ok((pos + 1, Identifier { name: toks[pos].text.clone() }))
    } else {
        Err(ParseError::Error(pos))
    }
}

} // verus!
