//! Shared building blocks of the recursive-descent parsers: reading one
//! identifier and expecting one punctuation token.

use vstd::prelude::*;

use crate::tokens::Token;
use crate::types::{TypeArg, TypeArgV, TypeRef, TypeRefV};
use crate::SyntaxError;

verus! {

/// The identifier at position `i`, if there is one.
pub open spec fn ident_at(toks: Seq<Token>, i: int) -> Option<Seq<char>> {
    if 0 <= i < toks.len() {
        match toks[i] {
            Token::Ident(s) => Some(s@),
            _ => None,
        }
    } else {
        None
    }
}

/// Reads the identifier at `pos`.
pub fn parse_ident(toks: &Vec<Token>, pos: usize) -> (r: Result<(String, usize), SyntaxError>)
    requires
        pos <= toks.len(),
    ensures
        match r {
            Ok((s, p)) => ident_at(toks@, pos as int) == Some(s@) && p == pos + 1,
            Err(e) => ident_at(toks@, pos as int) is None && e.pos == pos,
        },
{
    if pos < toks.len() {
        match &toks[pos] {
            Token::Ident(s) => Ok((s.clone(), pos + 1)),
            _ => Err(SyntaxError { pos }),
        }
    } else {
        Err(SyntaxError { pos })
    }
}

/// Whether the token at `i` is a comma.
pub open spec fn comma_at(toks: Seq<Token>, i: int) -> bool {
    0 <= i < toks.len() && toks[i] is Comma
}

/// Consumes the comma at `pos`.
pub fn expect_comma(toks: &Vec<Token>, pos: usize) -> (r: Result<usize, SyntaxError>)
    requires
        pos <= toks.len(),
    ensures
        match r {
            Ok(p) => comma_at(toks@, pos as int) && p == pos + 1,
            Err(e) => !comma_at(toks@, pos as int) && e.pos == pos,
        },
{
    if pos < toks.len() {
        match &toks[pos] {
            Token::Comma => Ok(pos + 1),
            _ => Err(SyntaxError { pos }),
        }
    } else {
        Err(SyntaxError { pos })
    }
}

/// Whether the token at `i` is `=>`.
pub open spec fn fat_arrow_at(toks: Seq<Token>, i: int) -> bool {
    0 <= i < toks.len() && toks[i] is FatArrow
}

/// Consumes the `=>` at `pos`.
pub fn expect_fat_arrow(toks: &Vec<Token>, pos: usize) -> (r: Result<usize, SyntaxError>)
    requires
        pos <= toks.len(),
    ensures
        match r {
            Ok(p) => fat_arrow_at(toks@, pos as int) && p == pos + 1,
            Err(e) => !fat_arrow_at(toks@, pos as int) && e.pos == pos,
        },
{
    if pos < toks.len() {
        match &toks[pos] {
            Token::FatArrow => Ok(pos + 1),
            _ => Err(SyntaxError { pos }),
        }
    } else {
        Err(SyntaxError { pos })
    }
}

/// Whether the token at `i` is a colon.
pub open spec fn colon_at(toks: Seq<Token>, i: int) -> bool {
    0 <= i < toks.len() && toks[i] is Colon
}

/// Consumes the colon at `pos`.
pub fn expect_colon(toks: &Vec<Token>, pos: usize) -> (r: Result<usize, SyntaxError>)
    requires
        pos <= toks.len(),
    ensures
        match r {
            Ok(p) => colon_at(toks@, pos as int) && p == pos + 1,
            Err(e) => !colon_at(toks@, pos as int) && e.pos == pos,
        },
{
    if pos < toks.len() {
        match &toks[pos] {
            Token::Colon => Ok(pos + 1),
            _ => Err(SyntaxError { pos }),
        }
    } else {
        Err(SyntaxError { pos })
    }
}


/// Whether the token at `i` is `->`.
pub open spec fn rarrow_at(toks: Seq<Token>, i: int) -> bool {
    0 <= i < toks.len() && toks[i] is RArrow
}

/// Whether the token at `i` is `(`.
pub open spec fn lparen_at(toks: Seq<Token>, i: int) -> bool {
    0 <= i < toks.len() && toks[i] is LParen
}

/// Consumes the `(` at `pos`.
pub fn expect_lparen(toks: &Vec<Token>, pos: usize) -> (r: Result<usize, SyntaxError>)
    requires
        pos <= toks.len(),
    ensures
        match r {
            Ok(p) => lparen_at(toks@, pos as int) && p == pos + 1,
            Err(e) => !lparen_at(toks@, pos as int) && e.pos == pos,
        },
{
    if pos < toks.len() {
        match &toks[pos] {
            Token::LParen => Ok(pos + 1),
            _ => Err(SyntaxError { pos }),
        }
    } else {
        Err(SyntaxError { pos })
    }
}

/// Whether the token at `i` is `)`.
pub open spec fn rparen_at(toks: Seq<Token>, i: int) -> bool {
    0 <= i < toks.len() && toks[i] is RParen
}

/// Consumes the `)` at `pos`.
pub fn expect_rparen(toks: &Vec<Token>, pos: usize) -> (r: Result<usize, SyntaxError>)
    requires
        pos <= toks.len(),
    ensures
        match r {
            Ok(p) => rparen_at(toks@, pos as int) && p == pos + 1,
            Err(e) => !rparen_at(toks@, pos as int) && e.pos == pos,
        },
{
    if pos < toks.len() {
        match &toks[pos] {
            Token::RParen => Ok(pos + 1),
            _ => Err(SyntaxError { pos }),
        }
    } else {
        Err(SyntaxError { pos })
    }
}

/// Whether the token at `i` is `[`.
pub open spec fn lbracket_at(toks: Seq<Token>, i: int) -> bool {
    0 <= i < toks.len() && toks[i] is LBracket
}

/// Consumes the `[` at `pos`.
pub fn expect_lbracket(toks: &Vec<Token>, pos: usize) -> (r: Result<usize, SyntaxError>)
    requires
        pos <= toks.len(),
    ensures
        match r {
            Ok(p) => lbracket_at(toks@, pos as int) && p == pos + 1,
            Err(e) => !lbracket_at(toks@, pos as int) && e.pos == pos,
        },
{
    if pos < toks.len() {
        match &toks[pos] {
            Token::LBracket => Ok(pos + 1),
            _ => Err(SyntaxError { pos }),
        }
    } else {
        Err(SyntaxError { pos })
    }
}

/// Whether the token at `i` is `]`.
pub open spec fn rbracket_at(toks: Seq<Token>, i: int) -> bool {
    0 <= i < toks.len() && toks[i] is RBracket
}

/// Consumes the `]` at `pos`.
pub fn expect_rbracket(toks: &Vec<Token>, pos: usize) -> (r: Result<usize, SyntaxError>)
    requires
        pos <= toks.len(),
    ensures
        match r {
            Ok(p) => rbracket_at(toks@, pos as int) && p == pos + 1,
            Err(e) => !rbracket_at(toks@, pos as int) && e.pos == pos,
        },
{
    if pos < toks.len() {
        match &toks[pos] {
            Token::RBracket => Ok(pos + 1),
            _ => Err(SyntaxError { pos }),
        }
    } else {
        Err(SyntaxError { pos })
    }
}

/// Whether the token at `i` is `{`.
pub open spec fn lbrace_at(toks: Seq<Token>, i: int) -> bool {
    0 <= i < toks.len() && toks[i] is LBrace
}

/// Consumes the `{` at `pos`.
pub fn expect_lbrace(toks: &Vec<Token>, pos: usize) -> (r: Result<usize, SyntaxError>)
    requires
        pos <= toks.len(),
    ensures
        match r {
            Ok(p) => lbrace_at(toks@, pos as int) && p == pos + 1,
            Err(e) => !lbrace_at(toks@, pos as int) && e.pos == pos,
        },
{
    if pos < toks.len() {
        match &toks[pos] {
            Token::LBrace => Ok(pos + 1),
            _ => Err(SyntaxError { pos }),
        }
    } else {
        Err(SyntaxError { pos })
    }
}

/// Whether the token at `i` is `}`.
pub open spec fn rbrace_at(toks: Seq<Token>, i: int) -> bool {
    0 <= i < toks.len() && toks[i] is RBrace
}

/// Consumes the `}` at `pos`.
pub fn expect_rbrace(toks: &Vec<Token>, pos: usize) -> (r: Result<usize, SyntaxError>)
    requires
        pos <= toks.len(),
    ensures
        match r {
            Ok(p) => rbrace_at(toks@, pos as int) && p == pos + 1,
            Err(e) => !rbrace_at(toks@, pos as int) && e.pos == pos,
        },
{
    if pos < toks.len() {
        match &toks[pos] {
            Token::RBrace => Ok(pos + 1),
            _ => Err(SyntaxError { pos }),
        }
    } else {
        Err(SyntaxError { pos })
    }
}

/// One generic argument at position `i`: a lifetime or a type name.
pub open spec fn spec_parse_typearg(toks: Seq<Token>, i: int) -> Option<(TypeArgV, int)> {
    if 0 <= i < toks.len() {
        match toks[i] {
            Token::Lifetime(s) => Some((TypeArgV::Lifetime(s@), i + 1)),
            Token::Ident(s) => Some((TypeArgV::TypeName(s@), i + 1)),
            _ => None,
        }
    } else {
        None
    }
}

/// The remaining `, arg` pairs of a generic argument list.
pub open spec fn spec_parse_typeargs_rest(toks: Seq<Token>, i: int, acc: Seq<TypeArgV>) -> Option<
    (Seq<TypeArgV>, int),
>
    decreases toks.len() - i,
    when 0 <= i <= toks.len()
{
    if comma_at(toks, i) {
        match spec_parse_typearg(toks, i + 1) {
            Some((a, j)) => spec_parse_typeargs_rest(toks, j, acc.push(a)),
            None => None,
        }
    } else {
        Some((acc, i))
    }
}

/// The remaining `::segment` pairs of a type path.
pub open spec fn spec_parse_segments_rest(toks: Seq<Token>, i: int, acc: Seq<Seq<char>>) -> Option<
    (Seq<Seq<char>>, int),
>
    decreases toks.len() - i,
    when 0 <= i <= toks.len()
{
    if 0 <= i < toks.len() && toks[i] is PathSep {
        match ident_at(toks, i + 1) {
            Some(name) => spec_parse_segments_rest(toks, i + 2, acc.push(name)),
            None => None,
        }
    } else {
        Some((acc, i))
    }
}

/// A type reference at position `i`: a path of identifiers separated by
/// `::`, optionally followed by `<arg, ...>`.
pub open spec fn spec_parse_typeref(toks: Seq<Token>, i: int) -> Option<(TypeRefV, int)> {
    match ident_at(toks, i) {
        Some(first) => match spec_parse_segments_rest(toks, i + 1, seq![first]) {
            Some((segs, j)) => if 0 <= j < toks.len() && toks[j] is Lt {
                match spec_parse_typearg(toks, j + 1) {
                    Some((a, k)) => match spec_parse_typeargs_rest(toks, k, seq![a]) {
                        Some((args, l)) => if 0 <= l < toks.len() && toks[l] is Gt {
                            Some((TypeRefV { segments: segs, args }, l + 1))
                        } else {
                            None
                        },
                        None => None,
                    },
                    None => None,
                }
            } else {
                Some((TypeRefV { segments: segs, args: Seq::empty() }, j))
            },
            None => None,
        },
        None => None,
    }
}

fn parse_typearg(toks: &Vec<Token>, pos: usize) -> (r: Result<(TypeArg, usize), SyntaxError>)
    requires
        pos <= toks.len(),
    ensures
        match r {
            Ok((a, p)) => spec_parse_typearg(toks@, pos as int) == Some((a@, p as int)) && pos < p
                <= toks.len(),
            Err(e) => spec_parse_typearg(toks@, pos as int) is None && e.pos == pos,
        },
{
    if pos < toks.len() {
        match &toks[pos] {
            Token::Lifetime(s) => Ok((TypeArg::Lifetime(s.clone()), pos + 1)),
            Token::Ident(s) => Ok((TypeArg::TypeName(s.clone()), pos + 1)),
            _ => Err(SyntaxError { pos }),
        }
    } else {
        Err(SyntaxError { pos })
    }
}

fn parse_typeargs_rest(toks: &Vec<Token>, pos: usize, acc: Vec<TypeArg>) -> (r: Result<
    (Vec<TypeArg>, usize),
    SyntaxError,
>)
    requires
        pos <= toks.len(),
    ensures
        match r {
            Ok((v, p)) => spec_parse_typeargs_rest(
                toks@,
                pos as int,
                acc@.map_values(|a: TypeArg| a@),
            ) == Some((v@.map_values(|a: TypeArg| a@), p as int)) && pos <= p <= toks.len(),
            Err(e) => spec_parse_typeargs_rest(
                toks@,
                pos as int,
                acc@.map_values(|a: TypeArg| a@),
            ) is None,
        },
    decreases toks.len() - pos,
{
    let is_comma = pos < toks.len() && matches!(&toks[pos], Token::Comma);
    if is_comma {
        match parse_typearg(toks, pos + 1) {
            Ok((a, j)) => {
                let ghost accv = acc@.map_values(|x: TypeArg| x@);
                let ghost av = a@;
                let mut acc2 = acc;
                acc2.push(a);
                proof {
                    assert(acc2@.map_values(|x: TypeArg| x@) =~= accv.push(av));
                }
                parse_typeargs_rest(toks, j, acc2)
            },
            Err(e) => Err(e),
        }
    } else {
        Ok((acc, pos))
    }
}

pub(crate) fn parse_segments_rest(toks: &Vec<Token>, pos: usize, acc: Vec<String>) -> (r: Result<
    (Vec<String>, usize),
    SyntaxError,
>)
    requires
        pos <= toks.len(),
    ensures
        match r {
            Ok((v, p)) => spec_parse_segments_rest(toks@, pos as int, acc.deep_view()) == Some(
                (v.deep_view(), p as int),
            ) && pos <= p <= toks.len() && v@.len() >= acc@.len(),
            Err(e) => spec_parse_segments_rest(toks@, pos as int, acc.deep_view()) is None,
        },
    decreases toks.len() - pos,
{
    let is_sep = pos < toks.len() && matches!(&toks[pos], Token::PathSep);
    if is_sep {
        match parse_ident(toks, pos + 1) {
            Ok((name, j)) => {
                let ghost accv = acc.deep_view();
                let ghost nv = name@;
                let mut acc2 = acc;
                acc2.push(name);
                proof {
                    assert(acc2.deep_view() =~= accv.push(nv));
                }
                parse_segments_rest(toks, j, acc2)
            },
            Err(e) => Err(e),
        }
    } else {
        Ok((acc, pos))
    }
}

/// Parses a type reference.
pub fn parse_typeref(toks: &Vec<Token>, pos: usize) -> (r: Result<(TypeRef, usize), SyntaxError>)
    requires
        pos <= toks.len(),
    ensures
        match r {
            Ok((t, p)) => spec_parse_typeref(toks@, pos as int) == Some((t@, p as int)) && pos < p
                <= toks.len() && t.wf(),
            Err(e) => spec_parse_typeref(toks@, pos as int) is None,
        },
{
    let (first, p1) = match parse_ident(toks, pos) {
        Ok(x) => x,
        Err(e) => {
            return Err(e);
        },
    };
    let mut segs: Vec<String> = Vec::new();
    segs.push(first);
    proof {
        assert(segs.deep_view() =~= seq![ident_at(toks@, pos as int)->Some_0]);
    }
    let (segs, p2) = match parse_segments_rest(toks, p1, segs) {
        Ok(x) => x,
        Err(e) => {
            return Err(e);
        },
    };
    let is_lt = p2 < toks.len() && matches!(&toks[p2], Token::Lt);
    if is_lt {
        let (a, p3) = match parse_typearg(toks, p2 + 1) {
            Ok(x) => x,
            Err(e) => {
                return Err(e);
            },
        };
        let ghost av = a@;
        let mut args: Vec<TypeArg> = Vec::new();
        args.push(a);
        proof {
            assert(args@.map_values(|x: TypeArg| x@) =~= seq![av]);
        }
        let (args, p4) = match parse_typeargs_rest(toks, p3, args) {
            Ok(x) => x,
            Err(e) => {
                return Err(e);
            },
        };
        let is_gt = p4 < toks.len() && matches!(&toks[p4], Token::Gt);
        if is_gt {
            let t = TypeRef { segments: segs, args };
            proof {
                assert(t@ =~= spec_parse_typeref(toks@, pos as int)->Some_0.0);
            }
            Ok((t, p4 + 1))
        } else {
            Err(SyntaxError { pos: p4 })
        }
    } else {
        let t = TypeRef { segments: segs, args: Vec::new() };
        proof {
            assert(t@.args =~= Seq::<TypeArgV>::empty());
            assert(t@ =~= spec_parse_typeref(toks@, pos as int)->Some_0.0);
        }
        Ok((t, p2))
    }
}

/// The remaining `, ident` pairs of an identifier list.
pub open spec fn spec_parse_ident_rest(toks: Seq<Token>, i: int, acc: Seq<Seq<char>>) -> Option<
    (Seq<Seq<char>>, int),
>
    decreases toks.len() - i,
    when 0 <= i <= toks.len()
{
    if comma_at(toks, i) {
        match ident_at(toks, i + 1) {
            Some(name) => spec_parse_ident_rest(toks, i + 2, acc.push(name)),
            None => None,
        }
    } else {
        Some((acc, i))
    }
}

/// Parses the remaining `, ident` pairs of an identifier list.
pub fn parse_ident_rest(toks: &Vec<Token>, pos: usize, acc: Vec<String>) -> (r: Result<
    (Vec<String>, usize),
    SyntaxError,
>)
    requires
        pos <= toks.len(),
    ensures
        match r {
            Ok((v, p)) => spec_parse_ident_rest(toks@, pos as int, acc.deep_view()) == Some(
                (v.deep_view(), p as int),
            ) && pos <= p <= toks.len() && v@.len() >= acc@.len(),
            Err(e) => spec_parse_ident_rest(toks@, pos as int, acc.deep_view()) is None,
        },
    decreases toks.len() - pos,
{
    let is_comma = pos < toks.len() && matches!(&toks[pos], Token::Comma);
    if is_comma {
        match parse_ident(toks, pos + 1) {
            Ok((name, j)) => {
                let ghost accv = acc.deep_view();
                let ghost nv = name@;
                let mut acc2 = acc;
                acc2.push(name);
                proof {
                    assert(acc2.deep_view() =~= accv.push(nv));
                }
                parse_ident_rest(toks, j, acc2)
            },
            Err(e) => Err(e),
        }
    } else {
        Ok((acc, pos))
    }
}

/// Every position a successful sub-parse returns stays within the input.
pub proof fn lemma_segments_rest_pos(toks: Seq<Token>, i: int, acc: Seq<Seq<char>>)
    requires
        0 <= i <= toks.len(),
    ensures
        match spec_parse_segments_rest(toks, i, acc) {
            Some(r) => i <= r.1 <= toks.len(),
            None => true,
        },
    decreases toks.len() - i,
{
    if 0 <= i < toks.len() && toks[i] is PathSep {
        match ident_at(toks, i + 1) {
            Some(name) => {
                lemma_segments_rest_pos(toks, i + 2, acc.push(name));
            },
            None => {},
        }
    }
}

/// As [`lemma_segments_rest_pos`], for generic argument lists.
pub proof fn lemma_typeargs_rest_pos(toks: Seq<Token>, i: int, acc: Seq<TypeArgV>)
    requires
        0 <= i <= toks.len(),
    ensures
        match spec_parse_typeargs_rest(toks, i, acc) {
            Some(r) => i <= r.1 <= toks.len(),
            None => true,
        },
    decreases toks.len() - i,
{
    if comma_at(toks, i) {
        match spec_parse_typearg(toks, i + 1) {
            Some((a, j)) => {
                lemma_typeargs_rest_pos(toks, j, acc.push(a));
            },
            None => {},
        }
    }
}

/// As [`lemma_segments_rest_pos`], for identifier lists.
pub proof fn lemma_ident_rest_pos(toks: Seq<Token>, i: int, acc: Seq<Seq<char>>)
    requires
        0 <= i <= toks.len(),
    ensures
        match spec_parse_ident_rest(toks, i, acc) {
            Some(r) => i <= r.1 <= toks.len(),
            None => true,
        },
    decreases toks.len() - i,
{
    if comma_at(toks, i) {
        match ident_at(toks, i + 1) {
            Some(name) => {
                lemma_ident_rest_pos(toks, i + 2, acc.push(name));
            },
            None => {},
        }
    }
}

/// A successful type reference parse consumes at least one token and stays
/// within the input.
pub proof fn lemma_typeref_pos(toks: Seq<Token>, i: int)
    requires
        0 <= i <= toks.len(),
    ensures
        match spec_parse_typeref(toks, i) {
            Some(r) => i < r.1 <= toks.len(),
            None => true,
        },
{
    match ident_at(toks, i) {
        Some(first) => {
            lemma_segments_rest_pos(toks, i + 1, seq![first]);
            match spec_parse_segments_rest(toks, i + 1, seq![first]) {
                Some((segs, j)) => {
                    if 0 <= j < toks.len() && toks[j] is Lt {
                        match spec_parse_typearg(toks, j + 1) {
                            Some((a, k)) => {
                                lemma_typeargs_rest_pos(toks, k, seq![a]);
                            },
                            None => {},
                        }
                    }
                },
                None => {},
            }
        },
        None => {},
    }
}

} // verus!
