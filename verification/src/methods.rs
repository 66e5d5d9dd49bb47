//! Method declarations: accessor and behaviour methods targeting a set of
//! states, their parser, and the generated per-state accessors and machine
//! wrappers.

use vstd::prelude::*;
use vstd::string::StringExecFns;

use crate::parse::{
    colon_at, comma_at, fat_arrow_at, ident_at, lemma_ident_rest_pos, lemma_typeref_pos,
    lparen_at, parse_ident, parse_ident_rest, parse_typeref, rarrow_at, rparen_at,
    spec_parse_ident_rest, spec_parse_typeref,
};
use crate::text::{join_with, str_eq};
use crate::tokens::{tokens_text, Token};
use crate::types::{render_type, type_text, TypeRef, TypeRefV};
use crate::SyntaxError;

verus! {

/// The mathematical value of a [`DefaultValue`].
pub enum DefaultValueV {
    Absent,
    Default,
    Val(Seq<char>),
}

/// The default clause of a method declaration: absent, `default`, or
/// `default(expr)` with the expression kept as rendered text.
pub enum DefaultValue {
    Absent,
    Default,
    Val(String),
}

impl View for DefaultValue {
    type V = DefaultValueV;

    open spec fn view(&self) -> DefaultValueV {
        match self {
            DefaultValue::Absent => DefaultValueV::Absent,
            DefaultValue::Default => DefaultValueV::Default,
            DefaultValue::Val(s) => DefaultValueV::Val(s@),
        }
    }
}

/// Whether a default clause was declared.
pub open spec fn default_declared(d: DefaultValueV) -> bool {
    !(d is Absent)
}

impl DefaultValue {
    /// Whether a default clause was declared.
    pub fn is_default(&self) -> (r: bool)
        ensures
            r == default_declared(self@),
    {
        match self {
            DefaultValue::Absent => false,
            _ => true,
        }
    }
}

/// The mathematical value of an [`Arg`].
pub enum ArgV {
    Receiver,
    Typed(Seq<char>, TypeRefV),
}

/// One argument of a full method signature: the `&self` receiver or a named,
/// typed argument.
pub enum Arg {
    Receiver,
    Typed(String, TypeRef),
}

impl View for Arg {
    type V = ArgV;

    open spec fn view(&self) -> ArgV {
        match self {
            Arg::Receiver => ArgV::Receiver,
            Arg::Typed(n, t) => ArgV::Typed(n@, t@),
        }
    }
}

/// The mathematical value of a [`MethodSig`].
#[verifier::ext_equal]
pub struct MethodSigV {
    pub name: Seq<char>,
    pub args: Seq<ArgV>,
    pub ret: Option<TypeRefV>,
}

/// A full method signature: `fn name(args) -> Ret`.
pub struct MethodSig {
    pub name: String,
    pub args: Vec<Arg>,
    pub ret: Option<TypeRef>,
}

impl View for MethodSig {
    type V = MethodSigV;

    open spec fn view(&self) -> MethodSigV {
        MethodSigV {
            name: self.name@,
            args: self.args@.map_values(|a: Arg| a@),
            ret: match &self.ret {
                Some(t) => Some(t@),
                None => None,
            },
        }
    }
}

/// The mathematical value of a [`MethodType`].
pub enum MethodTypeV {
    Getter(Seq<char>, TypeRefV),
    Setter(Seq<char>, TypeRefV),
    Fn(MethodSigV),
}

/// The shape of a method declaration: a getter, a setter, or a full function
/// signature the user implements on the targeted states.
pub enum MethodType {
    Getter(String, TypeRef),
    Setter(String, TypeRef),
    Fn(MethodSig),
}

impl View for MethodType {
    type V = MethodTypeV;

    open spec fn view(&self) -> MethodTypeV {
        match self {
            MethodType::Getter(n, t) => MethodTypeV::Getter(n@, t@),
            MethodType::Setter(n, t) => MethodTypeV::Setter(n@, t@),
            MethodType::Fn(sig) => MethodTypeV::Fn(sig@),
        }
    }
}

/// The mathematical value of a [`Method`].
#[verifier::ext_equal]
pub struct MethodV {
    pub states: Seq<Seq<char>>,
    pub method_type: MethodTypeV,
    pub default: DefaultValueV,
}

/// One method declaration: its target states, its shape, and its default.
pub struct Method {
    pub states: Vec<String>,
    pub method_type: MethodType,
    pub default: DefaultValue,
}

impl View for Method {
    type V = MethodV;

    open spec fn view(&self) -> MethodV {
        MethodV {
            states: self.states.deep_view(),
            method_type: self.method_type@,
            default: self.default@,
        }
    }
}

/// The mathematical value of a [`Methods`] declaration.
#[verifier::ext_equal]
pub struct MethodsV {
    pub machine_name: Seq<char>,
    pub methods: Seq<MethodV>,
}

/// A full method declaration block: the machine's name and its methods.
pub struct Methods {
    pub machine_name: String,
    pub methods: Vec<Method>,
}

impl View for Methods {
    type V = MethodsV;

    open spec fn view(&self) -> MethodsV {
        MethodsV {
            machine_name: self.machine_name@,
            methods: self.methods@.map_values(|m: Method| m@),
        }
    }
}

/// Whether a method's types are well formed (non-empty type paths) and its
/// state list is non-empty.
pub open spec fn method_wf(m: MethodV) -> bool {
    &&& m.states.len() >= 1
    &&& match m.method_type {
        MethodTypeV::Getter(_, t) => t.segments.len() >= 1,
        MethodTypeV::Setter(_, t) => t.segments.len() >= 1,
        MethodTypeV::Fn(sig) => (match sig.ret {
            Some(t) => t.segments.len() >= 1,
            None => true,
        }) && forall|i: int|
            0 <= i < sig.args.len() ==> match #[trigger] sig.args[i] {
                ArgV::Typed(_, t) => t.segments.len() >= 1,
                ArgV::Receiver => true,
            },
    }
}

impl Methods {
    /// Every method is well formed.
    pub open spec fn wf(&self) -> bool {
        forall|i: int| 0 <= i < self@.methods.len() ==> method_wf(#[trigger] self@.methods[i])
    }
}

/// Captures the tokens of a parenthesised expression up to the matching
/// closing parenthesis, rendered as text.
pub open spec fn spec_capture(toks: Seq<Token>, i: int, depth: int, acc: Seq<Token>) -> Option<
    (Seq<Token>, int),
>
    decreases toks.len() - i,
    when 0 <= i <= toks.len()
{
    if i < toks.len() {
        match toks[i] {
            Token::RParen => if depth == 0 {
                Some((acc, i + 1))
            } else {
                spec_capture(toks, i + 1, depth - 1, acc.push(toks[i]))
            },
            Token::LParen => spec_capture(toks, i + 1, depth + 1, acc.push(toks[i])),
            _ => spec_capture(toks, i + 1, depth, acc.push(toks[i])),
        }
    } else {
        None
    }
}

/// The capture never moves backwards and stays within the input.
pub proof fn lemma_capture_pos(toks: Seq<Token>, i: int, depth: int, acc: Seq<Token>)
    requires
        0 <= i <= toks.len(),
    ensures
        match spec_capture(toks, i, depth, acc) {
            Some(r) => i < r.1 <= toks.len(),
            None => true,
        },
    decreases toks.len() - i,
{
    if i < toks.len() {
        match toks[i] {
            Token::RParen => {
                if depth != 0 {
                    lemma_capture_pos(toks, i + 1, depth - 1, acc.push(toks[i]));
                }
            },
            Token::LParen => {
                lemma_capture_pos(toks, i + 1, depth + 1, acc.push(toks[i]));
            },
            _ => {
                lemma_capture_pos(toks, i + 1, depth, acc.push(toks[i]));
            },
        }
    }
}

/// One argument of a signature: `&self` or `name: Type`.
pub open spec fn spec_parse_sig_arg(toks: Seq<Token>, i: int) -> Option<(ArgV, int)> {
    if 0 <= i < toks.len() && toks[i] is Amp {
        if ident_at(toks, i + 1) == Some("self"@) {
            Some((ArgV::Receiver, i + 2))
        } else {
            None
        }
    } else {
        match ident_at(toks, i) {
            Some(name) => if colon_at(toks, i + 1) {
                match spec_parse_typeref(toks, i + 2) {
                    Some((ty, j)) => Some((ArgV::Typed(name, ty), j)),
                    None => None,
                }
            } else {
                None
            },
            None => None,
        }
    }
}

/// A successful signature-argument parse consumes at least one token.
pub proof fn lemma_sig_arg_pos(toks: Seq<Token>, i: int)
    requires
        0 <= i <= toks.len(),
    ensures
        match spec_parse_sig_arg(toks, i) {
            Some(r) => i < r.1 <= toks.len(),
            None => true,
        },
{
    if !(0 <= i < toks.len() && toks[i] is Amp) {
        if i + 2 <= toks.len() {
            lemma_typeref_pos(toks, i + 2);
        }
    }
}

/// The remaining `, arg` pairs of a signature argument list.
pub open spec fn spec_parse_sig_args_rest(toks: Seq<Token>, i: int, acc: Seq<ArgV>) -> Option<
    (Seq<ArgV>, int),
>
    decreases toks.len() - i,
    when 0 <= i <= toks.len()
    via spec_parse_sig_args_rest_decreases
{
    if comma_at(toks, i) {
        match spec_parse_sig_arg(toks, i + 1) {
            Some((a, j)) => spec_parse_sig_args_rest(toks, j, acc.push(a)),
            None => None,
        }
    } else {
        Some((acc, i))
    }
}

#[via_fn]
proof fn spec_parse_sig_args_rest_decreases(toks: Seq<Token>, i: int, acc: Seq<ArgV>) {
    if comma_at(toks, i) {
        lemma_sig_arg_pos(toks, i + 1);
    }
}

/// A full signature: `fn name(args) -> Ret`, the return type optional.
pub open spec fn spec_parse_sig(toks: Seq<Token>, i: int) -> Option<(MethodSigV, int)> {
    if ident_at(toks, i) == Some("fn"@) {
        match ident_at(toks, i + 1) {
            Some(name) => if lparen_at(toks, i + 2) {
                if rparen_at(toks, i + 3) {
                    spec_parse_sig_ret(toks, i + 4, name, Seq::empty())
                } else {
                    match spec_parse_sig_arg(toks, i + 3) {
                        Some((a, j)) => match spec_parse_sig_args_rest(toks, j, seq![a]) {
                            Some((args, k)) => if rparen_at(toks, k) {
                                spec_parse_sig_ret(toks, k + 1, name, args)
                            } else {
                                None
                            },
                            None => None,
                        },
                        None => None,
                    }
                }
            } else {
                None
            },
            None => None,
        }
    } else {
        None
    }
}

/// The optional `-> Ret` tail of a signature.
pub open spec fn spec_parse_sig_ret(
    toks: Seq<Token>,
    i: int,
    name: Seq<char>,
    args: Seq<ArgV>,
) -> Option<(MethodSigV, int)> {
    if rarrow_at(toks, i) {
        match spec_parse_typeref(toks, i + 1) {
            Some((ty, j)) => Some((MethodSigV { name, args, ret: Some(ty) }, j)),
            None => None,
        }
    } else {
        Some((MethodSigV { name, args, ret: None }, i))
    }
}

/// A successful signature parse consumes at least one token.
pub proof fn lemma_sig_pos(toks: Seq<Token>, i: int)
    requires
        0 <= i <= toks.len(),
    ensures
        match spec_parse_sig(toks, i) {
            Some(r) => i < r.1 <= toks.len(),
            None => true,
        },
{
    if ident_at(toks, i) == Some("fn"@) {
        match ident_at(toks, i + 1) {
            Some(name) => {
                if lparen_at(toks, i + 2) {
                    if rparen_at(toks, i + 3) {
                        if i + 5 <= toks.len() {
                            lemma_typeref_pos(toks, i + 5);
                        }
                    } else {
                        lemma_sig_arg_pos(toks, i + 3);
                        match spec_parse_sig_arg(toks, i + 3) {
                            Some((a, j)) => {
                                lemma_sig_args_rest_pos(toks, j, seq![a]);
                                match spec_parse_sig_args_rest(toks, j, seq![a]) {
                                    Some((args, k)) => {
                                        if rparen_at(toks, k) && k + 2 <= toks.len() {
                                            lemma_typeref_pos(toks, k + 2);
                                        }
                                    },
                                    None => {},
                                }
                            },
                            None => {},
                        }
                    }
                }
            },
            None => {},
        }
    }
}

/// As [`lemma_sig_arg_pos`], for signature argument list tails.
pub proof fn lemma_sig_args_rest_pos(toks: Seq<Token>, i: int, acc: Seq<ArgV>)
    requires
        0 <= i <= toks.len(),
    ensures
        match spec_parse_sig_args_rest(toks, i, acc) {
            Some(r) => i <= r.1 <= toks.len(),
            None => true,
        },
    decreases toks.len() - i,
{
    if comma_at(toks, i) {
        lemma_sig_arg_pos(toks, i + 1);
        match spec_parse_sig_arg(toks, i + 1) {
            Some((a, j)) => {
                lemma_sig_args_rest_pos(toks, j, acc.push(a));
            },
            None => {},
        }
    }
}

/// One method declaration: target states, `=>`, an optional default clause,
/// and the method shape (`get`, `set`, or a full signature).
pub open spec fn spec_parse_method(toks: Seq<Token>, i: int) -> Option<(MethodV, int)> {
    match ident_at(toks, i) {
        Some(first) => match spec_parse_ident_rest(toks, i + 1, seq![first]) {
            Some((states, j)) => if fat_arrow_at(toks, j) {
                if ident_at(toks, j + 1) == Some("default"@) {
                    if lparen_at(toks, j + 2) {
                        match spec_capture(toks, j + 3, 0, Seq::empty()) {
                            Some((expr, k)) => spec_parse_method_shape(
                                toks,
                                k,
                                states,
                                DefaultValueV::Val(tokens_text(expr)),
                            ),
                            None => None,
                        }
                    } else {
                        spec_parse_method_shape(toks, j + 2, states, DefaultValueV::Default)
                    }
                } else {
                    spec_parse_method_shape(toks, j + 1, states, DefaultValueV::Absent)
                }
            } else {
                None
            },
            None => None,
        },
        None => None,
    }
}

/// The shape of a method declaration: a full signature, `get name: Type`, or
/// `set name: Type`.
pub open spec fn spec_parse_method_shape(
    toks: Seq<Token>,
    i: int,
    states: Seq<Seq<char>>,
    default: DefaultValueV,
) -> Option<(MethodV, int)> {
    if ident_at(toks, i) == Some("fn"@) {
        match spec_parse_sig(toks, i) {
            Some((sig, j)) => Some(
                (MethodV { states, method_type: MethodTypeV::Fn(sig), default }, j),
            ),
            None => None,
        }
    } else {
        match ident_at(toks, i) {
            Some(kw) => match ident_at(toks, i + 1) {
                Some(name) => if colon_at(toks, i + 2) {
                    match spec_parse_typeref(toks, i + 3) {
                        Some((ty, j)) => if kw == "get"@ {
                            Some(
                                (
                                    MethodV {
                                        states,
                                        method_type: MethodTypeV::Getter(name, ty),
                                        default,
                                    },
                                    j,
                                ),
                            )
                        } else if kw == "set"@ {
                            Some(
                                (
                                    MethodV {
                                        states,
                                        method_type: MethodTypeV::Setter(name, ty),
                                        default,
                                    },
                                    j,
                                ),
                            )
                        } else {
                            None
                        },
                        None => None,
                    }
                } else {
                    None
                },
                None => None,
            },
            None => None,
        }
    }
}

/// A successful method-shape parse stays within the input.
pub proof fn lemma_method_shape_pos(
    toks: Seq<Token>,
    i: int,
    states: Seq<Seq<char>>,
    default: DefaultValueV,
)
    requires
        0 <= i <= toks.len(),
    ensures
        match spec_parse_method_shape(toks, i, states, default) {
            Some(r) => i < r.1 <= toks.len(),
            None => true,
        },
{
    if ident_at(toks, i) == Some("fn"@) {
        lemma_sig_pos(toks, i);
    } else {
        if i + 3 <= toks.len() {
            lemma_typeref_pos(toks, i + 3);
        }
    }
}

/// A successful method parse consumes at least one token.
pub proof fn lemma_method_pos(toks: Seq<Token>, i: int)
    requires
        0 <= i <= toks.len(),
    ensures
        match spec_parse_method(toks, i) {
            Some(r) => i < r.1 <= toks.len(),
            None => true,
        },
{
    match ident_at(toks, i) {
        Some(first) => {
            lemma_ident_rest_pos(toks, i + 1, seq![first]);
            match spec_parse_ident_rest(toks, i + 1, seq![first]) {
                Some((states, j)) => {
                    if fat_arrow_at(toks, j) {
                        if ident_at(toks, j + 1) == Some("default"@) {
                            if lparen_at(toks, j + 2) {
                                lemma_capture_pos(toks, j + 3, 0, Seq::empty());
                                match spec_capture(toks, j + 3, 0, Seq::empty()) {
                                    Some((expr, k)) => {
                                        lemma_method_shape_pos(
                                            toks,
                                            k,
                                            states,
                                            DefaultValueV::Val(tokens_text(expr)),
                                        );
                                    },
                                    None => {},
                                }
                            } else {
                                lemma_method_shape_pos(toks, j + 2, states, DefaultValueV::Default);
                            }
                        } else {
                            lemma_method_shape_pos(toks, j + 1, states, DefaultValueV::Absent);
                        }
                    }
                },
                None => {},
            }
        },
        None => {},
    }
}

/// The remaining `, method` entries of a method list.
pub open spec fn spec_parse_methods_rest(toks: Seq<Token>, i: int, acc: Seq<MethodV>) -> Option<
    (Seq<MethodV>, int),
>
    decreases toks.len() - i,
    when 0 <= i <= toks.len()
    via spec_parse_methods_rest_decreases
{
    if comma_at(toks, i) {
        match spec_parse_method(toks, i + 1) {
            Some((m, j)) => spec_parse_methods_rest(toks, j, acc.push(m)),
            None => None,
        }
    } else {
        Some((acc, i))
    }
}

#[via_fn]
proof fn spec_parse_methods_rest_decreases(toks: Seq<Token>, i: int, acc: Seq<MethodV>) {
    if comma_at(toks, i) {
        lemma_method_pos(toks, i + 1);
    }
}

/// A complete method declaration block: `MachineName, [ method, ... ]`,
/// consuming the whole input.
pub open spec fn spec_parse_methods(toks: Seq<Token>) -> Option<MethodsV> {
    match ident_at(toks, 0) {
        Some(name) => if comma_at(toks, 1) && 2 < toks.len() && toks[2] is LBracket {
            match spec_parse_method(toks, 3) {
                Some((m, j)) => match spec_parse_methods_rest(toks, j, seq![m]) {
                    Some((ms, k)) => if k < toks.len() && toks[k] is RBracket && k + 1
                        == toks.len() {
                        Some(MethodsV { machine_name: name, methods: ms })
                    } else {
                        None
                    },
                    None => None,
                },
                None => None,
            }
        } else {
            None
        },
        None => None,
    }
}

/// A parenthesised default expression, captured as rendered text.
struct ParenVal {
    expr: String,
}

impl ParenVal {
    /// Captures the expression between `(` at `pos` and its matching `)`.
    fn parse(toks: &Vec<Token>, pos: usize) -> (r: Result<(ParenVal, usize), SyntaxError>)
        requires
            pos < toks.len(),
            toks@[pos as int] is LParen,
        ensures
            match r {
                Ok((v, p)) => spec_capture(toks@, pos + 1 as int, 0, Seq::empty()) matches Some(c)
                    && v.expr@ == tokens_text(c.0) && p == c.1 && pos < p <= toks.len(),
                Err(e) => spec_capture(toks@, pos + 1 as int, 0, Seq::empty()) is None,
            },
    {
        let ghost toksv = toks@;
        let mut s = String::new();
        let ghost mut acc: Seq<Token> = Seq::empty();
        let mut depth: usize = 0;
        let mut i: usize = pos + 1;
        loop
            invariant
                pos + 1 <= i <= toks.len(),
                toksv == toks@,
                acc.len() == i - pos - 1,
                depth <= i - pos - 1,
                s@ == tokens_text(acc),
                spec_capture(toksv, pos + 1 as int, 0, Seq::empty()) == spec_capture(
                    toksv,
                    i as int,
                    depth as int,
                    acc,
                ),
            decreases toks.len() - i,
        {
            if i >= toks.len() {
                return Err(SyntaxError { pos: i });
            }
            let is_close = matches!(&toks[i], Token::RParen);
            if is_close && depth == 0 {
                return Ok((ParenVal { expr: s }, i + 1));
            }
            let is_open = matches!(&toks[i], Token::LParen);
            if is_close {
                depth = depth - 1;
            } else if is_open {
                depth = depth + 1;
            }
            if i > pos + 1 {
                s.append(" ");
            }
            let piece = crate::tokens::token_to_string(&toks[i]);
            s.append(piece.as_str());
            proof {
                let acc2 = acc.push(toksv[i as int]);
                assert(acc2.drop_last() =~= acc);
                assert(acc2.last() == toksv[i as int]);
                if i == pos + 1 {
                    assert(acc =~= Seq::<Token>::empty());
                    assert(acc2 =~= seq![toksv[i as int]]);
                    assert(tokens_text(acc2) == crate::tokens::token_text(toksv[i as int]));
                }
                assert(s@ =~= tokens_text(acc2));
            }
            proof {
                acc = acc.push(toksv[i as int]);
            }
            i += 1;
        }
    }
}

fn parse_sig_arg(toks: &Vec<Token>, pos: usize) -> (r: Result<(Arg, usize), SyntaxError>)
    requires
        pos <= toks.len(),
    ensures
        match r {
            Ok((a, p)) => spec_parse_sig_arg(toks@, pos as int) == Some((a@, p as int)) && pos < p
                <= toks.len() && (a matches Arg::Typed(_, t) ==> t.wf()),
            Err(e) => spec_parse_sig_arg(toks@, pos as int) is None,
        },
{
    let is_amp = pos < toks.len() && matches!(&toks[pos], Token::Amp);
    if is_amp {
        let self_ok = pos + 1 < toks.len() && match &toks[pos + 1] {
            Token::Ident(s) => str_eq(s.as_str(), "self"),
            _ => false,
        };
        if self_ok {
            Ok((Arg::Receiver, pos + 2))
        } else {
            Err(SyntaxError { pos: pos + 1 })
        }
    } else {
        let (name, p1) = match parse_ident(toks, pos) {
            Ok(x) => x,
            Err(e) => {
                return Err(e);
            },
        };
        let is_colon = p1 < toks.len() && matches!(&toks[p1], Token::Colon);
        if !is_colon {
            return Err(SyntaxError { pos: p1 });
        }
        let (ty, p2) = match parse_typeref(toks, p1 + 1) {
            Ok(x) => x,
            Err(e) => {
                return Err(e);
            },
        };
        Ok((Arg::Typed(name, ty), p2))
    }
}

fn parse_sig_args_rest(toks: &Vec<Token>, pos: usize, acc: Vec<Arg>) -> (r: Result<
    (Vec<Arg>, usize),
    SyntaxError,
>)
    requires
        pos <= toks.len(),
        forall|i: int|
            0 <= i < acc@.len() ==> ((#[trigger] acc@[i]) matches Arg::Typed(_, t) ==> t.wf()),
    ensures
        match r {
            Ok((v, p)) => spec_parse_sig_args_rest(
                toks@,
                pos as int,
                acc@.map_values(|a: Arg| a@),
            ) == Some((v@.map_values(|a: Arg| a@), p as int)) && pos <= p <= toks.len() && forall|
                i: int,
            | 0 <= i < v@.len() ==> ((#[trigger] v@[i]) matches Arg::Typed(_, t) ==> t.wf()),
            Err(e) => spec_parse_sig_args_rest(
                toks@,
                pos as int,
                acc@.map_values(|a: Arg| a@),
            ) is None,
        },
    decreases toks.len() - pos,
{
    let is_comma = pos < toks.len() && matches!(&toks[pos], Token::Comma);
    if is_comma {
        match parse_sig_arg(toks, pos + 1) {
            Ok((a, j)) => {
                let ghost accv = acc@.map_values(|x: Arg| x@);
                let ghost av = a@;
                let mut acc2 = acc;
                acc2.push(a);
                proof {
                    assert(acc2@.map_values(|x: Arg| x@) =~= accv.push(av));
                }
                parse_sig_args_rest(toks, j, acc2)
            },
            Err(e) => Err(e),
        }
    } else {
        Ok((acc, pos))
    }
}

/// Parses a full method signature at `pos`.
pub fn parse_method_sig(toks: &Vec<Token>, pos: usize) -> (r: Result<
    (MethodSig, usize),
    SyntaxError,
>)
    requires
        pos <= toks.len(),
    ensures
        match r {
            Ok((sig, p)) => spec_parse_sig(toks@, pos as int) == Some((sig@, p as int)) && pos < p
                <= toks.len() && sig_wf(sig@),
            Err(e) => spec_parse_sig(toks@, pos as int) is None,
        },
{
    let kw_ok = pos < toks.len() && match &toks[pos] {
        Token::Ident(s) => str_eq(s.as_str(), "fn"),
        _ => false,
    };
    if !kw_ok {
        return Err(SyntaxError { pos });
    }
    let (name, p1) = match parse_ident(toks, pos + 1) {
        Ok(x) => x,
        Err(e) => {
            return Err(e);
        },
    };
    let is_lp = p1 < toks.len() && matches!(&toks[p1], Token::LParen);
    if !is_lp {
        return Err(SyntaxError { pos: p1 });
    }
    let empty_args = p1 + 1 < toks.len() && matches!(&toks[p1 + 1], Token::RParen);
    if empty_args {
        let args: Vec<Arg> = Vec::new();
        proof {
            assert(args@.map_values(|x: Arg| x@) =~= Seq::<ArgV>::empty());
        }
        return parse_sig_ret(toks, p1 + 2, name, args, Ghost(pos as int));
    }
    let (a, p2) = match parse_sig_arg(toks, p1 + 1) {
        Ok(x) => x,
        Err(e) => {
            return Err(e);
        },
    };
    let ghost av = a@;
    let mut acc: Vec<Arg> = Vec::new();
    acc.push(a);
    proof {
        assert(acc@.map_values(|x: Arg| x@) =~= seq![av]);
    }
    let (args, p3) = match parse_sig_args_rest(toks, p2, acc) {
        Ok(x) => x,
        Err(e) => {
            return Err(e);
        },
    };
    let is_rp = p3 < toks.len() && matches!(&toks[p3], Token::RParen);
    if !is_rp {
        return Err(SyntaxError { pos: p3 });
    }
    parse_sig_ret(toks, p3 + 1, name, args, Ghost(pos as int))
}

/// Whether a signature's types are well formed.
pub open spec fn sig_wf(sig: MethodSigV) -> bool {
    (match sig.ret {
        Some(t) => t.segments.len() >= 1,
        None => true,
    }) && forall|i: int|
        0 <= i < sig.args.len() ==> match #[trigger] sig.args[i] {
            ArgV::Typed(_, t) => t.segments.len() >= 1,
            ArgV::Receiver => true,
        }
}

fn parse_sig_ret(
    toks: &Vec<Token>,
    pos: usize,
    name: String,
    args: Vec<Arg>,
    Ghost(start): Ghost<int>,
) -> (r: Result<(MethodSig, usize), SyntaxError>)
    requires
        pos <= toks.len(),
        0 <= start < pos,
        forall|i: int|
            0 <= i < args@.len() ==> ((#[trigger] args@[i]) matches Arg::Typed(_, t) ==> t.wf()),
    ensures
        match r {
            Ok((sig, p)) => spec_parse_sig_ret(
                toks@,
                pos as int,
                name@,
                args@.map_values(|a: Arg| a@),
            ) == Some((sig@, p as int)) && start < p <= toks.len() && sig_wf(sig@),
            Err(e) => spec_parse_sig_ret(
                toks@,
                pos as int,
                name@,
                args@.map_values(|a: Arg| a@),
            ) is None,
        },
{
    let is_arrow = pos < toks.len() && matches!(&toks[pos], Token::RArrow);
    if is_arrow {
        let (ty, p) = match parse_typeref(toks, pos + 1) {
            Ok(x) => x,
            Err(e) => {
                return Err(e);
            },
        };
        let sig = MethodSig { name, args, ret: Some(ty) };
        proof {
            assert(sig@ =~= spec_parse_sig_ret(
                toks@,
                pos as int,
                sig.name@,
                sig.args@.map_values(|a: Arg| a@),
            )->Some_0.0);
            assert forall|i: int| 0 <= i < sig@.args.len() implies match #[trigger] sig@.args[i] {
                ArgV::Typed(_, t) => t.segments.len() >= 1,
                ArgV::Receiver => true,
            } by {
                assert(sig@.args[i] == sig.args@[i]@);
            }
        }
        Ok((sig, p))
    } else {
        let sig = MethodSig { name, args, ret: None };
        proof {
            assert(sig@ =~= spec_parse_sig_ret(
                toks@,
                pos as int,
                sig.name@,
                sig.args@.map_values(|a: Arg| a@),
            )->Some_0.0);
            assert forall|i: int| 0 <= i < sig@.args.len() implies match #[trigger] sig@.args[i] {
                ArgV::Typed(_, t) => t.segments.len() >= 1,
                ArgV::Receiver => true,
            } by {
                assert(sig@.args[i] == sig.args@[i]@);
            }
        }
        Ok((sig, pos))
    }
}

fn parse_method_shape(toks: &Vec<Token>, pos: usize, states: Vec<String>, default: DefaultValue)
    -> (r: Result<(Method, usize), SyntaxError>)
    requires
        pos <= toks.len(),
        states@.len() >= 1,
    ensures
        match r {
            Ok((m, p)) => spec_parse_method_shape(toks@, pos as int, states.deep_view(), default@)
                == Some((m@, p as int)) && pos < p <= toks.len() && method_wf(m@),
            Err(e) => spec_parse_method_shape(
                toks@,
                pos as int,
                states.deep_view(),
                default@,
            ) is None,
        },
{
    let is_fn = pos < toks.len() && match &toks[pos] {
        Token::Ident(s) => str_eq(s.as_str(), "fn"),
        _ => false,
    };
    if is_fn {
        let (sig, p) = match parse_method_sig(toks, pos) {
            Ok(x) => x,
            Err(e) => {
                return Err(e);
            },
        };
        let m = Method { states, method_type: MethodType::Fn(sig), default };
        proof {
            assert(m@ =~= spec_parse_method_shape(
                toks@,
                pos as int,
                m.states.deep_view(),
                m.default@,
            )->Some_0.0);
        }
        Ok((m, p))
    } else {
        let (kw, p1) = match parse_ident(toks, pos) {
            Ok(x) => x,
            Err(e) => {
                return Err(e);
            },
        };
        let (name, p2) = match parse_ident(toks, p1) {
            Ok(x) => x,
            Err(e) => {
                return Err(e);
            },
        };
        let is_colon = p2 < toks.len() && matches!(&toks[p2], Token::Colon);
        if !is_colon {
            return Err(SyntaxError { pos: p2 });
        }
        let (ty, p3) = match parse_typeref(toks, p2 + 1) {
            Ok(x) => x,
            Err(e) => {
                return Err(e);
            },
        };
        if str_eq(kw.as_str(), "get") {
            let m = Method { states, method_type: MethodType::Getter(name, ty), default };
            proof {
                assert(m@ =~= spec_parse_method_shape(
                    toks@,
                    pos as int,
                    m.states.deep_view(),
                    m.default@,
                )->Some_0.0);
            }
            Ok((m, p3))
        } else if str_eq(kw.as_str(), "set") {
            let m = Method { states, method_type: MethodType::Setter(name, ty), default };
            proof {
                assert(m@ =~= spec_parse_method_shape(
                    toks@,
                    pos as int,
                    m.states.deep_view(),
                    m.default@,
                )->Some_0.0);
            }
            Ok((m, p3))
        } else {
            Err(SyntaxError { pos })
        }
    }
}

impl Method {
    /// Parses one method declaration at `pos`.
    pub fn parse(toks: &Vec<Token>, pos: usize) -> (r: Result<(Method, usize), SyntaxError>)
        requires
            pos <= toks.len(),
        ensures
            match r {
                Ok((m, p)) => spec_parse_method(toks@, pos as int) == Some((m@, p as int)) && pos
                    < p <= toks.len() && method_wf(m@),
                Err(e) => spec_parse_method(toks@, pos as int) is None,
            },
    {
        let (first, p1) = match parse_ident(toks, pos) {
            Ok(x) => x,
            Err(e) => {
                return Err(e);
            },
        };
        let ghost fv = first@;
        let mut acc: Vec<String> = Vec::new();
        acc.push(first);
        proof {
            assert(acc.deep_view() =~= seq![fv]);
        }
        let (states, p2) = match parse_ident_rest(toks, p1, acc) {
            Ok(x) => x,
            Err(e) => {
                return Err(e);
            },
        };
        let is_fa = p2 < toks.len() && matches!(&toks[p2], Token::FatArrow);
        if !is_fa {
            return Err(SyntaxError { pos: p2 });
        }
        let has_default = p2 + 1 < toks.len() && match &toks[p2 + 1] {
            Token::Ident(s) => str_eq(s.as_str(), "default"),
            _ => false,
        };
        if has_default {
            let has_paren = p2 + 2 < toks.len() && matches!(&toks[p2 + 2], Token::LParen);
            if has_paren {
                let (pv, p3) = match ParenVal::parse(toks, p2 + 2) {
                    Ok(x) => x,
                    Err(e) => {
                        return Err(e);
                    },
                };
                parse_method_shape(toks, p3, states, DefaultValue::Val(pv.expr))
            } else {
                parse_method_shape(toks, p2 + 2, states, DefaultValue::Default)
            }
        } else {
            parse_method_shape(toks, p2 + 1, states, DefaultValue::Absent)
        }
    }
}

fn parse_methods_rest(toks: &Vec<Token>, pos: usize, acc: Vec<Method>) -> (r: Result<
    (Vec<Method>, usize),
    SyntaxError,
>)
    requires
        pos <= toks.len(),
        forall|i: int| 0 <= i < acc@.len() ==> method_wf((#[trigger] acc@[i])@),
    ensures
        match r {
            Ok((v, p)) => spec_parse_methods_rest(
                toks@,
                pos as int,
                acc@.map_values(|m: Method| m@),
            ) == Some((v@.map_values(|m: Method| m@), p as int)) && pos <= p <= toks.len()
                && forall|i: int| 0 <= i < v@.len() ==> method_wf((#[trigger] v@[i])@),
            Err(e) => spec_parse_methods_rest(
                toks@,
                pos as int,
                acc@.map_values(|m: Method| m@),
            ) is None,
        },
    decreases toks.len() - pos,
{
    let is_comma = pos < toks.len() && matches!(&toks[pos], Token::Comma);
    if is_comma {
        match Method::parse(toks, pos + 1) {
            Ok((m, j)) => {
                let ghost accv = acc@.map_values(|x: Method| x@);
                let ghost mv = m@;
                let mut acc2 = acc;
                acc2.push(m);
                proof {
                    assert(acc2@.map_values(|x: Method| x@) =~= accv.push(mv));
                }
                parse_methods_rest(toks, j, acc2)
            },
            Err(e) => Err(e),
        }
    } else {
        Ok((acc, pos))
    }
}

impl Methods {
    /// Parses a complete method declaration block, consuming the whole input.
    pub fn parse(toks: &Vec<Token>) -> (r: Result<Methods, SyntaxError>)
        ensures
            match r {
                Ok(m) => spec_parse_methods(toks@) == Some(m@) && m.wf(),
                Err(e) => spec_parse_methods(toks@) is None,
            },
    {
        let (machine_name, _) = match parse_ident(toks, 0) {
            Ok(x) => x,
            Err(e) => {
                return Err(e);
            },
        };
        let is_comma = 1 < toks.len() && matches!(&toks[1], Token::Comma);
        if !is_comma {
            return Err(SyntaxError { pos: 1 });
        }
        let is_lb = 2 < toks.len() && matches!(&toks[2], Token::LBracket);
        if !is_lb {
            return Err(SyntaxError { pos: 2 });
        }
        let (m, p1) = match Method::parse(toks, 3) {
            Ok(x) => x,
            Err(e) => {
                return Err(e);
            },
        };
        let ghost mv = m@;
        let mut acc: Vec<Method> = Vec::new();
        acc.push(m);
        proof {
            assert(acc@.map_values(|x: Method| x@) =~= seq![mv]);
        }
        let (methods, p2) = match parse_methods_rest(toks, p1, acc) {
            Ok(x) => x,
            Err(e) => {
                return Err(e);
            },
        };
        let is_rb = p2 < toks.len() && matches!(&toks[p2], Token::RBracket);
        if !is_rb {
            return Err(SyntaxError { pos: p2 });
        }
        if p2 + 1 != toks.len() {
            return Err(SyntaxError { pos: p2 + 1 });
        }
        let r = Methods { machine_name, methods };
        proof {
            assert(r@ =~= spec_parse_methods(toks@)->Some_0);
            assert forall|i: int| 0 <= i < r@.methods.len() implies method_wf(
                #[trigger] r@.methods[i],
            ) by {
                assert(r@.methods[i] == r.methods@[i]@);
            }
        }
        Ok(r)
    }
}

impl Clone for Arg {
    fn clone(&self) -> (r: Arg)
        ensures
            r@ == self@,
    {
        match self {
            Arg::Receiver => Arg::Receiver,
            Arg::Typed(n, t) => Arg::Typed(n.clone(), t.clone()),
        }
    }
}

fn clone_arg_vec(v: &Vec<Arg>) -> (r: Vec<Arg>)
    ensures
        r@.map_values(|a: Arg| a@) == v@.map_values(|a: Arg| a@),
{
    let mut r: Vec<Arg> = Vec::new();
    let mut i: usize = 0;
    while i < v.len()
        invariant
            i <= v.len(),
            r@.map_values(|a: Arg| a@) == v@.take(i as int).map_values(|a: Arg| a@),
        decreases v.len() - i,
    {
        let ghost prev = r@;
        r.push(v[i].clone());
        proof {
            let f = |a: Arg| a@;
            assert(r@.map_values(f) =~= prev.map_values(f).push(v@[i as int]@));
            assert(v@.take(i + 1 as int).map_values(f) =~= v@.take(i as int).map_values(f).push(
                v@[i as int]@,
            ));
        }
        i += 1;
    }
    assert(v@.take(v@.len() as int) =~= v@);
    r
}

impl Clone for MethodSig {
    fn clone(&self) -> (r: MethodSig)
        ensures
            r@ == self@,
    {
        let ret = match &self.ret {
            Some(t) => Some(t.clone()),
            None => None,
        };
        let r = MethodSig { name: self.name.clone(), args: clone_arg_vec(&self.args), ret };
        proof {
            assert(r@ =~= self@);
        }
        r
    }
}

impl Clone for MethodType {
    fn clone(&self) -> (r: MethodType)
        ensures
            r@ == self@,
    {
        match self {
            MethodType::Getter(n, t) => MethodType::Getter(n.clone(), t.clone()),
            MethodType::Setter(n, t) => MethodType::Setter(n.clone(), t.clone()),
            MethodType::Fn(sig) => MethodType::Fn(sig.clone()),
        }
    }
}

/// The view of one method-table group: a state name and the shapes of the
/// methods targeting it, in declaration order.
pub open spec fn group_view(g: (String, Vec<MethodType>)) -> (Seq<char>, Seq<MethodTypeV>) {
    (g.0@, g.1@.map_values(|t: MethodType| t@))
}

/// The index of the group for `name`, if one exists.
pub open spec fn find_group(gs: Seq<(Seq<char>, Seq<MethodTypeV>)>, name: Seq<char>) -> Option<
    int,
>
    decreases gs.len(),
{
    if gs.len() == 0 {
        None
    } else if gs[0].0 == name {
        Some(0)
    } else {
        match find_group(gs.drop_first(), name) {
            Some(i) => Some(i + 1),
            None => None,
        }
    }
}

proof fn lemma_find_group_skip(gs: Seq<(Seq<char>, Seq<MethodTypeV>)>, name: Seq<char>, i: int)
    requires
        0 <= i <= gs.len(),
        forall|k: int| 0 <= k < i ==> (#[trigger] gs[k]).0 != name,
    ensures
        find_group(gs, name) == match find_group(gs.skip(i), name) {
            Some(j) => Some(j + i),
            None => None::<int>,
        },
    decreases i,
{
    if i > 0 {
        assert(gs.drop_first() =~= gs.skip(1));
        lemma_find_group_skip(gs.skip(1), name, i - 1);
        assert(gs.skip(1).skip(i - 1) =~= gs.skip(i));
    } else {
        assert(gs.skip(0) =~= gs);
    }
}

/// Adds one method shape to one state's group, opening the group if needed.
pub open spec fn group_insert(
    gs: Seq<(Seq<char>, Seq<MethodTypeV>)>,
    name: Seq<char>,
    mt: MethodTypeV,
) -> Seq<(Seq<char>, Seq<MethodTypeV>)> {
    match find_group(gs, name) {
        Some(i) => gs.update(i, (gs[i].0, gs[i].1.push(mt))),
        None => gs.push((name, seq![mt])),
    }
}

/// Adds one method shape to every targeted state's group, in order.
pub open spec fn add_states(
    gs: Seq<(Seq<char>, Seq<MethodTypeV>)>,
    states: Seq<Seq<char>>,
    mt: MethodTypeV,
) -> Seq<(Seq<char>, Seq<MethodTypeV>)>
    decreases states.len(),
{
    if states.len() == 0 {
        gs
    } else {
        add_states(group_insert(gs, states[0], mt), states.drop_first(), mt)
    }
}

/// The method table: `state -> ordered method shapes targeting it`, grouped
/// in first-appearance order over one pass of the declarations.
pub open spec fn spec_method_table(ms: Seq<MethodV>) -> Seq<(Seq<char>, Seq<MethodTypeV>)>
    decreases ms.len(),
{
    if ms.len() == 0 {
        Seq::<(Seq<char>, Seq<MethodTypeV>)>::empty()
    } else {
        add_states(spec_method_table(ms.drop_last()), ms.last().states, ms.last().method_type)
    }
}

fn find_group_exec(gs: &Vec<(String, Vec<MethodType>)>, name: &String) -> (r: Option<usize>)
    ensures
        ({
            let gsv = gs@.map_values(|g: (String, Vec<MethodType>)| group_view(g));
            match r {
                Some(i) => i < gs@.len() && find_group(gsv, name@) == Some(i as int),
                None => find_group(gsv, name@) is None,
            }
        }),
{
    let ghost gsv = gs@.map_values(|g: (String, Vec<MethodType>)| group_view(g));
    let mut i: usize = 0;
    while i < gs.len()
        invariant
            i <= gs.len(),
            gsv == gs@.map_values(|g: (String, Vec<MethodType>)| group_view(g)),
            forall|k: int| 0 <= k < i ==> (#[trigger] gsv[k]).0 != name@,
        decreases gs.len() - i,
    {
        if str_eq(gs[i].0.as_str(), name.as_str()) {
            proof {
                lemma_find_group_skip(gsv, name@, i as int);
                assert(gsv.skip(i as int)[0] == gsv[i as int]);
            }
            return Some(i);
        }
        i += 1;
    }
    proof {
        lemma_find_group_skip(gsv, name@, gs@.len() as int);
        assert(gsv.skip(gsv.len() as int) =~= Seq::<(Seq<char>, Seq<MethodTypeV>)>::empty());
    }
    None
}

/// Builds the method table of a declaration block.
#[verifier::rlimit(60)]
pub fn build_method_table(ms: &Vec<Method>) -> (r: Vec<(String, Vec<MethodType>)>)
    ensures
        r@.map_values(|g: (String, Vec<MethodType>)| group_view(g)) == spec_method_table(
            ms@.map_values(|m: Method| m@),
        ),
{
    let ghost msv = ms@.map_values(|m: Method| m@);
    let mut groups: Vec<(String, Vec<MethodType>)> = Vec::new();
    let mut i: usize = 0;
    while i < ms.len()
        invariant
            msv == ms@.map_values(|m: Method| m@),
            i <= ms.len(),
            groups@.map_values(|g: (String, Vec<MethodType>)| group_view(g)) == spec_method_table(
                msv.take(i as int),
            ),
        decreases ms.len() - i,
    {
        let m = &ms[i];
        let ghost statesv = m@.states;
        let ghost mtv = m@.method_type;
        let ghost table0 = groups@.map_values(|g: (String, Vec<MethodType>)| group_view(g));
        proof {
            assert(statesv.skip(0) =~= statesv);
        }
        let mut j: usize = 0;
        while j < m.states.len()
            invariant
                msv == ms@.map_values(|m2: Method| m2@),
                i < ms.len(),
                m == &ms[i as int],
                statesv == m@.states,
                mtv == m@.method_type,
                j <= m.states.len(),
                m.states@.len() == statesv.len(),
                add_states(table0, statesv, mtv) == add_states(
                    groups@.map_values(|g: (String, Vec<MethodType>)| group_view(g)),
                    statesv.skip(j as int),
                    mtv,
                ),
            decreases m.states.len() - j,
        {
            let ghost gsv = groups@.map_values(|g: (String, Vec<MethodType>)| group_view(g));
            let name = &m.states[j];
            assert(statesv[j as int] == name@);
            let found = find_group_exec(&groups, name);
            match found {
                Some(idx) => {
                    let mut g = groups.remove(idx);
                    let ghost gv = group_view(g);
                    let ghost mts0 = g.1@.map_values(|t: MethodType| t@);
                    g.1.push(m.method_type.clone());
                    proof {
                        assert(g.1@.map_values(|t: MethodType| t@) =~= mts0.push(mtv));
                    }
                    groups.insert(idx, g);
                    proof {
                        assert(groups@.map_values(|g2: (String, Vec<MethodType>)| group_view(g2))
                            =~= gsv.update(idx as int, (gsv[idx as int].0, gsv[idx as int].1.push(
                            mtv,
                        ))));
                    }
                },
                None => {
                    let mut mts: Vec<MethodType> = Vec::new();
                    mts.push(m.method_type.clone());
                    let g = (name.clone(), mts);
                    proof {
                        assert(group_view(g) =~= (name@, seq![mtv]));
                    }
                    groups.push(g);
                    proof {
                        assert(groups@.map_values(|g2: (String, Vec<MethodType>)| group_view(g2))
                            =~= gsv.push((name@, seq![mtv])));
                    }
                },
            }
            proof {
                assert(statesv.skip(j as int)[0] == statesv[j as int]);
                assert(statesv.skip(j as int).drop_first() =~= statesv.skip(j + 1 as int));
                assert(group_insert(gsv, statesv[j as int], mtv) == groups@.map_values(
                    |g2: (String, Vec<MethodType>)| group_view(g2),
                ));
            }
            j += 1;
        }
        proof {
            assert(statesv.skip(statesv.len() as int) =~= Seq::<Seq<char>>::empty());
            assert(msv.take(i + 1 as int).drop_last() =~= msv.take(i as int));
            assert(msv.take(i + 1 as int).last() == msv[i as int]);
        }
        i += 1;
    }
    proof {
        assert(msv.take(msv.len() as int) =~= msv);
    }
    groups
}

/// The accessor emitted on a state's record type for one method shape; full
/// function shapes are left for the user to implement.
pub open spec fn state_method_text(mt: MethodTypeV) -> Seq<char> {
    match mt {
        MethodTypeV::Getter(name, ty) => "    pub fn "@ + name + "(&self) -> &"@ + type_text(ty)
            + " {\n        &self."@ + name + "\n    }\n\n"@,
        MethodTypeV::Setter(name, ty) => "    pub fn "@ + name + "_mut(&mut self) -> &mut "@
            + type_text(ty) + " {\n        &mut self."@ + name + "\n    }\n\n"@,
        MethodTypeV::Fn(_) => Seq::<char>::empty(),
    }
}

/// The accessors of one state group, in declaration order.
pub open spec fn state_methods_text(mts: Seq<MethodTypeV>) -> Seq<char>
    decreases mts.len(),
{
    if mts.len() == 0 {
        Seq::<char>::empty()
    } else {
        state_methods_text(mts.drop_last()) + state_method_text(mts.last())
    }
}

/// The impl block emitted on one state's record type.
pub open spec fn state_impl_text(g: (Seq<char>, Seq<MethodTypeV>)) -> Seq<char> {
    "impl "@ + g.0 + " {\n"@ + state_methods_text(g.1) + "}\n\n"@
}

/// The impl blocks of all state groups, in first-appearance order.
pub open spec fn state_impls_text(gs: Seq<(Seq<char>, Seq<MethodTypeV>)>) -> Seq<char>
    decreases gs.len(),
{
    if gs.len() == 0 {
        Seq::<char>::empty()
    } else {
        state_impls_text(gs.drop_last()) + state_impl_text(gs.last())
    }
}

/// One match arm of a getter wrapper.
pub open spec fn get_arm(machine: Seq<char>, state: Seq<char>, name: Seq<char>) -> Seq<char> {
    "            "@ + machine + "::"@ + state + "(ref v) => Some(v."@ + name + "()),\n"@
}

/// The arms of a getter wrapper, one per target state.
pub open spec fn get_arms(machine: Seq<char>, states: Seq<Seq<char>>, name: Seq<char>) -> Seq<
    char,
>
    decreases states.len(),
{
    if states.len() == 0 {
        Seq::<char>::empty()
    } else {
        get_arms(machine, states.drop_last(), name) + get_arm(machine, states.last(), name)
    }
}

/// One match arm of a setter wrapper.
pub open spec fn set_arm(machine: Seq<char>, state: Seq<char>, name: Seq<char>) -> Seq<char> {
    "            "@ + machine + "::"@ + state + "(ref mut v) => Some(v."@ + name + "_mut()),\n"@
}

/// The arms of a setter wrapper, one per target state.
pub open spec fn set_arms(machine: Seq<char>, states: Seq<Seq<char>>, name: Seq<char>) -> Seq<
    char,
>
    decreases states.len(),
{
    if states.len() == 0 {
        Seq::<char>::empty()
    } else {
        set_arms(machine, states.drop_last(), name) + set_arm(machine, states.last(), name)
    }
}

/// The names of a signature's non-receiver arguments, in order: what the
/// wrapper forwards to the per-state method.
pub open spec fn call_args(args: Seq<ArgV>) -> Seq<Seq<char>>
    decreases args.len(),
{
    if args.len() == 0 {
        Seq::<Seq<char>>::empty()
    } else {
        let rest = call_args(args.drop_last());
        match args.last() {
            ArgV::Typed(n, _) => rest.push(n),
            ArgV::Receiver => rest,
        }
    }
}

/// The declaration of one signature argument.
pub open spec fn arg_decl(a: ArgV) -> Seq<char> {
    match a {
        ArgV::Receiver => "&self"@,
        ArgV::Typed(n, t) => n + ": "@ + type_text(t),
    }
}

/// The declared argument list of a wrapper, as written in the signature.
pub open spec fn fn_inputs_text(args: Seq<ArgV>) -> Seq<char> {
    join_with(args.map_values(|a: ArgV| arg_decl(a)), ", "@)
}

/// The return type of a wrapper: as declared when a default exists, wrapped
/// in `Option` otherwise, and empty when the signature declares none.
pub open spec fn fn_output_text(ret: Option<TypeRefV>, defaulted: bool) -> Seq<char> {
    match ret {
        Option::None => Seq::<char>::empty(),
        Option::Some(t) => if defaulted {
            " -> "@ + type_text(t)
        } else {
            " -> Option<"@ + type_text(t) + ">"@
        },
    }
}

/// One match arm of a function wrapper: the call is forwarded, and wrapped in
/// `Some` only when no default was declared.
pub open spec fn fn_arm(
    machine: Seq<char>,
    state: Seq<char>,
    name: Seq<char>,
    cargs: Seq<char>,
    defaulted: bool,
) -> Seq<char> {
    if defaulted {
        "            "@ + machine + "::"@ + state + "(ref v) => v."@ + name + "("@ + cargs
            + "),\n"@
    } else {
        "            "@ + machine + "::"@ + state + "(ref v) => Some(v."@ + name + "("@ + cargs
            + ")),\n"@
    }
}

/// The arms of a function wrapper, one per target state.
pub open spec fn fn_arms(
    machine: Seq<char>,
    states: Seq<Seq<char>>,
    name: Seq<char>,
    cargs: Seq<char>,
    defaulted: bool,
) -> Seq<char>
    decreases states.len(),
{
    if states.len() == 0 {
        Seq::<char>::empty()
    } else {
        fn_arms(machine, states.drop_last(), name, cargs, defaulted) + fn_arm(
            machine,
            states.last(),
            name,
            cargs,
            defaulted,
        )
    }
}

/// The fallback arm of a function wrapper, per the declared default.
pub open spec fn fallback_line(d: DefaultValueV) -> Seq<char> {
    match d {
        DefaultValueV::Absent => "            _ => None,\n"@,
        DefaultValueV::Default => "            _ => std::default::Default::default(),\n"@,
        DefaultValueV::Val(e) => "            _ => "@ + e + ",\n"@,
    }
}

/// The wrapper emitted on the machine for one method declaration: it matches
/// the current summand, forwards to the per-state method on a target state,
/// and otherwise yields `None` or the declared default.
pub open spec fn wrapper_text(machine: Seq<char>, m: MethodV) -> Seq<char> {
    match m.method_type {
        MethodTypeV::Getter(name, ty) => "    pub fn "@ + name + "(&self) -> Option<&"@
            + type_text(ty) + "> {\n        match self {\n"@ + get_arms(machine, m.states, name)
            + "            _ => None,\n        }\n    }\n\n"@,
        MethodTypeV::Setter(name, ty) => "    pub fn "@ + name + "_mut(&mut self) -> Option<&mut "@
            + type_text(ty) + "> {\n        match self {\n"@ + set_arms(machine, m.states, name)
            + "            _ => None,\n        }\n    }\n\n"@,
        MethodTypeV::Fn(sig) => {
            let defaulted = default_declared(m.default);
            let cargs = join_with(call_args(sig.args), ", "@);
            "    pub fn "@ + sig.name + "("@ + fn_inputs_text(sig.args) + ")"@ + fn_output_text(
                sig.ret,
                defaulted,
            ) + " {\n        match self {\n"@ + fn_arms(machine, m.states, sig.name, cargs, defaulted)
                + fallback_line(m.default) + "        }\n    }\n\n"@
        },
    }
}

/// The wrappers of all method declarations, in declaration order.
pub open spec fn wrappers_text(machine: Seq<char>, ms: Seq<MethodV>) -> Seq<char>
    decreases ms.len(),
{
    if ms.len() == 0 {
        Seq::<char>::empty()
    } else {
        wrappers_text(machine, ms.drop_last()) + wrapper_text(machine, ms.last())
    }
}

/// The full generated text of a method declaration block: the per-state impl
/// blocks, then the wrapper impl on the machine.
pub open spec fn methods_code_text(v: MethodsV) -> Seq<char> {
    state_impls_text(spec_method_table(v.methods)) + "impl "@ + v.machine_name + " {\n"@
        + wrappers_text(v.machine_name, v.methods) + "}\n"@
}

#[verifier::rlimit(60)]
fn emit_state_impls(groups: &Vec<(String, Vec<MethodType>)>) -> (r: String)
    requires
        forall|i: int, j: int|
            0 <= i < groups@.len() && 0 <= j < groups@[i].1@.len()
                ==> match (#[trigger] groups@[i].1@[j])@ {
                MethodTypeV::Getter(_, t) => t.segments.len() >= 1,
                MethodTypeV::Setter(_, t) => t.segments.len() >= 1,
                MethodTypeV::Fn(_) => true,
            },
    ensures
        r@ == state_impls_text(groups@.map_values(|g: (String, Vec<MethodType>)| group_view(g))),
{
    let ghost gsv = groups@.map_values(|g: (String, Vec<MethodType>)| group_view(g));
    let mut s = String::new();
    let mut i: usize = 0;
    while i < groups.len()
        invariant
            forall|k: int, j: int|
                0 <= k < groups@.len() && 0 <= j < groups@[k].1@.len()
                    ==> match (#[trigger] groups@[k].1@[j])@ {
                    MethodTypeV::Getter(_, t) => t.segments.len() >= 1,
                    MethodTypeV::Setter(_, t) => t.segments.len() >= 1,
                    MethodTypeV::Fn(_) => true,
                },
            gsv == groups@.map_values(|g: (String, Vec<MethodType>)| group_view(g)),
            i <= groups.len(),
            s@ == state_impls_text(gsv.take(i as int)),
        decreases groups.len() - i,
    {
        let (state, mts) = &groups[i];
        s.append("impl ");
        s.append(state.as_str());
        s.append(" {\n");
        let ghost head = s@;
        let ghost mtsv = gsv[i as int].1;
        proof {
            assert(mtsv == groups@[i as int].1@.map_values(|t: MethodType| t@));
        }
        let mut j: usize = 0;
        while j < mts.len()
            invariant
                forall|k: int, j2: int|
                    0 <= k < groups@.len() && 0 <= j2 < groups@[k].1@.len()
                        ==> match (#[trigger] groups@[k].1@[j2])@ {
                        MethodTypeV::Getter(_, t) => t.segments.len() >= 1,
                        MethodTypeV::Setter(_, t) => t.segments.len() >= 1,
                        MethodTypeV::Fn(_) => true,
                    },
                i < groups.len(),
                mts == &groups@[i as int].1,
                mtsv == groups@[i as int].1@.map_values(|t: MethodType| t@),
                j <= mts.len(),
                s@ == head + state_methods_text(mtsv.take(j as int)),
            decreases mts.len() - j,
        {
            assert(mtsv[j as int] == groups@[i as int].1@[j as int]@);
            match &mts[j] {
                MethodType::Getter(name, ty) => {
                    s.append("    pub fn ");
                    s.append(name.as_str());
                    s.append("(&self) -> &");
                    let t = render_type(ty);
                    s.append(t.as_str());
                    s.append(" {\n        &self.");
                    s.append(name.as_str());
                    s.append("\n    }\n\n");
                },
                MethodType::Setter(name, ty) => {
                    s.append("    pub fn ");
                    s.append(name.as_str());
                    s.append("_mut(&mut self) -> &mut ");
                    let t = render_type(ty);
                    s.append(t.as_str());
                    s.append(" {\n        &mut self.");
                    s.append(name.as_str());
                    s.append("\n    }\n\n");
                },
                MethodType::Fn(_) => {},
            }
            proof {
                assert(mtsv.take(j + 1 as int).drop_last() =~= mtsv.take(j as int));
                assert(mtsv.take(j + 1 as int).last() == mtsv[j as int]);
                assert(s@ =~= head + state_methods_text(mtsv.take(j + 1 as int)));
            }
            j += 1;
        }
        s.append("}\n\n");
        proof {
            assert(mtsv.take(mtsv.len() as int) =~= mtsv);
            assert(gsv.take(i + 1 as int).drop_last() =~= gsv.take(i as int));
            assert(gsv.take(i + 1 as int).last() == gsv[i as int]);
            assert(state_impl_text(gsv[i as int]) == "impl "@ + gsv[i as int].0
                + " {\n"@ + state_methods_text(mtsv) + "}\n\n"@);
            assert(s@ =~= state_impls_text(gsv.take(i + 1 as int)));
        }
        i += 1;
    }
    proof {
        assert(gsv.take(gsv.len() as int) =~= gsv);
    }
    s
}

#[verifier::rlimit(60)]
fn emit_wrapper(machine: &String, m: &Method) -> (r: String)
    requires
        method_wf(m@),
    ensures
        r@ == wrapper_text(machine@, m@),
{
    let ghost mv = m@;
    let ghost machinev = machine@;
    let mut s = String::from_str("    pub fn ");
    match &m.method_type {
        MethodType::Getter(name, ty) => {
            s.append(name.as_str());
            s.append("(&self) -> Option<&");
            let t = render_type(ty);
            s.append(t.as_str());
            s.append("> {\n        match self {\n");
            let ghost head = s@;
            let ghost statesv = mv.states;
            let mut i: usize = 0;
            while i < m.states.len()
                invariant
                    statesv == m@.states,
                    m.states@.len() == statesv.len(),
                    machinev == machine@,
                    i <= m.states.len(),
                    s@ == head + get_arms(machinev, statesv.take(i as int), m@.method_type->Getter_0),
                    m@.method_type matches MethodTypeV::Getter(n, _) && n == m.method_type->Getter_0@,
                decreases m.states.len() - i,
            {
                s.append("            ");
                s.append(machine.as_str());
                s.append("::");
                s.append(m.states[i].as_str());
                s.append("(ref v) => Some(v.");
                match &m.method_type {
                    MethodType::Getter(n2, _) => {
                        s.append(n2.as_str());
                    },
                    _ => {},
                }
                s.append("()),\n");
                proof {
                    assert(statesv[i as int] == m.states@[i as int]@);
                    assert(statesv.take(i + 1 as int).drop_last() =~= statesv.take(i as int));
                    assert(statesv.take(i + 1 as int).last() == statesv[i as int]);
                    assert(s@ =~= head + get_arms(
                        machinev,
                        statesv.take(i + 1 as int),
                        m@.method_type->Getter_0,
                    ));
                }
                i += 1;
            }
            s.append("            _ => None,\n        }\n    }\n\n");
            proof {
                assert(statesv.take(statesv.len() as int) =~= statesv);
                assert(s@ =~= wrapper_text(machinev, mv));
            }
        },
        MethodType::Setter(name, ty) => {
            s.append(name.as_str());
            s.append("_mut(&mut self) -> Option<&mut ");
            let t = render_type(ty);
            s.append(t.as_str());
            s.append("> {\n        match self {\n");
            let ghost head = s@;
            let ghost statesv = mv.states;
            let mut i: usize = 0;
            while i < m.states.len()
                invariant
                    statesv == m@.states,
                    m.states@.len() == statesv.len(),
                    machinev == machine@,
                    i <= m.states.len(),
                    s@ == head + set_arms(machinev, statesv.take(i as int), m@.method_type->Setter_0),
                    m@.method_type matches MethodTypeV::Setter(n, _) && n == m.method_type->Setter_0@,
                decreases m.states.len() - i,
            {
                s.append("            ");
                s.append(machine.as_str());
                s.append("::");
                s.append(m.states[i].as_str());
                s.append("(ref mut v) => Some(v.");
                match &m.method_type {
                    MethodType::Setter(n2, _) => {
                        s.append(n2.as_str());
                    },
                    _ => {},
                }
                s.append("_mut()),\n");
                proof {
                    assert(statesv[i as int] == m.states@[i as int]@);
                    assert(statesv.take(i + 1 as int).drop_last() =~= statesv.take(i as int));
                    assert(statesv.take(i + 1 as int).last() == statesv[i as int]);
                    assert(s@ =~= head + set_arms(
                        machinev,
                        statesv.take(i + 1 as int),
                        m@.method_type->Setter_0,
                    ));
                }
                i += 1;
            }
            s.append("            _ => None,\n        }\n    }\n\n");
            proof {
                assert(statesv.take(statesv.len() as int) =~= statesv);
                assert(s@ =~= wrapper_text(machinev, mv));
            }
        },
        MethodType::Fn(sig) => {
            let ghost sigv = sig@;
            let ghost argsv = sigv.args;
            s.append(sig.name.as_str());
            s.append("(");
            let ghost head = s@;
            let ghost decls = argsv.map_values(|a: ArgV| arg_decl(a));
            let mut i: usize = 0;
            while i < sig.args.len()
                invariant
                    method_wf(mv),
                    mv == m@,
                    mv.method_type == MethodTypeV::Fn(sigv),
                    sig == &m.method_type->Fn_0,
                    sigv == sig@,
                    argsv == sigv.args,
                    sig.args@.len() == argsv.len(),
                    decls == argsv.map_values(|a: ArgV| arg_decl(a)),
                    i <= sig.args.len(),
                    s@ == head + join_with(decls.take(i as int), ", "@),
                decreases sig.args.len() - i,
            {
                if i > 0 {
                    s.append(", ");
                }
                proof {
                    assert(argsv[i as int] == sig.args@[i as int]@);
                }
                match &sig.args[i] {
                    Arg::Receiver => {
                        s.append("&self");
                    },
                    Arg::Typed(n, t) => {
                        s.append(n.as_str());
                        s.append(": ");
                        let tt = render_type(t);
                        s.append(tt.as_str());
                    },
                }
                proof {
                    assert(decls.take(i + 1 as int).drop_last() =~= decls.take(i as int));
                    assert(decls.take(i + 1 as int).last() == decls[i as int]);
                    if i == 0 {
                        assert(join_with(decls.take(1), ", "@) == decls[0]);
                    }
                    assert(s@ =~= head + join_with(decls.take(i + 1 as int), ", "@));
                }
                i += 1;
            }
            proof {
                assert(decls.take(decls.len() as int) =~= decls);
            }
            s.append(")");
            let defaulted = m.default.is_default();
            match &sig.ret {
                Some(t) => {
                    if defaulted {
                        s.append(" -> ");
                        let tt = render_type(t);
                        s.append(tt.as_str());
                    } else {
                        s.append(" -> Option<");
                        let tt = render_type(t);
                        s.append(tt.as_str());
                        s.append(">");
                    }
                },
                None => {},
            }
            s.append(" {\n        match self {\n");
            let ghost head2 = s@;

            let mut cargs = String::new();
            let mut any = false;
            let mut i: usize = 0;
            while i < sig.args.len()
                invariant
                    sig.args@.len() == argsv.len(),
                    argsv == sig@.args,
                    i <= sig.args.len(),
                    cargs@ == join_with(call_args(argsv.take(i as int)), ", "@),
                    any == (call_args(argsv.take(i as int)).len() > 0),
                decreases sig.args.len() - i,
            {
                proof {
                    assert(argsv[i as int] == sig.args@[i as int]@);
                    assert(argsv.take(i + 1 as int).drop_last() =~= argsv.take(i as int));
                    assert(argsv.take(i + 1 as int).last() == argsv[i as int]);
                }
                match &sig.args[i] {
                    Arg::Receiver => {},
                    Arg::Typed(n, _) => {
                        if any {
                            cargs.append(", ");
                        }
                        cargs.append(n.as_str());
                        proof {
                            let cc = call_args(argsv.take(i as int));
                            let cc2 = call_args(argsv.take(i + 1 as int));
                            assert(cc2 == cc.push(n@));
                            assert(cc2.drop_last() =~= cc);
                            if cc.len() == 0 {
                                assert(join_with(cc2, ", "@) == n@);
                            }
                            assert(cargs@ =~= join_with(cc2, ", "@));
                        }
                        any = true;
                    },
                }
                i += 1;
            }
            proof {
                assert(argsv.take(argsv.len() as int) =~= argsv);
            }

            let ghost cargsv = join_with(call_args(argsv), ", "@);
            let ghost statesv = mv.states;
            let ghost defaultedv = default_declared(mv.default);
            let mut i: usize = 0;
            while i < m.states.len()
                invariant
                    statesv == m@.states,
                    m.states@.len() == statesv.len(),
                    machinev == machine@,
                    mv == m@,
                    mv.method_type == MethodTypeV::Fn(sigv),
                    sig == &m.method_type->Fn_0,
                    sigv == sig@,
                    cargs@ == cargsv,
                    defaulted == defaultedv,
                    defaultedv == default_declared(mv.default),
                    i <= m.states.len(),
                    s@ == head2 + fn_arms(
                        machinev,
                        statesv.take(i as int),
                        sigv.name,
                        cargsv,
                        defaultedv,
                    ),
                decreases m.states.len() - i,
            {
                s.append("            ");
                s.append(machine.as_str());
                s.append("::");
                s.append(m.states[i].as_str());
                if defaulted {
                    s.append("(ref v) => v.");
                    s.append(sig.name.as_str());
                    s.append("(");
                    s.append(cargs.as_str());
                    s.append("),\n");
                } else {
                    s.append("(ref v) => Some(v.");
                    s.append(sig.name.as_str());
                    s.append("(");
                    s.append(cargs.as_str());
                    s.append(")),\n");
                }
                proof {
                    assert(statesv[i as int] == m.states@[i as int]@);
                    assert(statesv.take(i + 1 as int).drop_last() =~= statesv.take(i as int));
                    assert(statesv.take(i + 1 as int).last() == statesv[i as int]);
                    assert(s@ =~= head2 + fn_arms(
                        machinev,
                        statesv.take(i + 1 as int),
                        sigv.name,
                        cargsv,
                        defaultedv,
                    ));
                }
                i += 1;
            }
            proof {
                assert(statesv.take(statesv.len() as int) =~= statesv);
            }
            match &m.default {
                DefaultValue::Absent => {
                    s.append("            _ => None,\n");
                },
                DefaultValue::Default => {
                    s.append("            _ => std::default::Default::default(),\n");
                },
                DefaultValue::Val(e) => {
                    s.append("            _ => ");
                    s.append(e.as_str());
                    s.append(",\n");
                },
            }
            s.append("        }\n    }\n\n");
            proof {
                assert(s@ =~= wrapper_text(machinev, mv));
            }
        },
    }
    s
}

impl Methods {
    /// Generates the per-state accessor impl blocks and the wrapper impl on
    /// the machine; returns the machine's name and the generated text.
    #[verifier::rlimit(60)]
    pub fn generate(&self) -> (r: (String, String))
        requires
            self.wf(),
        ensures
            r.0@ == self@.machine_name,
            r.1@ == methods_code_text(self@),
    {
        let ghost msv = self@.methods;
        let groups = build_method_table(&self.methods);
        proof {
            let gsv = groups@.map_values(|g: (String, Vec<MethodType>)| group_view(g));
            lemma_method_table_wf(msv, self@);
            assert forall|i: int, j: int|
                0 <= i < groups@.len() && 0 <= j < groups@[i].1@.len()
                    implies match (#[trigger] groups@[i].1@[j])@ {
                    MethodTypeV::Getter(_, t) => t.segments.len() >= 1,
                    MethodTypeV::Setter(_, t) => t.segments.len() >= 1,
                    MethodTypeV::Fn(_) => true,
                } by {
                assert(gsv[i].1[j] == groups@[i].1@[j]@);
            }
        }
        let mut s = emit_state_impls(&groups);
        s.append("impl ");
        s.append(self.machine_name.as_str());
        s.append(" {\n");
        let ghost head = s@;
        let mut i: usize = 0;
        while i < self.methods.len()
            invariant
                self.wf(),
                msv == self@.methods,
                i <= self.methods.len(),
                s@ == head + wrappers_text(self@.machine_name, msv.take(i as int)),
            decreases self.methods.len() - i,
        {
            assert(msv[i as int] == self.methods@[i as int]@);
            assert(method_wf(self.methods@[i as int]@));
            let w = emit_wrapper(&self.machine_name, &self.methods[i]);
            s.append(w.as_str());
            proof {
                assert(msv.take(i + 1 as int).drop_last() =~= msv.take(i as int));
                assert(msv.take(i + 1 as int).last() == msv[i as int]);
                assert(s@ =~= head + wrappers_text(self@.machine_name, msv.take(i + 1 as int)));
            }
            i += 1;
        }
        s.append("}\n");
        proof {
            assert(msv.take(msv.len() as int) =~= msv);
            assert(s@ =~= methods_code_text(self@));
        }
        (self.machine_name.clone(), s)
    }
}

/// Every shape in the method table comes from a well-formed declaration, so
/// its types are well formed too.
proof fn lemma_method_table_wf(ms: Seq<MethodV>, v: MethodsV)
    requires
        forall|i: int| 0 <= i < ms.len() ==> method_wf(#[trigger] ms[i]),
    ensures
        forall|i: int, j: int|
            0 <= i < spec_method_table(ms).len() && 0 <= j < spec_method_table(ms)[i].1.len()
                ==> mt_wf(#[trigger] spec_method_table(ms)[i].1[j]),
    decreases ms.len(),
{
    if ms.len() > 0 {
        lemma_method_table_wf(ms.drop_last(), v);
        assert(method_wf(ms.last()));
        lemma_add_states_wf(spec_method_table(ms.drop_last()), ms.last().states, ms.last().method_type);
    }
}

/// Whether one method shape's types are well formed.
pub open spec fn mt_wf(mt: MethodTypeV) -> bool {
    match mt {
        MethodTypeV::Getter(_, t) => t.segments.len() >= 1,
        MethodTypeV::Setter(_, t) => t.segments.len() >= 1,
        MethodTypeV::Fn(_) => true,
    }
}

proof fn lemma_find_group_bounds(gs: Seq<(Seq<char>, Seq<MethodTypeV>)>, name: Seq<char>)
    ensures
        match find_group(gs, name) {
            Some(i) => 0 <= i < gs.len(),
            None => true,
        },
    decreases gs.len(),
{
    if gs.len() > 0 && !(gs[0].0 == name) {
        assert(gs.drop_first() =~= gs.skip(1));
        lemma_find_group_bounds(gs.skip(1), name);
    }
}

proof fn lemma_add_states_wf(
    gs: Seq<(Seq<char>, Seq<MethodTypeV>)>,
    states: Seq<Seq<char>>,
    mt: MethodTypeV,
)
    requires
        forall|i: int, j: int|
            0 <= i < gs.len() && 0 <= j < gs[i].1.len() ==> mt_wf(#[trigger] gs[i].1[j]),
        mt_wf(mt),
    ensures
        forall|i: int, j: int|
            0 <= i < add_states(gs, states, mt).len() && 0 <= j < add_states(
                gs,
                states,
                mt,
            )[i].1.len() ==> mt_wf(#[trigger] add_states(gs, states, mt)[i].1[j]),
    decreases states.len(),
{
    if states.len() > 0 {
        let gs2 = group_insert(gs, states[0], mt);
        assert forall|i: int, j: int|
            0 <= i < gs2.len() && 0 <= j < gs2[i].1.len() implies mt_wf(
            #[trigger] gs2[i].1[j],
        ) by {
            lemma_find_group_bounds(gs, states[0]);
            match find_group(gs, states[0]) {
                Some(k) => {
                    if i == k {
                        if j < gs[k].1.len() {
                            assert(gs2[i].1[j] == gs[i].1[j]);
                        } else {
                            assert(gs2[i].1[j] == mt);
                        }
                    } else {
                        assert(gs2[i] == gs[i]);
                    }
                },
                None => {
                    if i == gs2.len() - 1 {
                        assert(gs2[i].1 =~= seq![mt]);
                    } else {
                        assert(gs2[i].1[j] == gs[i].1[j]);
                    }
                },
            }
        }
        lemma_add_states_wf(gs2, states.drop_first(), mt);
        assert(add_states(gs, states, mt) == add_states(gs2, states.drop_first(), mt));
    }
}

/// Parses a method declaration block and returns the machine's name and the
/// generated text.
pub fn methods(toks: &Vec<Token>) -> (r: Result<(String, String), SyntaxError>)
    ensures
        match r {
            Ok((name, code)) => spec_parse_methods(toks@) matches Some(v) && name@
                == v.machine_name && code@ == methods_code_text(v),
            Err(e) => spec_parse_methods(toks@) is None,
        },
{
    let m = match Methods::parse(toks) {
        Ok(m) => m,
        Err(e) => {
            return Err(e);
        },
    };
    let (name, code) = m.generate();
    Ok((name, code))
}

/// Whether every state a method declaration block references is declared.
pub open spec fn methods_states_ok(states: Seq<Seq<char>>, ms: Seq<MethodV>) -> bool {
    forall|i: int, j: int|
        0 <= i < ms.len() && 0 <= j < ms[i].states.len() ==> states.contains(
            #[trigger] ms[i].states[j],
        )
}

/// Checks that every target state of the block is among the machine's
/// declared states; a violation names the unknown state.
pub fn check_methods(states: &Vec<String>, m: &Methods) -> (r: Result<(), crate::SemanticError>)
    ensures
        match r {
            Ok(()) => methods_states_ok(states.deep_view(), m@.methods),
            Err(e) => !methods_states_ok(states.deep_view(), m@.methods) && (e matches
                crate::SemanticError::UnknownState(s) && !states.deep_view().contains(s@)),
        },
{
    let ghost sv = states.deep_view();
    let ghost msv = m@.methods;
    let mut i: usize = 0;
    while i < m.methods.len()
        invariant
            sv == states.deep_view(),
            msv == m@.methods,
            i <= m.methods.len(),
            forall|k: int, j: int|
                0 <= k < i && 0 <= j < msv[k].states.len() ==> sv.contains(
                    #[trigger] msv[k].states[j],
                ),
        decreases m.methods.len() - i,
    {
        let md = &m.methods[i];
        let mut j: usize = 0;
        while j < md.states.len()
            invariant
                sv == states.deep_view(),
                msv == m@.methods,
                i < m.methods.len(),
                md == &m.methods[i as int],
                j <= md.states.len(),
                forall|k: int| 0 <= k < j ==> sv.contains(#[trigger] md@.states[k]),
            decreases md.states.len() - j,
    {
            if !crate::text::string_list_contains(states, md.states[j].as_str()) {
                proof {
                    assert(md@.states[j as int] == md.states@[j as int]@);
                    assert(msv[i as int].states[j as int] == md@.states[j as int]);
                    assert(!sv.contains(msv[i as int].states[j as int]));
                    assert(!methods_states_ok(sv, msv));
                }
                return Err(crate::SemanticError::UnknownState(md.states[j].clone()));
            }
            j += 1;
        }
        i += 1;
    }
    Ok(())
}

} // verus!
