//! The dynamic machine's own declaration language: an initial and an error
//! state, typed attribute fields, and named events, each listing
//! `pattern => state` arms.  A parsed definition instantiates a
//! [`DynamicMachine`] and drives its dispatch directly.

use vstd::prelude::*;

use crate::dynamic_machine::{arm_views, first_match, unit_step, Arm, ArmV, DynamicMachine, StateV, StateValue};
use crate::methods::{lemma_capture_pos, spec_capture};
use crate::parse::{
    colon_at, comma_at, fat_arrow_at, ident_at, lbrace_at, lbracket_at, lemma_segments_rest_pos,
    lemma_typeref_pos, lparen_at, parse_ident, parse_typeref, rbrace_at, rbracket_at, rparen_at,
    spec_parse_segments_rest, spec_parse_typeref,
};
use crate::text::{digits_val, is_digits, parse_u64, str_eq};
use crate::tokens::Token;
use crate::types::{TypeRef, TypeRefV};
use crate::SyntaxError;

verus! {

/// The mathematical value of an [`Attribute`].
#[verifier::ext_equal]
pub struct AttributeV {
    pub name: Seq<char>,
    pub ty: TypeRefV,
}

/// One attribute field declared at machine-definition time.
pub struct Attribute {
    pub name: String,
    pub ty: TypeRef,
}

impl View for Attribute {
    type V = AttributeV;

    open spec fn view(&self) -> AttributeV {
        AttributeV { name: self.name@, ty: self.ty@ }
    }
}

/// One declared event: its name and its `pattern => state` arms.
pub struct EventDef {
    pub name: String,
    pub arms: Vec<Arm>,
}

impl View for EventDef {
    type V = (Seq<char>, Seq<ArmV>);

    open spec fn view(&self) -> (Seq<char>, Seq<ArmV>) {
        (self.name@, arm_views(self.arms@))
    }
}

/// The mathematical value of a [`DynamicDef`].
#[verifier::ext_equal]
pub struct DynamicDefV {
    pub initial: StateV,
    pub error: StateV,
    pub attributes: Seq<AttributeV>,
    pub events: Seq<(Seq<char>, Seq<ArmV>)>,
}

/// A parsed dynamic machine definition.
pub struct DynamicDef {
    pub initial: StateValue,
    pub error: StateValue,
    pub attributes: Vec<Attribute>,
    pub events: Vec<EventDef>,
}

impl View for DynamicDef {
    type V = DynamicDefV;

    open spec fn view(&self) -> DynamicDefV {
        DynamicDefV {
            initial: self.initial@,
            error: self.error@,
            attributes: self.attributes@.map_values(|a: Attribute| a@),
            events: self.events@.map_values(|e: EventDef| e@),
        }
    }
}

/// The value of the decimal literal at `i`, when it fits in a machine word.
pub open spec fn spec_parse_payload(toks: Seq<Token>, i: int) -> Option<(u64, int)> {
    if 0 <= i < toks.len() {
        match toks[i] {
            Token::Literal(s) => if is_digits(s@) && digits_val(s@) <= u64::MAX {
                Some((digits_val(s@) as u64, i + 1))
            } else {
                None
            },
            _ => None,
        }
    } else {
        None
    }
}

/// The remaining `, literal` values of a payload list.
pub open spec fn spec_parse_payload_rest(toks: Seq<Token>, i: int, acc: Seq<u64>) -> Option<
    (Seq<u64>, int),
>
    decreases toks.len() - i,
    when 0 <= i <= toks.len()
{
    if comma_at(toks, i) {
        match spec_parse_payload(toks, i + 1) {
            Some((v, j)) => spec_parse_payload_rest(toks, j, acc.push(v)),
            None => None,
        }
    } else {
        Some((acc, i))
    }
}

/// A state expression: a variant path, optionally carrying a parenthesised
/// list of decimal payload values (`State::B(0)`).  Its value keeps the last
/// path segment as the variant name.
pub open spec fn spec_parse_state_expr(toks: Seq<Token>, i: int) -> Option<(StateV, int)> {
    match ident_at(toks, i) {
        Some(first) => match spec_parse_segments_rest(toks, i + 1, seq![first]) {
            Some((segs, j)) => if lparen_at(toks, j) {
                match spec_parse_payload(toks, j + 1) {
                    Some((v, k)) => match spec_parse_payload_rest(toks, k, seq![v]) {
                        Some((data, l)) => if rparen_at(toks, l) {
                            Some((StateV { name: segs.last(), data }, l + 1))
                        } else {
                            None
                        },
                        None => None,
                    },
                    None => None,
                }
            } else {
                Some((StateV { name: segs.last(), data: Seq::empty() }, j))
            },
            None => None,
        },
        None => None,
    }
}

/// A successful state-expression parse consumes at least one token.
pub proof fn lemma_state_expr_pos(toks: Seq<Token>, i: int)
    requires
        0 <= i <= toks.len(),
    ensures
        match spec_parse_state_expr(toks, i) {
            Some(r) => i < r.1 <= toks.len(),
            None => true,
        },
{
    match ident_at(toks, i) {
        Some(first) => {
            lemma_segments_rest_pos(toks, i + 1, seq![first]);
            match spec_parse_segments_rest(toks, i + 1, seq![first]) {
                Some((segs, j)) => {
                    if lparen_at(toks, j) {
                        match spec_parse_payload(toks, j + 1) {
                            Some((v, k)) => {
                                lemma_payload_rest_pos(toks, k, seq![v]);
                            },
                            None => {},
                        }
                    }
                },
                None => {},
            }
        },
        None => {},
    }
}

proof fn lemma_payload_rest_pos(toks: Seq<Token>, i: int, acc: Seq<u64>)
    requires
        0 <= i <= toks.len(),
    ensures
        match spec_parse_payload_rest(toks, i, acc) {
            Some(r) => i <= r.1 <= toks.len(),
            None => true,
        },
    decreases toks.len() - i,
{
    if comma_at(toks, i) {
        match spec_parse_payload(toks, i + 1) {
            Some((v, j)) => {
                lemma_payload_rest_pos(toks, j, acc.push(v));
            },
            None => {},
        }
    }
}

/// An arm's pattern: a variant path, optionally followed by a parenthesised
/// binder list, which only names payload fields and is not kept.  Matching
/// at dispatch time goes by the variant name alone.
pub open spec fn spec_parse_pattern(toks: Seq<Token>, i: int) -> Option<(Seq<char>, int)> {
    match ident_at(toks, i) {
        Some(first) => match spec_parse_segments_rest(toks, i + 1, seq![first]) {
            Some((segs, j)) => if lparen_at(toks, j) {
                match spec_capture(toks, j + 1, 0, Seq::empty()) {
                    Some((_, k)) => Some((segs.last(), k)),
                    None => None,
                }
            } else {
                Some((segs.last(), j))
            },
            None => None,
        },
        None => None,
    }
}

/// A successful pattern parse consumes at least one token.
pub proof fn lemma_pattern_pos(toks: Seq<Token>, i: int)
    requires
        0 <= i <= toks.len(),
    ensures
        match spec_parse_pattern(toks, i) {
            Some(r) => i < r.1 <= toks.len(),
            None => true,
        },
{
    match ident_at(toks, i) {
        Some(first) => {
            lemma_segments_rest_pos(toks, i + 1, seq![first]);
            match spec_parse_segments_rest(toks, i + 1, seq![first]) {
                Some((segs, j)) => {
                    if lparen_at(toks, j) {
                        lemma_capture_pos(toks, j + 1, 0, Seq::empty());
                    }
                },
                None => {},
            }
        },
        None => {},
    }
}

/// One event arm: `pattern => state-expression`.
pub open spec fn spec_parse_dyn_arm(toks: Seq<Token>, i: int) -> Option<(ArmV, int)> {
    match spec_parse_pattern(toks, i) {
        Some((pat, j)) => if fat_arrow_at(toks, j) {
            match spec_parse_state_expr(toks, j + 1) {
                Some((st, k)) => Some((ArmV { pattern: pat, target: st }, k)),
                None => None,
            }
        } else {
            None
        },
        None => None,
    }
}

/// A successful arm parse consumes at least one token.
pub proof fn lemma_dyn_arm_pos(toks: Seq<Token>, i: int)
    requires
        0 <= i <= toks.len(),
    ensures
        match spec_parse_dyn_arm(toks, i) {
            Some(r) => i < r.1 <= toks.len(),
            None => true,
        },
{
    lemma_pattern_pos(toks, i);
    match spec_parse_pattern(toks, i) {
        Some((pat, j)) => {
            if fat_arrow_at(toks, j) {
                lemma_state_expr_pos(toks, j + 1);
            }
        },
        None => {},
    }
}

/// The remaining `, arm` entries of an event block.
pub open spec fn spec_parse_dyn_arms_rest(toks: Seq<Token>, i: int, acc: Seq<ArmV>) -> Option<
    (Seq<ArmV>, int),
>
    decreases toks.len() - i,
    when 0 <= i <= toks.len()
    via spec_parse_dyn_arms_rest_decreases
{
    if comma_at(toks, i) {
        match spec_parse_dyn_arm(toks, i + 1) {
            Some((a, j)) => spec_parse_dyn_arms_rest(toks, j, acc.push(a)),
            None => None,
        }
    } else {
        Some((acc, i))
    }
}

#[via_fn]
proof fn spec_parse_dyn_arms_rest_decreases(toks: Seq<Token>, i: int, acc: Seq<ArmV>) {
    if comma_at(toks, i) {
        lemma_dyn_arm_pos(toks, i + 1);
    }
}

/// One event block: `event [ name ] { arm, ... }`.
pub open spec fn spec_parse_event(toks: Seq<Token>, i: int) -> Option<
    ((Seq<char>, Seq<ArmV>), int),
> {
    if ident_at(toks, i) == Some("event"@) && lbracket_at(toks, i + 1) {
        match ident_at(toks, i + 2) {
            Some(name) => if rbracket_at(toks, i + 3) && lbrace_at(toks, i + 4) {
                match spec_parse_dyn_arm(toks, i + 5) {
                    Some((a, j)) => match spec_parse_dyn_arms_rest(toks, j, seq![a]) {
                        Some((arms, k)) => if rbrace_at(toks, k) {
                            Some(((name, arms), k + 1))
                        } else {
                            None
                        },
                        None => None,
                    },
                    None => None,
                }
            } else {
                None
            },
            None => None,
        }
    } else {
        None
    }
}

/// A successful event parse consumes at least one token.
pub proof fn lemma_event_pos(toks: Seq<Token>, i: int)
    requires
        0 <= i <= toks.len(),
    ensures
        match spec_parse_event(toks, i) {
            Some(r) => i < r.1 <= toks.len(),
            None => true,
        },
{
    if ident_at(toks, i) == Some("event"@) && lbracket_at(toks, i + 1) {
        match ident_at(toks, i + 2) {
            Some(name) => {
                if rbracket_at(toks, i + 3) && lbrace_at(toks, i + 4) {
                    lemma_dyn_arm_pos(toks, i + 5);
                    match spec_parse_dyn_arm(toks, i + 5) {
                        Some((a, j)) => {
                            lemma_dyn_arms_rest_pos(toks, j, seq![a]);
                        },
                        None => {},
                    }
                }
            },
            None => {},
        }
    }
}

proof fn lemma_dyn_arms_rest_pos(toks: Seq<Token>, i: int, acc: Seq<ArmV>)
    requires
        0 <= i <= toks.len(),
    ensures
        match spec_parse_dyn_arms_rest(toks, i, acc) {
            Some(r) => i <= r.1 <= toks.len(),
            None => true,
        },
    decreases toks.len() - i,
{
    if comma_at(toks, i) {
        lemma_dyn_arm_pos(toks, i + 1);
        match spec_parse_dyn_arm(toks, i + 1) {
            Some((a, j)) => {
                lemma_dyn_arms_rest_pos(toks, j, acc.push(a));
            },
            None => {},
        }
    }
}

/// The event blocks up to the end of the input.
pub open spec fn spec_parse_events(toks: Seq<Token>, i: int, acc: Seq<(Seq<char>, Seq<ArmV>)>)
    -> Option<Seq<(Seq<char>, Seq<ArmV>)>>
    decreases toks.len() - i,
    when 0 <= i <= toks.len()
    via spec_parse_events_decreases
{
    if i == toks.len() {
        Some(acc)
    } else {
        match spec_parse_event(toks, i) {
            Some((e, j)) => spec_parse_events(toks, j, acc.push(e)),
            None => None,
        }
    }
}

#[via_fn]
proof fn spec_parse_events_decreases(toks: Seq<Token>, i: int, acc: Seq<(Seq<char>, Seq<ArmV>)>) {
    if i != toks.len() {
        lemma_event_pos(toks, i);
    }
}

/// One attribute declaration: `name : Type`.
pub open spec fn spec_parse_attr(toks: Seq<Token>, i: int) -> Option<(AttributeV, int)> {
    match ident_at(toks, i) {
        Some(name) => if colon_at(toks, i + 1) {
            match spec_parse_typeref(toks, i + 2) {
                Some((ty, j)) => Some((AttributeV { name, ty }, j)),
                None => None,
            }
        } else {
            None
        },
        None => None,
    }
}

/// The remaining `, attr` pairs of the attribute block.
pub open spec fn spec_parse_attrs_rest(toks: Seq<Token>, i: int, acc: Seq<AttributeV>) -> Option<
    (Seq<AttributeV>, int),
>
    decreases toks.len() - i,
    when 0 <= i <= toks.len()
    via spec_parse_attrs_rest_decreases
{
    if comma_at(toks, i) {
        match spec_parse_attr(toks, i + 1) {
            Some((a, j)) => spec_parse_attrs_rest(toks, j, acc.push(a)),
            None => None,
        }
    } else {
        Some((acc, i))
    }
}

#[via_fn]
proof fn spec_parse_attrs_rest_decreases(toks: Seq<Token>, i: int, acc: Seq<AttributeV>) {
    if comma_at(toks, i) {
        lemma_attr_pos(toks, i + 1);
    }
}

proof fn lemma_attr_pos(toks: Seq<Token>, i: int)
    requires
        0 <= i <= toks.len(),
    ensures
        match spec_parse_attr(toks, i) {
            Some(r) => i < r.1 <= toks.len(),
            None => true,
        },
{
    match ident_at(toks, i) {
        Some(_) => {
            if i + 2 <= toks.len() {
                lemma_typeref_pos(toks, i + 2);
            }
        },
        None => {},
    }
}

/// The attribute block: `attributes { name: Type, ... }`, possibly empty.
pub open spec fn spec_parse_attributes(toks: Seq<Token>, i: int) -> Option<
    (Seq<AttributeV>, int),
> {
    if ident_at(toks, i) == Some("attributes"@) && lbrace_at(toks, i + 1) {
        if rbrace_at(toks, i + 2) {
            Some((Seq::empty(), i + 3))
        } else {
            match spec_parse_attr(toks, i + 2) {
                Some((a, j)) => match spec_parse_attrs_rest(toks, j, seq![a]) {
                    Some((attrs, k)) => if rbrace_at(toks, k) {
                        Some((attrs, k + 1))
                    } else {
                        None
                    },
                    None => None,
                },
                None => None,
            }
        }
    } else {
        None
    }
}

/// A complete dynamic machine definition:
/// `{ initial: state, error: state } attributes { ... } event-block*`,
/// consuming the whole input.
pub open spec fn spec_parse_dynamic(toks: Seq<Token>) -> Option<DynamicDefV> {
    if lbrace_at(toks, 0) && ident_at(toks, 1) == Some("initial"@) && colon_at(toks, 2) {
        match spec_parse_state_expr(toks, 3) {
            Some((ini, p)) => if comma_at(toks, p) && ident_at(toks, p + 1) == Some("error"@)
                && colon_at(toks, p + 2) {
                match spec_parse_state_expr(toks, p + 3) {
                    Some((err, q)) => if rbrace_at(toks, q) {
                        match spec_parse_attributes(toks, q + 1) {
                            Some((attrs, n)) => if 0 <= n <= toks.len() {
                                match spec_parse_events(toks, n, Seq::empty()) {
                                    Some(events) => Some(
                                        DynamicDefV {
                                            initial: ini,
                                            error: err,
                                            attributes: attrs,
                                            events,
                                        },
                                    ),
                                    None => None,
                                }
                            } else {
                                None
                            },
                            None => None,
                        }
                    } else {
                        None
                    },
                    None => None,
                }
            } else {
                None
            },
            None => None,
        }
    } else {
        None
    }
}

fn parse_payload(toks: &Vec<Token>, pos: usize) -> (r: Result<(u64, usize), SyntaxError>)
    requires
        pos <= toks.len(),
    ensures
        match r {
            Ok((v, p)) => spec_parse_payload(toks@, pos as int) == Some((v, p as int)) && pos < p
                <= toks.len(),
            Err(e) => spec_parse_payload(toks@, pos as int) is None,
        },
{
    if pos < toks.len() {
        match &toks[pos] {
            Token::Literal(s) => match parse_u64(s.as_str()) {
                Some(v) => Ok((v, pos + 1)),
                None => Err(SyntaxError { pos }),
            },
            _ => Err(SyntaxError { pos }),
        }
    } else {
        Err(SyntaxError { pos })
    }
}

fn parse_payload_rest(toks: &Vec<Token>, pos: usize, acc: Vec<u64>) -> (r: Result<
    (Vec<u64>, usize),
    SyntaxError,
>)
    requires
        pos <= toks.len(),
    ensures
        match r {
            Ok((v, p)) => spec_parse_payload_rest(toks@, pos as int, acc@) == Some(
                (v@, p as int),
            ) && pos <= p <= toks.len(),
            Err(e) => spec_parse_payload_rest(toks@, pos as int, acc@) is None,
        },
    decreases toks.len() - pos,
{
    let is_comma = pos < toks.len() && matches!(&toks[pos], Token::Comma);
    if is_comma {
        match parse_payload(toks, pos + 1) {
            Ok((v, j)) => {
                let mut acc2 = acc;
                acc2.push(v);
                parse_payload_rest(toks, j, acc2)
            },
            Err(e) => Err(e),
        }
    } else {
        Ok((acc, pos))
    }
}

fn parse_segments_name(toks: &Vec<Token>, pos: usize) -> (r: Result<(String, usize), SyntaxError>)
    requires
        pos <= toks.len(),
    ensures
        match r {
            Ok((name, p)) => ({
                &&& ident_at(toks@, pos as int) matches Some(first)
                &&& spec_parse_segments_rest(toks@, pos + 1 as int, seq![first]) matches Some(sr)
                &&& name@ == sr.0.last()
                &&& p == sr.1
                &&& pos < p <= toks.len()
            }),
            Err(e) => ({
                ||| ident_at(toks@, pos as int) is None
                ||| (ident_at(toks@, pos as int) matches Some(first) && spec_parse_segments_rest(
                    toks@,
                    pos + 1 as int,
                    seq![first],
                ) is None)
            }),
        },
{
    let (first, p1) = match parse_ident(toks, pos) {
        Ok(x) => x,
        Err(e) => {
            return Err(e);
        },
    };
    let ghost fv = first@;
    let mut acc: Vec<String> = Vec::new();
    acc.push(first);
    proof {
        assert(acc.deep_view() =~= seq![fv]);
    }
    let (segs, p) = match crate::parse::parse_segments_rest(toks, p1, acc) {
        Ok(x) => x,
        Err(e) => {
            return Err(e);
        },
    };
    let name = segs[segs.len() - 1].clone();
    proof {
        assert(name@ == segs.deep_view().last());
    }
    Ok((name, p))
}

fn parse_state_expr(toks: &Vec<Token>, pos: usize) -> (r: Result<(StateValue, usize), SyntaxError>)
    requires
        pos <= toks.len(),
    ensures
        match r {
            Ok((st, p)) => spec_parse_state_expr(toks@, pos as int) == Some((st@, p as int))
                && pos < p <= toks.len(),
            Err(e) => spec_parse_state_expr(toks@, pos as int) is None,
        },
{
    let (name, p1) = match parse_segments_name(toks, pos) {
        Ok(x) => x,
        Err(e) => {
            return Err(e);
        },
    };
    let has_payload = p1 < toks.len() && matches!(&toks[p1], Token::LParen);
    if !has_payload {
        let st = StateValue::new(name, Vec::new());
        proof {
            assert(st@ =~= spec_parse_state_expr(toks@, pos as int)->Some_0.0);
        }
        return Ok((st, p1));
    }
    let (v, p2) = match parse_payload(toks, p1 + 1) {
        Ok(x) => x,
        Err(e) => {
            return Err(e);
        },
    };
    let mut acc: Vec<u64> = Vec::new();
    acc.push(v);
    proof {
        assert(acc@ =~= seq![v]);
    }
    let (data, p3) = match parse_payload_rest(toks, p2, acc) {
        Ok(x) => x,
        Err(e) => {
            return Err(e);
        },
    };
    let closed = p3 < toks.len() && matches!(&toks[p3], Token::RParen);
    if !closed {
        return Err(SyntaxError { pos: p3 });
    }
    let st = StateValue::new(name, data);
    proof {
        assert(st@ =~= spec_parse_state_expr(toks@, pos as int)->Some_0.0);
    }
    Ok((st, p3 + 1))
}

fn parse_pattern(toks: &Vec<Token>, pos: usize) -> (r: Result<(String, usize), SyntaxError>)
    requires
        pos <= toks.len(),
    ensures
        match r {
            Ok((name, p)) => spec_parse_pattern(toks@, pos as int) == Some((name@, p as int))
                && pos < p <= toks.len(),
            Err(e) => spec_parse_pattern(toks@, pos as int) is None,
        },
{
    let (name, p1) = match parse_segments_name(toks, pos) {
        Ok(x) => x,
        Err(e) => {
            return Err(e);
        },
    };
    let has_binders = p1 < toks.len() && matches!(&toks[p1], Token::LParen);
    if !has_binders {
        return Ok((name, p1));
    }
    match skip_parens(toks, p1 + 1) {
        Ok(p2) => Ok((name, p2)),
        Err(e) => Err(e),
    }
}

fn skip_parens(toks: &Vec<Token>, pos: usize) -> (r: Result<usize, SyntaxError>)
    requires
        pos <= toks.len(),
    ensures
        match r {
            Ok(p) => spec_capture(toks@, pos as int, 0, Seq::empty()) matches Some(c) && p == c.1
                && pos < p <= toks.len(),
            Err(e) => spec_capture(toks@, pos as int, 0, Seq::empty()) is None,
        },
{
    let ghost toksv = toks@;
    let ghost mut acc: Seq<Token> = Seq::empty();
    let mut depth: usize = 0;
    let mut i: usize = pos;
    loop
        invariant
            pos <= i <= toks.len(),
            toksv == toks@,
            depth <= i - pos,
            spec_capture(toksv, pos as int, 0, Seq::empty()) == spec_capture(
                toksv,
                i as int,
                depth as int,
                acc,
            ),
        decreases toks.len() - i,
    {
        if i >= toks.len() {
            return Err(SyntaxError { pos: i });
        }
        let is_close = matches!(&toks[i], Token::RParen);
        if is_close && depth == 0 {
            return Ok(i + 1);
        }
        let is_open = matches!(&toks[i], Token::LParen);
        if is_close {
            depth = depth - 1;
        } else if is_open {
            depth = depth + 1;
        }
        proof {
            acc = acc.push(toksv[i as int]);
        }
        i += 1;
    }
}

fn parse_dyn_arm(toks: &Vec<Token>, pos: usize) -> (r: Result<(Arm, usize), SyntaxError>)
    requires
        pos <= toks.len(),
    ensures
        match r {
            Ok((a, p)) => spec_parse_dyn_arm(toks@, pos as int) == Some((a@, p as int)) && pos < p
                <= toks.len(),
            Err(e) => spec_parse_dyn_arm(toks@, pos as int) is None,
        },
{
    let (pattern, p1) = match parse_pattern(toks, pos) {
        Ok(x) => x,
        Err(e) => {
            return Err(e);
        },
    };
    let is_fa = p1 < toks.len() && matches!(&toks[p1], Token::FatArrow);
    if !is_fa {
        return Err(SyntaxError { pos: p1 });
    }
    let (target, p2) = match parse_state_expr(toks, p1 + 1) {
        Ok(x) => x,
        Err(e) => {
            return Err(e);
        },
    };
    let a = Arm { pattern, target };
    proof {
        assert(a@ =~= spec_parse_dyn_arm(toks@, pos as int)->Some_0.0);
    }
    Ok((a, p2))
}

fn parse_dyn_arms_rest(toks: &Vec<Token>, pos: usize, acc: Vec<Arm>) -> (r: Result<
    (Vec<Arm>, usize),
    SyntaxError,
>)
    requires
        pos <= toks.len(),
    ensures
        match r {
            Ok((v, p)) => spec_parse_dyn_arms_rest(toks@, pos as int, arm_views(acc@)) == Some(
                (arm_views(v@), p as int),
            ) && pos <= p <= toks.len(),
            Err(e) => spec_parse_dyn_arms_rest(toks@, pos as int, arm_views(acc@)) is None,
        },
    decreases toks.len() - pos,
{
    let is_comma = pos < toks.len() && matches!(&toks[pos], Token::Comma);
    if is_comma {
        match parse_dyn_arm(toks, pos + 1) {
            Ok((a, j)) => {
                let ghost accv = arm_views(acc@);
                let ghost av = a@;
                let mut acc2 = acc;
                acc2.push(a);
                proof {
                    assert(arm_views(acc2@) =~= accv.push(av));
                }
                parse_dyn_arms_rest(toks, j, acc2)
            },
            Err(e) => Err(e),
        }
    } else {
        Ok((acc, pos))
    }
}

fn parse_event(toks: &Vec<Token>, pos: usize) -> (r: Result<(EventDef, usize), SyntaxError>)
    requires
        pos <= toks.len(),
    ensures
        match r {
            Ok((e, p)) => spec_parse_event(toks@, pos as int) == Some((e@, p as int)) && pos < p
                <= toks.len(),
            Err(e) => spec_parse_event(toks@, pos as int) is None,
        },
{
    let kw_ok = pos < toks.len() && match &toks[pos] {
        Token::Ident(s) => str_eq(s.as_str(), "event"),
        _ => false,
    };
    if !kw_ok {
        return Err(SyntaxError { pos });
    }
    let is_lb = pos + 1 < toks.len() && matches!(&toks[pos + 1], Token::LBracket);
    if !is_lb {
        return Err(SyntaxError { pos: pos + 1 });
    }
    let (name, _) = match parse_ident(toks, pos + 2) {
        Ok(x) => x,
        Err(e) => {
            return Err(e);
        },
    };
    let is_rb = pos + 3 < toks.len() && matches!(&toks[pos + 3], Token::RBracket);
    if !is_rb {
        return Err(SyntaxError { pos: pos + 3 });
    }
    let is_brace = pos + 4 < toks.len() && matches!(&toks[pos + 4], Token::LBrace);
    if !is_brace {
        return Err(SyntaxError { pos: pos + 4 });
    }
    let (a, p1) = match parse_dyn_arm(toks, pos + 5) {
        Ok(x) => x,
        Err(e) => {
            return Err(e);
        },
    };
    let ghost av = a@;
    let mut acc: Vec<Arm> = Vec::new();
    acc.push(a);
    proof {
        assert(arm_views(acc@) =~= seq![av]);
    }
    let (arms, p2) = match parse_dyn_arms_rest(toks, p1, acc) {
        Ok(x) => x,
        Err(e) => {
            return Err(e);
        },
    };
    let closed = p2 < toks.len() && matches!(&toks[p2], Token::RBrace);
    if !closed {
        return Err(SyntaxError { pos: p2 });
    }
    let e = EventDef { name, arms };
    proof {
        assert(e@ =~= spec_parse_event(toks@, pos as int)->Some_0.0);
    }
    Ok((e, p2 + 1))
}

fn parse_events(toks: &Vec<Token>, pos: usize, acc: Vec<EventDef>) -> (r: Result<
    Vec<EventDef>,
    SyntaxError,
>)
    requires
        pos <= toks.len(),
    ensures
        match r {
            Ok(v) => spec_parse_events(
                toks@,
                pos as int,
                acc@.map_values(|e: EventDef| e@),
            ) == Some(v@.map_values(|e: EventDef| e@)),
            Err(e) => spec_parse_events(toks@, pos as int, acc@.map_values(|e2: EventDef| e2@)) is None,
        },
    decreases toks.len() - pos,
{
    if pos == toks.len() {
        Ok(acc)
    } else {
        match parse_event(toks, pos) {
            Ok((e, j)) => {
                let ghost accv = acc@.map_values(|x: EventDef| x@);
                let ghost ev = e@;
                let mut acc2 = acc;
                acc2.push(e);
                proof {
                    assert(acc2@.map_values(|x: EventDef| x@) =~= accv.push(ev));
                }
                parse_events(toks, j, acc2)
            },
            Err(e) => Err(e),
        }
    }
}

fn parse_attr(toks: &Vec<Token>, pos: usize) -> (r: Result<(Attribute, usize), SyntaxError>)
    requires
        pos <= toks.len(),
    ensures
        match r {
            Ok((a, p)) => spec_parse_attr(toks@, pos as int) == Some((a@, p as int)) && pos < p
                <= toks.len(),
            Err(e) => spec_parse_attr(toks@, pos as int) is None,
        },
{
    let (name, p1) = match parse_ident(toks, pos) {
        Ok(x) => x,
        Err(e) => {
            return Err(e);
        },
    };
    let is_colon = p1 < toks.len() && matches!(&toks[p1], Token::Colon);
    if !is_colon {
        return Err(SyntaxError { pos: p1 });
    }
    let (ty, p2) = match parse_typeref(toks, p1 + 1) {
        Ok(x) => x,
        Err(e) => {
            return Err(e);
        },
    };
    Ok((Attribute { name, ty }, p2))
}

fn parse_attrs_rest(toks: &Vec<Token>, pos: usize, acc: Vec<Attribute>) -> (r: Result<
    (Vec<Attribute>, usize),
    SyntaxError,
>)
    requires
        pos <= toks.len(),
    ensures
        match r {
            Ok((v, p)) => spec_parse_attrs_rest(
                toks@,
                pos as int,
                acc@.map_values(|a: Attribute| a@),
            ) == Some((v@.map_values(|a: Attribute| a@), p as int)) && pos <= p <= toks.len(),
            Err(e) => spec_parse_attrs_rest(
                toks@,
                pos as int,
                acc@.map_values(|a: Attribute| a@),
            ) is None,
        },
    decreases toks.len() - pos,
{
    let is_comma = pos < toks.len() && matches!(&toks[pos], Token::Comma);
    if is_comma {
        match parse_attr(toks, pos + 1) {
            Ok((a, j)) => {
                let ghost accv = acc@.map_values(|x: Attribute| x@);
                let ghost av = a@;
                let mut acc2 = acc;
                acc2.push(a);
                proof {
                    assert(acc2@.map_values(|x: Attribute| x@) =~= accv.push(av));
                }
                parse_attrs_rest(toks, j, acc2)
            },
            Err(e) => Err(e),
        }
    } else {
        Ok((acc, pos))
    }
}

fn parse_attributes(toks: &Vec<Token>, pos: usize) -> (r: Result<
    (Vec<Attribute>, usize),
    SyntaxError,
>)
    requires
        pos <= toks.len(),
    ensures
        match r {
            Ok((v, p)) => spec_parse_attributes(toks@, pos as int) == Some(
                (v@.map_values(|a: Attribute| a@), p as int),
            ) && pos <= p <= toks.len(),
            Err(e) => spec_parse_attributes(toks@, pos as int) is None,
        },
{
    let kw_ok = pos < toks.len() && match &toks[pos] {
        Token::Ident(s) => str_eq(s.as_str(), "attributes"),
        _ => false,
    };
    if !kw_ok {
        return Err(SyntaxError { pos });
    }
    let is_brace = pos + 1 < toks.len() && matches!(&toks[pos + 1], Token::LBrace);
    if !is_brace {
        return Err(SyntaxError { pos: pos + 1 });
    }
    let empty = pos + 2 < toks.len() && matches!(&toks[pos + 2], Token::RBrace);
    if empty {
        let v: Vec<Attribute> = Vec::new();
        proof {
            assert(v@.map_values(|a: Attribute| a@) =~= Seq::<AttributeV>::empty());
        }
        return Ok((v, pos + 3));
    }
    let (a, p1) = match parse_attr(toks, pos + 2) {
        Ok(x) => x,
        Err(e) => {
            return Err(e);
        },
    };
    let ghost av = a@;
    let mut acc: Vec<Attribute> = Vec::new();
    acc.push(a);
    proof {
        assert(acc@.map_values(|x: Attribute| x@) =~= seq![av]);
    }
    let (attrs, p2) = match parse_attrs_rest(toks, p1, acc) {
        Ok(x) => x,
        Err(e) => {
            return Err(e);
        },
    };
    let closed = p2 < toks.len() && matches!(&toks[p2], Token::RBrace);
    if !closed {
        return Err(SyntaxError { pos: p2 });
    }
    Ok((attrs, p2 + 1))
}

impl DynamicDef {
    /// Parses a complete dynamic machine definition, consuming the whole
    /// input.
    pub fn parse(toks: &Vec<Token>) -> (r: Result<DynamicDef, SyntaxError>)
        ensures
            match r {
                Ok(d) => spec_parse_dynamic(toks@) == Some(d@),
                Err(e) => spec_parse_dynamic(toks@) is None,
            },
    {
        let open_ok = toks.len() > 0 && matches!(&toks[0], Token::LBrace);
        let ini_kw = open_ok && 1 < toks.len() && match &toks[1] {
            Token::Ident(s) => str_eq(s.as_str(), "initial"),
            _ => false,
        };
        let ini_colon = ini_kw && 2 < toks.len() && matches!(&toks[2], Token::Colon);
        if !ini_colon {
            return Err(SyntaxError { pos: 0 });
        }
        let (initial, p1) = match parse_state_expr(toks, 3) {
            Ok(x) => x,
            Err(e) => {
                return Err(e);
            },
        };
        let comma_ok = p1 < toks.len() && matches!(&toks[p1], Token::Comma);
        let err_kw = comma_ok && p1 + 1 < toks.len() && match &toks[p1 + 1] {
            Token::Ident(s) => str_eq(s.as_str(), "error"),
            _ => false,
        };
        let err_colon = err_kw && p1 + 2 < toks.len() && matches!(&toks[p1 + 2], Token::Colon);
        if !err_colon {
            return Err(SyntaxError { pos: p1 });
        }
        let (error, p2) = match parse_state_expr(toks, p1 + 3) {
            Ok(x) => x,
            Err(e) => {
                return Err(e);
            },
        };
        let closed = p2 < toks.len() && matches!(&toks[p2], Token::RBrace);
        if !closed {
            return Err(SyntaxError { pos: p2 });
        }
        let (attributes, p3) = match parse_attributes(toks, p2 + 1) {
            Ok(x) => x,
            Err(e) => {
                return Err(e);
            },
        };
        let acc: Vec<EventDef> = Vec::new();
        proof {
            assert(acc@.map_values(|e: EventDef| e@) =~= Seq::<(Seq<char>, Seq<ArmV>)>::empty());
        }
        let events = match parse_events(toks, p3, acc) {
            Ok(x) => x,
            Err(e) => {
                return Err(e);
            },
        };
        let d = DynamicDef { initial, error, attributes, events };
        proof {
            assert(d@ =~= spec_parse_dynamic(toks@)->Some_0);
        }
        Ok(d)
    }
}

/// The first declared event with this name, if any.
pub open spec fn find_event(events: Seq<(Seq<char>, Seq<ArmV>)>, name: Seq<char>) -> Option<
    Seq<ArmV>,
>
    decreases events.len(),
{
    if events.len() == 0 {
        None
    } else if events[0].0 == name {
        Some(events[0].1)
    } else {
        find_event(events.drop_first(), name)
    }
}

proof fn lemma_find_event_skip(events: Seq<(Seq<char>, Seq<ArmV>)>, name: Seq<char>, i: int)
    requires
        0 <= i <= events.len(),
        forall|k: int| 0 <= k < i ==> (#[trigger] events[k]).0 != name,
    ensures
        find_event(events, name) == find_event(events.skip(i), name),
    decreases i,
{
    if i > 0 {
        assert(events.drop_first() =~= events.skip(1));
        lemma_find_event_skip(events.skip(1), name, i - 1);
        assert(events.skip(1).skip(i - 1) =~= events.skip(i));
    } else {
        assert(events.skip(0) =~= events);
    }
}

impl DynamicDef {
    /// Builds the machine this definition describes, in its initial state,
    /// with the given attribute values.
    pub fn instantiate(&self, attributes: Vec<u64>) -> (m: DynamicMachine)
        ensures
            m.wf(),
            m@.initial == self@.initial,
            m@.error == self@.error,
            m@.state == self@.initial,
            m@.trace == seq![(Seq::<char>::empty(), self@.initial)],
            m@.attributes == attributes@,
    {
        DynamicMachine::new(self.initial.clone(), self.error.clone(), attributes)
    }

    /// Dispatches one declared event on a machine: the event's arms are
    /// matched against the current state exactly as [`DynamicMachine::unit_event`]
    /// does; an undeclared event name leaves the machine untouched.
    pub fn dispatch(&self, m: &mut DynamicMachine, event: &str) -> (r: Option<Option<()>>)
        requires
            old(m).wf(),
        ensures
            final(m).wf(),
            match find_event(self@.events, event@) {
                Some(arms) => ({
                    &&& final(m)@ == unit_step(old(m)@, event@, arms)
                    &&& r == Some(
                        if first_match(arms, old(m)@.state.name) is Some {
                            Some(())
                        } else {
                            None::<()>
                        },
                    )
                }),
                None => *final(m) == *old(m) && r is None,
            },
    {
        let ghost evs = self@.events;
        let mut i: usize = 0;
        while i < self.events.len()
            invariant
                old(m).wf(),
                m == old(m),
                evs == self@.events,
                i <= self.events.len(),
                forall|k: int| 0 <= k < i ==> (#[trigger] evs[k]).0 != event@,
            decreases self.events.len() - i,
        {
            if str_eq(self.events[i].name.as_str(), event) {
                proof {
                    lemma_find_event_skip(evs, event@, i as int);
                    assert(evs.skip(i as int)[0] == evs[i as int]);
                    assert(evs[i as int] == self.events@[i as int]@);
                    assert(find_event(evs, event@) == Some(arm_views(self.events@[i as int].arms@)));
                }
                let r = m.unit_event(event, &self.events[i].arms);
                return Some(r);
            }
            i += 1;
        }
        proof {
            lemma_find_event_skip(evs, event@, evs.len() as int);
            assert(evs.skip(evs.len() as int) =~= Seq::<(Seq<char>, Seq<ArmV>)>::empty());
        }
        None
    }
}

} // verus!
