//! Machine declarations: the states with their typed fields, their parser,
//! and the generated tagged union, per-state record types and constructors.

use vstd::prelude::*;
use vstd::string::StringExecFns;

use crate::casing::{snake_of, to_snake};
use crate::parse::{
    colon_at, fat_arrow_at, ident_at, lbrace_at, lemma_typeref_pos, parse_ident, parse_typeref,
    rbrace_at, spec_parse_typeref,
};
use crate::text::{join_with, str_eq};
use crate::tokens::Token;
use crate::transitions::{
    derive_header, lemma_transition_pos, spec_parse_transition, spec_parse_transitions_rest,
    Transition, TransitionV, Transitions, TransitionsV,
};
use crate::types::{render_type, type_text, TypeRef, TypeRefV};
use crate::{BuildError, SemanticError, SyntaxError};

verus! {

/// The mathematical value of a [`Field`].
#[verifier::ext_equal]
pub struct FieldV {
    pub vis_pub: bool,
    pub name: Seq<char>,
    pub ty: TypeRefV,
}

/// One field of a state: its declared visibility, name and type.
pub struct Field {
    pub vis_pub: bool,
    pub name: String,
    pub ty: TypeRef,
}

impl View for Field {
    type V = FieldV;

    open spec fn view(&self) -> FieldV {
        FieldV { vis_pub: self.vis_pub, name: self.name@, ty: self.ty@ }
    }
}

/// The mathematical value of a [`StateDef`].
#[verifier::ext_equal]
pub struct StateDefV {
    pub name: Seq<char>,
    pub fields: Seq<FieldV>,
}

/// One declared state: a name and an ordered, possibly empty field list.
pub struct StateDef {
    pub name: String,
    pub fields: Vec<Field>,
}

impl View for StateDef {
    type V = StateDefV;

    open spec fn view(&self) -> StateDefV {
        StateDefV { name: self.name@, fields: self.fields@.map_values(|f: Field| f@) }
    }
}

/// The mathematical value of a [`Machine`].
#[verifier::ext_equal]
pub struct MachineV {
    pub name: Seq<char>,
    pub states: Seq<StateDefV>,
    pub transitions: Seq<TransitionV>,
}

/// A machine declaration: its name, its ordered state list, and the
/// transition rules that state clauses carried inline.  The reserved `Error`
/// state is not part of the list; the emitter adds it to every generated
/// union.
pub struct Machine {
    pub name: String,
    pub states: Vec<StateDef>,
    pub transitions: Vec<Transition>,
}

impl View for Machine {
    type V = MachineV;

    open spec fn view(&self) -> MachineV {
        MachineV {
            name: self.name@,
            states: self.states@.map_values(|s: StateDef| s@),
            transitions: self.transitions@.map_values(|t: Transition| t@),
        }
    }
}

impl Machine {
    /// Every field type has a non-empty path, and every inline transition is
    /// well formed.
    pub open spec fn wf(&self) -> bool {
        &&& forall|i: int, j: int|
            0 <= i < self@.states.len() && 0 <= j < self@.states[i].fields.len() ==> (
            #[trigger] self@.states[i].fields[j]).ty.segments.len() >= 1
        &&& forall|i: int|
            0 <= i < self@.transitions.len() ==> (#[trigger] self@.transitions[i]).message.segments.len()
                >= 1 && self@.transitions[i].end.len() >= 1
    }
}

/// No declared state may collide with the reserved `Error` state.
pub open spec fn machine_states_ok(m: MachineV) -> bool {
    forall|i: int| 0 <= i < m.states.len() ==> (#[trigger] m.states[i]).name != "Error"@
}

/// One field: `name: Type`, optionally preceded by `pub`.
pub open spec fn spec_parse_field(toks: Seq<Token>, i: int) -> Option<(FieldV, int)> {
    let (vis, j): (bool, int) = if ident_at(toks, i) == Some("pub"@) {
        (true, i + 1)
    } else {
        (false, i)
    };
    match ident_at(toks, j) {
        Some(name) => if colon_at(toks, j + 1) {
            match spec_parse_typeref(toks, j + 2) {
                Some((ty, k)) => Some((FieldV { vis_pub: vis, name, ty }, k)),
                None => None,
            }
        } else {
            None
        },
        None => None,
    }
}

/// A successful field parse consumes at least one token and stays within the
/// input.
pub proof fn lemma_field_pos(toks: Seq<Token>, i: int)
    requires
        0 <= i <= toks.len(),
    ensures
        match spec_parse_field(toks, i) {
            Some(r) => i < r.1 <= toks.len(),
            None => true,
        },
{
    if ident_at(toks, i) == Some("pub"@) {
        if i + 3 <= toks.len() {
            lemma_typeref_pos(toks, i + 3);
        }
    } else {
        if i + 2 <= toks.len() {
            lemma_typeref_pos(toks, i + 2);
        }
    }
}

/// The remaining `, field` pairs of a field list; a trailing comma before the
/// closing brace is allowed.
pub open spec fn spec_parse_fields_rest(toks: Seq<Token>, i: int, acc: Seq<FieldV>) -> Option<
    (Seq<FieldV>, int),
>
    decreases toks.len() - i,
    when 0 <= i <= toks.len()
    via spec_parse_fields_rest_decreases
{
    if 0 <= i < toks.len() && toks[i] is Comma {
        if rbrace_at(toks, i + 1) {
            Some((acc, i + 1))
        } else {
            match spec_parse_field(toks, i + 1) {
                Some((f, j)) => spec_parse_fields_rest(toks, j, acc.push(f)),
                None => None,
            }
        }
    } else {
        Some((acc, i))
    }
}

#[via_fn]
proof fn spec_parse_fields_rest_decreases(toks: Seq<Token>, i: int, acc: Seq<FieldV>) {
    if 0 <= i < toks.len() && toks[i] is Comma {
        lemma_field_pos(toks, i + 1);
    }
}

/// One state clause: `Name`, `Name {}` or `Name { field, ... }`.
pub open spec fn spec_parse_variant(toks: Seq<Token>, i: int) -> Option<(StateDefV, int)> {
    match ident_at(toks, i) {
        Some(name) => if lbrace_at(toks, i + 1) {
            if rbrace_at(toks, i + 2) {
                Some((StateDefV { name, fields: Seq::empty() }, i + 3))
            } else {
                match spec_parse_field(toks, i + 2) {
                    Some((f, j)) => match spec_parse_fields_rest(toks, j, seq![f]) {
                        Some((fs, k)) => if rbrace_at(toks, k) {
                            Some((StateDefV { name, fields: fs }, k + 1))
                        } else {
                            None
                        },
                        None => None,
                    },
                    None => None,
                }
            }
        } else {
            Some((StateDefV { name, fields: Seq::empty() }, i + 1))
        },
        None => None,
    }
}

/// As [`lemma_field_pos`], for field list tails.
pub proof fn lemma_fields_rest_pos(toks: Seq<Token>, i: int, acc: Seq<FieldV>)
    requires
        0 <= i <= toks.len(),
    ensures
        match spec_parse_fields_rest(toks, i, acc) {
            Some(r) => i <= r.1 <= toks.len(),
            None => true,
        },
    decreases toks.len() - i,
{
    if 0 <= i < toks.len() && toks[i] is Comma {
        if !rbrace_at(toks, i + 1) {
            lemma_field_pos(toks, i + 1);
            match spec_parse_field(toks, i + 1) {
                Some((f, j)) => {
                    lemma_fields_rest_pos(toks, j, acc.push(f));
                },
                None => {},
            }
        }
    }
}

/// As [`lemma_field_pos`], for state clauses.
pub proof fn lemma_variant_pos(toks: Seq<Token>, i: int)
    requires
        0 <= i <= toks.len(),
    ensures
        match spec_parse_variant(toks, i) {
            Some(r) => i < r.1 <= toks.len(),
            None => true,
        },
{
    match ident_at(toks, i) {
        Some(name) => {
            if lbrace_at(toks, i + 1) && !rbrace_at(toks, i + 2) {
                lemma_field_pos(toks, i + 2);
                match spec_parse_field(toks, i + 2) {
                    Some((f, j)) => {
                        lemma_fields_rest_pos(toks, j, seq![f]);
                    },
                    None => {},
                }
            }
        },
        None => {},
    }
}

/// One full state clause: a state, optionally followed by
/// `=> { transition-entry, ... }` declaring its transitions inline.
pub open spec fn spec_parse_state_clause(toks: Seq<Token>, i: int) -> Option<
    ((StateDefV, Seq<TransitionV>), int),
> {
    match spec_parse_variant(toks, i) {
        Some((st, p)) => if fat_arrow_at(toks, p) && lbrace_at(toks, p + 1) {
            match spec_parse_transition(toks, p + 2) {
                Some((t, q)) => match spec_parse_transitions_rest(toks, q, seq![t]) {
                    Some((ts, q2)) => if rbrace_at(toks, q2) {
                        Some(((st, ts), q2 + 1))
                    } else {
                        None
                    },
                    None => None,
                },
                None => None,
            }
        } else {
            Some(((st, Seq::empty()), p))
        },
        None => None,
    }
}

/// Every position a successful sub-parse of a transition list tail returns
/// stays within the input.
pub proof fn lemma_transitions_rest_pos(toks: Seq<Token>, i: int, acc: Seq<TransitionV>)
    requires
        0 <= i <= toks.len(),
    ensures
        match spec_parse_transitions_rest(toks, i, acc) {
            Some(r) => i <= r.1 <= toks.len(),
            None => true,
        },
    decreases toks.len() - i,
{
    if 0 <= i < toks.len() && toks[i] is Comma {
        lemma_transition_pos(toks, i + 1);
        match spec_parse_transition(toks, i + 1) {
            Some((t, j)) => {
                lemma_transitions_rest_pos(toks, j, acc.push(t));
            },
            None => {},
        }
    }
}

/// As [`lemma_variant_pos`], for full state clauses.
pub proof fn lemma_state_clause_pos(toks: Seq<Token>, i: int)
    requires
        0 <= i <= toks.len(),
    ensures
        match spec_parse_state_clause(toks, i) {
            Some(r) => i < r.1 <= toks.len(),
            None => true,
        },
{
    lemma_variant_pos(toks, i);
    match spec_parse_variant(toks, i) {
        Some((st, p)) => {
            if fat_arrow_at(toks, p) && lbrace_at(toks, p + 1) {
                lemma_transition_pos(toks, p + 2);
                match spec_parse_transition(toks, p + 2) {
                    Some((t, q)) => {
                        lemma_transitions_rest_pos(toks, q, seq![t]);
                    },
                    None => {},
                }
            }
        },
        None => {},
    }
}

/// The remaining `, state-clause` pairs of a machine declaration; a trailing
/// comma before the closing brace is allowed.
pub open spec fn spec_parse_clauses_rest(
    toks: Seq<Token>,
    i: int,
    states: Seq<StateDefV>,
    trans: Seq<TransitionV>,
) -> Option<((Seq<StateDefV>, Seq<TransitionV>), int)>
    decreases toks.len() - i,
    when 0 <= i <= toks.len()
    via spec_parse_clauses_rest_decreases
{
    if 0 <= i < toks.len() && toks[i] is Comma {
        if rbrace_at(toks, i + 1) {
            Some(((states, trans), i + 1))
        } else {
            match spec_parse_state_clause(toks, i + 1) {
                Some(((st, ts), j)) => spec_parse_clauses_rest(
                    toks,
                    j,
                    states.push(st),
                    trans + ts,
                ),
                None => None,
            }
        }
    } else {
        Some(((states, trans), i))
    }
}

#[via_fn]
proof fn spec_parse_clauses_rest_decreases(
    toks: Seq<Token>,
    i: int,
    states: Seq<StateDefV>,
    trans: Seq<TransitionV>,
) {
    if 0 <= i < toks.len() && toks[i] is Comma {
        lemma_state_clause_pos(toks, i + 1);
    }
}

/// A complete machine declaration: `enum Name { state-clause, ... }`,
/// consuming the whole input.
pub open spec fn spec_parse_machine(toks: Seq<Token>) -> Option<MachineV> {
    if ident_at(toks, 0) == Some("enum"@) {
        match ident_at(toks, 1) {
            Some(name) => if lbrace_at(toks, 2) {
                if rbrace_at(toks, 3) && toks.len() == 4 {
                    Some(MachineV { name, states: Seq::empty(), transitions: Seq::empty() })
                } else {
                    match spec_parse_state_clause(toks, 3) {
                        Some(((st, ts), j)) => match spec_parse_clauses_rest(
                            toks,
                            j,
                            seq![st],
                            ts,
                        ) {
                            Some(((sts, trans), k)) => if rbrace_at(toks, k) && k + 1
                                == toks.len() {
                                Some(MachineV { name, states: sts, transitions: trans })
                            } else {
                                None
                            },
                            None => None,
                        },
                        None => None,
                    }
                }
            } else {
                None
            },
            None => None,
        }
    } else {
        None
    }
}

fn parse_field(toks: &Vec<Token>, pos: usize) -> (r: Result<(Field, usize), SyntaxError>)
    requires
        pos <= toks.len(),
    ensures
        match r {
            Ok((f, p)) => spec_parse_field(toks@, pos as int) == Some((f@, p as int)) && pos < p
                <= toks.len() && f.ty.wf(),
            Err(e) => spec_parse_field(toks@, pos as int) is None,
        },
{
    let mut vis_pub = false;
    let mut j = pos;
    if pos < toks.len() {
        match &toks[pos] {
            Token::Ident(s) => {
                if str_eq(s.as_str(), "pub") {
                    vis_pub = true;
                    j = pos + 1;
                }
            },
            _ => {},
        }
    }
    let (name, p1) = match parse_ident(toks, j) {
        Ok(x) => x,
        Err(e) => {
            return Err(e);
        },
    };
    let is_colon = p1 < toks.len() && matches!(&toks[p1], Token::Colon);
    if !is_colon {
        return Err(SyntaxError { pos: p1 });
    }
    let (ty, p2) = match parse_typeref(toks, p1 + 1) {
        Ok(x) => x,
        Err(e) => {
            return Err(e);
        },
    };
    let f = Field { vis_pub, name, ty };
    proof {
        assert(f@ =~= spec_parse_field(toks@, pos as int)->Some_0.0);
    }
    Ok((f, p2))
}

fn parse_fields_rest(toks: &Vec<Token>, pos: usize, acc: Vec<Field>) -> (r: Result<
    (Vec<Field>, usize),
    SyntaxError,
>)
    requires
        pos <= toks.len(),
        forall|i: int| 0 <= i < acc@.len() ==> (#[trigger] acc@[i]).ty.wf(),
    ensures
        match r {
            Ok((v, p)) => spec_parse_fields_rest(
                toks@,
                pos as int,
                acc@.map_values(|f: Field| f@),
            ) == Some((v@.map_values(|f: Field| f@), p as int)) && pos <= p <= toks.len() && forall|
                i: int,
            | 0 <= i < v@.len() ==> (#[trigger] v@[i]).ty.wf(),
            Err(e) => spec_parse_fields_rest(
                toks@,
                pos as int,
                acc@.map_values(|f: Field| f@),
            ) is None,
        },
    decreases toks.len() - pos,
{
    let is_comma = pos < toks.len() && matches!(&toks[pos], Token::Comma);
    if is_comma {
        let brace_next = pos + 1 < toks.len() && matches!(&toks[pos + 1], Token::RBrace);
        if brace_next {
            Ok((acc, pos + 1))
        } else {
            match parse_field(toks, pos + 1) {
                Ok((f, j)) => {
                    let ghost accv = acc@.map_values(|x: Field| x@);
                    let ghost fv = f@;
                    let mut acc2 = acc;
                    acc2.push(f);
                    proof {
                        assert(acc2@.map_values(|x: Field| x@) =~= accv.push(fv));
                    }
                    parse_fields_rest(toks, j, acc2)
                },
                Err(e) => Err(e),
            }
        }
    } else {
        Ok((acc, pos))
    }
}

fn parse_variant(toks: &Vec<Token>, pos: usize) -> (r: Result<(StateDef, usize), SyntaxError>)
    requires
        pos <= toks.len(),
    ensures
        match r {
            Ok((v, p)) => spec_parse_variant(toks@, pos as int) == Some((v@, p as int)) && pos < p
                <= toks.len() && forall|i: int|
                0 <= i < v.fields@.len() ==> (#[trigger] v.fields@[i]).ty.wf(),
            Err(e) => spec_parse_variant(toks@, pos as int) is None,
        },
{
    let (name, p1) = match parse_ident(toks, pos) {
        Ok(x) => x,
        Err(e) => {
            return Err(e);
        },
    };
    let has_brace = p1 < toks.len() && matches!(&toks[p1], Token::LBrace);
    if !has_brace {
        let v = StateDef { name, fields: Vec::new() };
        proof {
            assert(v@ =~= spec_parse_variant(toks@, pos as int)->Some_0.0);
        }
        return Ok((v, p1));
    }
    let empty_body = p1 + 1 < toks.len() && matches!(&toks[p1 + 1], Token::RBrace);
    if empty_body {
        let v = StateDef { name, fields: Vec::new() };
        proof {
            assert(v@ =~= spec_parse_variant(toks@, pos as int)->Some_0.0);
        }
        return Ok((v, p1 + 2));
    }
    let (f, p2) = match parse_field(toks, p1 + 1) {
        Ok(x) => x,
        Err(e) => {
            return Err(e);
        },
    };
    let ghost fv = f@;
    let mut acc: Vec<Field> = Vec::new();
    acc.push(f);
    proof {
        assert(acc@.map_values(|x: Field| x@) =~= seq![fv]);
    }
    let (fields, p3) = match parse_fields_rest(toks, p2, acc) {
        Ok(x) => x,
        Err(e) => {
            return Err(e);
        },
    };
    let closed = p3 < toks.len() && matches!(&toks[p3], Token::RBrace);
    if !closed {
        return Err(SyntaxError { pos: p3 });
    }
    let v = StateDef { name, fields };
    proof {
        assert(v@ =~= spec_parse_variant(toks@, pos as int)->Some_0.0);
    }
    Ok((v, p3 + 1))
}

fn parse_state_clause(toks: &Vec<Token>, pos: usize) -> (r: Result<
    ((StateDef, Vec<Transition>), usize),
    SyntaxError,
>)
    requires
        pos <= toks.len(),
    ensures
        match r {
            Ok(((st, ts), p)) => spec_parse_state_clause(toks@, pos as int) == Some(
                ((st@, ts@.map_values(|t: Transition| t@)), p as int),
            ) && pos < p <= toks.len() && (forall|i: int|
                0 <= i < st.fields@.len() ==> (#[trigger] st.fields@[i]).ty.wf()) && forall|
                i: int,
            | 0 <= i < ts@.len() ==> (#[trigger] ts@[i]).wf(),
            Err(e) => spec_parse_state_clause(toks@, pos as int) is None,
        },
{
    let (st, p1) = match parse_variant(toks, pos) {
        Ok(x) => x,
        Err(e) => {
            return Err(e);
        },
    };
    let has_arrow = p1 < toks.len() && matches!(&toks[p1], Token::FatArrow);
    let has_block = has_arrow && p1 + 1 < toks.len() && matches!(&toks[p1 + 1], Token::LBrace);
    if !has_block {
        let ts: Vec<Transition> = Vec::new();
        proof {
            assert(ts@.map_values(|t: Transition| t@) =~= Seq::<TransitionV>::empty());
        }
        return Ok(((st, ts), p1));
    }
    let (t, p2) = match Transition::parse(toks, p1 + 2) {
        Ok(x) => x,
        Err(e) => {
            return Err(e);
        },
    };
    let ghost tv = t@;
    let mut acc: Vec<Transition> = Vec::new();
    acc.push(t);
    proof {
        assert(acc@.map_values(|x: Transition| x@) =~= seq![tv]);
    }
    let (ts, p3) = match crate::transitions::parse_transitions_rest(toks, p2, acc) {
        Ok(x) => x,
        Err(e) => {
            return Err(e);
        },
    };
    let closed = p3 < toks.len() && matches!(&toks[p3], Token::RBrace);
    if !closed {
        return Err(SyntaxError { pos: p3 });
    }
    Ok(((st, ts), p3 + 1))
}

fn parse_clauses_rest(
    toks: &Vec<Token>,
    pos: usize,
    states: Vec<StateDef>,
    trans: Vec<Transition>,
) -> (r: Result<((Vec<StateDef>, Vec<Transition>), usize), SyntaxError>)
    requires
        pos <= toks.len(),
        forall|i: int, j: int|
            0 <= i < states@.len() && 0 <= j < states@[i].fields@.len() ==> (
            #[trigger] states@[i].fields@[j]).ty.wf(),
        forall|i: int| 0 <= i < trans@.len() ==> (#[trigger] trans@[i]).wf(),
    ensures
        match r {
            Ok(((sts, ts), p)) => spec_parse_clauses_rest(
                toks@,
                pos as int,
                states@.map_values(|s: StateDef| s@),
                trans@.map_values(|t: Transition| t@),
            ) == Some(
                (
                    (sts@.map_values(|s: StateDef| s@), ts@.map_values(|t: Transition| t@)),
                    p as int,
                ),
            ) && pos <= p <= toks.len() && (forall|i: int, j: int|
                0 <= i < sts@.len() && 0 <= j < sts@[i].fields@.len() ==> (
                #[trigger] sts@[i].fields@[j]).ty.wf()) && forall|i: int|
                0 <= i < ts@.len() ==> (#[trigger] ts@[i]).wf(),
            Err(e) => spec_parse_clauses_rest(
                toks@,
                pos as int,
                states@.map_values(|s: StateDef| s@),
                trans@.map_values(|t: Transition| t@),
            ) is None,
        },
    decreases toks.len() - pos,
{
    let is_comma = pos < toks.len() && matches!(&toks[pos], Token::Comma);
    if is_comma {
        let brace_next = pos + 1 < toks.len() && matches!(&toks[pos + 1], Token::RBrace);
        if brace_next {
            Ok(((states, trans), pos + 1))
        } else {
            match parse_state_clause(toks, pos + 1) {
                Ok(((st, ts), j)) => {
                    let ghost statesv = states@.map_values(|x: StateDef| x@);
                    let ghost transv = trans@.map_values(|x: Transition| x@);
                    let ghost stv = st@;
                    let ghost tsv = ts@.map_values(|x: Transition| x@);
                    let mut states2 = states;
                    states2.push(st);
                    let mut trans2 = trans;
                    let mut k: usize = 0;
                    while k < ts.len()
                        invariant
                            k <= ts.len(),
                            tsv == ts@.map_values(|x: Transition| x@),
                            forall|i: int| 0 <= i < ts@.len() ==> (#[trigger] ts@[i]).wf(),
                            forall|i: int|
                                0 <= i < trans2@.len() ==> (#[trigger] trans2@[i]).wf(),
                            trans2@.map_values(|x: Transition| x@) == transv + tsv.take(k as int),
                        decreases ts.len() - k,
                    {
                        let ghost prev = trans2@.map_values(|x: Transition| x@);
                        trans2.push(ts[k].clone());
                        proof {
                            assert(trans2@.map_values(|x: Transition| x@) =~= prev.push(
                                tsv[k as int],
                            ));
                            assert(transv + tsv.take(k + 1 as int) =~= (transv + tsv.take(
                                k as int,
                            )).push(tsv[k as int]));
                        }
                        k += 1;
                    }
                    proof {
                        assert(tsv.take(tsv.len() as int) =~= tsv);
                        assert(states2@.map_values(|x: StateDef| x@) =~= statesv.push(stv));
                    }
                    parse_clauses_rest(toks, j, states2, trans2)
                },
                Err(e) => Err(e),
            }
        }
    } else {
        Ok(((states, trans), pos))
    }
}

impl Machine {
    /// Parses a complete machine declaration, consuming the whole input.
    pub fn parse(toks: &Vec<Token>) -> (r: Result<Machine, SyntaxError>)
        ensures
            match r {
                Ok(m) => spec_parse_machine(toks@) == Some(m@) && m.wf(),
                Err(e) => spec_parse_machine(toks@) is None,
            },
    {
        let kw_ok = toks.len() > 0 && match &toks[0] {
            Token::Ident(s) => str_eq(s.as_str(), "enum"),
            _ => false,
        };
        if !kw_ok {
            return Err(SyntaxError { pos: 0 });
        }
        let (name, _) = match parse_ident(toks, 1) {
            Ok(x) => x,
            Err(e) => {
                return Err(e);
            },
        };
        let has_brace = 2 < toks.len() && matches!(&toks[2], Token::LBrace);
        if !has_brace {
            return Err(SyntaxError { pos: 2 });
        }
        let empty_body = 3 < toks.len() && matches!(&toks[3], Token::RBrace);
        if empty_body {
            if toks.len() == 4 {
                let m = Machine { name, states: Vec::new(), transitions: Vec::new() };
                proof {
                    assert(m@ =~= spec_parse_machine(toks@)->Some_0);
                }
                return Ok(m);
            } else {
                return Err(SyntaxError { pos: 4 });
            }
        }
        let ((st, ts), p1) = match parse_state_clause(toks, 3) {
            Ok(x) => x,
            Err(e) => {
                return Err(e);
            },
        };
        let ghost stv = st@;
        let mut acc: Vec<StateDef> = Vec::new();
        acc.push(st);
        proof {
            assert(acc@.map_values(|x: StateDef| x@) =~= seq![stv]);
        }
        let ((states, transitions), p2) = match parse_clauses_rest(toks, p1, acc, ts) {
            Ok(x) => x,
            Err(e) => {
                return Err(e);
            },
        };
        let closed = p2 < toks.len() && matches!(&toks[p2], Token::RBrace);
        if !closed {
            return Err(SyntaxError { pos: p2 });
        }
        if p2 + 1 != toks.len() {
            return Err(SyntaxError { pos: p2 + 1 });
        }
        let m = Machine { name, states, transitions };
        proof {
            assert(m@ =~= spec_parse_machine(toks@)->Some_0);
        }
        Ok(m)
    }

    /// The transition rules the state clauses carried inline, as a
    /// transition declaration ready for the dispatch generator and the graph
    /// renderer.
    pub fn transition_rules(&self) -> (r: Transitions)
        ensures
            r@ == (TransitionsV { machine_name: self@.name, transitions: self@.transitions }),
            self.wf() ==> r.wf(),
    {
        let ghost tv = self@.transitions;
        let mut ts: Vec<Transition> = Vec::new();
        let mut i: usize = 0;
        while i < self.transitions.len()
            invariant
                tv == self@.transitions,
                i <= self.transitions.len(),
                ts@.map_values(|t: Transition| t@) == tv.take(i as int),
            decreases self.transitions.len() - i,
        {
            let ghost prev = ts@.map_values(|t: Transition| t@);
            ts.push(self.transitions[i].clone());
            proof {
                assert(ts@.map_values(|t: Transition| t@) =~= prev.push(tv[i as int]));
                assert(tv.take(i + 1 as int) =~= tv.take(i as int).push(tv[i as int]));
            }
            i += 1;
        }
        proof {
            assert(tv.take(tv.len() as int) =~= tv);
        }
        let r = Transitions { machine_name: self.name.clone(), transitions: ts };
        proof {
            assert(r@ =~= (TransitionsV { machine_name: self@.name, transitions: self@.transitions }));
            if self.wf() {
                assert forall|k: int| 0 <= k < r.transitions@.len() implies (
                #[trigger] r.transitions@[k]).wf() by {
                    assert(r.transitions@[k]@ == tv[k]);
                }
            }
        }
        r
    }

    /// The declared state names, in order.
    pub fn state_names(&self) -> (r: Vec<String>)
        ensures
            r.deep_view() == self@.states.map_values(|s: StateDefV| s.name),
    {
        let mut r: Vec<String> = Vec::new();
        let mut i: usize = 0;
        while i < self.states.len()
            invariant
                i <= self.states.len(),
                r.deep_view() == self@.states.take(i as int).map_values(|s: StateDefV| s.name),
            decreases self.states.len() - i,
        {
            let ghost prev = r.deep_view();
            r.push(self.states[i].name.clone());
            proof {
                let f = |s: StateDefV| s.name;
                assert(r.deep_view() =~= prev.push(self@.states[i as int].name));
                assert(self@.states.take(i + 1 as int).map_values(f) =~= self@.states.take(
                    i as int,
                ).map_values(f).push(self@.states[i as int].name));
            }
            i += 1;
        }
        proof {
            assert(self@.states.take(self@.states.len() as int) =~= self@.states);
        }
        r
    }
}

/// One variant line of the generated tagged union.
pub open spec fn enum_variant_line(st: StateDefV) -> Seq<char> {
    "    "@ + st.name + "("@ + st.name + "),\n"@
}

/// The variant lines of the generated union, in declaration order.
pub open spec fn enum_variant_lines(states: Seq<StateDefV>) -> Seq<char>
    decreases states.len(),
{
    if states.len() == 0 {
        Seq::<char>::empty()
    } else {
        enum_variant_lines(states.drop_last()) + enum_variant_line(states.last())
    }
}

/// The generated tagged union: one summand per state, plus the reserved
/// `Error` summand that every machine carries.
pub open spec fn enum_text(m: MachineV) -> Seq<char> {
    derive_header() + "pub enum "@ + m.name + " {\n    Error,\n"@ + enum_variant_lines(m.states)
        + "}\n\n"@
}

/// One field line of a generated record type, visibility preserved.
pub open spec fn field_line(f: FieldV) -> Seq<char> {
    "    "@ + (if f.vis_pub {
        "pub "@
    } else {
        Seq::<char>::empty()
    }) + f.name + ": "@ + type_text(f.ty) + ",\n"@
}

/// The field lines of one record type, in declaration order.
pub open spec fn field_lines(fields: Seq<FieldV>) -> Seq<char>
    decreases fields.len(),
{
    if fields.len() == 0 {
        Seq::<char>::empty()
    } else {
        field_lines(fields.drop_last()) + field_line(fields.last())
    }
}

/// One generated per-state record type.
pub open spec fn struct_text(st: StateDefV) -> Seq<char> {
    derive_header() + "pub struct "@ + st.name + " {\n"@ + field_lines(st.fields) + "}\n\n"@
}

/// The record types of all states, in declaration order.
pub open spec fn structs_text(states: Seq<StateDefV>) -> Seq<char>
    decreases states.len(),
{
    if states.len() == 0 {
        Seq::<char>::empty()
    } else {
        structs_text(states.drop_last()) + struct_text(states.last())
    }
}

/// The parameter list of a state's constructor: `name: Type` per field.
pub open spec fn params_text(fields: Seq<FieldV>) -> Seq<char> {
    join_with(fields.map_values(|f: FieldV| f.name + ": "@ + type_text(f.ty)), ", "@)
}

/// The record literal a constructor builds.
pub open spec fn ctor_literal(st: StateDefV) -> Seq<char> {
    if st.fields.len() == 0 {
        st.name + " {}"@
    } else {
        st.name + " { "@ + join_with(st.fields.map_values(|f: FieldV| f.name), ", "@) + " }"@
    }
}

/// One generated constructor: named after the state in snake case, taking
/// the state's fields and wrapping them into the state's summand.
pub open spec fn ctor_text(machine: Seq<char>, st: StateDefV) -> Seq<char> {
    "    pub fn "@ + snake_of(st.name) + "("@ + params_text(st.fields) + ") -> "@ + machine
        + " {\n        "@ + machine + "::"@ + st.name + "("@ + ctor_literal(st) + ")\n    }\n\n"@
}

/// The constructors of all states, in declaration order.
pub open spec fn ctors_text(machine: Seq<char>, states: Seq<StateDefV>) -> Seq<char>
    decreases states.len(),
{
    if states.len() == 0 {
        Seq::<char>::empty()
    } else {
        ctors_text(machine, states.drop_last()) + ctor_text(machine, states.last())
    }
}

/// The generated impl block: per-state constructors and the no-argument
/// `error()` constructor.
pub open spec fn ctors_impl_text(m: MachineV) -> Seq<char> {
    "impl "@ + m.name + " {\n"@ + ctors_text(m.name, m.states) + "    pub fn error() -> "@
        + m.name + " {\n        "@ + m.name + "::Error\n    }\n}\n"@
}

/// The full generated text of a machine declaration.
pub open spec fn machine_code_text(m: MachineV) -> Seq<char> {
    enum_text(m) + structs_text(m.states) + ctors_impl_text(m)
}

#[verifier::rlimit(60)]
fn generate_struct(st: &StateDef) -> (r: String)
    requires
        forall|j: int| 0 <= j < st.fields@.len() ==> (#[trigger] st.fields@[j]).ty.wf(),
    ensures
        r@ == struct_text(st@),
{
    let ghost fsv = st@.fields;
    let mut s = String::from_str("#[derive(Clone, Debug, PartialEq)]\n");
    s.append("pub struct ");
    s.append(st.name.as_str());
    s.append(" {\n");
    let ghost head = s@;
    let mut j: usize = 0;
    while j < st.fields.len()
        invariant
            forall|k: int| 0 <= k < st.fields@.len() ==> (#[trigger] st.fields@[k]).ty.wf(),
            fsv == st@.fields,
            j <= st.fields.len(),
            s@ == head + field_lines(fsv.take(j as int)),
        decreases st.fields.len() - j,
    {
        let f = &st.fields[j];
        s.append("    ");
        if f.vis_pub {
            s.append("pub ");
        }
        s.append(f.name.as_str());
        s.append(": ");
        let ty = render_type(&f.ty);
        s.append(ty.as_str());
        s.append(",\n");
        proof {
            assert(fsv.take(j + 1 as int).drop_last() =~= fsv.take(j as int));
            assert(fsv.take(j + 1 as int).last() == fsv[j as int]);
            assert(s@ =~= head + field_lines(fsv.take(j + 1 as int)));
        }
        j += 1;
    }
    s.append("}\n\n");
    proof {
        assert(fsv.take(fsv.len() as int) =~= fsv);
        assert(s@ =~= struct_text(st@));
    }
    s
}

#[verifier::rlimit(60)]
fn generate_ctor(machine: &String, st: &StateDef) -> (r: String)
    requires
        forall|j: int| 0 <= j < st.fields@.len() ==> (#[trigger] st.fields@[j]).ty.wf(),
    ensures
        r@ == ctor_text(machine@, st@),
{
    let ghost fsv = st@.fields;
    let ghost params = fsv.map_values(|f: FieldV| f.name + ": "@ + type_text(f.ty));
    let mut s = String::from_str("    pub fn ");
    let snake = to_snake(st.name.as_str());
    s.append(snake.as_str());
    s.append("(");
    let ghost head = s@;
    let mut j: usize = 0;
    while j < st.fields.len()
        invariant
            forall|k: int| 0 <= k < st.fields@.len() ==> (#[trigger] st.fields@[k]).ty.wf(),
            fsv == st@.fields,
            params == fsv.map_values(|f: FieldV| f.name + ": "@ + type_text(f.ty)),
            j <= st.fields.len(),
            s@ == head + join_with(params.take(j as int), ", "@),
        decreases st.fields.len() - j,
    {
        if j > 0 {
            s.append(", ");
        }
        let f = &st.fields[j];
        s.append(f.name.as_str());
        s.append(": ");
        let ty = render_type(&f.ty);
        s.append(ty.as_str());
        proof {
            assert(params.take(j + 1 as int).drop_last() =~= params.take(j as int));
            assert(params.take(j + 1 as int).last() == params[j as int]);
            if j == 0 {
                assert(join_with(params.take(1), ", "@) == params[0]);
            }
            assert(s@ =~= head + join_with(params.take(j + 1 as int), ", "@));
        }
        j += 1;
    }
    proof {
        assert(params.take(params.len() as int) =~= params);
        assert(s@ =~= head + params_text(fsv));
    }
    s.append(") -> ");
    s.append(machine.as_str());
    s.append(" {\n        ");
    s.append(machine.as_str());
    s.append("::");
    s.append(st.name.as_str());
    s.append("(");
    s.append(st.name.as_str());
    if st.fields.len() == 0 {
        s.append(" {}");
    } else {
        s.append(" { ");
        let ghost names = fsv.map_values(|f: FieldV| f.name);
        let ghost head2 = s@;
        let mut j: usize = 0;
        while j < st.fields.len()
            invariant
                fsv == st@.fields,
                names == fsv.map_values(|f: FieldV| f.name),
                j <= st.fields.len(),
                s@ == head2 + join_with(names.take(j as int), ", "@),
            decreases st.fields.len() - j,
        {
            if j > 0 {
                s.append(", ");
            }
            s.append(st.fields[j].name.as_str());
            proof {
                assert(names.take(j + 1 as int).drop_last() =~= names.take(j as int));
                assert(names.take(j + 1 as int).last() == names[j as int]);
                if j == 0 {
                    assert(join_with(names.take(1), ", "@) == names[0]);
                }
                assert(s@ =~= head2 + join_with(names.take(j + 1 as int), ", "@));
            }
            j += 1;
        }
        proof {
            assert(names.take(names.len() as int) =~= names);
        }
        s.append(" }");
    }
    s.append(")\n    }\n\n");
    proof {
        assert(s@ =~= ctor_text(machine@, st@));
    }
    s
}

impl Machine {
    /// Generates the tagged union, one record type per state, and the
    /// constructors; returns the machine's name and the generated text.
    #[verifier::rlimit(60)]
    pub fn generate(&self) -> (r: (String, String))
        requires
            self.wf(),
        ensures
            r.0@ == self@.name,
            r.1@ == machine_code_text(self@),
    {
        let ghost stsv = self@.states;
        let mut s = String::from_str("#[derive(Clone, Debug, PartialEq)]\n");
        s.append("pub enum ");
        s.append(self.name.as_str());
        s.append(" {\n    Error,\n");
        let ghost head = s@;
        let mut i: usize = 0;
        while i < self.states.len()
            invariant
                stsv == self@.states,
                i <= self.states.len(),
                s@ == head + enum_variant_lines(stsv.take(i as int)),
            decreases self.states.len() - i,
        {
            let st = &self.states[i];
            s.append("    ");
            s.append(st.name.as_str());
            s.append("(");
            s.append(st.name.as_str());
            s.append("),\n");
            proof {
                assert(stsv.take(i + 1 as int).drop_last() =~= stsv.take(i as int));
                assert(stsv.take(i + 1 as int).last() == stsv[i as int]);
                assert(s@ =~= head + enum_variant_lines(stsv.take(i + 1 as int)));
            }
            i += 1;
        }
        s.append("}\n\n");
        proof {
            assert(stsv.take(stsv.len() as int) =~= stsv);
            assert(s@ =~= enum_text(self@));
        }
        let ghost head_structs = s@;
        let mut i: usize = 0;
        while i < self.states.len()
            invariant
                self.wf(),
                stsv == self@.states,
                i <= self.states.len(),
                s@ == head_structs + structs_text(stsv.take(i as int)),
            decreases self.states.len() - i,
        {
            proof {
                assert forall|k: int|
                    0 <= k < self.states@[i as int].fields@.len() implies (
                #[trigger] self.states@[i as int].fields@[k]).ty.wf() by {
                    assert(self@.states[i as int] == self.states@[i as int]@);
                    assert(self@.states[i as int].fields[k] == self.states@[i as int].fields@[k]@);
                }
            }
            let block = generate_struct(&self.states[i]);
            s.append(block.as_str());
            proof {
                assert(stsv.take(i + 1 as int).drop_last() =~= stsv.take(i as int));
                assert(stsv.take(i + 1 as int).last() == stsv[i as int]);
                assert(s@ =~= head_structs + structs_text(stsv.take(i + 1 as int)));
            }
            i += 1;
        }
        proof {
            assert(stsv.take(stsv.len() as int) =~= stsv);
        }
        s.append("impl ");
        s.append(self.name.as_str());
        s.append(" {\n");
        let ghost head_impl = s@;
        let mut i: usize = 0;
        while i < self.states.len()
            invariant
                self.wf(),
                stsv == self@.states,
                i <= self.states.len(),
                s@ == head_impl + ctors_text(self@.name, stsv.take(i as int)),
            decreases self.states.len() - i,
        {
            proof {
                assert forall|k: int|
                    0 <= k < self.states@[i as int].fields@.len() implies (
                #[trigger] self.states@[i as int].fields@[k]).ty.wf() by {
                    assert(self@.states[i as int] == self.states@[i as int]@);
                    assert(self@.states[i as int].fields[k] == self.states@[i as int].fields@[k]@);
                }
            }
            let ctor = generate_ctor(&self.name, &self.states[i]);
            s.append(ctor.as_str());
            proof {
                assert(stsv.take(i + 1 as int).drop_last() =~= stsv.take(i as int));
                assert(stsv.take(i + 1 as int).last() == stsv[i as int]);
                assert(s@ =~= head_impl + ctors_text(self@.name, stsv.take(i + 1 as int)));
            }
            i += 1;
        }
        proof {
            assert(stsv.take(stsv.len() as int) =~= stsv);
        }
        s.append("    pub fn error() -> ");
        s.append(self.name.as_str());
        s.append(" {\n        ");
        s.append(self.name.as_str());
        s.append("::Error\n    }\n}\n");
        proof {
            assert(s@ =~= machine_code_text(self@));
        }
        (self.name.clone(), s)
    }
}

/// Parses a machine declaration, rejects a state named after the reserved
/// `Error` summand, and returns the machine's name and the generated text.
pub fn machine(toks: &Vec<Token>) -> (r: Result<(String, String), BuildError>)
    ensures
        match r {
            Ok((name, code)) => spec_parse_machine(toks@) matches Some(m) && machine_states_ok(m)
                && name@ == m.name && code@ == machine_code_text(m),
            Err(BuildError::Syntax(_)) => spec_parse_machine(toks@) is None,
            Err(BuildError::Semantic(e)) => spec_parse_machine(toks@) matches Some(m)
                && !machine_states_ok(m) && (e matches SemanticError::ReservedState(s) && s@
                == "Error"@),
        },
{
    let m = match Machine::parse(toks) {
        Ok(m) => m,
        Err(e) => {
            return Err(BuildError::Syntax(e));
        },
    };
    let ghost stsv = m@.states;
    let mut i: usize = 0;
    while i < m.states.len()
        invariant
            spec_parse_machine(toks@) == Some(m@),
            m.wf(),
            stsv == m@.states,
            i <= m.states.len(),
            forall|k: int| 0 <= k < i ==> (#[trigger] stsv[k]).name != "Error"@,
        decreases m.states.len() - i,
    {
        if str_eq(m.states[i].name.as_str(), "Error") {
            proof {
                assert(stsv[i as int].name == "Error"@);
                assert(!machine_states_ok(m@));
            }
            return Err(
                BuildError::Semantic(SemanticError::ReservedState(m.states[i].name.clone())),
            );
        }
        i += 1;
    }
    assert(machine_states_ok(m@));
    let (name, code) = m.generate();
    Ok((name, code))
}

} // verus!
