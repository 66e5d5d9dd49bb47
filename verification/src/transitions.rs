//! Transition declarations: parsing, the transition table, the dot-format
//! graph export, and the generated dispatch code.

use vstd::prelude::*;
use vstd::string::StringExecFns;

use crate::casing::snake_of;
use crate::parse::{
    comma_at, fat_arrow_at, ident_at, lbracket_at, lemma_ident_rest_pos, lemma_typeref_pos,
    lparen_at, parse_ident, parse_ident_rest, parse_typeref, rbracket_at, rparen_at,
    spec_parse_ident_rest, spec_parse_typeref,
};
use crate::text::{join_with, str_eq};
use crate::tokens::Token;
use crate::types::{
    args_contain, clone_args, clone_string_vec, render_type, render_type_args, reorder_spec,
    reorder_type_arguments, type_args_text, type_last_ident, type_text, type_to_snake, TypeArg,
    TypeArgV, TypeRef, TypeRefV,
};
use crate::text::string_list_contains;
use crate::{BuildError, SemanticError, SyntaxError};

verus! {

/// The mathematical value of a [`Transition`].
#[verifier::ext_equal]
pub struct TransitionV {
    pub start: Seq<char>,
    pub message: TypeRefV,
    pub end: Seq<Seq<char>>,
}

/// One transition rule: dispatching `message` while in state `start` may
/// produce any state of the non-empty list `end`.
pub struct Transition {
    pub start: String,
    pub message: TypeRef,
    pub end: Vec<String>,
}

impl View for Transition {
    type V = TransitionV;

    open spec fn view(&self) -> TransitionV {
        TransitionV { start: self.start@, message: self.message@, end: self.end.deep_view() }
    }
}

impl Clone for Transition {
    fn clone(&self) -> (r: Transition)
        ensures
            r@ == self@,
    {
        let r = Transition {
            start: self.start.clone(),
            message: self.message.clone(),
            end: clone_string_vec(&self.end),
        };
        proof {
            assert(r@ =~= self@);
        }
        r
    }
}

impl Transition {
    /// The message path is non-empty and the end list holds at least one
    /// state.
    pub open spec fn wf(&self) -> bool {
        self@.message.segments.len() >= 1 && self@.end.len() >= 1
    }
}

/// The mathematical value of a [`Transitions`] declaration.
#[verifier::ext_equal]
pub struct TransitionsV {
    pub machine_name: Seq<char>,
    pub transitions: Seq<TransitionV>,
}

/// A full transition declaration: the machine's name and its transition
/// rules.
pub struct Transitions {
    pub machine_name: String,
    pub transitions: Vec<Transition>,
}

impl View for Transitions {
    type V = TransitionsV;

    open spec fn view(&self) -> TransitionsV {
        TransitionsV {
            machine_name: self.machine_name@,
            transitions: self.transitions@.map_values(|t: Transition| t@),
        }
    }
}

impl Transitions {
    /// Every transition is well formed.
    pub open spec fn wf(&self) -> bool {
        forall|i: int|
            0 <= i < self.transitions@.len() ==> (#[trigger] self.transitions@[i]).wf()
    }
}

/// The end of a transition arrow: a bare state name, or a bracketed
/// non-empty list of state names.
pub open spec fn spec_parse_end(toks: Seq<Token>, i: int) -> Option<(Seq<Seq<char>>, int)> {
    if 0 <= i < toks.len() {
        match toks[i] {
            Token::Ident(s) => Some((seq![s@], i + 1)),
            Token::LBracket => match ident_at(toks, i + 1) {
                Some(first) => match spec_parse_ident_rest(toks, i + 2, seq![first]) {
                    Some((ends, j)) => if rbracket_at(toks, j) {
                        Some((ends, j + 1))
                    } else {
                        None
                    },
                    None => None,
                },
                None => None,
            },
            _ => None,
        }
    } else {
        None
    }
}

/// One transition entry: `(Start, Message) => End` or
/// `(Start, Message) => [End, ...]`.
pub open spec fn spec_parse_transition(toks: Seq<Token>, i: int) -> Option<(TransitionV, int)> {
    if lparen_at(toks, i) {
        match ident_at(toks, i + 1) {
            Some(start) => if comma_at(toks, i + 2) {
                match spec_parse_typeref(toks, i + 3) {
                    Some((msg, j)) => if rparen_at(toks, j) && fat_arrow_at(toks, j + 1) {
                        match spec_parse_end(toks, j + 2) {
                            Some((end, k)) => Some(
                                (TransitionV { start, message: msg, end }, k),
                            ),
                            None => None,
                        }
                    } else {
                        None
                    },
                    None => None,
                }
            } else {
                None
            },
            None => None,
        }
    } else {
        None
    }
}

/// A successful transition parse consumes at least one token and stays
/// within the input.
pub proof fn lemma_transition_pos(toks: Seq<Token>, i: int)
    requires
        0 <= i <= toks.len(),
    ensures
        match spec_parse_transition(toks, i) {
            Some(r) => i < r.1 <= toks.len(),
            None => true,
        },
{
    if lparen_at(toks, i) {
        match ident_at(toks, i + 1) {
            Some(start) => {
                if comma_at(toks, i + 2) {
                    lemma_typeref_pos(toks, i + 3);
                    match spec_parse_typeref(toks, i + 3) {
                        Some((msg, j)) => {
                            if rparen_at(toks, j) && fat_arrow_at(toks, j + 1) {
                                if j + 2 < toks.len() && toks[j + 2] is LBracket {
                                    match ident_at(toks, j + 3) {
                                        Some(first) => {
                                            lemma_ident_rest_pos(toks, j + 4, seq![first]);
                                        },
                                        None => {},
                                    }
                                }
                            }
                        },
                        None => {},
                    }
                }
            },
            None => {},
        }
    }
}

/// The remaining `, transition` entries of a transition list.
pub open spec fn spec_parse_transitions_rest(
    toks: Seq<Token>,
    i: int,
    acc: Seq<TransitionV>,
) -> Option<(Seq<TransitionV>, int)>
    decreases toks.len() - i,
    when 0 <= i <= toks.len()
    via spec_parse_transitions_rest_decreases
{
    if comma_at(toks, i) {
        match spec_parse_transition(toks, i + 1) {
            Some((t, j)) => spec_parse_transitions_rest(toks, j, acc.push(t)),
            None => None,
        }
    } else {
        Some((acc, i))
    }
}

#[via_fn]
proof fn spec_parse_transitions_rest_decreases(toks: Seq<Token>, i: int, acc: Seq<TransitionV>) {
    if comma_at(toks, i) {
        lemma_transition_pos(toks, i + 1);
    }
}

/// A complete transition declaration:
/// `MachineName, [ transition, ... ]`, consuming the whole input.
pub open spec fn spec_parse_transitions(toks: Seq<Token>) -> Option<TransitionsV> {
    match ident_at(toks, 0) {
        Some(name) => if comma_at(toks, 1) && lbracket_at(toks, 2) {
            match spec_parse_transition(toks, 3) {
                Some((t, j)) => match spec_parse_transitions_rest(toks, j, seq![t]) {
                    Some((ts, k)) => if rbracket_at(toks, k) && k + 1 == toks.len() {
                        Some(TransitionsV { machine_name: name, transitions: ts })
                    } else {
                        None
                    },
                    None => None,
                },
                None => None,
            }
        } else {
            None
        },
        None => None,
    }
}

fn parse_end(toks: &Vec<Token>, pos: usize) -> (r: Result<(Vec<String>, usize), SyntaxError>)
    requires
        pos <= toks.len(),
    ensures
        match r {
            Ok((v, p)) => spec_parse_end(toks@, pos as int) == Some((v.deep_view(), p as int))
                && pos < p <= toks.len() && v@.len() >= 1,
            Err(e) => spec_parse_end(toks@, pos as int) is None,
        },
{
    if pos < toks.len() {
        let is_ident = matches!(&toks[pos], Token::Ident(_));
        let is_bracket = matches!(&toks[pos], Token::LBracket);
        if is_ident {
            let (name, p) = match parse_ident(toks, pos) {
                Ok(x) => x,
                Err(e) => {
                    return Err(e);
                },
            };
            let mut v: Vec<String> = Vec::new();
            v.push(name);
            proof {
                assert(v.deep_view() =~= seq![ident_at(toks@, pos as int)->Some_0]);
            }
            Ok((v, p))
        } else if is_bracket {
            let (first, p1) = match parse_ident(toks, pos + 1) {
                Ok(x) => x,
                Err(e) => {
                    return Err(e);
                },
            };
            let ghost fv = first@;
            let mut acc: Vec<String> = Vec::new();
            acc.push(first);
            proof {
                assert(acc.deep_view() =~= seq![fv]);
            }
            let (ends, p2) = match parse_ident_rest(toks, p1, acc) {
                Ok(x) => x,
                Err(e) => {
                    return Err(e);
                },
            };
            let is_rb = p2 < toks.len() && matches!(&toks[p2], Token::RBracket);
            if is_rb {
                Ok((ends, p2 + 1))
            } else {
                Err(SyntaxError { pos: p2 })
            }
        } else {
            Err(SyntaxError { pos })
        }
    } else {
        Err(SyntaxError { pos })
    }
}

impl Transition {
    /// Parses one transition entry at `pos`.
    pub fn parse(toks: &Vec<Token>, pos: usize) -> (r: Result<(Transition, usize), SyntaxError>)
        requires
            pos <= toks.len(),
        ensures
            match r {
                Ok((t, p)) => spec_parse_transition(toks@, pos as int) == Some((t@, p as int))
                    && pos < p <= toks.len() && t.wf(),
                Err(e) => spec_parse_transition(toks@, pos as int) is None,
            },
    {
        let is_lp = pos < toks.len() && matches!(&toks[pos], Token::LParen);
        if !is_lp {
            return Err(SyntaxError { pos });
        }
        let (start, p1) = match parse_ident(toks, pos + 1) {
            Ok(x) => x,
            Err(e) => {
                return Err(e);
            },
        };
        let is_comma = p1 < toks.len() && matches!(&toks[p1], Token::Comma);
        if !is_comma {
            return Err(SyntaxError { pos: p1 });
        }
        let (message, p2) = match parse_typeref(toks, p1 + 1) {
            Ok(x) => x,
            Err(e) => {
                return Err(e);
            },
        };
        let is_rp = p2 < toks.len() && matches!(&toks[p2], Token::RParen);
        if !is_rp {
            return Err(SyntaxError { pos: p2 });
        }
        let is_fa = p2 + 1 < toks.len() && matches!(&toks[p2 + 1], Token::FatArrow);
        if !is_fa {
            return Err(SyntaxError { pos: p2 + 1 });
        }
        let (end, p3) = match parse_end(toks, p2 + 2) {
            Ok(x) => x,
            Err(e) => {
                return Err(e);
            },
        };
        let t = Transition { start, message, end };
        proof {
            assert(t@ =~= spec_parse_transition(toks@, pos as int)->Some_0.0);
        }
        Ok((t, p3))
    }
}

pub(crate) fn parse_transitions_rest(toks: &Vec<Token>, pos: usize, acc: Vec<Transition>) -> (r: Result<
    (Vec<Transition>, usize),
    SyntaxError,
>)
    requires
        pos <= toks.len(),
        forall|i: int| 0 <= i < acc@.len() ==> (#[trigger] acc@[i]).wf(),
    ensures
        match r {
            Ok((v, p)) => spec_parse_transitions_rest(
                toks@,
                pos as int,
                acc@.map_values(|t: Transition| t@),
            ) == Some((v@.map_values(|t: Transition| t@), p as int)) && pos <= p <= toks.len()
                && forall|i: int| 0 <= i < v@.len() ==> (#[trigger] v@[i]).wf(),
            Err(e) => spec_parse_transitions_rest(
                toks@,
                pos as int,
                acc@.map_values(|t: Transition| t@),
            ) is None,
        },
    decreases toks.len() - pos,
{
    let is_comma = pos < toks.len() && matches!(&toks[pos], Token::Comma);
    if is_comma {
        match Transition::parse(toks, pos + 1) {
            Ok((t, j)) => {
                let ghost accv = acc@.map_values(|x: Transition| x@);
                let ghost tv = t@;
                let mut acc2 = acc;
                acc2.push(t);
                proof {
                    assert(acc2@.map_values(|x: Transition| x@) =~= accv.push(tv));
                }
                parse_transitions_rest(toks, j, acc2)
            },
            Err(e) => Err(e),
        }
    } else {
        Ok((acc, pos))
    }
}

impl Transitions {
    /// Parses a complete transition declaration, consuming the whole input.
    pub fn parse(toks: &Vec<Token>) -> (r: Result<Transitions, SyntaxError>)
        ensures
            match r {
                Ok(t) => spec_parse_transitions(toks@) == Some(t@) && t.wf(),
                Err(e) => spec_parse_transitions(toks@) is None,
            },
    {
        let (machine_name, p0) = match parse_ident(toks, 0) {
            Ok(x) => x,
            Err(e) => {
                return Err(e);
            },
        };
        let is_comma = 1 < toks.len() && matches!(&toks[1], Token::Comma);
        if !is_comma {
            return Err(SyntaxError { pos: 1 });
        }
        let is_lb = 2 < toks.len() && matches!(&toks[2], Token::LBracket);
        if !is_lb {
            return Err(SyntaxError { pos: 2 });
        }
        let (t, p1) = match Transition::parse(toks, 3) {
            Ok(x) => x,
            Err(e) => {
                return Err(e);
            },
        };
        let ghost tv = t@;
        let mut acc: Vec<Transition> = Vec::new();
        acc.push(t);
        proof {
            assert(acc@.map_values(|x: Transition| x@) =~= seq![tv]);
        }
        let (transitions, p2) = match parse_transitions_rest(toks, p1, acc) {
            Ok(x) => x,
            Err(e) => {
                return Err(e);
            },
        };
        let is_rb = p2 < toks.len() && matches!(&toks[p2], Token::RBracket);
        if !is_rb {
            return Err(SyntaxError { pos: p2 });
        }
        if p2 + 1 != toks.len() {
            return Err(SyntaxError { pos: p2 + 1 });
        }
        let r = Transitions { machine_name, transitions };
        proof {
            assert(r@ =~= spec_parse_transitions(toks@)->Some_0);
        }
        Ok(r)
    }
}

/// The mathematical value of a [`TableEntry`].
#[verifier::ext_equal]
pub struct TableEntryV {
    pub key_name: Seq<char>,
    pub arity: int,
    pub message: TypeRefV,
    pub args: Seq<TypeArgV>,
    pub arms: Seq<(Seq<char>, Seq<Seq<char>>)>,
}

/// One entry of the transition table: all transitions that share a message,
/// keyed by the message's base name and argument count, with the generic
/// arguments gathered across its occurrences and the `(start, end-list)`
/// arms in declaration order.
pub struct TableEntry {
    pub key_name: String,
    pub arity: usize,
    pub message: TypeRef,
    pub args: Vec<TypeArg>,
    pub arms: Vec<(String, Vec<String>)>,
}

impl View for TableEntry {
    type V = TableEntryV;

    open spec fn view(&self) -> TableEntryV {
        TableEntryV {
            key_name: self.key_name@,
            arity: self.arity as int,
            message: self.message@,
            args: self.args@.map_values(|a: TypeArg| a@),
            arms: self.arms@.map_values(|a: (String, Vec<String>)| (a.0@, a.1.deep_view())),
        }
    }
}

/// The index of the entry keyed by `name` and `arity`, if one exists.
pub open spec fn find_entry(es: Seq<TableEntryV>, name: Seq<char>, arity: int) -> Option<int>
    decreases es.len(),
{
    if es.len() == 0 {
        None
    } else if es[0].key_name == name && es[0].arity == arity {
        Some(0)
    } else {
        match find_entry(es.drop_first(), name, arity) {
            Some(i) => Some(i + 1),
            None => None,
        }
    }
}

proof fn lemma_find_entry_skip(es: Seq<TableEntryV>, name: Seq<char>, arity: int, i: int)
    requires
        0 <= i <= es.len(),
        forall|k: int|
            0 <= k < i ==> !((#[trigger] es[k]).key_name == name && es[k].arity == arity),
    ensures
        find_entry(es, name, arity) == match find_entry(es.skip(i), name, arity) {
            Some(j) => Some(j + i),
            None => None::<int>,
        },
    decreases i,
{
    if i > 0 {
        assert(es.drop_first() =~= es.skip(1));
        lemma_find_entry_skip(es.skip(1), name, arity, i - 1);
        assert(es.skip(1).skip(i - 1) =~= es.skip(i));
    } else {
        assert(es.skip(0) =~= es);
    }
}

/// Appends to `acc` every argument of `new`, in order, that `acc` does not
/// already hold.
pub open spec fn merge_args(acc: Seq<TypeArgV>, new: Seq<TypeArgV>) -> Seq<TypeArgV>
    decreases new.len(),
{
    if new.len() == 0 {
        acc
    } else {
        merge_args(
            if acc.contains(new[0]) {
                acc
            } else {
                acc.push(new[0])
            },
            new.drop_first(),
        )
    }
}

/// The table entry opened by the first transition of a message.
pub open spec fn new_entry(t: TransitionV) -> TableEntryV {
    TableEntryV {
        key_name: t.message.segments.last(),
        arity: t.message.args.len() as int,
        message: t.message,
        args: merge_args(Seq::empty(), t.message.args),
        arms: seq![(t.start, t.end)],
    }
}

/// A later transition of the same message: its arm is appended and its
/// generic arguments merged.
pub open spec fn merge_entry(e: TableEntryV, t: TransitionV) -> TableEntryV {
    TableEntryV { args: merge_args(e.args, t.message.args), arms: e.arms.push((t.start, t.end)), ..e }
}

/// Inserting one transition into the table: grouped with the entry of the
/// same key when there is one, opening a new entry otherwise.
pub open spec fn table_insert(es: Seq<TableEntryV>, t: TransitionV) -> Seq<TableEntryV> {
    match find_entry(es, t.message.segments.last(), t.message.args.len() as int) {
        Some(i) => es.update(i, merge_entry(es[i], t)),
        None => es.push(new_entry(t)),
    }
}

/// The transition table: one pass over the declared transitions, grouping by
/// message key in insertion order.
pub open spec fn spec_table(ts: Seq<TransitionV>) -> Seq<TableEntryV>
    decreases ts.len(),
{
    if ts.len() == 0 {
        Seq::<TableEntryV>::empty()
    } else {
        table_insert(spec_table(ts.drop_last()), ts.last())
    }
}

/// The generic arguments gathered across all transitions, in first-occurrence
/// order.
pub open spec fn spec_all_args(ts: Seq<TransitionV>) -> Seq<TypeArgV>
    decreases ts.len(),
{
    if ts.len() == 0 {
        Seq::<TypeArgV>::empty()
    } else {
        merge_args(spec_all_args(ts.drop_last()), ts.last().message.args)
    }
}

fn merge_args_exec(acc: Vec<TypeArg>, new: &Vec<TypeArg>) -> (r: Vec<TypeArg>)
    ensures
        r@.map_values(|a: TypeArg| a@) == merge_args(
            acc@.map_values(|a: TypeArg| a@),
            new@.map_values(|a: TypeArg| a@),
        ),
{
    let ghost acc0 = acc@.map_values(|a: TypeArg| a@);
    let ghost newv = new@.map_values(|a: TypeArg| a@);
    let mut r = acc;
    proof {
        assert(newv.skip(0) =~= newv);
    }
    let mut i: usize = 0;
    while i < new.len()
        invariant
            i <= new.len(),
            newv == new@.map_values(|a: TypeArg| a@),
            merge_args(acc0, newv) == merge_args(
                r@.map_values(|a: TypeArg| a@),
                newv.skip(i as int),
            ),
        decreases new.len() - i,
    {
        let ghost rv = r@.map_values(|a: TypeArg| a@);
        let present = args_contain(&r, &new[i]);
        if !present {
            r.push(new[i].clone());
        }
        proof {
            assert(newv.skip(i as int)[0] == newv[i as int]);
            assert(newv.skip(i as int).drop_first() =~= newv.skip(i + 1 as int));
            if !present {
                assert(r@.map_values(|a: TypeArg| a@) =~= rv.push(newv[i as int]));
            }
        }
        i += 1;
    }
    proof {
        assert(newv.skip(newv.len() as int) =~= Seq::<TypeArgV>::empty());
    }
    r
}

fn clone_arms(v: &Vec<(String, Vec<String>)>) -> (r: Vec<(String, Vec<String>)>)
    ensures
        r@.map_values(|a: (String, Vec<String>)| (a.0@, a.1.deep_view())) == v@.map_values(
            |a: (String, Vec<String>)| (a.0@, a.1.deep_view()),
        ),
{
    let ghost f = |a: (String, Vec<String>)| (a.0@, a.1.deep_view());
    let mut r: Vec<(String, Vec<String>)> = Vec::new();
    let mut i: usize = 0;
    while i < v.len()
        invariant
            i <= v.len(),
            f == (|a: (String, Vec<String>)| (a.0@, a.1.deep_view())),
            r@.map_values(f) == v@.take(i as int).map_values(f),
        decreases v.len() - i,
    {
        let ghost prev = r@;
        r.push((v[i].0.clone(), clone_string_vec(&v[i].1)));
        proof {
            assert(r@.map_values(f) =~= prev.map_values(f).push(f(v@[i as int])));
            assert(v@.take(i + 1 as int).map_values(f) =~= v@.take(i as int).map_values(f).push(
                f(v@[i as int]),
            ));
        }
        i += 1;
    }
    assert(v@.take(v@.len() as int) =~= v@);
    r
}

/// The transition table and the machine-wide generic argument list.
pub struct TransitionTable {
    pub entries: Vec<TableEntry>,
    pub args: Vec<TypeArg>,
}

impl TransitionTable {
    /// The view of the entry list.
    pub open spec fn entries_view(&self) -> Seq<TableEntryV> {
        self.entries@.map_values(|e: TableEntry| e@)
    }

    /// Every entry's message path is non-empty.
    pub open spec fn wf(&self) -> bool {
        forall|i: int|
            0 <= i < self.entries@.len() ==> (#[trigger] self.entries@[i])@.message.segments.len()
                >= 1
    }

    /// Builds the transition table of a declaration: one pass, grouping by
    /// message base name and argument count, in insertion order, and
    /// gathering the generic arguments of all messages.
    #[verifier::rlimit(60)]
    pub fn build(t: &Transitions) -> (r: TransitionTable)
        requires
            t.wf(),
        ensures
            r.entries_view() == spec_table(t@.transitions),
            r.args@.map_values(|a: TypeArg| a@) == spec_all_args(t@.transitions),
            r.wf(),
    {
        let ghost tsv = t@.transitions;
        let mut entries: Vec<TableEntry> = Vec::new();
        let mut args: Vec<TypeArg> = Vec::new();
        let mut i: usize = 0;
        while i < t.transitions.len()
            invariant
                t.wf(),
                tsv == t@.transitions,
                i <= t.transitions.len(),
                entries@.map_values(|e: TableEntry| e@) == spec_table(tsv.take(i as int)),
                args@.map_values(|a: TypeArg| a@) == spec_all_args(tsv.take(i as int)),
                forall|k: int|
                    0 <= k < entries@.len() ==> (
                    #[trigger] entries@[k])@.message.segments.len() >= 1,
            decreases t.transitions.len() - i,
        {
            let tr = &t.transitions[i];
            assert(tr.wf());
            let ghost esv = entries@.map_values(|e: TableEntry| e@);
            let ghost argsv = args@.map_values(|a: TypeArg| a@);

            args = merge_args_exec(args, &tr.message.args);

            let key = type_last_ident(&tr.message);
            let arity = tr.message.args.len();
            let found = Self::find(&entries, key, arity);
            match found {
                Some(idx) => {
                    let mut e = entries.remove(idx);
                    let ghost ev = e@;
                    let mut arms = e.arms;
                    let ghost armsv0 = arms@.map_values(
                        |a: (String, Vec<String>)| (a.0@, a.1.deep_view()),
                    );
                    arms.push((tr.start.clone(), clone_string_vec(&tr.end)));
                    proof {
                        assert(arms@.map_values(|a: (String, Vec<String>)| (a.0@, a.1.deep_view()))
                            =~= armsv0.push((tr@.start, tr@.end)));
                    }
                    let merged_args = merge_args_exec(e.args, &tr.message.args);
                    let e2 = TableEntry {
                        key_name: e.key_name,
                        arity: e.arity,
                        message: e.message,
                        args: merged_args,
                        arms,
                    };
                    proof {
                        assert(e2@ =~= merge_entry(ev, tr@));
                    }
                    entries.insert(idx, e2);
                    proof {
                        assert(entries@.map_values(|e: TableEntry| e@) =~= esv.update(
                            idx as int,
                            merge_entry(ev, tr@),
                        ));
                        assert(table_insert(esv, tr@) == esv.update(
                            idx as int,
                            merge_entry(esv[idx as int], tr@),
                        ));
                    }
                },
                None => {
                    let empty_args: Vec<TypeArg> = Vec::new();
                    proof {
                        assert(empty_args@.map_values(|a: TypeArg| a@)
                            =~= Seq::<TypeArgV>::empty());
                    }
                    let dedup_args = merge_args_exec(empty_args, &tr.message.args);
                    let mut arms: Vec<(String, Vec<String>)> = Vec::new();
                    arms.push((tr.start.clone(), clone_string_vec(&tr.end)));
                    let e = TableEntry {
                        key_name: key.clone(),
                        arity,
                        message: tr.message.clone(),
                        args: dedup_args,
                        arms,
                    };
                    proof {
                        assert(e@.arms =~= seq![(tr@.start, tr@.end)]);
                        assert(e@ =~= new_entry(tr@));
                    }
                    entries.push(e);
                    proof {
                        assert(entries@.map_values(|e: TableEntry| e@) =~= esv.push(
                            new_entry(tr@),
                        ));
                    }
                },
            }
            proof {
                assert(tsv.take(i + 1 as int).drop_last() =~= tsv.take(i as int));
                assert(tsv.take(i + 1 as int).last() == tsv[i as int]);
            }
            i += 1;
        }
        proof {
            assert(tsv.take(tsv.len() as int) =~= tsv);
        }
        TransitionTable { entries, args }
    }

    fn find(entries: &Vec<TableEntry>, name: &String, arity: usize) -> (r: Option<usize>)
        ensures
            ({
                let esv = entries@.map_values(|e: TableEntry| e@);
                match r {
                    Some(i) => i < entries@.len() && find_entry(esv, name@, arity as int) == Some(
                        i as int,
                    ),
                    None => find_entry(esv, name@, arity as int) is None,
                }
            }),
    {
        let ghost esv = entries@.map_values(|e: TableEntry| e@);
        let mut i: usize = 0;
        while i < entries.len()
            invariant
                i <= entries.len(),
                esv == entries@.map_values(|e: TableEntry| e@),
                forall|k: int|
                    0 <= k < i ==> !((#[trigger] esv[k]).key_name == name@ && esv[k].arity
                        == arity as int),
            decreases entries.len() - i,
        {
            let same_name = str_eq(entries[i].key_name.as_str(), name.as_str());
            if same_name && entries[i].arity == arity {
                proof {
                    lemma_find_entry_skip(esv, name@, arity as int, i as int);
                    assert(esv.skip(i as int)[0] == esv[i as int]);
                }
                return Some(i);
            }
            i += 1;
        }
        proof {
            lemma_find_entry_skip(esv, name@, arity as int, entries@.len() as int);
            assert(esv.skip(esv.len() as int) =~= Seq::<TableEntryV>::empty());
        }
        None
    }
}

/// The edges one transition contributes to the graph: one per end state.
pub open spec fn edges_of_one(t: TransitionV) -> Seq<(Seq<char>, TypeRefV, Seq<char>)> {
    t.end.map_values(|e: Seq<char>| (t.start, t.message, e))
}

/// All `(start, message, end)` edges of a transition list, flattened in
/// declaration order, without deduplication.
pub open spec fn edges_of(ts: Seq<TransitionV>) -> Seq<(Seq<char>, TypeRefV, Seq<char>)>
    decreases ts.len(),
{
    if ts.len() == 0 {
        Seq::<(Seq<char>, TypeRefV, Seq<char>)>::empty()
    } else {
        edges_of(ts.drop_last()) + edges_of_one(ts.last())
    }
}

/// The number of edges a transition list contributes.
pub open spec fn edge_count(ts: Seq<TransitionV>) -> int
    decreases ts.len(),
{
    if ts.len() == 0 {
        0
    } else {
        edge_count(ts.drop_last()) + ts.last().end.len()
    }
}

/// The flattened edge list is as long as the end lists together.
pub proof fn lemma_edges_len(ts: Seq<TransitionV>)
    ensures
        edges_of(ts).len() == edge_count(ts),
        edge_count(ts) >= 0,
    decreases ts.len(),
{
    if ts.len() > 0 {
        lemma_edges_len(ts.drop_last());
    }
}

/// Graph fidelity: the flattened edge list holds exactly one entry per
/// `(start, message, end)` triple of the transition list — transition `i`
/// owns the block of positions starting at `edge_count(ts.take(i))`, with
/// its `j`-th end state at offset `j`.
pub proof fn lemma_graph_fidelity(ts: Seq<TransitionV>, i: int)
    requires
        0 <= i < ts.len(),
    ensures
        edges_of(ts).len() == edge_count(ts),
        edge_count(ts.take(i)) + ts[i].end.len() <= edges_of(ts).len(),
        forall|j: int|
            0 <= j < ts[i].end.len() ==> edges_of(ts)[edge_count(ts.take(i)) + j] == (
            ts[i].start,
            ts[i].message,
            ts[i].end[j],
            ),
    decreases ts.len(),
{
    lemma_edges_len(ts);
    lemma_edges_len(ts.drop_last());
    if i == ts.len() - 1 {
        assert(ts.take(i) =~= ts.drop_last());
        assert(edges_of(ts) == edges_of(ts.drop_last()) + edges_of_one(ts.last()));
        assert forall|j: int| 0 <= j < ts[i].end.len() implies edges_of(ts)[edge_count(
            ts.take(i),
        ) + j] == (ts[i].start, ts[i].message, ts[i].end[j]) by {
            assert(edges_of(ts)[edges_of(ts.drop_last()).len() + j] == edges_of_one(ts.last())[j]);
        }
    } else {
        lemma_graph_fidelity(ts.drop_last(), i);
        assert(ts.take(i) =~= ts.drop_last().take(i));
        assert(ts[i] == ts.drop_last()[i]);
        lemma_edges_len(ts.take(i));
        assert forall|j: int| 0 <= j < ts[i].end.len() implies edges_of(ts)[edge_count(
            ts.take(i),
        ) + j] == (ts[i].start, ts[i].message, ts[i].end[j]) by {
            assert(edges_of(ts.drop_last())[edge_count(ts.take(i)) + j] == (
                ts[i].start,
                ts[i].message,
                ts[i].end[j],
            ));
            assert(edges_of(ts)[edge_count(ts.take(i)) + j] == edges_of(ts.drop_last())[
                edge_count(ts.take(i)) + j]);
        }
    }
}

/// The dot line of one edge.
pub open spec fn edge_line(e: (Seq<char>, TypeRefV, Seq<char>)) -> Seq<char> {
    "    "@ + e.0 + " -> "@ + e.2 + " [ label = \""@ + type_text(e.1) + "\" ];\n"@
}

/// The dot lines of an edge list, in order.
pub open spec fn edge_lines(es: Seq<(Seq<char>, TypeRefV, Seq<char>)>) -> Seq<char>
    decreases es.len(),
{
    if es.len() == 0 {
        Seq::<char>::empty()
    } else {
        edge_lines(es.drop_last()) + edge_line(es.last())
    }
}

/// The dot-format rendering of a transition declaration: a header naming the
/// machine, one line per `(start, message, end)` triple, and a closing brace.
pub open spec fn dot_text(v: TransitionsV) -> Seq<char> {
    "digraph "@ + v.machine_name + " {\n"@ + edge_lines(edges_of(v.transitions)) + "}"@
}

impl Transitions {
    /// Renders the transition graph in dot format: one edge line per
    /// `(start, message, end)` triple, one per target for multi-target
    /// transitions, with no deduplication.
    #[verifier::rlimit(60)]
    pub fn render_dot(&self) -> (r: String)
        requires
            self.wf(),
        ensures
            r@ == dot_text(self@),
    {
        let ghost tsv = self@.transitions;
        let ghost header = "digraph "@ + self@.machine_name + " {\n"@;
        let mut s = String::from_str("digraph ");
        s.append(self.machine_name.as_str());
        s.append(" {\n");
        let mut i: usize = 0;
        while i < self.transitions.len()
            invariant
                self.wf(),
                tsv == self@.transitions,
                header == "digraph "@ + self@.machine_name + " {\n"@,
                i <= self.transitions.len(),
                s@ == header + edge_lines(edges_of(tsv.take(i as int))),
            decreases self.transitions.len() - i,
        {
            let t = &self.transitions[i];
            assert(t.wf());
            let label = render_type(&t.message);
            let ghost done = edges_of(tsv.take(i as int));
            let mut j: usize = 0;
            while j < t.end.len()
                invariant
                    self.wf(),
                    tsv == self@.transitions,
                    header == "digraph "@ + self@.machine_name + " {\n"@,
                    i < self.transitions.len(),
                    t == &self.transitions[i as int],
                    label@ == type_text(t@.message),
                    done == edges_of(tsv.take(i as int)),
                    j <= t.end.len(),
                    s@ == header + edge_lines(
                        done + t@.end.take(j as int).map_values(
                            |e: Seq<char>| (t@.start, t@.message, e),
                        ),
                    ),
                decreases t.end.len() - j,
            {
                let ghost partial = t@.end.take(j as int).map_values(
                    |e: Seq<char>| (t@.start, t@.message, e),
                );
                s.append("    ");
                s.append(t.start.as_str());
                s.append(" -> ");
                s.append(t.end[j].as_str());
                s.append(" [ label = \"");
                s.append(label.as_str());
                s.append("\" ];\n");
                proof {
                    let edge = (t@.start, t@.message, t@.end[j as int]);
                    let partial2 = t@.end.take(j + 1 as int).map_values(
                        |e: Seq<char>| (t@.start, t@.message, e),
                    );
                    assert(partial2 =~= partial.push(edge));
                    assert(done + partial2 =~= (done + partial).push(edge));
                    assert((done + partial).push(edge).drop_last() =~= done + partial);
                    assert(edge_lines((done + partial).push(edge)) == edge_lines(done + partial)
                        + edge_line(edge));
                    assert(s@ =~= header + edge_lines(done + partial2));
                }
                j += 1;
            }
            proof {
                assert(t@.end.take(t@.end.len() as int) =~= t@.end);
                assert(t@.end.map_values(|e: Seq<char>| (t@.start, t@.message, e))
                    =~= edges_of_one(t@));
                assert(tsv.take(i + 1 as int).drop_last() =~= tsv.take(i as int));
                assert(tsv.take(i + 1 as int).last() == tsv[i as int]);
                assert(edges_of(tsv.take(i + 1 as int)) == done + edges_of_one(tsv[i as int]));
            }
            i += 1;
        }
        s.append("}");
        proof {
            assert(tsv.take(tsv.len() as int) =~= tsv);
            assert(s@ =~= dot_text(self@));
        }
        s
    }
}

/// The derive header every generated type carries.
pub open spec fn derive_header() -> Seq<char> {
    "#[derive(Clone, Debug, PartialEq)]\n"@
}

/// One variant of the generated messages enum.
pub open spec fn message_variant_line(e: TableEntryV) -> Seq<char> {
    "    "@ + e.key_name + "("@ + type_text(e.message) + "),\n"@
}

/// The variants of the generated messages enum, in table order.
pub open spec fn message_variant_lines(es: Seq<TableEntryV>) -> Seq<char>
    decreases es.len(),
{
    if es.len() == 0 {
        Seq::<char>::empty()
    } else {
        message_variant_lines(es.drop_last()) + message_variant_line(es.last())
    }
}

/// The generated messages enum: one variant per transition table entry,
/// with the machine-wide generic arguments, lifetimes first.
pub open spec fn messages_enum_text(
    machine: Seq<char>,
    es: Seq<TableEntryV>,
    all_args: Seq<TypeArgV>,
) -> Seq<char> {
    derive_header() + "pub enum "@ + machine + "Messages"@ + type_args_text(
        reorder_spec(all_args),
    ) + " {\n"@ + message_variant_lines(es) + "}\n\n"@
}

/// One match arm of a generated dispatch method.  A single-target arm wraps
/// the per-state handler's result in the end state's summand; a multi-target
/// arm delegates to the handler, which returns the full machine value.
pub open spec fn arm_text(
    machine: Seq<char>,
    fn_name: Seq<char>,
    arm: (Seq<char>, Seq<Seq<char>>),
) -> Seq<char> {
    if arm.1.len() == 1 {
        "            "@ + machine + "::"@ + arm.0 + "(state) => "@ + machine + "::"@ + arm.1[0]
            + "(state."@ + fn_name + "(input)),\n"@
    } else {
        "            "@ + machine + "::"@ + arm.0 + "(state) => state."@ + fn_name + "(input),\n"@
    }
}

/// Multi-target correctness: an arm whose end list holds more than one state
/// delegates entirely to the user handler's returned value — the generated
/// text names no end state and wraps nothing around the handler call.
pub proof fn lemma_multi_target_delegates(
    machine: Seq<char>,
    fn_name: Seq<char>,
    arm: (Seq<char>, Seq<Seq<char>>),
)
    requires
        arm.1.len() > 1,
    ensures
        arm_text(machine, fn_name, arm) == "            "@ + machine + "::"@ + arm.0
            + "(state) => state."@ + fn_name + "(input),\n"@,
{
}

/// The match arms of one dispatch method, in declaration order.
pub open spec fn arms_text(
    machine: Seq<char>,
    fn_name: Seq<char>,
    arms: Seq<(Seq<char>, Seq<Seq<char>>)>,
) -> Seq<char>
    decreases arms.len(),
{
    if arms.len() == 0 {
        Seq::<char>::empty()
    } else {
        arms_text(machine, fn_name, arms.drop_last()) + arm_text(machine, fn_name, arms.last())
    }
}

/// One generated dispatch method: its name is the snake-case form of the
/// message's base name; any current state its arms do not cover falls through
/// to the `Error` summand.
pub open spec fn dispatch_fn_text(machine: Seq<char>, e: TableEntryV) -> Seq<char> {
    let fn_name = "on_"@ + snake_of(e.key_name);
    "    pub fn "@ + fn_name + type_args_text(reorder_spec(e.args)) + "(self, input: "@
        + type_text(e.message) + ") -> "@ + machine + " {\n        match self {\n"@ + arms_text(
        machine,
        fn_name,
        e.arms,
    ) + "            _ => "@ + machine + "::Error,\n        }\n    }\n\n"@
}

/// The dispatch methods of all table entries, in table order.
pub open spec fn dispatch_fns_text(machine: Seq<char>, es: Seq<TableEntryV>) -> Seq<char>
    decreases es.len(),
{
    if es.len() == 0 {
        Seq::<char>::empty()
    } else {
        dispatch_fns_text(machine, es.drop_last()) + dispatch_fn_text(machine, es.last())
    }
}

/// One match arm of the generated `execute` method.
pub open spec fn execute_match_line(machine: Seq<char>, e: TableEntryV) -> Seq<char> {
    "            "@ + machine + "Messages::"@ + e.key_name + "(message) => self.on_"@ + snake_of(
        e.key_name,
    ) + "(message),\n"@
}

/// The match arms of the generated `execute` method, in table order.
pub open spec fn execute_match_lines(machine: Seq<char>, es: Seq<TableEntryV>) -> Seq<char>
    decreases es.len(),
{
    if es.len() == 0 {
        Seq::<char>::empty()
    } else {
        execute_match_lines(machine, es.drop_last()) + execute_match_line(machine, es.last())
    }
}

/// The generated `execute` method, which dispatches a messages-enum value to
/// the matching dispatch method.
pub open spec fn execute_fn_text(
    machine: Seq<char>,
    es: Seq<TableEntryV>,
    all_args: Seq<TypeArgV>,
) -> Seq<char> {
    let args = type_args_text(reorder_spec(all_args));
    "    pub fn execute"@ + args + "(self, input: "@ + machine + "Messages"@ + args + ") -> "@
        + machine + " {\n        match input {\n"@ + execute_match_lines(machine, es)
        + "            _ => "@ + machine + "::Error,\n        }\n    }\n"@
}

/// The generated impl block: the dispatch methods and `execute`.
pub open spec fn transitions_impl_text(
    machine: Seq<char>,
    es: Seq<TableEntryV>,
    all_args: Seq<TypeArgV>,
) -> Seq<char> {
    "impl "@ + machine + " {\n"@ + dispatch_fns_text(machine, es) + execute_fn_text(
        machine,
        es,
        all_args,
    ) + "}\n"@
}

/// The full generated text of a transition declaration.
pub open spec fn transitions_code_text(v: TransitionsV) -> Seq<char> {
    messages_enum_text(v.machine_name, spec_table(v.transitions), spec_all_args(v.transitions))
        + transitions_impl_text(
        v.machine_name,
        spec_table(v.transitions),
        spec_all_args(v.transitions),
    )
}

impl Transitions {
    #[verifier::rlimit(60)]
    fn generate_messages_enum(&self, table: &TransitionTable) -> (r: String)
        requires
            table.wf(),
        ensures
            r@ == messages_enum_text(
                self@.machine_name,
                table.entries_view(),
                table.args@.map_values(|a: TypeArg| a@),
            ),
    {
        let ghost esv = table.entries_view();
        let mut s = String::from_str("#[derive(Clone, Debug, PartialEq)]\n");
        s.append("pub enum ");
        s.append(self.machine_name.as_str());
        s.append("Messages");
        let reordered = reorder_type_arguments(clone_args(&table.args));
        let args_text = render_type_args(&reordered);
        s.append(args_text.as_str());
        s.append(" {\n");
        let ghost head = s@;
        let mut i: usize = 0;
        while i < table.entries.len()
            invariant
                table.wf(),
                esv == table.entries_view(),
                i <= table.entries.len(),
                s@ == head + message_variant_lines(esv.take(i as int)),
            decreases table.entries.len() - i,
        {
            let e = &table.entries[i];
            s.append("    ");
            s.append(e.key_name.as_str());
            s.append("(");
            let ty = render_type(&e.message);
            s.append(ty.as_str());
            s.append("),\n");
            proof {
                assert(esv.take(i + 1 as int).drop_last() =~= esv.take(i as int));
                assert(esv.take(i + 1 as int).last() == esv[i as int]);
                assert(s@ =~= head + message_variant_lines(esv.take(i + 1 as int)));
            }
            i += 1;
        }
        s.append("}\n\n");
        proof {
            assert(esv.take(esv.len() as int) =~= esv);
            assert(s@ =~= messages_enum_text(
                self@.machine_name,
                esv,
                table.args@.map_values(|a: TypeArg| a@),
            ));
        }
        s
    }

    #[verifier::rlimit(60)]
    fn generate_fn(&self, e: &TableEntry) -> (r: String)
        requires
            e@.message.segments.len() >= 1,
        ensures
            r@ == dispatch_fn_text(self@.machine_name, e@),
    {
        let ghost machine = self@.machine_name;
        let ghost fn_namev = "on_"@ + snake_of(e@.key_name);
        let mut fn_name = String::from_str("on_");
        let snake = crate::casing::to_snake(e.key_name.as_str());
        fn_name.append(snake.as_str());
        let mut s = String::from_str("    pub fn ");
        s.append(fn_name.as_str());
        let reordered = reorder_type_arguments(clone_args(&e.args));
        let args_text = render_type_args(&reordered);
        s.append(args_text.as_str());
        s.append("(self, input: ");
        let ty = render_type(&e.message);
        s.append(ty.as_str());
        s.append(") -> ");
        s.append(self.machine_name.as_str());
        s.append(" {\n        match self {\n");
        let ghost head = s@;
        let ghost armsv = e@.arms;
        let mut i: usize = 0;
        while i < e.arms.len()
            invariant
                machine == self@.machine_name,
                fn_name@ == fn_namev,
                armsv == e@.arms,
                e.arms@.len() == armsv.len(),
                i <= e.arms.len(),
                s@ == head + arms_text(machine, fn_namev, armsv.take(i as int)),
            decreases e.arms.len() - i,
        {
            let (start, end) = &e.arms[i];
            s.append("            ");
            s.append(self.machine_name.as_str());
            s.append("::");
            s.append(start.as_str());
            if end.len() == 1 {
                s.append("(state) => ");
                s.append(self.machine_name.as_str());
                s.append("::");
                s.append(end[0].as_str());
                s.append("(state.");
                s.append(fn_name.as_str());
                s.append("(input)),\n");
            } else {
                s.append("(state) => state.");
                s.append(fn_name.as_str());
                s.append("(input),\n");
            }
            proof {
                assert(armsv[i as int] == (e.arms@[i as int].0@, e.arms@[i as int].1.deep_view()));
                assert(armsv.take(i + 1 as int).drop_last() =~= armsv.take(i as int));
                assert(armsv.take(i + 1 as int).last() == armsv[i as int]);
                assert(s@ =~= head + arms_text(machine, fn_namev, armsv.take(i + 1 as int)));
            }
            i += 1;
        }
        s.append("            _ => ");
        s.append(self.machine_name.as_str());
        s.append("::Error,\n        }\n    }\n\n");
        proof {
            assert(armsv.take(armsv.len() as int) =~= armsv);
            assert(s@ =~= dispatch_fn_text(machine, e@));
        }
        s
    }

    #[verifier::rlimit(60)]
    fn generate_impl(&self, table: &TransitionTable) -> (r: String)
        requires
            table.wf(),
        ensures
            r@ == transitions_impl_text(
                self@.machine_name,
                table.entries_view(),
                table.args@.map_values(|a: TypeArg| a@),
            ),
    {
        let ghost machine = self@.machine_name;
        let ghost esv = table.entries_view();
        let mut s = String::from_str("impl ");
        s.append(self.machine_name.as_str());
        s.append(" {\n");
        let ghost head = s@;
        let mut i: usize = 0;
        while i < table.entries.len()
            invariant
                table.wf(),
                machine == self@.machine_name,
                esv == table.entries_view(),
                i <= table.entries.len(),
                s@ == head + dispatch_fns_text(machine, esv.take(i as int)),
            decreases table.entries.len() - i,
        {
            let f = self.generate_fn(&table.entries[i]);
            s.append(f.as_str());
            proof {
                assert(esv.take(i + 1 as int).drop_last() =~= esv.take(i as int));
                assert(esv.take(i + 1 as int).last() == esv[i as int]);
                assert(s@ =~= head + dispatch_fns_text(machine, esv.take(i + 1 as int)));
            }
            i += 1;
        }
        proof {
            assert(esv.take(esv.len() as int) =~= esv);
        }
        s.append("    pub fn execute");
        let reordered = reorder_type_arguments(clone_args(&table.args));
        let args_text = render_type_args(&reordered);
        s.append(args_text.as_str());
        s.append("(self, input: ");
        s.append(self.machine_name.as_str());
        s.append("Messages");
        s.append(args_text.as_str());
        s.append(") -> ");
        s.append(self.machine_name.as_str());
        s.append(" {\n        match input {\n");
        let ghost head2 = s@;
        let mut j: usize = 0;
        while j < table.entries.len()
            invariant
                table.wf(),
                machine == self@.machine_name,
                esv == table.entries_view(),
                j <= table.entries.len(),
                s@ == head2 + execute_match_lines(machine, esv.take(j as int)),
            decreases table.entries.len() - j,
        {
            let e = &table.entries[j];
            s.append("            ");
            s.append(self.machine_name.as_str());
            s.append("Messages::");
            s.append(e.key_name.as_str());
            s.append("(message) => self.on_");
            let snake = crate::casing::to_snake(e.key_name.as_str());
            s.append(snake.as_str());
            s.append("(message),\n");
            proof {
                assert(esv.take(j + 1 as int).drop_last() =~= esv.take(j as int));
                assert(esv.take(j + 1 as int).last() == esv[j as int]);
                assert(s@ =~= head2 + execute_match_lines(machine, esv.take(j + 1 as int)));
            }
            j += 1;
        }
        s.append("            _ => ");
        s.append(self.machine_name.as_str());
        s.append("::Error,\n        }\n    }\n");
        s.append("}\n");
        proof {
            assert(esv.take(esv.len() as int) =~= esv);
            assert(s@ =~= transitions_impl_text(
                machine,
                esv,
                table.args@.map_values(|a: TypeArg| a@),
            ));
        }
        s
    }

    /// Generates the messages enum and the dispatch impl for this
    /// declaration; returns the machine's name and the generated text.
    pub fn generate(&self) -> (r: (String, String))
        requires
            self.wf(),
        ensures
            r.0@ == self@.machine_name,
            r.1@ == transitions_code_text(self@),
    {
        let table = TransitionTable::build(self);
        let mut code = self.generate_messages_enum(&table);
        let imp = self.generate_impl(&table);
        code.append(imp.as_str());
        (self.machine_name.clone(), code)
    }
}

/// Whether any transition lists the reserved `Error` state as its start.
pub open spec fn has_error_start(ts: Seq<TransitionV>) -> bool {
    exists|i: int| 0 <= i < ts.len() && (#[trigger] ts[i]).start == "Error"@
}

/// Whether every state a transition list references is declared.
pub open spec fn transitions_states_ok(states: Seq<Seq<char>>, ts: Seq<TransitionV>) -> bool {
    forall|i: int|
        0 <= i < ts.len() ==> states.contains((#[trigger] ts[i]).start) && forall|j: int|
            0 <= j < ts[i].end.len() ==> states.contains(#[trigger] ts[i].end[j])
}

/// Checks that every start and end state of the declaration is among the
/// machine's declared states; a violation names the unknown state.
pub fn check_transitions(states: &Vec<String>, t: &Transitions) -> (r: Result<(), SemanticError>)
    ensures
        match r {
            Ok(()) => transitions_states_ok(states.deep_view(), t@.transitions),
            Err(e) => !transitions_states_ok(states.deep_view(), t@.transitions) && (e matches
                SemanticError::UnknownState(s) && !states.deep_view().contains(s@)),
        },
{
    let ghost sv = states.deep_view();
    let ghost tsv = t@.transitions;
    let mut i: usize = 0;
    while i < t.transitions.len()
        invariant
            sv == states.deep_view(),
            tsv == t@.transitions,
            i <= t.transitions.len(),
            forall|k: int|
                0 <= k < i ==> sv.contains((#[trigger] tsv[k]).start) && forall|j: int|
                    0 <= j < tsv[k].end.len() ==> sv.contains(#[trigger] tsv[k].end[j]),
        decreases t.transitions.len() - i,
    {
        let tr = &t.transitions[i];
        if !string_list_contains(states, tr.start.as_str()) {
            proof {
                assert(tsv[i as int].start == tr@.start);
                assert(!sv.contains(tsv[i as int].start));
                assert(!transitions_states_ok(sv, tsv));
            }
            return Err(SemanticError::UnknownState(tr.start.clone()));
        }
        let mut j: usize = 0;
        while j < tr.end.len()
            invariant
                sv == states.deep_view(),
                tsv == t@.transitions,
                i < t.transitions.len(),
                tr == &t.transitions[i as int],
                j <= tr.end.len(),
                forall|k: int| 0 <= k < j ==> sv.contains(#[trigger] tr@.end[k]),
            decreases tr.end.len() - j,
        {
            if !string_list_contains(states, tr.end[j].as_str()) {
                proof {
                    assert(tr@.end[j as int] == tr.end@[j as int]@);
                    assert(tsv[i as int].end[j as int] == tr@.end[j as int]);
                    assert(!sv.contains(tsv[i as int].end[j as int]));
                    assert(!transitions_states_ok(sv, tsv));
                }
                return Err(SemanticError::UnknownState(tr.end[j].clone()));
            }
            j += 1;
        }
        i += 1;
    }
    Ok(())
}

/// Parses a transition declaration, rejects one that lists the reserved
/// `Error` state as a start state, and returns the machine's name, the
/// generated dispatch code, and the dot rendering of the transition graph.
pub fn transitions(toks: &Vec<Token>) -> (r: Result<(String, String, String), BuildError>)
    ensures
        match r {
            Ok((name, code, dot)) => spec_parse_transitions(toks@) matches Some(v)
                && !has_error_start(v.transitions) && name@ == v.machine_name && code@
                == transitions_code_text(v) && dot@ == dot_text(v),
            Err(BuildError::Syntax(_)) => spec_parse_transitions(toks@) is None,
            Err(BuildError::Semantic(e)) => spec_parse_transitions(toks@) matches Some(v)
                && has_error_start(v.transitions) && (e matches SemanticError::ReservedState(s)
                && s@ == "Error"@),
        },
{
    let t = match Transitions::parse(toks) {
        Ok(t) => t,
        Err(e) => {
            return Err(BuildError::Syntax(e));
        },
    };
    let ghost tsv = t@.transitions;
    let mut i: usize = 0;
    while i < t.transitions.len()
        invariant
            spec_parse_transitions(toks@) == Some(t@),
            tsv == t@.transitions,
            i <= t.transitions.len(),
            forall|k: int| 0 <= k < i ==> (#[trigger] tsv[k]).start != "Error"@,
        decreases t.transitions.len() - i,
    {
        if str_eq(t.transitions[i].start.as_str(), "Error") {
            proof {
                assert(tsv[i as int].start == "Error"@);
                assert(has_error_start(tsv));
                assert(t.transitions@[i as int].start@ == "Error"@);
            }
            return Err(
                BuildError::Semantic(
                    SemanticError::ReservedState(t.transitions[i].start.clone()),
                ),
            );
        }
        i += 1;
    }
    assert(!has_error_start(tsv));
    let dot = t.render_dot();
    let (name, code) = t.generate();
    Ok((name, code, dot))
}

proof fn lemma_find_entry_bounds(es: Seq<TableEntryV>, name: Seq<char>, arity: int)
    ensures
        match find_entry(es, name, arity) {
            Some(i) => 0 <= i < es.len(),
            None => true,
        },
    decreases es.len(),
{
    if es.len() > 0 && !(es[0].key_name == name && es[0].arity == arity) {
        assert(es.drop_first() =~= es.skip(1));
        lemma_find_entry_bounds(es.skip(1), name, arity);
    }
}

/// Absorption in the generated code: when no transition lists the reserved
/// `Error` state as its start, no arm of the transition table does either, so
/// no generated dispatch arm matches the `Error` summand and every dispatch
/// from `Error` falls through to the catch-all arm and stays in `Error`.
pub proof fn lemma_table_error_absorbing(ts: Seq<TransitionV>)
    requires
        !has_error_start(ts),
    ensures
        forall|i: int, j: int|
            0 <= i < spec_table(ts).len() && 0 <= j < spec_table(ts)[i].arms.len() ==> (
            #[trigger] spec_table(ts)[i].arms[j]).0 != "Error"@,
    decreases ts.len(),
{
    if ts.len() > 0 {
        assert(!has_error_start(ts.drop_last())) by {
            assert(forall|k: int|
                0 <= k < ts.drop_last().len() ==> #[trigger] ts.drop_last()[k] == ts[k]);
        }
        lemma_table_error_absorbing(ts.drop_last());
        let es = spec_table(ts.drop_last());
        let t = ts.last();
        assert(t.start != "Error"@) by {
            assert(ts[ts.len() - 1] == t);
        }
        let es2 = spec_table(ts);
        assert(es2 == table_insert(es, t));
        lemma_find_entry_bounds(es, t.message.segments.last(), t.message.args.len() as int);
        assert forall|i: int, j: int|
            0 <= i < es2.len() && 0 <= j < es2[i].arms.len() implies (
        #[trigger] es2[i].arms[j]).0 != "Error"@ by {
            match find_entry(es, t.message.segments.last(), t.message.args.len() as int) {
                Some(k) => {
                    if i == k {
                        if j < es[k].arms.len() {
                            assert(es2[i].arms[j] == es[i].arms[j]);
                        } else {
                            assert(es2[i].arms[j] == (t.start, t.end));
                        }
                    } else {
                        assert(es2[i] == es[i]);
                    }
                },
                None => {
                    if i == es2.len() - 1 {
                        assert(es2[i].arms =~= seq![(t.start, t.end)]);
                    } else {
                        assert(es2[i] == es[i]);
                    }
                },
            }
        }
    }
}

} // verus!
