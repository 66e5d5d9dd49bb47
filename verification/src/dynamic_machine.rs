//! The runtime-checked state machine variant.
//!
//! A [`DynamicMachine`] holds a current state value, the declared initial and
//! error states, an append-only trace of `(event, resulting state)` pairs
//! seeded with a `("", initial)` entry, and the attribute fields supplied at
//! construction.  Events are dispatched against a list of arms: on a match the
//! machine advances and logs the step; on no match it falls into the error
//! state, which is absorbing as long as no arm lists the error state as its
//! pattern.

use vstd::prelude::*;
use vstd::string::StringExecFns;

use crate::text::{dec_digits, str_eq, u64_to_string};

verus! {

/// The mathematical value of a [`StateValue`]: a variant name and its payload.
#[verifier::ext_equal]
pub struct StateV {
    pub name: Seq<char>,
    pub data: Seq<u64>,
}

/// One state value of a dynamic machine: a variant name together with the
/// runtime data it carries.
#[derive(Debug)]
pub struct StateValue {
    pub name: String,
    pub data: Vec<u64>,
}

impl View for StateValue {
    type V = StateV;

    open spec fn view(&self) -> StateV {
        StateV { name: self.name@, data: self.data@ }
    }
}

fn clone_u64_vec(v: &Vec<u64>) -> (r: Vec<u64>)
    ensures
        r@ == v@,
{
    let mut r: Vec<u64> = Vec::new();
    let mut i: usize = 0;
    while i < v.len()
        invariant
            i <= v.len(),
            r@ == v@.take(i as int),
        decreases v.len() - i,
    {
        r.push(v[i]);
        assert(v@.take(i + 1 as int) =~= v@.take(i as int).push(v@[i as int]));
        i += 1;
    }
    assert(v@.take(v@.len() as int) =~= v@);
    r
}

fn u64_vec_eq(a: &Vec<u64>, b: &Vec<u64>) -> (r: bool)
    ensures
        r == (a@ == b@),
{
    if a.len() != b.len() {
        return false;
    }
    let mut i: usize = 0;
    while i < a.len()
        invariant
            a@.len() == b@.len(),
            i <= a@.len(),
            forall|k: int| 0 <= k < i ==> a@[k] == b@[k],
        decreases a.len() - i,
    {
        if a[i] != b[i] {
            return false;
        }
        i += 1;
    }
    assert(a@ =~= b@);
    true
}

impl Clone for StateValue {
    fn clone(&self) -> (r: StateValue)
        ensures
            r@ == self@,
    {
        StateValue { name: self.name.clone(), data: clone_u64_vec(&self.data) }
    }
}

impl PartialEq for StateValue {
    fn eq(&self, other: &StateValue) -> (r: bool) {
        let names = str_eq(self.name.as_str(), other.name.as_str());
        let datas = u64_vec_eq(&self.data, &other.data);
        proof {
            if self.name@ == other.name@ && self.data@ == other.data@ {
                assert(self@ =~= other@);
            }
        }
        names && datas
    }
}

impl vstd::std_specs::cmp::PartialEqSpecImpl for StateValue {
    open spec fn obeys_eq_spec() -> bool {
        true
    }

    open spec fn eq_spec(&self, other: &StateValue) -> bool {
        self@ == other@
    }
}

impl StateValue {
    /// Builds a state value from its variant name and payload.
    pub fn new(name: String, data: Vec<u64>) -> (r: StateValue)
        ensures
            r@ == (StateV { name: name@, data: data@ }),
    {
        StateValue { name, data }
    }
}

/// The mathematical value of an [`Arm`].
#[verifier::ext_equal]
pub struct ArmV {
    pub pattern: Seq<char>,
    pub target: StateV,
}

/// One arm of a unit event: when the current state's variant name equals
/// `pattern`, the machine moves to `target`.
pub struct Arm {
    pub pattern: String,
    pub target: StateValue,
}

impl View for Arm {
    type V = ArmV;

    open spec fn view(&self) -> ArmV {
        ArmV { pattern: self.pattern@, target: self.target@ }
    }
}

/// The views of a list of arms.
pub open spec fn arm_views(arms: Seq<Arm>) -> Seq<ArmV> {
    arms.map_values(|a: Arm| a@)
}

/// The first arm whose pattern equals `name`, if any.
pub open spec fn first_match(arms: Seq<ArmV>, name: Seq<char>) -> Option<ArmV>
    decreases arms.len(),
{
    if arms.len() == 0 {
        None
    } else if arms[0].pattern == name {
        Some(arms[0])
    } else {
        first_match(arms.drop_first(), name)
    }
}

/// Scanning arms that cannot match does not change the first match.
proof fn lemma_first_match_skip(arms: Seq<ArmV>, name: Seq<char>, i: int)
    requires
        0 <= i <= arms.len(),
        forall|k: int| 0 <= k < i ==> arms[k].pattern != name,
    ensures
        first_match(arms, name) == first_match(arms.skip(i), name),
    decreases i,
{
    if i > 0 {
        assert(arms[0].pattern != name);
        assert(arms.drop_first() =~= arms.skip(1));
        lemma_first_match_skip(arms.skip(1), name, i - 1);
        assert(arms.skip(1).skip(i - 1) =~= arms.skip(i));
    } else {
        assert(arms.skip(0) =~= arms);
    }
}

/// What `first_match` returns: the matching arm of least index, or the
/// knowledge that no arm matches.
pub proof fn lemma_first_match_props(arms: Seq<ArmV>, name: Seq<char>)
    ensures
        match first_match(arms, name) {
            Some(a) => exists|i: int|
                0 <= i < arms.len() && arms[i] == a && arms[i].pattern == name,
            None => forall|i: int| 0 <= i < arms.len() ==> arms[i].pattern != name,
        },
    decreases arms.len(),
{
    if arms.len() > 0 {
        if arms[0].pattern == name {
            assert(0 <= 0 < arms.len() && arms[0] == arms[0] && arms[0].pattern == name);
        } else {
            assert(arms.drop_first() =~= arms.skip(1));
            lemma_first_match_props(arms.skip(1), name);
            match first_match(arms.skip(1), name) {
                Some(a) => {
                    let i = choose|i: int|
                        0 <= i < arms.skip(1).len() && arms.skip(1)[i] == a
                            && arms.skip(1)[i].pattern == name;
                    assert(arms[i + 1] == a);
                    assert(0 <= i + 1 < arms.len() && arms[i + 1].pattern == name);
                },
                None => {
                    assert forall|k: int| 0 <= k < arms.len() implies arms[k].pattern != name by {
                        if k > 0 {
                            assert(arms.skip(1)[k - 1] == arms[k]);
                        }
                    }
                },
            }
        }
    }
}

/// The mathematical value of a [`DynamicMachine`].
#[verifier::ext_equal]
pub struct DynV {
    pub initial: StateV,
    pub error: StateV,
    pub state: StateV,
    pub trace: Seq<(Seq<char>, StateV)>,
    pub attributes: Seq<u64>,
}

/// A well-formed machine's trace starts with the seed entry `("", initial)`.
pub open spec fn wf_view(m: DynV) -> bool {
    &&& m.trace.len() >= 1
    &&& m.trace[0] == (Seq::<char>::empty(), m.initial)
}

/// The machine after dispatching a unit event over `arms`: the first matching
/// arm's target, or the error state when no arm matches.  The trace grows by
/// exactly one entry either way.
pub open spec fn unit_step(m: DynV, event: Seq<char>, arms: Seq<ArmV>) -> DynV {
    match first_match(arms, m.state.name) {
        Some(a) => DynV { state: a.target, trace: m.trace.push((event, a.target)), ..m },
        None => DynV { state: m.error, trace: m.trace.push((event, m.error)), ..m },
    }
}

/// The machine after dispatching a valued event whose arms cover the variant
/// names in `patterns` and whose matched computation produced `outcome`.
pub open spec fn computed_step(
    m: DynV,
    event: Seq<char>,
    patterns: Seq<Seq<char>>,
    outcome: StateV,
) -> DynV {
    if patterns.contains(m.state.name) {
        DynV { state: outcome, trace: m.trace.push((event, outcome)), ..m }
    } else {
        DynV { state: m.error, trace: m.trace.push((event, m.error)), ..m }
    }
}

/// The rendering of one state value inside a trace: the variant name, with
/// the payload in parentheses when there is one.
pub open spec fn render_state(s: StateV) -> Seq<char> {
    if s.data.len() == 0 {
        s.name
    } else {
        s.name + "("@ + join_nums(s.data) + ")"@
    }
}

/// Decimal payload values joined by `", "`.
pub open spec fn join_nums(data: Seq<u64>) -> Seq<char>
    decreases data.len(),
{
    if data.len() == 0 {
        Seq::<char>::empty()
    } else if data.len() == 1 {
        dec_digits(data[0] as nat)
    } else {
        join_nums(data.drop_last()) + ", "@ + dec_digits(data.last() as nat)
    }
}

/// The rendering of one trace entry.
pub open spec fn segment(event: Seq<char>, s: StateV) -> Seq<char> {
    " =( "@ + event + " )=> "@ + render_state(s)
}

/// The renderings of a list of trace entries, in order.
pub open spec fn segments(trace: Seq<(Seq<char>, StateV)>) -> Seq<char>
    decreases trace.len(),
{
    if trace.len() == 0 {
        Seq::<char>::empty()
    } else {
        segments(trace.drop_last()) + segment(trace.last().0, trace.last().1)
    }
}

/// The full trace rendering: the initial state's name followed by one
/// segment per dispatched event.
pub open spec fn render_trace(m: DynV) -> Seq<char> {
    m.initial.name + segments(m.trace.skip(1))
}

/// The runtime-checked state machine: current state, trace, and attributes.
pub struct DynamicMachine {
    initial: StateValue,
    error: StateValue,
    state: StateValue,
    trace: Vec<(String, StateValue)>,
    attributes: Vec<u64>,
}

impl View for DynamicMachine {
    type V = DynV;

    closed spec fn view(&self) -> DynV {
        DynV {
            initial: self.initial@,
            error: self.error@,
            state: self.state@,
            trace: self.trace@.map_values(|e: (String, StateValue)| (e.0@, e.1@)),
            attributes: self.attributes@,
        }
    }
}

impl DynamicMachine {
    /// The trace always starts with the seed entry.
    pub open spec fn wf(&self) -> bool {
        wf_view(self@)
    }

    /// Builds a machine in its initial state, with the seed trace entry.
    pub fn new(initial: StateValue, error: StateValue, attributes: Vec<u64>) -> (r:
        DynamicMachine)
        ensures
            r.wf(),
            r@.initial == initial@,
            r@.error == error@,
            r@.state == initial@,
            r@.trace == seq![(Seq::<char>::empty(), initial@)],
            r@.attributes == attributes@,
    {
        let state = initial.clone();
        let seed = initial.clone();
        let mut trace: Vec<(String, StateValue)> = Vec::new();
        trace.push((String::new(), seed));
        let r = DynamicMachine { initial, error, state, trace, attributes };
        proof {
            assert(r@.trace =~= seq![(Seq::<char>::empty(), r.initial@)]);
        }
        r
    }

    /// Restores the initial state, truncates the trace back to the seed
    /// entry, and overwrites the attribute fields.
    pub fn reset(&mut self, attributes: Vec<u64>)
        ensures
            final(self).wf(),
            final(self)@.initial == old(self)@.initial,
            final(self)@.error == old(self)@.error,
            final(self)@.state == old(self)@.initial,
            final(self)@.trace == seq![(Seq::<char>::empty(), old(self)@.initial)],
            final(self)@.attributes == attributes@,
    {
        self.state = self.initial.clone();
        let seed = self.initial.clone();
        let mut trace: Vec<(String, StateValue)> = Vec::new();
        trace.push((String::new(), seed));
        self.trace = trace;
        self.attributes = attributes;
        proof {
            assert(self@.trace =~= seq![(Seq::<char>::empty(), self.initial@)]);
        }
    }

    /// Whether the machine has fallen into its error state.
    pub fn is_invalid(&self) -> (r: bool)
        ensures
            r == (self@.state == self@.error),
    {
        let names = str_eq(self.state.name.as_str(), self.error.name.as_str());
        let datas = u64_vec_eq(&self.state.data, &self.error.data);
        proof {
            if self.state.name@ == self.error.name@ && self.state.data@ == self.error.data@ {
                assert(self@.state =~= self@.error);
            }
        }
        names && datas
    }

    /// A copy of the current state value.
    pub fn current_state(&self) -> (r: StateValue)
        ensures
            r@ == self@.state,
    {
        self.state.clone()
    }

    /// The attribute fields, as most recently supplied.
    pub fn attributes(&self) -> (r: &Vec<u64>)
        ensures
            r@ == self@.attributes,
    {
        &self.attributes
    }

    fn push_state(&mut self, event: &str, st: StateValue)
        ensures
            final(self)@ == (DynV { trace: old(self)@.trace.push((event@, st@)), ..old(self)@ }),
    {
        self.trace.push((event.to_owned(), st));
        proof {
            assert(self@.trace =~= old(self)@.trace.push((event@, self.trace@.last().1@)));
            assert(self@ =~= (DynV { trace: old(self)@.trace.push((event@, self.trace@.last().1@)), ..old(self)@ }));
        }
    }

    /// Dispatches a unit event: the current state is matched against `arms`
    /// in order; the first arm whose pattern equals the current variant name
    /// gives the next state, and a missing match falls into the error state.
    pub fn unit_event(&mut self, event: &str, arms: &Vec<Arm>) -> (r: Option<()>)
        requires
            old(self).wf(),
        ensures
            final(self).wf(),
            final(self)@ == unit_step(old(self)@, event@, arm_views(arms@)),
            r is Some <==> first_match(arm_views(arms@), old(self)@.state.name) is Some,
    {
        let ghost armsv = arm_views(arms@);
        let ghost name = self.state.name@;
        let mut i: usize = 0;
        while i < arms.len()
            invariant
                old(self).wf(),
                i <= arms.len(),
                armsv == arm_views(arms@),
                name == self@.state.name,
                *self == *old(self),
                forall|k: int| 0 <= k < i ==> armsv[k].pattern != name,
            decreases arms.len() - i,
        {
            if str_eq(self.state.name.as_str(), arms[i].pattern.as_str()) {
                let target = arms[i].target.clone();
                self.state = arms[i].target.clone();
                self.push_state(event, target);
                proof {
                    lemma_first_match_skip(armsv, name, i as int);
                    assert(armsv.skip(i as int)[0] == armsv[i as int]);
                    assert(first_match(armsv, name) == Some(armsv[i as int]));
                    assert(self@ =~= unit_step(old(self)@, event@, armsv));
                    assert(self@.trace[0] == old(self)@.trace[0]);
                    assert(self.wf());
                }
                return Some(());
            }
            i += 1;
        }
        proof {
            lemma_first_match_skip(armsv, name, arms@.len() as int);
            assert(armsv.skip(armsv.len() as int) =~= Seq::<ArmV>::empty());
            assert(first_match(armsv, name) is None);
        }
        let err = self.error.clone();
        self.state = self.error.clone();
        self.push_state(event, err);
        proof {
            assert(self@ =~= unit_step(old(self)@, event@, armsv));
        }
        None
    }

    /// Dispatches a valued event.  `patterns` lists the variant names its
    /// arms cover, and `outcome` is the next state computed by the caller's
    /// matched arm; the caller keeps the computed result and returns it only
    /// when this function reports a match, falling back to the event's
    /// declared default otherwise.
    pub fn computed_event(&mut self, event: &str, patterns: &Vec<String>, outcome: &StateValue)
        -> (r: bool)
        requires
            old(self).wf(),
        ensures
            final(self).wf(),
            final(self)@ == computed_step(old(self)@, event@, patterns.deep_view(), outcome@),
            r == patterns.deep_view().contains(old(self)@.state.name),
    {
        let ghost pats = patterns.deep_view();
        let ghost name = self.state.name@;
        let mut i: usize = 0;
        while i < patterns.len()
            invariant
                old(self).wf(),
                i <= patterns.len(),
                pats == patterns.deep_view(),
                name == self@.state.name,
                *self == *old(self),
                forall|k: int| 0 <= k < i ==> pats[k] != name,
            decreases patterns.len() - i,
        {
            if str_eq(self.state.name.as_str(), patterns[i].as_str()) {
                assert(pats[i as int] == name);
                assert(pats.contains(name));
                self.state = outcome.clone();
                self.push_state(event, outcome.clone());
                proof {
                    assert(self@ =~= computed_step(old(self)@, event@, pats, outcome@));
                    assert(self@.trace[0] == old(self)@.trace[0]);
                    assert(self.wf());
                }
                return true;
            }
            i += 1;
        }
        assert(!pats.contains(name));
        let err = self.error.clone();
        self.state = self.error.clone();
        self.push_state(event, err);
        proof {
            assert(self@ =~= computed_step(old(self)@, event@, pats, outcome@));
        }
        false
    }

    /// Renders the trace as an arrow chain starting from the initial state's
    /// name, with one `=( event )=>` segment per dispatched event.
    pub fn print_trace(&self) -> (r: String)
        requires
            self.wf(),
        ensures
            r@ == render_trace(self@),
    {
        let mut res: String = self.initial.name.clone();
        let ghost tr = self@.trace;
        let mut i: usize = 1;
        while i < self.trace.len()
            invariant
                self.wf(),
                tr == self@.trace,
                1 <= i <= self.trace.len(),
                self.trace@.len() == tr.len(),
                res@ == self@.initial.name + segments(tr.subrange(1, i as int)),
            decreases self.trace.len() - i,
        {
            let entry_event: &String = &self.trace[i].0;
            let entry_state: &StateValue = &self.trace[i].1;
            res.append(" =( ");
            res.append(entry_event.as_str());
            res.append(" )=> ");
            let rendered = render_state_string(entry_state);
            res.append(rendered.as_str());
            proof {
                assert(tr.subrange(1, i + 1 as int).drop_last() =~= tr.subrange(1, i as int));
                assert(tr.subrange(1, i + 1 as int).last() == tr[i as int]);
                assert(tr[i as int] == (self.trace@[i as int].0@, self.trace@[i as int].1@));
                assert(res@ =~= self@.initial.name + segments(tr.subrange(1, i + 1 as int)));
            }
            i += 1;
        }
        proof {
            assert(tr.subrange(1, tr.len() as int) =~= tr.skip(1));
            if self.trace.len() == 1 {
                assert(tr.subrange(1, 1) =~= Seq::<(Seq<char>, StateV)>::empty());
                assert(res@ =~= self@.initial.name + segments(tr.subrange(1, 1)));
            }
        }
        res
    }
}

/// Renders one state value: the variant name, with the payload in
/// parentheses when there is one.
pub fn render_state_string(s: &StateValue) -> (r: String)
    ensures
        r@ == render_state(s@),
{
    if s.data.len() == 0 {
        s.name.clone()
    } else {
        let mut r = s.name.clone();
        r.append("(");
        let mut i: usize = 0;
        while i < s.data.len()
            invariant
                i <= s.data.len(),
                r@ == s.name@ + "("@ + join_nums(s.data@.take(i as int)),
            decreases s.data.len() - i,
        {
            if i > 0 {
                r.append(", ");
            }
            let num = u64_to_string(s.data[i]);
            r.append(num.as_str());
            proof {
                assert(s.data@.take(i + 1 as int).drop_last() =~= s.data@.take(i as int));
                assert(s.data@.take(i + 1 as int).last() == s.data@[i as int]);
                if i == 0 {
                    assert(join_nums(s.data@.take(1)) == dec_digits(s.data@[0] as nat));
                }
                assert(r@ =~= s.name@ + "("@ + join_nums(s.data@.take(i + 1 as int)));
            }
            i += 1;
        }
        r.append(")");
        proof {
            assert(s.data@.take(s.data@.len() as int) =~= s.data@);
            assert(r@ =~= render_state(s@));
        }
        r
    }
}

/// Totality: dispatching any event in any state — the error state included —
/// yields a defined, well-formed machine whose state is either the first
/// matching arm's target or the error state.
pub proof fn lemma_dispatch_total(m: DynV, event: Seq<char>, arms: Seq<ArmV>)
    requires
        wf_view(m),
    ensures
        wf_view(unit_step(m, event, arms)),
        unit_step(m, event, arms).state == m.error || exists|i: int|
            0 <= i < arms.len() && arms[i].pattern == m.state.name && unit_step(
                m,
                event,
                arms,
            ).state == arms[i].target,
        unit_step(m, event, arms).trace.len() == m.trace.len() + 1,
{
    lemma_first_match_props(arms, m.state.name);
    match first_match(arms, m.state.name) {
        Some(a) => {
            let i = choose|i: int|
                0 <= i < arms.len() && arms[i] == a && arms[i].pattern == m.state.name;
            assert(unit_step(m, event, arms).state == arms[i].target);
        },
        None => {},
    }
}

/// Absorption: once the machine sits in its error state, no unit event whose
/// arms do not list the error state's name can leave it.
pub proof fn lemma_error_absorbing(m: DynV, event: Seq<char>, arms: Seq<ArmV>)
    requires
        m.state == m.error,
        forall|i: int| 0 <= i < arms.len() ==> arms[i].pattern != m.error.name,
    ensures
        unit_step(m, event, arms).state == m.error,
        unit_step(m, event, arms).error == m.error,
{
    lemma_first_match_skip(arms, m.state.name, arms.len() as int);
    assert(arms.skip(arms.len() as int) =~= Seq::<ArmV>::empty());
}

/// Absorption for valued events: the same, for an arm set covering `patterns`.
pub proof fn lemma_error_absorbing_computed(
    m: DynV,
    event: Seq<char>,
    patterns: Seq<Seq<char>>,
    outcome: StateV,
)
    requires
        m.state == m.error,
        !patterns.contains(m.error.name),
    ensures
        computed_step(m, event, patterns, outcome).state == m.error,
        computed_step(m, event, patterns, outcome).error == m.error,
{
}

/// Fallback: dispatching an event while in a state that none of its arms
/// lists sends the machine to the error state.
pub proof fn lemma_fallback(m: DynV, event: Seq<char>, arms: Seq<ArmV>)
    requires
        forall|i: int| 0 <= i < arms.len() ==> arms[i].pattern != m.state.name,
    ensures
        unit_step(m, event, arms).state == m.error,
{
    lemma_first_match_skip(arms, m.state.name, arms.len() as int);
    assert(arms.skip(arms.len() as int) =~= Seq::<ArmV>::empty());
}

/// A machine whose trace holds only the seed entry renders as just the
/// initial state's name.
pub proof fn lemma_trace_render_initial(m: DynV)
    requires
        m.trace == seq![(Seq::<char>::empty(), m.initial)],
    ensures
        render_trace(m) == m.initial.name,
{
    assert(m.trace.skip(1) =~= Seq::<(Seq<char>, StateV)>::empty());
    assert(m.initial.name + Seq::<char>::empty() =~= m.initial.name);
}

/// Each dispatched unit event extends the rendered trace by exactly one
/// `=( event )=>` segment, naming the state the dispatch produced.
pub proof fn lemma_trace_render_after_event(m: DynV, event: Seq<char>, arms: Seq<ArmV>)
    requires
        wf_view(m),
    ensures
        render_trace(unit_step(m, event, arms)) == render_trace(m) + segment(
            event,
            unit_step(m, event, arms).state,
        ),
{
    let m2 = unit_step(m, event, arms);
    let entry = (event, m2.state);
    assert(m2.trace =~= m.trace.push(entry));
    assert(m2.trace.skip(1) =~= m.trace.skip(1).push(entry));
    assert(m2.trace.skip(1).drop_last() =~= m.trace.skip(1));
    assert(segments(m2.trace.skip(1)) == segments(m.trace.skip(1)) + segment(event, m2.state));
    assert(m.initial.name + (segments(m.trace.skip(1)) + segment(event, m2.state)) =~= (
    m.initial.name + segments(m.trace.skip(1))) + segment(event, m2.state));
}

/// The same, for valued events.
pub proof fn lemma_trace_render_after_computed(
    m: DynV,
    event: Seq<char>,
    patterns: Seq<Seq<char>>,
    outcome: StateV,
)
    requires
        wf_view(m),
    ensures
        render_trace(computed_step(m, event, patterns, outcome)) == render_trace(m) + segment(
            event,
            computed_step(m, event, patterns, outcome).state,
        ),
{
    let m2 = computed_step(m, event, patterns, outcome);
    let entry = (event, m2.state);
    assert(m2.trace =~= m.trace.push(entry));
    assert(m2.trace.skip(1) =~= m.trace.skip(1).push(entry));
    assert(m2.trace.skip(1).drop_last() =~= m.trace.skip(1));
    assert(segments(m2.trace.skip(1)) == segments(m.trace.skip(1)) + segment(event, m2.state));
    assert(m.initial.name + (segments(m.trace.skip(1)) + segment(event, m2.state)) =~= (
    m.initial.name + segments(m.trace.skip(1))) + segment(event, m2.state));
}

} // verus!
