//! Type references: the message types of transitions and the field types of
//! states, as a path of segments plus optional generic arguments.

use vstd::prelude::*;
use vstd::string::StringExecFns;

use crate::casing::{snake_of, to_snake};
use crate::text::{join_with, str_eq};

verus! {

/// The mathematical value of a [`TypeArg`].
pub enum TypeArgV {
    Lifetime(Seq<char>),
    TypeName(Seq<char>),
}

/// One generic argument of a type reference: a lifetime (stored without the
/// apostrophe) or a type parameter name.
pub enum TypeArg {
    Lifetime(String),
    TypeName(String),
}

impl View for TypeArg {
    type V = TypeArgV;

    open spec fn view(&self) -> TypeArgV {
        match self {
            TypeArg::Lifetime(s) => TypeArgV::Lifetime(s@),
            TypeArg::TypeName(s) => TypeArgV::TypeName(s@),
        }
    }
}

impl Clone for TypeArg {
    fn clone(&self) -> (r: TypeArg)
        ensures
            r@ == self@,
    {
        match self {
            TypeArg::Lifetime(s) => TypeArg::Lifetime(s.clone()),
            TypeArg::TypeName(s) => TypeArg::TypeName(s.clone()),
        }
    }
}

/// Whether a generic argument is a lifetime.
pub open spec fn is_lifetime(a: TypeArgV) -> bool {
    a is Lifetime
}

/// The mathematical value of a [`TypeRef`].
#[verifier::ext_equal]
pub struct TypeRefV {
    pub segments: Seq<Seq<char>>,
    pub args: Seq<TypeArgV>,
}

/// A type reference: a non-empty path (`prefix::Advance`) and its generic
/// arguments (`PassCar<'a, T>`).
pub struct TypeRef {
    pub segments: Vec<String>,
    pub args: Vec<TypeArg>,
}

impl View for TypeRef {
    type V = TypeRefV;

    open spec fn view(&self) -> TypeRefV {
        TypeRefV { segments: self.segments.deep_view(), args: self.args@.map_values(|a: TypeArg| a@) }
    }
}

impl TypeRef {
    /// A type reference always has at least one path segment.
    pub open spec fn wf(&self) -> bool {
        self@.segments.len() >= 1
    }
}

/// Clones a list of strings.
pub fn clone_string_vec(v: &Vec<String>) -> (r: Vec<String>)
    ensures
        r.deep_view() == v.deep_view(),
{
    let mut r: Vec<String> = Vec::new();
    let mut i: usize = 0;
    while i < v.len()
        invariant
            i <= v.len(),
            r.deep_view() == v.deep_view().take(i as int),
        decreases v.len() - i,
    {
        r.push(v[i].clone());
        proof {
            assert(v.deep_view().take(i + 1 as int) =~= v.deep_view().take(i as int).push(
                v@[i as int]@,
            ));
            assert(r.deep_view() =~= v.deep_view().take(i + 1 as int));
        }
        i += 1;
    }
    assert(v.deep_view().take(v@.len() as int) =~= v.deep_view());
    r
}

/// Clones a list of generic arguments.
pub fn clone_args(v: &Vec<TypeArg>) -> (r: Vec<TypeArg>)
    ensures
        r@.map_values(|a: TypeArg| a@) == v@.map_values(|a: TypeArg| a@),
{
    let mut r: Vec<TypeArg> = Vec::new();
    let mut i: usize = 0;
    while i < v.len()
        invariant
            i <= v.len(),
            r@.map_values(|a: TypeArg| a@) == v@.take(i as int).map_values(|a: TypeArg| a@),
        decreases v.len() - i,
    {
        let ghost prev = r@;
        r.push(v[i].clone());
        proof {
            let f = |a: TypeArg| a@;
            assert(r@.map_values(f) =~= prev.map_values(f).push(v@[i as int]@));
            assert(v@.take(i + 1 as int).map_values(f) =~= v@.take(i as int).map_values(f).push(
                v@[i as int]@,
            ));
        }
        i += 1;
    }
    assert(v@.take(v@.len() as int) =~= v@);
    r
}

impl Clone for TypeRef {
    fn clone(&self) -> (r: TypeRef)
        ensures
            r@ == self@,
    {
        let r = TypeRef { segments: clone_string_vec(&self.segments), args: clone_args(&self.args) };
        proof {
            assert(r@ =~= self@);
        }
        r
    }
}

/// The last path segment of a type reference (`Advance` of `prefix::Advance`).
pub fn type_last_ident(t: &TypeRef) -> (r: &String)
    requires
        t.wf(),
    ensures
        r@ == t@.segments.last(),
{
    &t.segments[t.segments.len() - 1]
}

/// The snake-case form of a type reference's last path segment, used to name
/// the generated dispatch methods.
pub fn type_to_snake(t: &TypeRef) -> (r: String)
    requires
        t.wf(),
    ensures
        r@ == snake_of(t@.segments.last()),
{
    to_snake(type_last_ident(t).as_str())
}

/// The generic arguments of a type reference.
pub fn type_args(t: &TypeRef) -> (r: Vec<TypeArg>)
    ensures
        r@.map_values(|a: TypeArg| a@) == t@.args,
{
    clone_args(&t.args)
}

/// Lifetimes first, then the other arguments, each group in its given order.
pub open spec fn reorder_spec(args: Seq<TypeArgV>) -> Seq<TypeArgV> {
    args.filter(|a: TypeArgV| is_lifetime(a)) + args.filter(|a: TypeArgV| !is_lifetime(a))
}

/// Reorders generic arguments so that lifetimes are emitted before the other
/// parameters, keeping each group's relative order.
pub fn reorder_type_arguments(args: Vec<TypeArg>) -> (r: Vec<TypeArg>)
    ensures
        r@.map_values(|a: TypeArg| a@) == reorder_spec(args@.map_values(|a: TypeArg| a@)),
{
    let ghost av = args@.map_values(|a: TypeArg| a@);
    let ghost lifetimes = |a: TypeArgV| is_lifetime(a);
    let ghost others = |a: TypeArgV| !is_lifetime(a);
    let mut r: Vec<TypeArg> = Vec::new();
    let mut i: usize = 0;
    while i < args.len()
        invariant
            i <= args.len(),
            av == args@.map_values(|a: TypeArg| a@),
            lifetimes == (|a: TypeArgV| is_lifetime(a)),
            r@.map_values(|a: TypeArg| a@) == av.take(i as int).filter(lifetimes),
        decreases args.len() - i,
    {
        let keep = match &args[i] {
            TypeArg::Lifetime(_) => true,
            TypeArg::TypeName(_) => false,
        };
        let ghost prev = r@;
        if keep {
            r.push(args[i].clone());
        }
        proof {
            let f = |a: TypeArg| a@;
            assert(av.take(i + 1 as int).drop_last() =~= av.take(i as int));
            assert(av.take(i + 1 as int).last() == av[i as int]);
            reveal_with_fuel(Seq::filter, 2);
            if keep {
                assert(r@.map_values(f) =~= prev.map_values(f).push(av[i as int]));
            }
            assert(r@.map_values(f) =~= av.take(i + 1 as int).filter(lifetimes));
        }
        i += 1;
    }
    proof {
        reveal_with_fuel(Seq::filter, 2);
        assert(av.take(av.len() as int) =~= av);
        assert(av.take(0).filter(others) =~= Seq::<TypeArgV>::empty());
        assert(r@.map_values(|a: TypeArg| a@) =~= av.filter(lifetimes) + av.take(0).filter(
            others,
        ));
    }
    let mut j: usize = 0;
    while j < args.len()
        invariant
            j <= args.len(),
            av == args@.map_values(|a: TypeArg| a@),
            lifetimes == (|a: TypeArgV| is_lifetime(a)),
            others == (|a: TypeArgV| !is_lifetime(a)),
            r@.map_values(|a: TypeArg| a@) == av.filter(lifetimes) + av.take(j as int).filter(
                others,
            ),
        decreases args.len() - j,
    {
        let keep = match &args[j] {
            TypeArg::Lifetime(_) => false,
            TypeArg::TypeName(_) => true,
        };
        let ghost prev = r@;
        if keep {
            r.push(args[j].clone());
        }
        proof {
            let f = |a: TypeArg| a@;
            assert(av.take(j + 1 as int).drop_last() =~= av.take(j as int));
            assert(av.take(j + 1 as int).last() == av[j as int]);
            reveal_with_fuel(Seq::filter, 2);
            if keep {
                assert(r@.map_values(f) =~= prev.map_values(f).push(av[j as int]));
            }
            assert(r@.map_values(f) =~= av.filter(lifetimes) + av.take(j + 1 as int).filter(
                others,
            ));
        }
        j += 1;
    }
    proof {
        assert(av.take(av.len() as int) =~= av);
        assert(reorder_spec(av) == av.filter(lifetimes) + av.filter(others));
    }
    r
}

/// Whether `args` already contains an argument with the same view.
pub fn args_contain(args: &Vec<TypeArg>, a: &TypeArg) -> (r: bool)
    ensures
        r == args@.map_values(|x: TypeArg| x@).contains(a@),
{
    let ghost av = args@.map_values(|x: TypeArg| x@);
    let mut i: usize = 0;
    while i < args.len()
        invariant
            i <= args.len(),
            av == args@.map_values(|x: TypeArg| x@),
            forall|k: int| 0 <= k < i ==> av[k] != a@,
        decreases args.len() - i,
    {
        let same = match (&args[i], a) {
            (TypeArg::Lifetime(x), TypeArg::Lifetime(y)) => str_eq(x.as_str(), y.as_str()),
            (TypeArg::TypeName(x), TypeArg::TypeName(y)) => str_eq(x.as_str(), y.as_str()),
            _ => false,
        };
        if same {
            assert(av[i as int] == a@);
            return true;
        }
        i += 1;
    }
    assert(!av.contains(a@));
    false
}

/// The text of one generic argument.
pub open spec fn type_arg_text(a: TypeArgV) -> Seq<char> {
    match a {
        TypeArgV::Lifetime(s) => "'"@ + s,
        TypeArgV::TypeName(s) => s,
    }
}

/// The text of a generic argument list: empty when there are no arguments,
/// `<a, b, ...>` otherwise.
pub open spec fn type_args_text(args: Seq<TypeArgV>) -> Seq<char> {
    if args.len() == 0 {
        Seq::<char>::empty()
    } else {
        "<"@ + join_with(args.map_values(|a: TypeArgV| type_arg_text(a)), ", "@) + ">"@
    }
}

/// The full text of a type reference: path segments joined by `::`, followed
/// by its generic argument list.
pub open spec fn type_text(t: TypeRefV) -> Seq<char> {
    join_with(t.segments, "::"@) + type_args_text(t.args)
}

fn render_type_arg(a: &TypeArg) -> (r: String)
    ensures
        r@ == type_arg_text(a@),
{
    match a {
        TypeArg::Lifetime(s) => {
            let mut r = String::from_str("'");
            r.append(s.as_str());
            r
        },
        TypeArg::TypeName(s) => s.clone(),
    }
}

/// Renders a generic argument list.
pub fn render_type_args(args: &Vec<TypeArg>) -> (r: String)
    ensures
        r@ == type_args_text(args@.map_values(|a: TypeArg| a@)),
{
    let ghost av = args@.map_values(|a: TypeArg| a@);
    let ghost texts = av.map_values(|a: TypeArgV| type_arg_text(a));
    if args.len() == 0 {
        assert(av.len() == 0);
        return String::new();
    }
    let mut r = String::from_str("<");
    let mut i: usize = 0;
    while i < args.len()
        invariant
            args.len() >= 1,
            i <= args.len(),
            av == args@.map_values(|a: TypeArg| a@),
            texts == av.map_values(|a: TypeArgV| type_arg_text(a)),
            r@ == "<"@ + join_with(texts.take(i as int), ", "@),
        decreases args.len() - i,
    {
        if i > 0 {
            r.append(", ");
        }
        let piece = render_type_arg(&args[i]);
        r.append(piece.as_str());
        proof {
            assert(texts.take(i + 1 as int).drop_last() =~= texts.take(i as int));
            assert(texts.take(i + 1 as int).last() == texts[i as int]);
            if i == 0 {
                assert(join_with(texts.take(1), ", "@) == texts[0]);
            }
            assert(r@ =~= "<"@ + join_with(texts.take(i + 1 as int), ", "@));
        }
        i += 1;
    }
    r.append(">");
    proof {
        assert(texts.take(texts.len() as int) =~= texts);
        assert(r@ =~= type_args_text(av));
    }
    r
}

/// Renders a type reference.
pub fn render_type(t: &TypeRef) -> (r: String)
    requires
        t.wf(),
    ensures
        r@ == type_text(t@),
{
    let ghost segs = t@.segments;
    let mut r = String::new();
    let mut i: usize = 0;
    while i < t.segments.len()
        invariant
            t.wf(),
            segs == t@.segments,
            i <= t.segments.len(),
            r@ == join_with(segs.take(i as int), "::"@),
        decreases t.segments.len() - i,
    {
        if i > 0 {
            r.append("::");
        }
        r.append(t.segments[i].as_str());
        proof {
            assert(segs.take(i + 1 as int).drop_last() =~= segs.take(i as int));
            assert(segs.take(i + 1 as int).last() == segs[i as int]);
            if i == 0 {
                assert(join_with(segs.take(1), "::"@) == segs[0]);
            }
            assert(r@ =~= join_with(segs.take(i + 1 as int), "::"@));
        }
        i += 1;
    }
    let args = render_type_args(&t.args);
    r.append(args.as_str());
    proof {
        assert(segs.take(segs.len() as int) =~= segs);
        assert(r@ =~= type_text(t@));
    }
    r
}

} // verus!
