//! Which ids a signature names.

use rustdoc_types::{AssocItemConstraint, AssocItemConstraintKind, Function, GenericArg, GenericArgs};
use rustdoc_types::{GenericBound, GenericParamDef, GenericParamDefKind, Path, PolyTrait, Term, Type};
use rustdoc_types::WherePredicate;
use vstd::prelude::*;

use crate::laws::basics::lemma_contains_sum;
use crate::rustdoc::{arg_ids, arg_list_ids, args_ids, bound_ids, bounds_ids, constraint_ids};
use crate::rustdoc::{constraints_ids, function_ids, inputs_ids, param_ids, params_ids, path_ids};
use crate::rustdoc::{poly_ids, polys_ids, predicate_ids, predicates_ids, term_ids, type_ids, types_ids};

verus! {

/// Some type of the list names the id.
pub open spec fn some_type_names(s: Seq<Type>, binders: bool, id: u32) -> bool {
    exists|i: int| 0 <= i < s.len() && type_ids(#[trigger] s[i], binders).contains(id)
}

/// Some input of the list names the id.
pub open spec fn some_input_names(s: Seq<(String, Type)>, binders: bool, id: u32) -> bool {
    exists|i: int| 0 <= i < s.len() && type_ids((#[trigger] s[i]).1, binders).contains(id)
}

/// Some argument of the list names the id.
pub open spec fn some_arg_names(s: Seq<GenericArg>, binders: bool, id: u32) -> bool {
    exists|i: int| 0 <= i < s.len() && arg_ids(#[trigger] s[i], binders).contains(id)
}

/// Some constraint of the list names the id.
pub open spec fn some_constraint_names(s: Seq<AssocItemConstraint>, binders: bool, id: u32) -> bool {
    exists|i: int| 0 <= i < s.len() && constraint_ids(#[trigger] s[i], binders).contains(id)
}

/// Some bound of the list names the id.
pub open spec fn some_bound_names(s: Seq<GenericBound>, binders: bool, id: u32) -> bool {
    exists|i: int| 0 <= i < s.len() && bound_ids(#[trigger] s[i], binders).contains(id)
}

/// Some trait of the list names the id.
pub open spec fn some_poly_names(s: Seq<PolyTrait>, binders: bool, id: u32) -> bool {
    exists|i: int| 0 <= i < s.len() && poly_ids(#[trigger] s[i], binders).contains(id)
}

/// Some parameter of the list names the id.
pub open spec fn some_param_names(s: Seq<GenericParamDef>, binders: bool, id: u32) -> bool {
    exists|i: int| 0 <= i < s.len() && param_ids(#[trigger] s[i], binders).contains(id)
}

/// Some predicate of the list names the id.
pub open spec fn some_predicate_names(s: Seq<WherePredicate>, binders: bool, id: u32) -> bool {
    exists|i: int| 0 <= i < s.len() && predicate_ids(#[trigger] s[i], binders).contains(id)
}

/// Optional generic arguments name the id.
pub open spec fn optional_args_name(a: Option<Box<GenericArgs>>, binders: bool, id: u32) -> bool {
    match a {
        Some(x) => args_ids(*x, binders).contains(id),
        None => false,
    }
}

/// An optional type names the id.
pub open spec fn optional_type_names(t: Option<Type>, binders: bool, id: u32) -> bool {
    match t {
        Some(x) => type_ids(x, binders).contains(id),
        None => false,
    }
}

proof fn lemma_types_ids(s: Seq<Type>, binders: bool, id: u32)
    ensures
        types_ids(s, binders).contains(id) <==> some_type_names(s, binders, id),
    decreases s.len(),
{
    if s.len() > 0 {
        let f = s.drop_last();
        lemma_types_ids(f, binders, id);
        lemma_contains_sum(types_ids(f, binders), type_ids(s.last(), binders), id);
        assert(s[s.len() - 1] == s.last());
        if some_type_names(f, binders, id) {
            let i = choose|i: int|
                0 <= i < f.len() && type_ids(#[trigger] f[i], binders).contains(id);
            assert(s[i] == f[i]);
        }
        if some_type_names(s, binders, id) {
            let i = choose|i: int|
                0 <= i < s.len() && type_ids(#[trigger] s[i], binders).contains(id);
            if i < f.len() {
                assert(f[i] == s[i]);
            }
        }
    }
}

proof fn lemma_inputs_ids(s: Seq<(String, Type)>, binders: bool, id: u32)
    ensures
        inputs_ids(s, binders).contains(id) <==> some_input_names(s, binders, id),
    decreases s.len(),
{
    if s.len() > 0 {
        let f = s.drop_last();
        lemma_inputs_ids(f, binders, id);
        lemma_contains_sum(inputs_ids(f, binders), type_ids(s.last().1, binders), id);
        assert(s[s.len() - 1] == s.last());
        if some_input_names(f, binders, id) {
            let i = choose|i: int|
                0 <= i < f.len() && type_ids((#[trigger] f[i]).1, binders).contains(id);
            assert(s[i] == f[i]);
        }
        if some_input_names(s, binders, id) {
            let i = choose|i: int|
                0 <= i < s.len() && type_ids((#[trigger] s[i]).1, binders).contains(id);
            if i < f.len() {
                assert(f[i] == s[i]);
            }
        }
    }
}

proof fn lemma_arg_list_ids(s: Seq<GenericArg>, binders: bool, id: u32)
    ensures
        arg_list_ids(s, binders).contains(id) <==> some_arg_names(s, binders, id),
    decreases s.len(),
{
    if s.len() > 0 {
        let f = s.drop_last();
        lemma_arg_list_ids(f, binders, id);
        lemma_contains_sum(arg_list_ids(f, binders), arg_ids(s.last(), binders), id);
        assert(s[s.len() - 1] == s.last());
        if some_arg_names(f, binders, id) {
            let i = choose|i: int|
                0 <= i < f.len() && arg_ids(#[trigger] f[i], binders).contains(id);
            assert(s[i] == f[i]);
        }
        if some_arg_names(s, binders, id) {
            let i = choose|i: int|
                0 <= i < s.len() && arg_ids(#[trigger] s[i], binders).contains(id);
            if i < f.len() {
                assert(f[i] == s[i]);
            }
        }
    }
}

proof fn lemma_constraints_ids(s: Seq<AssocItemConstraint>, binders: bool, id: u32)
    ensures
        constraints_ids(s, binders).contains(id) <==> some_constraint_names(s, binders, id),
    decreases s.len(),
{
    if s.len() > 0 {
        let f = s.drop_last();
        lemma_constraints_ids(f, binders, id);
        lemma_contains_sum(constraints_ids(f, binders), constraint_ids(s.last(), binders), id);
        assert(s[s.len() - 1] == s.last());
        if some_constraint_names(f, binders, id) {
            let i = choose|i: int|
                0 <= i < f.len() && constraint_ids(#[trigger] f[i], binders).contains(id);
            assert(s[i] == f[i]);
        }
        if some_constraint_names(s, binders, id) {
            let i = choose|i: int|
                0 <= i < s.len() && constraint_ids(#[trigger] s[i], binders).contains(id);
            if i < f.len() {
                assert(f[i] == s[i]);
            }
        }
    }
}

proof fn lemma_bounds_ids(s: Seq<GenericBound>, binders: bool, id: u32)
    ensures
        bounds_ids(s, binders).contains(id) <==> some_bound_names(s, binders, id),
    decreases s.len(),
{
    if s.len() > 0 {
        let f = s.drop_last();
        lemma_bounds_ids(f, binders, id);
        lemma_contains_sum(bounds_ids(f, binders), bound_ids(s.last(), binders), id);
        assert(s[s.len() - 1] == s.last());
        if some_bound_names(f, binders, id) {
            let i = choose|i: int|
                0 <= i < f.len() && bound_ids(#[trigger] f[i], binders).contains(id);
            assert(s[i] == f[i]);
        }
        if some_bound_names(s, binders, id) {
            let i = choose|i: int|
                0 <= i < s.len() && bound_ids(#[trigger] s[i], binders).contains(id);
            if i < f.len() {
                assert(f[i] == s[i]);
            }
        }
    }
}

proof fn lemma_polys_ids(s: Seq<PolyTrait>, binders: bool, id: u32)
    ensures
        polys_ids(s, binders).contains(id) <==> some_poly_names(s, binders, id),
    decreases s.len(),
{
    if s.len() > 0 {
        let f = s.drop_last();
        lemma_polys_ids(f, binders, id);
        lemma_contains_sum(polys_ids(f, binders), poly_ids(s.last(), binders), id);
        assert(s[s.len() - 1] == s.last());
        if some_poly_names(f, binders, id) {
            let i = choose|i: int|
                0 <= i < f.len() && poly_ids(#[trigger] f[i], binders).contains(id);
            assert(s[i] == f[i]);
        }
        if some_poly_names(s, binders, id) {
            let i = choose|i: int|
                0 <= i < s.len() && poly_ids(#[trigger] s[i], binders).contains(id);
            if i < f.len() {
                assert(f[i] == s[i]);
            }
        }
    }
}

proof fn lemma_params_ids(s: Seq<GenericParamDef>, binders: bool, id: u32)
    ensures
        params_ids(s, binders).contains(id) <==> some_param_names(s, binders, id),
    decreases s.len(),
{
    if s.len() > 0 {
        let f = s.drop_last();
        lemma_params_ids(f, binders, id);
        lemma_contains_sum(params_ids(f, binders), param_ids(s.last(), binders), id);
        assert(s[s.len() - 1] == s.last());
        if some_param_names(f, binders, id) {
            let i = choose|i: int|
                0 <= i < f.len() && param_ids(#[trigger] f[i], binders).contains(id);
            assert(s[i] == f[i]);
        }
        if some_param_names(s, binders, id) {
            let i = choose|i: int|
                0 <= i < s.len() && param_ids(#[trigger] s[i], binders).contains(id);
            if i < f.len() {
                assert(f[i] == s[i]);
            }
        }
    }
}

proof fn lemma_predicates_ids(s: Seq<WherePredicate>, binders: bool, id: u32)
    ensures
        predicates_ids(s, binders).contains(id) <==> some_predicate_names(s, binders, id),
    decreases s.len(),
{
    if s.len() > 0 {
        let f = s.drop_last();
        lemma_predicates_ids(f, binders, id);
        lemma_contains_sum(predicates_ids(f, binders), predicate_ids(s.last(), binders), id);
        assert(s[s.len() - 1] == s.last());
        if some_predicate_names(f, binders, id) {
            let i = choose|i: int|
                0 <= i < f.len() && predicate_ids(#[trigger] f[i], binders).contains(id);
            assert(s[i] == f[i]);
        }
        if some_predicate_names(s, binders, id) {
            let i = choose|i: int|
                0 <= i < s.len() && predicate_ids(#[trigger] s[i], binders).contains(id);
            if i < f.len() {
                assert(f[i] == s[i]);
            }
        }
    }
}

/// A type names an id exactly when one of its parts does: the types it is made of, its path, the
/// traits it stands for, the inputs and the output of a function pointer. The parameters that a
/// function pointer binds count only where binders do.
pub proof fn law_ids_of_a_type(ty: Type, binders: bool, id: u32)
    ensures
        type_ids(ty, binders).contains(id) <==> match ty {
            Type::ResolvedPath(p) => path_ids(p, binders).contains(id),
            Type::BorrowedRef { type_, .. } => type_ids(*type_, binders).contains(id),
            Type::Slice(t) => type_ids(*t, binders).contains(id),
            Type::RawPointer { type_, .. } => type_ids(*type_, binders).contains(id),
            Type::Array { type_, .. } => type_ids(*type_, binders).contains(id),
            Type::Tuple(types) => some_type_names(types@, binders, id),
            Type::QualifiedPath { self_type, trait_, args, .. } => type_ids(
                *self_type,
                binders,
            ).contains(id) || (match trait_ {
                Some(p) => path_ids(p, binders).contains(id),
                None => false,
            }) || optional_args_name(args, binders, id),
            Type::FunctionPointer(f) => some_input_names(f.sig.inputs@, binders, id)
                || optional_type_names(f.sig.output, binders, id) || (binders && some_param_names(
                f.generic_params@,
                binders,
                id,
            )),
            Type::DynTrait(d) => some_poly_names(d.traits@, binders, id),
            Type::ImplTrait(bounds) => some_bound_names(bounds@, binders, id),
            _ => false,
        },
{
    match ty {
        Type::Tuple(types) => lemma_types_ids(types@, binders, id),
        Type::QualifiedPath { self_type, trait_, args, .. } => {
            let a = type_ids(*self_type, binders);
            let b = match trait_ {
                Some(p) => path_ids(p, binders),
                None => seq![],
            };
            let c = match args {
                Some(x) => args_ids(*x, binders),
                None => seq![],
            };
            lemma_contains_sum(a, b, id);
            lemma_contains_sum(a + b, c, id);
        },
        Type::FunctionPointer(f) => {
            let a = inputs_ids(f.sig.inputs@, binders);
            let b = match f.sig.output {
                Some(t) => type_ids(t, binders),
                None => seq![],
            };
            let c = if binders {
                params_ids(f.generic_params@, binders)
            } else {
                seq![]
            };
            lemma_inputs_ids(f.sig.inputs@, binders, id);
            lemma_params_ids(f.generic_params@, binders, id);
            lemma_contains_sum(a, b, id);
            lemma_contains_sum(a + b, c, id);
        },
        Type::DynTrait(d) => lemma_polys_ids(d.traits@, binders, id),
        Type::ImplTrait(bounds) => lemma_bounds_ids(bounds@, binders, id),
        _ => {},
    }
}

/// A path names its own id and those of its arguments; arguments name what their types,
/// constraints, inputs and outputs name.
pub proof fn law_ids_of_a_path(p: Path, a: GenericArgs, binders: bool, id: u32)
    ensures
        path_ids(p, binders).contains(id) <==> p.id.0 == id || optional_args_name(
            p.args,
            binders,
            id,
        ),
        args_ids(a, binders).contains(id) <==> match a {
            GenericArgs::AngleBracketed { args, constraints } => some_arg_names(
                args@,
                binders,
                id,
            ) || some_constraint_names(constraints@, binders, id),
            GenericArgs::Parenthesized { inputs, output } => some_type_names(inputs@, binders, id)
                || optional_type_names(output, binders, id),
            GenericArgs::ReturnTypeNotation => false,
        },
{
    let own = seq![p.id.0];
    let more = match p.args {
        Some(x) => args_ids(*x, binders),
        None => seq![],
    };
    lemma_contains_sum(own, more, id);
    assert(own[0] == p.id.0);
    assert(own.contains(id) <==> p.id.0 == id);
    match a {
        GenericArgs::AngleBracketed { args, constraints } => {
            lemma_arg_list_ids(args@, binders, id);
            lemma_constraints_ids(constraints@, binders, id);
            lemma_contains_sum(
                arg_list_ids(args@, binders),
                constraints_ids(constraints@, binders),
                id,
            );
        },
        GenericArgs::Parenthesized { inputs, output } => {
            let b = match output {
                Some(t) => type_ids(t, binders),
                None => seq![],
            };
            lemma_types_ids(inputs@, binders, id);
            lemma_contains_sum(types_ids(inputs@, binders), b, id);
        },
        GenericArgs::ReturnTypeNotation => {},
    }
}

/// Arguments, terms, constraints, bounds, traits and parameters name what their types and paths
/// name; the parameters that a bound or a trait binds count only where binders do.
pub proof fn law_ids_of_parts(
    a: GenericArg,
    t: Term,
    c: AssocItemConstraint,
    b: GenericBound,
    q: PolyTrait,
    g: GenericParamDef,
    binders: bool,
    id: u32,
)
    ensures
        arg_ids(a, binders).contains(id) <==> match a {
            GenericArg::Type(ty) => type_ids(ty, binders).contains(id),
            _ => false,
        },
        term_ids(t, binders).contains(id) <==> match t {
            Term::Type(ty) => type_ids(ty, binders).contains(id),
            Term::Constant(_) => false,
        },
        constraint_ids(c, binders).contains(id) <==> optional_args_name(c.args, binders, id) || (
        match c.binding {
            AssocItemConstraintKind::Equality(x) => term_ids(x, binders).contains(id),
            AssocItemConstraintKind::Constraint(bounds) => some_bound_names(bounds@, binders, id),
        }),
        bound_ids(b, binders).contains(id) <==> match b {
            GenericBound::TraitBound { trait_, generic_params, .. } => path_ids(
                trait_,
                binders,
            ).contains(id) || (binders && some_param_names(generic_params@, binders, id)),
            _ => false,
        },
        poly_ids(q, binders).contains(id) <==> path_ids(q.trait_, binders).contains(id) || (binders
            && some_param_names(q.generic_params@, binders, id)),
        param_ids(g, binders).contains(id) <==> match g.kind {
            GenericParamDefKind::Type { bounds, default, .. } => some_bound_names(
                bounds@,
                binders,
                id,
            ) || optional_type_names(default, binders, id),
            GenericParamDefKind::Const { type_, .. } => type_ids(type_, binders).contains(id),
            GenericParamDefKind::Lifetime { .. } => false,
        },
{
    let x = match c.args {
        Some(a) => args_ids(*a, binders),
        None => seq![],
    };
    match c.binding {
        AssocItemConstraintKind::Equality(t) => lemma_contains_sum(x, term_ids(t, binders), id),
        AssocItemConstraintKind::Constraint(bounds) => {
            lemma_bounds_ids(bounds@, binders, id);
            lemma_contains_sum(x, bounds_ids(bounds@, binders), id);
        },
    }
    match b {
        GenericBound::TraitBound { trait_, generic_params, .. } => {
            let y = if binders {
                params_ids(generic_params@, binders)
            } else {
                seq![]
            };
            lemma_params_ids(generic_params@, binders, id);
            lemma_contains_sum(path_ids(trait_, binders), y, id);
        },
        _ => {},
    }
    let y = if binders {
        params_ids(q.generic_params@, binders)
    } else {
        seq![]
    };
    lemma_params_ids(q.generic_params@, binders, id);
    lemma_contains_sum(path_ids(q.trait_, binders), y, id);
    match g.kind {
        GenericParamDefKind::Type { bounds, default, .. } => {
            let z = match default {
                Some(t) => type_ids(t, binders),
                None => seq![],
            };
            lemma_bounds_ids(bounds@, binders, id);
            lemma_contains_sum(bounds_ids(bounds@, binders), z, id);
        },
        _ => {},
    }
}

/// The signature of a function names an id exactly when an input, the output, a parameter or a
/// predicate does; a predicate when its types, bounds or parameters do.
pub proof fn law_ids_of_a_function(f: Function, w: WherePredicate, binders: bool, id: u32)
    ensures
        function_ids(f).contains(id) <==> some_input_names(f.sig.inputs@, true, id)
            || optional_type_names(f.sig.output, true, id) || some_param_names(
            f.generics.params@,
            true,
            id,
        ) || some_predicate_names(f.generics.where_predicates@, true, id),
        predicate_ids(w, binders).contains(id) <==> match w {
            WherePredicate::BoundPredicate { type_, bounds, generic_params } => type_ids(
                type_,
                binders,
            ).contains(id) || some_bound_names(bounds@, binders, id) || some_param_names(
                generic_params@,
                binders,
                id,
            ),
            WherePredicate::EqPredicate { lhs, rhs } => type_ids(lhs, binders).contains(id)
                || term_ids(rhs, binders).contains(id),
            WherePredicate::LifetimePredicate { .. } => false,
        },
{
    let a = inputs_ids(f.sig.inputs@, true);
    let b = match f.sig.output {
        Some(t) => type_ids(t, true),
        None => seq![],
    };
    let c = params_ids(f.generics.params@, true);
    let d = predicates_ids(f.generics.where_predicates@, true);
    lemma_inputs_ids(f.sig.inputs@, true, id);
    lemma_params_ids(f.generics.params@, true, id);
    lemma_predicates_ids(f.generics.where_predicates@, true, id);
    lemma_contains_sum(a, b, id);
    lemma_contains_sum(a + b, c, id);
    lemma_contains_sum(a + b + c, d, id);
    match w {
        WherePredicate::BoundPredicate { type_, bounds, generic_params } => {
            lemma_bounds_ids(bounds@, binders, id);
            lemma_params_ids(generic_params@, binders, id);
            lemma_contains_sum(type_ids(type_, binders), bounds_ids(bounds@, binders), id);
            lemma_contains_sum(
                type_ids(type_, binders) + bounds_ids(bounds@, binders),
                params_ids(generic_params@, binders),
                id,
            );
        },
        WherePredicate::EqPredicate { lhs, rhs } => {
            lemma_contains_sum(type_ids(lhs, binders), term_ids(rhs, binders), id);
        },
        WherePredicate::LifetimePredicate { .. } => {},
    }
}

}
