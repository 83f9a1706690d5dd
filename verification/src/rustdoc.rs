//! The part of a rustdoc JSON document that the analyses read.

use vstd::prelude::*;

use rustdoc_types::ItemKind as PathKind;
use rustdoc_types::{AssocItemConstraint, AssocItemConstraintKind, Function, GenericArg, GenericArgs};
use rustdoc_types::{GenericBound, GenericParamDef, GenericParamDefKind, ItemEnum, ItemSummary, Path};
use rustdoc_types::{PolyTrait, Term, Type, Visibility, WherePredicate};

use crate::table::{keys_distinct, value_of, Positions};
use crate::text::opt_view;

verus! {

/// Declares `rustdoc_types::ItemKind`, the kind of an item in the table of paths, with its variants.
#[verifier::external_type_specification]
pub struct ExPathKind(PathKind);

/// Declares `rustdoc_types::Id`, the id of an item, with its contents.
#[verifier::external_type_specification]
pub struct ExId(rustdoc_types::Id);

/// Declares `rustdoc_types::Visibility`, where an item can be seen from, with its contents.
#[verifier::external_type_specification]
pub struct ExVisibility(rustdoc_types::Visibility);

/// Declares `rustdoc_types::Path`, a path in a signature, with its contents.
#[verifier::external_type_specification]
pub struct ExPath(rustdoc_types::Path);

/// Declares `rustdoc_types::GenericArgs`, the arguments of a path, with its contents.
#[verifier::external_type_specification]
pub struct ExGenericArgs(rustdoc_types::GenericArgs);

/// Declares `rustdoc_types::GenericArg`, one argument between angle brackets, with its contents.
#[verifier::external_type_specification]
pub struct ExGenericArg(rustdoc_types::GenericArg);

/// Declares `rustdoc_types::AssocItemConstraint`, a constraint on an associated item, with its contents.
#[verifier::external_type_specification]
pub struct ExAssocItemConstraint(rustdoc_types::AssocItemConstraint);

/// Declares `rustdoc_types::AssocItemConstraintKind`, how an associated item is constrained, with its contents.
#[verifier::external_type_specification]
pub struct ExAssocItemConstraintKind(rustdoc_types::AssocItemConstraintKind);

/// Declares `rustdoc_types::Term`, a type or a constant, with its contents.
#[verifier::external_type_specification]
pub struct ExTerm(rustdoc_types::Term);

/// Declares `rustdoc_types::GenericBound`, a bound on a type, with its contents.
#[verifier::external_type_specification]
pub struct ExGenericBound(rustdoc_types::GenericBound);

/// Declares `rustdoc_types::GenericParamDef`, a parameter of an item, with its contents.
#[verifier::external_type_specification]
pub struct ExGenericParamDef(rustdoc_types::GenericParamDef);

/// Declares `rustdoc_types::GenericParamDefKind`, the kind of a parameter, with its contents.
#[verifier::external_type_specification]
pub struct ExGenericParamDefKind(rustdoc_types::GenericParamDefKind);

/// Declares `rustdoc_types::PolyTrait`, a trait with the parameters that it binds, with its contents.
#[verifier::external_type_specification]
pub struct ExPolyTrait(rustdoc_types::PolyTrait);

/// Declares `rustdoc_types::DynTrait`, a trait object, with its contents.
#[verifier::external_type_specification]
pub struct ExDynTrait(rustdoc_types::DynTrait);

/// Declares `rustdoc_types::FunctionSignature`, the types in a function's signature, with its contents.
#[verifier::external_type_specification]
pub struct ExFunctionSignature(rustdoc_types::FunctionSignature);

/// Declares `rustdoc_types::FunctionPointer`, a function pointer type, with its contents.
#[verifier::external_type_specification]
pub struct ExFunctionPointer(rustdoc_types::FunctionPointer);

/// Declares `rustdoc_types::Type`, a type, with its contents.
#[verifier::external_type_specification]
pub struct ExType(rustdoc_types::Type);

/// Declares `rustdoc_types::WherePredicate`, a predicate of a `where` clause, with its contents.
#[verifier::external_type_specification]
pub struct ExWherePredicate(rustdoc_types::WherePredicate);

/// Declares `rustdoc_types::Generics`, the parameters and predicates of an item, with its contents.
#[verifier::external_type_specification]
pub struct ExGenerics(rustdoc_types::Generics);

/// Declares `rustdoc_types::Function`, a function, with its contents.
#[verifier::external_type_specification]
pub struct ExFunction(rustdoc_types::Function);

/// Declares `rustdoc_types::Impl`, an impl block, with its contents.
#[verifier::external_type_specification]
pub struct ExImpl(rustdoc_types::Impl);

/// Declares `rustdoc_types::Use`, an import, with its contents.
#[verifier::external_type_specification]
pub struct ExUse(rustdoc_types::Use);

/// Declares `rustdoc_types::Struct`, a struct, with its contents.
#[verifier::external_type_specification]
pub struct ExStruct(rustdoc_types::Struct);

/// Declares `rustdoc_types::Enum`, an enum, with its contents.
#[verifier::external_type_specification]
pub struct ExEnum(rustdoc_types::Enum);

/// Declares `rustdoc_types::Trait`, a trait, with its contents.
#[verifier::external_type_specification]
pub struct ExTrait(rustdoc_types::Trait);

/// Declares `rustdoc_types::TypeAlias`, a type alias, with its contents.
#[verifier::external_type_specification]
pub struct ExTypeAlias(rustdoc_types::TypeAlias);

/// Declares `rustdoc_types::ItemEnum`, what an item is, with its contents.
#[verifier::external_type_specification]
pub struct ExItemEnum(rustdoc_types::ItemEnum);

/// Declares `rustdoc_types::ItemSummary`, an entry of the table of paths, with its contents.
#[verifier::external_type_specification]
pub struct ExItemSummary(rustdoc_types::ItemSummary);

/// Declares `rustdoc_types::Constant`, a constant, of which nothing is read.
#[verifier::external_type_specification]
#[verifier::external_body]
pub struct ExConstant(rustdoc_types::Constant);

/// Declares `rustdoc_types::FunctionHeader`, the qualifiers of a function, of which nothing is read.
#[verifier::external_type_specification]
#[verifier::external_body]
pub struct ExFunctionHeader(rustdoc_types::FunctionHeader);

/// Declares `rustdoc_types::TraitBoundModifier`, what qualifies a bound, of which nothing is read.
#[verifier::external_type_specification]
#[verifier::external_body]
pub struct ExTraitBoundModifier(rustdoc_types::TraitBoundModifier);

/// Declares `rustdoc_types::PreciseCapturingArg`, an argument of `use<..>`, of which nothing is read.
#[verifier::external_type_specification]
#[verifier::external_body]
pub struct ExPreciseCapturingArg(rustdoc_types::PreciseCapturingArg);

/// Declares `rustdoc_types::ProvidedDefaultUnstable`, what makes a default unstable, of which nothing is read.
#[verifier::external_type_specification]
#[verifier::external_body]
pub struct ExProvidedDefaultUnstable(rustdoc_types::ProvidedDefaultUnstable);

/// Declares `rustdoc_types::StructKind`, the fields of a struct, of which nothing is read.
#[verifier::external_type_specification]
#[verifier::external_body]
pub struct ExStructKind(rustdoc_types::StructKind);

/// Declares `rustdoc_types::Module`, a module, of which nothing is read.
#[verifier::external_type_specification]
#[verifier::external_body]
pub struct ExModule(rustdoc_types::Module);

/// Declares `rustdoc_types::Union`, a union, of which nothing is read.
#[verifier::external_type_specification]
#[verifier::external_body]
pub struct ExUnion(rustdoc_types::Union);

/// Declares `rustdoc_types::Variant`, a variant of an enum, of which nothing is read.
#[verifier::external_type_specification]
#[verifier::external_body]
pub struct ExVariant(rustdoc_types::Variant);

/// Declares `rustdoc_types::TraitAlias`, an alias of traits, of which nothing is read.
#[verifier::external_type_specification]
#[verifier::external_body]
pub struct ExTraitAlias(rustdoc_types::TraitAlias);

/// Declares `rustdoc_types::Static`, a static item, of which nothing is read.
#[verifier::external_type_specification]
#[verifier::external_body]
pub struct ExStatic(rustdoc_types::Static);

/// Declares `rustdoc_types::ProcMacro`, a procedural macro, of which nothing is read.
#[verifier::external_type_specification]
#[verifier::external_body]
pub struct ExProcMacro(rustdoc_types::ProcMacro);

/// Declares `rustdoc_types::Primitive`, a primitive type, of which nothing is read.
#[verifier::external_type_specification]
#[verifier::external_body]
pub struct ExPrimitive(rustdoc_types::Primitive);

/// An item of the index.
#[derive(Debug)]
pub struct IndexItem {
    pub name: Option<String>,
    pub visibility: Visibility,
    pub inner: ItemEnum,
}

impl IndexItem {
    /// The item can be seen from everywhere.
    pub open spec fn public(self) -> bool {
        self.visibility is Public
    }

    /// Whether the item can be seen from everywhere.
    pub fn is_public(&self) -> (r: bool)
        ensures
            r == self.public(),
    {
        matches!(self.visibility, Visibility::Public)
    }
}

/// What a documented crate holds: its version, and its items and paths by their ids.
#[verifier::ext_equal]
pub struct DocContents {
    pub crate_version: Option<Seq<char>>,
    pub items: Map<u32, IndexItem>,
    pub summaries: Map<u32, ItemSummary>,
}

/// A documented crate.
#[derive(Debug)]
pub struct DocCrate {
    pub crate_version: Option<String>,
    pub index: Vec<(u32, IndexItem)>,
    pub paths: Vec<(u32, ItemSummary)>,
}

impl DocCrate {
    /// The item of the index with an id.
    pub open spec fn item(self, id: u32) -> Option<IndexItem> {
        value_of(self.index@, id)
    }

    /// The entry of the table of paths with an id.
    pub open spec fn summary(self, id: u32) -> Option<ItemSummary> {
        value_of(self.paths@, id)
    }

    /// What the crate holds.
    pub open spec fn contents(self) -> DocContents {
        DocContents {
            crate_version: opt_view(self.crate_version),
            items: Map::new(|id: u32| self.item(id) is Some, |id: u32| self.item(id)->0),
            summaries: Map::new(|id: u32| self.summary(id) is Some, |id: u32| self.summary(id)->0),
        }
    }

    /// No id occurs twice in the index, nor in the table of paths.
    pub open spec fn ids_distinct(self) -> bool {
        keys_distinct(self.index@) && keys_distinct(self.paths@)
    }
}

/// The contents of a crate are its items and paths, by their ids.
pub proof fn law_contents(k: DocCrate, id: u32)
    ensures
        k.item(id) == (if k.contents().items.dom().contains(id) {
            Some(k.contents().items[id])
        } else {
            None
        }),
        k.summary(id) == (if k.contents().summaries.dom().contains(id) {
            Some(k.contents().summaries[id])
        } else {
            None
        }),
        opt_view(k.crate_version) == k.contents().crate_version,
{
}

/// Where the entries of a crate are.
pub struct Lookup {
    index: Positions,
    paths: Positions,
}

impl Lookup {
    /// These are the places of the entries of `k`.
    pub closed spec fn of(&self, k: DocCrate) -> bool {
        self.index.of(k.index@) && self.paths.of(k.paths@)
    }

    /// The places of the entries of a crate.
    pub fn new(krate: &DocCrate) -> (r: Lookup)
        ensures
            r.of(*krate),
    {
        Lookup { index: Positions::new(&krate.index), paths: Positions::new(&krate.paths) }
    }

    /// The item of the index with an id.
    pub fn item<'a>(&self, krate: &'a DocCrate, id: u32) -> (r: Option<&'a IndexItem>)
        requires
            self.of(*krate),
        ensures
            match r {
                Some(x) => krate.item(id) == Some(*x),
                None => krate.item(id) is None,
            },
    {
        self.index.get(&krate.index, id)
    }

    /// The entry of the table of paths with an id.
    pub fn summary<'a>(&self, krate: &'a DocCrate, id: u32) -> (r: Option<&'a ItemSummary>)
        requires
            self.of(*krate),
        ensures
            match r {
                Some(x) => krate.summary(id) == Some(*x),
                None => krate.summary(id) is None,
            },
    {
        self.paths.get(&krate.paths, id)
    }
}

/// The ids that a type names, in the order in which it names them. With `binders`, those in
/// the parameters that traits and function pointers bind are among them.
pub open spec fn type_ids(ty: Type, binders: bool) -> Seq<u32>
    decreases ty,
{
    match ty {
        Type::ResolvedPath(p) => path_ids(p, binders),
        Type::BorrowedRef { type_, .. } => type_ids(*type_, binders),
        Type::Slice(t) => type_ids(*t, binders),
        Type::RawPointer { type_, .. } => type_ids(*type_, binders),
        Type::Array { type_, .. } => type_ids(*type_, binders),
        Type::Tuple(types) => types_ids(types@, binders),
        Type::QualifiedPath { self_type, trait_, args, .. } => type_ids(*self_type, binders) + (
        match trait_ {
            Some(p) => path_ids(p, binders),
            None => seq![],
        }) + (match args {
            Some(a) => args_ids(*a, binders),
            None => seq![],
        }),
        Type::FunctionPointer(f) => inputs_ids(f.sig.inputs@, binders) + (match f.sig.output {
            Some(t) => type_ids(t, binders),
            None => seq![],
        }) + (if binders {
            params_ids(f.generic_params@, binders)
        } else {
            seq![]
        }),
        Type::DynTrait(d) => polys_ids(d.traits@, binders),
        Type::ImplTrait(bounds) => bounds_ids(bounds@, binders),
        _ => seq![],
    }
}

/// The ids that a path names: its own, then those of its arguments.
pub open spec fn path_ids(p: Path, binders: bool) -> Seq<u32>
    decreases p,
{
    seq![p.id.0] + (match p.args {
        Some(a) => args_ids(*a, binders),
        None => seq![],
    })
}

/// The ids that generic arguments name.
pub open spec fn args_ids(a: GenericArgs, binders: bool) -> Seq<u32>
    decreases a,
{
    match a {
        GenericArgs::AngleBracketed { args, constraints } => arg_list_ids(args@, binders)
            + constraints_ids(constraints@, binders),
        GenericArgs::Parenthesized { inputs, output } => types_ids(inputs@, binders) + (
        match output {
            Some(t) => type_ids(t, binders),
            None => seq![],
        }),
        GenericArgs::ReturnTypeNotation => seq![],
    }
}

/// The ids that a generic argument names.
pub open spec fn arg_ids(a: GenericArg, binders: bool) -> Seq<u32>
    decreases a,
{
    match a {
        GenericArg::Type(t) => type_ids(t, binders),
        _ => seq![],
    }
}

/// The ids that a constraint names.
pub open spec fn constraint_ids(c: AssocItemConstraint, binders: bool) -> Seq<u32>
    decreases c,
{
    (match c.args {
        Some(a) => args_ids(*a, binders),
        None => seq![],
    }) + (match c.binding {
        AssocItemConstraintKind::Equality(t) => term_ids(t, binders),
        AssocItemConstraintKind::Constraint(bounds) => bounds_ids(bounds@, binders),
    })
}

/// The ids that a term names.
pub open spec fn term_ids(t: Term, binders: bool) -> Seq<u32>
    decreases t,
{
    match t {
        Term::Type(ty) => type_ids(ty, binders),
        Term::Constant(_) => seq![],
    }
}

/// The ids that a bound names.
pub open spec fn bound_ids(b: GenericBound, binders: bool) -> Seq<u32>
    decreases b,
{
    match b {
        GenericBound::TraitBound { trait_, generic_params, .. } => path_ids(trait_, binders) + (
        if binders {
            params_ids(generic_params@, binders)
        } else {
            seq![]
        }),
        _ => seq![],
    }
}

/// The ids that a trait with its bound parameters names.
pub open spec fn poly_ids(p: PolyTrait, binders: bool) -> Seq<u32>
    decreases p,
{
    path_ids(p.trait_, binders) + (if binders {
        params_ids(p.generic_params@, binders)
    } else {
        seq![]
    })
}

/// The ids that a parameter names.
pub open spec fn param_ids(p: GenericParamDef, binders: bool) -> Seq<u32>
    decreases p,
{
    match p.kind {
        GenericParamDefKind::Type { bounds, default, .. } => bounds_ids(bounds@, binders) + (
        match default {
            Some(t) => type_ids(t, binders),
            None => seq![],
        }),
        GenericParamDefKind::Const { type_, .. } => type_ids(type_, binders),
        GenericParamDefKind::Lifetime { .. } => seq![],
    }
}

/// The ids that the types of a list name.
pub open spec fn types_ids(s: Seq<Type>, binders: bool) -> Seq<u32>
    decreases s,
{
    if s.len() == 0 {
        seq![]
    } else {
        types_ids(s.drop_last(), binders) + type_ids(s.last(), binders)
    }
}

/// The ids that the types of the inputs of a function name.
pub open spec fn inputs_ids(s: Seq<(String, Type)>, binders: bool) -> Seq<u32>
    decreases s,
{
    if s.len() == 0 {
        seq![]
    } else {
        inputs_ids(s.drop_last(), binders) + type_ids(s.last().1, binders)
    }
}

/// The ids that the generic arguments of a list name.
pub open spec fn arg_list_ids(s: Seq<GenericArg>, binders: bool) -> Seq<u32>
    decreases s,
{
    if s.len() == 0 {
        seq![]
    } else {
        arg_list_ids(s.drop_last(), binders) + arg_ids(s.last(), binders)
    }
}

/// The ids that the constraints of a list name.
pub open spec fn constraints_ids(s: Seq<AssocItemConstraint>, binders: bool) -> Seq<u32>
    decreases s,
{
    if s.len() == 0 {
        seq![]
    } else {
        constraints_ids(s.drop_last(), binders) + constraint_ids(s.last(), binders)
    }
}

/// The ids that the bounds of a list name.
pub open spec fn bounds_ids(s: Seq<GenericBound>, binders: bool) -> Seq<u32>
    decreases s,
{
    if s.len() == 0 {
        seq![]
    } else {
        bounds_ids(s.drop_last(), binders) + bound_ids(s.last(), binders)
    }
}

/// The ids that the traits with bound parameters of a list name.
pub open spec fn polys_ids(s: Seq<PolyTrait>, binders: bool) -> Seq<u32>
    decreases s,
{
    if s.len() == 0 {
        seq![]
    } else {
        polys_ids(s.drop_last(), binders) + poly_ids(s.last(), binders)
    }
}

/// The ids that the parameters of a list name.
pub open spec fn params_ids(s: Seq<GenericParamDef>, binders: bool) -> Seq<u32>
    decreases s,
{
    if s.len() == 0 {
        seq![]
    } else {
        params_ids(s.drop_last(), binders) + param_ids(s.last(), binders)
    }
}

/// The ids that a predicate names.
pub open spec fn predicate_ids(p: WherePredicate, binders: bool) -> Seq<u32> {
    match p {
        WherePredicate::BoundPredicate { type_, bounds, generic_params } => type_ids(type_, binders)
            + bounds_ids(bounds@, binders) + params_ids(generic_params@, binders),
        WherePredicate::EqPredicate { lhs, rhs } => type_ids(lhs, binders) + term_ids(rhs, binders),
        WherePredicate::LifetimePredicate { .. } => seq![],
    }
}

/// The ids that the predicates of a list name.
pub open spec fn predicates_ids(s: Seq<WherePredicate>, binders: bool) -> Seq<u32>
    decreases s,
{
    if s.len() == 0 {
        seq![]
    } else {
        predicates_ids(s.drop_last(), binders) + predicate_ids(s.last(), binders)
    }
}

/// The ids that the signature of a function names: in its inputs, its output, its parameters
/// and its predicates.
pub open spec fn function_ids(f: Function) -> Seq<u32> {
    inputs_ids(f.sig.inputs@, true) + (match f.sig.output {
        Some(t) => type_ids(t, true),
        None => seq![],
    }) + params_ids(f.generics.params@, true) + predicates_ids(f.generics.where_predicates@, true)
}

/// Appends the ids that a type names.
pub fn ids_in_type(ty: &Type, binders: bool, ids: &mut Vec<u32>)
    ensures
        final(ids)@ == old(ids)@ + type_ids(*ty, binders),
    decreases ty,
{
    match ty {
        Type::ResolvedPath(p) => ids_in_path(p, binders, ids),
        Type::BorrowedRef { type_, .. } => ids_in_type(type_, binders, ids),
        Type::Slice(t) => ids_in_type(t, binders, ids),
        Type::RawPointer { type_, .. } => ids_in_type(type_, binders, ids),
        Type::Array { type_, .. } => ids_in_type(type_, binders, ids),
        Type::Tuple(types) => ids_in_types(types, binders, ids),
        Type::QualifiedPath { self_type, trait_, args, .. } => {
            ids_in_type(self_type, binders, ids);
            if let Some(p) = trait_ {
                ids_in_path(p, binders, ids);
            }
            if let Some(a) = args {
                ids_in_args(a, binders, ids);
            }
        },
        Type::FunctionPointer(f) => {
            ids_in_inputs(&f.sig.inputs, binders, ids);
            if let Some(t) = &f.sig.output {
                ids_in_type(t, binders, ids);
            }
            if binders {
                ids_in_params(&f.generic_params, binders, ids);
            }
        },
        Type::DynTrait(d) => ids_in_polys(&d.traits, binders, ids),
        Type::ImplTrait(bounds) => ids_in_bounds(bounds, binders, ids),
        _ => {},
    }
}

/// Appends the ids that a path names.
pub fn ids_in_path(p: &Path, binders: bool, ids: &mut Vec<u32>)
    ensures
        final(ids)@ == old(ids)@ + path_ids(*p, binders),
    decreases p,
{
    ids.push(p.id.0);
    if let Some(a) = &p.args {
        ids_in_args(a, binders, ids);
    }
}

/// Appends the ids that generic arguments name.
pub fn ids_in_args(a: &GenericArgs, binders: bool, ids: &mut Vec<u32>)
    ensures
        final(ids)@ == old(ids)@ + args_ids(*a, binders),
    decreases a,
{
    match a {
        GenericArgs::AngleBracketed { args, constraints } => {
            ids_in_arg_list(args, binders, ids);
            ids_in_constraints(constraints, binders, ids);
        },
        GenericArgs::Parenthesized { inputs, output } => {
            ids_in_types(inputs, binders, ids);
            if let Some(t) = output {
                ids_in_type(t, binders, ids);
            }
        },
        GenericArgs::ReturnTypeNotation => {},
    }
}

/// Appends the ids that a generic argument names.
pub fn ids_in_arg(a: &GenericArg, binders: bool, ids: &mut Vec<u32>)
    ensures
        final(ids)@ == old(ids)@ + arg_ids(*a, binders),
    decreases a,
{
    match a {
        GenericArg::Type(t) => ids_in_type(t, binders, ids),
        _ => {},
    }
}

/// Appends the ids that a constraint names.
pub fn ids_in_constraint(c: &AssocItemConstraint, binders: bool, ids: &mut Vec<u32>)
    ensures
        final(ids)@ == old(ids)@ + constraint_ids(*c, binders),
    decreases c,
{
    if let Some(a) = &c.args {
        ids_in_args(a, binders, ids);
    }
    match &c.binding {
        AssocItemConstraintKind::Equality(t) => ids_in_term(t, binders, ids),
        AssocItemConstraintKind::Constraint(bounds) => ids_in_bounds(bounds, binders, ids),
    }
}

/// Appends the ids that a term names.
pub fn ids_in_term(t: &Term, binders: bool, ids: &mut Vec<u32>)
    ensures
        final(ids)@ == old(ids)@ + term_ids(*t, binders),
    decreases t,
{
    match t {
        Term::Type(ty) => ids_in_type(ty, binders, ids),
        Term::Constant(_) => {},
    }
}

/// Appends the ids that a bound names.
pub fn ids_in_bound(b: &GenericBound, binders: bool, ids: &mut Vec<u32>)
    ensures
        final(ids)@ == old(ids)@ + bound_ids(*b, binders),
    decreases b,
{
    match b {
        GenericBound::TraitBound { trait_, generic_params, .. } => {
            ids_in_path(trait_, binders, ids);
            if binders {
                ids_in_params(generic_params, binders, ids);
            }
        },
        _ => {},
    }
}

/// Appends the ids that a trait with its bound parameters names.
pub fn ids_in_poly(p: &PolyTrait, binders: bool, ids: &mut Vec<u32>)
    ensures
        final(ids)@ == old(ids)@ + poly_ids(*p, binders),
    decreases p,
{
    ids_in_path(&p.trait_, binders, ids);
    if binders {
        ids_in_params(&p.generic_params, binders, ids);
    }
}

/// Appends the ids that a parameter names.
pub fn ids_in_param(p: &GenericParamDef, binders: bool, ids: &mut Vec<u32>)
    ensures
        final(ids)@ == old(ids)@ + param_ids(*p, binders),
    decreases p,
{
    match &p.kind {
        GenericParamDefKind::Type { bounds, default, .. } => {
            ids_in_bounds(bounds, binders, ids);
            if let Some(t) = default {
                ids_in_type(t, binders, ids);
            }
        },
        GenericParamDefKind::Const { type_, .. } => ids_in_type(type_, binders, ids),
        GenericParamDefKind::Lifetime { .. } => {},
    }
}

/// Appends the ids that the types of a list name.
pub fn ids_in_types(list: &Vec<Type>, binders: bool, ids: &mut Vec<u32>)
    ensures
        final(ids)@ == old(ids)@ + types_ids(list@, binders),
    decreases list,
{
    let mut i: usize = 0;
    while i < list.len()
        invariant
            i <= list.len(),
            ids@ == old(ids)@ + types_ids(list@.take(i as int), binders),
        decreases list.len() - i,
    {
        assert(list@.take(i + 1).drop_last() =~= list@.take(i as int));
        ids_in_type(&list[i], binders, ids);
        i += 1;
    }
    assert(list@.take(i as int) =~= list@);
}

/// Appends the ids that the types of the inputs of a function name.
pub fn ids_in_inputs(list: &Vec<(String, Type)>, binders: bool, ids: &mut Vec<u32>)
    ensures
        final(ids)@ == old(ids)@ + inputs_ids(list@, binders),
    decreases list,
{
    let mut i: usize = 0;
    while i < list.len()
        invariant
            i <= list.len(),
            ids@ == old(ids)@ + inputs_ids(list@.take(i as int), binders),
        decreases list.len() - i,
    {
        assert(list@.take(i + 1).drop_last() =~= list@.take(i as int));
        ids_in_type(&list[i].1, binders, ids);
        i += 1;
    }
    assert(list@.take(i as int) =~= list@);
}

/// Appends the ids that the generic arguments of a list name.
pub fn ids_in_arg_list(list: &Vec<GenericArg>, binders: bool, ids: &mut Vec<u32>)
    ensures
        final(ids)@ == old(ids)@ + arg_list_ids(list@, binders),
    decreases list,
{
    let mut i: usize = 0;
    while i < list.len()
        invariant
            i <= list.len(),
            ids@ == old(ids)@ + arg_list_ids(list@.take(i as int), binders),
        decreases list.len() - i,
    {
        assert(list@.take(i + 1).drop_last() =~= list@.take(i as int));
        ids_in_arg(&list[i], binders, ids);
        i += 1;
    }
    assert(list@.take(i as int) =~= list@);
}

/// Appends the ids that the constraints of a list name.
pub fn ids_in_constraints(list: &Vec<AssocItemConstraint>, binders: bool, ids: &mut Vec<u32>)
    ensures
        final(ids)@ == old(ids)@ + constraints_ids(list@, binders),
    decreases list,
{
    let mut i: usize = 0;
    while i < list.len()
        invariant
            i <= list.len(),
            ids@ == old(ids)@ + constraints_ids(list@.take(i as int), binders),
        decreases list.len() - i,
    {
        assert(list@.take(i + 1).drop_last() =~= list@.take(i as int));
        ids_in_constraint(&list[i], binders, ids);
        i += 1;
    }
    assert(list@.take(i as int) =~= list@);
}

/// Appends the ids that the bounds of a list name.
pub fn ids_in_bounds(list: &Vec<GenericBound>, binders: bool, ids: &mut Vec<u32>)
    ensures
        final(ids)@ == old(ids)@ + bounds_ids(list@, binders),
    decreases list,
{
    let mut i: usize = 0;
    while i < list.len()
        invariant
            i <= list.len(),
            ids@ == old(ids)@ + bounds_ids(list@.take(i as int), binders),
        decreases list.len() - i,
    {
        assert(list@.take(i + 1).drop_last() =~= list@.take(i as int));
        ids_in_bound(&list[i], binders, ids);
        i += 1;
    }
    assert(list@.take(i as int) =~= list@);
}

/// Appends the ids that the traits with bound parameters of a list name.
pub fn ids_in_polys(list: &Vec<PolyTrait>, binders: bool, ids: &mut Vec<u32>)
    ensures
        final(ids)@ == old(ids)@ + polys_ids(list@, binders),
    decreases list,
{
    let mut i: usize = 0;
    while i < list.len()
        invariant
            i <= list.len(),
            ids@ == old(ids)@ + polys_ids(list@.take(i as int), binders),
        decreases list.len() - i,
    {
        assert(list@.take(i + 1).drop_last() =~= list@.take(i as int));
        ids_in_poly(&list[i], binders, ids);
        i += 1;
    }
    assert(list@.take(i as int) =~= list@);
}

/// Appends the ids that the parameters of a list name.
pub fn ids_in_params(list: &Vec<GenericParamDef>, binders: bool, ids: &mut Vec<u32>)
    ensures
        final(ids)@ == old(ids)@ + params_ids(list@, binders),
    decreases list,
{
    let mut i: usize = 0;
    while i < list.len()
        invariant
            i <= list.len(),
            ids@ == old(ids)@ + params_ids(list@.take(i as int), binders),
        decreases list.len() - i,
    {
        assert(list@.take(i + 1).drop_last() =~= list@.take(i as int));
        ids_in_param(&list[i], binders, ids);
        i += 1;
    }
    assert(list@.take(i as int) =~= list@);
}

/// Appends the ids that a predicate names.
pub fn ids_in_predicate(p: &WherePredicate, binders: bool, ids: &mut Vec<u32>)
    ensures
        final(ids)@ == old(ids)@ + predicate_ids(*p, binders),
{
    match p {
        WherePredicate::BoundPredicate { type_, bounds, generic_params } => {
            ids_in_type(type_, binders, ids);
            ids_in_bounds(bounds, binders, ids);
            ids_in_params(generic_params, binders, ids);
        },
        WherePredicate::EqPredicate { lhs, rhs } => {
            ids_in_type(lhs, binders, ids);
            ids_in_term(rhs, binders, ids);
        },
        WherePredicate::LifetimePredicate { .. } => {},
    }
}

/// Appends the ids that the predicates of a list name.
pub fn ids_in_predicates(list: &Vec<WherePredicate>, binders: bool, ids: &mut Vec<u32>)
    ensures
        final(ids)@ == old(ids)@ + predicates_ids(list@, binders),
{
    let mut i: usize = 0;
    while i < list.len()
        invariant
            i <= list.len(),
            ids@ == old(ids)@ + predicates_ids(list@.take(i as int), binders),
        decreases list.len() - i,
    {
        assert(list@.take(i + 1).drop_last() =~= list@.take(i as int));
        ids_in_predicate(&list[i], binders, ids);
        i += 1;
    }
    assert(list@.take(i as int) =~= list@);
}

/// Appends the ids that the signature of a function names.
pub fn ids_in_function(f: &Function, ids: &mut Vec<u32>)
    ensures
        final(ids)@ == old(ids)@ + function_ids(*f),
{
    ids_in_inputs(&f.sig.inputs, true, ids);
    if let Some(t) = &f.sig.output {
        ids_in_type(t, true, ids);
    }
    ids_in_params(&f.generics.params, true, ids);
    ids_in_predicates(&f.generics.where_predicates, true, ids);
}

}
