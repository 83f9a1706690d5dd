//! The inventory of a crate: a flat list of its public items.

use vstd::prelude::*;

use crate::text::{join, joined, views};

verus! {

/// The kind of a public item.
#[derive(Clone, Copy, Debug, PartialEq, Eq, Structural, Hash)]
pub enum ItemKind {
    Struct,
    Enum,
    Trait,
    TypeAlias,
    Method,
    Function,
    Macro,
    Constant,
    Module,
    Other,
}

impl ItemKind {
    /// Structs, enums and type aliases are types.
    pub open spec fn denotes_type(self) -> bool {
        self is Struct || self is Enum || self is TypeAlias
    }

    /// The name of the kind.
    pub open spec fn name(self) -> Seq<char> {
        match self {
            ItemKind::Struct => "Struct"@,
            ItemKind::Enum => "Enum"@,
            ItemKind::Trait => "Trait"@,
            ItemKind::TypeAlias => "TypeAlias"@,
            ItemKind::Method => "Method"@,
            ItemKind::Function => "Function"@,
            ItemKind::Macro => "Macro"@,
            ItemKind::Constant => "Constant"@,
            ItemKind::Module => "Module"@,
            ItemKind::Other => "Other"@,
        }
    }

    /// True for `Struct`, `Enum` and `TypeAlias`, the kinds of types.
    pub fn is_type(self) -> (r: bool)
        ensures
            r == self.denotes_type(),
    {
        matches!(self, ItemKind::Struct | ItemKind::Enum | ItemKind::TypeAlias)
    }

    /// The name of the kind, as reports print it.
    pub fn to_text(&self) -> (r: String)
        ensures
            r@ == self.name(),
    {
        match self {
            ItemKind::Struct => "Struct".to_string(),
            ItemKind::Enum => "Enum".to_string(),
            ItemKind::Trait => "Trait".to_string(),
            ItemKind::TypeAlias => "TypeAlias".to_string(),
            ItemKind::Method => "Method".to_string(),
            ItemKind::Function => "Function".to_string(),
            ItemKind::Macro => "Macro".to_string(),
            ItemKind::Constant => "Constant".to_string(),
            ItemKind::Module => "Module".to_string(),
            ItemKind::Other => "Other".to_string(),
        }
    }
}

/// A single public item in a crate.
#[derive(Debug, PartialEq, Eq, Hash)]
pub struct Item {
    /// Path segments, from the crate to the item.
    pub path: Vec<String>,
    pub kind: ItemKind,
    pub name: String,
    /// Whether the item has parameters.
    pub is_generic: bool,
    /// The names of its lifetime parameters.
    pub lifetime_params: Vec<String>,
    /// The names of its type parameters.
    pub type_params: Vec<String>,
}

/// The contents of an [`Item`].
#[verifier::ext_equal]
pub struct ItemView {
    pub path: Seq<Seq<char>>,
    pub kind: ItemKind,
    pub name: Seq<char>,
    pub is_generic: bool,
    pub lifetime_params: Seq<Seq<char>>,
    pub type_params: Seq<Seq<char>>,
}

impl ItemView {
    /// The path with `::` between its segments.
    pub open spec fn path_text(self) -> Seq<char> {
        joined(self.path, "::"@)
    }
}

impl View for Item {
    type V = ItemView;

    open spec fn view(&self) -> ItemView {
        ItemView {
            path: views(self.path@),
            kind: self.kind,
            name: self.name@,
            is_generic: self.is_generic,
            lifetime_params: views(self.lifetime_params@),
            type_params: views(self.type_params@),
        }
    }
}

/// A copy of a list of texts.
pub fn copy_texts(v: &Vec<String>) -> (r: Vec<String>)
    ensures
        r@ == v@,
{
    let mut out: Vec<String> = Vec::new();
    let mut i: usize = 0;
    while i < v.len()
        invariant
            i <= v.len(),
            out@ == v@.take(i as int),
        decreases v.len() - i,
    {
        out.push(v[i].clone());
        i += 1;
    }
    out
}

impl Clone for Item {
    fn clone(&self) -> (r: Self)
        ensures
            r@ == self@,
    {
        Item {
            path: copy_texts(&self.path),
            kind: self.kind,
            name: self.name.clone(),
            is_generic: self.is_generic,
            lifetime_params: copy_texts(&self.lifetime_params),
            type_params: copy_texts(&self.type_params),
        }
    }
}

impl Item {
    /// The path with `::` between its segments.
    pub fn path_str(&self) -> (r: String)
        ensures
            r@ == self@.path_text(),
    {
        join(&self.path, "::")
    }
}

/// The items of one kind, in order.
pub open spec fn of_kind(s: Seq<ItemView>, kind: ItemKind) -> Seq<ItemView>
    decreases s.len(),
{
    if s.len() == 0 {
        s
    } else {
        let rest = of_kind(s.drop_last(), kind);
        if s.last().kind == kind {
            rest.push(s.last())
        } else {
            rest
        }
    }
}

/// The items that are types, in order.
pub open spec fn types_of(s: Seq<ItemView>) -> Seq<ItemView>
    decreases s.len(),
{
    if s.len() == 0 {
        s
    } else {
        let rest = types_of(s.drop_last());
        if s.last().kind.denotes_type() {
            rest.push(s.last())
        } else {
            rest
        }
    }
}

/// All public items of one crate.
#[derive(Clone, Debug)]
pub struct Inventory {
    pub crate_name: String,
    pub crate_version: String,
    pub items: Vec<Item>,
}

impl Inventory {
    /// All items of a specific kind.
    pub fn items_of_kind(&self, kind: ItemKind) -> (r: Vec<&Item>)
        ensures
            views(r@) == of_kind(views(self.items@), kind),
    {
        let mut out: Vec<&Item> = Vec::new();
        let mut i: usize = 0;
        let ghost all = views(self.items@);
        while i < self.items.len()
            invariant
                i <= self.items.len(),
                all == views(self.items@),
                views(out@) == of_kind(all.take(i as int), kind),
            decreases self.items.len() - i,
        {
            let ghost held = views(out@);
            proof {
                assert(all.take(i + 1).drop_last() =~= all.take(i as int));
                assert(all.take(i + 1).last() == self.items@[i as int]@);
            }
            if self.items[i].kind == kind {
                out.push(&self.items[i]);
                proof {
                    assert(views(out@) =~= held.push(self.items@[i as int]@));
                }
            }
            i += 1;
        }
        proof {
            assert(all.take(i as int) =~= all);
        }
        out
    }

    /// All items that are types.
    pub fn type_items(&self) -> (r: Vec<&Item>)
        ensures
            views(r@) == types_of(views(self.items@)),
    {
        let mut out: Vec<&Item> = Vec::new();
        let mut i: usize = 0;
        let ghost all = views(self.items@);
        while i < self.items.len()
            invariant
                i <= self.items.len(),
                all == views(self.items@),
                views(out@) == types_of(all.take(i as int)),
            decreases self.items.len() - i,
        {
            let ghost held = views(out@);
            proof {
                assert(all.take(i + 1).drop_last() =~= all.take(i as int));
                assert(all.take(i + 1).last() == self.items@[i as int]@);
            }
            if self.items[i].kind.is_type() {
                out.push(&self.items[i]);
                proof {
                    assert(views(out@) =~= held.push(self.items@[i as int]@));
                }
            }
            i += 1;
        }
        proof {
            assert(all.take(i as int) =~= all);
        }
        out
    }
}

}
