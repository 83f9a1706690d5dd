//! Which items of an inventory are of a kind, and what errors say.

use vstd::prelude::*;

use crate::error::ErrorKindView;
use crate::inventory::{of_kind, types_of, ItemKind, ItemView};

verus! {

/// The items of a kind are those of the inventory that are of it, in their order; its types are
/// its structs, enums and type aliases.
pub proof fn law_items_of_a_kind(s: Seq<ItemView>, kind: ItemKind)
    ensures
        of_kind(s, kind) == s.filter(|v: ItemView| v.kind == kind),
        types_of(s) == s.filter(
            |v: ItemView|
                v.kind == ItemKind::Struct || v.kind == ItemKind::Enum || v.kind
                    == ItemKind::TypeAlias,
        ),
        kind.denotes_type() <==> kind == ItemKind::Struct || kind == ItemKind::Enum || kind
            == ItemKind::TypeAlias,
    decreases s.len(),
{
    reveal(Seq::filter);
    if s.len() > 0 {
        law_items_of_a_kind(s.drop_last(), kind);
    }
}

/// The message of an error names its kind and ends with what went wrong.
pub proof fn law_messages(m: Seq<char>)
    ensures
        ErrorKindView::CargoInvocation(m).message() == "cargo invocation failed: "@ + m,
        ErrorKindView::RustdocOutputMissing(m).message() == "rustdoc JSON not found at "@ + m,
        ErrorKindView::RustdocParse(m).message() == "rustdoc JSON parse error: "@ + m,
        ErrorKindView::CargoMetadata(m).message() == "cargo metadata error: "@ + m,
        ErrorKindView::Io(m).message() == "IO error: "@ + m,
        ErrorKindView::Csv(m).message() == "CSV error: "@ + m,
{
}

}
