//! Reading the JSON that rustdoc writes.

use rustdoc_types::ItemSummary;
use vstd::prelude::*;

use crate::error::{ElicitDocErrorKind, ErrorKindView};
use crate::rustdoc::{DocContents, DocCrate, IndexItem};
use crate::text::opt_view;

verus! {

/// Names what `serde_json::from_str` makes of a text when it reads a `rustdoc_types::Crate`:
/// what the crate holds, or what is wrong with the text. Both depend on the text alone.
pub uninterp spec fn json_docs(text: Seq<char>) -> Result<DocContents, Seq<char>>;

/// The version of the crate that a text holds.
pub open spec fn json_version(text: Seq<char>) -> Option<Seq<char>> {
    match json_docs(text) {
        Ok(c) => c.crate_version,
        Err(_) => None,
    }
}

/// The item with an id in the crate that a text holds.
pub open spec fn json_item(text: Seq<char>, id: u32) -> Option<IndexItem> {
    match json_docs(text) {
        Ok(c) => if c.items.dom().contains(id) {
            Some(c.items[id])
        } else {
            None
        },
        Err(_) => None,
    }
}

/// The entry of the table of paths with an id in the crate that a text holds.
pub open spec fn json_summary(text: Seq<char>, id: u32) -> Option<ItemSummary> {
    match json_docs(text) {
        Ok(c) => if c.summaries.dom().contains(id) {
            Some(c.summaries[id])
        } else {
            None
        },
        Err(_) => None,
    }
}

/// Reads a `rustdoc_types::Crate` from a text with `serde_json::from_str`, and hands its parts
/// out: the version, the name, visibility and contents of every item of the index, and the table
/// of paths. The two hash maps become lists, in whatever order they are walked; every id of a
/// hash map occurs in it once.
#[verifier::external_body]
fn read_json(text: &str) -> (r: Result<DocCrate, String>)
    ensures
        match r {
            Ok(docs) => json_docs(text@) == Ok::<DocContents, Seq<char>>(docs.contents())
                && docs.ids_distinct(),
            Err(message) => json_docs(text@) == Err::<DocContents, Seq<char>>(message@),
        },
{
    let docs: rustdoc_types::Crate = serde_json::from_str(text).map_err(|e| e.to_string())?;
    let parts = |item: rustdoc_types::Item| IndexItem {
        name: item.name,
        visibility: item.visibility,
        inner: item.inner,
    };
    Ok(DocCrate {
        crate_version: docs.crate_version,
        index: docs.index.into_iter().map(|(id, item)| (id.0, parts(item))).collect(),
        paths: docs.paths.into_iter().map(|(id, summary)| (id.0, summary)).collect(),
    })
}

/// The documented crate that a text holds, or what is wrong with the text. The items of the
/// crate come in no particular order.
pub fn parse_docs(text: &str) -> (r: Result<DocCrate, ElicitDocErrorKind>)
    ensures
        match r {
            Ok(docs) => json_docs(text@) == Ok::<DocContents, Seq<char>>(docs.contents())
                && docs.ids_distinct() && opt_view(docs.crate_version) == json_version(text@)
                && (forall|id: u32| #[trigger] docs.item(id) == json_item(text@, id)) && (forall|
                id: u32,
            | #[trigger]
                docs.summary(id) == json_summary(text@, id)),
            Err(e) => json_docs(text@) is Err && e@ == ErrorKindView::RustdocParse(
                json_docs(text@)->Err_0,
            ),
        },
{
    docs_or_fault(read_json(text))
}

/// The documented crate that was read, or an error with the message of what went wrong.
pub fn docs_or_fault(read: Result<DocCrate, String>) -> (r: Result<DocCrate, ElicitDocErrorKind>)
    ensures
        match read {
            Ok(docs) => r == Ok::<DocCrate, ElicitDocErrorKind>(docs),
            Err(message) => r is Err && r->Err_0@ == ErrorKindView::RustdocParse(message@),
        },
{
    match read {
        Ok(docs) => Ok(docs),
        Err(message) => Err(ElicitDocErrorKind::RustdocParse(message)),
    }
}

}
