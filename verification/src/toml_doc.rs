//! The `toml_edit` documents that lock files and manifests are read and written
//! through. A document is opaque here: what the library relies on is named by
//! the spec functions below, and each call into `toml_edit` states how it
//! changes or reads them.

use vstd::prelude::*;
use toml_edit::{DocumentMut, InlineTable, Table};
use crate::order::text_le;

verus! {

#[verifier::external_type_specification]
#[verifier::external_body]
pub struct ExDocumentMut(toml_edit::DocumentMut);

#[verifier::external_type_specification]
#[verifier::external_body]
pub struct ExInlineTable(toml_edit::InlineTable);

#[verifier::external_type_specification]
#[verifier::external_body]
pub struct ExTable(toml_edit::Table);

// ---------------------------------------------------------------------------
// What a document holds
// ---------------------------------------------------------------------------

/// Whether the document has an item at top-level key `key`.
pub uninterp spec fn doc_has_key(doc: DocumentMut, key: Seq<char>) -> bool;

/// Whether the document's item at top-level key `key` is a table.
pub uninterp spec fn doc_table_at(doc: DocumentMut, key: Seq<char>) -> bool;

/// The text `toml_edit` writes a document as (its `Display`).
pub uninterp spec fn toml_text(doc: DocumentMut) -> Seq<char>;

/// The string-valued fields of the inline table at `doc[table][key]`; none
/// when there is no such item or it is not an inline table.
pub uninterp spec fn inline_entry(doc: DocumentMut, table: Seq<char>, key: Seq<char>) -> Option<
    Map<Seq<char>, Seq<char>>,
>;

/// The string value at `doc[a][b][c][f]`, each step through a table.
pub uninterp spec fn nested_text(doc: DocumentMut, a: Seq<char>, b: Seq<char>, c: Seq<char>, f: Seq<char>) -> Option<Seq<char>>;

/// Whether `doc[a][b]` is present.
pub uninterp spec fn nested_has(doc: DocumentMut, a: Seq<char>, b: Seq<char>) -> bool;

/// Whether `doc[a][b]` is a table.
pub uninterp spec fn nested_is_table(doc: DocumentMut, a: Seq<char>, b: Seq<char>) -> bool;

/// The string values of the top-level `actions` table, by key; empty when
/// there is no such table.
pub uninterp spec fn action_values(doc: DocumentMut) -> Map<Seq<char>, Seq<char>>;

/// Whether the top-level `actions` table has an item at `overrides`.
pub uninterp spec fn overrides_present(doc: DocumentMut) -> bool;

/// Whether `actions.overrides` is a table.
pub uninterp spec fn overrides_is_table(doc: DocumentMut) -> bool;

/// The keys of the `actions.overrides` table; empty when it is not a table.
pub uninterp spec fn override_keys(doc: DocumentMut) -> Set<Seq<char>>;

/// An override entry as read back: its `workflow`, `job`, `step` and
/// `version` fields; a field that is missing or of another type reads as absent,
/// and so does every field of an entry that is not a table.
pub type OverrideEntry = (Option<Seq<char>>, Option<Seq<char>>, Option<i64>, Option<Seq<char>>);

/// The arrays in the `actions.overrides` table (arrays of tables or array
/// values), by key, each as its entries.
pub uninterp spec fn override_lists(doc: DocumentMut) -> Map<Seq<char>, Seq<OverrideEntry>>;

/// The keys of `actions.overrides` whose item is an array value, written inline.
pub uninterp spec fn inline_array_keys(doc: DocumentMut) -> Set<Seq<char>>;

/// The item at top-level key `key` as `toml_edit` renders it; none when
/// there is no such item.
pub uninterp spec fn root_item(doc: DocumentMut, key: Seq<char>) -> Option<Seq<char>>;

/// The rendered items of the document at top-level keys, by key.
pub open spec fn root_items(doc: DocumentMut) -> Map<Seq<char>, Seq<char>> {
    Map::new(|k: Seq<char>| root_item(doc, k) is Some, |k: Seq<char>| root_item(doc, k)->Some_0)
}

/// Ascending string order, pair by pair.
pub open spec fn sorted_texts(s: Seq<Seq<char>>) -> bool {
    forall|i: int, j: int| 0 <= i < j < s.len() ==> text_le(#[trigger] s[i], #[trigger] s[j], false)
}

/// Ascending string order among the elements other than `k`, wherever `k` is.
pub open spec fn sorted_but(s: Seq<Seq<char>>, k: Seq<char>) -> bool {
    forall|i: int, j: int|
        0 <= i < j < s.len() && s[i] != k && s[j] != k ==> text_le(#[trigger] s[i], #[trigger] s[j], false)
}

/// Where `Table::remove` (a shifting removal) leaves the keys: `k` is taken
/// out, the others keep their order.
pub open spec fn remove_key(s: Seq<Seq<char>>, k: Seq<char>) -> Seq<Seq<char>> {
    if s.contains(k) {
        s.remove(key_position(s, k))
    } else {
        s
    }
}

/// A position of `k` in `s`, when it occurs there.
pub open spec fn key_position(s: Seq<Seq<char>>, k: Seq<char>) -> int {
    choose|p: int| 0 <= p < s.len() && s[p] == k
}

/// The top-level keys of the document, in the order it holds them.
pub uninterp spec fn root_key_order(doc: DocumentMut) -> Seq<Seq<char>>;

/// The keys of the table `doc[a]`, in the order it holds them; empty when
/// it is not a table.
pub uninterp spec fn sub_key_order(doc: DocumentMut, a: Seq<char>) -> Seq<Seq<char>>;

/// The keys of the table `doc[a][b]`, in the order it holds them; empty when
/// it is not a table.
pub uninterp spec fn leaf_key_order(doc: DocumentMut, a: Seq<char>, b: Seq<char>) -> Seq<Seq<char>>;

/// Where `Table::insert` leaves a key: a new key goes last, a present one
/// keeps its place.
pub open spec fn with_key(s: Seq<Seq<char>>, k: Seq<char>) -> Seq<Seq<char>> {
    if s.contains(k) {
        s
    } else {
        s.push(k)
    }
}

/// Each text once, in ascending string order.
pub open spec fn ascending_texts(s: Seq<Seq<char>>) -> bool {
    &&& s.no_duplicates()
    &&& forall|i: int, j: int| 0 <= i < j < s.len() ==> text_le(#[trigger] s[i], #[trigger] s[j], false)
}

/// The string-valued fields of an inline table.
pub uninterp spec fn inline_fields(t: InlineTable) -> Map<Seq<char>, Seq<char>>;

/// The integer-valued fields of an inline table.
pub uninterp spec fn inline_ints(t: InlineTable) -> Map<Seq<char>, i64>;

/// The string-valued entries of a table.
pub uninterp spec fn table_texts(t: Table) -> Map<Seq<char>, Seq<char>>;

/// A string field of a field map, when present.
pub open spec fn text_field(m: Map<Seq<char>, Seq<char>>, k: Seq<char>) -> Option<Seq<char>> {
    if m.contains_key(k) {
        Some(m[k])
    } else {
        None
    }
}

/// An inline table read back as an override entry.
pub open spec fn entry_view(t: InlineTable) -> OverrideEntry {
    (
        text_field(inline_fields(t), "workflow"@),
        text_field(inline_fields(t), "job"@),
        if inline_ints(t).contains_key("step"@) {
            Some(inline_ints(t)["step"@])
        } else {
            None
        },
        text_field(inline_fields(t), "version"@),
    )
}

/// The override part of a document: whether `actions.overrides` is there,
/// whether it is a table, its keys, its arrays, and which of them are inline.
pub open spec fn override_state(doc: DocumentMut) -> (bool, bool, Set<Seq<char>>, Map<Seq<char>, Seq<OverrideEntry>>, Set<Seq<char>>) {
    (overrides_present(doc), overrides_is_table(doc), override_keys(doc), override_lists(doc), inline_array_keys(doc))
}

/// `actions.overrides` holds no keys and no arrays.
pub open spec fn no_override_entries(doc: DocumentMut) -> bool {
    &&& override_keys(doc) =~= Set::empty()
    &&& override_lists(doc) =~= Map::empty()
    &&& inline_array_keys(doc) =~= Set::empty()
}

/// There is no `actions.overrides`.
pub open spec fn lacks_overrides(doc: DocumentMut) -> bool {
    !overrides_present(doc) && !overrides_is_table(doc) && no_override_entries(doc)
}

/// `actions.overrides` is an empty table.
pub open spec fn empty_overrides_table(doc: DocumentMut) -> bool {
    overrides_present(doc) && overrides_is_table(doc) && no_override_entries(doc)
}

/// `actions.overrides` is there but is not a table.
pub open spec fn overrides_not_table(doc: DocumentMut) -> bool {
    overrides_present(doc) && !overrides_is_table(doc) && no_override_entries(doc)
}

/// The `actions` table is empty.
pub open spec fn no_actions(doc: DocumentMut) -> bool {
    action_values(doc) =~= Map::empty() && lacks_overrides(doc)
}

// ---------------------------------------------------------------------------
// Whole documents
// ---------------------------------------------------------------------------

/// What the library reads of a document: its top-level keys, those of them
/// that hold tables, the string fields of each inline-table entry by
/// (table, key), the string values of `actions`, its override part, and its
/// top-level items as rendered.
pub type DocView = (
    Set<Seq<char>>,
    Set<Seq<char>>,
    Map<(Seq<char>, Seq<char>), Map<Seq<char>, Seq<char>>>,
    Map<Seq<char>, Seq<char>>,
    (bool, bool, Set<Seq<char>>, Map<Seq<char>, Seq<OverrideEntry>>, Set<Seq<char>>),
    Map<Seq<char>, Seq<char>>,
);

/// The view of a document.
pub open spec fn doc_view(doc: DocumentMut) -> DocView {
    (
        Set::new(|k: Seq<char>| doc_has_key(doc, k)),
        Set::new(|k: Seq<char>| doc_table_at(doc, k)),
        Map::new(
            |p: (Seq<char>, Seq<char>)| inline_entry(doc, p.0, p.1) is Some,
            |p: (Seq<char>, Seq<char>)| inline_entry(doc, p.0, p.1)->Some_0,
        ),
        action_values(doc),
        override_state(doc),
        root_items(doc),
    )
}

/// The string fields of the inline-table entry at `table`, `key` of a view.
pub open spec fn view_entry(v: DocView, table: Seq<char>, key: Seq<char>) -> Option<Map<Seq<char>, Seq<char>>> {
    if v.2.contains_key((table, key)) {
        Some(v.2[(table, key)])
    } else {
        None
    }
}

/// The rendered top-level item at `key` of a view.
pub open spec fn view_root(v: DocView, key: Seq<char>) -> Option<Seq<char>> {
    if v.5.contains_key(key) {
        Some(v.5[key])
    } else {
        None
    }
}

/// What `DocumentMut::from_str` makes of a text: the view of the parsed
/// document, or the text of the parse error.
pub uninterp spec fn toml_parse(text: Seq<char>) -> Result<DocView, Seq<char>>;

/// `DocumentMut::from_str`: the parsed document, or the parse error's text.
/// Which texts parse, and what the parsed document holds, is given by the
/// name `toml_parse`.
#[verifier::external_body]
pub(crate) fn parse_document(text: &str) -> (r: Result<DocumentMut, String>)
    ensures
        r is Ok <==> toml_parse(text@) is Ok,
        r matches Ok(d) ==> toml_parse(text@) matches Ok(v) && v == doc_view(d),
        r matches Err(e) ==> toml_parse(text@) matches Err(m) && m == e@,
{
    match text.parse::<DocumentMut>() {
        Ok(doc) => Ok(doc),
        Err(e) => Err(e.to_string()),
    }
}

/// `DocumentMut`'s `Display`: the document's text.
#[verifier::external_body]
pub(crate) fn document_text(doc: &DocumentMut) -> (r: String)
    ensures
        r@ == toml_text(*doc),
{
    doc.to_string()
}

/// `DocumentMut::new`: an empty document.
#[verifier::external_body]
pub(crate) fn new_document() -> (r: DocumentMut)
    ensures
        forall|a: Seq<char>| !#[trigger] doc_has_key(r, a),
        forall|a: Seq<char>| !#[trigger] doc_table_at(r, a),
        forall|a: Seq<char>, b: Seq<char>| !#[trigger] nested_has(r, a, b),
        forall|a: Seq<char>, b: Seq<char>| !#[trigger] nested_is_table(r, a, b),
        forall|a: Seq<char>, b: Seq<char>, c: Seq<char>, f: Seq<char>| #[trigger] nested_text(r, a, b, c, f) is None,
        no_actions(r),
        root_key_order(r) == Seq::<Seq<char>>::empty(),
        forall|a: Seq<char>| #[trigger] sub_key_order(r, a) == Seq::<Seq<char>>::empty(),
        forall|a: Seq<char>, b: Seq<char>| #[trigger] leaf_key_order(r, a, b) == Seq::<Seq<char>>::empty(),
{
    DocumentMut::new()
}

// ---------------------------------------------------------------------------
// The root table
// ---------------------------------------------------------------------------

/// `Table::get` on the document root: whether `key` is present.
#[verifier::external_body]
pub(crate) fn document_has(doc: &DocumentMut, key: &str) -> (r: bool)
    ensures
        r == doc_has_key(*doc, key@),
{
    doc.get(key).is_some()
}

/// `Item::is_table` of the root item at `key`: whether it is a table.
#[verifier::external_body]
pub(crate) fn document_is_table(doc: &DocumentMut, key: &str) -> (r: bool)
    ensures
        r == doc_table_at(*doc, key@),
{
    matches!(doc.get(key), Some(toml_edit::Item::Table(_)))
}

/// `Table::insert` of a new empty table at root key `key`: the key now holds
/// an empty table; every other root item is as it was.
#[verifier::external_body]
pub(crate) fn document_insert_table(doc: &mut DocumentMut, key: &str)
    ensures
        doc_has_key(*final(doc), key@),
        doc_table_at(*final(doc), key@),
        forall|k: Seq<char>| #[trigger] inline_entry(*final(doc), key@, k) is None,
        forall|t: Seq<char>| t != key@ ==> #[trigger] doc_has_key(*final(doc), t) == doc_has_key(*old(doc), t),
        forall|t: Seq<char>| t != key@ ==> #[trigger] doc_table_at(*final(doc), t) == doc_table_at(*old(doc), t),
        forall|t: Seq<char>, k: Seq<char>|
            t != key@ ==> #[trigger] inline_entry(*final(doc), t, k) == inline_entry(*old(doc), t, k),
        key@ == "actions"@ ==> no_actions(*final(doc)),
        key@ != "actions"@ ==> action_values(*final(doc)) == action_values(*old(doc)) && override_state(*final(doc))
            == override_state(*old(doc)),
        key@ == "actions"@ ==> sub_key_order(*final(doc), "actions"@) == Seq::<Seq<char>>::empty()
            && leaf_key_order(*final(doc), "actions"@, "overrides"@) == Seq::<Seq<char>>::empty(),
        forall|x: Seq<char>| x != key@ ==> #[trigger] root_item(*final(doc), x) == root_item(*old(doc), x),
{
    doc.insert(key, toml_edit::Item::Table(toml_edit::Table::new()));
}

/// `Table::remove` on the document root: the item at `key` is gone; every
/// other root item is as it was.
#[verifier::external_body]
pub(crate) fn document_remove(doc: &mut DocumentMut, key: &str)
    ensures
        !doc_has_key(*final(doc), key@),
        !doc_table_at(*final(doc), key@),
        forall|t: Seq<char>| t != key@ ==> #[trigger] doc_has_key(*final(doc), t) == doc_has_key(*old(doc), t),
        forall|t: Seq<char>| t != key@ ==> #[trigger] doc_table_at(*final(doc), t) == doc_table_at(*old(doc), t),
        key@ == "actions"@ ==> no_actions(*final(doc)),
        key@ != "actions"@ ==> action_values(*final(doc)) == action_values(*old(doc)) && override_state(*final(doc))
            == override_state(*old(doc)),
        key@ == "actions"@ ==> sub_key_order(*final(doc), "actions"@) == Seq::<Seq<char>>::empty()
            && leaf_key_order(*final(doc), "actions"@, "overrides"@) == Seq::<Seq<char>>::empty(),
        forall|x: Seq<char>| x != key@ ==> #[trigger] root_item(*final(doc), x) == root_item(*old(doc), x),
        forall|x: Seq<char>, k: Seq<char>| x != key@ ==> #[trigger] inline_entry(*final(doc), x, k) == inline_entry(*old(doc), x, k),
{
    doc.remove(key);
}

/// `Table::insert` at the document root of a new implicit table (one that is
/// not written out while it holds only tables).
#[verifier::external_body]
pub(crate) fn insert_root_table(doc: &mut DocumentMut, a: &str)
    ensures
        doc_table_at(*final(doc), a@),
        forall|x: Seq<char>| x != a@ ==> #[trigger] doc_table_at(*final(doc), x) == doc_table_at(*old(doc), x),
        forall|b: Seq<char>| !#[trigger] nested_has(*final(doc), a@, b),
        forall|b: Seq<char>| !#[trigger] nested_is_table(*final(doc), a@, b),
        forall|x: Seq<char>, b: Seq<char>| x != a@ ==> #[trigger] nested_has(*final(doc), x, b) == nested_has(*old(doc), x, b),
        forall|x: Seq<char>, b: Seq<char>| x != a@ ==> #[trigger] nested_is_table(*final(doc), x, b) == nested_is_table(*old(doc), x, b),
        forall|b: Seq<char>, c: Seq<char>, f: Seq<char>| #[trigger] nested_text(*final(doc), a@, b, c, f) is None,
        forall|x: Seq<char>, b: Seq<char>, c: Seq<char>, f: Seq<char>|
            x != a@ ==> #[trigger] nested_text(*final(doc), x, b, c, f) == nested_text(*old(doc), x, b, c, f),
        root_key_order(*final(doc)) == with_key(root_key_order(*old(doc)), a@),
        sub_key_order(*final(doc), a@).len() == 0,
        forall|b: Seq<char>| #[trigger] leaf_key_order(*final(doc), a@, b).len() == 0,
        forall|x: Seq<char>| x != a@ ==> #[trigger] sub_key_order(*final(doc), x) == sub_key_order(*old(doc), x),
        forall|x: Seq<char>, b: Seq<char>|
            x != a@ ==> #[trigger] leaf_key_order(*final(doc), x, b) == leaf_key_order(*old(doc), x, b),
        forall|x: Seq<char>| x != a@ ==> #[trigger] root_item(*final(doc), x) == root_item(*old(doc), x),
{
    let mut t = Table::new();
    t.set_implicit(true);
    doc.insert(a, toml_edit::Item::Table(t));
}

// ---------------------------------------------------------------------------
// Tables under the root
// ---------------------------------------------------------------------------

/// `Table::remove` in the root table `table`: `doc[table][key]` is gone;
/// everything else is as it was.
#[verifier::external_body]
pub(crate) fn table_remove(doc: &mut DocumentMut, table: &str, key: &str)
    requires
        doc_table_at(*old(doc), table@),
    ensures
        inline_entry(*final(doc), table@, key@) is None,
        forall|t: Seq<char>| #[trigger] doc_has_key(*final(doc), t) == doc_has_key(*old(doc), t),
        forall|t: Seq<char>| #[trigger] doc_table_at(*final(doc), t) == doc_table_at(*old(doc), t),
        forall|t: Seq<char>, k: Seq<char>|
            (t != table@ || k != key@) ==> #[trigger] inline_entry(*final(doc), t, k) == inline_entry(
                *old(doc),
                t,
                k,
            ),
        table@ == "actions"@ ==> action_values(*final(doc)) == action_values(*old(doc)).remove(key@),
        table@ == "actions"@ && key@ == "overrides"@ ==> lacks_overrides(*final(doc)),
        !(table@ == "actions"@ && key@ == "overrides"@) ==> override_state(*final(doc)) == override_state(*old(doc)),
        table@ != "actions"@ ==> action_values(*final(doc)) == action_values(*old(doc)),
        forall|x: Seq<char>| x != table@ ==> #[trigger] root_item(*final(doc), x) == root_item(*old(doc), x),
        sub_key_order(*final(doc), table@) == remove_key(sub_key_order(*old(doc), table@), key@),
{
    if let Some(t) = doc.get_mut(table).and_then(toml_edit::Item::as_table_mut) {
        t.remove(key);
    }
}

/// `Table::insert` of a string value in the root table `table`:
/// `doc[table][key]` now holds `value`; everything else is as it was.
#[verifier::external_body]
pub(crate) fn table_insert_text(doc: &mut DocumentMut, table: &str, key: &str, value: &str)
    requires
        doc_table_at(*old(doc), table@),
    ensures
        forall|t: Seq<char>| #[trigger] doc_has_key(*final(doc), t) == doc_has_key(*old(doc), t),
        forall|t: Seq<char>| #[trigger] doc_table_at(*final(doc), t) == doc_table_at(*old(doc), t),
        table@ == "actions"@ ==> action_values(*final(doc)) == action_values(*old(doc)).insert(key@, value@),
        table@ == "actions"@ && key@ == "overrides"@ ==> overrides_not_table(*final(doc)),
        !(table@ == "actions"@ && key@ == "overrides"@) ==> override_state(*final(doc)) == override_state(*old(doc)),
        table@ != "actions"@ ==> action_values(*final(doc)) == action_values(*old(doc)),
        table@ == "actions"@ ==> sub_key_order(*final(doc), "actions"@) == with_key(sub_key_order(*old(doc), "actions"@), key@),
        table@ == "actions"@ && key@ != "overrides"@ ==> leaf_key_order(*final(doc), "actions"@, "overrides"@)
            == leaf_key_order(*old(doc), "actions"@, "overrides"@),
        table@ == "actions"@ && key@ == "overrides"@ ==> leaf_key_order(*final(doc), "actions"@, "overrides"@).len() == 0,
        forall|x: Seq<char>| x != table@ ==> #[trigger] root_item(*final(doc), x) == root_item(*old(doc), x),
        forall|x: Seq<char>, k: Seq<char>| x != table@ ==> #[trigger] inline_entry(*final(doc), x, k) == inline_entry(*old(doc), x, k),
{
    if let Some(t) = doc.get_mut(table).and_then(toml_edit::Item::as_table_mut) {
        t.insert(key, toml_edit::value(value));
    }
}

/// `Table::insert` of an inline table value in the root table `table`:
/// `doc[table][key]` now holds `value`; everything else is as it was.
#[verifier::external_body]
pub(crate) fn table_insert_inline(doc: &mut DocumentMut, table: &str, key: &str, value: InlineTable)
    requires
        doc_table_at(*old(doc), table@),
    ensures
        inline_entry(*final(doc), table@, key@) == Some(inline_fields(value)),
        forall|t: Seq<char>| #[trigger] doc_table_at(*final(doc), t) == doc_table_at(*old(doc), t),
        forall|t: Seq<char>, k: Seq<char>|
            (t != table@ || k != key@) ==> #[trigger] inline_entry(*final(doc), t, k) == inline_entry(
                *old(doc),
                t,
                k,
            ),
        forall|x: Seq<char>| x != table@ ==> #[trigger] root_item(*final(doc), x) == root_item(*old(doc), x),
        forall|t: Seq<char>| #[trigger] doc_has_key(*final(doc), t) == doc_has_key(*old(doc), t),
{
    if let Some(t) = doc.get_mut(table).and_then(toml_edit::Item::as_table_mut) {
        t.insert(key, toml_edit::value(value));
    }
}

/// `InlineTable::insert` of a string field into the inline table at
/// `doc[table][key]`, when that item is an inline table; otherwise nothing changes.
#[verifier::external_body]
pub(crate) fn entry_set_text(doc: &mut DocumentMut, table: &str, key: &str, field: &str, value: &str)
    requires
        doc_table_at(*old(doc), table@),
    ensures
        inline_entry(*final(doc), table@, key@) == match inline_entry(*old(doc), table@, key@) {
            Some(f) => Some(f.insert(field@, value@)),
            None => None,
        },
        forall|t: Seq<char>| #[trigger] doc_table_at(*final(doc), t) == doc_table_at(*old(doc), t),
        forall|t: Seq<char>, k: Seq<char>|
            (t != table@ || k != key@) ==> #[trigger] inline_entry(*final(doc), t, k) == inline_entry(
                *old(doc),
                t,
                k,
            ),
        forall|x: Seq<char>| x != table@ ==> #[trigger] root_item(*final(doc), x) == root_item(*old(doc), x),
        forall|t: Seq<char>| #[trigger] doc_has_key(*final(doc), t) == doc_has_key(*old(doc), t),
{
    if let Some(inline) = doc
        .get_mut(table)
        .and_then(toml_edit::Item::as_table_mut)
        .and_then(|t| t.get_mut(key))
        .and_then(toml_edit::Item::as_inline_table_mut)
    {
        inline.insert(field, value.into());
    }
}

/// `InlineTable::remove` of a field of the inline table at
/// `doc[table][key]`, when that item is an inline table; otherwise nothing changes.
#[verifier::external_body]
pub(crate) fn entry_remove_field(doc: &mut DocumentMut, table: &str, key: &str, field: &str)
    requires
        doc_table_at(*old(doc), table@),
    ensures
        inline_entry(*final(doc), table@, key@) == match inline_entry(*old(doc), table@, key@) {
            Some(f) => Some(f.remove(field@)),
            None => None,
        },
        forall|t: Seq<char>| #[trigger] doc_table_at(*final(doc), t) == doc_table_at(*old(doc), t),
        forall|t: Seq<char>, k: Seq<char>|
            (t != table@ || k != key@) ==> #[trigger] inline_entry(*final(doc), t, k) == inline_entry(
                *old(doc),
                t,
                k,
            ),
        forall|x: Seq<char>| x != table@ ==> #[trigger] root_item(*final(doc), x) == root_item(*old(doc), x),
        forall|t: Seq<char>| #[trigger] doc_has_key(*final(doc), t) == doc_has_key(*old(doc), t),
{
    if let Some(inline) = doc
        .get_mut(table)
        .and_then(toml_edit::Item::as_table_mut)
        .and_then(|t| t.get_mut(key))
        .and_then(toml_edit::Item::as_inline_table_mut)
    {
        inline.remove(field);
    }
}

/// `Table::sort_values` of the root table `table`: entries are reordered by
/// key; what each holds is unchanged.
#[verifier::external_body]
pub(crate) fn table_sort(doc: &mut DocumentMut, table: &str)
    requires
        doc_table_at(*old(doc), table@),
    ensures
        forall|t: Seq<char>| #[trigger] doc_has_key(*final(doc), t) == doc_has_key(*old(doc), t),
        forall|t: Seq<char>| #[trigger] doc_table_at(*final(doc), t) == doc_table_at(*old(doc), t),
        forall|t: Seq<char>, k: Seq<char>| #[trigger] inline_entry(*final(doc), t, k) == inline_entry(*old(doc), t, k),
        action_values(*final(doc)) == action_values(*old(doc)),
        override_state(*final(doc)) == override_state(*old(doc)),
        forall|x: Seq<char>| x != table@ ==> #[trigger] root_item(*final(doc), x) == root_item(*old(doc), x),
        sorted_texts(sub_key_order(*final(doc), table@)),
        sub_key_order(*final(doc), table@).to_multiset() == sub_key_order(*old(doc), table@).to_multiset(),
{
    if let Some(t) = doc.get_mut(table).and_then(toml_edit::Item::as_table_mut) {
        t.sort_values();
    }
}

/// `Table::get` in the root table `a`: whether `doc[a][b]` is present.
#[verifier::external_body]
pub(crate) fn sub_has(doc: &DocumentMut, a: &str, b: &str) -> (r: bool)
    requires
        doc_table_at(*doc, a@),
    ensures
        r == nested_has(*doc, a@, b@),
{
    doc.get(a).and_then(toml_edit::Item::as_table).and_then(|t| t.get(b)).is_some()
}

/// `Table::insert` in the root table `a` of a new implicit table at `b`.
#[verifier::external_body]
pub(crate) fn insert_sub_table(doc: &mut DocumentMut, a: &str, b: &str)
    requires
        doc_table_at(*old(doc), a@),
    ensures
        nested_has(*final(doc), a@, b@),
        nested_is_table(*final(doc), a@, b@),
        forall|x: Seq<char>| #[trigger] doc_table_at(*final(doc), x) == doc_table_at(*old(doc), x),
        forall|x: Seq<char>, y: Seq<char>|
            (x != a@ || y != b@) ==> #[trigger] nested_has(*final(doc), x, y) == nested_has(*old(doc), x, y),
        forall|x: Seq<char>, y: Seq<char>|
            (x != a@ || y != b@) ==> #[trigger] nested_is_table(*final(doc), x, y) == nested_is_table(*old(doc), x, y),
        forall|c: Seq<char>, f: Seq<char>| #[trigger] nested_text(*final(doc), a@, b@, c, f) is None,
        forall|x: Seq<char>, y: Seq<char>, c: Seq<char>, f: Seq<char>|
            (x != a@ || y != b@) ==> #[trigger] nested_text(*final(doc), x, y, c, f) == nested_text(
                *old(doc),
                x,
                y,
                c,
                f,
            ),
        root_key_order(*final(doc)) == root_key_order(*old(doc)),
        sub_key_order(*final(doc), a@) == with_key(sub_key_order(*old(doc), a@), b@),
        leaf_key_order(*final(doc), a@, b@).len() == 0,
        forall|x: Seq<char>| x != a@ ==> #[trigger] sub_key_order(*final(doc), x) == sub_key_order(*old(doc), x),
        forall|x: Seq<char>, y: Seq<char>|
            (x != a@ || y != b@) ==> #[trigger] leaf_key_order(*final(doc), x, y) == leaf_key_order(*old(doc), x, y),
        forall|x: Seq<char>| x != a@ ==> #[trigger] root_item(*final(doc), x) == root_item(*old(doc), x),
{
    if let Some(parent) = doc.get_mut(a).and_then(toml_edit::Item::as_table_mut) {
        let mut t = Table::new();
        t.set_implicit(true);
        parent.insert(b, toml_edit::Item::Table(t));
    }
}

/// `Table::insert` in the table `doc[a][b]` of the table `t` at `c`.
#[verifier::external_body]
pub(crate) fn insert_leaf_table(doc: &mut DocumentMut, a: &str, b: &str, c: &str, t: Table)
    requires
        doc_table_at(*old(doc), a@),
        nested_is_table(*old(doc), a@, b@),
    ensures
        forall|f: Seq<char>| #[trigger] nested_text(*final(doc), a@, b@, c@, f) == text_field(table_texts(t), f),
        forall|x: Seq<char>| #[trigger] doc_table_at(*final(doc), x) == doc_table_at(*old(doc), x),
        forall|x: Seq<char>, y: Seq<char>| #[trigger] nested_has(*final(doc), x, y) == nested_has(*old(doc), x, y),
        forall|x: Seq<char>, y: Seq<char>| #[trigger] nested_is_table(*final(doc), x, y) == nested_is_table(*old(doc), x, y),
        forall|x: Seq<char>, y: Seq<char>, z: Seq<char>, f: Seq<char>|
            (x != a@ || y != b@ || z != c@) ==> #[trigger] nested_text(*final(doc), x, y, z, f) == nested_text(
                *old(doc),
                x,
                y,
                z,
                f,
            ),
        root_key_order(*final(doc)) == root_key_order(*old(doc)),
        forall|x: Seq<char>| #[trigger] sub_key_order(*final(doc), x) == sub_key_order(*old(doc), x),
        leaf_key_order(*final(doc), a@, b@) == with_key(leaf_key_order(*old(doc), a@, b@), c@),
        forall|x: Seq<char>, y: Seq<char>|
            (x != a@ || y != b@) ==> #[trigger] leaf_key_order(*final(doc), x, y) == leaf_key_order(*old(doc), x, y),
        forall|x: Seq<char>| x != a@ ==> #[trigger] root_item(*final(doc), x) == root_item(*old(doc), x),
{
    if let Some(parent) = doc
        .get_mut(a)
        .and_then(toml_edit::Item::as_table_mut)
        .and_then(|p| p.get_mut(b))
        .and_then(toml_edit::Item::as_table_mut)
    {
        parent.insert(c, toml_edit::Item::Table(t));
    }
}

// ---------------------------------------------------------------------------
// The `actions.overrides` table
// ---------------------------------------------------------------------------

/// `Table::get` of `overrides` in the `actions` table: whether it is there.
#[verifier::external_body]
pub(crate) fn has_overrides(doc: &DocumentMut) -> (r: bool)
    requires
        doc_table_at(*doc, "actions"@),
    ensures
        r == overrides_present(*doc),
{
    doc.get("actions").and_then(toml_edit::Item::as_table).and_then(|t| t.get("overrides")).is_some()
}

/// `Item::is_table` of `actions.overrides`.
#[verifier::external_body]
pub(crate) fn overrides_table(doc: &DocumentMut) -> (r: bool)
    requires
        doc_table_at(*doc, "actions"@),
    ensures
        r == overrides_is_table(*doc),
        r ==> overrides_present(*doc),
{
    let t = doc.get("actions").and_then(toml_edit::Item::as_table).and_then(|t| t.get("overrides"));
    matches!(t, Some(toml_edit::Item::Table(_)))
}

/// `Table::insert` of a new empty table at `overrides` in the `actions` table.
#[verifier::external_body]
pub(crate) fn insert_overrides_table(doc: &mut DocumentMut)
    requires
        doc_table_at(*old(doc), "actions"@),
    ensures
        empty_overrides_table(*final(doc)),
        action_values(*final(doc)) == action_values(*old(doc)).remove("overrides"@),
        forall|t: Seq<char>| #[trigger] doc_has_key(*final(doc), t) == doc_has_key(*old(doc), t),
        forall|t: Seq<char>| #[trigger] doc_table_at(*final(doc), t) == doc_table_at(*old(doc), t),
        sub_key_order(*final(doc), "actions"@) == with_key(sub_key_order(*old(doc), "actions"@), "overrides"@),
        leaf_key_order(*final(doc), "actions"@, "overrides"@) == Seq::<Seq<char>>::empty(),
        forall|x: Seq<char>| x != "actions"@ ==> #[trigger] root_item(*final(doc), x) == root_item(*old(doc), x),
        forall|x: Seq<char>, k: Seq<char>| x != "actions"@ ==> #[trigger] inline_entry(*final(doc), x, k) == inline_entry(*old(doc), x, k),
{
    if let Some(t) = doc.get_mut("actions").and_then(toml_edit::Item::as_table_mut) {
        t.insert("overrides", toml_edit::Item::Table(Table::new()));
    }
}

/// `Table::is_empty` of the `actions.overrides` table.
#[verifier::external_body]
pub(crate) fn overrides_empty(doc: &DocumentMut) -> (r: bool)
    requires
        doc_table_at(*doc, "actions"@),
        overrides_is_table(*doc),
    ensures
        r == (override_keys(*doc) =~= Set::<Seq<char>>::empty()),
{
    let t = doc.get("actions").and_then(toml_edit::Item::as_table).and_then(|t| t.get("overrides"));
    t.and_then(toml_edit::Item::as_table).is_some_and(Table::is_empty)
}

/// `Table::contains_key` in the `actions.overrides` table.
#[verifier::external_body]
pub(crate) fn overrides_has(doc: &DocumentMut, id: &str) -> (r: bool)
    requires
        doc_table_at(*doc, "actions"@),
        overrides_is_table(*doc),
    ensures
        r == override_keys(*doc).contains(id@),
{
    let t = doc.get("actions").and_then(toml_edit::Item::as_table).and_then(|t| t.get("overrides"));
    t.and_then(toml_edit::Item::as_table).is_some_and(|t| t.contains_key(id))
}

/// The item at `actions.overrides[id]`, told apart: an array value (written
/// inline), an array of tables, or anything else or nothing.
#[verifier::external_body]
pub(crate) fn override_array_kind(doc: &DocumentMut, id: &str) -> (r: (bool, Option<usize>))
    requires
        doc_table_at(*doc, "actions"@),
        overrides_is_table(*doc),
    ensures
        r.0 == inline_array_keys(*doc).contains(id@),
        r.1 is Some == override_lists(*doc).contains_key(id@),
        r.1 matches Some(n) ==> n == override_lists(*doc)[id@].len(),
{
    let t = doc.get("actions").and_then(toml_edit::Item::as_table).and_then(|t| t.get("overrides"));
    match t.and_then(toml_edit::Item::as_table).and_then(|t| t.get(id)) {
        Some(toml_edit::Item::Value(toml_edit::Value::Array(a))) => (true, Some(a.len())),
        Some(toml_edit::Item::ArrayOfTables(a)) => (false, Some(a.len())),
        _ => (false, None),
    }
}

/// `Table::get` and `Item::as_str` / `Item::as_integer` of the `workflow`,
/// `job` and `step` fields of table `i` of the array of tables at
/// `actions.overrides[id]`.
#[verifier::external_body]
pub(crate) fn table_entry_at(doc: &DocumentMut, id: &str, i: usize) -> (r: (Option<String>, Option<String>, Option<i64>))
    requires
        doc_table_at(*doc, "actions"@),
        overrides_is_table(*doc),
        override_lists(*doc).contains_key(id@),
        !inline_array_keys(*doc).contains(id@),
        i < override_lists(*doc)[id@].len(),
    ensures
        (match r.0 { Some(s) => Some(s@), None => None }) == override_lists(*doc)[id@][i as int].0,
        (match r.1 { Some(s) => Some(s@), None => None }) == override_lists(*doc)[id@][i as int].1,
        r.2 == override_lists(*doc)[id@][i as int].2,
{
    let o = doc.get("actions").and_then(|t| t.get("overrides")).and_then(|t| t.get(id));
    let e = o.and_then(toml_edit::Item::as_array_of_tables).and_then(|a| a.get(i));
    let text = |k: &str| e.and_then(|t| t.get(k)).and_then(toml_edit::Item::as_str).map(str::to_owned);
    (text("workflow"), text("job"), e.and_then(|t| t.get("step")).and_then(toml_edit::Item::as_integer))
}

/// `Value::as_inline_table`, then `InlineTable::get` and `Value::as_str` /
/// `Value::as_integer` of the `workflow`, `job` and `step` fields of element
/// `i` of the array value at `actions.overrides[id]`.
#[verifier::external_body]
pub(crate) fn inline_entry_at(doc: &DocumentMut, id: &str, i: usize) -> (r: (Option<String>, Option<String>, Option<i64>))
    requires
        doc_table_at(*doc, "actions"@),
        overrides_is_table(*doc),
        inline_array_keys(*doc).contains(id@),
        override_lists(*doc).contains_key(id@),
        i < override_lists(*doc)[id@].len(),
    ensures
        (match r.0 { Some(s) => Some(s@), None => None }) == override_lists(*doc)[id@][i as int].0,
        (match r.1 { Some(s) => Some(s@), None => None }) == override_lists(*doc)[id@][i as int].1,
        r.2 == override_lists(*doc)[id@][i as int].2,
{
    let o = doc.get("actions").and_then(|t| t.get("overrides")).and_then(|t| t.get(id));
    let e = o.and_then(toml_edit::Item::as_array).and_then(|a| a.get(i)).and_then(toml_edit::Value::as_inline_table);
    let text = |k: &str| e.and_then(|t| t.get(k)).and_then(toml_edit::Value::as_str).map(str::to_owned);
    (text("workflow"), text("job"), e.and_then(|t| t.get("step")).and_then(toml_edit::Value::as_integer))
}

/// `ArrayOfTables::remove` / `Array::remove` of entry `i` of the array at
/// `actions.overrides[id]`.
#[verifier::external_body]
pub(crate) fn override_remove_at(doc: &mut DocumentMut, id: &str, i: usize)
    requires
        doc_table_at(*old(doc), "actions"@),
        overrides_is_table(*old(doc)),
        override_lists(*old(doc)).contains_key(id@),
        i < override_lists(*old(doc))[id@].len(),
    ensures
        override_lists(*final(doc)) == override_lists(*old(doc)).insert(id@, override_lists(*old(doc))[id@].remove(i as int)),
        overrides_present(*final(doc)) == overrides_present(*old(doc)),
        overrides_is_table(*final(doc)) == overrides_is_table(*old(doc)),
        override_keys(*final(doc)) == override_keys(*old(doc)),
        inline_array_keys(*final(doc)) == inline_array_keys(*old(doc)),
        action_values(*final(doc)) == action_values(*old(doc)),
        forall|t: Seq<char>| #[trigger] doc_has_key(*final(doc), t) == doc_has_key(*old(doc), t),
        forall|t: Seq<char>| #[trigger] doc_table_at(*final(doc), t) == doc_table_at(*old(doc), t),
        sub_key_order(*final(doc), "actions"@) == sub_key_order(*old(doc), "actions"@),
        leaf_key_order(*final(doc), "actions"@, "overrides"@) == leaf_key_order(*old(doc), "actions"@, "overrides"@),
        forall|x: Seq<char>| x != "actions"@ ==> #[trigger] root_item(*final(doc), x) == root_item(*old(doc), x),
        forall|x: Seq<char>, k: Seq<char>| x != "actions"@ ==> #[trigger] inline_entry(*final(doc), x, k) == inline_entry(*old(doc), x, k),
{
    let o = doc.get_mut("actions").and_then(|t| t.get_mut("overrides")).and_then(|t| t.get_mut(id));
    match o {
        Some(toml_edit::Item::ArrayOfTables(a)) => {
            a.remove(i);
        },
        Some(toml_edit::Item::Value(toml_edit::Value::Array(a))) => {
            a.remove(i);
        },
        _ => {},
    }
}

/// `Table::remove` of `id` in the `actions.overrides` table.
#[verifier::external_body]
pub(crate) fn overrides_remove(doc: &mut DocumentMut, id: &str)
    requires
        doc_table_at(*old(doc), "actions"@),
        overrides_is_table(*old(doc)),
    ensures
        override_lists(*final(doc)) == override_lists(*old(doc)).remove(id@),
        override_keys(*final(doc)) == override_keys(*old(doc)).remove(id@),
        inline_array_keys(*final(doc)) == inline_array_keys(*old(doc)).remove(id@),
        overrides_present(*final(doc)) == overrides_present(*old(doc)),
        overrides_is_table(*final(doc)) == overrides_is_table(*old(doc)),
        action_values(*final(doc)) == action_values(*old(doc)),
        forall|t: Seq<char>| #[trigger] doc_has_key(*final(doc), t) == doc_has_key(*old(doc), t),
        forall|t: Seq<char>| #[trigger] doc_table_at(*final(doc), t) == doc_table_at(*old(doc), t),
        forall|x: Seq<char>| x != "actions"@ ==> #[trigger] root_item(*final(doc), x) == root_item(*old(doc), x),
        sub_key_order(*final(doc), "actions"@) == sub_key_order(*old(doc), "actions"@),
        forall|x: Seq<char>, k: Seq<char>| x != "actions"@ ==> #[trigger] inline_entry(*final(doc), x, k) == inline_entry(*old(doc), x, k),
{
    let o = doc.get_mut("actions").and_then(|t| t.get_mut("overrides")).and_then(toml_edit::Item::as_table_mut);
    if let Some(t) = o {
        t.remove(id);
    }
}

/// `Table::insert` of an empty array value at `id` in the `actions.overrides` table.
#[verifier::external_body]
pub(crate) fn overrides_insert_array(doc: &mut DocumentMut, id: &str)
    requires
        doc_table_at(*old(doc), "actions"@),
        overrides_is_table(*old(doc)),
    ensures
        override_lists(*final(doc)) == override_lists(*old(doc)).insert(id@, Seq::empty()),
        override_keys(*final(doc)) == override_keys(*old(doc)).insert(id@),
        inline_array_keys(*final(doc)) == inline_array_keys(*old(doc)).insert(id@),
        overrides_present(*final(doc)) == overrides_present(*old(doc)),
        overrides_is_table(*final(doc)) == overrides_is_table(*old(doc)),
        action_values(*final(doc)) == action_values(*old(doc)),
        forall|t: Seq<char>| #[trigger] doc_has_key(*final(doc), t) == doc_has_key(*old(doc), t),
        forall|t: Seq<char>| #[trigger] doc_table_at(*final(doc), t) == doc_table_at(*old(doc), t),
        sub_key_order(*final(doc), "actions"@) == sub_key_order(*old(doc), "actions"@),
        leaf_key_order(*final(doc), "actions"@, "overrides"@) == with_key(leaf_key_order(*old(doc), "actions"@, "overrides"@), id@),
        forall|x: Seq<char>| x != "actions"@ ==> #[trigger] root_item(*final(doc), x) == root_item(*old(doc), x),
        forall|x: Seq<char>, k: Seq<char>| x != "actions"@ ==> #[trigger] inline_entry(*final(doc), x, k) == inline_entry(*old(doc), x, k),
{
    let o = doc.get_mut("actions").and_then(|t| t.get_mut("overrides")).and_then(toml_edit::Item::as_table_mut);
    if let Some(t) = o {
        t.insert(id, toml_edit::value(toml_edit::Array::new()));
    }
}

/// `Array::push` of an inline table onto the array value at `actions.overrides[id]`.
#[verifier::external_body]
pub(crate) fn override_push(doc: &mut DocumentMut, id: &str, entry: InlineTable)
    requires
        doc_table_at(*old(doc), "actions"@),
        overrides_is_table(*old(doc)),
        inline_array_keys(*old(doc)).contains(id@),
        override_lists(*old(doc)).contains_key(id@),
    ensures
        override_lists(*final(doc)) == override_lists(*old(doc)).insert(id@, override_lists(*old(doc))[id@].push(entry_view(entry))),
        override_keys(*final(doc)) == override_keys(*old(doc)),
        inline_array_keys(*final(doc)) == inline_array_keys(*old(doc)),
        overrides_present(*final(doc)) == overrides_present(*old(doc)),
        overrides_is_table(*final(doc)) == overrides_is_table(*old(doc)),
        action_values(*final(doc)) == action_values(*old(doc)),
        forall|t: Seq<char>| #[trigger] doc_has_key(*final(doc), t) == doc_has_key(*old(doc), t),
        forall|t: Seq<char>| #[trigger] doc_table_at(*final(doc), t) == doc_table_at(*old(doc), t),
        sub_key_order(*final(doc), "actions"@) == sub_key_order(*old(doc), "actions"@),
        leaf_key_order(*final(doc), "actions"@, "overrides"@) == leaf_key_order(*old(doc), "actions"@, "overrides"@),
        forall|x: Seq<char>| x != "actions"@ ==> #[trigger] root_item(*final(doc), x) == root_item(*old(doc), x),
        forall|x: Seq<char>, k: Seq<char>| x != "actions"@ ==> #[trigger] inline_entry(*final(doc), x, k) == inline_entry(*old(doc), x, k),
{
    let o = doc.get_mut("actions").and_then(|t| t.get_mut("overrides")).and_then(|t| t.get_mut(id));
    if let Some(a) = o.and_then(toml_edit::Item::as_array_mut) {
        a.push(entry);
    }
}

/// `Table::sort_values` of the `actions.overrides` table: entries are
/// reordered by key; what each holds is unchanged.
#[verifier::external_body]
pub(crate) fn overrides_sort(doc: &mut DocumentMut)
    requires
        doc_table_at(*old(doc), "actions"@),
        overrides_is_table(*old(doc)),
    ensures
        override_state(*final(doc)) == override_state(*old(doc)),
        action_values(*final(doc)) == action_values(*old(doc)),
        forall|t: Seq<char>| #[trigger] doc_has_key(*final(doc), t) == doc_has_key(*old(doc), t),
        forall|t: Seq<char>| #[trigger] doc_table_at(*final(doc), t) == doc_table_at(*old(doc), t),
        sub_key_order(*final(doc), "actions"@) == sub_key_order(*old(doc), "actions"@),
        leaf_key_order(*final(doc), "actions"@, "overrides"@).to_multiset() == leaf_key_order(*old(doc), "actions"@, "overrides"@).to_multiset(),
        forall|i: int, j: int|
            0 <= i < j < leaf_key_order(*final(doc), "actions"@, "overrides"@).len() ==> text_le(
                #[trigger] leaf_key_order(*final(doc), "actions"@, "overrides"@)[i],
                #[trigger] leaf_key_order(*final(doc), "actions"@, "overrides"@)[j],
                false,
            ),
        forall|x: Seq<char>| x != "actions"@ ==> #[trigger] root_item(*final(doc), x) == root_item(*old(doc), x),
        forall|x: Seq<char>, k: Seq<char>| x != "actions"@ ==> #[trigger] inline_entry(*final(doc), x, k) == inline_entry(*old(doc), x, k),
{
    let o = doc.get_mut("actions").and_then(|t| t.get_mut("overrides")).and_then(toml_edit::Item::as_table_mut);
    if let Some(t) = o {
        t.sort_values();
    }
}

// ---------------------------------------------------------------------------
// Free-standing tables
// ---------------------------------------------------------------------------

/// `InlineTable::new`: an empty inline table.
#[verifier::external_body]
pub(crate) fn new_inline_table() -> (r: InlineTable)
    ensures
        inline_fields(r) =~= Map::empty(),
        inline_ints(r) =~= Map::empty(),
{
    InlineTable::new()
}

/// `InlineTable::insert` of a string field.
#[verifier::external_body]
pub(crate) fn inline_insert_text(t: &mut InlineTable, field: &str, value: &str)
    ensures
        inline_fields(*final(t)) == inline_fields(*old(t)).insert(field@, value@),
        inline_ints(*final(t)) == inline_ints(*old(t)).remove(field@),
{
    t.insert(field, value.into());
}

/// `InlineTable::insert` of an integer field.
#[verifier::external_body]
pub(crate) fn inline_insert_int(t: &mut InlineTable, field: &str, value: i64)
    ensures
        inline_ints(*final(t)) == inline_ints(*old(t)).insert(field@, value),
        inline_fields(*final(t)) == inline_fields(*old(t)).remove(field@),
{
    t.insert(field, value.into());
}

/// `Table::new`: an empty table.
#[verifier::external_body]
pub(crate) fn new_table() -> (r: Table)
    ensures
        table_texts(r) =~= Map::empty(),
{
    Table::new()
}

/// `Table::insert` of a string value into a free-standing table.
#[verifier::external_body]
pub(crate) fn table_set_text(t: &mut Table, f: &str, v: &str)
    ensures
        table_texts(*final(t)) == table_texts(*old(t)).insert(f@, v@),
{
    t.insert(f, toml_edit::value(v));
}

} // verus!
