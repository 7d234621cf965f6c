//! Applying a lock diff to an existing lock file in place, through
//! `toml_edit`, so that what the diff does not touch keeps its formatting.

use vstd::prelude::*;
use crate::identity::{LockKey, key_text, ref_type_name, ref_type_to_str};
use crate::lock::{LockDiff, LockEntry, LockEntryPatch, opt_view, text_or};
use vstd::string::StringExecFns;
use crate::toml_doc::{
    doc_has_key, doc_table_at, inline_entry, inline_fields, toml_text, parse_document, DocView,
    doc_view, view_entry, view_root, toml_parse, root_item, sorted_texts, sub_key_order,
    document_text, document_has, document_is_table, document_insert_table, table_remove,
    table_insert_inline, entry_set_text, entry_remove_field, table_sort, new_inline_table,
    inline_insert_text,
};
use toml_edit::{DocumentMut, InlineTable};

verus! {

/// The six fields a lock entry is written with.
pub open spec fn entry_fields(k: LockKey, e: LockEntry) -> Map<Seq<char>, Seq<char>> {
    Map::empty().insert("sha"@, e.sha@).insert("version"@, text_or(opt_view(e.version), k.version@)).insert(
        "specifier"@,
        text_or(opt_view(e.specifier), ""@),
    ).insert("repository"@, e.repository@).insert("ref_type"@, ref_type_name(e.ref_type)).insert(
        "date"@,
        e.date@,
    )
}

/// The fields of an entry after a patch: a new version is set and a cleared
/// one removed; a new specifier is set and a cleared one written empty.
pub open spec fn patched_fields(f: Map<Seq<char>, Seq<char>>, p: LockEntryPatch) -> Map<Seq<char>, Seq<char>> {
    let f1 = match p.version {
        Some(Some(v)) => f.insert("version"@, v@),
        Some(None) => f.remove("version"@),
        None => f,
    };
    match p.specifier {
        Some(Some(s)) => f1.insert("specifier"@, s@),
        Some(None) => f1.insert("specifier"@, ""@),
        None => f1,
    }
}

/// Whether some removed key is written as `kt`.
pub open spec fn removes(rs: Seq<LockKey>, kt: Seq<char>) -> bool {
    exists|i: int| 0 <= i < rs.len() && key_text(rs[i].id@, rs[i].version@) == kt
}

/// The entry at key text `kt` after the additions, in order.
pub open spec fn after_adds(e: Option<Map<Seq<char>, Seq<char>>>, adds: Seq<(LockKey, LockEntry)>, kt: Seq<char>) -> Option<
    Map<Seq<char>, Seq<char>>,
>
    decreases adds.len(),
{
    if adds.len() == 0 {
        e
    } else {
        let (k, entry) = adds.last();
        if key_text(k.id@, k.version@) == kt {
            Some(entry_fields(k, entry))
        } else {
            after_adds(e, adds.drop_last(), kt)
        }
    }
}

/// The entry at key text `kt` after the patches, in order; a patch to an
/// absent entry does nothing.
pub open spec fn after_updates(e: Option<Map<Seq<char>, Seq<char>>>, ups: Seq<(LockKey, LockEntryPatch)>, kt: Seq<char>) -> Option<
    Map<Seq<char>, Seq<char>>,
>
    decreases ups.len(),
{
    if ups.len() == 0 {
        e
    } else {
        let before = after_updates(e, ups.drop_last(), kt);
        let (k, p) = ups.last();
        if key_text(k.id@, k.version@) == kt {
            match before {
                Some(f) => Some(patched_fields(f, p)),
                None => None,
            }
        } else {
            before
        }
    }
}

/// The entry at key text `kt` after a diff: removals first, then additions,
/// then patches.
pub open spec fn entry_after_diff(old: Option<Map<Seq<char>, Seq<char>>>, diff: LockDiff, kt: Seq<char>) -> Option<
    Map<Seq<char>, Seq<char>>,
> {
    after_updates(
        after_adds(if removes(diff.removed@, kt) { None } else { old }, diff.added@, kt),
        diff.updated@,
        kt,
    )
}

/// The diff changes nothing.
pub open spec fn lock_diff_empty(d: LockDiff) -> bool {
    d.added@.len() == 0 && d.removed@.len() == 0 && d.updated@.len() == 0
}

/// The table lock entries live in.
pub open spec fn actions_key() -> Seq<char> {
    "actions"@
}

fn entry_table(k: &LockKey, e: &LockEntry) -> (r: InlineTable)
    ensures
        inline_fields(r) == entry_fields(*k, *e),
{
    let mut t = new_inline_table();
    inline_insert_text(&mut t, "sha", e.sha.as_str());
    match &e.version {
        Some(v) => inline_insert_text(&mut t, "version", v.as_str()),
        None => inline_insert_text(&mut t, "version", k.version.as_str()),
    }
    match &e.specifier {
        Some(s) => inline_insert_text(&mut t, "specifier", s.as_str()),
        None => inline_insert_text(&mut t, "specifier", ""),
    }
    inline_insert_text(&mut t, "repository", e.repository.as_str());
    inline_insert_text(&mut t, "ref_type", ref_type_to_str(e.ref_type));
    inline_insert_text(&mut t, "date", e.date.as_str());
    t
}

/// Apply `diff` to the `[actions]` table of a lock document: creating the
/// table when missing, removing, adding, then patching entries, and finally
/// sorting the table. A `[actions]` item that is not a table is refused.
pub fn patch_lock_document(doc: &mut DocumentMut, diff: &LockDiff) -> (r: Result<(), String>)
    ensures
        (doc_has_key(*old(doc), actions_key()) && !doc_table_at(*old(doc), actions_key())) ==> (r matches Err(m) && m@
            == "[actions] is not a table"@),
        !(doc_has_key(*old(doc), actions_key()) && !doc_table_at(*old(doc), actions_key())) ==> r is Ok,
        r is Ok ==> forall|kt: Seq<char>|
            #[trigger] inline_entry(*final(doc), actions_key(), kt) == entry_after_diff(
                if doc_has_key(*old(doc), actions_key()) {
                    inline_entry(*old(doc), actions_key(), kt)
                } else {
                    None
                },
                *diff,
                kt,
            ),
        forall|x: Seq<char>| x != actions_key() ==> #[trigger] root_item(*final(doc), x) == root_item(*old(doc), x),
        forall|x: Seq<char>| x != actions_key() ==> #[trigger] doc_has_key(*final(doc), x) == doc_has_key(*old(doc), x),
        forall|x: Seq<char>| x != actions_key() ==> #[trigger] doc_table_at(*final(doc), x) == doc_table_at(*old(doc), x),
        forall|x: Seq<char>, k: Seq<char>|
            x != actions_key() ==> #[trigger] inline_entry(*final(doc), x, k) == inline_entry(*old(doc), x, k),
        r is Ok ==> sorted_texts(sub_key_order(*final(doc), actions_key())),
{
    let ghost start = *doc;
    if !document_has(doc, "actions") {
        document_insert_table(doc, "actions");
    }
    if !document_is_table(doc, "actions") {
        return Err(String::from_str("[actions] is not a table"));
    }
    let ghost base = *doc;
    proof {
        assert forall|kt: Seq<char>| #[trigger] inline_entry(base, actions_key(), kt) == (if doc_has_key(start, actions_key()) {
            inline_entry(start, actions_key(), kt)
        } else {
            None
        }) by {}
    }
    let mut i: usize = 0;
    while i < diff.removed.len()
        invariant
            i <= diff.removed@.len(),
            doc_table_at(*doc, actions_key()),
            forall|x: Seq<char>| x != actions_key() ==> #[trigger] root_item(*doc, x) == root_item(start, x),
            forall|x: Seq<char>| x != actions_key() ==> #[trigger] doc_has_key(*doc, x) == doc_has_key(start, x),
            forall|x: Seq<char>| x != actions_key() ==> #[trigger] doc_table_at(*doc, x) == doc_table_at(start, x),
            forall|x: Seq<char>, k: Seq<char>|
                x != actions_key() ==> #[trigger] inline_entry(*doc, x, k) == inline_entry(start, x, k),
            forall|kt: Seq<char>|
                #[trigger] inline_entry(*doc, actions_key(), kt) == if exists|j: int|
                    0 <= j < i && key_text(diff.removed@[j].id@, diff.removed@[j].version@) == kt {
                    None
                } else {
                    inline_entry(base, actions_key(), kt)
                },
        decreases diff.removed@.len() - i,
    {
        let kt = diff.removed[i].to_key_string();
        table_remove(doc, "actions", kt.as_str());
        proof {
            assert forall|t: Seq<char>| #[trigger] inline_entry(*doc, actions_key(), t) == if exists|j: int|
                0 <= j < i + 1 && key_text(diff.removed@[j].id@, diff.removed@[j].version@) == t {
                None
            } else {
                inline_entry(base, actions_key(), t)
            } by {
                if t == kt@ {
                    assert(key_text(diff.removed@[i as int].id@, diff.removed@[i as int].version@) == t);
                } else if exists|j: int| 0 <= j < i + 1 && key_text(diff.removed@[j].id@, diff.removed@[j].version@) == t {
                    let j = choose|j: int| 0 <= j < i + 1 && key_text(diff.removed@[j].id@, diff.removed@[j].version@) == t;
                    assert(j != i);
                }
            }
        }
        i = i + 1;
    }
    let ghost removed_state = *doc;
    let mut i: usize = 0;
    while i < diff.added.len()
        invariant
            i <= diff.added@.len(),
            doc_table_at(*doc, actions_key()),
            forall|x: Seq<char>| x != actions_key() ==> #[trigger] root_item(*doc, x) == root_item(start, x),
            forall|x: Seq<char>| x != actions_key() ==> #[trigger] doc_has_key(*doc, x) == doc_has_key(start, x),
            forall|x: Seq<char>| x != actions_key() ==> #[trigger] doc_table_at(*doc, x) == doc_table_at(start, x),
            forall|x: Seq<char>, k: Seq<char>|
                x != actions_key() ==> #[trigger] inline_entry(*doc, x, k) == inline_entry(start, x, k),
            forall|kt: Seq<char>|
                #[trigger] inline_entry(*doc, actions_key(), kt) == after_adds(
                    inline_entry(removed_state, actions_key(), kt),
                    diff.added@.take(i as int),
                    kt,
                ),
        decreases diff.added@.len() - i,
    {
        let k = &diff.added[i].0;
        let e = &diff.added[i].1;
        let kt = k.to_key_string();
        let value = entry_table(k, e);
        table_insert_inline(doc, "actions", kt.as_str(), value);
        proof {
            assert forall|t: Seq<char>| #[trigger] inline_entry(*doc, actions_key(), t) == after_adds(
                inline_entry(removed_state, actions_key(), t),
                diff.added@.take(i + 1),
                t,
            ) by {
                assert(diff.added@.take(i + 1).drop_last() =~= diff.added@.take(i as int));
                assert(diff.added@.take(i + 1).last() == diff.added@[i as int]);
            }
        }
        i = i + 1;
    }
    assert(diff.added@.take(diff.added@.len() as int) =~= diff.added@);
    let ghost added_state = *doc;
    let mut i: usize = 0;
    while i < diff.updated.len()
        invariant
            i <= diff.updated@.len(),
            doc_table_at(*doc, actions_key()),
            forall|x: Seq<char>| x != actions_key() ==> #[trigger] root_item(*doc, x) == root_item(start, x),
            forall|x: Seq<char>| x != actions_key() ==> #[trigger] doc_has_key(*doc, x) == doc_has_key(start, x),
            forall|x: Seq<char>| x != actions_key() ==> #[trigger] doc_table_at(*doc, x) == doc_table_at(start, x),
            forall|x: Seq<char>, k: Seq<char>|
                x != actions_key() ==> #[trigger] inline_entry(*doc, x, k) == inline_entry(start, x, k),
            forall|kt: Seq<char>|
                #[trigger] inline_entry(*doc, actions_key(), kt) == after_updates(
                    inline_entry(added_state, actions_key(), kt),
                    diff.updated@.take(i as int),
                    kt,
                ),
        decreases diff.updated@.len() - i,
    {
        let k = &diff.updated[i].0;
        let p = &diff.updated[i].1;
        let kt = k.to_key_string();
        let ghost mid = *doc;
        match &p.version {
            Some(Some(v)) => entry_set_text(doc, "actions", kt.as_str(), "version", v.as_str()),
            Some(None) => entry_remove_field(doc, "actions", kt.as_str(), "version"),
            None => {},
        }
        match &p.specifier {
            Some(Some(s)) => entry_set_text(doc, "actions", kt.as_str(), "specifier", s.as_str()),
            Some(None) => entry_set_text(doc, "actions", kt.as_str(), "specifier", ""),
            None => {},
        }
        proof {
            assert forall|t: Seq<char>| #[trigger] inline_entry(*doc, actions_key(), t) == after_updates(
                inline_entry(added_state, actions_key(), t),
                diff.updated@.take(i + 1),
                t,
            ) by {
                assert(diff.updated@.take(i + 1).drop_last() =~= diff.updated@.take(i as int));
                assert(diff.updated@.take(i + 1).last() == diff.updated@[i as int]);
                assert(inline_entry(mid, actions_key(), t) == after_updates(
                    inline_entry(added_state, actions_key(), t),
                    diff.updated@.take(i as int),
                    t,
                ));
            }
        }
        i = i + 1;
    }
    assert(diff.updated@.take(diff.updated@.len() as int) =~= diff.updated@);
    table_sort(doc, "actions");
    proof {
        assert forall|kt: Seq<char>| #[trigger] inline_entry(*doc, actions_key(), kt) == entry_after_diff(
            inline_entry(base, actions_key(), kt),
            *diff,
            kt,
        ) by {
            assert(inline_entry(removed_state, actions_key(), kt) == if removes(diff.removed@, kt) {
                None
            } else {
                inline_entry(base, actions_key(), kt)
            });
        }
    }
    Ok(())
}

/// Whether `t` is the text of a document whose `[actions]` entries are those
/// of the parsed view `v` (none when it has no `actions` key) with `diff` applied.
pub open spec fn lock_patched_text(v: DocView, diff: LockDiff, t: Seq<char>) -> bool {
    exists|after: DocumentMut|
        #[trigger] toml_text(after) == t && lock_patched(v, diff, after)
}

/// `after` is the parsed view `v` with `diff` applied to its `[actions]`
/// table, whose keys are then in ascending order; every other top-level item
/// is as `v` holds it.
pub open spec fn lock_patched(v: DocView, diff: LockDiff, after: DocumentMut) -> bool {
    &&& forall|kt: Seq<char>|
        #[trigger] inline_entry(after, actions_key(), kt) == entry_after_diff(
            if v.0.contains(actions_key()) {
                view_entry(v, actions_key(), kt)
            } else {
                None
            },
            diff,
            kt,
        )
    &&& sorted_texts(sub_key_order(after, actions_key()))
    &&& forall|x: Seq<char>| x != actions_key() ==> #[trigger] root_item(after, x) == view_root(v, x)
    &&& forall|x: Seq<char>| x != actions_key() ==> #[trigger] doc_has_key(after, x) == v.0.contains(x)
    &&& forall|x: Seq<char>| x != actions_key() ==> #[trigger] doc_table_at(after, x) == v.1.contains(x)
    &&& forall|x: Seq<char>, k: Seq<char>|
        x != actions_key() ==> #[trigger] inline_entry(after, x, k) == view_entry(v, x, k)
}

/// The lock file text after applying `diff` to `content`, or why it could
/// not be applied: content that does not parse, or an `[actions]` item that
/// is not a table. An empty diff leaves the content as it is, unread.
pub fn apply_lock_diff_to_text(content: &str, diff: &LockDiff) -> (r: Result<String, String>)
    ensures
        lock_diff_empty(*diff) ==> (r matches Ok(t) && t@ == content@),
        !lock_diff_empty(*diff) ==> match toml_parse(content@) {
            Err(pe) => r matches Err(m) && m@ == "toml_edit parse error: "@ + pe,
            Ok(v) => if v.0.contains(actions_key()) && !v.1.contains(actions_key()) {
                r matches Err(m) && m@ == "[actions] is not a table"@
            } else {
                r matches Ok(t) && lock_patched_text(v, *diff, t@)
            },
        },
{
    if diff.is_empty() {
        return Ok(String::from_str(content));
    }
    match parse_document(content) {
        Err(e) => {
            let mut m = String::from_str("toml_edit parse error: ");
            m.append(e.as_str());
            assert(m@ == "toml_edit parse error: "@ + e@);
            Err(m)
        },
        Ok(doc) => {
            let mut doc = doc;
            let ghost before = doc;
            let ghost v = doc_view(doc);
            assert forall|kt: Seq<char>| #[trigger] view_entry(v, actions_key(), kt) == inline_entry(before, actions_key(), kt) by {
                if inline_entry(before, actions_key(), kt) is Some {
                    assert(v.2.contains_key((actions_key(), kt)));
                } else {
                    assert(!v.2.contains_key((actions_key(), kt)));
                }
            }
            assert(v.0.contains(actions_key()) == doc_has_key(before, actions_key()));
            assert(v.1.contains(actions_key()) == doc_table_at(before, actions_key()));
            assert forall|x: Seq<char>| #[trigger] view_root(v, x) == root_item(before, x) by {
                if root_item(before, x) is Some {
                    assert(v.5.contains_key(x));
                } else {
                    assert(!v.5.contains_key(x));
                }
            }
            assert forall|x: Seq<char>, k: Seq<char>| #[trigger] view_entry(v, x, k) == inline_entry(before, x, k) by {
                if inline_entry(before, x, k) is Some {
                    assert(v.2.contains_key((x, k)));
                } else {
                    assert(!v.2.contains_key((x, k)));
                }
            }
            match patch_lock_document(&mut doc, diff) {
                Err(m) => Err(m),
                Ok(()) => {
                    let t = document_text(&doc);
                    assert(toml_text(doc) == t@);
                    assert(lock_patched(v, *diff, doc));
                    Ok(t)
                },
            }
        },
    }
}

} // verus!
