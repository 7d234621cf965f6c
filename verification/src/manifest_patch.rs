//! Applying a manifest diff to an existing manifest in place, and building a
//! manifest document from scratch, through `toml_edit`: the `[actions]` table
//! of version specifiers and its `[actions.overrides]` arrays.

use vstd::prelude::*;
use crate::identity::{ActionId, Version};
use crate::lock::opt_view;
use crate::assoc::{map_of, distinct_keys, lemma_map_of, MapKey};
use crate::manifest::{
    ActionOverride, Manifest, ManifestDiff, OverrideView, TomlOverride, override_entry_matches,
    manifest_to_data, nonempty_lists,
};
use crate::order::{Keyed, sorted_by_key, text_le};
use crate::toml_doc::{
    OverrideEntry, doc_has_key, doc_table_at, action_values, overrides_present, override_keys,
    override_lists, overrides_is_table, inline_array_keys, lacks_overrides, has_overrides,
    overrides_table, overrides_empty, override_array_kind, table_entry_at, inline_entry_at,
    override_remove_at, overrides_remove, table_remove, insert_overrides_table, overrides_has,
    overrides_insert_array, override_push, overrides_sort, new_inline_table, inline_insert_text,
    inline_insert_int, entry_view, override_state, document_remove, document_has,
    document_is_table, document_insert_table, table_insert_text, table_sort, parse_document,
    document_text, toml_text, new_document, no_override_entries, DocView, doc_view, toml_parse,
    sub_key_order, leaf_key_order, with_key, ascending_texts, root_item, inline_entry, sorted_texts,
    sorted_but, remove_key, key_position, view_root, view_entry,
};
use toml_edit::{DocumentMut, InlineTable};

verus! {

/// Whether a read-back override entry is `o`: the same workflow and job, and
/// the same step, where a negative or oversized step stands for the largest index.
pub open spec fn entry_is(e: OverrideEntry, o: ActionOverride) -> bool {
    &&& e.0 == Some(o.workflow@)
    &&& e.1 == opt_view(o.job)
    &&& match e.2 {
        Some(s) => o.step == Some(
            if 0 <= s && s <= usize::MAX {
                s as usize
            } else {
                usize::MAX
            },
        ),
        None => o.step is None,
    }
}

/// Whether a read-back entry is one of `os`.
pub open spec fn matches_any(e: OverrideEntry, os: Seq<ActionOverride>) -> bool {
    exists|j: int| 0 <= j < os.len() && entry_is(e, #[trigger] os[j])
}

/// An entry that a removal of `os` keeps.
pub open spec fn keeps(os: Seq<ActionOverride>) -> spec_fn(OverrideEntry) -> bool {
    |e: OverrideEntry| !matches_any(e, os)
}

/// The entries that a removal of `os` keeps, in order.
pub open spec fn kept_entries(list: Seq<OverrideEntry>, os: Seq<ActionOverride>) -> Seq<OverrideEntry> {
    list.filter(keeps(os))
}

proof fn lemma_filter_keeps_all<A>(s: Seq<A>, p: spec_fn(A) -> bool)
    requires
        forall|i: int| 0 <= i < s.len() ==> p(#[trigger] s[i]),
    ensures
        s.filter(p) == s,
    decreases s.len(),
{
    reveal(Seq::filter);
    if s.len() > 0 {
        lemma_filter_keeps_all(s.drop_last(), p);
        assert(s.drop_last().push(s.last()) =~= s);
    }
}

proof fn lemma_filter_drops_one<A>(x: A, p: spec_fn(A) -> bool)
    requires
        !p(x),
    ensures
        seq![x].filter(p) == Seq::<A>::empty(),
{
    reveal(Seq::filter);
    let e = Seq::<A>::empty();
    assert(e.filter(p) == e);
    assert(seq![x].drop_last() =~= e);
}

/// No position strictly between two neighbouring removed positions is rejected.
proof fn lemma_between_kept<A>(l: Seq<A>, idx: Seq<usize>, k: int, p: spec_fn(A) -> bool)
    requires
        l.len() <= usize::MAX,
        0 < k <= idx.len(),
        forall|i: int| 0 <= i < l.len() && !p(#[trigger] l[i]) ==> idx.contains(i as usize),
        forall|j: int, m: int| 0 <= j < m < idx.len() ==> idx[j] < idx[m],
        forall|j: int| 0 <= j < idx.len() ==> (#[trigger] idx[j]) < l.len(),
    ensures
        ({
            let pk = if k < idx.len() { idx[k] as int } else { l.len() as int };
            let q = idx[k - 1] as int;
            &&& q < pk <= l.len()
            &&& forall|m: int| q < m < pk ==> p(#[trigger] l[m])
        }),
{
    let pk = if k < idx.len() { idx[k] as int } else { l.len() as int };
    let q = idx[k - 1] as int;
    if k < idx.len() {
        assert(idx[k - 1] < idx[k]);
        assert(idx[k] < l.len());
    }
    assert(q < l.len());
    assert forall|m: int| q < m < pk implies p(#[trigger] l[m]) by {
        assert(0 <= m < l.len());
        if !p(l[m]) {
            assert(idx.contains(m as usize));
            let j = choose|j: int| 0 <= j < idx.len() && idx[j] == m as usize;
            if j < k - 1 {
                assert(idx[j] < idx[k - 1]);
            } else if j > k {
                assert(idx[k] < idx[j]);
            }
        }
    }
}

/// What the filter keeps of `l` from `q` on, when `l[q]` is dropped and
/// everything strictly between `q` and `pk` is kept.
proof fn lemma_filter_from<A>(l: Seq<A>, q: int, pk: int, p: spec_fn(A) -> bool)
    requires
        0 <= q < pk <= l.len(),
        !p(l[q]),
        forall|m: int| q < m < pk ==> p(#[trigger] l[m]),
    ensures
        l.skip(q).filter(p) == l.subrange(q + 1, pk) + l.skip(pk).filter(p),
{
    let mid = l.subrange(q + 1, pk);
    assert forall|i: int| 0 <= i < mid.len() implies p(#[trigger] mid[i]) by {
        assert(mid[i] == l[q + 1 + i]);
    }
    lemma_filter_keeps_all(mid, p);
    lemma_filter_drops_one(l[q], p);
    assert(l.skip(q) =~= seq![l[q]] + mid + l.skip(pk));
    Seq::filter_distributes_over_add(seq![l[q]] + mid, l.skip(pk), p);
    Seq::filter_distributes_over_add(seq![l[q]], mid, p);
    assert(Seq::<A>::empty() + mid =~= mid);
}

proof fn lemma_remove_in_front<A>(l: Seq<A>, rest: Seq<A>, q: int, pk: int)
    requires
        0 <= q < pk <= l.len(),
    ensures
        (l.take(pk) + rest).remove(q) == l.take(q) + (l.subrange(q + 1, pk) + rest),
{
    assert((l.take(pk) + rest).remove(q) =~= l.take(q) + (l.subrange(q + 1, pk) + rest));
}

/// Removing positions `idx` (increasing, exactly the entries `p` rejects) of
/// `l` from the last back leaves `l.filter(p)`: the step that removes `idx[k - 1]`.
proof fn lemma_remove_step<A>(l: Seq<A>, idx: Seq<usize>, k: int, p: spec_fn(A) -> bool)
    requires
        l.len() <= usize::MAX,
        0 < k <= idx.len(),
        forall|j: int| 0 <= j < idx.len() ==> (#[trigger] idx[j]) < l.len() && !p(l[idx[j] as int]),
        forall|i: int| 0 <= i < l.len() && !p(#[trigger] l[i]) ==> idx.contains(i as usize),
        forall|j: int, m: int| 0 <= j < m < idx.len() ==> idx[j] < idx[m],
    ensures
        ({
            let pk = if k < idx.len() { idx[k] as int } else { l.len() as int };
            let q = idx[k - 1] as int;
            (l.take(pk) + l.skip(pk).filter(p)).remove(q) == l.take(q) + l.skip(q).filter(p)
        }),
{
    let pk = if k < idx.len() { idx[k] as int } else { l.len() as int };
    let q = idx[k - 1] as int;
    lemma_between_kept(l, idx, k, p);
    assert(!p(l[q]));
    lemma_filter_from(l, q, pk, p);
    lemma_remove_in_front(l, l.skip(pk).filter(p), q, pk);
}

/// The last step: what precedes the first removed position is kept whole.
proof fn lemma_remove_done<A>(l: Seq<A>, idx: Seq<usize>, p: spec_fn(A) -> bool)
    requires
        l.len() <= usize::MAX,
        forall|j: int| 0 <= j < idx.len() ==> (#[trigger] idx[j]) < l.len() && !p(l[idx[j] as int]),
        forall|i: int| 0 <= i < l.len() && !p(#[trigger] l[i]) ==> idx.contains(i as usize),
        forall|j: int, m: int| 0 <= j < m < idx.len() ==> idx[j] < idx[m],
    ensures
        ({
            let p0 = if 0 < idx.len() { idx[0] as int } else { l.len() as int };
            l.take(p0) + l.skip(p0).filter(p) == l.filter(p)
        }),
{
    let p0 = if 0 < idx.len() { idx[0] as int } else { l.len() as int };
    let front = l.take(p0);
    assert forall|i: int| 0 <= i < front.len() implies p(#[trigger] front[i]) by {
        assert(front[i] == l[i]);
        if !p(l[i]) {
            let j = choose|j: int| 0 <= j < idx.len() && idx[j] == i as usize;
            if j > 0 {
                assert(idx[0] < idx[j]);
            }
        }
    }
    lemma_filter_keeps_all(front, p);
    assert(l =~= front + l.skip(p0));
    Seq::filter_distributes_over_add(front, l.skip(p0), p);
}

fn opt_str(o: &Option<String>) -> (r: Option<&str>)
    ensures
        match r {
            Some(s) => o matches Some(t) && s@ == t@,
            None => o is None,
        },
{
    match o {
        Some(s) => Some(s.as_str()),
        None => None,
    }
}

/// Whether the entry with these fields is one of `removed`.
fn matches_some(
    workflow: Option<&str>,
    job: Option<&str>,
    step: Option<i64>,
    removed: &Vec<ActionOverride>,
) -> (r: bool)
    ensures
        r == matches_any(
            (
                match workflow { Some(w) => Some(w@), None => None },
                match job { Some(j) => Some(j@), None => None },
                step,
                None,
            ),
            removed@,
        ),
{
    let ghost e: OverrideEntry = (
        match workflow { Some(w) => Some(w@), None => None },
        match job { Some(j) => Some(j@), None => None },
        step,
        None,
    );
    let mut j: usize = 0;
    while j < removed.len()
        invariant
            j <= removed@.len(),
            e == (
                match workflow { Some(w) => Some(w@), None => None },
                match job { Some(j) => Some(j@), None => None },
                step,
                None::<Seq<char>>,
            ),
            forall|k: int| 0 <= k < j ==> !entry_is(e, #[trigger] removed@[k]),
        decreases removed@.len() - j,
    {
        if override_entry_matches(workflow, job, step, &removed[j]) {
            assert(entry_is(e, removed@[j as int]));
            return true;
        }
        j = j + 1;
    }
    false
}

/// The positions, in increasing order, of the entries of the override array of
/// `id` that are one of `removed`; none when there is no such array.
pub fn collect_override_removal_indices(doc: &DocumentMut, id: &ActionId, removed: &Vec<ActionOverride>) -> (r: Vec<usize>)
    requires
        doc_table_at(*doc, "actions"@),
        overrides_is_table(*doc),
    ensures
        !override_lists(*doc).contains_key(id@) ==> r@.len() == 0,
        override_lists(*doc).contains_key(id@) ==> {
            let list = override_lists(*doc)[id@];
            &&& forall|k: int| 0 <= k < r@.len() ==> (#[trigger] r@[k]) < list.len() && matches_any(
                list[r@[k] as int],
                removed@,
            )
            &&& forall|i: int| 0 <= i < list.len() && matches_any(#[trigger] list[i], removed@) ==> r@.contains(
                i as usize,
            )
            &&& forall|k: int, m: int| 0 <= k < m < r@.len() ==> r@[k] < r@[m]
        },
{
    let mut out: Vec<usize> = Vec::new();
    let (inline, len) = override_array_kind(doc, id.as_str());
    let n = match len {
        None => return out,
        Some(n) => n,
    };
    let ghost list = override_lists(*doc)[id@];
    let mut i: usize = 0;
    while i < n
        invariant
            i <= n,
            n == list.len(),
            list == override_lists(*doc)[id@],
            override_lists(*doc).contains_key(id@),
            inline == inline_array_keys(*doc).contains(id@),
            doc_table_at(*doc, "actions"@),
            overrides_is_table(*doc),
            forall|k: int| 0 <= k < out@.len() ==> (#[trigger] out@[k]) < i && matches_any(
                list[out@[k] as int],
                removed@,
            ),
            forall|j: int| 0 <= j < i && matches_any(#[trigger] list[j], removed@) ==> out@.contains(
                j as usize,
            ),
            forall|k: int, m: int| 0 <= k < m < out@.len() ==> out@[k] < out@[m],
        decreases n - i,
    {
        let (wf, job, step) = if inline {
            inline_entry_at(doc, id.as_str(), i)
        } else {
            table_entry_at(doc, id.as_str(), i)
        };
        let hit = matches_some(opt_str(&wf), opt_str(&job), step, removed);
        proof {
            let e = list[i as int];
            let e2: OverrideEntry = (e.0, e.1, e.2, None);
            assert forall|j: int| 0 <= j < removed@.len() implies entry_is(e, removed@[j]) == entry_is(e2, removed@[j]) by {}
            assert(matches_any(e, removed@) == matches_any(e2, removed@));
        }
        let ghost before = out@;
        if hit {
            out.push(i);
        }
        proof {
            assert forall|j: int| 0 <= j < i + 1 && matches_any(#[trigger] list[j], removed@) implies out@.contains(
                j as usize,
            ) by {
                if j < i {
                    let k = choose|k: int| 0 <= k < before.len() && before[k] == j as usize;
                    assert(out@[k] == j as usize);
                } else {
                    assert(out@[out@.len() - 1] == j as usize);
                }
            }
        }
        i = i + 1;
    }
    out
}

/// The keys, arrays and inline-array keys of `actions.overrides`.
pub type OverrideTable = (Set<Seq<char>>, Map<Seq<char>, Seq<OverrideEntry>>, Set<Seq<char>>);

/// The override table of a document.
pub open spec fn table_of(doc: DocumentMut) -> OverrideTable {
    (override_keys(doc), override_lists(doc), inline_array_keys(doc))
}

/// Removing the entries of `id` that are one of `os`: an array left empty is
/// dropped along with its key.
pub open spec fn removal_step(t: OverrideTable, id: Seq<char>, os: Seq<ActionOverride>) -> OverrideTable {
    if t.1.contains_key(id) {
        let kept = kept_entries(t.1[id], os);
        if kept.len() == 0 {
            (t.0.remove(id), t.1.remove(id), t.2.remove(id))
        } else {
            (t.0, t.1.insert(id, kept), t.2)
        }
    } else {
        t
    }
}

/// The override table after the removals, in order.
pub open spec fn after_removals(t: OverrideTable, rs: Seq<(ActionId, Vec<ActionOverride>)>) -> OverrideTable
    decreases rs.len(),
{
    if rs.len() == 0 {
        t
    } else {
        let prev = after_removals(t, rs.drop_last());
        removal_step(prev, rs.last().0@, rs.last().1@)
    }
}

/// Remove from the override array of `id` the entries that are one of
/// `removed`, and the array itself when nothing is left of it.
fn remove_from_array(doc: &mut DocumentMut, id: &ActionId, removed: &Vec<ActionOverride>)
    requires
        doc_table_at(*old(doc), "actions"@),
        overrides_is_table(*old(doc)),
    ensures
        table_of(*final(doc)) == removal_step(table_of(*old(doc)), id@, removed@),
        overrides_present(*final(doc)) == overrides_present(*old(doc)),
        overrides_is_table(*final(doc)),
        action_values(*final(doc)) == action_values(*old(doc)),
        forall|t: Seq<char>| #[trigger] doc_has_key(*final(doc), t) == doc_has_key(*old(doc), t),
        forall|t: Seq<char>| #[trigger] doc_table_at(*final(doc), t) == doc_table_at(*old(doc), t),
        forall|x: Seq<char>| x != "actions"@ ==> #[trigger] root_item(*final(doc), x) == root_item(*old(doc), x),
        forall|x: Seq<char>, k: Seq<char>|
            x != "actions"@ ==> #[trigger] inline_entry(*final(doc), x, k) == inline_entry(*old(doc), x, k),
        sub_key_order(*final(doc), "actions"@) == sub_key_order(*old(doc), "actions"@),
{
    let indices = collect_override_removal_indices(doc, id, removed);
    let (_, len) = override_array_kind(doc, id.as_str());
    if len.is_none() {
        return;
    }
    let ghost start = *doc;
    let ghost l = override_lists(start)[id@];
    let ghost p = keeps(removed@);
    proof {
        assert forall|j: int| 0 <= j < indices@.len() implies (#[trigger] indices@[j]) < l.len() && !p(l[indices@[j] as int]) by {}
        assert forall|i: int| 0 <= i < l.len() && !p(#[trigger] l[i]) implies indices@.contains(i as usize) by {}
    }
    proof {
        reveal(Seq::filter);
        assert(l.skip(l.len() as int) =~= Seq::<OverrideEntry>::empty());
        assert(l.take(l.len() as int) + l.skip(l.len() as int).filter(p) =~= l);
        assert(override_lists(start).insert(id@, l) =~= override_lists(start));
    }
    let mut k = indices.len();
    while k > 0
        invariant
            k <= indices@.len(),
            l.len() <= usize::MAX,
            doc_table_at(*doc, "actions"@),
            overrides_is_table(*doc),
            override_lists(*doc).contains_key(id@),
            override_lists(*doc) == override_lists(start).insert(id@, {
                let pk = if k < indices@.len() { indices@[k as int] as int } else { l.len() as int };
                l.take(pk) + l.skip(pk).filter(p)
            }),
            override_keys(*doc) == override_keys(start),
            inline_array_keys(*doc) == inline_array_keys(start),
            overrides_present(*doc) == overrides_present(start),
            action_values(*doc) == action_values(start),
            forall|t: Seq<char>| #[trigger] doc_has_key(*doc, t) == doc_has_key(start, t),
            forall|t: Seq<char>| #[trigger] doc_table_at(*doc, t) == doc_table_at(start, t),
            forall|x: Seq<char>| x != "actions"@ ==> #[trigger] root_item(*doc, x) == root_item(start, x),
            forall|x: Seq<char>, k: Seq<char>|
                x != "actions"@ ==> #[trigger] inline_entry(*doc, x, k) == inline_entry(start, x, k),
            sub_key_order(*doc, "actions"@) == sub_key_order(start, "actions"@),
            forall|j: int| 0 <= j < indices@.len() ==> (#[trigger] indices@[j]) < l.len() && !p(l[indices@[j] as int]),
            forall|i: int| 0 <= i < l.len() && !p(#[trigger] l[i]) ==> indices@.contains(i as usize),
            forall|j: int, m: int| 0 <= j < m < indices@.len() ==> indices@[j] < indices@[m],
        decreases k,
    {
        proof {
            lemma_remove_step(l, indices@, k as int, p);
            lemma_between_kept(l, indices@, k as int, p);
        }
        k = k - 1;
        override_remove_at(doc, id.as_str(), indices[k]);
    }
    proof {
        lemma_remove_done(l, indices@, p);
    }
    let (_, left) = override_array_kind(doc, id.as_str());
    match left {
        Some(0) => overrides_remove(doc, id.as_str()),
        _ => {},
    }
    proof {
        assert(kept_entries(l, removed@) == l.filter(p));
    }
}

/// Remove matching overrides from the `actions.overrides` table, in order,
/// dropping each array left empty, and the table itself when it is left empty.
/// Nothing happens when `actions.overrides` is not a table.
pub fn apply_override_removals(doc: &mut DocumentMut, removals: &Vec<(ActionId, Vec<ActionOverride>)>)
    requires
        doc_table_at(*old(doc), "actions"@),
    ensures
        !overrides_is_table(*old(doc)) ==> *final(doc) == *old(doc),
        overrides_is_table(*old(doc)) ==> {
            let t = after_removals(table_of(*old(doc)), removals@);
            if t.0 =~= Set::empty() {
                &&& lacks_overrides(*final(doc))
                &&& action_values(*final(doc)) == action_values(*old(doc)).remove("overrides"@)
            } else {
                &&& overrides_present(*final(doc)) && overrides_is_table(*final(doc))
                &&& table_of(*final(doc)) == t
                &&& action_values(*final(doc)) == action_values(*old(doc))
            }
        },
        forall|t: Seq<char>| #[trigger] doc_has_key(*final(doc), t) == doc_has_key(*old(doc), t),
        forall|t: Seq<char>| #[trigger] doc_table_at(*final(doc), t) == doc_table_at(*old(doc), t),
        forall|x: Seq<char>| x != "actions"@ ==> #[trigger] root_item(*final(doc), x) == root_item(*old(doc), x),
        forall|x: Seq<char>, k: Seq<char>|
            x != "actions"@ ==> #[trigger] inline_entry(*final(doc), x, k) == inline_entry(*old(doc), x, k),
        sub_key_order(*final(doc), "actions"@) == sub_key_order(*old(doc), "actions"@) || sub_key_order(
            *final(doc),
            "actions"@,
        ) == remove_key(sub_key_order(*old(doc), "actions"@), "overrides"@),
{
    if !overrides_table(doc) {
        return;
    }
    let ghost start = *doc;
    let mut i: usize = 0;
    while i < removals.len()
        invariant
            i <= removals@.len(),
            doc_table_at(*doc, "actions"@),
            overrides_is_table(*doc),
            overrides_present(*doc) == overrides_present(start),
            table_of(*doc) == after_removals(table_of(start), removals@.take(i as int)),
            action_values(*doc) == action_values(start),
            forall|t: Seq<char>| #[trigger] doc_has_key(*doc, t) == doc_has_key(start, t),
            forall|t: Seq<char>| #[trigger] doc_table_at(*doc, t) == doc_table_at(start, t),
            forall|x: Seq<char>| x != "actions"@ ==> #[trigger] root_item(*doc, x) == root_item(start, x),
            forall|x: Seq<char>, k: Seq<char>|
                x != "actions"@ ==> #[trigger] inline_entry(*doc, x, k) == inline_entry(start, x, k),
            sub_key_order(*doc, "actions"@) == sub_key_order(start, "actions"@),
        decreases removals@.len() - i,
    {
        remove_from_array(doc, &removals[i].0, &removals[i].1);
        proof {
            assert(removals@.take(i + 1).drop_last() =~= removals@.take(i as int));
            assert(removals@.take(i + 1).last() == removals@[i as int]);
        }
        i = i + 1;
    }
    assert(removals@.take(removals@.len() as int) =~= removals@);
    if overrides_empty(doc) {
        table_remove(doc, "actions", "overrides");
    }
}

/// What an override is written as, read back.
pub open spec fn written_entry(o: ActionOverride) -> OverrideEntry {
    (
        Some(o.workflow@),
        opt_view(o.job),
        match o.step {
            Some(s) => Some(s as i64),
            None => None,
        },
        Some(o.version@),
    )
}

/// Appending `o` to the array of `id`, which is created when missing.
pub open spec fn addition_step(t: OverrideTable, id: Seq<char>, o: ActionOverride) -> OverrideTable {
    if t.0.contains(id) {
        (t.0, t.1.insert(id, t.1[id].push(written_entry(o))), t.2)
    } else {
        (t.0.insert(id), t.1.insert(id, seq![written_entry(o)]), t.2.insert(id))
    }
}

/// The override table after the additions, in order.
pub open spec fn after_additions(t: OverrideTable, adds: Seq<(ActionId, ActionOverride)>) -> OverrideTable
    decreases adds.len(),
{
    if adds.len() == 0 {
        t
    } else {
        let prev = after_additions(t, adds.drop_last());
        addition_step(prev, adds.last().0@, adds.last().1)
    }
}

/// Every key an addition goes to that the table already has holds an array
/// written inline, which an entry can be appended to.
pub open spec fn additions_fit(t: OverrideTable, adds: Seq<(ActionId, ActionOverride)>) -> bool {
    forall|j: int|
        0 <= j < adds.len() && t.0.contains(#[trigger] adds[j].0@) ==> t.2.contains(adds[j].0@)
            && t.1.contains_key(adds[j].0@)
}

/// Every step index of the additions is an integer TOML can hold.
pub open spec fn steps_fit(adds: Seq<(ActionId, ActionOverride)>) -> bool {
    forall|j: int| 0 <= j < adds.len() ==> (#[trigger] adds[j].1.step matches Some(s) ==> s <= i64::MAX)
}

/// The inline table an override is written as: its workflow, its job and step
/// when it has them, and its version.
fn entry_inline(workflow: &str, job: &Option<String>, step: Option<usize>, version: &str) -> (r: InlineTable)
    requires
        step matches Some(s) ==> s <= i64::MAX,
    ensures
        entry_view(r) == (
            Some(workflow@),
            opt_view(*job),
            match step {
                Some(s) => Some(s as i64),
                None => None::<i64>,
            },
            Some(version@),
        ),
{
    proof {
        reveal_strlit("workflow");
        reveal_strlit("job");
        reveal_strlit("step");
        reveal_strlit("version");
        assert("workflow"@.len() == 8 && "job"@.len() == 3 && "step"@.len() == 4 && "version"@.len() == 7);
    }
    let mut t = new_inline_table();
    inline_insert_text(&mut t, "workflow", workflow);
    match job {
        Some(j) => inline_insert_text(&mut t, "job", j.as_str()),
        None => {},
    }
    match step {
        Some(n) => inline_insert_int(&mut t, "step", n as i64),
        None => {},
    }
    inline_insert_text(&mut t, "version", version);
    t
}

/// Append new overrides to the `actions.overrides` table, creating it and
/// each missing array as needed, then sort the table. Nothing happens when
/// `actions.overrides` is there but is not a table.
pub fn apply_override_additions(doc: &mut DocumentMut, additions: &Vec<(ActionId, ActionOverride)>)
    requires
        doc_table_at(*old(doc), "actions"@),
        steps_fit(additions@),
        overrides_is_table(*old(doc)) ==> additions_fit(table_of(*old(doc)), additions@),
    ensures
        overrides_present(*old(doc)) && !overrides_is_table(*old(doc)) ==> *final(doc) == *old(doc),
        !(overrides_present(*old(doc)) && !overrides_is_table(*old(doc))) ==> {
            let start = if overrides_present(*old(doc)) {
                table_of(*old(doc))
            } else {
                (Set::empty(), Map::empty(), Set::empty())
            };
            &&& overrides_present(*final(doc)) && overrides_is_table(*final(doc))
            &&& table_of(*final(doc)) == after_additions(start, additions@)
            &&& action_values(*final(doc)) == if overrides_present(*old(doc)) {
                action_values(*old(doc))
            } else {
                action_values(*old(doc)).remove("overrides"@)
            }
        },
        forall|t: Seq<char>| #[trigger] doc_has_key(*final(doc), t) == doc_has_key(*old(doc), t),
        forall|t: Seq<char>| #[trigger] doc_table_at(*final(doc), t) == doc_table_at(*old(doc), t),
        forall|x: Seq<char>| x != "actions"@ ==> #[trigger] root_item(*final(doc), x) == root_item(*old(doc), x),
        forall|x: Seq<char>, k: Seq<char>|
            x != "actions"@ ==> #[trigger] inline_entry(*final(doc), x, k) == inline_entry(*old(doc), x, k),
        sub_key_order(*final(doc), "actions"@) == sub_key_order(*old(doc), "actions"@) || sub_key_order(
            *final(doc),
            "actions"@,
        ) == with_key(sub_key_order(*old(doc), "actions"@), "overrides"@),
        overrides_is_table(*final(doc)) ==> sorted_texts(leaf_key_order(*final(doc), "actions"@, "overrides"@)),
{
    if !has_overrides(doc) {
        insert_overrides_table(doc);
        assert(table_of(*doc) =~= (Set::<Seq<char>>::empty(), Map::<Seq<char>, Seq<OverrideEntry>>::empty(), Set::<Seq<char>>::empty()));
    }
    if !overrides_table(doc) {
        return;
    }
    let ghost start = *doc;
    let mut i: usize = 0;
    while i < additions.len()
        invariant
            i <= additions@.len(),
            steps_fit(additions@),
            doc_table_at(*doc, "actions"@),
            overrides_is_table(*doc),
            overrides_present(*doc),
            table_of(*doc) == after_additions(table_of(start), additions@.take(i as int)),
            forall|j: int|
                i <= j < additions@.len() && override_keys(*doc).contains(#[trigger] additions@[j].0@)
                    ==> inline_array_keys(*doc).contains(additions@[j].0@) && override_lists(*doc).contains_key(
                    additions@[j].0@,
                ),
            action_values(*doc) == action_values(start),
            forall|t: Seq<char>| #[trigger] doc_has_key(*doc, t) == doc_has_key(start, t),
            forall|t: Seq<char>| #[trigger] doc_table_at(*doc, t) == doc_table_at(start, t),
            forall|x: Seq<char>| x != "actions"@ ==> #[trigger] root_item(*doc, x) == root_item(start, x),
            forall|x: Seq<char>, k: Seq<char>|
                x != "actions"@ ==> #[trigger] inline_entry(*doc, x, k) == inline_entry(start, x, k),
            sub_key_order(*doc, "actions"@) == sub_key_order(start, "actions"@),
        decreases additions@.len() - i,
    {
        let id = additions[i].0.as_str();
        if !overrides_has(doc, id) {
            overrides_insert_array(doc, id);
        }
        assert(additions@[i as int].1.step matches Some(s) ==> s <= i64::MAX);
        let o = &additions[i].1;
        let entry = entry_inline(o.workflow.as_str(), &o.job, o.step, o.version.as_str());
        override_push(doc, id, entry);
        proof {
            assert(additions@.take(i + 1).drop_last() =~= additions@.take(i as int));
            assert(additions@.take(i + 1).last() == additions@[i as int]);
        }
        i = i + 1;
    }
    assert(additions@.take(additions@.len() as int) =~= additions@);
    overrides_sort(doc);
}

/// Whether `actions.overrides` is there, whether it is a table, and its
/// keys, arrays and inline-array keys.
pub type OverrideStatus = (bool, bool, Set<Seq<char>>, Map<Seq<char>, Seq<OverrideEntry>>, Set<Seq<char>>);

/// No `actions.overrides`.
pub open spec fn absent_status() -> OverrideStatus {
    (false, false, Set::empty(), Map::empty(), Set::empty())
}

/// The versions after removing `ids`, in order.
pub open spec fn without_ids(m: Map<Seq<char>, Seq<char>>, ids: Seq<ActionId>) -> Map<Seq<char>, Seq<char>>
    decreases ids.len(),
{
    if ids.len() == 0 {
        m
    } else {
        without_ids(m, ids.drop_last()).remove(ids.last()@)
    }
}

/// The versions after setting each pair, in order.
pub open spec fn with_pairs(m: Map<Seq<char>, Seq<char>>, ps: Seq<(ActionId, Version)>) -> Map<Seq<char>, Seq<char>>
    decreases ps.len(),
{
    if ps.len() == 0 {
        m
    } else {
        with_pairs(m, ps.drop_last()).insert(ps.last().0@, ps.last().1@)
    }
}

/// The `[actions]` versions after a diff: removals, then additions, then updates.
pub open spec fn versions_after(m: Map<Seq<char>, Seq<char>>, d: ManifestDiff) -> Map<Seq<char>, Seq<char>> {
    with_pairs(with_pairs(without_ids(m, d.removed@), d.added@), d.updated@)
}

/// Removing an action named `overrides` removes `actions.overrides`.
pub open spec fn status_after_ids(st: OverrideStatus, ids: Seq<ActionId>) -> OverrideStatus
    decreases ids.len(),
{
    if ids.len() == 0 {
        st
    } else if ids.last()@ == "overrides"@ {
        absent_status()
    } else {
        status_after_ids(st, ids.drop_last())
    }
}

/// Setting an action named `overrides` puts a string at `actions.overrides`.
pub open spec fn status_after_pairs(st: OverrideStatus, ps: Seq<(ActionId, Version)>) -> OverrideStatus
    decreases ps.len(),
{
    if ps.len() == 0 {
        st
    } else if ps.last().0@ == "overrides"@ {
        (true, false, Set::empty(), Map::empty(), Set::empty())
    } else {
        status_after_pairs(st, ps.drop_last())
    }
}

/// The override removals of a diff: applied only to a table, which goes when
/// it is left empty; none to apply changes nothing.
pub open spec fn status_after_removals(st: OverrideStatus, rs: Seq<(ActionId, Vec<ActionOverride>)>) -> OverrideStatus {
    if rs.len() == 0 || !st.1 {
        st
    } else {
        let t = after_removals((st.2, st.3, st.4), rs);
        if t.0 == Set::<Seq<char>>::empty() {
            absent_status()
        } else {
            (true, true, t.0, t.1, t.2)
        }
    }
}

/// The override additions of a diff: a missing table is created; one that is
/// there but not a table is left alone; none to apply changes nothing.
pub open spec fn status_after_additions(st: OverrideStatus, adds: Seq<(ActionId, ActionOverride)>) -> OverrideStatus {
    if adds.len() == 0 || (st.0 && !st.1) {
        st
    } else {
        let start = if st.0 {
            (st.2, st.3, st.4)
        } else {
            (Set::empty(), Map::empty(), Set::empty())
        };
        let t = after_additions(start, adds);
        (true, true, t.0, t.1, t.2)
    }
}

/// The override part after a diff.
pub open spec fn status_after_diff(st: OverrideStatus, d: ManifestDiff) -> OverrideStatus {
    let s1 = status_after_pairs(status_after_pairs(status_after_ids(st, d.removed@), d.added@), d.updated@);
    status_after_additions(status_after_removals(s1, d.overrides_removed@), d.overrides_added@)
}

/// `now` has no keys that `before` lacked, and each of its keys holds the
/// same kind of item as in `before`.
pub open spec fn narrower(now: OverrideTable, before: OverrideTable) -> bool {
    forall|k: Seq<char>| #[trigger] now.0.contains(k) ==> before.0.contains(k) && now.1.contains_key(k)
        == before.1.contains_key(k) && now.2.contains(k) == before.2.contains(k)
}

proof fn lemma_removals_narrow(t: OverrideTable, rs: Seq<(ActionId, Vec<ActionOverride>)>)
    ensures
        narrower(after_removals(t, rs), t),
    decreases rs.len(),
{
    if rs.len() > 0 {
        lemma_removals_narrow(t, rs.drop_last());
    }
}

proof fn lemma_ids_keep(st: OverrideStatus, ids: Seq<ActionId>)
    ensures
        status_after_ids(st, ids).1 ==> status_after_ids(st, ids) == st,
    decreases ids.len(),
{
    if ids.len() > 0 {
        lemma_ids_keep(st, ids.drop_last());
    }
}

proof fn lemma_pairs_keep(st: OverrideStatus, ps: Seq<(ActionId, Version)>)
    ensures
        status_after_pairs(st, ps).1 ==> status_after_pairs(st, ps) == st,
    decreases ps.len(),
{
    if ps.len() > 0 {
        lemma_pairs_keep(st, ps.drop_last());
    }
}

/// Additions that fit a table fit any narrower one.
proof fn lemma_fit_narrow(now: OverrideTable, before: OverrideTable, adds: Seq<(ActionId, ActionOverride)>)
    requires
        narrower(now, before),
        additions_fit(before, adds),
    ensures
        additions_fit(now, adds),
{
    assert forall|j: int| 0 <= j < adds.len() && now.0.contains(#[trigger] adds[j].0@) implies now.2.contains(adds[j].0@)
        && now.1.contains_key(adds[j].0@) by {
        assert(before.0.contains(adds[j].0@));
    }
}

/// The additions still fit after the version changes and the override removals.
proof fn lemma_fits_after_versions(
    start: DocumentMut,
    base: DocumentMut,
    versions_done: DocumentMut,
    removals_done: DocumentMut,
    d: ManifestDiff,
)
    requires
        document_fits(start, d.overrides_added@),
        doc_table_at(base, "actions"@),
        override_state(base) == base_status(start),
        override_state(versions_done) == status_after_pairs(
            status_after_pairs(status_after_ids(override_state(base), d.removed@), d.added@),
            d.updated@,
        ),
        doc_table_at(versions_done, "actions"@),
        doc_table_at(removals_done, "actions"@),
        d.overrides_removed@.len() == 0 ==> removals_done == versions_done,
        d.overrides_removed@.len() > 0 && !overrides_is_table(versions_done) ==> removals_done == versions_done,
        d.overrides_removed@.len() > 0 && overrides_is_table(versions_done) && overrides_is_table(removals_done)
            ==> table_of(removals_done) == after_removals(table_of(versions_done), d.overrides_removed@),
    ensures
        document_fits(removals_done, d.overrides_added@),
{
    let s0 = override_state(base);
    let s1 = status_after_ids(s0, d.removed@);
    let s2 = status_after_pairs(s1, d.added@);
    lemma_ids_keep(s0, d.removed@);
    lemma_pairs_keep(s1, d.added@);
    lemma_pairs_keep(s2, d.updated@);
    if overrides_is_table(removals_done) {
        assert(overrides_is_table(versions_done)) by {
            if d.overrides_removed@.len() > 0 && !overrides_is_table(versions_done) {
                assert(removals_done == versions_done);
            }
        }
        assert(override_state(versions_done) == s0);
        assert(doc_has_key(start, "actions"@) && doc_table_at(start, "actions"@));
        assert(table_of(versions_done) == table_of(start));
        if d.overrides_removed@.len() > 0 {
            lemma_removals_narrow(table_of(versions_done), d.overrides_removed@);
            lemma_fit_narrow(table_of(removals_done), table_of(start), d.overrides_added@);
        }
    }
}

/// The versions a document's `[actions]` table starts from.
pub open spec fn base_values(doc: DocumentMut) -> Map<Seq<char>, Seq<char>> {
    if doc_has_key(doc, "actions"@) && doc_table_at(doc, "actions"@) {
        action_values(doc)
    } else {
        Map::empty()
    }
}

/// The override part a document starts from.
pub open spec fn base_status(doc: DocumentMut) -> OverrideStatus {
    if doc_has_key(doc, "actions"@) && doc_table_at(doc, "actions"@) {
        override_state(doc)
    } else {
        absent_status()
    }
}

/// Whether the override additions of a diff can go into this document: each
/// array they append to is written inline.
pub open spec fn document_fits(doc: DocumentMut, adds: Seq<(ActionId, ActionOverride)>) -> bool {
    doc_has_key(doc, "actions"@) && doc_table_at(doc, "actions"@) && overrides_is_table(doc) ==> additions_fit(
        table_of(doc),
        adds,
    )
}

proof fn lemma_sorted_but_of_sorted(s: Seq<Seq<char>>, k: Seq<char>)
    requires
        sorted_texts(s),
    ensures
        sorted_but(s, k),
{
}

proof fn lemma_sorted_but_with_key(s: Seq<Seq<char>>, k: Seq<char>)
    requires
        sorted_but(s, k),
    ensures
        sorted_but(with_key(s, k), k),
{
    if !s.contains(k) {
        assert forall|i: int, j: int|
            0 <= i < j < s.push(k).len() && s.push(k)[i] != k && s.push(k)[j] != k implies text_le(
            #[trigger] s.push(k)[i],
            #[trigger] s.push(k)[j],
            false,
        ) by {
            assert(j < s.len());
            assert(s.push(k)[i] == s[i] && s.push(k)[j] == s[j]);
        }
    }
}

proof fn lemma_sorted_but_remove_key(s: Seq<Seq<char>>, k: Seq<char>, k2: Seq<char>)
    requires
        sorted_but(s, k),
    ensures
        sorted_but(remove_key(s, k2), k),
{
    if s.contains(k2) {
        let p = key_position(s, k2);
        let t = s.remove(p);
        assert forall|i: int, j: int| 0 <= i < j < t.len() && t[i] != k && t[j] != k implies text_le(
            #[trigger] t[i],
            #[trigger] t[j],
            false,
        ) by {
            let i2 = if i < p { i } else { i + 1 };
            let j2 = if j < p { j } else { j + 1 };
            assert(t[i] == s[i2] && t[j] == s[j2]);
            assert(i2 < j2);
        }
    }
}

/// `after` is `before` with `diff` applied: no `[gx]` table; an `[actions]`
/// table whose versions (but for one named `overrides`) and overrides are what
/// the diff makes of those of `before`; every other top-level item as it was.
pub open spec fn manifest_patched(before: DocumentMut, after: DocumentMut, diff: ManifestDiff) -> bool {
    &&& !doc_has_key(after, "gx"@)
    &&& doc_table_at(after, "actions"@)
    &&& forall|t: Seq<char>| t != "gx"@ && t != "actions"@ ==> #[trigger] doc_has_key(after, t) == doc_has_key(before, t)
    &&& forall|t: Seq<char>| t != "gx"@ && t != "actions"@ ==> #[trigger] doc_table_at(after, t) == doc_table_at(before, t)
    &&& action_values(after).remove("overrides"@) == versions_after(base_values(before), diff).remove("overrides"@)
    &&& override_state(after) == status_after_diff(base_status(before), diff)
    &&& forall|t: Seq<char>| t != "gx"@ && t != "actions"@ ==> #[trigger] root_item(after, t) == root_item(before, t)
    &&& forall|t: Seq<char>, k: Seq<char>|
        t != "gx"@ && t != "actions"@ ==> #[trigger] inline_entry(after, t, k) == inline_entry(before, t, k)
    &&& sorted_but(sub_key_order(after, "actions"@), "overrides"@)
    &&& diff.overrides_added@.len() > 0 && overrides_is_table(after) ==> sorted_texts(
        leaf_key_order(after, "actions"@, "overrides"@),
    )
}

/// Apply `diff` to a manifest document: drop the legacy `[gx]` table, create
/// `[actions]` when missing, remove, add, then update versions, sort the
/// table, then remove and add overrides. An `[actions]` item that is not a
/// table is refused.
pub fn patch_manifest_document(doc: &mut DocumentMut, diff: &ManifestDiff) -> (r: Result<(), String>)
    requires
        steps_fit(diff.overrides_added@),
        document_fits(*old(doc), diff.overrides_added@),
    ensures
        (doc_has_key(*old(doc), "actions"@) && !doc_table_at(*old(doc), "actions"@)) ==> (r matches Err(m) && m@
            == "[actions] is not a table"@),
        !(doc_has_key(*old(doc), "actions"@) && !doc_table_at(*old(doc), "actions"@)) ==> r is Ok,
        r is Ok ==> manifest_patched(*old(doc), *final(doc), *diff),
{
    let ghost start = *doc;
    proof {
        reveal_strlit("gx");
        reveal_strlit("actions");
        reveal_strlit("overrides");
        assert("gx"@.len() == 2 && "actions"@.len() == 7);
    }
    document_remove(doc, "gx");
    if !document_has(doc, "actions") {
        document_insert_table(doc, "actions");
    }
    if !document_is_table(doc, "actions") {
        return Err(String::from_str("[actions] is not a table"));
    }
    let ghost base = *doc;
    assert(action_values(base) == base_values(start));
    assert(override_state(base) == base_status(start)) by {
        if !(doc_has_key(start, "actions"@) && doc_table_at(start, "actions"@)) {
            assert(override_state(base) =~= absent_status());
        }
    }
    let mut i: usize = 0;
    while i < diff.removed.len()
        invariant
            i <= diff.removed@.len(),
            doc_table_at(*doc, "actions"@),
            action_values(*doc) == without_ids(action_values(base), diff.removed@.take(i as int)),
            override_state(*doc) == status_after_ids(override_state(base), diff.removed@.take(i as int)),
            forall|t: Seq<char>| #[trigger] doc_has_key(*doc, t) == doc_has_key(base, t),
            forall|t: Seq<char>| #[trigger] doc_table_at(*doc, t) == doc_table_at(base, t),
            forall|x: Seq<char>| x != "actions"@ ==> #[trigger] root_item(*doc, x) == root_item(base, x),
            forall|x: Seq<char>, k: Seq<char>|
                x != "actions"@ ==> #[trigger] inline_entry(*doc, x, k) == inline_entry(base, x, k),
        decreases diff.removed@.len() - i,
    {
        table_remove(doc, "actions", diff.removed[i].as_str());
        proof {
            assert(diff.removed@.take(i + 1).drop_last() =~= diff.removed@.take(i as int));
            assert(diff.removed@.take(i + 1).last() == diff.removed@[i as int]);
            if diff.removed@[i as int]@ == "overrides"@ {
                assert(override_state(*doc) =~= absent_status());
            }
        }
        i = i + 1;
    }
    assert(diff.removed@.take(diff.removed@.len() as int) =~= diff.removed@);
    let ghost removed_state = *doc;
    let mut i: usize = 0;
    while i < diff.added.len()
        invariant
            i <= diff.added@.len(),
            doc_table_at(*doc, "actions"@),
            action_values(*doc) == with_pairs(action_values(removed_state), diff.added@.take(i as int)),
            override_state(*doc) == status_after_pairs(override_state(removed_state), diff.added@.take(i as int)),
            forall|t: Seq<char>| #[trigger] doc_has_key(*doc, t) == doc_has_key(base, t),
            forall|t: Seq<char>| #[trigger] doc_table_at(*doc, t) == doc_table_at(base, t),
            forall|x: Seq<char>| x != "actions"@ ==> #[trigger] root_item(*doc, x) == root_item(base, x),
            forall|x: Seq<char>, k: Seq<char>|
                x != "actions"@ ==> #[trigger] inline_entry(*doc, x, k) == inline_entry(base, x, k),
        decreases diff.added@.len() - i,
    {
        table_insert_text(doc, "actions", diff.added[i].0.as_str(), diff.added[i].1.as_str());
        proof {
            assert(diff.added@.take(i + 1).drop_last() =~= diff.added@.take(i as int));
            assert(diff.added@.take(i + 1).last() == diff.added@[i as int]);
            if diff.added@[i as int].0@ == "overrides"@ {
                assert(override_state(*doc) =~= (true, false, Set::<Seq<char>>::empty(), Map::<Seq<char>, Seq<OverrideEntry>>::empty(), Set::<Seq<char>>::empty()));
            }
        }
        i = i + 1;
    }
    assert(diff.added@.take(diff.added@.len() as int) =~= diff.added@);
    let ghost added_state = *doc;
    let mut i: usize = 0;
    while i < diff.updated.len()
        invariant
            i <= diff.updated@.len(),
            doc_table_at(*doc, "actions"@),
            action_values(*doc) == with_pairs(action_values(added_state), diff.updated@.take(i as int)),
            override_state(*doc) == status_after_pairs(override_state(added_state), diff.updated@.take(i as int)),
            forall|t: Seq<char>| #[trigger] doc_has_key(*doc, t) == doc_has_key(base, t),
            forall|t: Seq<char>| #[trigger] doc_table_at(*doc, t) == doc_table_at(base, t),
            forall|x: Seq<char>| x != "actions"@ ==> #[trigger] root_item(*doc, x) == root_item(base, x),
            forall|x: Seq<char>, k: Seq<char>|
                x != "actions"@ ==> #[trigger] inline_entry(*doc, x, k) == inline_entry(base, x, k),
        decreases diff.updated@.len() - i,
    {
        table_insert_text(doc, "actions", diff.updated[i].0.as_str(), diff.updated[i].1.as_str());
        proof {
            assert(diff.updated@.take(i + 1).drop_last() =~= diff.updated@.take(i as int));
            assert(diff.updated@.take(i + 1).last() == diff.updated@[i as int]);
            if diff.updated@[i as int].0@ == "overrides"@ {
                assert(override_state(*doc) =~= (true, false, Set::<Seq<char>>::empty(), Map::<Seq<char>, Seq<OverrideEntry>>::empty(), Set::<Seq<char>>::empty()));
            }
        }
        i = i + 1;
    }
    assert(diff.updated@.take(diff.updated@.len() as int) =~= diff.updated@);
    table_sort(doc, "actions");
    let ghost versions_done = *doc;
    proof {
        lemma_sorted_but_of_sorted(sub_key_order(versions_done, "actions"@), "overrides"@);
    }
    if diff.overrides_removed.len() > 0 {
        apply_override_removals(doc, &diff.overrides_removed);
        proof {
            if overrides_is_table(versions_done) {
                let t = after_removals(table_of(versions_done), diff.overrides_removed@);
                if t.0 =~= Set::empty() {
                    assert(override_state(*doc) =~= absent_status());
                }
            }
        }
    }
    let ghost removals_done = *doc;
    proof {
        if sub_key_order(removals_done, "actions"@) != sub_key_order(versions_done, "actions"@) {
            lemma_sorted_but_remove_key(sub_key_order(versions_done, "actions"@), "overrides"@, "overrides"@);
        }
    }
    assert(document_fits(removals_done, diff.overrides_added@)) by {
        lemma_fits_after_versions(start, base, versions_done, removals_done, *diff);
    }
    let ghost va = versions_after(base_values(start), *diff);
    assert(action_values(versions_done) == va);
    assert(action_values(removals_done).remove("overrides"@) =~= va.remove("overrides"@));
    if diff.overrides_added.len() > 0 {
        apply_override_additions(doc, &diff.overrides_added);
        proof {
            lemma_sorted_but_with_key(sub_key_order(removals_done, "actions"@), "overrides"@);
        }
    }
    assert(action_values(*doc).remove("overrides"@) =~= va.remove("overrides"@));
    Ok(())
}

/// Whether the override additions can go into `doc`: checks `document_fits`.
fn additions_go_in(doc: &DocumentMut, adds: &Vec<(ActionId, ActionOverride)>) -> (r: bool)
    ensures
        r == document_fits(*doc, adds@),
{
    if !document_has(doc, "actions") || !document_is_table(doc, "actions") || !overrides_table(doc) {
        return true;
    }
    let mut j: usize = 0;
    while j < adds.len()
        invariant
            j <= adds@.len(),
            doc_table_at(*doc, "actions"@),
            doc_has_key(*doc, "actions"@),
            overrides_is_table(*doc),
            forall|k: int|
                0 <= k < j && override_keys(*doc).contains(#[trigger] adds@[k].0@) ==> inline_array_keys(*doc).contains(
                    adds@[k].0@,
                ) && override_lists(*doc).contains_key(adds@[k].0@),
        decreases adds@.len() - j,
    {
        let id = adds[j].0.as_str();
        if overrides_has(doc, id) {
            let (inline, len) = override_array_kind(doc, id);
            if !inline || len.is_none() {
                return false;
            }
        }
        j = j + 1;
    }
    true
}

/// Why an override addition cannot go into a manifest.
pub open spec fn not_inline_message() -> Seq<char> {
    "an override entry in [actions.overrides] is not an inline array"@
}

/// The versions of `[actions]` in a parsed view, none when it is not a table.
pub open spec fn view_values(v: DocView) -> Map<Seq<char>, Seq<char>> {
    if v.0.contains("actions"@) && v.1.contains("actions"@) {
        v.3
    } else {
        Map::empty()
    }
}

/// The override part of a parsed view, absent when `[actions]` is not a table.
pub open spec fn view_status(v: DocView) -> OverrideStatus {
    if v.0.contains("actions"@) && v.1.contains("actions"@) {
        v.4
    } else {
        absent_status()
    }
}

/// Whether the override additions can go into the parsed view: each array
/// they append to is written inline.
pub open spec fn view_fits(v: DocView, adds: Seq<(ActionId, ActionOverride)>) -> bool {
    v.0.contains("actions"@) && v.1.contains("actions"@) && v.4.1 ==> additions_fit((v.4.2, v.4.3, v.4.4), adds)
}

/// `after` is the parsed view `v` with `diff` applied: no `[gx]` table; an
/// `[actions]` table whose versions (but for one named `overrides`) and
/// overrides are what the diff makes of those of `v`; every other top-level
/// item as it was.
pub open spec fn manifest_patched_view(v: DocView, after: DocumentMut, diff: ManifestDiff) -> bool {
    &&& !doc_has_key(after, "gx"@)
    &&& doc_table_at(after, "actions"@)
    &&& forall|t: Seq<char>| t != "gx"@ && t != "actions"@ ==> #[trigger] doc_has_key(after, t) == v.0.contains(t)
    &&& forall|t: Seq<char>| t != "gx"@ && t != "actions"@ ==> #[trigger] doc_table_at(after, t) == v.1.contains(t)
    &&& action_values(after).remove("overrides"@) == versions_after(view_values(v), diff).remove("overrides"@)
    &&& override_state(after) == status_after_diff(view_status(v), diff)
    &&& forall|t: Seq<char>| t != "gx"@ && t != "actions"@ ==> #[trigger] root_item(after, t) == view_root(v, t)
    &&& forall|t: Seq<char>, k: Seq<char>|
        t != "gx"@ && t != "actions"@ ==> #[trigger] inline_entry(after, t, k) == view_entry(v, t, k)
    &&& sorted_but(sub_key_order(after, "actions"@), "overrides"@)
    &&& diff.overrides_added@.len() > 0 && overrides_is_table(after) ==> sorted_texts(
        leaf_key_order(after, "actions"@, "overrides"@),
    )
}

/// Whether `t` is the text of the parsed view `v` with `diff` applied.
pub open spec fn manifest_patched_text(v: DocView, diff: ManifestDiff, t: Seq<char>) -> bool {
    exists|after: DocumentMut| #[trigger] toml_text(after) == t && manifest_patched_view(v, after, diff)
}

/// The diff changes nothing.
pub open spec fn manifest_diff_empty(diff: ManifestDiff) -> bool {
    diff.added@.len() == 0 && diff.removed@.len() == 0 && diff.updated@.len() == 0
        && diff.overrides_added@.len() == 0 && diff.overrides_removed@.len() == 0
}

/// The manifest text after applying `diff` to `content`, or why it could not
/// be applied: content that does not parse, an override array to append to
/// that is not written inline, or an `[actions]` item that is not a table. An
/// empty diff leaves the content as it is, unread.
pub fn apply_manifest_diff_to_text(content: &str, diff: &ManifestDiff) -> (r: Result<String, String>)
    requires
        steps_fit(diff.overrides_added@),
    ensures
        manifest_diff_empty(*diff) ==> (r matches Ok(t) && t@ == content@),
        !manifest_diff_empty(*diff) ==> match toml_parse(content@) {
            Err(pe) => r matches Err(m) && m@ == "toml_edit parse error: "@ + pe,
            Ok(v) => if !view_fits(v, diff.overrides_added@) {
                r matches Err(m) && m@ == not_inline_message()
            } else if v.0.contains("actions"@) && !v.1.contains("actions"@) {
                r matches Err(m) && m@ == "[actions] is not a table"@
            } else {
                r matches Ok(t) && manifest_patched_text(v, *diff, t@)
            },
        },
{
    if diff.is_empty() {
        return Ok(String::from_str(content));
    }
    match parse_document(content) {
        Err(e) => {
            let mut m = String::from_str("toml_edit parse error: ");
            m.append(e.as_str());
            assert(m@ == "toml_edit parse error: "@ + e@);
            Err(m)
        },
        Ok(doc) => {
            let mut doc = doc;
            let ghost before = doc;
            let ghost v = doc_view(doc);
            assert(v.0.contains("actions"@) == doc_has_key(before, "actions"@));
            assert(v.1.contains("actions"@) == doc_table_at(before, "actions"@));
            assert(view_values(v) == base_values(before));
            assert(view_status(v) == base_status(before));
            assert(view_fits(v, diff.overrides_added@) == document_fits(before, diff.overrides_added@));
            assert forall|x: Seq<char>| #[trigger] view_root(v, x) == root_item(before, x) by {
                if root_item(before, x) is Some {
                    assert(v.5.contains_key(x));
                } else {
                    assert(!v.5.contains_key(x));
                }
            }
            assert forall|x: Seq<char>, k: Seq<char>| #[trigger] view_entry(v, x, k) == inline_entry(before, x, k) by {
                if inline_entry(before, x, k) is Some {
                    assert(v.2.contains_key((x, k)));
                } else {
                    assert(!v.2.contains_key((x, k)));
                }
            }
            if !additions_go_in(&doc, &diff.overrides_added) {
                return Err(String::from_str("an override entry in [actions.overrides] is not an inline array"));
            }
            match patch_manifest_document(&mut doc, diff) {
                Err(m) => Err(m),
                Ok(()) => {
                    let t = document_text(&doc);
                    assert(manifest_patched_view(v, doc, *diff)) by {
                        assert forall|k: Seq<char>| k != "gx"@ && k != "actions"@ implies #[trigger] doc_has_key(doc, k) == v.0.contains(k) by {
                            assert(doc_has_key(doc, k) == doc_has_key(before, k));
                        }
                        assert forall|k: Seq<char>| k != "gx"@ && k != "actions"@ implies #[trigger] doc_table_at(doc, k) == v.1.contains(k) by {
                            assert(doc_table_at(doc, k) == doc_table_at(before, k));
                        }
                    }
                    assert(toml_text(doc) == t@);
                    Ok(t)
                },
            }
        },
    }
}

/// What an override of a manifest is written as, read back.
pub open spec fn written_view(v: OverrideView) -> OverrideEntry {
    (
        Some(v.0),
        v.1,
        match v.2 {
            Some(s) => Some(s as i64),
            None => None,
        },
        Some(v.3),
    )
}

/// An override list as written, read back.
pub open spec fn written_list(l: Seq<OverrideView>) -> Seq<OverrideEntry> {
    l.map_values(|v: OverrideView| written_view(v))
}

/// The override arrays a manifest is written with: one per action with at
/// least one override.
pub open spec fn written_lists(om: Map<Seq<char>, Seq<OverrideView>>) -> Map<Seq<char>, Seq<OverrideEntry>> {
    nonempty_lists(om).map_values(|l: Seq<OverrideView>| written_list(l))
}

/// Every step index of the overrides is an integer TOML can hold.
pub open spec fn override_steps_fit(om: Map<Seq<char>, Seq<OverrideView>>) -> bool {
    forall|k: Seq<char>, j: int|
        om.contains_key(k) && 0 <= j < om[k].len() ==> ((#[trigger] om[k][j]).2 matches Some(s) ==> s <= i64::MAX)
}

/// The actions of sorted, distinct-keyed version pairs, in order, are
/// ascending and are the keys of their map.
proof fn lemma_version_keys(vs: Seq<(String, String)>)
    requires
        distinct_keys(vs),
        sorted_by_key(vs, false),
    ensures
        ascending_texts(vs.map_values(|p: (String, String)| p.0@)),
        vs.map_values(|p: (String, String)| p.0@).to_set() == map_of(vs).dom(),
{
    lemma_map_of(vs);
    let ks = vs.map_values(|p: (String, String)| p.0@);
    assert forall|i: int, j: int| 0 <= i < j < ks.len() implies text_le(#[trigger] ks[i], #[trigger] ks[j], false) by {
        assert(vs[i].sort_key() == ks[i] && vs[j].sort_key() == ks[j]);
    }
    assert forall|i: int, j: int| 0 <= i < ks.len() && 0 <= j < ks.len() && i != j implies ks[i] != ks[j] by {
        assert(vs[i].0.kview() == ks[i] && vs[j].0.kview() == ks[j]);
    }
    assert forall|k: Seq<char>| #[trigger] ks.to_set().contains(k) == map_of(vs).dom().contains(k) by {
        if map_of(vs).contains_key(k) {
            let i = choose|i: int| 0 <= i < vs.len() && vs[i].0.kview() == k;
            assert(ks[i] == k);
        }
        if ks.contains(k) {
            let i = choose|i: int| 0 <= i < ks.len() && ks[i] == k;
            assert(map_of(vs).contains_key(vs[i].0.kview()));
        }
    }
    assert(ks.to_set() =~= map_of(vs).dom());
}

/// The actions of sorted, distinct-keyed override lists, in order, are
/// ascending and are the keys of their map.
proof fn lemma_list_keys(ls: Seq<(String, Vec<TomlOverride>)>)
    requires
        distinct_keys(ls),
        sorted_by_key(ls, false),
    ensures
        ascending_texts(ls.map_values(|p: (String, Vec<TomlOverride>)| p.0@)),
        ls.map_values(|p: (String, Vec<TomlOverride>)| p.0@).to_set() == map_of(ls).dom(),
{
    lemma_map_of(ls);
    let ks = ls.map_values(|p: (String, Vec<TomlOverride>)| p.0@);
    assert forall|i: int, j: int| 0 <= i < j < ks.len() implies text_le(#[trigger] ks[i], #[trigger] ks[j], false) by {
        assert(ls[i].sort_key() == ks[i] && ls[j].sort_key() == ks[j]);
    }
    assert forall|i: int, j: int| 0 <= i < ks.len() && 0 <= j < ks.len() && i != j implies ks[i] != ks[j] by {
        assert(ls[i].0.kview() == ks[i] && ls[j].0.kview() == ks[j]);
    }
    assert forall|k: Seq<char>| #[trigger] ks.to_set().contains(k) == map_of(ls).dom().contains(k) by {
        if map_of(ls).contains_key(k) {
            let i = choose|i: int| 0 <= i < ls.len() && ls[i].0.kview() == k;
            assert(ks[i] == k);
        }
        if ks.contains(k) {
            let i = choose|i: int| 0 <= i < ks.len() && ks[i] == k;
            assert(map_of(ls).contains_key(ls[i].0.kview()));
        }
    }
    assert(ks.to_set() =~= map_of(ls).dom());
}

/// A sorted reordering of an ascending sequence is ascending, with the same elements.
proof fn lemma_sorted_permutation(s: Seq<Seq<char>>, t: Seq<Seq<char>>)
    requires
        ascending_texts(s),
        t.to_multiset() == s.to_multiset(),
        forall|i: int, j: int| 0 <= i < j < t.len() ==> text_le(#[trigger] t[i], #[trigger] t[j], false),
    ensures
        ascending_texts(t),
        t.to_set() == s.to_set(),
{
    broadcast use vstd::seq_lib::group_to_multiset_ensures;
    s.lemma_multiset_has_no_duplicates();
    t.lemma_multiset_has_no_duplicates_conv();
    assert forall|k: Seq<char>| #[trigger] t.to_set().contains(k) == s.to_set().contains(k) by {
        assert(t.contains(k) == (t.to_multiset().count(k) > 0));
        assert(s.contains(k) == (s.to_multiset().count(k) > 0));
    }
    assert(t.to_set() =~= s.to_set());
}

/// Build the document a manifest is saved as: one `[actions]` table with each
/// action's version, sorted by action, and, when some action has overrides, an
/// `[actions.overrides]` table with one inline array per such action.
pub fn build_manifest_document(manifest: &Manifest) -> (doc: DocumentMut)
    requires
        manifest.wf(),
        override_steps_fit(manifest.overrides_map()),
    ensures
        forall|t: Seq<char>| #[trigger] doc_has_key(doc, t) == (t == "actions"@),
        doc_table_at(doc, "actions"@),
        written_lists(manifest.overrides_map()).dom() =~= Set::empty() ==> {
            &&& action_values(doc) == manifest.versions_map()
            &&& !overrides_is_table(doc) && no_override_entries(doc)
        },
        !(written_lists(manifest.overrides_map()).dom() =~= Set::empty()) ==> {
            &&& action_values(doc) == manifest.versions_map().remove("overrides"@)
            &&& overrides_present(doc) && overrides_is_table(doc)
            &&& override_lists(doc) == written_lists(manifest.overrides_map())
            &&& override_keys(doc) == written_lists(manifest.overrides_map()).dom()
            &&& inline_array_keys(doc) == written_lists(manifest.overrides_map()).dom()
        },
        exists|ks: Seq<Seq<char>>|
            #[trigger] ascending_texts(ks) && ks.to_set() == manifest.versions_map().dom() && sub_key_order(doc, "actions"@)
                == if written_lists(manifest.overrides_map()).dom() =~= Set::empty() {
                ks
            } else {
                with_key(ks, "overrides"@)
            },
        ascending_texts(leaf_key_order(doc, "actions"@, "overrides"@)),
        leaf_key_order(doc, "actions"@, "overrides"@).to_set() == written_lists(manifest.overrides_map()).dom(),
{
    let data = manifest_to_data(manifest);
    let ghost om = manifest.overrides_map();
    let mut doc = new_document();
    document_insert_table(&mut doc, "actions");
    let versions = &data.actions.versions;
    let mut i: usize = 0;
    while i < versions.len()
        invariant
            i <= versions@.len(),
            doc_table_at(doc, "actions"@),
            forall|t: Seq<char>| #[trigger] doc_has_key(doc, t) == (t == "actions"@),
            forall|t: Seq<char>| #[trigger] doc_table_at(doc, t) == (t == "actions"@),
            action_values(doc) == map_of(versions@.take(i as int)),
            !overrides_is_table(doc) && no_override_entries(doc),
            distinct_keys(versions@),
            sub_key_order(doc, "actions"@) == versions@.take(i as int).map_values(|p: (String, String)| p.0@),
            leaf_key_order(doc, "actions"@, "overrides"@) == Seq::<Seq<char>>::empty(),
        decreases versions@.len() - i,
    {
        proof {
            let prev = versions@.take(i as int).map_values(|p: (String, String)| p.0@);
            if prev.contains(versions@[i as int].0@) {
                let j = choose|j: int| 0 <= j < prev.len() && prev[j] == versions@[i as int].0@;
                assert(versions@[j].0.kview() == versions@[i as int].0.kview());
            }
        }
        table_insert_text(&mut doc, "actions", versions[i].0.as_str(), versions[i].1.as_str());
        proof {
            assert(versions@.take(i + 1).drop_last() =~= versions@.take(i as int));
            assert(versions@.take(i + 1).last() == versions@[i as int]);
            assert(versions@.take(i + 1).map_values(|p: (String, String)| p.0@) =~= versions@.take(
                i as int,
            ).map_values(|p: (String, String)| p.0@).push(versions@[i as int].0@));
        }
        i = i + 1;
    }
    assert(versions@.take(versions@.len() as int) =~= versions@);
    let ghost ks = versions@.map_values(|p: (String, String)| p.0@);
    proof {
        lemma_version_keys(versions@);
        assert(ascending_texts(ks));
    }
    let lists = &data.actions.overrides;
    if lists.len() == 0 {
        assert(written_lists(om).dom() =~= Set::empty()) by {
            assert(map_of(lists@) =~= Map::<Seq<char>, Seq<OverrideView>>::empty());
        }
        assert(leaf_key_order(doc, "actions"@, "overrides"@).to_set() =~= Set::<Seq<char>>::empty());
        return doc;
    }
    proof {
        lemma_map_of(lists@);
        assert(map_of(lists@).contains_key(lists@[0].0@));
        assert(written_lists(om).dom().contains(lists@[0].0@));
    }
    let ghost before = doc;
    insert_overrides_table(&mut doc);
    let mut i: usize = 0;
    while i < lists.len()
        invariant
            i <= lists@.len(),
            distinct_keys(lists@),
            map_of(lists@) == nonempty_lists(om),
            override_steps_fit(om),
            doc_table_at(doc, "actions"@),
            forall|t: Seq<char>| #[trigger] doc_has_key(doc, t) == (t == "actions"@),
            forall|t: Seq<char>| #[trigger] doc_table_at(doc, t) == (t == "actions"@),
            action_values(doc) == action_values(before).remove("overrides"@),
            overrides_present(doc) && overrides_is_table(doc),
            override_lists(doc) == map_of(lists@.take(i as int)).map_values(|l: Seq<OverrideView>| written_list(l)),
            override_keys(doc) == map_of(lists@.take(i as int)).dom(),
            inline_array_keys(doc) == map_of(lists@.take(i as int)).dom(),
            sub_key_order(doc, "actions"@) == with_key(ks, "overrides"@),
            leaf_key_order(doc, "actions"@, "overrides"@) == lists@.take(i as int).map_values(|p: (String, Vec<TomlOverride>)| p.0@),
        decreases lists@.len() - i,
    {
        let id = lists[i].0.as_str();
        let entries = &lists[i].1;
        let ghost prev = doc;
        proof {
            let pk = lists@.take(i as int).map_values(|p: (String, Vec<TomlOverride>)| p.0@);
            if pk.contains(lists@[i as int].0@) {
                let j = choose|j: int| 0 <= j < pk.len() && pk[j] == lists@[i as int].0@;
                assert(lists@[j].0.kview() == lists@[i as int].0.kview());
            }
            assert(lists@.take(i + 1).map_values(|p: (String, Vec<TomlOverride>)| p.0@) =~= pk.push(
                lists@[i as int].0@,
            ));
        }
        overrides_insert_array(&mut doc, id);
        proof {
            lemma_map_of(lists@);
            assert(map_of(lists@).contains_key(lists@[i as int].0.kview()));
            assert(lists@[i as int].0.kview() == lists@[i as int].0@);
            assert(lists@[i as int].1.deep_view() == entries.deep_view());
            assert(map_of(lists@)[lists@[i as int].0@] == entries.deep_view());
            assert(nonempty_lists(om).contains_key(id@));
            assert(om.contains_key(id@));
            assert(om[id@] == entries.deep_view());
            assert(written_list(entries.deep_view().take(0)) =~= Seq::<OverrideEntry>::empty());
        }
        let mut j: usize = 0;
        while j < entries.len()
            invariant
                j <= entries@.len(),
                override_steps_fit(om),
                om.contains_key(id@),
                om[id@] == entries.deep_view(),
                doc_table_at(doc, "actions"@),
                overrides_is_table(doc),
                overrides_present(doc),
                inline_array_keys(doc).contains(id@),
                override_lists(doc) == override_lists(prev).insert(id@, written_list(entries.deep_view().take(j as int))),
                override_keys(doc) == override_keys(prev).insert(id@),
                inline_array_keys(doc) == inline_array_keys(prev).insert(id@),
                action_values(doc) == action_values(prev),
                forall|t: Seq<char>| #[trigger] doc_has_key(doc, t) == doc_has_key(prev, t),
                forall|t: Seq<char>| #[trigger] doc_table_at(doc, t) == doc_table_at(prev, t),
                sub_key_order(doc, "actions"@) == sub_key_order(prev, "actions"@),
                leaf_key_order(doc, "actions"@, "overrides"@) == lists@.take(i + 1).map_values(|p: (String, Vec<TomlOverride>)| p.0@),
            decreases entries@.len() - j,
        {
            let o = &entries[j];
            proof {
                assert(om[id@][j as int] == o.deep_view());
            }
            let entry = entry_inline(o.workflow.as_str(), &o.job, o.step, o.version.as_str());
            override_push(&mut doc, id, entry);
            proof {
                assert(written_list(entries.deep_view().take(j + 1)) =~= written_list(entries.deep_view().take(j as int)).push(
                    written_view(o.deep_view()),
                ));
            }
            j = j + 1;
        }
        proof {
            assert(entries.deep_view().take(entries@.len() as int) =~= entries.deep_view());
            assert(lists@.take(i + 1).drop_last() =~= lists@.take(i as int));
            assert(lists@.take(i + 1).last() == lists@[i as int]);
            assert(override_lists(doc) =~= map_of(lists@.take(i + 1)).map_values(|l: Seq<OverrideView>| written_list(l)));
            assert(override_keys(doc) =~= map_of(lists@.take(i + 1)).dom());
        }
        i = i + 1;
    }
    proof {
        assert(lists@.take(lists@.len() as int) =~= lists@);
        assert(override_lists(doc) =~= written_lists(om));
    }
    let ghost unsorted = doc;
    overrides_sort(&mut doc);
    proof {
        assert(lists@.take(lists@.len() as int) =~= lists@);
        lemma_list_keys(lists@);
        lemma_sorted_permutation(
            lists@.map_values(|p: (String, Vec<TomlOverride>)| p.0@),
            leaf_key_order(doc, "actions"@, "overrides"@),
        );
        assert(written_lists(om).dom() =~= nonempty_lists(om).dom());
        assert(!(written_lists(om).dom() =~= Set::empty()));
        assert(ascending_texts(ks));
    }
    doc
}

} // verus!
