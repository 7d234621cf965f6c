//! Writing a lock in the two-tier layout through `toml_edit`: one
//! `[resolutions."<id>"."<specifier>"]` table per resolution and one
//! `[actions."<id>"."<version>"]` table per pinned commit, sorted by action
//! and then by specifier or version.

use vstd::prelude::*;
use crate::assoc::{MapKey, map_of, distinct_keys, lemma_map_of, lemma_map_of_same_views, lemma_permutation_map};
use crate::identity::{CommitSha, CommitDate, Repository, RefType, LockKey, copy_string, ref_type_name, ref_type_to_str};
use crate::toml_doc::{
    root_key_order, sub_key_order, leaf_key_order, with_key, ascending_texts, doc_table_at, toml_text, nested_text, nested_has, nested_is_table, table_texts,
    new_document, insert_root_table, sub_has, insert_sub_table, insert_leaf_table, new_table,
    table_set_text, document_text,
};
use crate::order::{Keyed, sort_by_key, rank, text_le, text_lt, lemma_text_lt_total, lemma_text_lt_transitive};
use crate::resolution::Commit;
use crate::text::chars_of;
use crate::tiered::{TieredLock, Resolution, Spec};
use vstd::string::StringExecFns;
use toml_edit::DocumentMut;

verus! {

broadcast use vstd::seq_lib::group_to_multiset_ensures;

/// A character of an action as it is written into a sort key: the two
/// smallest characters become two-character codes starting with the second
/// smallest, so that the NUL after the action sorts below every code.
pub open spec fn key_code(c: char) -> Seq<char> {
    if (c as u32) == 0 {
        seq!['\u{1}', '\0']
    } else if (c as u32) == 1 {
        seq!['\u{1}', '\u{1}']
    } else {
        seq![c]
    }
}

/// An action written as a sort key, character by character.
pub open spec fn key_codes(s: Seq<char>) -> Seq<char>
    decreases s.len(),
{
    if s.len() == 0 {
        Seq::empty()
    } else {
        key_codes(s.drop_last()) + key_code(s.last())
    }
}

/// The key an entry is sorted by: its action's codes, a NUL, then its
/// specifier or version; keys sort as (action, second part) pairs do.
pub open spec fn pair_key(k: LockKey) -> Seq<char> {
    key_codes(k.id@) + seq!['\0'] + k.version@
}

/// `(a1, b1)` sorts no later than `(a2, b2)`: by action, then by the second part.
pub open spec fn pair_le(a1: Seq<char>, b1: Seq<char>, a2: Seq<char>, b2: Seq<char>) -> bool {
    text_lt(a1, a2, false) || (a1 == a2 && text_le(b1, b2, false))
}

proof fn lemma_codes_front(s: Seq<char>)
    requires
        s.len() > 0,
    ensures
        key_codes(s) == key_code(s[0]) + key_codes(s.drop_first()),
    decreases s.len(),
{
    if s.len() > 1 {
        lemma_codes_front(s.drop_last());
        assert(s.drop_last().drop_first() =~= s.drop_first().drop_last());
        assert(s.drop_last()[0] == s[0]);
        assert(s.drop_first().last() == s.last());
    } else {
        assert(s.drop_first() =~= Seq::<char>::empty());
        assert(s.drop_last() =~= Seq::<char>::empty());
    }
}

proof fn lemma_common_prefix(p: Seq<char>, x: Seq<char>, y: Seq<char>)
    ensures
        text_lt(p + x, p + y, false) == text_lt(x, y, false),
    decreases p.len(),
{
    if p.len() > 0 {
        assert((p + x).drop_first() =~= p.drop_first() + x);
        assert((p + y).drop_first() =~= p.drop_first() + y);
        lemma_common_prefix(p.drop_first(), x, y);
    } else {
        assert(p + x =~= x);
        assert(p + y =~= y);
    }
}

proof fn lemma_codes_lt(a1: Seq<char>, a2: Seq<char>, b1: Seq<char>, b2: Seq<char>)
    requires
        text_lt(a1, a2, false),
    ensures
        text_lt(key_codes(a1) + seq!['\0'] + b1, key_codes(a2) + seq!['\0'] + b2, false),
    decreases a1.len(),
{
    let k1 = key_codes(a1) + seq!['\0'] + b1;
    let k2 = key_codes(a2) + seq!['\0'] + b2;
    lemma_codes_front(a2);
    let c2 = a2[0];
    assert(k2 =~= key_code(c2) + (key_codes(a2.drop_first()) + seq!['\0'] + b2));
    if a1.len() == 0 {
        assert(key_codes(a1) =~= Seq::<char>::empty());
        assert(k1[0] == '\0');
        assert(k2[0] == key_code(c2)[0]);
        assert(('\0' as u32) == 0 && ('\u{1}' as u32) == 1);
        assert(rank(k1[0], false) == 1);
        assert(rank(k2[0], false) >= 2);
    } else {
        lemma_codes_front(a1);
        let c1 = a1[0];
        assert(k1 =~= key_code(c1) + (key_codes(a1.drop_first()) + seq!['\0'] + b1));
        if c1 == c2 {
            lemma_codes_lt(a1.drop_first(), a2.drop_first(), b1, b2);
            lemma_common_prefix(
                key_code(c1),
                key_codes(a1.drop_first()) + seq!['\0'] + b1,
                key_codes(a2.drop_first()) + seq!['\0'] + b2,
            );
        } else {
            assert(k1[0] == key_code(c1)[0]);
            assert(k2[0] == key_code(c2)[0]);
            assert((c1 as u32) < (c2 as u32));
            if key_code(c1)[0] == key_code(c2)[0] {
                assert(('\0' as u32) == 0 && ('\u{1}' as u32) == 1);
                assert((c1 as u32) == 0 && (c2 as u32) == 1);
                assert(k1.drop_first()[0] == '\0');
                assert(k2.drop_first()[0] == '\u{1}');
                assert(text_lt(k1.drop_first(), k2.drop_first(), false));
            } else if (c1 as u32) <= 1 {
                assert(('\0' as u32) == 0 && ('\u{1}' as u32) == 1);
                assert(k1[0] == '\u{1}');
                assert(k2[0] == c2);
                assert(rank(k1[0], false) < rank(k2[0], false));
            } else {
                assert(k1[0] == c1);
                assert(k2[0] == c2);
                assert(rank(k1[0], false) < rank(k2[0], false));
            }
        }
    }
}

/// Keys sort as their (action, second part) pairs do.
proof fn lemma_pair_key_order(k1: LockKey, k2: LockKey)
    requires
        text_le(pair_key(k1), pair_key(k2), false),
    ensures
        pair_le(k1.id@, k1.version@, k2.id@, k2.version@),
{
    lemma_text_lt_total(k1.id@, k2.id@, false);
    if k1.id@ == k2.id@ {
        lemma_common_prefix(key_codes(k1.id@) + seq!['\0'], k2.version@, k1.version@);
        assert(pair_key(k1) =~= (key_codes(k1.id@) + seq!['\0']) + k1.version@);
        assert(pair_key(k2) =~= (key_codes(k1.id@) + seq!['\0']) + k2.version@);
    } else if text_lt(k2.id@, k1.id@, false) {
        lemma_codes_lt(k2.id@, k1.id@, k2.version@, k1.version@);
    }
}

/// The keys come in (action, second part) order, each once.
pub open spec fn keys_in_order(keys: Seq<LockKey>) -> bool {
    &&& forall|j: int, k: int|
        0 <= j < k < keys.len() ==> pair_le(#[trigger] keys[j].id@, keys[j].version@, #[trigger] keys[k].id@, keys[k].version@)
    &&& forall|j: int, k: int|
        0 <= j < keys.len() && 0 <= k < keys.len() && j != k ==> (#[trigger] keys[j].id@, keys[j].version@) != (
            #[trigger] keys[k].id@,
            keys[k].version@,
        )
}

/// Whether `ids` and `parts` are the nested tables that the first `n` keys
/// make: the actions in ascending order, each once; under each action its
/// second parts in ascending order, each once; and the last key's action and
/// second part last.
pub open spec fn tables_built(
    ids: Seq<Seq<char>>,
    parts: spec_fn(Seq<char>) -> Seq<Seq<char>>,
    keys: Seq<LockKey>,
    n: int,
) -> bool {
    &&& ascending_texts(ids)
    &&& forall|x: Seq<char>| #[trigger] ids.contains(x) <==> exists|j: int| 0 <= j < n && keys[j].id@ == x
    &&& forall|x: Seq<char>| ascending_texts(#[trigger] parts(x))
    &&& forall|x: Seq<char>, y: Seq<char>|
        #[trigger] parts(x).contains(y) <==> exists|j: int| 0 <= j < n && keys[j].id@ == x && keys[j].version@ == y
    &&& n > 0 ==> ids.len() > 0 && ids.last() == keys[n - 1].id@ && parts(keys[n - 1].id@).len() > 0 && parts(
        keys[n - 1].id@,
    ).last() == keys[n - 1].version@
}

proof fn lemma_le_lt(a: Seq<char>, b: Seq<char>, c: Seq<char>)
    requires
        text_le(a, b, false),
        text_lt(b, c, false),
    ensures
        text_lt(a, c, false),
{
    lemma_text_lt_total(a, b, false);
    if a != b {
        lemma_text_lt_transitive(a, b, c, false);
    }
}

/// In an ascending sequence every element sorts no later than the last.
proof fn lemma_below_last(s: Seq<Seq<char>>, y: Seq<char>)
    requires
        ascending_texts(s),
        s.contains(y),
    ensures
        text_le(y, s.last(), false),
{
    let m = choose|m: int| 0 <= m < s.len() && s[m] == y;
    if m < s.len() - 1 {
        assert(text_le(s[m], s[s.len() - 1], false));
    } else {
        lemma_text_lt_total(y, y, false);
    }
}

/// Appending a text above every element keeps a sequence ascending.
proof fn lemma_push_above(s: Seq<Seq<char>>, v: Seq<char>)
    requires
        ascending_texts(s),
        s.len() > 0 ==> text_lt(s.last(), v, false),
    ensures
        ascending_texts(s.push(v)),
        !s.contains(v),
{
    if s.len() > 0 {
        assert forall|y: Seq<char>| s.contains(y) implies text_lt(y, v, false) by {
            lemma_below_last(s, y);
            lemma_le_lt(y, s.last(), v);
        }
        if s.contains(v) {
            lemma_text_lt_total(v, v, false);
        }
        assert forall|i: int, j: int| 0 <= i < j < s.push(v).len() implies text_le(
            #[trigger] s.push(v)[i],
            #[trigger] s.push(v)[j],
            false,
        ) by {
            if j == s.len() {
                assert(s.contains(s[i]));
                lemma_text_lt_total(s[i], v, false);
            } else {
                assert(s.push(v)[i] == s[i] && s.push(v)[j] == s[j]);
            }
        }
        assert forall|i: int, j: int| 0 <= i < s.push(v).len() && 0 <= j < s.push(v).len() && i != j implies s.push(
            v,
        )[i] != s.push(v)[j] by {
            if i == s.len() {
                assert(s.contains(s[j]));
            } else if j == s.len() {
                assert(s.contains(s[i]));
            }
        }
    } else {
        assert(s.push(v) =~= seq![v]);
    }
}

/// A sequence that holds nothing is empty.
proof fn lemma_holds_nothing(s: Seq<Seq<char>>)
    requires
        forall|y: Seq<char>| !#[trigger] s.contains(y),
    ensures
        s.len() == 0,
{
    if s.len() > 0 {
        assert(s.contains(s[0]));
    }
}

proof fn lemma_push_contains(s: Seq<Seq<char>>, v: Seq<char>, y: Seq<char>)
    ensures
        s.push(v).contains(y) <==> (s.contains(y) || y == v),
{
    if s.push(v).contains(y) {
        let m = choose|m: int| 0 <= m < s.push(v).len() && s.push(v)[m] == y;
        if m < s.len() {
            assert(s[m] == y);
        }
    }
    if s.contains(y) {
        let m = choose|m: int| 0 <= m < s.len() && s[m] == y;
        assert(s.push(v)[m] == y);
    }
    if y == v {
        assert(s.push(v)[s.len() as int] == v);
    }
}

/// Adding key `n` to the tables the first `n` keys make gives the tables of
/// the first `n + 1`.
proof fn lemma_tables_step(
    ids: Seq<Seq<char>>,
    parts: spec_fn(Seq<char>) -> Seq<Seq<char>>,
    keys: Seq<LockKey>,
    n: int,
    ids2: Seq<Seq<char>>,
    parts2: spec_fn(Seq<char>) -> Seq<Seq<char>>,
)
    requires
        tables_built(ids, parts, keys, n),
        keys_in_order(keys),
        0 <= n < keys.len(),
        ids2 == with_key(ids, keys[n].id@),
        parts2(keys[n].id@) == with_key(
            if ids.contains(keys[n].id@) {
                parts(keys[n].id@)
            } else {
                Seq::empty()
            },
            keys[n].version@,
        ),
        forall|x: Seq<char>| x != keys[n].id@ ==> #[trigger] parts2(x) == parts(x),
    ensures
        tables_built(ids2, parts2, keys, n + 1),
{
    let id = keys[n].id@;
    let v = keys[n].version@;
    if n == 0 {
        lemma_holds_nothing(ids);
        assert forall|x: Seq<char>| #[trigger] parts(x).len() == 0 by {
            lemma_holds_nothing(parts(x));
        }
        lemma_push_above(ids, id);
        lemma_push_above(Seq::<Seq<char>>::empty(), v);
        assert(ids2 == ids.push(id));
        assert(parts2(id) == Seq::<Seq<char>>::empty().push(v));
    } else {
        let pid = keys[n - 1].id@;
        let pv = keys[n - 1].version@;
        assert(pair_le(pid, pv, id, v));
        assert((pid, pv) != (id, v));
        assert(ids.contains(pid)) by {
            assert(ids.last() == pid);
            assert(ids[ids.len() - 1] == pid);
        }
        if ids.contains(id) {
            lemma_below_last(ids, id);
            lemma_text_lt_total(pid, id, false);
            assert(pid == id);
            lemma_text_lt_total(pv, v, false);
            assert(text_lt(pv, v, false));
            let l = parts(id);
            assert(l.last() == pv);
            lemma_push_above(l, v);
            assert(parts2(id) == l.push(v));
            assert(ids2 == ids);
        } else {
            assert(ids.last() == pid);
            assert(pid != id);
            lemma_text_lt_total(pid, id, false);
            assert(text_lt(pid, id, false));
            lemma_push_above(ids, id);
            assert(ids2 == ids.push(id));
            assert forall|y: Seq<char>| !#[trigger] parts(id).contains(y) by {
                if parts(id).contains(y) {
                    let j = choose|j: int| 0 <= j < n && keys[j].id@ == id && keys[j].version@ == y;
                    assert(ids.contains(id));
                }
            }
            lemma_push_above(Seq::<Seq<char>>::empty(), v);
            assert(parts2(id) == Seq::<Seq<char>>::empty().push(v));
        }
    }
    assert forall|x: Seq<char>| #[trigger] ids2.contains(x) <==> exists|j: int| 0 <= j < n + 1 && keys[j].id@ == x by {
        if ids2.contains(x) && x != id {
            if !ids.contains(id) {
                let m = choose|m: int| 0 <= m < ids2.len() && ids2[m] == x;
                assert(m < ids.len());
                assert(ids[m] == x);
            }
            assert(ids.contains(x));
            let j = choose|j: int| 0 <= j < n && keys[j].id@ == x;
            assert(0 <= j < n + 1 && keys[j].id@ == x);
        }
        if x == id {
            if !ids.contains(id) {
                assert(ids2[ids.len() as int] == id);
            }
            assert(ids2.contains(id));
            assert(keys[n].id@ == x);
        }
        if exists|j: int| 0 <= j < n + 1 && keys[j].id@ == x {
            let j = choose|j: int| 0 <= j < n + 1 && keys[j].id@ == x;
            if j < n {
                assert(ids.contains(x));
                let m = choose|m: int| 0 <= m < ids.len() && ids[m] == x;
                if !ids.contains(id) {
                    assert(ids2[m] == x);
                }
            }
        }
    }
    assert forall|y: Seq<char>| #[trigger] parts2(id).contains(y) <==> (parts(id).contains(y) || y == v) by {
        if ids.contains(id) {
            lemma_push_contains(parts(id), v, y);
        } else {
            lemma_push_contains(Seq::<Seq<char>>::empty(), v, y);
            if parts(id).contains(y) {
                let j = choose|j: int| 0 <= j < n && keys[j].id@ == id && keys[j].version@ == y;
                assert(ids.contains(id));
            }
        }
    }
    assert forall|x: Seq<char>, y: Seq<char>|
        #[trigger] parts2(x).contains(y) <==> exists|j: int|
            0 <= j < n + 1 && keys[j].id@ == x && keys[j].version@ == y by {
        if exists|j: int| 0 <= j < n + 1 && keys[j].id@ == x && keys[j].version@ == y {
            let j = choose|j: int| 0 <= j < n + 1 && keys[j].id@ == x && keys[j].version@ == y;
            if j < n {
                assert(parts(x).contains(y));
            }
        }
        if parts2(x).contains(y) {
            if x != id {
                assert(parts(x).contains(y));
                let j = choose|j: int| 0 <= j < n && keys[j].id@ == x && keys[j].version@ == y;
                assert(0 <= j < n + 1);
            } else if y != v {
                assert(parts(id).contains(y));
                let j = choose|j: int| 0 <= j < n && keys[j].id@ == x && keys[j].version@ == y;
                assert(0 <= j < n + 1);
            } else {
                assert(keys[n].id@ == x && keys[n].version@ == y);
            }
        }
    }
}

/// Whether `ids` and `parts` are the nested tables of the keys of `m`: the
/// actions in ascending order, each once, and under each action its second
/// parts in ascending order, each once.
pub open spec fn nested_order<V>(
    ids: Seq<Seq<char>>,
    parts: spec_fn(Seq<char>) -> Seq<Seq<char>>,
    m: Map<(Seq<char>, Seq<char>), V>,
) -> bool {
    &&& ascending_texts(ids)
    &&& forall|x: Seq<char>| #[trigger] ids.contains(x) <==> exists|y: Seq<char>| m.contains_key((x, y))
    &&& forall|x: Seq<char>| ascending_texts(#[trigger] parts(x))
    &&& forall|x: Seq<char>, y: Seq<char>| #[trigger] parts(x).contains(y) <==> m.contains_key((x, y))
}

/// Pairs sorted by key, with distinct keys, have their keys in order.
proof fn lemma_keys_in_order<V: DeepView>(s: Seq<(LockKey, V)>)
    requires
        distinct_keys(s),
        forall|j: int, k: int|
            0 <= j < k < s.len() ==> text_le(pair_key(#[trigger] s[j].0), pair_key(#[trigger] s[k].0), false),
    ensures
        keys_in_order(s.map_values(|p: (LockKey, V)| p.0)),
{
    let keys = s.map_values(|p: (LockKey, V)| p.0);
    assert forall|j: int, k: int| 0 <= j < k < keys.len() implies pair_le(
        #[trigger] keys[j].id@,
        keys[j].version@,
        #[trigger] keys[k].id@,
        keys[k].version@,
    ) by {
        assert(keys[j] == s[j].0 && keys[k] == s[k].0);
        lemma_pair_key_order(s[j].0, s[k].0);
    }
    assert forall|j: int, k: int|
        0 <= j < keys.len() && 0 <= k < keys.len() && j != k implies (#[trigger] keys[j].id@, keys[j].version@) != (
            #[trigger] keys[k].id@,
            keys[k].version@,
        ) by {
        assert(s[j].0.kview() != s[k].0.kview());
    }
}

/// The tables built from all the keys of distinct-keyed pairs are those of their map.
proof fn lemma_nested_order<V: DeepView>(
    s: Seq<(LockKey, V)>,
    ids: Seq<Seq<char>>,
    parts: spec_fn(Seq<char>) -> Seq<Seq<char>>,
)
    requires
        distinct_keys(s),
        tables_built(ids, parts, s.map_values(|p: (LockKey, V)| p.0), s.len() as int),
    ensures
        nested_order(ids, parts, map_of(s)),
{
    lemma_map_of(s);
    let keys = s.map_values(|p: (LockKey, V)| p.0);
    assert forall|x: Seq<char>| #[trigger] ids.contains(x) <==> exists|y: Seq<char>| map_of(s).contains_key((x, y)) by {
        if ids.contains(x) {
            let j = choose|j: int| 0 <= j < s.len() && keys[j].id@ == x;
            assert(map_of(s).contains_key(s[j].0.kview()));
            assert(s[j].0.kview() == (x, keys[j].version@));
        }
        if exists|y: Seq<char>| map_of(s).contains_key((x, y)) {
            let y = choose|y: Seq<char>| map_of(s).contains_key((x, y));
            let j = choose|j: int| 0 <= j < s.len() && s[j].0.kview() == (x, y);
            assert(keys[j].id@ == x);
        }
    }
    assert forall|x: Seq<char>, y: Seq<char>| #[trigger] parts(x).contains(y) <==> map_of(s).contains_key((x, y)) by {
        if parts(x).contains(y) {
            let j = choose|j: int| 0 <= j < s.len() && keys[j].id@ == x && keys[j].version@ == y;
            assert(map_of(s).contains_key(s[j].0.kview()));
        }
        if map_of(s).contains_key((x, y)) {
            let j = choose|j: int| 0 <= j < s.len() && s[j].0.kview() == (x, y);
            assert(keys[j].id@ == x && keys[j].version@ == y);
        }
    }
}

fn pair_key_chars(k: &LockKey) -> (r: Vec<char>)
    ensures
        r@ == pair_key(*k),
{
    let u = chars_of(k.id.as_str());
    let mut v: Vec<char> = Vec::new();
    let mut i: usize = 0;
    while i < u.len()
        invariant
            i <= u@.len(),
            v@ == key_codes(u@.take(i as int)),
        decreases u@.len() - i,
    {
        let c = u[i];
        if (c as u32) == 0 {
            v.push('\u{1}');
            v.push('\0');
        } else if (c as u32) == 1 {
            v.push('\u{1}');
            v.push('\u{1}');
        } else {
            v.push(c);
        }
        proof {
            assert(u@.take(i + 1).drop_last() =~= u@.take(i as int));
            assert(u@.take(i + 1).last() == c);
        }
        assert(v@ =~= key_codes(u@.take(i + 1)));
        i = i + 1;
    }
    assert(u@.take(u@.len() as int) =~= u@);
    v.push('\0');
    let w = chars_of(k.version.as_str());
    let mut i: usize = 0;
    let ghost start = v@;
    while i < w.len()
        invariant
            i <= w@.len(),
            v@ == start + w@.take(i as int),
        decreases w@.len() - i,
    {
        v.push(w[i]);
        i = i + 1;
        assert(v@ =~= start + w@.take(i as int));
    }
    assert(w@.take(w@.len() as int) =~= w@);
    v
}

impl Keyed for (LockKey, Resolution) {
    open spec fn sort_key(&self) -> Seq<char> {
        pair_key(self.0)
    }

    fn key_chars(&self) -> (r: Vec<char>) {
        pair_key_chars(&self.0)
    }
}

impl Keyed for (LockKey, Commit) {
    open spec fn sort_key(&self) -> Seq<char> {
        pair_key(self.0)
    }

    fn key_chars(&self) -> (r: Vec<char>) {
        pair_key_chars(&self.0)
    }
}

/// What the resolutions table holds at `doc[resolutions][id][spec][f]`: the
/// resolved version under `version`, and nothing else.
pub open spec fn resolution_text(
    m: Map<(Seq<char>, Seq<char>), (Seq<char>, Seq<char>)>,
    id: Seq<char>,
    spec: Seq<char>,
    f: Seq<char>,
) -> Option<Seq<char>> {
    if m.contains_key((id, spec)) && f == "version"@ {
        Some(m[(id, spec)].0)
    } else {
        None
    }
}

/// The fields a pinned commit is written with.
pub open spec fn commit_fields(c: (Seq<char>, Seq<char>, Option<RefType>, Seq<char>)) -> Map<Seq<char>, Seq<char>> {
    Map::empty().insert("sha"@, c.0).insert("repository"@, c.1).insert("ref_type"@, ref_type_name(c.2)).insert(
        "date"@,
        c.3,
    )
}

/// What the actions table holds at `doc[actions][id][version][f]`.
pub open spec fn commit_text(
    m: Map<(Seq<char>, Seq<char>), (Seq<char>, Seq<char>, Option<RefType>, Seq<char>)>,
    id: Seq<char>,
    version: Seq<char>,
    f: Seq<char>,
) -> Option<Seq<char>> {
    if m.contains_key((id, version)) && commit_fields(m[(id, version)]).contains_key(f) {
        Some(commit_fields(m[(id, version)])[f])
    } else {
        None
    }
}

fn copy_resolutions(v: &Vec<(Spec, Resolution)>) -> (r: Vec<(Spec, Resolution)>)
    ensures
        r@.len() == v@.len(),
        forall|i: int|
            0 <= i < v@.len() ==> (#[trigger] r@[i]).0.kview() == v@[i].0.kview() && r@[i].1.deep_view()
                == v@[i].1.deep_view(),
{
    let mut out: Vec<(Spec, Resolution)> = Vec::new();
    let mut i: usize = 0;
    while i < v.len()
        invariant
            i <= v@.len(),
            out@.len() == i,
            forall|j: int|
                0 <= j < i ==> (#[trigger] out@[j]).0.kview() == v@[j].0.kview() && out@[j].1.deep_view()
                    == v@[j].1.deep_view(),
        decreases v@.len() - i,
    {
        let res = Resolution { version: v[i].1.version.copy(), comment: copy_string(&v[i].1.comment) };
        out.push((v[i].0.copy(), res));
        i = i + 1;
    }
    out
}

fn copy_commits(v: &Vec<(LockKey, Commit)>) -> (r: Vec<(LockKey, Commit)>)
    ensures
        r@.len() == v@.len(),
        forall|i: int|
            0 <= i < v@.len() ==> (#[trigger] r@[i]).0.kview() == v@[i].0.kview() && r@[i].1.deep_view()
                == v@[i].1.deep_view(),
{
    let mut out: Vec<(LockKey, Commit)> = Vec::new();
    let mut i: usize = 0;
    while i < v.len()
        invariant
            i <= v@.len(),
            out@.len() == i,
            forall|j: int|
                0 <= j < i ==> (#[trigger] out@[j]).0.kview() == v@[j].0.kview() && out@[j].1.deep_view()
                    == v@[j].1.deep_view(),
        decreases v@.len() - i,
    {
        let c = &v[i].1;
        let commit = Commit {
            sha: CommitSha(copy_string(&c.sha.0)),
            repository: Repository(copy_string(&c.repository.0)),
            ref_type: c.ref_type,
            date: CommitDate(copy_string(&c.date.0)),
        };
        out.push((v[i].0.copy(), commit));
        i = i + 1;
    }
    out
}

/// The two-tier document of `lock`: every resolution under
/// `[resolutions."<id>"."<specifier>"]` with its `version`, and every pinned
/// commit under `[actions."<id>"."<version>"]` with its `sha`, `repository`,
/// `ref_type` and `date`; the document holds nothing else at those depths.
pub fn build_lock_document(lock: &TieredLock) -> (r: DocumentMut)
    requires
        lock.wf(),
    ensures
        doc_table_at(r, "resolutions"@),
        doc_table_at(r, "actions"@),
        forall|id: Seq<char>, spec: Seq<char>, f: Seq<char>|
            #[trigger] nested_text(r, "resolutions"@, id, spec, f) == resolution_text(lock.resolution_map(), id, spec, f),
        forall|id: Seq<char>, version: Seq<char>, f: Seq<char>|
            #[trigger] nested_text(r, "actions"@, id, version, f) == commit_text(lock.action_map(), id, version, f),
        root_key_order(r) == seq!["resolutions"@, "actions"@],
        nested_order(
            sub_key_order(r, "resolutions"@),
            (|x: Seq<char>| leaf_key_order(r, "resolutions"@, x)),
            lock.resolution_map(),
        ),
        nested_order(
            sub_key_order(r, "actions"@),
            (|x: Seq<char>| leaf_key_order(r, "actions"@, x)),
            lock.action_map(),
        ),
{
    proof {
        reveal_strlit("resolutions");
        reveal_strlit("actions");
    }
    let mut doc = new_document();
    insert_root_table(&mut doc, "resolutions");
    let res_pairs = lock.resolution_pairs();
    let copies = copy_resolutions(res_pairs);
    proof {
        lemma_map_of_same_views(res_pairs@, copies@);
    }
    let ghost unsorted = copies@;
    let sorted = sort_by_key(copies, false);
    proof {
        lemma_permutation_map(unsorted, sorted@);
        lemma_map_of(sorted@);
    }
    proof {
        assert forall|j: int, k: int| 0 <= j < k < sorted@.len() implies text_le(
            pair_key(#[trigger] sorted@[j].0),
            pair_key(#[trigger] sorted@[k].0),
            false,
        ) by {
            assert(text_le(sorted@[j].sort_key(), sorted@[k].sort_key(), false));
        }
        lemma_keys_in_order(sorted@);
        assert(sub_key_order(doc, "resolutions"@) =~= Seq::<Seq<char>>::empty());
        assert forall|x: Seq<char>| #[trigger] leaf_key_order(doc, "resolutions"@, x) =~= Seq::<Seq<char>>::empty() by {}
    }
    let ghost rm = lock.resolution_map();
    let mut i: usize = 0;
    while i < sorted.len()
        invariant
            keys_in_order(sorted@.map_values(|p: (LockKey, Resolution)| p.0)),
            tables_built(
                sub_key_order(doc, "resolutions"@),
                (|x: Seq<char>| leaf_key_order(doc, "resolutions"@, x)),
                sorted@.map_values(|p: (LockKey, Resolution)| p.0),
                i as int,
            ),
            forall|b: Seq<char>| #[trigger] nested_has(doc, "resolutions"@, b) == sub_key_order(doc, "resolutions"@).contains(b),
            root_key_order(doc) == seq!["resolutions"@],
            i <= sorted@.len(),
            distinct_keys(sorted@),
            map_of(sorted@) == rm,
            doc_table_at(doc, "resolutions"@),
            forall|b: Seq<char>| #[trigger] nested_has(doc, "resolutions"@, b) == nested_is_table(doc, "resolutions"@, b),
            forall|b: Seq<char>, c: Seq<char>, f: Seq<char>|
                !nested_has(doc, "resolutions"@, b) ==> #[trigger] nested_text(doc, "resolutions"@, b, c, f) is None,
            forall|id: Seq<char>, spec: Seq<char>, f: Seq<char>|
                #[trigger] nested_text(doc, "resolutions"@, id, spec, f) == resolution_text(
                    map_of(sorted@.take(i as int)),
                    id,
                    spec,
                    f,
                ),
        decreases sorted@.len() - i,
    {
        let key = &sorted[i].0;
        let id = key.id.as_str();
        let ghost start = doc;
        if !sub_has(&doc, "resolutions", id) {
            insert_sub_table(&mut doc, "resolutions", id);
        }
        let ghost mid = doc;
        let mut t = new_table();
        table_set_text(&mut t, "version", sorted[i].1.version.as_str());
        insert_leaf_table(&mut doc, "resolutions", id, key.version.as_str(), t);
        proof {
            let keys = sorted@.map_values(|p: (LockKey, Resolution)| p.0);
            assert(keys[i as int] == *key);
            if !sub_key_order(start, "resolutions"@).contains(key.id@) {
                assert(leaf_key_order(mid, "resolutions"@, key.id@) =~= Seq::<Seq<char>>::empty());
            }
            lemma_tables_step(
                sub_key_order(start, "resolutions"@),
                (|x: Seq<char>| leaf_key_order(start, "resolutions"@, x)),
                keys,
                i as int,
                sub_key_order(doc, "resolutions"@),
                (|x: Seq<char>| leaf_key_order(doc, "resolutions"@, x)),
            );
        }
        proof {
            let pre = sorted@.take(i as int);
            assert(sorted@.take(i + 1) =~= pre.push(sorted@[i as int]));
            assert(sorted@.take(i + 1).drop_last() =~= pre);
            assert(distinct_keys(pre)) by {
                assert forall|a: int, b: int|
                    0 <= a < pre.len() && 0 <= b < pre.len() && a != b implies (#[trigger] pre[a]).0.kview()
                    != (#[trigger] pre[b]).0.kview() by {
                    assert(pre[a] == sorted@[a] && pre[b] == sorted@[b]);
                }
            }
            lemma_map_of(pre);
            if map_of(pre).contains_key(key.kview()) {
                let j = choose|j: int| 0 <= j < pre.len() && pre[j].0.kview() == key.kview();
                assert(pre[j] == sorted@[j]);
                assert(sorted@[j].0.kview() != sorted@[i as int].0.kview());
            }
            assert(table_texts(t) =~= Map::empty().insert("version"@, sorted@[i as int].1.version@));
            assert forall|id2: Seq<char>, spec2: Seq<char>, f: Seq<char>|
                #[trigger] nested_text(doc, "resolutions"@, id2, spec2, f) == resolution_text(
                    map_of(sorted@.take(i + 1)),
                    id2,
                    spec2,
                    f,
                ) by {
                if id2 == key.id@ && spec2 == key.version@ {
                } else {
                    assert(nested_text(doc, "resolutions"@, id2, spec2, f) == nested_text(mid, "resolutions"@, id2, spec2, f));
                    if id2 == key.id@ && !nested_has(start, "resolutions"@, id2) {
                        assert(nested_text(start, "resolutions"@, id2, spec2, f) is None);
                    } else {
                        assert(nested_text(mid, "resolutions"@, id2, spec2, f) == nested_text(start, "resolutions"@, id2, spec2, f));
                    }
                }
            }
        }
        i = i + 1;
    }
    assert(sorted@.take(sorted@.len() as int) =~= sorted@);
    proof {
        reveal_strlit("resolutions");
        reveal_strlit("actions");
        assert("resolutions"@.len() == 11);
        assert("actions"@.len() == 7);
        assert("resolutions"@ != "actions"@);
    }
    proof {
        lemma_nested_order(
            sorted@,
            sub_key_order(doc, "resolutions"@),
            (|x: Seq<char>| leaf_key_order(doc, "resolutions"@, x)),
        );
    }
    let ghost res_doc = doc;
    insert_root_table(&mut doc, "actions");
    proof {
        assert(sub_key_order(doc, "resolutions"@) == sub_key_order(res_doc, "resolutions"@));
        assert((|x: Seq<char>| leaf_key_order(doc, "resolutions"@, x)) =~= (|x: Seq<char>| leaf_key_order(res_doc, "resolutions"@, x)));
        assert(root_key_order(doc) =~= seq!["resolutions"@, "actions"@]);
    }
    let act_pairs = lock.action_pairs();
    let copies = copy_commits(act_pairs);
    proof {
        lemma_map_of_same_views(act_pairs@, copies@);
    }
    let ghost unsorted = copies@;
    let sorted = sort_by_key(copies, false);
    proof {
        lemma_permutation_map(unsorted, sorted@);
        lemma_map_of(sorted@);
    }
    proof {
        assert forall|j: int, k: int| 0 <= j < k < sorted@.len() implies text_le(
            pair_key(#[trigger] sorted@[j].0),
            pair_key(#[trigger] sorted@[k].0),
            false,
        ) by {
            assert(text_le(sorted@[j].sort_key(), sorted@[k].sort_key(), false));
        }
        lemma_keys_in_order(sorted@);
        assert(sub_key_order(doc, "actions"@) =~= Seq::<Seq<char>>::empty());
        assert forall|x: Seq<char>| #[trigger] leaf_key_order(doc, "actions"@, x) =~= Seq::<Seq<char>>::empty() by {}
    }
    let ghost am = lock.action_map();
    let mut i: usize = 0;
    while i < sorted.len()
        invariant
            keys_in_order(sorted@.map_values(|p: (LockKey, Commit)| p.0)),
            tables_built(
                sub_key_order(doc, "actions"@),
                (|x: Seq<char>| leaf_key_order(doc, "actions"@, x)),
                sorted@.map_values(|p: (LockKey, Commit)| p.0),
                i as int,
            ),
            forall|b: Seq<char>| #[trigger] nested_has(doc, "actions"@, b) == sub_key_order(doc, "actions"@).contains(b),
            root_key_order(doc) == seq!["resolutions"@, "actions"@],
            nested_order(
                sub_key_order(doc, "resolutions"@),
                (|x: Seq<char>| leaf_key_order(doc, "resolutions"@, x)),
                rm,
            ),
            i <= sorted@.len(),
            distinct_keys(sorted@),
            map_of(sorted@) == am,
            "resolutions"@ != "actions"@,
            doc_table_at(doc, "resolutions"@),
            doc_table_at(doc, "actions"@),
            forall|id: Seq<char>, spec: Seq<char>, f: Seq<char>|
                #[trigger] nested_text(doc, "resolutions"@, id, spec, f) == resolution_text(rm, id, spec, f),
            forall|b: Seq<char>| #[trigger] nested_has(doc, "actions"@, b) == nested_is_table(doc, "actions"@, b),
            forall|b: Seq<char>, c: Seq<char>, f: Seq<char>|
                !nested_has(doc, "actions"@, b) ==> #[trigger] nested_text(doc, "actions"@, b, c, f) is None,
            forall|id: Seq<char>, version: Seq<char>, f: Seq<char>|
                #[trigger] nested_text(doc, "actions"@, id, version, f) == commit_text(
                    map_of(sorted@.take(i as int)),
                    id,
                    version,
                    f,
                ),
        decreases sorted@.len() - i,
    {
        let key = &sorted[i].0;
        let id = key.id.as_str();
        let ghost start = doc;
        if !sub_has(&doc, "actions", id) {
            insert_sub_table(&mut doc, "actions", id);
        }
        let ghost mid = doc;
        let c = &sorted[i].1;
        let mut t = new_table();
        table_set_text(&mut t, "sha", c.sha.as_str());
        table_set_text(&mut t, "repository", c.repository.as_str());
        table_set_text(&mut t, "ref_type", ref_type_to_str(c.ref_type));
        table_set_text(&mut t, "date", c.date.as_str());
        insert_leaf_table(&mut doc, "actions", id, key.version.as_str(), t);
        proof {
            let keys = sorted@.map_values(|p: (LockKey, Commit)| p.0);
            assert(keys[i as int] == *key);
            if !sub_key_order(start, "actions"@).contains(key.id@) {
                assert(leaf_key_order(mid, "actions"@, key.id@) =~= Seq::<Seq<char>>::empty());
            }
            assert(sub_key_order(doc, "resolutions"@) == sub_key_order(start, "resolutions"@));
            assert((|x: Seq<char>| leaf_key_order(doc, "resolutions"@, x)) =~= (|x: Seq<char>| leaf_key_order(
                start,
                "resolutions"@,
                x,
            )));
            lemma_tables_step(
                sub_key_order(start, "actions"@),
                (|x: Seq<char>| leaf_key_order(start, "actions"@, x)),
                keys,
                i as int,
                sub_key_order(doc, "actions"@),
                (|x: Seq<char>| leaf_key_order(doc, "actions"@, x)),
            );
        }
        proof {
            let pre = sorted@.take(i as int);
            assert(sorted@.take(i + 1) =~= pre.push(sorted@[i as int]));
            assert(sorted@.take(i + 1).drop_last() =~= pre);
            assert(distinct_keys(pre)) by {
                assert forall|a: int, b: int|
                    0 <= a < pre.len() && 0 <= b < pre.len() && a != b implies (#[trigger] pre[a]).0.kview()
                    != (#[trigger] pre[b]).0.kview() by {
                    assert(pre[a] == sorted@[a] && pre[b] == sorted@[b]);
                }
            }
            lemma_map_of(pre);
            if map_of(pre).contains_key(key.kview()) {
                let j = choose|j: int| 0 <= j < pre.len() && pre[j].0.kview() == key.kview();
                assert(pre[j] == sorted@[j]);
                assert(sorted@[j].0.kview() != sorted@[i as int].0.kview());
            }
            assert(table_texts(t) =~= commit_fields(c.deep_view()));
            assert forall|id2: Seq<char>, v2: Seq<char>, f: Seq<char>|
                #[trigger] nested_text(doc, "actions"@, id2, v2, f) == commit_text(
                    map_of(sorted@.take(i + 1)),
                    id2,
                    v2,
                    f,
                ) by {
                if id2 == key.id@ && v2 == key.version@ {
                } else {
                    assert(nested_text(doc, "actions"@, id2, v2, f) == nested_text(mid, "actions"@, id2, v2, f));
                    if id2 == key.id@ && !nested_has(start, "actions"@, id2) {
                        assert(nested_text(start, "actions"@, id2, v2, f) is None);
                    } else {
                        assert(nested_text(mid, "actions"@, id2, v2, f) == nested_text(start, "actions"@, id2, v2, f));
                    }
                }
            }
        }
        i = i + 1;
    }
    assert(sorted@.take(sorted@.len() as int) =~= sorted@);
    proof {
        lemma_nested_order(
            sorted@,
            sub_key_order(doc, "actions"@),
            (|x: Seq<char>| leaf_key_order(doc, "actions"@, x)),
        );
    }
    doc
}

/// The text of `lock` in the two-tier layout.
pub fn write(lock: &TieredLock) -> (r: String)
    requires
        lock.wf(),
    ensures
        exists|doc: DocumentMut|
            r@ == toml_text(doc) && (forall|id: Seq<char>, spec: Seq<char>, f: Seq<char>|
                #[trigger] nested_text(doc, "resolutions"@, id, spec, f) == resolution_text(lock.resolution_map(), id, spec, f))
                && (forall|id: Seq<char>, version: Seq<char>, f: Seq<char>|
                #[trigger] nested_text(doc, "actions"@, id, version, f) == commit_text(lock.action_map(), id, version, f))
                && root_key_order(doc) == seq!["resolutions"@, "actions"@] && nested_order(
                sub_key_order(doc, "resolutions"@),
                (|x: Seq<char>| leaf_key_order(doc, "resolutions"@, x)),
                lock.resolution_map(),
            ) && nested_order(
                sub_key_order(doc, "actions"@),
                (|x: Seq<char>| leaf_key_order(doc, "actions"@, x)),
                lock.action_map(),
            ),
{
    let doc = build_lock_document(lock);
    document_text(&doc)
}

} // verus!
