//! Orderings on text, and a stable sort by textual key.
//!
//! Two orders are used: plain string order (by code point, which agrees with
//! byte-wise UTF-8 order) and path order, which compares path components, i.e.
//! string order in which the separator `/` sorts before every other character.

use vstd::prelude::*;

verus! {

broadcast use vstd::seq_lib::group_to_multiset_ensures;

/// The rank of a character under the chosen order.
pub open spec fn rank(c: char, path: bool) -> int {
    if path && c == '/' {
        0
    } else {
        (c as u32) as int + 1
    }
}

/// `a` sorts strictly before `b`: lexicographic by rank, a proper prefix first.
pub open spec fn text_lt(a: Seq<char>, b: Seq<char>, path: bool) -> bool
    decreases a.len(),
{
    if a.len() == 0 {
        b.len() > 0
    } else if b.len() == 0 {
        false
    } else if a[0] != b[0] {
        rank(a[0], path) < rank(b[0], path)
    } else {
        text_lt(a.drop_first(), b.drop_first(), path)
    }
}

/// `a` sorts no later than `b`.
pub open spec fn text_le(a: Seq<char>, b: Seq<char>, path: bool) -> bool {
    !text_lt(b, a, path)
}

pub proof fn lemma_rank_injective(c: char, d: char, path: bool)
    requires
        c != d,
    ensures
        rank(c, path) != rank(d, path),
{
    if path && c == '/' {
        assert((d as u32) as int + 1 > 0);
    } else if path && d == '/' {
        assert((c as u32) as int + 1 > 0);
    } else {
        assert(c as u32 != d as u32);
    }
}

/// No text sorts before itself.
pub proof fn lemma_text_lt_irreflexive(a: Seq<char>, path: bool)
    ensures
        !text_lt(a, a, path),
    decreases a.len(),
{
    if a.len() > 0 {
        lemma_text_lt_irreflexive(a.drop_first(), path);
    }
}

/// The order is irreflexive and total on distinct texts.
pub proof fn lemma_text_lt_total(a: Seq<char>, b: Seq<char>, path: bool)
    ensures
        !text_lt(a, a, path),
        a != b ==> (text_lt(a, b, path) || text_lt(b, a, path)),
        !(text_lt(a, b, path) && text_lt(b, a, path)),
    decreases a.len(),
{
    if a.len() > 0 && b.len() > 0 {
        if a[0] != b[0] {
            lemma_rank_injective(a[0], b[0], path);
        } else {
            lemma_text_lt_total(a.drop_first(), b.drop_first(), path);
            if a != b {
                assert(a.drop_first() != b.drop_first()) by {
                    if a.drop_first() == b.drop_first() {
                        assert(a =~= seq![a[0]] + a.drop_first());
                        assert(b =~= seq![b[0]] + b.drop_first());
                    }
                }
            }
        }
    }
    lemma_text_lt_irreflexive(a, path);
    if a.len() > 0 && b.len() > 0 {
    } else if a.len() == 0 && b.len() == 0 {
        assert(a =~= b);
    }
}

/// The order is transitive.
pub proof fn lemma_text_lt_transitive(a: Seq<char>, b: Seq<char>, c: Seq<char>, path: bool)
    requires
        text_lt(a, b, path),
        text_lt(b, c, path),
    ensures
        text_lt(a, c, path),
    decreases a.len(),
{
    if a.len() > 0 && b.len() > 0 && c.len() > 0 {
        if a[0] == b[0] && b[0] == c[0] {
            lemma_text_lt_transitive(a.drop_first(), b.drop_first(), c.drop_first(), path);
        } else if a[0] != c[0] {
            if a[0] == b[0] {
            } else if b[0] == c[0] {
            } else {
            }
        } else {
            lemma_rank_injective(a[0], b[0], path);
        }
    }
}

/// Compare two texts under the chosen order.
pub fn chars_lt(a: &Vec<char>, b: &Vec<char>, path: bool) -> (r: bool)
    ensures
        r == text_lt(a@, b@, path),
{
    let mut i: usize = 0;
    assert(a@.skip(0) == a@ && b@.skip(0) == b@);
    while i < a.len() && i < b.len() && a[i] == b[i]
        invariant
            i <= a.len(),
            i <= b.len(),
            text_lt(a@, b@, path) == text_lt(a@.skip(i as int), b@.skip(i as int), path),
        decreases a.len() - i,
    {
        assert(a@.skip(i as int).drop_first() == a@.skip(i + 1));
        assert(b@.skip(i as int).drop_first() == b@.skip(i + 1));
        i = i + 1;
    }
    if i == a.len() {
        assert(a@.skip(i as int).len() == 0);
        i < b.len()
    } else if i == b.len() {
        assert(b@.skip(i as int).len() == 0);
        false
    } else {
        assert(a@.skip(i as int)[0] == a@[i as int]);
        assert(b@.skip(i as int)[0] == b@[i as int]);
        let ca = a[i];
        let cb = b[i];
        let ra: u64 = if path && ca == '/' { 0 } else { (ca as u32) as u64 + 1 };
        let rb: u64 = if path && cb == '/' { 0 } else { (cb as u32) as u64 + 1 };
        assert(ra == rank(ca, path));
        assert(rb == rank(cb, path));
        ra < rb
    }
}

/// Something sorted by a textual key.
pub trait Keyed {
    /// The key it sorts by.
    spec fn sort_key(&self) -> Seq<char>;

    /// The key it sorts by, computed.
    fn key_chars(&self) -> (r: Vec<char>)
        ensures
            r@ == self.sort_key();
}

/// Every element's key sorts no later than any later element's key.
pub open spec fn sorted_by_key<T: Keyed>(s: Seq<T>, path: bool) -> bool {
    forall|i: int, j: int|
        0 <= i < j < s.len() ==> text_le(#[trigger] s[i].sort_key(), #[trigger] s[j].sort_key(), path)
}

/// Sort `v` by key, stably, under the chosen order.
pub fn sort_by_key<T: Keyed>(v: Vec<T>, path: bool) -> (r: Vec<T>)
    ensures
        r@.to_multiset() == v@.to_multiset(),
        r.len() == v.len(),
        sorted_by_key(r@, path),
{
    let ghost orig = v@;
    let mut rest = v;
    let mut out: Vec<T> = Vec::new();
    while rest.len() > 0
        invariant
            out@.to_multiset().add(rest@.to_multiset()) == orig.to_multiset(),
            out.len() + rest.len() == orig.len(),
            sorted_by_key(out@, path),
        decreases rest.len(),
    {
        let ghost before_rest = rest@;
        let x = rest.remove(0);
        assert(before_rest.to_multiset() == rest@.to_multiset().insert(x)) by {
            assert(before_rest == rest@.insert(0, x));
        }
        let xk = x.key_chars();
        // Insert after every element whose key is no later than x's.
        let mut p: usize = 0;
        let mut found = false;
        while p < out.len() && !found
            invariant
                p <= out.len(),
                xk@ == x.sort_key(),
                forall|j: int| 0 <= j < p ==> text_le(#[trigger] out@[j].sort_key(), x.sort_key(), path),
                found ==> p < out.len() && text_lt(x.sort_key(), out@[p as int].sort_key(), path),
            decreases out.len() - p + (if found { 0int } else { 1int }),
        {
            let ok = out[p].key_chars();
            if chars_lt(&xk, &ok, path) {
                found = true;
            } else {
                p = p + 1;
            }
        }
        proof {
            if found {
                // x sorts strictly before out[p], hence before every later element.
                assert forall|j: int| p <= j < out.len() implies text_lt(x.sort_key(), #[trigger] out@[j].sort_key(), path) by {
                    if j > p {
                        assert(text_le(out@[p as int].sort_key(), out@[j].sort_key(), path));
                        lemma_text_lt_total(out@[p as int].sort_key(), out@[j].sort_key(), path);
                        if out@[p as int].sort_key() != out@[j].sort_key() {
                            lemma_text_lt_transitive(x.sort_key(), out@[p as int].sort_key(), out@[j].sort_key(), path);
                        }
                    }
                }
            }
        }
        let ghost before_out = out@;
        out.insert(p, x);
        proof {
            assert(out@ == before_out.insert(p as int, x));
            assert forall|i: int, j: int| 0 <= i < j < out@.len() implies text_le(
                #[trigger] out@[i].sort_key(),
                #[trigger] out@[j].sort_key(),
                path,
            ) by {
                if j < p {
                    assert(out@[i] == before_out[i] && out@[j] == before_out[j]);
                } else if j == p {
                    assert(out@[i] == before_out[i]);
                } else if i < p {
                    assert(out@[i] == before_out[i] && out@[j] == before_out[j - 1]);
                    assert(text_le(before_out[i].sort_key(), x.sort_key(), path));
                    assert(text_lt(x.sort_key(), before_out[j - 1].sort_key(), path));
                    lemma_text_lt_total(before_out[i].sort_key(), x.sort_key(), path);
                    if before_out[i].sort_key() != x.sort_key() {
                        lemma_text_lt_transitive(before_out[i].sort_key(), x.sort_key(), before_out[j - 1].sort_key(), path);
                    }
                    lemma_text_lt_total(before_out[i].sort_key(), before_out[j - 1].sort_key(), path);
                } else if i == p {
                    assert(out@[j] == before_out[j - 1]);
                    lemma_text_lt_total(x.sort_key(), before_out[j - 1].sort_key(), path);
                } else {
                    assert(out@[i] == before_out[i - 1] && out@[j] == before_out[j - 1]);
                }
            }
        }
    }
    out
}

} // verus!
