//! Listing and searching notes: the orders the commands print in, and the
//! content match the search applies. The shell reads blob files and prints;
//! the library decides order and membership.

use vstd::prelude::*;

use crate::store::{NoteMeta, NotesApp};
use crate::text::{
    lemma_lex_le_total, lemma_lex_le_trans, lex_le, lower_of, seq_contains, str_contains,
    str_lex_le, to_lowercase,
};

verus! {

/// `v` occurs among the positions in `r`.
pub open spec fn contains_val(r: Seq<usize>, v: int) -> bool {
    exists|k: int| 0 <= k < r.len() && (#[trigger] r[k]) == v
}

/// `v` occurs among the first `k` entries of `s`.
pub open spec fn appears_upto(s: Seq<usize>, k: int, v: int) -> bool {
    exists|m: int| 0 <= m < k && (#[trigger] s[m]) == v
}

/// A permutation of `0..len`, sorted ascending by the given keys.
pub open spec fn sorted_permutation_of(r: Seq<usize>, keys: Seq<Seq<char>>) -> bool {
    &&& r.len() == keys.len()
    &&& forall|k: int| 0 <= k < r.len() ==> (#[trigger] r[k]) < keys.len()
    &&& forall|p: int, q: int| 0 <= p < q < r.len() ==> r[p] != r[q]
    &&& forall|v: int| 0 <= v < keys.len() ==> #[trigger] contains_val(r, v)
    &&& forall|p: int, q: int|
        0 <= p < q < r.len() ==> lex_le(
            keys[(#[trigger] r[p]) as int],
            keys[(#[trigger] r[q]) as int],
        )
}

/// Sorts the positions `0..keys.len()` by their key strings, ascending,
/// by insertion; equal keys keep their original relative order.
#[verifier::loop_isolation(false)]
fn sort_indices(keys: &Vec<String>) -> (r: Vec<usize>)
    ensures
        sorted_permutation_of(r@, keys@.map_values(|s: String| s@)),
{
    let ghost ks = keys@.map_values(|s: String| s@);
    let n = keys.len();
    let mut r: Vec<usize> = Vec::new();
    let mut i: usize = 0;
    while i < n
        invariant
            0 <= i <= n,
            r@.len() == i,
            forall|k: int| 0 <= k < r@.len() ==> (#[trigger] r@[k]) < i,
            forall|p: int, q: int| 0 <= p < q < r@.len() ==> r@[p] != r@[q],
            forall|v: int| 0 <= v < i ==> #[trigger] contains_val(r@, v),
            forall|p: int, q: int|
                0 <= p < q < r@.len() ==> lex_le(
                    ks[(#[trigger] r@[p]) as int],
                    ks[(#[trigger] r@[q]) as int],
                ),
        decreases n - i,
    {
        let mut j: usize = r.len();
        while j > 0 && !str_lex_le(keys[r[j - 1]].as_str(), keys[i].as_str())
            invariant
                0 <= j <= r@.len(),
                forall|q: int|
                    j <= q < r@.len() ==> !lex_le(ks[(#[trigger] r@[q]) as int], ks[i as int]),
            decreases j,
        {
            j = j - 1;
        }
        let ghost pre = r@;
        r.insert(j, i);
        proof {
            assert(r@.len() == pre.len() + 1);
            assert(forall|t: int| 0 <= t < j ==> r@[t] == pre[t]);
            assert(r@[j as int] == i);
            assert(forall|t: int| j < t < r@.len() ==> r@[t] == pre[t - 1]);
            assert forall|p: int, q: int| 0 <= p < q < r@.len() implies lex_le(
                ks[(#[trigger] r@[p]) as int],
                ks[(#[trigger] r@[q]) as int],
            ) by {
                let jp = j as int;
                if p < jp && q < jp {
                    assert(r@[p] == pre[p] && r@[q] == pre[q]);
                } else if p < jp && q == jp {
                    assert(r@[p] == pre[p]);
                    assert(lex_le(ks[pre[jp - 1] as int], ks[i as int]));
                    if p < jp - 1 {
                        lemma_lex_le_trans(ks[pre[p] as int], ks[pre[jp - 1] as int], ks[i as int]);
                    }
                } else if p < jp && q > jp {
                    assert(r@[p] == pre[p] && r@[q] == pre[q - 1]);
                    assert(lex_le(ks[pre[jp - 1] as int], ks[i as int]));
                    if p < jp - 1 {
                        lemma_lex_le_trans(ks[pre[p] as int], ks[pre[jp - 1] as int], ks[i as int]);
                    }
                    lemma_lex_le_total(ks[pre[q - 1] as int], ks[i as int]);
                    lemma_lex_le_trans(ks[pre[p] as int], ks[i as int], ks[pre[q - 1] as int]);
                } else if p == jp {
                    assert(r@[q] == pre[q - 1]);
                    lemma_lex_le_total(ks[pre[q - 1] as int], ks[i as int]);
                    if q - 1 > jp {
                        lemma_lex_le_total(ks[pre[jp] as int], ks[i as int]);
                        lemma_lex_le_trans(ks[i as int], ks[pre[jp] as int], ks[pre[q - 1] as int]);
                    }
                } else {
                    assert(r@[p] == pre[p - 1] && r@[q] == pre[q - 1]);
                }
            }
            assert forall|v: int| 0 <= v < i + 1 implies #[trigger] contains_val(r@, v) by {
                if v == i {
                    assert(r@[j as int] == i);
                } else {
                    assert(contains_val(pre, v));
                    let k0 = choose|k: int| 0 <= k < pre.len() && (#[trigger] pre[k]) == v;
                    if k0 < j {
                        assert(r@[k0] == v);
                    } else {
                        assert(r@[k0 + 1] == v);
                    }
                }
            }
        }
        i = i + 1;
    }
    r
}

/// Whether a note's content matches a query, the way search decides it:
/// both lower-cased, then substring containment.
pub open spec fn search_match(content: Seq<char>, query: Seq<char>) -> bool {
    seq_contains(lower_of(content), lower_of(query))
}

impl NotesApp {
    /// The positions of all notes, ordered by lower-cased title — the
    /// order listings print in.
    pub fn sorted_order(&self) -> (r: Vec<usize>)
        ensures
            sorted_permutation_of(r@, self.notes().map_values(|n: NoteMeta| lower_of(n.title@))),
    {
        let n = self.index.notes.len();
        let mut keys: Vec<String> = Vec::new();
        let mut i: usize = 0;
        while i < n
            invariant
                0 <= i <= n,
                n == self.notes().len(),
                keys@.len() == i,
                forall|k: int|
                    0 <= k < i ==> (#[trigger] keys@[k])@ == lower_of(self.notes()[k].title@),
            decreases n - i,
        {
            let t = to_lowercase(self.index.notes[i].title.as_str());
            keys.push(t);
            i = i + 1;
        }
        let r = sort_indices(&keys);
        proof {
            assert(keys@.map_values(|s: String| s@) =~= self.notes().map_values(
                |m: NoteMeta| lower_of(m.title@),
            ));
        }
        r
    }

    /// The positions of all notes, ordered by slug — the order the id
    /// listing prints in.
    pub fn sorted_by_slug(&self) -> (r: Vec<usize>)
        ensures
            sorted_permutation_of(r@, self.notes().map_values(|n: NoteMeta| n.slug@)),
    {
        let n = self.index.notes.len();
        let mut keys: Vec<String> = Vec::new();
        let mut i: usize = 0;
        while i < n
            invariant
                0 <= i <= n,
                n == self.notes().len(),
                keys@.len() == i,
                forall|k: int| 0 <= k < i ==> (#[trigger] keys@[k])@ == self.notes()[k].slug@,
            decreases n - i,
        {
            let t = self.index.notes[i].slug.clone();
            keys.push(t);
            i = i + 1;
        }
        let r = sort_indices(&keys);
        proof {
            assert(keys@.map_values(|s: String| s@) =~= self.notes().map_values(
                |m: NoteMeta| m.slug@,
            ));
        }
        r
    }

    /// Searches the notes' current contents for a query, without regard to
    /// case, and reports the matching positions in title order. `contents`
    /// holds, per note in index order, the text of its current version as
    /// the shell read it.
    #[verifier::loop_isolation(false)]
    pub fn search(&self, query: &str, contents: &Vec<String>) -> (r: Vec<usize>)
        requires
            contents@.len() == self.notes().len(),
        ensures
            forall|k: int| 0 <= k < r@.len() ==> (#[trigger] r@[k]) < self.notes().len(),
            forall|p: int, q: int| 0 <= p < q < r@.len() ==> r@[p] != r@[q],
            forall|v: int|
                0 <= v < self.notes().len() ==> (#[trigger] contains_val(r@, v) <==> search_match(
                    contents@[v]@,
                    query@,
                )),
            forall|p: int, q: int|
                0 <= p < q < r@.len() ==> lex_le(
                    lower_of(self.notes()[(#[trigger] r@[p]) as int].title@),
                    lower_of(self.notes()[(#[trigger] r@[q]) as int].title@),
                ),
    {
        let ghost keys = self.notes().map_values(|n: NoteMeta| lower_of(n.title@));
        let order = self.sorted_order();
        let lq = to_lowercase(query);
        let n = order.len();
        let mut r: Vec<usize> = Vec::new();
        let ghost mut pos: Seq<int> = Seq::empty();
        let mut k: usize = 0;
        while k < n
            invariant
                0 <= k <= n,
                n == order@.len(),
                sorted_permutation_of(order@, keys),
                keys.len() == self.notes().len(),
                contents@.len() == self.notes().len(),
                lq@ == lower_of(query@),
                pos.len() == r@.len(),
                forall|p: int| 0 <= p < pos.len() ==> 0 <= #[trigger] pos[p] < k,
                forall|p: int, q: int| 0 <= p < q < pos.len() ==> pos[p] < pos[q],
                forall|p: int| 0 <= p < r@.len() ==> r@[p] == order@[#[trigger] pos[p]],
                forall|v: int|
                    0 <= v < self.notes().len() ==> (#[trigger] contains_val(r@, v) <==> (
                    appears_upto(order@, k as int, v) && search_match(contents@[v]@, query@))),
            decreases n - k,
        {
            let idx = order[k];
            let lc = to_lowercase(contents[idx].as_str());
            let ghost pre_r = r@;
            let matched = str_contains(lc.as_str(), lq.as_str());
            if matched {
                r.push(idx);
                proof {
                    pos = pos.push(k as int);
                }
            }
            proof {
                assert(matched == search_match(contents@[idx as int]@, query@));
                assert forall|v: int|
                    0 <= v < self.notes().len() implies (#[trigger] contains_val(r@, v) <==> (
                appears_upto(order@, k + 1, v) && search_match(contents@[v]@, query@))) by {
                    if contains_val(r@, v) {
                        let p = choose|p: int| 0 <= p < r@.len() && (#[trigger] r@[p]) == v;
                        if matched && p == r@.len() - 1 {
                            assert(v == idx as int);
                            assert(order@[k as int] == v);
                            assert(appears_upto(order@, k + 1, v));
                        } else {
                            assert(pre_r[p] == v);
                            assert(contains_val(pre_r, v));
                            let m = choose|m: int| 0 <= m < k && (#[trigger] order@[m]) == v;
                            assert(appears_upto(order@, k + 1, v));
                        }
                    }
                    if appears_upto(order@, k + 1, v) && search_match(contents@[v]@, query@) {
                        let m = choose|m: int| 0 <= m < k + 1 && (#[trigger] order@[m]) == v;
                        if m == k {
                            assert(v == idx as int);
                            assert(matched);
                            assert(r@[r@.len() - 1] == v);
                            assert(contains_val(r@, v));
                        } else {
                            assert(appears_upto(order@, k as int, v));
                            assert(contains_val(pre_r, v));
                            let p = choose|p: int|
                                0 <= p < pre_r.len() && (#[trigger] pre_r[p]) == v;
                            assert(r@[p] == v);
                            assert(contains_val(r@, v));
                        }
                    }
                }
            }
            k = k + 1;
        }
        proof {
            assert forall|p: int, q: int| 0 <= p < q < r@.len() implies lex_le(
                lower_of(self.notes()[(#[trigger] r@[p]) as int].title@),
                lower_of(self.notes()[(#[trigger] r@[q]) as int].title@),
            ) by {
                assert(r@[p] == order@[pos[p]]);
                assert(r@[q] == order@[pos[q]]);
                assert(lex_le(keys[order@[pos[p]] as int], keys[order@[pos[q]] as int]));
                assert(keys[r@[p] as int] == lower_of(self.notes()[r@[p] as int].title@));
                assert(keys[r@[q] as int] == lower_of(self.notes()[r@[q] as int].title@));
            }
            assert forall|p: int, q: int| 0 <= p < q < r@.len() implies r@[p] != r@[q] by {
                assert(r@[p] == order@[pos[p]]);
                assert(r@[q] == order@[pos[q]]);
            }
            assert forall|k2: int| 0 <= k2 < r@.len() implies (#[trigger] r@[k2])
                < self.notes().len() by {
                assert(r@[k2] == order@[pos[k2]]);
            }
            assert forall|v: int| 0 <= v < self.notes().len() implies (#[trigger] contains_val(
                r@,
                v,
            ) <==> search_match(contents@[v]@, query@)) by {
                assert(contains_val(order@, v));
                let m = choose|m: int| 0 <= m < order@.len() && (#[trigger] order@[m]) == v;
                assert(appears_upto(order@, n as int, v));
            }
        }
        r
    }
}

} // verus!
