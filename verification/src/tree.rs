//! Structured configuration trees and the recursive merge engine.
//!
//! A [`Tree`] keeps the table/object structure of a structured document as
//! the library's own data: a branch is an ordered vector of key/value
//! entries, and every non-branch node (scalar, string, array, ...) is
//! carried through as an opaque leaf of type `L`.  The merge engine only
//! ever inspects branch structure — a non-branch value always replaces the
//! previous value wholesale — so this is exactly the part of a document the
//! engine needs to see.
use vstd::prelude::*;

verus! {

/// A structured document with its table/object structure exposed.
#[derive(Debug)]
pub enum Tree<L> {
    /// A table or object: ordered key/value entries.
    Obj(Vec<(String, Tree<L>)>),
    /// Any non-table node, carried through opaquely.
    Leaf(L),
}

/// The mathematical shape of a [`Tree`].
pub enum TreeModel<L> {
    Obj(Seq<(Seq<char>, TreeModel<L>)>),
    Leaf(L),
}

/// The model of a vector of entries: each key becomes its view and each
/// child becomes its model, in order.
pub open spec fn entries_model<L>(s: Seq<(String, Tree<L>)>) -> Seq<(Seq<char>, TreeModel<L>)>
    decreases s,
{
    Seq::new(
        s.len(),
        |i: int|
            if 0 <= i < s.len() {
                (s[i].0@, s[i].1.model())
            } else {
                arbitrary()
            },
    )
}

impl<L> Tree<L> {
    /// The model of this tree.
    pub open spec fn model(self) -> TreeModel<L>
        decreases self,
    {
        match self {
            Tree::Leaf(l) => TreeModel::Leaf(l),
            Tree::Obj(entries) => TreeModel::Obj(entries_model(entries@)),
        }
    }
}

impl<L> View for Tree<L> {
    type V = TreeModel<L>;

    open spec fn view(&self) -> TreeModel<L> {
        self.model()
    }
}

/// Each key names at most one entry of `s`.
pub open spec fn keys_unique<L>(s: Seq<(Seq<char>, TreeModel<L>)>) -> bool {
    forall|i: int, j: int| 0 <= i < j < s.len() ==> s[i].0 != s[j].0
}

impl<L> TreeModel<L> {
    /// The data-model invariant: at every branch the entries form an ordered
    /// set of key/value pairs, so each key occurs at most once.
    pub open spec fn wf(self) -> bool
        decreases self,
    {
        match self {
            TreeModel::Leaf(_) => true,
            TreeModel::Obj(es) => keys_unique(es) && forall|i: int|
                0 <= i < es.len() ==> (#[trigger] es[i].1).wf(),
        }
    }
}

/// Whether some entry of `s` carries the key `k`.
pub open spec fn has_key<L>(s: Seq<(Seq<char>, TreeModel<L>)>, k: Seq<char>) -> bool {
    exists|i: int| 0 <= i < s.len() && s[i].0 == k
}

/// The index of the first entry of `s` whose key is `k` (meaningful only
/// when `has_key(s, k)` holds).
pub open spec fn key_index<L>(s: Seq<(Seq<char>, TreeModel<L>)>, k: Seq<char>) -> int
    decreases s.len(),
{
    if s.len() == 0 {
        0
    } else if s[0].0 == k {
        0
    } else {
        1 + key_index(s.subrange(1, s.len() as int), k)
    }
}

/// When `k` occurs in `s`, `key_index` points at its first occurrence.
pub proof fn lemma_key_index<L>(s: Seq<(Seq<char>, TreeModel<L>)>, k: Seq<char>)
    requires
        has_key(s, k),
    ensures
        0 <= key_index(s, k) < s.len(),
        s[key_index(s, k)].0 == k,
        forall|j: int| 0 <= j < key_index(s, k) ==> s[j].0 != k,
    decreases s.len(),
{
    if s.len() == 0 {
    } else if s[0].0 == k {
    } else {
        let rest = s.subrange(1, s.len() as int);
        let i = choose|i: int| 0 <= i < s.len() && s[i].0 == k;
        assert(rest[i - 1].0 == k);
        lemma_key_index(rest, k);
        assert forall|j: int| 0 <= j < key_index(s, k) implies s[j].0 != k by {
            if j > 0 {
                assert(rest[j - 1].0 != k);
            }
        }
    }
}

/// An entry with key `k` preceded only by other keys pins `key_index` down.
pub proof fn lemma_key_index_first<L>(s: Seq<(Seq<char>, TreeModel<L>)>, k: Seq<char>, i: int)
    requires
        0 <= i < s.len(),
        s[i].0 == k,
        forall|j: int| 0 <= j < i ==> s[j].0 != k,
    ensures
        key_index(s, k) == i,
    decreases s.len(),
{
    if i == 0 {
    } else {
        let rest = s.subrange(1, s.len() as int);
        assert(rest[i - 1].0 == k);
        assert forall|j: int| 0 <= j < i - 1 implies rest[j].0 != k by {
            assert(s[j + 1].0 != k);
        }
        lemma_key_index_first(rest, k, i - 1);
    }
}

/// The recursive merge of two tree models.  When both sides are branches,
/// the entries of the right side are folded into the left side in order:
/// a key already present has its value merged recursively (in place), a new
/// key is appended.  In every other case the right side replaces the left
/// side wholesale.
pub open spec fn merge_model<L>(a: TreeModel<L>, b: TreeModel<L>) -> TreeModel<L>
    decreases b, 0int,
{
    match (a, b) {
        (TreeModel::Obj(x), TreeModel::Obj(y)) => TreeModel::Obj(merge_entries(x, y)),
        (_, bb) => bb,
    }
}

/// Finds the first entry of `entries` whose key equals `k`.
fn find_key<L>(entries: &Vec<(String, Tree<L>)>, k: &String) -> (r: Option<usize>)
    ensures
        match r {
            Some(i) => has_key(entries_model(entries@), k@) && i == key_index(
                entries_model(entries@),
                k@,
            ),
            None => !has_key(entries_model(entries@), k@),
        },
{
    let mut i: usize = 0;
    while i < entries.len()
        invariant
            0 <= i <= entries@.len(),
            forall|j: int| 0 <= j < i ==> entries_model(entries@)[j].0 != k@,
        decreases entries@.len() - i,
    {
        if entries[i].0 == *k {
            proof {
                assert(entries_model(entries@)[i as int].0 == k@);
                assert(has_key(entries_model(entries@), k@));
                lemma_key_index_first(entries_model(entries@), k@, i as int);
            }
            return Some(i);
        }
        i = i + 1;
    }
    None
}

impl<L> Tree<L> {
    /// Merges `other` into `self`: when both are branches, `other`'s entries
    /// are folded in key by key (recursing where a key is shared), otherwise
    /// `other` replaces `self` wholesale.
    pub fn merge(self, other: Tree<L>) -> (r: Tree<L>)
        ensures
            r@ == merge_model(self@, other@),
        decreases other,
    {
        match (self, other) {
            (Tree::Obj(x), Tree::Obj(y)) => {
                let ghost x0 = x;
                let ghost y0 = y;
                let mut acc = x;
                let mut rest = y;
                let mut taken: usize = 0;
                proof {
                    assert(rest@ =~= y0@.subrange(0, y0@.len() as int));
                }
                while rest.len() > 0
                    invariant
                        taken + rest@.len() == y0@.len(),
                        rest@ == y0@.subrange(taken as int, y0@.len() as int),
                        merge_entries(entries_model(acc@), entries_model(rest@)) == merge_entries(
                            entries_model(x0@),
                            entries_model(y0@),
                        ),
                        other == Tree::<L>::Obj(y0),
                    decreases rest@.len(),
                {
                    let ghost acc_b = acc@;
                    let ghost rest_b = rest@;
                    let (k, v) = rest.remove(0);
                    proof {
                        assert(rest@ =~= y0@.subrange(taken as int + 1, y0@.len() as int));
                        assert(v == y0@[taken as int].1);
                        assert(decreases_to!(other => other->Obj_0));
                        assert(decreases_to!(y0 => y0[taken as int]));
                        assert(decreases_to!(y0[taken as int] => y0[taken as int].1));
                        assert(decreases_to!(other => v));
                        assert(entries_model(rest_b)[0] == (k@, v.model()));
                        assert(entries_model(rest@) =~= entries_model(rest_b).subrange(
                            1,
                            entries_model(rest_b).len() as int,
                        ));
                    }
                    let found = find_key(&acc, &k);
                    match found {
                        Some(i) => {
                            proof {
                                lemma_key_index(entries_model(acc_b), k@);
                            }
                            let (_k_old, v_old) = acc.remove(i);
                            let merged = v_old.merge(v);
                            acc.insert(i, (k, merged));
                            proof {
                                let am = entries_model(acc_b);
                                assert(entries_model(acc@) =~= am.update(
                                    i as int,
                                    (k@, merge_model(am[i as int].1, v.model())),
                                ));
                            }
                        },
                        None => {
                            acc.push((k, v));
                            proof {
                                assert(entries_model(acc@) =~= entries_model(acc_b).push(
                                    (k@, v.model()),
                                ));
                            }
                        },
                    }
                    taken = taken + 1;
                }
                proof {
                    assert(entries_model(rest@).len() == 0);
                }
                Tree::Obj(acc)
            },
            (_, b) => b,
        }
    }
}

/// Folds the entries `y` into the entries `x`, left to right.
pub open spec fn merge_entries<L>(
    x: Seq<(Seq<char>, TreeModel<L>)>,
    y: Seq<(Seq<char>, TreeModel<L>)>,
) -> Seq<(Seq<char>, TreeModel<L>)>
    decreases y, 1int,
{
    if y.len() == 0 {
        x
    } else {
        let k = y[0].0;
        let v = y[0].1;
        let x1 = if has_key(x, k) {
            let i = key_index(x, k);
            x.update(i, (k, merge_model(x[i].1, v)))
        } else {
            x.push((k, v))
        };
        merge_entries(x1, y.subrange(1, y.len() as int))
    }
}

/// Law: the merge of two branches holds a key exactly when one of its sides
/// does — deep merging never loses a key and never invents one.
pub proof fn lemma_merge_entries_keys<L>(
    x: Seq<(Seq<char>, TreeModel<L>)>,
    y: Seq<(Seq<char>, TreeModel<L>)>,
)
    ensures
        forall|k: Seq<char>|
            has_key(merge_entries(x, y), k) <==> has_key(x, k) || has_key(y, k),
    decreases y.len(),
{
    if y.len() == 0 {
    } else {
        let k0 = y[0].0;
        let v0 = y[0].1;
        let x1 = if has_key(x, k0) {
            let i = key_index(x, k0);
            x.update(i, (k0, merge_model(x[i].1, v0)))
        } else {
            x.push((k0, v0))
        };
        if has_key(x, k0) {
            lemma_key_index(x, k0);
        }
        assert forall|k: Seq<char>| has_key(x1, k) <==> has_key(x, k) || k == k0 by {
            if has_key(x1, k) {
                let i = choose|i: int| 0 <= i < x1.len() && x1[i].0 == k;
                if i < x.len() && x1[i].0 == x[i].0 {
                    assert(has_key(x, k));
                }
            }
            if has_key(x, k) {
                let i = choose|i: int| 0 <= i < x.len() && x[i].0 == k;
                assert(x1[i].0 == k);
            }
            if k == k0 {
                if has_key(x, k0) {
                    assert(x1[key_index(x, k0)].0 == k0);
                } else {
                    assert(x1[x1.len() - 1].0 == k0);
                }
            }
        }
        let rest = y.subrange(1, y.len() as int);
        lemma_merge_entries_keys(x1, rest);
        assert forall|k: Seq<char>| has_key(y, k) <==> k == k0 || has_key(rest, k) by {
            if has_key(y, k) {
                let i = choose|i: int| 0 <= i < y.len() && y[i].0 == k;
                if i > 0 {
                    assert(rest[i - 1].0 == k);
                }
            }
            if has_key(rest, k) {
                let i = choose|i: int| 0 <= i < rest.len() && rest[i].0 == k;
                assert(y[i + 1].0 == k);
            }
        }
    }
}

/// The value of the first entry carrying key `k` (meaningful only when
/// `has_key(s, k)` holds).
pub open spec fn lookup<L>(s: Seq<(Seq<char>, TreeModel<L>)>, k: Seq<char>) -> TreeModel<L> {
    s[key_index(s, k)].1
}

/// Law: merge-patch semantics, key by key.  Folding branch entries `y` into
/// branch entries `x` (keys unique on both sides) leaves a key only in `x`
/// at `x`'s value, brings a key only in `y` in at `y`'s value, and at a
/// shared key merges `y`'s value over `x`'s — recursing where both values
/// are branches, replacing wholesale otherwise.
pub proof fn lemma_merge_entries_lookup<L>(
    x: Seq<(Seq<char>, TreeModel<L>)>,
    y: Seq<(Seq<char>, TreeModel<L>)>,
)
    requires
        keys_unique(x),
        keys_unique(y),
    ensures
        forall|k: Seq<char>|
            has_key(x, k) && !has_key(y, k) ==> lookup(merge_entries(x, y), k) == lookup(x, k),
        forall|k: Seq<char>|
            !has_key(x, k) && has_key(y, k) ==> lookup(merge_entries(x, y), k) == lookup(y, k),
        forall|k: Seq<char>|
            has_key(x, k) && has_key(y, k) ==> lookup(merge_entries(x, y), k) == merge_model(
                lookup(x, k),
                lookup(y, k),
            ),
    decreases y.len(),
{
    if y.len() == 0 {
        return ;
    }
    let k0 = y[0].0;
    let v0 = y[0].1;
    let x1 = if has_key(x, k0) {
        let i = key_index(x, k0);
        x.update(i, (k0, merge_model(x[i].1, v0)))
    } else {
        x.push((k0, v0))
    };
    let rest = y.subrange(1, y.len() as int);
    let me = merge_entries(x, y);
    assert(me == merge_entries(x1, rest));

    assert(has_key(y, k0));
    assert forall|k: Seq<char>| has_key(rest, k) implies has_key(y, k) && k != k0 by {
        let i = choose|i: int| 0 <= i < rest.len() && rest[i].0 == k;
        assert(y[i + 1].0 == k);
        assert(k != k0);
    }
    assert forall|k: Seq<char>| has_key(y, k) && k != k0 implies has_key(rest, k) by {
        let i = choose|i: int| 0 <= i < y.len() && y[i].0 == k;
        assert(rest[i - 1].0 == k);
    }
    assert(keys_unique(rest)) by {
        assert forall|p: int, q: int| 0 <= p < q < rest.len() implies rest[p].0 != rest[q].0 by {
            assert(rest[p].0 == y[p + 1].0);
            assert(rest[q].0 == y[q + 1].0);
        }
    }
    if has_key(x, k0) {
        lemma_key_index(x, k0);
        assert(keys_unique(x1)) by {
            assert forall|p: int, q: int| 0 <= p < q < x1.len() implies x1[p].0 != x1[q].0 by {
                assert(x1[p].0 == x[p].0);
                assert(x1[q].0 == x[q].0);
            }
        }
    } else {
        assert(keys_unique(x1)) by {
            assert forall|p: int, q: int| 0 <= p < q < x1.len() implies x1[p].0 != x1[q].0 by {
                if q == x1.len() - 1 {
                    assert(!(x[p].0 == k0));
                }
            }
        }
    }
    lemma_merge_entries_lookup(x1, rest);

    // The key carried by `y`'s first entry.
    assert(lookup(y, k0) == v0);
    assert(!has_key(rest, k0));
    if has_key(x, k0) {
        let i = key_index(x, k0);
        assert(x1[i].0 == k0);
        assert forall|j: int| 0 <= j < i implies x1[j].0 != k0 by {
            assert(x1[j].0 == x[j].0);
        }
        lemma_key_index_first(x1, k0, i);
        assert(has_key(x1, k0));
        assert(lookup(x1, k0) == merge_model(lookup(x, k0), lookup(y, k0)));
        assert(lookup(me, k0) == merge_model(lookup(x, k0), lookup(y, k0)));
    } else {
        assert(x1[x.len() as int].0 == k0);
        assert forall|j: int| 0 <= j < x.len() implies x1[j].0 != k0 by {
            assert(x1[j].0 == x[j].0);
            assert(!(x[j].0 == k0));
        }
        lemma_key_index_first(x1, k0, x.len() as int);
        assert(has_key(x1, k0));
        assert(lookup(x1, k0) == v0);
        assert(lookup(me, k0) == lookup(y, k0));
    }

    // Every other key passes through `x1` unchanged.
    assert forall|k: Seq<char>| has_key(x, k) && k != k0 implies has_key(x1, k) && lookup(x1, k)
        == lookup(x, k) by {
        lemma_key_index(x, k);
        let ik = key_index(x, k);
        assert(x1[ik].0 == k);
        assert forall|j: int| 0 <= j < ik implies x1[j].0 != k by {
            assert(x1[j].0 == x[j].0);
        }
        lemma_key_index_first(x1, k, ik);
        if has_key(x, k0) {
            assert(x[key_index(x, k0)].0 == k0);
            assert(ik != key_index(x, k0));
            assert(x1[ik].1 == x[ik].1);
        }
    }
    assert forall|k: Seq<char>| !has_key(x, k) && k != k0 implies !has_key(x1, k) by {
        if has_key(x1, k) {
            let i = choose|i: int| 0 <= i < x1.len() && x1[i].0 == k;
            if i < x.len() {
                assert(x[i].0 == x1[i].0);
            } else {
                assert(x1[i].0 == k0);
            }
        }
    }
    // A key of `y` past its first entry reads the same in `rest`.
    assert forall|k: Seq<char>| has_key(y, k) && k != k0 implies lookup(rest, k) == lookup(
        y,
        k,
    ) by {
        assert(has_key(rest, k));
        lemma_key_index(rest, k);
        assert(key_index(y, k) == 1 + key_index(rest, k));
        assert(y[1 + key_index(rest, k)] == rest[key_index(rest, k)]);
    }

    assert forall|k: Seq<char>|
        has_key(x, k) && !has_key(y, k) implies lookup(me, k) == lookup(x, k) by {
        assert(k != k0);
        assert(has_key(x1, k) && lookup(x1, k) == lookup(x, k));
        assert(!has_key(rest, k));
        assert(lookup(me, k) == lookup(x1, k));
    }
    assert forall|k: Seq<char>|
        !has_key(x, k) && has_key(y, k) implies lookup(me, k) == lookup(y, k) by {
        if k != k0 {
            assert(!has_key(x1, k));
            assert(has_key(rest, k));
            assert(lookup(me, k) == lookup(rest, k));
        }
    }
    assert forall|k: Seq<char>|
        has_key(x, k) && has_key(y, k) implies lookup(me, k) == merge_model(
        lookup(x, k),
        lookup(y, k),
    ) by {
        if k != k0 {
            assert(has_key(x1, k) && lookup(x1, k) == lookup(x, k));
            assert(has_key(rest, k));
            assert(lookup(me, k) == merge_model(lookup(x1, k), lookup(rest, k)));
            assert(lookup(rest, k) == lookup(y, k));
        }
    }
}

/// Law: merging preserves the data-model invariant — the merge of two
/// well-formed trees is well-formed.
pub proof fn lemma_merge_wf<L>(a: TreeModel<L>, b: TreeModel<L>)
    requires
        a.wf(),
        b.wf(),
    ensures
        merge_model(a, b).wf(),
    decreases b, 0int,
{
    if a is Obj && b is Obj {
        let x = a->Obj_0;
        let y = b->Obj_0;
        assert forall|i: int| 0 <= i < y.len() implies (#[trigger] y[i].1).wf() by {}
        lemma_merge_entries_wf(x, y);
    }
}

/// Folding well-formed entries into well-formed, key-unique entries keeps
/// the keys unique and every value well-formed.
proof fn lemma_merge_entries_wf<L>(
    x: Seq<(Seq<char>, TreeModel<L>)>,
    y: Seq<(Seq<char>, TreeModel<L>)>,
)
    requires
        keys_unique(x),
        forall|i: int| 0 <= i < x.len() ==> (#[trigger] x[i].1).wf(),
        forall|i: int| 0 <= i < y.len() ==> (#[trigger] y[i].1).wf(),
    ensures
        keys_unique(merge_entries(x, y)),
        forall|i: int|
            0 <= i < merge_entries(x, y).len() ==> (#[trigger] merge_entries(x, y)[i].1).wf(),
    decreases y, 1int,
{
    if y.len() == 0 {
    } else {
        let k = y[0].0;
        let v = y[0].1;
        let x1 = if has_key(x, k) {
            let i = key_index(x, k);
            x.update(i, (k, merge_model(x[i].1, v)))
        } else {
            x.push((k, v))
        };
        if has_key(x, k) {
            let i = key_index(x, k);
            lemma_key_index(x, k);
            lemma_merge_wf(x[i].1, v);
            assert(keys_unique(x1)) by {
                assert forall|p: int, q: int| 0 <= p < q < x1.len() implies x1[p].0 != x1[q].0 by {
                    assert(x1[p].0 == x[p].0);
                    assert(x1[q].0 == x[q].0);
                }
            }
            assert forall|p: int| 0 <= p < x1.len() implies (#[trigger] x1[p].1).wf() by {
                if p != i {
                    assert(x1[p] == x[p]);
                }
            }
        } else {
            assert(keys_unique(x1)) by {
                assert forall|p: int, q: int| 0 <= p < q < x1.len() implies x1[p].0 != x1[q].0 by {
                    if q == x1.len() - 1 {
                        assert(!(x[p].0 == k));
                    }
                }
            }
            assert forall|p: int| 0 <= p < x1.len() implies (#[trigger] x1[p].1).wf() by {
                if p < x.len() {
                    assert(x1[p] == x[p]);
                } else {
                    assert(x1[p].1 == v);
                }
            }
        }
        let rest = y.subrange(1, y.len() as int);
        assert forall|i: int| 0 <= i < rest.len() implies (#[trigger] rest[i].1).wf() by {
            assert(rest[i] == y[i + 1]);
        }
        lemma_merge_entries_wf(x1, rest);
    }
}

} // verus!
