//! Sets of names, kept as strictly sorted string vectors.

use vstd::prelude::*;

use crate::text::{chars_eq, chars_lt, chars_of, lemma_seq_lt_asymmetric, lemma_seq_lt_irreflexive, lemma_seq_lt_total, lemma_seq_lt_transitive, seq_lt, strictly_sorted, views};

verus! {

/// A finite set of names, iterated in ascending [`seq_lt`] order.
#[derive(Debug)]
pub struct NameSet {
    names: Vec<String>,
}

impl NameSet {
    /// The names in ascending order.
    pub closed spec fn seq(&self) -> Seq<Seq<char>> {
        views(self.names@)
    }

    /// The names are strictly ascending.
    pub open spec fn wf(&self) -> bool {
        strictly_sorted(self.seq())
    }

    /// The empty set.
    pub fn new() -> (r: NameSet)
        ensures
            r.wf(),
            r.seq() == Seq::<Seq<char>>::empty(),
    {
        let r = NameSet { names: Vec::new() };
        assert(r.seq() =~= Seq::<Seq<char>>::empty());
        r
    }

    /// Number of names.
    pub fn len(&self) -> (r: usize)
        ensures
            r == self.seq().len(),
    {
        self.names.len()
    }

    /// The `i`-th name in ascending order.
    pub fn get(&self, i: usize) -> (r: &String)
        requires
            i < self.seq().len(),
        ensures
            r@ == self.seq()[i as int],
    {
        &self.names[i]
    }

    /// The names, in ascending order.
    pub fn to_vec(&self) -> (r: Vec<String>)
        ensures
            views(r@) == self.seq(),
    {
        let mut r: Vec<String> = Vec::new();
        let mut i: usize = 0;
        while i < self.names.len()
            invariant
                i <= self.names@.len(),
                views(r@) == self.seq().take(i as int),
            decreases self.names@.len() - i,
        {
            let ghost prev = r@;
            let s = self.names[i].clone();
            r.push(s);
            proof {
                assert(r@ =~= prev.push(s));
                assert(views(r@) =~= views(prev).push(s@));
            }
            i = i + 1;
            assert(views(r@) =~= self.seq().take(i as int));
        }
        assert(self.seq().take(i as int) =~= self.seq());
        r
    }

    /// Position of the first name not below `x`, and whether it equals `x`.
    fn locate(&self, x: &Vec<char>) -> (r: (usize, bool))
        requires
            self.wf(),
        ensures
            r.0 <= self.seq().len(),
            forall|j: int| 0 <= j < r.0 ==> seq_lt(#[trigger] self.seq()[j], x@),
            forall|j: int| r.0 <= j < self.seq().len() ==> !seq_lt(#[trigger] self.seq()[j], x@),
            r.1 == (r.0 < self.seq().len() && self.seq()[r.0 as int] == x@),
    {
        let mut i: usize = 0;
        while i < self.names.len()
            invariant
                self.wf(),
                i <= self.seq().len(),
                self.seq().len() == self.names@.len(),
                forall|j: int| 0 <= j < i ==> seq_lt(#[trigger] self.seq()[j], x@),
            decreases self.names@.len() - i,
        {
            let cur = chars_of(self.names[i].as_str());
            if !chars_lt(&cur, x) {
                proof {
                    assert forall|j: int| i <= j < self.seq().len() implies !seq_lt(
                        #[trigger] self.seq()[j],
                        x@,
                    ) by {
                        if j > i {
                            assert(seq_lt(self.seq()[i as int], self.seq()[j]));
                            if seq_lt(self.seq()[j], x@) {
                                lemma_seq_lt_transitive(self.seq()[i as int], self.seq()[j], x@);
                            }
                        }
                    }
                }
                let same = chars_eq(&cur, x);
                return (i, same);
            }
            i = i + 1;
        }
        (i, false)
    }

    /// Whether `name` is in the set.
    pub fn contains(&self, name: &str) -> (r: bool)
        requires
            self.wf(),
        ensures
            r == self.seq().contains(name@),
    {
        let x = chars_of(name);
        let (p, same) = self.locate(&x);
        proof {
            if !same && self.seq().contains(name@) {
                let k = choose|k: int| 0 <= k < self.seq().len() && self.seq()[k] == name@;
                lemma_seq_lt_irreflexive(name@);
                if k > p {
                    lemma_seq_lt_total(self.seq()[p as int], name@);
                    assert(seq_lt(self.seq()[p as int], self.seq()[k]));
                }
            }
        }
        same
    }

    /// Removes `name` from the set.
    pub fn remove(&mut self, name: &str)
        requires
            old(self).wf(),
        ensures
            final(self).wf(),
            final(self).seq().to_set() == old(self).seq().to_set().remove(name@),
    {
        let x = chars_of(name);
        let (p, same) = self.locate(&x);
        let ghost before = self.seq();
        proof {
            lemma_sorted_no_duplicates(before);
        }
        if !same {
            proof {
                assert forall|k: int| 0 <= k < before.len() implies before[k] != name@ by {
                    lemma_seq_lt_irreflexive(name@);
                    if k > p {
                        lemma_seq_lt_total(before[p as int], name@);
                        assert(seq_lt(before[p as int], before[k]));
                        if before[k] == name@ {
                            lemma_seq_lt_asymmetric(before[p as int], name@);
                        }
                    }
                }
                assert(before.to_set() =~= before.to_set().remove(name@));
            }
            return ;
        }
        self.names.remove(p);
        proof {
            assert(self.seq() =~= before.remove(p as int));
            assert forall|i: int, j: int| 0 <= i < j < self.seq().len() implies seq_lt(
                #[trigger] self.seq()[i],
                #[trigger] self.seq()[j],
            ) by {
                let bi = if i < p { i } else { i + 1 };
                let bj = if j < p { j } else { j + 1 };
                assert(self.seq()[i] == before[bi]);
                assert(self.seq()[j] == before[bj]);
                assert(seq_lt(before[bi], before[bj]));
            }
            assert(self.seq().to_set() =~= before.to_set().remove(name@)) by {
                assert forall|y: Seq<char>| self.seq().to_set().contains(y) implies before.to_set().remove(
                    name@,
                ).contains(y) by {
                    let k = choose|k: int| 0 <= k < self.seq().len() && self.seq()[k] == y;
                    let bk = if k < p { k } else { k + 1 };
                    assert(before[bk] == y);
                    assert(bk != p);
                }
                assert forall|y: Seq<char>| before.to_set().remove(name@).contains(y) implies self.seq().to_set().contains(
                    y,
                ) by {
                    let k = choose|k: int| 0 <= k < before.len() && before[k] == y;
                    assert(k != p);
                    if k < p {
                        assert(self.seq()[k] == y);
                    } else {
                        assert(self.seq()[k - 1] == y);
                    }
                }
            }
        }
    }

    /// Adds `name` to the set.
    pub fn insert(&mut self, name: String)
        requires
            old(self).wf(),
        ensures
            final(self).wf(),
            final(self).seq().to_set() == old(self).seq().to_set().insert(name@),
    {
        let x = chars_of(name.as_str());
        let (p, same) = self.locate(&x);
        if same {
            proof {
                assert(self.seq().to_set() =~= self.seq().to_set().insert(name@));
            }
            return ;
        }
        let ghost before = self.seq();
        proof {
            if p < before.len() {
                lemma_seq_lt_total(before[p as int], x@);
            }
        }
        self.names.insert(p, name);
        proof {
            assert(self.seq() =~= before.insert(p as int, x@));
            assert forall|i: int, j: int| 0 <= i < j < self.seq().len() implies seq_lt(
                #[trigger] self.seq()[i],
                #[trigger] self.seq()[j],
            ) by {
                if i < p && j == p {
                } else if i == p && j > p {
                    assert(self.seq()[j] == before[j - 1]);
                    if j - 1 > p {
                        assert(seq_lt(before[p as int], before[j - 1]));
                        lemma_seq_lt_transitive(x@, before[p as int], before[j - 1]);
                    }
                } else if i < p && j > p {
                    assert(seq_lt(before[i], x@));
                    if j - 1 == p {
                        lemma_seq_lt_transitive(before[i], x@, before[j - 1]);
                    } else {
                        lemma_seq_lt_transitive(before[i], x@, before[p as int]);
                        lemma_seq_lt_transitive(before[i], before[p as int], before[j - 1]);
                    }
                } else if i > p {
                    assert(seq_lt(before[i - 1], before[j - 1]));
                }
            }
            assert(self.seq().to_set() =~= before.to_set().insert(x@)) by {
                assert forall|y: Seq<char>| self.seq().to_set().contains(y) implies before.to_set().insert(
                    x@,
                ).contains(y) by {
                    let k = choose|k: int| 0 <= k < self.seq().len() && self.seq()[k] == y;
                    if k < p {
                        assert(before[k] == y);
                    } else if k > p {
                        assert(before[k - 1] == y);
                    }
                }
                assert forall|y: Seq<char>| before.to_set().insert(x@).contains(y) implies self.seq().to_set().contains(
                    y,
                ) by {
                    if y == x@ {
                        assert(self.seq()[p as int] == y);
                    } else {
                        let k = choose|k: int| 0 <= k < before.len() && before[k] == y;
                        if k < p {
                            assert(self.seq()[k] == y);
                        } else {
                            assert(self.seq()[k + 1] == y);
                        }
                    }
                }
            }
        }
    }
}

/// A strictly sorted sequence has no duplicates.
pub proof fn lemma_sorted_no_duplicates(s: Seq<Seq<char>>)
    requires
        strictly_sorted(s),
    ensures
        s.no_duplicates(),
{
    assert forall|i: int, j: int| 0 <= i < s.len() && 0 <= j < s.len() && i != j implies s[i]
        != s[j] by {
        if i < j {
            assert(seq_lt(s[i], s[j]));
            lemma_seq_lt_irreflexive(s[i]);
        } else {
            assert(seq_lt(s[j], s[i]));
            lemma_seq_lt_irreflexive(s[j]);
        }
    }
}

/// Two strictly sorted sequences with the same elements are equal.
pub proof fn lemma_sorted_unique(a: Seq<Seq<char>>, b: Seq<Seq<char>>)
    requires
        strictly_sorted(a),
        strictly_sorted(b),
        a.to_set() == b.to_set(),
    ensures
        a == b,
    decreases a.len() + b.len(),
{
    if a.len() == 0 {
        if b.len() > 0 {
            assert(b.to_set().contains(b[0]));
        }
        assert(a =~= b);
    } else if b.len() == 0 {
        assert(a.to_set().contains(a[0]));
    } else {
        // Both heads are the minimum of the common set.
        assert(a.to_set().contains(a[0]));
        assert(b.to_set().contains(b[0]));
        let ia = choose|k: int| 0 <= k < b.len() && b[k] == a[0];
        let ib = choose|k: int| 0 <= k < a.len() && a[k] == b[0];
        if a[0] != b[0] {
            if ia > 0 {
                assert(seq_lt(b[0], b[ia]));
            }
            if ib > 0 {
                assert(seq_lt(a[0], a[ib]));
            }
            lemma_seq_lt_asymmetric(a[0], b[0]);
        }
        let ta = a.drop_first();
        let tb = b.drop_first();
        assert(ta.to_set() =~= tb.to_set()) by {
            assert forall|y: Seq<char>| ta.to_set().contains(y) implies tb.to_set().contains(y) by {
                let k = choose|k: int| 0 <= k < ta.len() && ta[k] == y;
                assert(a[k + 1] == y);
                assert(seq_lt(a[0], a[k + 1]));
                lemma_seq_lt_irreflexive(y);
                assert(b.to_set().contains(y));
                let m = choose|m: int| 0 <= m < b.len() && b[m] == y;
                assert(m != 0);
                assert(tb[m - 1] == y);
            }
            assert forall|y: Seq<char>| tb.to_set().contains(y) implies ta.to_set().contains(y) by {
                let k = choose|k: int| 0 <= k < tb.len() && tb[k] == y;
                assert(b[k + 1] == y);
                assert(seq_lt(b[0], b[k + 1]));
                lemma_seq_lt_irreflexive(y);
                assert(a.to_set().contains(y));
                let m = choose|m: int| 0 <= m < a.len() && a[m] == y;
                assert(m != 0);
                assert(ta[m - 1] == y);
            }
        }
        lemma_sorted_unique(ta, tb);
        assert(a =~= seq![a[0]] + ta);
        assert(b =~= seq![b[0]] + tb);
    }
}

} // verus!

verus! {

/// Filtering keeps a sequence strictly sorted, and keeps only its elements.
pub proof fn lemma_filter_sorted(s: Seq<Seq<char>>, p: spec_fn(Seq<char>) -> bool)
    requires
        strictly_sorted(s),
    ensures
        strictly_sorted(s.filter(p)),
        forall|i: int| 0 <= i < s.filter(p).len() ==> s.contains(#[trigger] s.filter(p)[i]),
    decreases s.len(),
{
    reveal_with_fuel(Seq::filter, 1);
    if s.len() > 0 {
        let d = s.drop_last();
        assert(strictly_sorted(d)) by {
            assert forall|i: int, j: int| 0 <= i < j < d.len() implies seq_lt(
                #[trigger] d[i],
                #[trigger] d[j],
            ) by {
                assert(d[i] == s[i] && d[j] == s[j]);
            }
        }
        lemma_filter_sorted(d, p);
        let f = d.filter(p);
        assert forall|i: int| 0 <= i < f.len() implies seq_lt(#[trigger] f[i], s.last()) by {
            assert(d.contains(f[i]));
            let k = choose|k: int| 0 <= k < d.len() && d[k] == f[i];
            assert(s[k] == f[i]);
        }
        assert forall|i: int| 0 <= i < s.filter(p).len() implies s.contains(
            #[trigger] s.filter(p)[i],
        ) by {
            if i < f.len() {
                assert(s.filter(p)[i] == f[i]);
                assert(d.contains(f[i]));
                let k = choose|k: int| 0 <= k < d.len() && d[k] == f[i];
                assert(s[k] == f[i]);
            } else {
                assert(s.filter(p)[i] == s[s.len() - 1]);
            }
        }
    }
}

} // verus!
