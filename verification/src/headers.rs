//! The metadata bag carried by every message: a string-to-string map with
//! distinct keys, abstracted as `Map<Seq<char>, Seq<char>>`.
use crate::strutil::str_eq;
use vstd::prelude::*;

verus! {

/// Keys viewed as character sequences are pairwise different.
pub open spec fn distinct_keys(ks: Seq<Seq<char>>) -> bool {
    forall|i: int, j: int|
        0 <= i < ks.len() && 0 <= j < ks.len() && i != j ==> #[trigger] ks[i] != #[trigger] ks[j]
}

/// The map denoted by parallel key and value rows; a later row wins, though
/// a well-formed `Headers` never repeats a key.
pub open spec fn hmap(ks: Seq<Seq<char>>, vs: Seq<Seq<char>>) -> Map<Seq<char>, Seq<char>>
    decreases ks.len(),
{
    if ks.len() == 0 || ks.len() != vs.len() {
        Map::empty()
    } else {
        hmap(ks.drop_last(), vs.drop_last()).insert(ks.last(), vs.last())
    }
}

proof fn lemma_hmap_dom(ks: Seq<Seq<char>>, vs: Seq<Seq<char>>)
    requires
        ks.len() == vs.len(),
    ensures
        forall|x: Seq<char>| hmap(ks, vs).dom().contains(x) <==> ks.contains(x),
    decreases ks.len(),
{
    if ks.len() > 0 {
        lemma_hmap_dom(ks.drop_last(), vs.drop_last());
        assert forall|x: Seq<char>| ks.contains(x) implies hmap(ks, vs).dom().contains(x) by {
            let i = choose|i: int| 0 <= i < ks.len() && ks[i] == x;
            if i < ks.len() - 1 {
                assert(ks.drop_last()[i] == x);
                assert(ks.drop_last().contains(x));
            }
        }
        assert forall|x: Seq<char>| hmap(ks, vs).dom().contains(x) implies ks.contains(x) by {
            if x == ks.last() {
                assert(ks[ks.len() - 1] == x);
            } else {
                assert(hmap(ks.drop_last(), vs.drop_last()).dom().contains(x));
                assert(ks.drop_last().contains(x));
                let i = choose|i: int| 0 <= i < ks.drop_last().len() && ks.drop_last()[i] == x;
                assert(ks[i] == ks.drop_last()[i]);
                assert(ks[i] == x);
            }
        }
    }
}

proof fn lemma_hmap_index(ks: Seq<Seq<char>>, vs: Seq<Seq<char>>, i: int)
    requires
        ks.len() == vs.len(),
        distinct_keys(ks),
        0 <= i < ks.len(),
    ensures
        hmap(ks, vs).contains_key(ks[i]),
        hmap(ks, vs)[ks[i]] == vs[i],
    decreases ks.len(),
{
    if i == ks.len() - 1 {
    } else {
        assert(ks[i] != ks.last());
        lemma_hmap_index(ks.drop_last(), vs.drop_last(), i);
    }
}

/// A mutable string-keyed, string-valued metadata map.
pub struct Headers {
    keys: Vec<String>,
    vals: Vec<String>,
}

impl View for Headers {
    type V = Map<Seq<char>, Seq<char>>;

    closed spec fn view(&self) -> Map<Seq<char>, Seq<char>> {
        hmap(self.kseq(), self.vseq())
    }
}

impl Headers {
    pub closed spec fn kseq(&self) -> Seq<Seq<char>> {
        self.keys@.map_values(|s: String| s@)
    }

    pub closed spec fn vseq(&self) -> Seq<Seq<char>> {
        self.vals@.map_values(|s: String| s@)
    }

    pub closed spec fn wf(&self) -> bool {
        &&& self.keys@.len() == self.vals@.len()
        &&& distinct_keys(self.kseq())
    }

    /// The number of distinct keys held.
    pub closed spec fn spec_len(&self) -> nat {
        self.keys@.len()
    }

    pub fn new() -> (r: Headers)
        ensures
            r.wf(),
            r@ == Map::<Seq<char>, Seq<char>>::empty(),
            r.spec_len() == 0,
    {
        Headers { keys: Vec::new(), vals: Vec::new() }
    }

    fn index_of(&self, k: &str) -> (r: Option<usize>)
        requires
            self.wf(),
        ensures
            match r {
                Some(i) => 0 <= i < self.kseq().len() && self.kseq()[i as int] == k@,
                None => forall|i: int| 0 <= i < self.kseq().len() ==> self.kseq()[i] != k@,
            },
    {
        let n = self.keys.len();
        let mut i: usize = 0;
        while i < n
            invariant
                0 <= i <= n,
                n == self.keys@.len(),
                forall|j: int| 0 <= j < i ==> self.kseq()[j] != k@,
            decreases n - i,
        {
            if str_eq(self.keys[i].as_str(), k) {
                return Some(i);
            }
            i = i + 1;
        }
        None
    }

    pub fn contains_key(&self, k: &str) -> (r: bool)
        requires
            self.wf(),
        ensures
            r == self@.contains_key(k@),
    {
        proof {
            lemma_hmap_dom(self.kseq(), self.vseq());
        }
        match self.index_of(k) {
            Some(i) => {
                proof {
                    assert(self.kseq().contains(k@));
                }
                true
            },
            None => {
                proof {
                    assert(!self.kseq().contains(k@));
                }
                false
            },
        }
    }

    /// Looks a key up; `Some` exactly when the key is present.
    pub fn get(&self, k: &str) -> (r: Option<&String>)
        requires
            self.wf(),
        ensures
            match r {
                Some(v) => self@.contains_key(k@) && v@ == self@[k@],
                None => !self@.contains_key(k@),
            },
    {
        proof {
            lemma_hmap_dom(self.kseq(), self.vseq());
        }
        match self.index_of(k) {
            Some(i) => {
                proof {
                    lemma_hmap_index(self.kseq(), self.vseq(), i as int);
                }
                Some(&self.vals[i])
            },
            None => {
                proof {
                    assert(!self.kseq().contains(k@));
                }
                None
            },
        }
    }

    /// Binds `k` to `v`, replacing any earlier binding.
    pub fn insert(&mut self, k: &str, v: &str)
        requires
            old(self).wf(),
        ensures
            final(self).wf(),
            final(self)@ == old(self)@.insert(k@, v@),
            final(self).spec_len() == if old(self)@.contains_key(k@) {
                old(self).spec_len()
            } else {
                old(self).spec_len() + 1
            },
    {
        proof {
            lemma_hmap_dom(self.kseq(), self.vseq());
        }
        match self.index_of(k) {
            Some(i) => {
                proof {
                    assert(self.kseq().contains(k@));
                }
                self.vals.remove(i);
                self.vals.insert(i, v.to_owned());
                proof {
                    assert(self.kseq() =~= old(self).kseq());
                    assert(self.vseq() =~= old(self).vseq().update(i as int, v@));
                    lemma_hmap_update(self.kseq(), old(self).vseq(), i as int, v@);
                }
            },
            None => {
                proof {
                    assert(!self.kseq().contains(k@));
                }
                self.keys.push(k.to_owned());
                self.vals.push(v.to_owned());
                proof {
                    assert(self.kseq() =~= old(self).kseq().push(k@));
                    assert(self.vseq() =~= old(self).vseq().push(v@));
                    assert(self.kseq().drop_last() =~= old(self).kseq());
                    assert(self.vseq().drop_last() =~= old(self).vseq());
                    assert forall|i: int, j: int|
                        0 <= i < self.kseq().len() && 0 <= j < self.kseq().len() && i
                            != j implies #[trigger] self.kseq()[i] != #[trigger] self.kseq()[j] by {
                        if i == self.kseq().len() - 1 {
                            assert(self.kseq()[i] == k@);
                            assert(self.kseq()[j] == old(self).kseq()[j]);
                            assert(old(self).kseq()[j] != k@);
                        } else if j == self.kseq().len() - 1 {
                            assert(self.kseq()[j] == k@);
                            assert(self.kseq()[i] == old(self).kseq()[i]);
                            assert(old(self).kseq()[i] != k@);
                        } else {
                            assert(self.kseq()[i] == old(self).kseq()[i]);
                            assert(self.kseq()[j] == old(self).kseq()[j]);
                        }
                    }
                }
            },
        }
    }

    /// A fresh map holding the same bindings; the copy shares nothing with the
    /// original, so changing either leaves the other as it was.
    pub fn duplicate(&self) -> (r: Headers)
        ensures
            r@ == self@,
            r.wf() == self.wf(),
    {
        let nk = self.keys.len();
        let nv = self.vals.len();
        let mut keys: Vec<String> = Vec::new();
        let mut vals: Vec<String> = Vec::new();
        let mut i: usize = 0;
        while i < nk
            invariant
                0 <= i <= nk,
                nk == self.keys@.len(),
                keys@.len() == i,
                forall|j: int| 0 <= j < i ==> keys@[j]@ == #[trigger] self.keys@[j]@,
            decreases nk - i,
        {
            keys.push(self.keys[i].clone());
            i = i + 1;
        }
        let mut i: usize = 0;
        while i < nv
            invariant
                0 <= i <= nv,
                nv == self.vals@.len(),
                vals@.len() == i,
                forall|j: int| 0 <= j < i ==> vals@[j]@ == #[trigger] self.vals@[j]@,
            decreases nv - i,
        {
            vals.push(self.vals[i].clone());
            i = i + 1;
        }
        let r = Headers { keys, vals };
        proof {
            assert(r.kseq() =~= self.kseq());
            assert(r.vseq() =~= self.vseq());
            assert(r.keys@.len() == self.keys@.len());
            assert(r.vals@.len() == self.vals@.len());
        }
        r
    }

    pub fn len(&self) -> (r: usize)
        ensures
            r == self.spec_len(),
    {
        self.keys.len()
    }
}

proof fn lemma_hmap_update(ks: Seq<Seq<char>>, vs: Seq<Seq<char>>, i: int, v: Seq<char>)
    requires
        ks.len() == vs.len(),
        distinct_keys(ks),
        0 <= i < ks.len(),
    ensures
        hmap(ks, vs.update(i, v)) == hmap(ks, vs).insert(ks[i], v),
    decreases ks.len(),
{
    if i == ks.len() - 1 {
        assert(vs.update(i, v).drop_last() =~= vs.drop_last());
        assert(vs.update(i, v).last() == v);
        assert(hmap(ks, vs.update(i, v)) =~= hmap(ks, vs).insert(ks[i], v));
    } else {
        assert(vs.update(i, v).drop_last() =~= vs.drop_last().update(i, v));
        assert(vs.update(i, v).last() == vs.last());
        lemma_hmap_update(ks.drop_last(), vs.drop_last(), i, v);
        assert(ks[i] != ks.last());
        assert(hmap(ks, vs.update(i, v)) =~= hmap(ks, vs).insert(ks[i], v));
    }
}

} // verus!
