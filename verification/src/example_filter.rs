//! The example filter state: a persistent map from state names to pieces of
//! filter-local state, one of which is a running counter.
use crate::numstr::{all_digits, parse_u64, spec_digits, spec_val, u64_to_string};
use crate::rpc::Rpc;
use crate::strutil::str_eq;
use vstd::prelude::*;

verus! {

/// One step of the sample hop counter.
pub fn count(counter: u32) -> (r: u32)
    requires
        counter < u32::MAX,
    ensures
        r == counter + 1,
{
    counter + 1
}

/// The sample codelet: passes a message on with its numeric payload counting
/// one more hop; a payload that is no number, or one already at the count's
/// ceiling, is sunk.
pub fn codelet(x: &Rpc) -> (r: Option<Rpc>)
    requires
        x.wf(),
    ensures
        r is Some <==> (x@.data.len() > 0 && all_digits(x@.data) && spec_val(x@.data) + 1
            <= u64::MAX),
        r is Some ==> ({
            let y = r->Some_0;
            &&& y.wf()
            &&& y@.data == spec_digits(spec_val(x@.data) + 1)
            &&& y@.uid == x@.uid
            &&& y@.headers == x@.headers
            &&& y@.path == x@.path
        }),
{
    match parse_u64(x.data.as_str()) {
        None => None,
        Some(v) => {
            if v == u64::MAX {
                None
            } else {
                let mut y = x.duplicate();
                y.data = u64_to_string(v + 1);
                Some(y)
            }
        },
    }
}

/// A counter, the example user-defined function a filter hosts.
#[derive(Clone, Copy, Debug)]
pub struct Count {
    pub counter: u32,
}

impl Count {
    pub fn new() -> (r: Count)
        ensures
            r.counter == 0,
    {
        Count { counter: 0 }
    }

    /// One step of the counter; returns the new reading.
    pub fn execute(&mut self) -> (r: u32)
        requires
            old(self).counter < u32::MAX,
        ensures
            final(self).counter == old(self).counter + 1,
            r == final(self).counter,
    {
        self.counter = self.counter + 1;
        self.counter
    }
}

/// One piece of filter state: either plain text or a user-defined counter.
#[derive(Clone, Debug)]
pub struct State {
    pub type_of_state: Option<String>,
    pub string_data: Option<String>,
    pub udf_count: Option<Count>,
}

impl State {
    pub fn new() -> (r: State)
        ensures
            r.type_of_state is None,
            r.string_data is None,
            r.udf_count is None,
    {
        State { type_of_state: None, string_data: None, udf_count: None }
    }

    pub fn new_with_str(str_data: String) -> (r: State)
        ensures
            r.type_of_state is Some && r.type_of_state->0@ == "String"@,
            r.string_data == Some(str_data),
            r.udf_count is None,
    {
        State {
            type_of_state: Some("String".to_owned()),
            string_data: Some(str_data),
            udf_count: None,
        }
    }
}

/// The map from state names to `State`, as parallel rows with distinct keys.
pub open spec fn smap(ks: Seq<Seq<char>>, vs: Seq<State>) -> Map<Seq<char>, State>
    decreases ks.len(),
{
    if ks.len() == 0 || ks.len() != vs.len() {
        Map::empty()
    } else {
        smap(ks.drop_last(), vs.drop_last()).insert(ks.last(), vs.last())
    }
}

proof fn lemma_smap_dom(ks: Seq<Seq<char>>, vs: Seq<State>)
    requires
        ks.len() == vs.len(),
    ensures
        forall|x: Seq<char>| smap(ks, vs).dom().contains(x) <==> ks.contains(x),
    decreases ks.len(),
{
    if ks.len() > 0 {
        lemma_smap_dom(ks.drop_last(), vs.drop_last());
        assert forall|x: Seq<char>| ks.contains(x) implies smap(ks, vs).dom().contains(x) by {
            let i = choose|i: int| 0 <= i < ks.len() && ks[i] == x;
            if i < ks.len() - 1 {
                assert(ks.drop_last()[i] == x);
                assert(ks.drop_last().contains(x));
            }
        }
        assert forall|x: Seq<char>| smap(ks, vs).dom().contains(x) implies ks.contains(x) by {
            if x == ks.last() {
                assert(ks[ks.len() - 1] == x);
            } else {
                assert(smap(ks.drop_last(), vs.drop_last()).dom().contains(x));
                assert(ks.drop_last().contains(x));
                let i = choose|i: int| 0 <= i < ks.drop_last().len() && ks.drop_last()[i] == x;
                assert(ks[i] == ks.drop_last()[i]);
                assert(ks[i] == x);
            }
        }
    }
}

proof fn lemma_smap_index(ks: Seq<Seq<char>>, vs: Seq<State>, i: int)
    requires
        ks.len() == vs.len(),
        crate::headers::distinct_keys(ks),
        0 <= i < ks.len(),
    ensures
        smap(ks, vs).contains_key(ks[i]),
        smap(ks, vs)[ks[i]] == vs[i],
    decreases ks.len(),
{
    if i == ks.len() - 1 {
    } else {
        assert(ks[i] != ks.last());
        lemma_smap_index(ks.drop_last(), vs.drop_last(), i);
    }
}

proof fn lemma_smap_update(ks: Seq<Seq<char>>, vs: Seq<State>, i: int, v: State)
    requires
        ks.len() == vs.len(),
        crate::headers::distinct_keys(ks),
        0 <= i < ks.len(),
    ensures
        smap(ks, vs.update(i, v)) == smap(ks, vs).insert(ks[i], v),
    decreases ks.len(),
{
    if i == ks.len() - 1 {
        assert(vs.update(i, v).drop_last() =~= vs.drop_last());
        assert(vs.update(i, v).last() == v);
        assert(smap(ks, vs.update(i, v)) =~= smap(ks, vs).insert(ks[i], v));
    } else {
        assert(vs.update(i, v).drop_last() =~= vs.drop_last().update(i, v));
        assert(vs.update(i, v).last() == vs.last());
        lemma_smap_update(ks.drop_last(), vs.drop_last(), i, v);
        assert(ks[i] != ks.last());
        assert(smap(ks, vs.update(i, v)) =~= smap(ks, vs).insert(ks[i], v));
    }
}

/// Filter-local storage: state names to `State` values.
pub struct StateMap {
    keys: Vec<String>,
    vals: Vec<State>,
}

impl View for StateMap {
    type V = Map<Seq<char>, State>;

    closed spec fn view(&self) -> Map<Seq<char>, State> {
        smap(self.kseq(), self.vals@)
    }
}

impl StateMap {
    pub closed spec fn kseq(&self) -> Seq<Seq<char>> {
        self.keys@.map_values(|s: String| s@)
    }

    pub closed spec fn wf(&self) -> bool {
        &&& self.keys@.len() == self.vals@.len()
        &&& crate::headers::distinct_keys(self.kseq())
    }

    pub closed spec fn spec_len(&self) -> nat {
        self.keys@.len()
    }

    pub fn new() -> (r: StateMap)
        ensures
            r.wf(),
            r@ == Map::<Seq<char>, State>::empty(),
            r.spec_len() == 0,
    {
        StateMap { keys: Vec::new(), vals: Vec::new() }
    }

    fn index_of(&self, k: &str) -> (r: Option<usize>)
        requires
            self.wf(),
        ensures
            match r {
                Some(i) => 0 <= i < self.kseq().len() && self.kseq()[i as int] == k@,
                None => forall|i: int| 0 <= i < self.kseq().len() ==> self.kseq()[i] != k@,
            },
    {
        let n = self.keys.len();
        let mut i: usize = 0;
        while i < n
            invariant
                0 <= i <= n,
                n == self.keys@.len(),
                forall|j: int| 0 <= j < i ==> self.kseq()[j] != k@,
            decreases n - i,
        {
            if str_eq(self.keys[i].as_str(), k) {
                return Some(i);
            }
            i = i + 1;
        }
        None
    }

    pub fn contains_key(&self, k: &str) -> (r: bool)
        requires
            self.wf(),
        ensures
            r == self@.contains_key(k@),
    {
        proof {
            lemma_smap_dom(self.kseq(), self.vals@);
        }
        match self.index_of(k) {
            Some(i) => {
                proof {
                    assert(self.kseq().contains(k@));
                }
                true
            },
            None => {
                proof {
                    assert(!self.kseq().contains(k@));
                }
                false
            },
        }
    }

    pub fn get(&self, k: &str) -> (r: Option<&State>)
        requires
            self.wf(),
        ensures
            match r {
                Some(v) => self@.contains_key(k@) && *v == self@[k@],
                None => !self@.contains_key(k@),
            },
    {
        proof {
            lemma_smap_dom(self.kseq(), self.vals@);
        }
        match self.index_of(k) {
            Some(i) => {
                proof {
                    lemma_smap_index(self.kseq(), self.vals@, i as int);
                }
                Some(&self.vals[i])
            },
            None => {
                proof {
                    assert(!self.kseq().contains(k@));
                }
                None
            },
        }
    }

    pub fn insert(&mut self, k: &str, v: State)
        requires
            old(self).wf(),
        ensures
            final(self).wf(),
            final(self)@ == old(self)@.insert(k@, v),
            final(self).spec_len() == if old(self)@.contains_key(k@) {
                old(self).spec_len()
            } else {
                old(self).spec_len() + 1
            },
    {
        proof {
            lemma_smap_dom(self.kseq(), self.vals@);
        }
        match self.index_of(k) {
            Some(i) => {
                proof {
                    assert(self.kseq().contains(k@));
                }
                self.vals.remove(i);
                self.vals.insert(i, v);
                proof {
                    assert(self.kseq() =~= old(self).kseq());
                    assert(self.vals@ =~= old(self).vals@.update(i as int, v));
                    lemma_smap_update(self.kseq(), old(self).vals@, i as int, v);
                }
            },
            None => {
                proof {
                    assert(!self.kseq().contains(k@));
                }
                self.keys.push(k.to_owned());
                self.vals.push(v);
                proof {
                    assert(self.kseq() =~= old(self).kseq().push(k@));
                    assert(self.kseq().drop_last() =~= old(self).kseq());
                    assert(self.vals@.drop_last() =~= old(self).vals@);
                    assert forall|i: int, j: int|
                        0 <= i < self.kseq().len() && 0 <= j < self.kseq().len() && i
                            != j implies #[trigger] self.kseq()[i] != #[trigger] self.kseq()[j] by {
                        if i == self.kseq().len() - 1 {
                            assert(self.kseq()[i] == k@);
                            assert(self.kseq()[j] == old(self).kseq()[j]);
                            assert(old(self).kseq()[j] != k@);
                        } else if j == self.kseq().len() - 1 {
                            assert(self.kseq()[j] == k@);
                            assert(self.kseq()[i] == old(self).kseq()[i]);
                            assert(old(self).kseq()[i] != k@);
                        } else {
                            assert(self.kseq()[i] == old(self).kseq()[i]);
                            assert(self.kseq()[j] == old(self).kseq()[j]);
                        }
                    }
                }
            },
        }
    }

    pub fn len(&self) -> (r: usize)
        ensures
            r == self.spec_len(),
    {
        self.keys.len()
    }
}

/// The counter state the filter keeps under the name `count`, if any.
pub open spec fn count_state(m: Map<Seq<char>, State>) -> Option<Count> {
    if m.contains_key("count"@) {
        m["count"@].udf_count
    } else {
        None
    }
}

/// The example filter: seeded from a property bag, it keeps a persistent
/// counter that every processed message advances, and passes messages on
/// unchanged.
pub struct FilterImpl {
    pub filter_state: StateMap,
}

impl FilterImpl {
    pub open spec fn wf(&self) -> bool {
        self.filter_state.wf()
    }

    /// Seeds the filter state with one text entry per property, as a proxy
    /// would hand its workload metadata to a loaded filter.
    pub fn new_with_envoy_properties(string_data: &Vec<(String, String)>) -> (r: FilterImpl)
        requires
            forall|i: int, j: int|
                0 <= i < string_data@.len() && 0 <= j < string_data@.len() && i != j
                    ==> #[trigger] string_data@[i].0@ != #[trigger] string_data@[j].0@,
        ensures
            r.wf(),
            r.filter_state.spec_len() == string_data@.len(),
            forall|i: int|
                0 <= i < string_data@.len() ==> r.filter_state@.contains_key(
                    #[trigger] string_data@[i].0@,
                ) && r.filter_state@[string_data@[i].0@].string_data is Some
                    && r.filter_state@[string_data@[i].0@].string_data->0@ == string_data@[i].1@
                    && r.filter_state@[string_data@[i].0@].udf_count is None,
    {
        let mut filter_state = StateMap::new();
        let n = string_data.len();
        let mut i: usize = 0;
        while i < n
            invariant
                0 <= i <= n,
                n == string_data@.len(),
                filter_state.wf(),
                filter_state.spec_len() == i,
                forall|a: int, b: int|
                    0 <= a < string_data@.len() && 0 <= b < string_data@.len() && a != b
                        ==> #[trigger] string_data@[a].0@ != #[trigger] string_data@[b].0@,
                forall|j: int|
                    0 <= j < i ==> filter_state@.contains_key(#[trigger] string_data@[j].0@)
                        && filter_state@[string_data@[j].0@].string_data is Some
                        && filter_state@[string_data@[j].0@].string_data->0@ == string_data@[j].1@
                        && filter_state@[string_data@[j].0@].udf_count is None,
                forall|k: Seq<char>|
                    filter_state@.contains_key(k) ==> exists|j: int|
                        0 <= j < i && #[trigger] string_data@[j].0@ == k,
            decreases n - i,
        {
            let key = string_data[i].0.clone();
            let val = string_data[i].1.clone();
            let st = State::new_with_str(val);
            proof {
                if filter_state@.contains_key(key@) {
                    let j = choose|j: int| 0 <= j < i && string_data@[j].0@ == key@;
                    assert(string_data@[j].0@ != string_data@[i as int].0@);
                    assert(false);
                }
            }
            filter_state.insert(key.as_str(), st);
            i = i + 1;
        }
        FilterImpl { filter_state }
    }

    /// Processes one message: makes sure the `count` state exists, advances
    /// its counter, and hands the message on unchanged.
    pub fn execute(&mut self, x: &Rpc) -> (r: Option<Rpc>)
        requires
            old(self).wf(),
            match count_state(old(self).filter_state@) {
                Some(c) => c.counter < u32::MAX,
                None => true,
            },
        ensures
            final(self).wf(),
            final(self).filter_state@.contains_key("count"@),
            final(self).filter_state@["count"@].udf_count is Some,
            final(self).filter_state@["count"@].udf_count->0.counter == match count_state(
                old(self).filter_state@,
            ) {
                Some(c) => c.counter + 1,
                None => 1,
            },
            final(self).filter_state@ == old(self).filter_state@.insert(
                "count"@,
                final(self).filter_state@["count"@],
            ),
            final(self).filter_state.spec_len() == if old(self).filter_state@.contains_key(
                "count"@,
            ) {
                old(self).filter_state.spec_len()
            } else {
                old(self).filter_state.spec_len() + 1
            },
            r is Some && r->0@ == x@ && r->0.wf() == x.wf(),
    {
        let existing: Option<State> = match self.filter_state.get("count") {
            Some(st) => Some(
                State {
                    type_of_state: match &st.type_of_state {
                        Some(s) => Some(s.clone()),
                        None => None,
                    },
                    string_data: match &st.string_data {
                        Some(s) => Some(s.clone()),
                        None => None,
                    },
                    udf_count: st.udf_count,
                },
            ),
            None => None,
        };
        let mut st = match existing {
            Some(st) => st,
            None => {
                let mut fresh = State::new();
                fresh.type_of_state = Some("count".to_owned());
                fresh.udf_count = Some(Count::new());
                fresh
            },
        };
        let mut c = match st.udf_count {
            Some(c) => c,
            None => Count::new(),
        };
        c.execute();
        st.udf_count = Some(c);
        self.filter_state.insert("count", st);
        proof {
            assert(self.filter_state@ =~= old(self).filter_state@.insert(
                "count"@,
                self.filter_state@["count"@],
            ));
        }
        Some(x.duplicate())
    }
}

} // verus!
