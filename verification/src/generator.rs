//! The synthetic traffic source: each tick it emits a fixed number of fresh
//! requests towards its one neighbor.
use crate::error::SimError;
use crate::numstr::spec_digits;
use crate::rpc::Rpc;
use crate::UidAllocator;
use vstd::prelude::*;

verus! {

pub struct TrafficGenerator {
    pub rate: u32,
    pub id: String,
    pub neighbors: Vec<String>,
}

impl TrafficGenerator {
    pub fn new(rate: u32, id: &str) -> (r: TrafficGenerator)
        ensures
            r.rate == rate,
            r.id@ == id@,
            r.neighbors@.len() == 0,
    {
        TrafficGenerator { rate, id: id.to_owned(), neighbors: Vec::new() }
    }

    /// Emits `rate` fresh requests for the wired neighbor, each carrying the
    /// tick as payload; with no neighbor wired, it emits nothing.
    pub fn tick(&mut self, tick: u64, uids: &mut UidAllocator) -> (r: Result<Vec<Rpc>, SimError>)
        ensures
            *final(self) == *old(self),
            final(uids).next >= old(uids).next,
            r is Err ==> r->Err_0 is UidExhausted && final(uids).next == u64::MAX,
            old(uids).next + old(self).rate <= u64::MAX ==> r is Ok,
            old(self).neighbors@.len() == 0 ==> r is Ok && r->Ok_0@.len() == 0 && final(uids).next
                == old(uids).next,
            r is Ok ==> {
                &&& r->Ok_0@.len() == if old(self).neighbors@.len() > 0 {
                    old(self).rate as int
                } else {
                    0int
                }
                &&& forall|i: int|
                    0 <= i < r->Ok_0@.len() ==> (#[trigger] r->Ok_0@[i]).wf()
                        && r->Ok_0@[i]@.data == spec_digits(tick as nat) && r->Ok_0@[i]@.uid == old(
                        uids,
                    ).next + i && r->Ok_0@[i]@.headers == Map::<Seq<char>, Seq<char>>::empty()
                        .insert("src"@, old(self).id@).insert("dest"@, old(self).neighbors@[0]@)
                &&& final(uids).next == old(uids).next + r->Ok_0@.len()
            },
    {
        let mut out: Vec<Rpc> = Vec::new();
        if self.neighbors.len() == 0 {
            return Ok(out);
        }
        let dest: String = self.neighbors[0].clone();
        let data = crate::numstr::u64_to_string(tick);
        let n = self.rate as usize;
        let mut i: usize = 0;
        while i < n
            invariant
                0 <= i <= n,
                n == old(self).rate,
                *self == *old(self),
                self.neighbors@.len() > 0,
                dest@ == old(self).neighbors@[0]@,
                data@ == spec_digits(tick as nat),
                out@.len() == i,
                uids.next == old(uids).next + i,
                uids.next <= u64::MAX,
                forall|j: int|
                    0 <= j < out@.len() ==> (#[trigger] out@[j]).wf() && out@[j]@.data
                        == spec_digits(tick as nat) && out@[j]@.uid == old(uids).next + j
                        && out@[j]@.headers == Map::<Seq<char>, Seq<char>>::empty().insert(
                        "src"@,
                        old(self).id@,
                    ).insert("dest"@, old(self).neighbors@[0]@),
            decreases n - i,
        {
            if uids.next == u64::MAX {
                return Err(SimError::UidExhausted);
            }
            let mut rpc = Rpc::new_rpc(data.as_str(), uids);
            rpc.headers.insert("src", self.id.as_str());
            rpc.headers.insert("dest", dest.as_str());
            out.push(rpc);
            i = i + 1;
        }
        Ok(out)
    }

    /// Wires the generator's one target, replacing any earlier wiring.
    pub fn add_connection(&mut self, neighbor: String)
        ensures
            final(self).neighbors@.len() == 1,
            final(self).neighbors@[0] == neighbor,
            final(self).rate == old(self).rate,
            final(self).id == old(self).id,
    {
        if self.neighbors.len() > 0 {
            self.neighbors.clear();
        }
        self.neighbors.push(neighbor);
    }

    pub fn whoami(&self) -> (r: &String)
        ensures
            r == &self.id,
    {
        &self.id
    }
}

} // verus!
