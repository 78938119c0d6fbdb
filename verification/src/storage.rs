//! The terminal store: it consumes the messages addressed to it, optionally
//! through an aggregation filter, and answers point queries with its log.
use crate::error::SimError;
use crate::filter::{
    filter_after, filter_emits_extra, filter_extra_model, Filter, FilterKind, FilterSlot,
};
use crate::rpc::{Rpc, RpcModel};
use crate::strutil::{spec_contains, str_contains};
use crate::UidAllocator;
use vstd::prelude::*;

verus! {

/// The message as the store processes it: tagged as an incoming request.
pub open spec fn stored_tag(x: RpcModel) -> RpcModel {
    RpcModel {
        headers: x.headers.insert("direction"@, "request"@).insert("location"@, "ingress"@),
        ..x
    }
}

pub struct Storage {
    pub data: String,
    pub id: String,
    pub neighbors: Vec<String>,
    pub plugin: Option<FilterSlot>,
}

impl Storage {
    pub open spec fn wf(&self) -> bool {
        match self.plugin {
            Some(p) => p.wf() && p.stored@.len() == 0 && p.neighbor@.len() == 1,
            None => true,
        }
    }

    /// A store accepts a message whose destination tag contains its identity.
    pub open spec fn accepts(&self, x: RpcModel) -> bool {
        x.headers.contains_key("dest"@) && spec_contains(x.headers["dest"@], self.id@)
    }

    pub fn new(id: &str, aggregation: Option<FilterKind>) -> (r: Storage)
        ensures
            r.wf(),
            r.data@ == Seq::<char>::empty(),
            r.id@ == id@,
            r.neighbors@.len() == 0,
            match (aggregation, r.plugin) {
                (None, None) => true,
                (Some(FilterKind::Average), Some(slot)) => slot.filter is Average
                    && slot.filter->Average_0.total == 0 && slot.filter->Average_0.count_n == 0
                    && slot.stored@.len() == 0 && slot.neighbor@.len() == 1,
                (Some(FilterKind::Count), Some(slot)) => slot.filter is Count
                    && slot.filter->Count_0.responses_seen == 0 && slot.stored@.len() == 0
                    && slot.neighbor@.len() == 1,
                _ => false,
            },
    {
        let plugin = match aggregation {
            None => None,
            Some(kind) => {
                let mut slot = FilterSlot::new(id, kind);
                slot.add_connection(id.to_owned());
                Some(slot)
            },
        };
        Storage { data: String::new(), id: id.to_owned(), neighbors: Vec::new(), plugin }
    }

    /// Appends what an accepted message yields, each item terminated by a
    /// newline.  With an aggregation filter, the message is handed to the
    /// filter and whatever the filter emits is appended instead.
    pub fn store(&mut self, x: Rpc, now: u64, uids: &mut UidAllocator) -> (r: Result<
        (),
        SimError,
    >)
        requires
            old(self).wf(),
            x.wf(),
        ensures
            final(self).wf(),
            *final(self) == (Storage {
                data: final(self).data,
                plugin: final(self).plugin,
                ..*old(self)
            }),
            final(uids).next >= old(uids).next,
            final(uids).next <= old(uids).next + 1,
            old(self).data@.is_prefix_of(final(self).data@),
            old(self).plugin is None ==> final(self).plugin is None,
            (r is Err <==> old(self).accepts(x@) && old(self).plugin is Some && old(uids).next
                == u64::MAX),
            r is Err ==> r->Err_0 is UidExhausted && *final(self) == *old(self) && final(uids).next == old(uids).next,
            !old(self).accepts(x@) ==> r is Ok && *final(self) == *old(self) && final(uids).next
                == old(uids).next,
            (old(self).accepts(x@) && old(self).plugin is None) ==> r is Ok && final(self).data@
                == old(self).data@ + x@.data + "\n"@ && final(uids).next == old(uids).next,
            match old(self).plugin {
                None => true,
                Some(slot) => (old(self).accepts(x@) && old(uids).next < u64::MAX) ==> {
                    &&& r is Ok
                    &&& final(self).plugin is Some
                    &&& final(self).plugin->Some_0.filter == filter_after(slot.filter, x@)
                    &&& final(self).data@ == old(self).data@ + x@.data + "\n"@ + (
                    if filter_emits_extra(slot.filter, x@) {
                        filter_extra_model(slot.filter, x@, old(uids).next).data + "\n"@
                    } else {
                        Seq::<char>::empty()
                    })
                },
            },
    {
        let dest_ok: bool = match x.headers.get("dest") {
            None => false,
            Some(d) => str_contains(d.as_str(), self.id.as_str()),
        };
        if !dest_ok {
            return Ok(());
        }
        match &mut self.plugin {
            None => {
                self.data.append(x.data.as_str());
                self.data.append("\n");
                Ok(())
            },
            Some(slot) => {
                if uids.next == u64::MAX {
                    return Err(SimError::UidExhausted);
                }
                let ghost x0 = x@;
                slot.recv(x, now);
                let outs = slot.tick(now, uids);
                let ghost all = outs@;
                let mut outs = outs;
                let mut i: usize = 0;
                while outs.len() > 0
                    invariant
                        all.len() <= 2,
                        i + outs@.len() == all.len(),
                        outs@ == all.skip(i as int),
                        all_outs_wf(all),
                        self.wf(),
                        *self == (Storage {
                            data: self.data,
                            plugin: self.plugin,
                            ..*old(self)
                        }),
                        old(self).plugin is Some,
                        self.plugin is Some,
                        self.plugin->Some_0.filter == filter_after(
                            old(self).plugin->Some_0.filter,
                            x0,
                        ),
                        all.len() == (if filter_emits_extra(old(self).plugin->Some_0.filter, x0) {
                            2int
                        } else {
                            1int
                        }),
                        all[0]@ == x0,
                        filter_emits_extra(old(self).plugin->Some_0.filter, x0) ==> all[1]@
                            == filter_extra_model(
                            old(self).plugin->Some_0.filter,
                            x0,
                            old(uids).next,
                        ),
                        uids.next >= old(uids).next,
                        uids.next <= old(uids).next + 1,
                        self.data@ == old(self).data@ + data_of(all.take(i as int)),
                    decreases outs@.len(),
                {
                    proof {
                        assert(all.skip(i as int)[0] == all[i as int]);
                        assert(all.skip(i as int).drop_first() =~= all.skip(i as int + 1));
                        assert(all.take(i as int + 1).drop_last() =~= all.take(i as int));
                    }
                    let out = outs.remove(0);
                    self.data.append(out.data.as_str());
                    self.data.append("\n");
                    proof {
                        assert(data_of(all.take(i as int + 1)) == data_of(all.take(i as int))
                            + all[i as int]@.data + "\n"@);
                        assert(self.data@ =~= old(self).data@ + data_of(all.take(i as int + 1)));
                    }
                    i = i + 1;
                }
                proof {
                    assert(all.take(all.len() as int) =~= all);
                    assert(self.data@ == old(self).data@ + data_of(all));
                    if filter_emits_extra(old(self).plugin->Some_0.filter, x0) {
                        let s1 = all.drop_last();
                        assert(s1.len() == 1);
                        assert(s1.drop_last().len() == 0);
                        assert(data_of(s1.drop_last()) == Seq::<char>::empty());
                        assert(s1.last() == all[0]);
                        assert(data_of(s1) == Seq::<char>::empty() + all[0]@.data + "\n"@);
                        assert(all.last() == all[1]);
                        assert(data_of(all) == data_of(s1) + all[1]@.data + "\n"@);
                        assert(self.data@ =~= old(self).data@ + x0.data + "\n"@ + (all[1]@.data
                            + "\n"@));
                    } else {
                        assert(all.drop_last().len() == 0);
                        assert(data_of(all.drop_last()) == Seq::<char>::empty());
                        assert(all.last() == all[0]);
                        assert(data_of(all) == Seq::<char>::empty() + all[0]@.data + "\n"@);
                        assert(self.data@ =~= old(self).data@ + x0.data + "\n"@
                            + Seq::<char>::empty());
                    }
                }
                Ok(())
            },
        }
    }

    /// The store never emits; it is a strict sink.
    pub fn tick(&mut self, _tick: u64) -> (r: Vec<Rpc>)
        ensures
            *final(self) == *old(self),
            r@.len() == 0,
    {
        Vec::new()
    }

    /// Tags the inbound message as an incoming request and stores it.
    pub fn recv(&mut self, rpc: Rpc, tick: u64, uids: &mut UidAllocator) -> (r: Result<
        (),
        SimError,
    >)
        requires
            old(self).wf(),
            rpc.wf(),
        ensures
            final(self).wf(),
            *final(self) == (Storage {
                data: final(self).data,
                plugin: final(self).plugin,
                ..*old(self)
            }),
            final(uids).next >= old(uids).next,
            final(uids).next <= old(uids).next + 1,
            old(self).data@.is_prefix_of(final(self).data@),
            old(self).plugin is None ==> final(self).plugin is None,
            r is Err ==> r->Err_0 is UidExhausted && old(uids).next == u64::MAX && final(uids).next == old(uids).next,
            old(uids).next < u64::MAX ==> r is Ok,
            !old(self).accepts(stored_tag(rpc@)) ==> final(self).data == old(self).data,
            (old(self).accepts(stored_tag(rpc@)) && old(self).plugin is None) ==> r is Ok
                && final(self).data@ == old(self).data@ + rpc@.data + "\n"@,
            match old(self).plugin {
                None => true,
                Some(slot) => (old(self).accepts(stored_tag(rpc@)) && old(uids).next < u64::MAX)
                    ==> {
                    &&& r is Ok
                    &&& final(self).plugin is Some
                    &&& final(self).plugin->Some_0.filter == filter_after(
                        slot.filter,
                        stored_tag(rpc@),
                    )
                    &&& final(self).data@ == old(self).data@ + rpc@.data + "\n"@ + (
                    if filter_emits_extra(slot.filter, stored_tag(rpc@)) {
                        filter_extra_model(slot.filter, stored_tag(rpc@), old(uids).next).data
                            + "\n"@
                    } else {
                        Seq::<char>::empty()
                    })
                },
            },
    {
        let mut rpc_to_store = rpc;
        rpc_to_store.headers.insert("direction", "request");
        rpc_to_store.headers.insert("location", "ingress");
        self.store(rpc_to_store, tick, uids)
    }

    /// The full log so far, or the aggregate the filter has built into it.
    pub fn query(&self) -> (r: String)
        ensures
            r@ == self.data@,
    {
        self.data.clone()
    }

    pub fn whoami(&self) -> (r: &String)
        ensures
            r == &self.id,
    {
        &self.id
    }

    pub fn add_connection(&mut self, neighbor: String)
        ensures
            final(self).neighbors@ == old(self).neighbors@.push(neighbor),
            *final(self) == (Storage { neighbors: final(self).neighbors, ..*old(self) }),
    {
        self.neighbors.push(neighbor);
    }

    pub fn neighbors(&self) -> (r: &Vec<String>)
        ensures
            r == &self.neighbors,
    {
        &self.neighbors
    }
}

pub open spec fn all_outs_wf(s: Seq<Rpc>) -> bool {
    forall|i: int| 0 <= i < s.len() ==> (#[trigger] s[i]).wf()
}

/// The concatenated payloads of a run of messages, newline-terminated each.
pub open spec fn data_of(s: Seq<Rpc>) -> Seq<char>
    decreases s.len(),
{
    if s.len() == 0 {
        Seq::<char>::empty()
    } else {
        data_of(s.drop_last()) + s.last()@.data + "\n"@
    }
}

} // verus!
