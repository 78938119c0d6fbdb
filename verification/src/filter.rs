//! The filter boundary of an element: a pluggable transformation applied to
//! messages at ingress and egress.  Behaviors are resolved from a registry of
//! kinds at configuration time; the hosting element sees only `recv`/`tick`.
use crate::numstr::{all_digits, spec_digits, spec_val, parse_u64, u64_to_string};
use crate::rpc::{Rpc, RpcModel};
use crate::strutil::{spec_contains, str_contains, str_eq};
use crate::UidAllocator;
use vstd::prelude::*;

verus! {

/// The registered filter behaviors.
#[derive(Clone, Copy, Debug, PartialEq, Eq, Structural)]
pub enum FilterKind {
    /// Counts gathered responses and reports the count to storage.
    Count,
    /// Aggregates numeric payloads into a running average.
    Average,
}

pub open spec fn hdr_is(h: Map<Seq<char>, Seq<char>>, k: Seq<char>, v: Seq<char>) -> bool {
    h.contains_key(k) && h[k] == v
}

pub open spec fn response_at_ingress(x: RpcModel) -> bool {
    hdr_is(x.headers, "direction"@, "response"@) && hdr_is(x.headers, "location"@, "ingress"@)
}

pub open spec fn response_at_egress(x: RpcModel) -> bool {
    hdr_is(x.headers, "direction"@, "response"@) && hdr_is(x.headers, "location"@, "egress"@)
}

pub open spec fn request_at_ingress(x: RpcModel) -> bool {
    hdr_is(x.headers, "direction"@, "request"@) && hdr_is(x.headers, "location"@, "ingress"@)
}

/// The message as a filter sees it: the same content with its boundary side
/// recorded under `location`.
pub open spec fn tagged(x: RpcModel, loc: Seq<char>) -> RpcModel {
    RpcModel { headers: x.headers.insert("location"@, loc), ..x }
}

/// The reference counting filter.  It watches the responses its host gathers
/// at ingress, and when the host forwards a response after gathering two or
/// more, it also reports the gathered count to the `storage` element.
pub struct CountFilter {
    pub workload: String,
    pub responses_seen: u32,
}

/// The counter after one message passes: gathered responses bump it, up to
/// the counter's ceiling.
pub open spec fn count_after(c: u32, x: RpcModel) -> u32 {
    if response_at_ingress(x) {
        if c < u32::MAX {
            (c + 1) as u32
        } else {
            c
        }
    } else {
        c
    }
}

/// Whether passing `x` makes the counting filter report to storage.
pub open spec fn count_reports(c: u32, x: RpcModel) -> bool {
    response_at_egress(x) && c >= 2
}

impl CountFilter {
    pub fn new(workload: String) -> (r: CountFilter)
        ensures
            r.workload == workload,
            r.responses_seen == 0,
    {
        CountFilter { workload, responses_seen: 0 }
    }

    /// Passes `x` through unchanged; counts it when it is a gathered response,
    /// and reports the gathered count when the condition above holds.
    pub fn execute(&mut self, x: &Rpc, uids: &mut UidAllocator) -> (out: Vec<Rpc>)
        requires
            x.wf(),
            old(uids).next < u64::MAX,
        ensures
            final(self).workload == old(self).workload,
            final(self).responses_seen == count_after(old(self).responses_seen, x@),
            out@.len() == if count_reports(old(self).responses_seen, x@) {
                2int
            } else {
                1int
            },
            out@[0]@ == x@,
            out@[0].wf(),
            count_reports(old(self).responses_seen, x@) ==> out@[1].wf() && out@[1]@
                == count_report_model(old(self).responses_seen, old(self).workload@, old(uids).next),
            final(uids).next == if count_reports(old(self).responses_seen, x@) {
                old(uids).next + 1
            } else {
                old(uids).next as int
            },
    {
        let mut out: Vec<Rpc> = Vec::new();
        let is_response = match x.headers.get("direction") {
            Some(d) => str_eq(d.as_str(), "response"),
            None => false,
        };
        let at_ingress = match x.headers.get("location") {
            Some(l) => str_eq(l.as_str(), "ingress"),
            None => false,
        };
        let at_egress = match x.headers.get("location") {
            Some(l) => str_eq(l.as_str(), "egress"),
            None => false,
        };
        out.push(x.duplicate());
        if is_response && at_egress && self.responses_seen >= 2 {
            let data = u64_to_string(self.responses_seen as u64);
            let mut report = Rpc::new_rpc(data.as_str(), uids);
            report.headers.insert("src", self.workload.as_str());
            report.headers.insert("dest", "storage");
            report.headers.insert("direction", "request");
            out.push(report);
        }
        if is_response && at_ingress && self.responses_seen < u32::MAX {
            self.responses_seen = self.responses_seen + 1;
        }
        out
    }
}

/// What the counting filter reports: the count as text, addressed from the
/// hosting workload to storage.
pub open spec fn count_report_model(c: u32, workload: Seq<char>, uid: u64) -> RpcModel {
    RpcModel {
        data: spec_digits(c as nat),
        uid,
        headers: Map::<Seq<char>, Seq<char>>::empty().insert("src"@, workload).insert(
            "dest"@,
            "storage"@,
        ).insert("direction"@, "request"@),
        path: Seq::<char>::empty(),
    }
}

/// The aggregation filter for storage: each incoming numeric request joins a
/// running total, and each accepted sample is echoed together with a line
/// reporting the integer average so far.
pub struct AvgFilter {
    pub total: u64,
    pub count_n: u64,
}

/// A message the aggregator samples: an incoming request whose payload is
/// decimal text denoting a representable number.
pub open spec fn avg_sample(x: RpcModel) -> bool {
    request_at_ingress(x) && x.data.len() > 0 && all_digits(x.data) && spec_val(x.data)
        <= u64::MAX
}

/// A sample is accepted while the running totals can still take it.
pub open spec fn avg_accepts(total: u64, count_n: u64, x: RpcModel) -> bool {
    avg_sample(x) && total + spec_val(x.data) <= u64::MAX && count_n < u64::MAX
}

/// The average line emitted after accepting `x`.
pub open spec fn avg_report_data(total: u64, count_n: u64, x: RpcModel) -> Seq<char> {
    "avg: "@ + spec_digits((total + spec_val(x.data)) as nat / (count_n + 1) as nat)
}

impl AvgFilter {
    pub fn new() -> (r: AvgFilter)
        ensures
            r.total == 0,
            r.count_n == 0,
    {
        AvgFilter { total: 0, count_n: 0 }
    }

    /// Passes `x` through; an accepted sample also updates the totals and
    /// emits the average line.  A payload that is not a number, or one the
    /// totals cannot take, leaves the state as it was.
    pub fn execute(&mut self, x: &Rpc, uids: &mut UidAllocator) -> (out: Vec<Rpc>)
        requires
            x.wf(),
            old(uids).next < u64::MAX,
        ensures
            avg_accepts(old(self).total, old(self).count_n, x@) ==> final(self).total == old(self).total + spec_val(x@.data) && final(self).count_n == old(self).count_n + 1,
            !avg_accepts(old(self).total, old(self).count_n, x@) ==> final(self).total == old(self).total && final(self).count_n == old(self).count_n,
            out@.len() == if avg_accepts(old(self).total, old(self).count_n, x@) {
                2int
            } else {
                1int
            },
            out@[0]@ == x@,
            out@[0].wf(),
            avg_accepts(old(self).total, old(self).count_n, x@) ==> out@[1].wf() && out@[1]@.data
                == avg_report_data(old(self).total, old(self).count_n, x@) && out@[1]@.uid == old(uids).next && out@[1]@.headers == Map::<Seq<char>, Seq<char>>::empty() && out@[1]@.path
                == Seq::<char>::empty(),
            final(uids).next == if avg_accepts(old(self).total, old(self).count_n, x@) {
                old(uids).next + 1
            } else {
                old(uids).next as int
            },
    {
        let mut out: Vec<Rpc> = Vec::new();
        out.push(x.duplicate());
        let is_request = match x.headers.get("direction") {
            Some(d) => str_eq(d.as_str(), "request"),
            None => false,
        };
        let at_ingress = match x.headers.get("location") {
            Some(l) => str_eq(l.as_str(), "ingress"),
            None => false,
        };
        if is_request && at_ingress {
            if let Some(v) = parse_u64(self_data(x)) {
                if let Some(new_total) = self.total.checked_add(v) {
                    if self.count_n < u64::MAX {
                        self.total = new_total;
                        self.count_n = self.count_n + 1;
                        let avg = self.total / self.count_n;
                        let mut line = "avg: ".to_owned();
                        let digits = u64_to_string(avg);
                        line.append(digits.as_str());
                        let mut report = Rpc::new_rpc("", uids);
                        report.data = line;
                        out.push(report);
                    }
                }
            }
        }
        out
    }
}

fn self_data(x: &Rpc) -> (r: &str)
    ensures
        r@ == x@.data,
{
    x.data.as_str()
}

/// A filter behavior together with its state.
pub enum Filter {
    Count(CountFilter),
    Average(AvgFilter),
}

/// The filter state after one message passes.
pub open spec fn filter_after(f: Filter, x: RpcModel) -> Filter {
    match f {
        Filter::Count(c) => Filter::Count(
            CountFilter { workload: c.workload, responses_seen: count_after(c.responses_seen, x) },
        ),
        Filter::Average(a) => {
            if avg_accepts(a.total, a.count_n, x) {
                Filter::Average(
                    AvgFilter {
                        total: (a.total + spec_val(x.data)) as u64,
                        count_n: (a.count_n + 1) as u64,
                    },
                )
            } else {
                f
            }
        },
    }
}

/// Whether passing `x` emits a second message besides the pass-through.
pub open spec fn filter_emits_extra(f: Filter, x: RpcModel) -> bool {
    match f {
        Filter::Count(c) => count_reports(c.responses_seen, x),
        Filter::Average(a) => avg_accepts(a.total, a.count_n, x),
    }
}

/// The second message emitted, when one is.
pub open spec fn filter_extra_model(f: Filter, x: RpcModel, uid: u64) -> RpcModel {
    match f {
        Filter::Count(c) => count_report_model(c.responses_seen, c.workload@, uid),
        Filter::Average(a) => RpcModel {
            data: avg_report_data(a.total, a.count_n, x),
            uid,
            headers: Map::<Seq<char>, Seq<char>>::empty(),
            path: Seq::<char>::empty(),
        },
    }
}

/// The filter state after the whole buffer is processed, newest first.
pub open spec fn slot_filter_after(f: Filter, stored: Seq<Rpc>) -> Filter
    decreases stored.len(),
{
    if stored.len() == 0 {
        f
    } else {
        slot_filter_after(filter_after(f, stored.last()@), stored.drop_last())
    }
}

/// How many extra messages processing the whole buffer emits.
pub open spec fn slot_extras(f: Filter, stored: Seq<Rpc>) -> int
    decreases stored.len(),
{
    if stored.len() == 0 {
        0
    } else {
        (if filter_emits_extra(f, stored.last()@) {
            1int
        } else {
            0int
        }) + slot_extras(filter_after(f, stored.last()@), stored.drop_last())
    }
}

/// Everything processing the whole buffer emits, newest buffered message
/// first, each pass-through followed by its extra message when there is one.
pub open spec fn slot_outputs(f: Filter, stored: Seq<Rpc>, uid: int) -> Seq<RpcModel>
    decreases stored.len(),
{
    if stored.len() == 0 {
        Seq::<RpcModel>::empty()
    } else {
        let x = stored.last();
        if filter_emits_extra(f, x@) {
            seq![x@, filter_extra_model(f, x@, uid as u64)] + slot_outputs(
                filter_after(f, x@),
                stored.drop_last(),
                uid + 1,
            )
        } else {
            seq![x@] + slot_outputs(filter_after(f, x@), stored.drop_last(), uid)
        }
    }
}

pub open spec fn outputs_wf(s: Seq<Rpc>) -> bool {
    forall|i: int| 0 <= i < s.len() ==> (#[trigger] s[i]).wf()
}

/// The mount point of a filter on an element: it buffers received messages
/// and, when ticked, runs each through the hosted behavior.  It plays the
/// part the dynamically loaded plugin played, behind the same `recv`/`tick`
/// surface.
pub struct FilterSlot {
    pub id: String,
    pub neighbor: Vec<String>,
    pub stored: Vec<Rpc>,
    pub filter: Filter,
}

impl FilterSlot {
    pub open spec fn wf(&self) -> bool {
        forall|i: int| 0 <= i < self.stored@.len() ==> (#[trigger] self.stored@[i]).wf()
    }

    /// Resolves a filter slot from the registry.  The hosting workload's name
    /// is the slot identity with any `_plugin` suffix stripped, as the
    /// loading convention named plugins after their hosts.
    pub fn new(id: &str, kind: FilterKind) -> (r: FilterSlot)
        ensures
            r.wf(),
            r.id@ == id@,
            r.neighbor@.len() == 0,
            r.stored@.len() == 0,
            match r.filter {
                Filter::Count(c) => kind == FilterKind::Count && c.responses_seen == 0 && c.workload@
                    == if spec_contains(id@, "_plugin"@) {
                    id@.subrange(0, id@.len() - 7)
                } else {
                    id@
                },
                Filter::Average(a) => kind == FilterKind::Average && a.total == 0 && a.count_n == 0,
            },
    {
        proof {
            reveal_strlit("_plugin");
        }
        let workload: String = if str_contains(id, "_plugin") {
            let n = id.unicode_len();
            proof {
                let i = choose|i: int|
                    0 <= i && i + "_plugin"@.len() <= id@.len() && #[trigger] id@.subrange(
                        i,
                        i + "_plugin"@.len() as int,
                    ) =~= "_plugin"@;
                assert(id@.len() >= 7);
            }
            id.substring_char(0, n - 7).to_owned()
        } else {
            id.to_owned()
        };
        let filter = match kind {
            FilterKind::Count => Filter::Count(CountFilter::new(workload)),
            FilterKind::Average => Filter::Average(AvgFilter::new()),
        };
        FilterSlot { id: id.to_owned(), neighbor: Vec::new(), stored: Vec::new(), filter }
    }

    /// Buffers one message for the next tick.
    pub fn recv(&mut self, rpc: Rpc, _tick: u64)
        requires
            old(self).wf(),
            rpc.wf(),
        ensures
            final(self).wf(),
            final(self).stored@ == old(self).stored@.push(rpc),
            final(self).id == old(self).id,
            final(self).neighbor == old(self).neighbor,
            final(self).filter == old(self).filter,
    {
        self.stored.push(rpc);
    }

    /// Runs one buffered message through the hosted behavior.
    pub fn execute(&mut self, input: &Rpc, uids: &mut UidAllocator) -> (out: Vec<Rpc>)
        requires
            old(self).wf(),
            input.wf(),
            old(uids).next < u64::MAX,
        ensures
            final(self).wf(),
            final(self).id == old(self).id,
            final(self).neighbor == old(self).neighbor,
            final(self).stored == old(self).stored,
            final(self).filter == filter_after(old(self).filter, input@),
            out@.len() == if filter_emits_extra(old(self).filter, input@) {
                2int
            } else {
                1int
            },
            out@[0]@ == input@,
            out@[0].wf(),
            filter_emits_extra(old(self).filter, input@) ==> out@[1].wf() && out@[1]@
                == filter_extra_model(old(self).filter, input@, old(uids).next),
            final(uids).next == if filter_emits_extra(old(self).filter, input@) {
                old(uids).next + 1
            } else {
                old(uids).next as int
            },
    {
        match &mut self.filter {
            Filter::Count(c) => c.execute(input, uids),
            Filter::Average(a) => a.execute(input, uids),
        }
    }

    /// Processes everything buffered, newest first, and returns the outputs
    /// in processing order; a slot wired to no neighbor sinks them.
    pub fn tick(&mut self, _tick: u64, uids: &mut UidAllocator) -> (out: Vec<Rpc>)
        requires
            old(self).wf(),
            old(uids).next + old(self).stored@.len() <= u64::MAX,
            old(uids).next < u64::MAX,
        ensures
            final(self).wf(),
            final(self).id == old(self).id,
            final(self).neighbor == old(self).neighbor,
            final(self).stored@.len() == 0,
            outputs_wf(out@),
            final(uids).next >= old(uids).next,
            final(uids).next <= old(uids).next + old(self).stored@.len(),
            final(self).filter == slot_filter_after(old(self).filter, old(self).stored@),
            final(uids).next as int == old(uids).next + slot_extras(
                old(self).filter,
                old(self).stored@,
            ),
            old(self).neighbor@.len() > 0 ==> out@.len() == slot_outputs(
                old(self).filter,
                old(self).stored@,
                old(uids).next as int,
            ).len() && (forall|j: int|
                0 <= j < out@.len() ==> (#[trigger] out@[j])@ == slot_outputs(
                    old(self).filter,
                    old(self).stored@,
                    old(uids).next as int,
                )[j]),
            old(self).neighbor@.len() == 0 ==> out@.len() == 0,
            old(self).stored@.len() == 0 ==> final(self).filter == old(self).filter && out@.len()
                == 0 && final(uids).next == old(uids).next,
            old(self).stored@.len() == 1 ==> final(self).filter == filter_after(
                old(self).filter,
                old(self).stored@[0]@,
            ) && final(uids).next == if filter_emits_extra(
                old(self).filter,
                old(self).stored@[0]@,
            ) {
                old(uids).next + 1
            } else {
                old(uids).next as int
            },
            old(self).stored@.len() == 1 && old(self).neighbor@.len() > 0 ==> out@.len() == (
            if filter_emits_extra(old(self).filter, old(self).stored@[0]@) {
                2int
            } else {
                1int
            }) && out@[0]@ == old(self).stored@[0]@ && out@[0].wf() && (filter_emits_extra(
                old(self).filter,
                old(self).stored@[0]@,
            ) ==> out@[1].wf() && out@[1]@ == filter_extra_model(
                old(self).filter,
                old(self).stored@[0]@,
                old(uids).next,
            )),
            old(self).stored@.len() == 1 && old(self).neighbor@.len() == 0 ==> out@.len() == 0,
    {
        let ghost n0 = old(self).stored@.len();
        let ghost f0 = old(self).filter;
        let ghost st0 = old(self).stored@;
        let ghost u0 = old(uids).next as int;
        let ghost full = slot_outputs(f0, st0, u0);
        let n0_exec = self.stored.len();
        let mut out: Vec<Rpc> = Vec::new();
        let mut done: usize = 0;
        while self.stored.len() > 0
            invariant
                n0 == n0_exec,
                slot_filter_after(f0, st0) == slot_filter_after(self.filter, self.stored@),
                u0 + slot_extras(f0, st0) == uids.next as int + slot_extras(
                    self.filter,
                    self.stored@,
                ),
                old(self).neighbor@.len() > 0 ==> out@.len() + slot_outputs(
                    self.filter,
                    self.stored@,
                    uids.next as int,
                ).len() == full.len() && (forall|j: int|
                    0 <= j < out@.len() ==> (#[trigger] out@[j])@ == full[j]) && slot_outputs(
                    self.filter,
                    self.stored@,
                    uids.next as int,
                ) == full.skip(out@.len() as int),
                old(self).neighbor@.len() == 0 ==> out@.len() == 0,
                self.wf(),
                self.id == old(self).id,
                self.neighbor == old(self).neighbor,
                done + self.stored@.len() == n0,
                done <= n0,
                n0 == old(self).stored@.len(),
                outputs_wf(out@),
                uids.next >= old(uids).next,
                uids.next <= old(uids).next + done,
                old(uids).next + n0 <= u64::MAX,
                done == 0 ==> self.filter == old(self).filter && out@.len() == 0 && uids.next
                    == old(uids).next && self.stored == old(self).stored,
                (n0 == 1 && done == 1) ==> self.filter == filter_after(
                    old(self).filter,
                    old(self).stored@[0]@,
                ) && uids.next == (if filter_emits_extra(
                    old(self).filter,
                    old(self).stored@[0]@,
                ) {
                    old(uids).next + 1
                } else {
                    old(uids).next as int
                }),
                (n0 == 1 && done == 1 && old(self).neighbor@.len() > 0) ==> out@.len() == (
                if filter_emits_extra(old(self).filter, old(self).stored@[0]@) {
                    2int
                } else {
                    1int
                }) && out@[0]@ == old(self).stored@[0]@ && out@[0].wf() && (filter_emits_extra(
                    old(self).filter,
                    old(self).stored@[0]@,
                ) ==> out@[1].wf() && out@[1]@ == filter_extra_model(
                    old(self).filter,
                    old(self).stored@[0]@,
                    old(uids).next,
                )),
                (n0 == 1 && done == 1 && old(self).neighbor@.len() == 0) ==> out@.len() == 0,
            decreases self.stored@.len(),
        {
            let ghost fi = self.filter;
            let ghost sti = self.stored@;
            let ghost ui = uids.next as int;
            proof {
                assert(slot_filter_after(fi, sti) == slot_filter_after(
                    filter_after(fi, sti.last()@),
                    sti.drop_last(),
                ));
                assert(slot_extras(fi, sti) == (if filter_emits_extra(fi, sti.last()@) {
                    1int
                } else {
                    0int
                }) + slot_extras(filter_after(fi, sti.last()@), sti.drop_last()));
                assert(slot_outputs(fi, sti, ui) == (if filter_emits_extra(fi, sti.last()@) {
                    seq![sti.last()@, filter_extra_model(fi, sti.last()@, ui as u64)]
                } else {
                    seq![sti.last()@]
                }) + slot_outputs(
                    filter_after(fi, sti.last()@),
                    sti.drop_last(),
                    if filter_emits_extra(fi, sti.last()@) {
                        ui + 1
                    } else {
                        ui
                    },
                ));
            }
            let input = match self.stored.pop() {
                Some(input) => input,
                None => {
                    assert(false);
                    return out;
                },
            };
            let mut produced = self.execute(&input, uids);
            if self.neighbor.len() > 0 {
                let ghost out0 = out@;
                let ghost prod0 = produced@;
                proof {
                    if old(self).neighbor@.len() > 0 {
                        assert(slot_outputs(fi, sti, ui) == full.skip(out0.len() as int));
                        assert forall|t: int| 0 <= t < prod0.len() implies (
                        #[trigger] prod0[t])@ == full[out0.len() + t] by {
                            assert(full[out0.len() + t] == full.skip(out0.len() as int)[t]);
                        }
                        assert(slot_outputs(self.filter, self.stored@, uids.next as int)
                            =~= full.skip(out0.len() as int).skip(prod0.len() as int));
                        assert(full.skip(out0.len() as int).skip(prod0.len() as int) =~= full.skip(
                            out0.len() as int + prod0.len() as int,
                        ));
                    }
                }
                while produced.len() > 0
                    invariant
                        out@ + produced@ =~= out0 + prod0,
                        outputs_wf(out@),
                        outputs_wf(produced@),
                        out@.len() + produced@.len() == out0.len() + prod0.len(),
                        forall|t: int| 0 <= t < out@.len() ==> out@[t] == (out0 + prod0)[t],
                    decreases produced@.len(),
                {
                    proof {
                        assert(out@.push(produced@[0]) + produced@.drop_first() =~= out@
                            + produced@);
                    }
                    let x = produced.remove(0);
                    out.push(x);
                }
                proof {
                    assert(out@ =~= out0 + prod0);
                }
            }
            done = done + 1;
        }
        out
    }

    /// Points the slot at its hosting element, replacing any earlier wiring.
    pub fn add_connection(&mut self, neighbor: String)
        ensures
            final(self).neighbor@.len() == 1,
            final(self).neighbor@[0] == neighbor,
            final(self).id == old(self).id,
            final(self).stored == old(self).stored,
            final(self).filter == old(self).filter,
            final(self).wf() == old(self).wf(),
    {
        if self.neighbor.len() > 0 {
            self.neighbor.clear();
        }
        self.neighbor.push(neighbor);
        proof {
            assert(self.stored@ =~= old(self).stored@);
        }
    }

    pub fn whoami(&self) -> (r: &String)
        ensures
            r == &self.id,
    {
        &self.id
    }
}

} // verus!
