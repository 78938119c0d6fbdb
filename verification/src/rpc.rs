//! The message unit of the simulation: an opaque payload, a run-wide unique
//! correlation identifier, a metadata bag, and the path walked so far.
use crate::headers::Headers;
use crate::UidAllocator;
use vstd::prelude::*;

verus! {

/// The mathematical content of a message.
pub struct RpcModel {
    pub data: Seq<char>,
    pub uid: u64,
    pub headers: Map<Seq<char>, Seq<char>>,
    pub path: Seq<char>,
}

pub struct Rpc {
    pub data: String,
    pub uid: u64,
    pub headers: Headers,
    pub path: String,
}

impl View for Rpc {
    type V = RpcModel;

    open spec fn view(&self) -> RpcModel {
        RpcModel { data: self.data@, uid: self.uid, headers: self.headers@, path: self.path@ }
    }
}

impl Rpc {
    pub open spec fn wf(&self) -> bool {
        self.headers.wf()
    }

    /// A fresh message with an empty metadata bag; the identifier comes from
    /// the run's allocator, so it repeats nowhere in the run.
    pub fn new_rpc(data: &str, uids: &mut UidAllocator) -> (r: Rpc)
        requires
            old(uids).next < u64::MAX,
        ensures
            r.wf(),
            r@.data == data@,
            r@.uid == old(uids).next,
            r@.headers == Map::<Seq<char>, Seq<char>>::empty(),
            r@.path == Seq::<char>::empty(),
            final(uids).next == old(uids).next + 1,
    {
        Rpc {
            data: data.to_owned(),
            uid: uids.fresh(),
            headers: Headers::new(),
            path: String::new(),
        }
    }

    /// A fresh message whose sender is already recorded.
    pub fn new_with_src(data: &str, src: &str, uids: &mut UidAllocator) -> (r: Rpc)
        requires
            old(uids).next < u64::MAX,
        ensures
            r.wf(),
            r@.data == data@,
            r@.uid == old(uids).next,
            r@.headers == Map::<Seq<char>, Seq<char>>::empty().insert("src"@, src@),
            r@.path == Seq::<char>::empty(),
            final(uids).next == old(uids).next + 1,
    {
        let mut rpc = Rpc::new_rpc(data, uids);
        rpc.headers.insert("src", src);
        rpc
    }

    /// A fresh message with sender and destination recorded.
    pub fn new_with_src_dest(data: &str, src: &str, dst: &str, uids: &mut UidAllocator) -> (r: Rpc)
        requires
            old(uids).next < u64::MAX,
        ensures
            r.wf(),
            r@.data == data@,
            r@.uid == old(uids).next,
            r@.headers == Map::<Seq<char>, Seq<char>>::empty().insert("src"@, src@).insert(
                "dst"@,
                dst@,
            ),
            r@.path == Seq::<char>::empty(),
            final(uids).next == old(uids).next + 1,
    {
        let mut rpc = Rpc::new_with_src(data, src, uids);
        rpc.headers.insert("dst", dst);
        rpc
    }

    /// Appends one hop, separated by a space, to the recorded path.
    pub fn add_to_path(&mut self, hop: &str)
        ensures
            final(self)@.path == old(self)@.path + " "@ + hop@,
            final(self)@.data == old(self)@.data,
            final(self)@.uid == old(self)@.uid,
            final(self)@.headers == old(self)@.headers,
            final(self).wf() == old(self).wf(),
    {
        self.path.append(" ");
        self.path.append(hop);
    }

    /// An independent copy: same content, but nothing shared, so a later
    /// change to either message leaves the other as it was.
    pub fn duplicate(&self) -> (r: Rpc)
        ensures
            r@ == self@,
            r.wf() == self.wf(),
    {
        Rpc {
            data: self.data.clone(),
            uid: self.uid,
            headers: self.headers.duplicate(),
            path: self.path.clone(),
        }
    }
}

/// Fan-out independence: a duplicated message starts from an equal header
/// map, yet writing a header on the copy is invisible on the original — after
/// the write the two maps agree everywhere but at the written key, and the
/// original still holds whatever it held there.
pub proof fn lemma_fanout_independence(
    original: RpcModel,
    copy: RpcModel,
    k: Seq<char>,
    v: Seq<char>,
)
    requires
        copy.headers == original.headers,
    ensures
        copy.headers.insert(k, v)[k] == v,
        forall|k2: Seq<char>|
            k2 != k ==> (original.headers.contains_key(k2) <==> #[trigger] copy.headers.insert(
                k,
                v,
            ).contains_key(k2)),
        forall|k2: Seq<char>|
            k2 != k && original.headers.contains_key(k2) ==> #[trigger] copy.headers.insert(k, v)[
                k2] == original.headers[k2],
{
}

impl Clone for Rpc {
    /// Same contract as `duplicate`; this form satisfies the `Clone` bound the
    /// queue type asks of its items.
    fn clone(&self) -> (r: Rpc)
        ensures
            r@ == self@,
            r.wf() == self.wf(),
    {
        self.duplicate()
    }
}

} // verus!
