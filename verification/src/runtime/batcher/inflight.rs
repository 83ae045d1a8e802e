//! The requests in flight.

use std::collections::hash_map::Entry;
use std::collections::HashMap;

use vstd::prelude::*;
use vstd::std_specs::iter::IteratorSpec;

use crate::ir::types::BatchPolicy;
use crate::runtime::batcher::chunking::{chunk_count, chunk_size_of, plan_chunks, ChunkPlan};
use crate::runtime::types::{IncomingRequest, RequestId, TokenSender};

verus! {

#[derive(Debug, Clone, Copy, PartialEq, Eq, Structural)]
pub enum Phase {
    Prefill,
    Decode,
}

#[derive(Debug)]
pub struct InflightRequest {
    pub request: IncomingRequest,
    pub sender: TokenSender,
    pub phase: Phase,
    pub admitted_at_ms: u64,
    /// The prefill chunks, where the policy chunks prefill.
    pub chunks: Option<ChunkPlan>,
    pub output_tokens_emitted: u32,
    /// The tokens generated so far.
    pub generated_tokens: Vec<u32>,
}

/// The requests in flight, by id.
#[derive(Debug)]
pub struct InflightSet {
    pub by_id: HashMap<u64, InflightRequest>,
}

impl View for InflightSet {
    type V = Map<u64, InflightRequest>;

    open spec fn view(&self) -> Map<u64, InflightRequest> {
        self.by_id@
    }
}

/// The chunk plan that a request starts with.
pub open spec fn initial_chunks(request: IncomingRequest, policy: BatchPolicy) -> Option<ChunkPlan> {
    match policy {
        BatchPolicy::ContinuousChunked { .. } => {
            let n = request.prompt_tokens.len() as u32;
            let size = chunk_size_of(n, policy);
            Some(
                ChunkPlan {
                    chunk_size: size,
                    total_chunks: chunk_count(n as int, size as int) as u32,
                    next_chunk: 0,
                },
            )
        },
        _ => None,
    }
}

/// Whether an entry is that of a request just put in flight.
pub open spec fn fresh_entry(
    r: InflightRequest,
    request: IncomingRequest,
    sender: TokenSender,
    policy: BatchPolicy,
    now_ms: u64,
) -> bool {
    &&& r.request == request
    &&& r.sender == sender
    &&& r.phase == Phase::Prefill
    &&& r.admitted_at_ms == now_ms
    &&& r.chunks == initial_chunks(request, policy)
    &&& r.output_tokens_emitted == 0
    &&& r.generated_tokens@.len() == 0
}

/// Whether the ids are all those in flight, each once, and the requests are theirs in the
/// same order.
pub open spec fn lists(
    ids: Seq<u64>,
    inflight: Map<u64, InflightRequest>,
    requests: Seq<&InflightRequest>,
) -> bool {
    &&& ids.no_duplicates()
    &&& ids.to_set() == inflight.dom()
    &&& requests.len() == ids.len()
    &&& forall|i: int| 0 <= i < ids.len() ==> *(#[trigger] requests[i]) == inflight[ids[i]]
}

impl Default for InflightSet {
    fn default() -> (res: Self)
        ensures
            res@ == Map::<u64, InflightRequest>::empty(),
    {
        InflightSet { by_id: HashMap::new() }
    }
}

impl InflightSet {
    pub fn new() -> (res: Self)
        ensures
            res@ == Map::<u64, InflightRequest>::empty(),
    {
        InflightSet { by_id: HashMap::new() }
    }

    /// Puts a request in flight, in prefill.
    pub fn insert(
        &mut self,
        request: IncomingRequest,
        sender: TokenSender,
        policy: BatchPolicy,
        admitted_at_ms: u64,
    )
        ensures
            final(self)@.dom() == old(self)@.dom().insert(request.id.0),
            fresh_entry(final(self)@[request.id.0], request, sender, policy, admitted_at_ms),
            forall|id: u64|
                id != request.id.0 && old(self)@.contains_key(id) ==> #[trigger] final(self)@[id]
                    == old(self)@[id],
    {
        broadcast use vstd::std_specs::hash::group_hash_axioms;

        let chunks = match policy {
            BatchPolicy::ContinuousChunked { .. } => Some(plan_chunks(&request, policy)),
            _ => None,
        };
        let id: u64 = request.id.0;
        let entry = InflightRequest {
            request,
            sender,
            phase: Phase::Prefill,
            admitted_at_ms,
            chunks,
            output_tokens_emitted: 0,
            generated_tokens: Vec::new(),
        };
        self.by_id.insert(id, entry);
        assert(self@.dom() =~= old(self)@.dom().insert(id));
    }

    /// Takes a request out of flight.
    pub fn remove(&mut self, id: RequestId) -> (res: Option<InflightRequest>)
        ensures
            final(self)@ == old(self)@.remove(id.0),
            res == if old(self)@.contains_key(id.0) {
                Some(old(self)@[id.0])
            } else {
                None
            },
    {
        broadcast use vstd::std_specs::hash::group_hash_axioms;

        let r = self.by_id.remove(&id.0);
        assert(self@ =~= old(self)@.remove(id.0));
        r
    }

    pub fn get(&self, id: RequestId) -> (res: Option<&InflightRequest>)
        ensures
            match res {
                Some(r) => self@.contains_key(id.0) && *r == self@[id.0],
                None => !self@.contains_key(id.0),
            },
    {
        broadcast use vstd::std_specs::hash::group_hash_axioms;

        self.by_id.get(&id.0)
    }

    /// The request with an id, to be changed in place.
    pub fn get_mut(&mut self, id: RequestId) -> (res: Option<&mut InflightRequest>)
        ensures
            match res {
                Some(r) => {
                    &&& old(self)@.contains_key(id.0)
                    &&& *r == old(self)@[id.0]
                    &&& final(self)@ == old(self)@.insert(id.0, *final(r))
                },
                None => !old(self)@.contains_key(id.0) && final(self)@ == old(self)@,
            },
    {
        broadcast use vstd::std_specs::hash::group_hash_axioms;

        let ghost before = self@;
        match self.by_id.entry(id.0) {
            Entry::Occupied(entry) => Some(entry.into_mut()),
            Entry::Vacant(_) => {
                assert(before.remove(id.0) =~= before);
                None
            },
        }
    }

    /// The requests in flight, in no particular order.
    pub fn iter(&self) -> (res: Vec<&InflightRequest>)
        ensures
            exists|ids: Seq<u64>| #[trigger] lists(ids, self@, res@),
    {
        broadcast use vstd::std_specs::hash::group_hash_axioms;

        let mut out: Vec<&InflightRequest> = Vec::new();
        let ghost all = vstd::std_specs::hash::spec_keys_iter(&self.by_id).remaining();
        for k in it: self.by_id.keys()
            invariant
                it.seq() == all,
                all.no_duplicates(),
                all.unref().to_set() == self@.dom(),
                out@.len() == it.index(),
                forall|j: int|
                    0 <= j < it.index() ==> *(#[trigger] out@[j]) == self@[*all[j]],
        {
            proof {
                assert(all.unref()[it.index() as int] == *k);
                assert(all.unref().to_set().contains(*k));
            }
            if let Some(r) = self.by_id.get(k) {
                out.push(r);
            }
        }
        proof {
            let ids = all.unref();
            assert forall|i: int, j: int| 0 <= i < j < ids.len() implies ids[i] != ids[j] by {
                assert(all[i] != all[j]);
            }
            assert(lists(ids, self@, out@));
        }
        out
    }

    /// The ids of the requests in a phase, in no particular order.
    pub fn ids_in(&self, phase: Phase) -> (res: Vec<RequestId>)
        ensures
            res@.no_duplicates(),
            forall|id: RequestId|
                #[trigger] res@.contains(id) <==> self@.contains_key(id.0) && self@[id.0].phase
                    == phase,
    {
        broadcast use vstd::std_specs::hash::group_hash_axioms;

        let mut out: Vec<RequestId> = Vec::new();
        let ghost all = vstd::std_specs::hash::spec_keys_iter(&self.by_id).remaining();
        for k in it: self.by_id.keys()
            invariant
                it.seq() == all,
                all.no_duplicates(),
                all.unref().to_set() == self@.dom(),
                out@.no_duplicates(),
                forall|id: RequestId|
                    #[trigger] out@.contains(id) <==> exists|j: int|
                        0 <= j < it.index() && *(#[trigger] all[j]) == id.0
                            && self@.contains_key(id.0) && self@[id.0].phase == phase,
        {
            let ghost i = it.index() as int;
            let id = RequestId(*k);
            proof {
                assert(all[i] == k);
                assert(all.unref()[i] == *k);
                assert(all.unref().to_set().contains(*k));
                assert(self@.contains_key(*k));
                assert(!out@.contains(id)) by {
                    if out@.contains(id) {
                        let j = choose|j: int|
                            0 <= j < i && *(#[trigger] all[j]) == id.0 && self@.contains_key(id.0)
                                && self@[id.0].phase == phase;
                        assert(all[j] == all[i]);
                    }
                }
            }
            let ghost before = out@;
            let mut here = false;
            if let Some(r) = self.by_id.get(k) {
                here = r.phase == phase;
            }
            if here {
                out.push(id);
            }
            proof {
                assert forall|o: RequestId| #[trigger] out@.contains(o) <==> exists|j: int|
                    0 <= j < i + 1 && *(#[trigger] all[j]) == o.0 && self@.contains_key(o.0)
                        && self@[o.0].phase == phase by {
                    if out@.contains(o) && !before.contains(o) {
                        let q = out@.index_of(o);
                        if q < before.len() {
                            assert(before[q] == o);
                        }
                        assert(o == id);
                        assert(*all[i] == o.0);
                    }
                    if before.contains(o) {
                        let q = before.index_of(o);
                        assert(out@[q] == o);
                    }
                    if exists|j: int|
                        0 <= j < i + 1 && *(#[trigger] all[j]) == o.0 && self@.contains_key(o.0)
                            && self@[o.0].phase == phase {
                        let j = choose|j: int|
                            0 <= j < i + 1 && *(#[trigger] all[j]) == o.0 && self@.contains_key(
                                o.0,
                            ) && self@[o.0].phase == phase;
                        if j == i {
                            assert(o == id);
                            assert(out@[before.len() as int] == id);
                        } else {
                            assert(before.contains(o));
                        }
                    }
                }
            }
        }
        proof {
            assert forall|id: RequestId| #[trigger] out@.contains(id) <==> self@.contains_key(id.0)
                && self@[id.0].phase == phase by {
                if self@.contains_key(id.0) && self@[id.0].phase == phase {
                    assert(all.unref().to_set().contains(id.0));
                    let j = all.unref().index_of(id.0);
                    assert(*all[j] == id.0);
                }
            }
        }
        out
    }

    pub fn len(&self) -> (res: usize)
        ensures
            res == self@.len(),
    {
        broadcast use vstd::std_specs::hash::group_hash_axioms;

        self.by_id.len()
    }

    pub fn is_empty(&self) -> (res: bool)
        ensures
            res == (self@.len() == 0),
    {
        self.len() == 0
    }
}

} // verus!
