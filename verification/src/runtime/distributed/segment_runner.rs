//! One device's segments and their handoff store.
//!
//! Tensor names are interned to ids once; the store is indexed by id. For each input and
//! output of a segment the runner decides what the compute runtime is to do with it, from
//! the tensor's kind and the store's state. The caller performs what was decided and
//! reports what came of it.

use std::collections::HashMap;

use vstd::prelude::*;

use crate::ieee::Ieee32;
use crate::runtime::distributed::handoff::{
    bf16_handle, classify_handoff, handle_of, handoff_kind, unknown_tensor, DeviceTensorHandle,
    HandoffKind, RankExecError,
};
use crate::runtime::distributed::rank_plan::HandoffId;
use crate::text::{decimal, push_decimal, same};

verus! {

/// Bytes of one element of the device-resident KV cache.
pub const KV_DEVICE_ELEM_BYTES: usize = 4;

/// What the runner knows of a compiled segment.
#[derive(Debug)]
pub struct SegmentSpec {
    pub input_names: Vec<String>,
    pub output_names: Vec<String>,
    /// The segment's weights and their shapes.
    pub weight_names: Vec<(String, Vec<usize>)>,
    /// The element counts of its KV cache buffers.
    pub kv_cache_sizes: Vec<(String, usize)>,
}

/// The handoff store of one device.
#[derive(Debug)]
pub struct SegmentRunner {
    pub segments: Vec<SegmentSpec>,
    /// By id: the tensor's name.
    pub names: Vec<String>,
    /// By id: the tensor's kind.
    pub kind: Vec<HandoffKind>,
    /// By id: the value on the host.
    pub f32_slots: Vec<Option<Vec<Ieee32>>>,
    /// By id: the integer value on the host.
    pub i32_slots: Vec<Option<Vec<i32>>>,
    /// By id: the buffer on the device.
    pub device_slots: Vec<Option<DeviceTensorHandle>>,
    /// By id: the base of the KV cache buffer on the device.
    pub kv_device_base: Vec<Option<u64>>,
    /// By id: the element count of the KV cache buffer.
    pub kv_full_elems: Vec<Option<usize>>,
    pub segment_inputs: Vec<Vec<HandoffId>>,
    pub segment_outputs: Vec<Vec<HandoffId>>,
    /// Names of the tensors that must stay on the host.
    pub host_tensors: Vec<String>,
    pub position: usize,
    /// Whether KV outputs are kept in the store, as a batched prefill needs it.
    pub prefill_capture: bool,
    /// Whether a step is being captured or replayed as one graph.
    pub capturing: bool,
    /// Host outputs that stay on the device while capturing.
    pub capture_passthrough: Vec<HandoffId>,
    pub input_tokens_id: Option<HandoffId>,
    pub position_id: Option<HandoffId>,
    /// Whether each request has KV buffers of its own.
    pub paged_device_kv: bool,
    pub active_request: Option<u64>,
    /// Per request, its KV buffers by id.
    pub kv_req_bufs: HashMap<u64, Vec<Option<u64>>>,
    /// Rows that one forward advances.
    pub decode_batch: usize,
    /// Whether new KV entries are appended by a device kernel.
    pub device_kv: bool,
    /// Whether inputs are fed even while capturing.
    pub no_skip: bool,
}

/// The texts of some names.
pub open spec fn name_views(names: Seq<String>) -> Seq<Seq<char>> {
    names.map_values(|s: String| s@)
}

/// Whether some ids are the interned names.
pub open spec fn ids_name(names: Seq<Seq<char>>, ids: Seq<HandoffId>, wanted: Seq<String>) -> bool {
    &&& ids.len() == wanted.len()
    &&& forall|i: int|
        0 <= i < ids.len() ==> (#[trigger] ids[i]).0 < names.len() && names[ids[i].0 as int]
            == wanted[i]@
}

impl SegmentRunner {
    /// The interned names, by id.
    pub open spec fn table(&self) -> Seq<Seq<char>> {
        name_views(self.names@)
    }

    /// Every id has one name, one kind and one slot of each sort; no name has two ids; the
    /// kinds are those of the names; the segments' ids are those of their names.
    pub open spec fn wf(&self) -> bool {
        let n = self.names@.len();
        &&& n <= u32::MAX
        &&& self.table().no_duplicates()
        &&& self.kind@.len() == n
        &&& self.f32_slots@.len() == n
        &&& self.i32_slots@.len() == n
        &&& self.device_slots@.len() == n
        &&& self.kv_device_base@.len() == n
        &&& self.kv_full_elems@.len() == n
        &&& forall|i: int|
            0 <= i < n ==> #[trigger] self.kind@[i] == handoff_kind(
                self.names@[i]@,
                self.host_tensors@,
            )
        &&& self.segment_inputs@.len() == self.segments@.len()
        &&& self.segment_outputs@.len() == self.segments@.len()
        &&& forall|s: int|
            0 <= s < self.segments@.len() ==> ids_name(
                self.table(),
                (#[trigger] self.segment_inputs@[s])@,
                self.segments@[s].input_names@,
            )
        &&& forall|s: int|
            0 <= s < self.segments@.len() ==> ids_name(
                self.table(),
                (#[trigger] self.segment_outputs@[s])@,
                self.segments@[s].output_names@,
            )
    }

    /// The id of a name, if it is interned.
    pub open spec fn lookup(&self, name: Seq<char>) -> Option<HandoffId> {
        id_in(self.table(), name)
    }
}

/// The id of a name in a table.
pub open spec fn id_in(table: Seq<Seq<char>>, name: Seq<char>) -> Option<HandoffId> {
    if table.contains(name) {
        Some(HandoffId(table.index_of(name) as u32))
    } else {
        None
    }
}

/// A name has the id at which it stands, in a table without repetitions.
pub proof fn id_is_the_place(table: Seq<Seq<char>>, i: int)
    requires
        table.no_duplicates(),
        0 <= i < table.len() <= u32::MAX,
    ensures
        id_in(table, table[i]) == Some(HandoffId(i as u32)),
{
    assert(table.contains(table[i]));
    assert(table.index_of(table[i]) == i);
}

/// The id of a name among the interned ones.
fn find_name(names: &Vec<String>, name: &str) -> (res: Option<HandoffId>)
    requires
        names@.len() <= u32::MAX,
        name_views(names@).no_duplicates(),
    ensures
        res == id_in(name_views(names@), name@),
{
    let ghost table = name_views(names@);
    let mut i: usize = 0;
    while i < names.len()
        invariant
            i <= names@.len() <= u32::MAX,
            table == name_views(names@),
            table.no_duplicates(),
            forall|j: int| 0 <= j < i ==> #[trigger] table[j] != name@,
        decreases names.len() - i,
    {
        if same(names[i].as_str(), name) {
            proof {
                assert(table[i as int] == name@);
                id_is_the_place(table, i as int);
            }
            return Some(HandoffId(i as u32));
        }
        i += 1;
    }
    assert(!table.contains(name@));
    None
}

/// Interns a name in a table that is still growing.
fn intern_into(names: &mut Vec<String>, name: &str) -> (res: HandoffId)
    requires
        old(names)@.len() < u32::MAX,
        name_views(old(names)@).no_duplicates(),
    ensures
        name_views(final(names)@) == interned(name_views(old(names)@), name@),
        name_views(final(names)@).no_duplicates(),
        Some(res) == id_in(name_views(final(names)@), name@),
        res.0 < final(names)@.len(),
        final(names)@.len() <= old(names)@.len() + 1,
{
    let ghost before = name_views(names@);
    if let Some(id) = find_name(names, name) {
        return id;
    }
    let id = HandoffId(names.len() as u32);
    names.push(name.to_owned());
    proof {
        let after = name_views(names@);
        assert(after =~= before.push(name@));
        interned_is_unique(before, name@);
        assert(after[before.len() as int] == name@);
        id_is_the_place(after, before.len() as int);
    }
    id
}

/// A table after a name was interned: names keep their ids, a new one comes last.
pub open spec fn interned(table: Seq<Seq<char>>, name: Seq<char>) -> Seq<Seq<char>> {
    if table.contains(name) {
        table
    } else {
        table.push(name)
    }
}

/// Interning keeps names apart and leaves every id with its name.
pub proof fn interned_is_unique(table: Seq<Seq<char>>, name: Seq<char>)
    requires
        table.no_duplicates(),
    ensures
        interned(table, name).no_duplicates(),
        forall|i: int| 0 <= i < table.len() ==> interned(table, name)[i] == #[trigger] table[i],
        interned(table, name).contains(name),
{
    let after = interned(table, name);
    if !table.contains(name) {
        assert forall|i: int, j: int| 0 <= i < after.len() && 0 <= j < after.len() && i
            != j implies after[i] != after[j] by {
            if i < table.len() {
                assert(after[i] == table[i]);
                assert(table.contains(table[i]));
            }
            if j < table.len() {
                assert(after[j] == table[j]);
                assert(table.contains(table[j]));
            }
        }
        assert(after[table.len() as int] == name);
    }
}

/// Ids that name something in a table still name it in one that has grown.
proof fn ids_survive(
    table: Seq<Seq<char>>,
    grown: Seq<Seq<char>>,
    ids: Seq<HandoffId>,
    wanted: Seq<String>,
)
    requires
        ids_name(table, ids, wanted),
        grows(table, grown),
    ensures
        ids_name(grown, ids, wanted),
{
    assert forall|i: int| 0 <= i < ids.len() implies (#[trigger] ids[i]).0 < grown.len()
        && grown[ids[i].0 as int] == wanted[i]@ by {
        assert(grown[ids[i].0 as int] == table[ids[i].0 as int]);
    }
}

/// Whether a table has only gained names at the end.
pub open spec fn grows(table: Seq<Seq<char>>, grown: Seq<Seq<char>>) -> bool {
    &&& table.len() <= grown.len()
    &&& forall|i: int| 0 <= i < table.len() ==> #[trigger] grown[i] == table[i]
}

/// A table after a list of names was interned in order.
pub open spec fn interned_all(table: Seq<Seq<char>>, wanted: Seq<String>) -> Seq<Seq<char>>
    decreases wanted.len(),
{
    if wanted.len() == 0 {
        table
    } else {
        interned(interned_all(table, wanted.drop_last()), wanted.last()@)
    }
}

/// The table of some segments: each one's inputs, then its outputs.
pub open spec fn segment_table(segments: Seq<SegmentSpec>) -> Seq<Seq<char>>
    decreases segments.len(),
{
    if segments.len() == 0 {
        seq![]
    } else {
        interned_all(
            interned_all(segment_table(segments.drop_last()), segments.last().input_names@),
            segments.last().output_names@,
        )
    }
}

/// Interns a list of names in order.
fn intern_all(names: &mut Vec<String>, wanted: &Vec<String>) -> (res: Vec<HandoffId>)
    requires
        old(names)@.len() + wanted@.len() <= u32::MAX,
        name_views(old(names)@).no_duplicates(),
    ensures
        name_views(final(names)@).no_duplicates(),
        final(names)@.len() <= old(names)@.len() + wanted@.len(),
        grows(name_views(old(names)@), name_views(final(names)@)),
        ids_name(name_views(final(names)@), res@, wanted@),
        name_views(final(names)@) == interned_all(name_views(old(names)@), wanted@),
{
    let ghost start = name_views(names@);
    let mut out: Vec<HandoffId> = Vec::new();
    let mut i: usize = 0;
    while i < wanted.len()
        invariant
            i <= wanted@.len(),
            start == name_views(old(names)@),
            old(names)@.len() + wanted@.len() <= u32::MAX,
            names@.len() <= old(names)@.len() + i,
            name_views(names@).no_duplicates(),
            grows(start, name_views(names@)),
            ids_name(name_views(names@), out@, wanted@.take(i as int)),
            name_views(names@) == interned_all(start, wanted@.take(i as int)),
        decreases wanted.len() - i,
    {
        assert(wanted@.take(i + 1).drop_last() =~= wanted@.take(i as int));
        let ghost before = name_views(names@);
        let id = intern_into(names, wanted[i].as_str());
        proof {
            interned_is_unique(before, wanted@[i as int]@);
            let after = name_views(names@);
            assert(grows(before, after));
            ids_survive(before, after, out@, wanted@.take(i as int));
            assert(after[id.0 as int] == wanted@[i as int]@);
            assert(after.len() == names@.len());
        }
        out.push(id);
        i += 1;
    }
    assert(wanted@.take(i as int) =~= wanted@);
    out
}

/// The names that a segment contributes at most.
pub open spec fn name_count(segments: Seq<SegmentSpec>) -> nat
    decreases segments.len(),
{
    if segments.len() == 0 {
        0
    } else {
        name_count(segments.drop_last()) + segments.last().input_names@.len()
            + segments.last().output_names@.len()
    }
}

proof fn name_count_grows(segments: Seq<SegmentSpec>, n: int)
    requires
        0 <= n <= segments.len(),
    ensures
        name_count(segments.take(n)) <= name_count(segments),
    decreases segments.len(),
{
    if n == segments.len() {
        assert(segments.take(n) =~= segments);
    } else {
        assert(segments.drop_last().take(n) =~= segments.take(n));
        name_count_grows(segments.drop_last(), n);
    }
}

/// The buffer size that some declarations give a name: the last one counts.
pub open spec fn declared_size(sizes: Seq<(String, usize)>, name: Seq<char>) -> Option<usize>
    decreases sizes.len(),
{
    if sizes.len() == 0 {
        None
    } else if sizes.last().0@ == name {
        Some(sizes.last().1)
    } else {
        declared_size(sizes.drop_last(), name)
    }
}

/// The KV buffer size of a name over all segments: the last declaration counts.
pub open spec fn kv_size(segments: Seq<SegmentSpec>, name: Seq<char>) -> Option<usize>
    decreases segments.len(),
{
    if segments.len() == 0 {
        None
    } else {
        match declared_size(segments.last().kv_cache_sizes@, name) {
            Some(n) => Some(n),
            None => kv_size(segments.drop_last(), name),
        }
    }
}

/// The KV buffer size of a name.
fn find_kv_size(segments: &Vec<SegmentSpec>, name: &str) -> (res: Option<usize>)
    ensures
        res == kv_size(segments@, name@),
{
    let mut s: usize = segments.len();
    assert(segments@.take(s as int) =~= segments@);
    while s > 0
        invariant
            s <= segments@.len(),
            kv_size(segments@, name@) == kv_size(segments@.take(s as int), name@),
        decreases s,
    {
        assert(segments@.take(s as int).drop_last() =~= segments@.take(s - 1));
        let sizes = &segments[s - 1].kv_cache_sizes;
        let mut i: usize = sizes.len();
        assert(sizes@.take(i as int) =~= sizes@);
        while i > 0
            invariant
                i <= sizes@.len(),
                0 < s <= segments@.len(),
                *sizes == segments@[s - 1].kv_cache_sizes,
                declared_size(sizes@, name@) == declared_size(sizes@.take(i as int), name@),
                kv_size(segments@, name@) == kv_size(segments@.take(s as int), name@),
            decreases i,
        {
            assert(sizes@.take(i as int).drop_last() =~= sizes@.take(i - 1));
            if same(sizes[i - 1].0.as_str(), name) {
                return Some(sizes[i - 1].1);
            }
            i -= 1;
        }
        s -= 1;
    }
    None
}

/// The kinds of some names.
fn classify_all(names: &Vec<String>, host: &Vec<String>) -> (res: Vec<HandoffKind>)
    ensures
        res@.len() == names@.len(),
        forall|i: int|
            0 <= i < res@.len() ==> #[trigger] res@[i] == handoff_kind(names@[i]@, host@),
{
    let mut out: Vec<HandoffKind> = Vec::new();
    let mut i: usize = 0;
    while i < names.len()
        invariant
            i <= names@.len(),
            out@.len() == i,
            forall|j: int|
                0 <= j < i ==> #[trigger] out@[j] == handoff_kind(names@[j]@, host@),
        decreases names.len() - i,
    {
        out.push(classify_handoff(names[i].as_str(), host));
        i += 1;
    }
    out
}

impl SegmentRunner {
    /// Interns the names of all segments, in order, and makes an empty store for them.
    pub fn new(segments: Vec<SegmentSpec>) -> (res: Self)
        requires
            name_count(segments@) <= u32::MAX,
        ensures
            res.wf(),
            res.segments == segments,
            res.table() == segment_table(segments@),
            res.host_tensors@.len() == 0,
            forall|i: int|
                0 <= i < res.names@.len() ==> {
                    &&& (#[trigger] res.f32_slots@[i]) is None
                    &&& res.i32_slots@[i] is None
                    &&& res.device_slots@[i] is None
                    &&& res.kv_device_base@[i] is None
                    &&& res.kv_full_elems@[i] == kv_size(segments@, res.names@[i]@)
                },
            res.position == 0,
            !res.prefill_capture,
            !res.capturing,
            res.capture_passthrough@.len() == 0,
            res.input_tokens_id is None,
            res.position_id is None,
            !res.paged_device_kv,
            res.active_request is None,
            res.kv_req_bufs@ == Map::<u64, Vec<Option<u64>>>::empty(),
            res.decode_batch == 1,
            !res.device_kv,
            !res.no_skip,
    {
        let mut names: Vec<String> = Vec::new();
        let mut segment_inputs: Vec<Vec<HandoffId>> = Vec::new();
        let mut segment_outputs: Vec<Vec<HandoffId>> = Vec::new();
        let mut s: usize = 0;
        assert(name_views(names@) =~= segment_table(segments@.take(0)));
        while s < segments.len()
            invariant
                s <= segments@.len(),
                name_count(segments@) <= u32::MAX,
                names@.len() <= name_count(segments@.take(s as int)),
                name_views(names@).no_duplicates(),
                name_views(names@) == segment_table(segments@.take(s as int)),
                segment_inputs@.len() == s,
                segment_outputs@.len() == s,
                forall|k: int|
                    0 <= k < s ==> ids_name(
                        name_views(names@),
                        (#[trigger] segment_inputs@[k])@,
                        segments@[k].input_names@,
                    ),
                forall|k: int|
                    0 <= k < s ==> ids_name(
                        name_views(names@),
                        (#[trigger] segment_outputs@[k])@,
                        segments@[k].output_names@,
                    ),
            decreases segments.len() - s,
        {
            proof {
                assert(segments@.take(s + 1).drop_last() =~= segments@.take(s as int));
                name_count_grows(segments@, s + 1);
            }
            let ghost t0 = name_views(names@);
            let ins = intern_all(&mut names, &segments[s].input_names);
            let ghost t1 = name_views(names@);
            let outs = intern_all(&mut names, &segments[s].output_names);
            proof {
                let t2 = name_views(names@);
                assert(grows(t0, t2));
                ids_survive(t1, t2, ins@, segments@[s as int].input_names@);
                assert forall|k: int| 0 <= k < s implies ids_name(
                    t2,
                    (#[trigger] segment_inputs@[k])@,
                    segments@[k].input_names@,
                ) by {
                    ids_survive(t0, t2, segment_inputs@[k]@, segments@[k].input_names@);
                }
                assert forall|k: int| 0 <= k < s implies ids_name(
                    t2,
                    (#[trigger] segment_outputs@[k])@,
                    segments@[k].output_names@,
                ) by {
                    ids_survive(t0, t2, segment_outputs@[k]@, segments@[k].output_names@);
                }
            }
            segment_inputs.push(ins);
            segment_outputs.push(outs);
            s += 1;
        }
        assert(segments@.take(s as int) =~= segments@);
        let host_tensors: Vec<String> = Vec::new();
        let kind = classify_all(&names, &host_tensors);
        let mut f32_slots: Vec<Option<Vec<Ieee32>>> = Vec::new();
        let mut i32_slots: Vec<Option<Vec<i32>>> = Vec::new();
        let mut device_slots: Vec<Option<DeviceTensorHandle>> = Vec::new();
        let mut kv_device_base: Vec<Option<u64>> = Vec::new();
        let mut kv_full_elems: Vec<Option<usize>> = Vec::new();
        let mut i: usize = 0;
        while i < names.len()
            invariant
                i <= names@.len(),
                f32_slots@.len() == i,
                i32_slots@.len() == i,
                device_slots@.len() == i,
                kv_device_base@.len() == i,
                kv_full_elems@.len() == i,
                forall|j: int|
                    0 <= j < i ==> {
                        &&& (#[trigger] f32_slots@[j]) is None
                        &&& i32_slots@[j] is None
                        &&& device_slots@[j] is None
                        &&& kv_device_base@[j] is None
                        &&& kv_full_elems@[j] == kv_size(segments@, names@[j]@)
                    },
            decreases names.len() - i,
        {
            f32_slots.push(None);
            i32_slots.push(None);
            device_slots.push(None);
            kv_device_base.push(None);
            kv_full_elems.push(find_kv_size(&segments, names[i].as_str()));
            i += 1;
        }
        SegmentRunner {
            segments,
            names,
            kind,
            f32_slots,
            i32_slots,
            device_slots,
            kv_device_base,
            kv_full_elems,
            segment_inputs,
            segment_outputs,
            host_tensors,
            position: 0,
            prefill_capture: false,
            capturing: false,
            capture_passthrough: Vec::new(),
            input_tokens_id: None,
            position_id: None,
            paged_device_kv: false,
            active_request: None,
            kv_req_bufs: HashMap::new(),
            decode_batch: 1,
            device_kv: false,
            no_skip: false,
        }
    }
}

impl SegmentRunner {
    /// Whether `after` differs from `before` at most in what a newly interned name brings.
    pub open spec fn named(before: Self, after: Self, name: Seq<char>) -> bool {
        &&& after.table() == interned(before.table(), name)
        &&& after.lookup(name) is Some
        &&& before.table().contains(name) ==> after == before
        &&& !before.table().contains(name) ==> {
            &&& after.f32_slots@ == before.f32_slots@.push(None)
            &&& after.i32_slots@ == before.i32_slots@.push(None)
            &&& after.device_slots@ == before.device_slots@.push(None)
            &&& after.kv_device_base@ == before.kv_device_base@.push(None)
            &&& after.kv_full_elems@ == before.kv_full_elems@.push(None)
        }
        &&& after == (SegmentRunner {
            names: after.names,
            kind: after.kind,
            f32_slots: after.f32_slots,
            i32_slots: after.i32_slots,
            device_slots: after.device_slots,
            kv_device_base: after.kv_device_base,
            kv_full_elems: after.kv_full_elems,
            ..before
        })
    }

    /// The id of a name, interning it on demand.
    pub fn intern_name(&mut self, name: &str) -> (res: HandoffId)
        requires
            old(self).wf(),
            old(self).names@.len() < u32::MAX,
        ensures
            final(self).wf(),
            Self::named(*old(self), *final(self), name@),
            final(self).lookup(name@) == Some(res),
            res.0 < final(self).names@.len(),
            final(self).names@.len() <= old(self).names@.len() + 1,
    {
        let ghost before = self.table();
        if let Some(id) = find_name(&self.names, name) {
            return id;
        }
        let kind = classify_handoff(name, &self.host_tensors);
        let id = intern_into(&mut self.names, name);
        self.kind.push(kind);
        self.f32_slots.push(None);
        self.i32_slots.push(None);
        self.device_slots.push(None);
        self.kv_device_base.push(None);
        self.kv_full_elems.push(None);
        proof {
            interned_is_unique(before, name@);
            let after = self.table();
            assert(grows(before, after));
            assert(after.len() == self.names@.len());
            assert forall|i: int| 0 <= i < self.names@.len() implies #[trigger] self.kind@[i]
                == handoff_kind(self.names@[i]@, self.host_tensors@) by {
                assert(after[i] == self.names@[i]@);
                if i < before.len() {
                    assert(before[i] == old(self).names@[i]@);
                    assert(old(self).kind@[i] == handoff_kind(
                        old(self).names@[i]@,
                        self.host_tensors@,
                    ));
                }
            }
            assert forall|s: int| 0 <= s < self.segments@.len() implies ids_name(
                after,
                (#[trigger] self.segment_inputs@[s])@,
                self.segments@[s].input_names@,
            ) by {
                ids_survive(
                    before,
                    after,
                    self.segment_inputs@[s]@,
                    self.segments@[s].input_names@,
                );
            }
            assert forall|s: int| 0 <= s < self.segments@.len() implies ids_name(
                after,
                (#[trigger] self.segment_outputs@[s])@,
                self.segments@[s].output_names@,
            ) by {
                ids_survive(
                    before,
                    after,
                    self.segment_outputs@[s]@,
                    self.segments@[s].output_names@,
                );
            }
        }
        id
    }

    /// Says which tensors must stay on the host, and classifies all names anew.
    pub fn set_host_tensors(&mut self, names: Vec<String>)
        requires
            old(self).wf(),
        ensures
            final(self).wf(),
            final(self).host_tensors == names,
            *final(self) == (SegmentRunner {
                host_tensors: names,
                kind: final(self).kind,
                ..*old(self)
            }),
    {
        self.kind = classify_all(&self.names, &names);
        self.host_tensors = names;
    }

    /// The id of a name, if it is interned.
    pub fn handoff_id(&self, name: &str) -> (res: Option<HandoffId>)
        requires
            self.wf(),
        ensures
            res == self.lookup(name@),
    {
        find_name(&self.names, name)
    }

    /// How an id is described in an error.
    pub open spec fn described(&self, id: HandoffId) -> Seq<char> {
        if id.0 < self.names@.len() {
            self.names@[id.0 as int]@
        } else {
            "id "@ + decimal(id.0 as nat)
        }
    }

    fn id_name(&self, id: HandoffId) -> (res: String)
        ensures
            res@ == self.described(id),
    {
        if (id.0 as usize) < self.names.len() {
            self.names[id.0 as usize].clone()
        } else {
            let mut s = "id ".to_owned();
            push_decimal(&mut s, id.0 as u64);
            s
        }
    }

    /// The value on the host of a tensor by id.
    pub open spec fn host_value(&self, id: HandoffId) -> Option<Seq<Ieee32>> {
        if id.0 < self.f32_slots@.len() && self.f32_slots@[id.0 as int] is Some {
            Some(self.f32_slots@[id.0 as int]->0@)
        } else {
            None
        }
    }

    /// The value of a tensor on the host, by id.
    pub fn read_by_id(&self, id: HandoffId) -> (res: Result<Vec<Ieee32>, RankExecError>)
        ensures
            match self.host_value(id) {
                Some(v) => res is Ok && res->Ok_0@ == v,
                None => res is Err && unknown_tensor(res->Err_0, self.described(id)),
            },
    {
        let slot: usize = id.0 as usize;
        if slot < self.f32_slots.len() {
            if let Some(data) = &self.f32_slots[slot] {
                return Ok(copy_values(data));
            }
        }
        Err(RankExecError::UnknownTensor(self.id_name(id)))
    }

    /// Stores a tensor on the host, by id.
    pub fn write_by_id(&mut self, id: HandoffId, data: Vec<Ieee32>) -> (res: Result<
        (),
        RankExecError,
    >)
        requires
            old(self).wf(),
        ensures
            final(self).wf(),
            stored(*old(self), id, data, *final(self), res),
    {
        let slot: usize = id.0 as usize;
        if slot >= self.f32_slots.len() {
            return Err(RankExecError::UnknownTensor(self.id_name(id)));
        }
        self.f32_slots.set(slot, Some(data));
        Ok(())
    }

    /// The value of a tensor on the host, by name.
    pub fn read(&self, name: &str) -> (res: Result<Vec<Ieee32>, RankExecError>)
        requires
            self.wf(),
        ensures
            self.lookup(name@) is Some && self.host_value(self.lookup(name@)->0) is Some ==> res is Ok
                && res->Ok_0@ == self.host_value(self.lookup(name@)->0)->0,
            self.lookup(name@) is None || self.host_value(self.lookup(name@)->0) is None ==> res is Err
                && unknown_tensor(res->Err_0, name@),
    {
        if let Some(id) = find_name(&self.names, name) {
            let slot: usize = id.0 as usize;
            if slot < self.f32_slots.len() {
                if let Some(data) = &self.f32_slots[slot] {
                    return Ok(copy_values(data));
                }
            }
        }
        Err(RankExecError::UnknownTensor(name.to_owned()))
    }

    /// The value of a tensor on the host, by name, where there is one.
    pub fn read_handoff(&self, name: &str) -> (res: Option<Vec<Ieee32>>)
        requires
            self.wf(),
        ensures
            match self.lookup(name@) {
                None => res is None,
                Some(id) => match self.host_value(id) {
                    None => res is None,
                    Some(v) => res is Some && res->0@ == v,
                },
            },
    {
        match self.read(name) {
            Ok(v) => Some(v),
            Err(_) => None,
        }
    }

    /// Stores a tensor on the host under a name, which is interned on demand.
    pub fn write(&mut self, name: &str, data: Vec<Ieee32>) -> (res: Result<(), RankExecError>)
        requires
            old(self).wf(),
            old(self).names@.len() < u32::MAX,
        ensures
            final(self).wf(),
            res is Ok,
            final(self).table() == interned(old(self).table(), name@),
            final(self).lookup(name@) is Some,
            final(self).host_value(final(self).lookup(name@)->0) == Some(data@),
            forall|id: HandoffId|
                id != final(self).lookup(name@)->0 ==> #[trigger] final(self).host_value(id)
                    == old(self).host_value(id),
            forall|other: Seq<char>|
                #[trigger] final(self).named_value(other) == if other == name@ {
                    Some(data@)
                } else {
                    old(self).named_value(other)
                },
            exists|mid: SegmentRunner|
                {
                    &&& #[trigger] Self::named(*old(self), mid, name@)
                    &&& *final(self) == (SegmentRunner { f32_slots: final(self).f32_slots, ..mid })
                },
    {
        let ghost before = self.table();
        let id = self.intern_name(name);
        let slot: usize = id.0 as usize;
        assert(Self::named(*old(self), *self, name@));
        self.f32_slots.set(slot, Some(data));
        proof {
            interned_is_unique(before, name@);
            let after = self.table();
            assert forall|other: Seq<char>| #[trigger] self.named_value(other) == if other == name@ {
                Some(data@)
            } else {
                old(self).named_value(other)
            } by {
                if other != name@ {
                    if before.contains(other) {
                        let k = before.index_of(other);
                        assert(after[k] == other);
                        id_is_the_place(before, k);
                        id_is_the_place(after, k);
                    } else if after.contains(other) {
                        let k = after.index_of(other);
                        assert(k < before.len() || k == before.len());
                        if k < before.len() {
                            assert(before[k] == other);
                        }
                    }
                }
            }
        }
        Ok(())
    }

    /// The value on the host of a tensor by name.
    pub open spec fn named_value(&self, name: Seq<char>) -> Option<Seq<Ieee32>> {
        match self.lookup(name) {
            Some(id) => self.host_value(id),
            None => None,
        }
    }

    /// The device buffer of a tensor, by id: its pointer and element count.
    pub open spec fn device_buffer(&self, id: HandoffId) -> Option<(u64, usize)> {
        if id.0 < self.device_slots@.len() && self.device_slots@[id.0 as int] is Some {
            Some((self.device_slots@[id.0 as int]->0.ptr, self.device_slots@[id.0 as int]->0.elems))
        } else {
            None
        }
    }

    /// The device buffer of a tensor, by id.
    pub fn output_device_ptr_by_id(&self, id: HandoffId) -> (res: Option<(u64, usize)>)
        ensures
            res == self.device_buffer(id),
    {
        let slot: usize = id.0 as usize;
        if slot < self.device_slots.len() {
            if let Some(h) = self.device_slots[slot] {
                return Some((h.ptr, h.elems));
            }
        }
        None
    }

    /// The device buffer of a tensor, by name.
    pub fn output_device_ptr(&self, name: &str) -> (res: Option<(u64, usize)>)
        requires
            self.wf(),
        ensures
            res == match self.lookup(name@) {
                Some(id) => self.device_buffer(id),
                None => None,
            },
    {
        match find_name(&self.names, name) {
            Some(id) => self.output_device_ptr_by_id(id),
            None => None,
        }
    }

    /// The device handle of a tensor, by name.
    pub fn output_device(&self, name: &str) -> (res: Option<DeviceTensorHandle>)
        requires
            self.wf(),
        ensures
            res == match self.lookup(name@) {
                Some(id) => self.device_slots@[id.0 as int],
                None => None,
            },
    {
        match find_name(&self.names, name) {
            Some(id) => {
                assert(self.table().contains(name@));
                self.device_slots[id.0 as usize]
            },
            None => None,
        }
    }

    /// The first segment that takes a tensor.
    pub fn consumer_of(&self, id: HandoffId) -> (res: Option<usize>)
        ensures
            is_first_with(self.segment_inputs@, id, res),
    {
        first_with(&self.segment_inputs, id)
    }

    /// The first segment that gives a tensor.
    pub fn producer_of(&self, id: HandoffId) -> (res: Option<usize>)
        ensures
            is_first_with(self.segment_outputs@, id, res),
    {
        first_with(&self.segment_outputs, id)
    }

    /// Makes a device buffer a tensor's value. An id that is not interned is passed over.
    pub fn set_device_handoff_by_id(&mut self, id: HandoffId, ptr: u64, n_bytes: usize)
        requires
            old(self).wf(),
        ensures
            final(self).wf(),
            *final(self) == (SegmentRunner {
                device_slots: final(self).device_slots,
                f32_slots: final(self).f32_slots,
                ..*old(self)
            }),
            if id.0 < old(self).names@.len() {
                &&& final(self).device_slots@ == old(self).device_slots@.update(
                    id.0 as int,
                    Some(bf16_handle(ptr, n_bytes)),
                )
                &&& final(self).f32_slots@ == old(self).f32_slots@.update(id.0 as int, None)
            } else {
                *final(self) == *old(self)
            },
    {
        let slot: usize = id.0 as usize;
        if slot < self.device_slots.len() {
            self.device_slots.set(slot, Some(handle_of(ptr, n_bytes)));
            self.f32_slots.set(slot, None);
        }
    }
}

/// A copy of some values.
pub fn copy_values(v: &Vec<Ieee32>) -> (res: Vec<Ieee32>)
    ensures
        res@ == v@,
{
    let mut out: Vec<Ieee32> = Vec::new();
    let mut i: usize = 0;
    while i < v.len()
        invariant
            i <= v@.len(),
            out@ == v@.take(i as int),
        decreases v.len() - i,
    {
        out.push(v[i]);
        i += 1;
        assert(out@ =~= v@.take(i as int));
    }
    assert(out@ =~= v@);
    out
}

/// Whether `found` is the first of some lists that holds an id.
pub open spec fn is_first_with(
    lists: Seq<Vec<HandoffId>>,
    id: HandoffId,
    found: Option<usize>,
) -> bool {
    match found {
        Some(s) => {
            &&& s < lists.len()
            &&& lists[s as int]@.contains(id)
            &&& forall|i: int| 0 <= i < s ==> !(#[trigger] lists[i])@.contains(id)
        },
        None => forall|i: int| 0 <= i < lists.len() ==> !(#[trigger] lists[i])@.contains(id),
    }
}

fn holds(list: &Vec<HandoffId>, id: HandoffId) -> (res: bool)
    ensures
        res == list@.contains(id),
{
    let mut i: usize = 0;
    while i < list.len()
        invariant
            i <= list@.len(),
            forall|j: int| 0 <= j < i ==> list@[j] != id,
        decreases list.len() - i,
    {
        if list[i] == id {
            assert(list@[i as int] == id);
            return true;
        }
        i += 1;
    }
    false
}

fn first_with(lists: &Vec<Vec<HandoffId>>, id: HandoffId) -> (res: Option<usize>)
    ensures
        is_first_with(lists@, id, res),
{
    let mut s: usize = 0;
    while s < lists.len()
        invariant
            s <= lists@.len(),
            forall|i: int| 0 <= i < s ==> !(#[trigger] lists@[i])@.contains(id),
        decreases lists.len() - s,
    {
        if holds(&lists[s], id) {
            return Some(s);
        }
        s += 1;
    }
    None
}

/// Whether storing a tensor on the host by id leads from one store to another, with this
/// outcome.
pub open spec fn stored(
    before: SegmentRunner,
    id: HandoffId,
    data: Vec<Ieee32>,
    after: SegmentRunner,
    res: Result<(), RankExecError>,
) -> bool {
    if id.0 < before.names@.len() {
        &&& res is Ok
        &&& after.f32_slots@ == before.f32_slots@.update(id.0 as int, Some(data))
        &&& after == (SegmentRunner { f32_slots: after.f32_slots, ..before })
    } else {
        &&& res is Err
        &&& unknown_tensor(res->Err_0, "id "@ + decimal(id.0 as nat))
        &&& after == before
    }
}

/// A read gives back what was written: a tensor that was stored is read with its value, by id
/// and by its name, every other as before; an id that names nothing is refused, and nothing
/// changes.
pub proof fn reads_give_back_what_was_written(
    before: SegmentRunner,
    id: HandoffId,
    data: Vec<Ieee32>,
    after: SegmentRunner,
    res: Result<(), RankExecError>,
    name: &str,
    by_id: Result<Vec<Ieee32>, RankExecError>,
    by_name: Result<Vec<Ieee32>, RankExecError>,
    other: HandoffId,
)
    requires
        before.wf(),
        stored(before, id, data, after, res),
        id.0 < before.names@.len() ==> name@ == before.names@[id.0 as int]@,
        call_ensures(SegmentRunner::read_by_id, (&after, id), by_id),
        call_ensures(SegmentRunner::read, (&after, name), by_name),
    ensures
        res is Ok <==> id.0 < before.names@.len(),
        res is Ok ==> by_id is Ok && by_id->Ok_0@ == data@ && by_name is Ok && by_name->Ok_0@
            == data@,
        res is Err ==> after == before,
        other != id ==> after.host_value(other) == before.host_value(other),
{
    if id.0 < before.names@.len() {
        assert(before.table()[id.0 as int] == name@);
        id_is_the_place(before.table(), id.0 as int);
        assert(after.lookup(name@) == Some(id));
        assert(after.host_value(id) == Some(data@));
    }
}

} // verus!
