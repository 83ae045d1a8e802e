//! What running a segment does with each of its inputs and outputs.

use vstd::prelude::*;

use crate::ieee::Ieee32;
use crate::runtime::distributed::handoff::{
    bf16_handle, handle_of, segment_error, HandoffKind, KvKind, RankExecError,
};
use crate::runtime::distributed::rank_plan::HandoffId;
use crate::runtime::distributed::segment_runner::{interned, SegmentRunner, KV_DEVICE_ELEM_BYTES};

verus! {

/// What is done to feed an input.
#[derive(Debug, Clone, Copy, PartialEq, Eq, Structural)]
pub enum InputAction {
    /// Nothing: the segment has the value, or goes by its defaults.
    Nothing,
    /// Bind a device buffer.
    BindDevice { id: HandoffId, ptr: u64, n_bytes: usize },
    /// Upload the host value.
    UploadF32 { id: HandoffId },
    /// Upload the integer host value.
    UploadI32 { id: HandoffId },
    /// Have the runtime provide its persistent KV buffer, and report its base.
    EnsureKv { id: HandoffId, n_bytes: usize },
    /// Allocate a zeroed KV buffer for a request, and report its base.
    AllocKv { id: HandoffId, n_bytes: usize, request: u64 },
    /// Bind a request's KV buffer.
    BindKv { id: HandoffId, ptr: u64, n_bytes: usize },
    /// Assemble the KV cache on the host and upload it.
    UploadKv { id: HandoffId, kind: KvKind, layer: u16, full: usize },
}

/// What is done to capture an output.
#[derive(Debug, Clone, Copy, PartialEq, Eq, Structural)]
pub enum OutputAction {
    /// The device buffer was recorded; nothing to do.
    Kept,
    /// Append the rows' new KV entries at the shared position, after setting the device's
    /// position where it is given.
    KvBatched {
        id: HandoffId,
        base: u64,
        batch: usize,
        cap: usize,
        row_bytes: usize,
        position: Option<usize>,
    },
    /// Append the new KV entry by the device kernel, after setting the device's position
    /// where it is given.
    KvAppend { id: HandoffId, base: u64, n_bytes: usize, position: Option<usize> },
    /// Copy the new KV entry to its place.
    KvCopy { id: HandoffId, dest: u64, n_bytes: usize },
    /// Read the output back to the host and hand it to [`SegmentRunner::take_output`].
    ReadBack { id: HandoffId },
}

/// A KV entry to write into the host's paged cache.
#[derive(Debug)]
pub struct KvWrite {
    pub kind: KvKind,
    pub layer: u16,
    pub slot: usize,
    pub data: Vec<Ieee32>,
}

/// The KV buffer that a request has for a slot.
pub open spec fn request_buffer(
    bufs: Map<u64, Vec<Option<u64>>>,
    request: u64,
    slot: int,
) -> Option<u64> {
    if bufs.contains_key(request) && slot < bufs[request]@.len() {
        bufs[request]@[slot]
    } else {
        None
    }
}

impl SegmentRunner {
    /// The element count of a slot's KV buffer; zero where none was declared.
    pub open spec fn kv_elems(&self, slot: int) -> int {
        match self.kv_full_elems@[slot] {
            Some(n) => n as int,
            None => 0,
        }
    }

    /// Whether the KV buffers' byte counts fit.
    pub open spec fn kv_sizes_fit(&self) -> bool {
        forall|i: int|
            0 <= i < self.kv_full_elems@.len() && (#[trigger] self.kv_full_elems@[i]) is Some
                ==> self.kv_full_elems@[i]->0 * KV_DEVICE_ELEM_BYTES <= usize::MAX
    }

    /// Whether the input is refreshed outside the graph that is being captured.
    pub open spec fn refreshed_outside(&self, id: HandoffId, fresh: Option<HandoffId>) -> bool {
        self.capturing && fresh == Some(id) && !self.no_skip
    }

    /// What feeding a tensor takes.
    pub open spec fn input_action(&self, id: HandoffId) -> InputAction {
        let slot = id.0 as int;
        match self.kind@[slot] {
            HandoffKind::KvCache { kind, layer } => {
                let full = self.kv_elems(slot) as usize;
                let n_bytes = (full * KV_DEVICE_ELEM_BYTES) as usize;
                if !self.paged_device_kv {
                    InputAction::EnsureKv { id, n_bytes }
                } else {
                    match self.active_request {
                        None => InputAction::UploadKv { id, kind, layer, full },
                        Some(request) => match request_buffer(
                            self.kv_req_bufs@,
                            request,
                            slot,
                        ) {
                            Some(ptr) => InputAction::BindKv { id, ptr, n_bytes },
                            None => InputAction::AllocKv { id, n_bytes, request },
                        },
                    }
                }
            },
            HandoffKind::Device => match self.device_slots@[slot] {
                Some(h) => InputAction::BindDevice { id, ptr: h.ptr, n_bytes: h.n_bytes },
                None => if self.f32_slots@[slot] is Some {
                    InputAction::UploadF32 { id }
                } else {
                    InputAction::Nothing
                },
            },
            HandoffKind::I32 => if !self.refreshed_outside(id, self.input_tokens_id)
                && self.i32_slots@[slot] is Some {
                InputAction::UploadI32 { id }
            } else {
                InputAction::Nothing
            },
            HandoffKind::F32 | HandoffKind::HostCollective => if !self.refreshed_outside(
                id,
                self.position_id,
            ) && self.f32_slots@[slot] is Some {
                InputAction::UploadF32 { id }
            } else {
                InputAction::Nothing
            },
        }
    }

    /// Checks that a segment exists.
    pub fn check_segment(&self, segment_idx: usize) -> (res: Result<(), RankExecError>)
        ensures
            res is Ok <==> segment_idx < self.segments@.len(),
            res is Err ==> segment_error(
                res->Err_0,
                segment_idx,
                "segment index out of range"@,
            ),
    {
        if segment_idx >= self.segments.len() {
            return Err(
                RankExecError::Segment {
                    segment_idx,
                    detail: "segment index out of range".to_owned(),
                },
            );
        }
        Ok(())
    }

    /// Decides how to feed input `i` of a segment. A KV buffer that is already known is
    /// recorded as the one that outputs are appended to.
    pub fn plan_input(&mut self, segment_idx: usize, i: usize) -> (res: InputAction)
        requires
            old(self).wf(),
            old(self).kv_sizes_fit(),
            segment_idx < old(self).segments@.len(),
            i < old(self).segment_inputs@[segment_idx as int]@.len(),
        ensures
            final(self).wf(),
            ({
                let id = old(self).segment_inputs@[segment_idx as int]@[i as int];
                &&& res == old(self).input_action(id)
                &&& *final(self) == (SegmentRunner {
                    kv_device_base: final(self).kv_device_base,
                    ..*old(self)
                })
                &&& final(self).kv_device_base@ == match res {
                    InputAction::BindKv { id, ptr, n_bytes } => old(
                        self,
                    ).kv_device_base@.update(id.0 as int, Some(ptr)),
                    _ => old(self).kv_device_base@,
                }
            }),
    {
        broadcast use vstd::std_specs::hash::group_hash_axioms;

        let id = self.segment_inputs[segment_idx][i];
        assert(id.0 < self.table().len());
        let slot: usize = id.0 as usize;
        match self.kind[slot] {
            HandoffKind::KvCache { kind, layer } => {
                let full: usize = match self.kv_full_elems[slot] {
                    Some(n) => n,
                    None => 0,
                };
                assert(full * KV_DEVICE_ELEM_BYTES <= usize::MAX);
                let n_bytes: usize = full * KV_DEVICE_ELEM_BYTES;
                if !self.paged_device_kv {
                    return InputAction::EnsureKv { id, n_bytes };
                }
                let request: u64 = match self.active_request {
                    None => {
                        return InputAction::UploadKv { id, kind, layer, full };
                    },
                    Some(r) => r,
                };
                let known = match self.kv_req_bufs.get(&request) {
                    Some(bufs) => if slot < bufs.len() {
                        bufs[slot]
                    } else {
                        None
                    },
                    None => None,
                };
                match known {
                    Some(ptr) => {
                        self.kv_device_base.set(slot, Some(ptr));
                        InputAction::BindKv { id, ptr, n_bytes }
                    },
                    None => InputAction::AllocKv { id, n_bytes, request },
                }
            },
            HandoffKind::Device => {
                if let Some(h) = self.device_slots[slot] {
                    InputAction::BindDevice { id, ptr: h.ptr, n_bytes: h.n_bytes }
                } else if self.f32_slots[slot].is_some() {
                    InputAction::UploadF32 { id }
                } else {
                    InputAction::Nothing
                }
            },
            HandoffKind::I32 => {
                if !self.is_refreshed_outside(id, self.input_tokens_id)
                    && self.i32_slots[slot].is_some() {
                    InputAction::UploadI32 { id }
                } else {
                    InputAction::Nothing
                }
            },
            HandoffKind::F32 | HandoffKind::HostCollective => {
                if !self.is_refreshed_outside(id, self.position_id)
                    && self.f32_slots[slot].is_some() {
                    InputAction::UploadF32 { id }
                } else {
                    InputAction::Nothing
                }
            },
        }
    }

    fn is_refreshed_outside(&self, id: HandoffId, fresh: Option<HandoffId>) -> (res: bool)
        ensures
            res == self.refreshed_outside(id, fresh),
    {
        match fresh {
            Some(f) => self.capturing && f == id && !self.no_skip,
            None => false,
        }
    }

    /// Takes the base of the KV buffer that was asked for: `None` where the backend has no
    /// device memory. A new buffer of a request is remembered for it and must be bound.
    pub fn kv_answer(&mut self, segment_idx: usize, i: usize, base: Option<u64>) -> (res:
        InputAction)
        requires
            old(self).wf(),
            old(self).kv_sizes_fit(),
            segment_idx < old(self).segments@.len(),
            i < old(self).segment_inputs@[segment_idx as int]@.len(),
            ({
                let a = old(self).input_action(
                    old(self).segment_inputs@[segment_idx as int]@[i as int],
                );
                a is EnsureKv || a is AllocKv
            }),
        ensures
            final(self).wf(),
            *final(self) == (SegmentRunner {
                kv_device_base: final(self).kv_device_base,
                kv_req_bufs: final(self).kv_req_bufs,
                ..*old(self)
            }),
            ({
                let id = old(self).segment_inputs@[segment_idx as int]@[i as int];
                let slot = id.0 as int;
                let asked = old(self).input_action(id);
                let was = old(self).kv_req_bufs@;
                let now = final(self).kv_req_bufs@;
                match base {
                    None => {
                        &&& res is UploadKv
                        &&& res->UploadKv_id == id
                        &&& HandoffKind::KvCache { kind: res->kind, layer: res->layer } == old(
                            self,
                        ).kind@[slot]
                        &&& res->full == old(self).kv_elems(slot)
                        &&& final(self).kv_device_base@ == old(self).kv_device_base@
                        &&& now == was
                    },
                    Some(ptr) => {
                        &&& final(self).kv_device_base@ == old(self).kv_device_base@.update(
                            slot,
                            Some(ptr),
                        )
                        &&& match asked {
                            InputAction::AllocKv { id, n_bytes, request } => {
                                &&& res == InputAction::BindKv { id, ptr, n_bytes }
                                &&& now.dom() == was.dom().insert(request)
                                &&& forall|r: u64, s: int|
                                    s >= 0 && (r != request || s != slot)
                                        ==> #[trigger] request_buffer(now, r, s)
                                        == request_buffer(was, r, s)
                                &&& slot < now[request]@.len() ==> request_buffer(
                                    now,
                                    request,
                                    slot,
                                ) == Some(ptr)
                                &&& now[request]@.len() == if was.contains_key(request) {
                                    was[request]@.len()
                                } else {
                                    old(self).kind@.len()
                                }
                            },
                            _ => res == InputAction::Nothing && now == was,
                        }
                    },
                }
            }),
    {
        broadcast use vstd::std_specs::hash::group_hash_axioms;

        let id = self.segment_inputs[segment_idx][i];
        assert(id.0 < self.table().len());
        let slot: usize = id.0 as usize;
        let full: usize = match self.kv_full_elems[slot] {
            Some(n) => n,
            None => 0,
        };
        assert(full * KV_DEVICE_ELEM_BYTES <= usize::MAX);
        let ptr: u64 = match base {
            Some(p) => p,
            None => {
                return match self.kind[slot] {
                    HandoffKind::KvCache { kind, layer } => InputAction::UploadKv {
                        id,
                        kind,
                        layer,
                        full,
                    },
                    _ => InputAction::Nothing,
                };
            },
        };
        self.kv_device_base.set(slot, Some(ptr));
        if !self.paged_device_kv {
            return InputAction::Nothing;
        }
        if let Some(request) = self.active_request {
            let n: usize = self.kind.len();
            let mut bufs = match self.kv_req_bufs.remove(&request) {
                Some(b) => b,
                None => no_buffers(n),
            };
            let ghost was = bufs@;
            if slot < bufs.len() {
                bufs.set(slot, Some(ptr));
            }
            let ghost done = bufs@;
            self.kv_req_bufs.insert(request, bufs);
            proof {
                let now = self.kv_req_bufs@;
                let before = old(self).kv_req_bufs@;
                assert(now.dom() =~= before.dom().insert(request));
                assert(now[request]@ == done);
                assert forall|r: u64, s: int|
                    s >= 0 && (r != request || s != slot) implies #[trigger] request_buffer(
                    now,
                    r,
                    s,
                ) == request_buffer(before, r, s) by {
                    if r == request && s < done.len() {
                        assert(done[s] == was[s]);
                    }
                }
            }
        }
        InputAction::BindKv { id, ptr, n_bytes: full * KV_DEVICE_ELEM_BYTES }
    }
}

impl SegmentRunner {
    /// Whether capturing an output depends on where the runtime has it on the device.
    pub open spec fn output_query(&self, id: HandoffId) -> bool {
        let slot = id.0 as int;
        match self.kind@[slot] {
            HandoffKind::KvCache { .. } => !self.prefill_capture && self.kv_device_base@[slot]
                is Some,
            HandoffKind::HostCollective => self.capturing && self.capture_passthrough@.contains(id),
            _ => true,
        }
    }

    /// The position that the device is to be set to, unless the captured graph gets it
    /// from outside.
    pub open spec fn position_to_set(&self) -> Option<usize> {
        if !self.capturing || self.no_skip {
            Some(self.position)
        } else {
            None
        }
    }

    /// What capturing a tensor takes; `device` is where the runtime has it on the device.
    pub open spec fn output_action(&self, id: HandoffId, device: Option<(u64, usize)>) -> OutputAction {
        let slot = id.0 as int;
        if !self.output_query(id) || device is None {
            OutputAction::ReadBack { id }
        } else {
            let n_bytes = (device->0).1;
            match self.kind@[slot] {
                HandoffKind::KvCache { .. } => {
                    let base = self.kv_device_base@[slot]->0;
                    if self.decode_batch > 1 {
                        OutputAction::KvBatched {
                            id,
                            base,
                            batch: self.decode_batch,
                            cap: if n_bytes > 0 {
                                (self.kv_elems(slot) * KV_DEVICE_ELEM_BYTES / n_bytes as int)
                                    as usize
                            } else {
                                0
                            },
                            row_bytes: (n_bytes as int / self.decode_batch as int) as usize,
                            position: self.position_to_set(),
                        }
                    } else if self.device_kv {
                        OutputAction::KvAppend {
                            id,
                            base,
                            n_bytes,
                            position: self.position_to_set(),
                        }
                    } else {
                        OutputAction::KvCopy {
                            id,
                            dest: (base + self.position * n_bytes) as u64,
                            n_bytes,
                        }
                    }
                },
                _ => OutputAction::Kept,
            }
        }
    }

    /// Whether the place of a new KV entry can be computed, where it is copied there.
    pub open spec fn kv_place_fits(&self, id: HandoffId, device: Option<(u64, usize)>) -> bool {
        let slot = id.0 as int;
        self.output_action(id, device) is KvCopy ==> {
            &&& self.position * (device->0).1 <= usize::MAX
            &&& self.kv_device_base@[slot]->0 + self.position * (device->0).1 <= u64::MAX
        }
    }

    /// Whether the runtime must be asked where it has output `i` of a segment.
    pub fn wants_output_ptr(&self, segment_idx: usize, i: usize) -> (res: bool)
        requires
            self.wf(),
            segment_idx < self.segments@.len(),
            i < self.segment_outputs@[segment_idx as int]@.len(),
        ensures
            res == self.output_query(self.segment_outputs@[segment_idx as int]@[i as int]),
    {
        let id = self.segment_outputs[segment_idx][i];
        assert(id.0 < self.table().len());
        let slot: usize = id.0 as usize;
        match self.kind[slot] {
            HandoffKind::KvCache { .. } => !self.prefill_capture
                && self.kv_device_base[slot].is_some(),
            HandoffKind::HostCollective => self.capturing && self.passes_through(id),
            _ => true,
        }
    }

    fn passes_through(&self, id: HandoffId) -> (res: bool)
        ensures
            res == self.capture_passthrough@.contains(id),
    {
        let mut i: usize = 0;
        while i < self.capture_passthrough.len()
            invariant
                i <= self.capture_passthrough@.len(),
                forall|j: int| 0 <= j < i ==> self.capture_passthrough@[j] != id,
            decreases self.capture_passthrough.len() - i,
        {
            if self.capture_passthrough[i] == id {
                return true;
            }
            i += 1;
        }
        false
    }

    /// Decides how to capture output `i` of a segment; `device` is the runtime's answer
    /// where it was asked. A buffer that stays on the device becomes the tensor's value.
    pub fn plan_output(
        &mut self,
        segment_idx: usize,
        i: usize,
        device: Option<(u64, usize)>,
    ) -> (res: OutputAction)
        requires
            old(self).wf(),
            old(self).kv_sizes_fit(),
            segment_idx < old(self).segments@.len(),
            i < old(self).segment_outputs@[segment_idx as int]@.len(),
            old(self).kv_place_fits(
                old(self).segment_outputs@[segment_idx as int]@[i as int],
                device,
            ),
        ensures
            final(self).wf(),
            output_planned(
                *old(self),
                old(self).segment_outputs@[segment_idx as int]@[i as int],
                device,
                *final(self),
                res,
            ),
    {
        let wanted = self.wants_output_ptr(segment_idx, i);
        let id = self.segment_outputs[segment_idx][i];
        assert(id.0 < self.table().len());
        let slot: usize = id.0 as usize;
        if !wanted {
            return OutputAction::ReadBack { id };
        }
        let (ptr, n_bytes) = match device {
            Some(d) => d,
            None => {
                return OutputAction::ReadBack { id };
            },
        };
        match self.kind[slot] {
            HandoffKind::KvCache { .. } => {
                let base: u64 = match self.kv_device_base[slot] {
                    Some(b) => b,
                    None => {
                        return OutputAction::ReadBack { id };
                    },
                };
                let position = if !self.capturing || self.no_skip {
                    Some(self.position)
                } else {
                    None
                };
                self.device_slots.set(slot, None);
                if self.decode_batch > 1 {
                    let full: usize = match self.kv_full_elems[slot] {
                        Some(n) => n,
                        None => 0,
                    };
                    assert(full * KV_DEVICE_ELEM_BYTES <= usize::MAX);
                    let full_bytes: usize = full * KV_DEVICE_ELEM_BYTES;
                    let cap: usize = if n_bytes > 0 {
                        full_bytes / n_bytes
                    } else {
                        0
                    };
                    OutputAction::KvBatched {
                        id,
                        base,
                        batch: self.decode_batch,
                        cap,
                        row_bytes: n_bytes / self.decode_batch,
                        position,
                    }
                } else if self.device_kv {
                    OutputAction::KvAppend { id, base, n_bytes, position }
                } else {
                    let off: usize = self.position * n_bytes;
                    OutputAction::KvCopy { id, dest: base + off as u64, n_bytes }
                }
            },
            _ => {
                self.device_slots.set(slot, Some(handle_of(ptr, n_bytes)));
                self.f32_slots.set(slot, None);
                OutputAction::Kept
            },
        }
    }

    /// Takes an output that was read back to the host. A new KV entry is to be written
    /// into the paged cache at the current position; anything else is stored.
    pub fn take_output(&mut self, segment_idx: usize, i: usize, data: Vec<Ieee32>) -> (res: Option<
        KvWrite,
    >)
        requires
            old(self).wf(),
            segment_idx < old(self).segments@.len(),
            i < old(self).segment_outputs@[segment_idx as int]@.len(),
        ensures
            final(self).wf(),
            output_taken(
                *old(self),
                old(self).segment_outputs@[segment_idx as int]@[i as int],
                data,
                *final(self),
                res,
            ),
    {
        let id = self.segment_outputs[segment_idx][i];
        assert(id.0 < self.table().len());
        let slot: usize = id.0 as usize;
        match self.kind[slot] {
            HandoffKind::KvCache { kind, layer } => {
                self.device_slots.set(slot, None);
                if self.prefill_capture {
                    self.f32_slots.set(slot, Some(data));
                    None
                } else {
                    Some(KvWrite { kind, layer, slot: self.position, data })
                }
            },
            HandoffKind::HostCollective => {
                self.f32_slots.set(slot, Some(data));
                self.device_slots.set(slot, None);
                None
            },
            _ => {
                self.f32_slots.set(slot, Some(data));
                None
            },
        }
    }

    /// Whether some output of a segment is of a kind that is read back to the host.
    pub open spec fn host_output(&self, segment_idx: int) -> bool {
        &&& 0 <= segment_idx < self.segment_outputs@.len()
        &&& exists|i: int|
            0 <= i < self.segment_outputs@[segment_idx]@.len()
                && self.kind@[(#[trigger] self.segment_outputs@[segment_idx]@[i]).0 as int]
                == HandoffKind::HostCollective
    }

    /// Whether a segment has an output that is read back to the host. Such a segment
    /// cannot be part of a captured graph.
    pub fn segment_has_host_output(&self, segment_idx: usize) -> (res: bool)
        requires
            self.wf(),
        ensures
            res == self.host_output(segment_idx as int),
    {
        if segment_idx >= self.segment_outputs.len() {
            return false;
        }
        let ids = &self.segment_outputs[segment_idx];
        let mut i: usize = 0;
        while i < ids.len()
            invariant
                self.wf(),
                segment_idx < self.segment_outputs@.len(),
                *ids == self.segment_outputs@[segment_idx as int],
                i <= ids@.len(),
                forall|j: int|
                    0 <= j < i ==> self.kind@[(
                    #[trigger] self.segment_outputs@[segment_idx as int]@[j]).0 as int]
                        != HandoffKind::HostCollective,
            decreases ids.len() - i,
        {
            let id = ids[i];
            assert(self.segment_outputs@[segment_idx as int]@[i as int].0 < self.table().len());
            if self.kind[id.0 as usize] == HandoffKind::HostCollective {
                return true;
            }
            i += 1;
        }
        false
    }

    /// Whether some output of a segment is a KV entry.
    pub open spec fn kv_output(&self, segment_idx: int) -> bool {
        exists|i: int|
            0 <= i < self.segment_outputs@[segment_idx]@.len()
                && self.kind@[(#[trigger] self.segment_outputs@[segment_idx]@[i]).0 as int]
                is KvCache
    }

    /// What the captured graph needs refreshed for one segment, in order.
    pub open spec fn refreshes(&self, segment_idx: int) -> Seq<Refresh> {
        let s = segment_idx as usize;
        let a = if self.kv_output(segment_idx) {
            seq![Refresh::DecodePosition { segment_idx: s }]
        } else {
            seq![]
        };
        let b = match self.input_tokens_id {
            Some(id) => if self.segment_inputs@[segment_idx]@.contains(id) {
                seq![Refresh::Tokens { segment_idx: s, id }]
            } else {
                seq![]
            },
            None => seq![],
        };
        let c = match self.position_id {
            Some(id) => if self.segment_inputs@[segment_idx]@.contains(id) {
                seq![Refresh::Position { segment_idx: s, id }]
            } else {
                seq![]
            },
            None => seq![],
        };
        a + b + c
    }

    /// What the captured graph needs refreshed for the first `n` segments.
    pub open spec fn refreshes_upto(&self, n: int) -> Seq<Refresh>
        decreases n,
    {
        if n <= 0 {
            seq![]
        } else {
            self.refreshes_upto(n - 1) + self.refreshes(n - 1)
        }
    }

    fn has_kv_output(&self, segment_idx: usize) -> (res: bool)
        requires
            self.wf(),
            segment_idx < self.segments@.len(),
        ensures
            res == self.kv_output(segment_idx as int),
    {
        let ids = &self.segment_outputs[segment_idx];
        let mut i: usize = 0;
        while i < ids.len()
            invariant
                self.wf(),
                segment_idx < self.segment_outputs@.len(),
                *ids == self.segment_outputs@[segment_idx as int],
                i <= ids@.len(),
                forall|j: int|
                    0 <= j < i ==> !(self.kind@[(
                    #[trigger] self.segment_outputs@[segment_idx as int]@[j]).0 as int]
                        is KvCache),
            decreases ids.len() - i,
        {
            let id = ids[i];
            assert(self.segment_outputs@[segment_idx as int]@[i as int].0 < self.table().len());
            if matches!(self.kind[id.0 as usize], HandoffKind::KvCache { .. }) {
                return true;
            }
            i += 1;
        }
        false
    }

    fn has_input(&self, segment_idx: usize, id: HandoffId) -> (res: bool)
        requires
            segment_idx < self.segment_inputs@.len(),
        ensures
            res == self.segment_inputs@[segment_idx as int]@.contains(id),
    {
        let ids = &self.segment_inputs[segment_idx];
        let mut i: usize = 0;
        while i < ids.len()
            invariant
                segment_idx < self.segment_inputs@.len(),
                *ids == self.segment_inputs@[segment_idx as int],
                i <= ids@.len(),
                forall|j: int| 0 <= j < i ==> ids@[j] != id,
            decreases ids.len() - i,
        {
            if ids[i] == id {
                return true;
            }
            i += 1;
        }
        false
    }

    /// Moves to a position and lists what is to be written on the device so that a captured
    /// graph sees this step's token and position, segment by segment.
    pub fn flush_step_device_inputs(&mut self, position: usize) -> (res: Vec<Refresh>)
        requires
            old(self).wf(),
        ensures
            final(self).wf(),
            *final(self) == (SegmentRunner { position, ..*old(self) }),
            res@ == old(self).refreshes_upto(old(self).segments@.len() as int),
    {
        self.position = position;
        let mut out: Vec<Refresh> = Vec::new();
        let mut s: usize = 0;
        while s < self.segments.len()
            invariant
                self.wf(),
                *self == (SegmentRunner { position, ..*old(self) }),
                s <= self.segments@.len(),
                out@ == old(self).refreshes_upto(s as int),
            decreases self.segments.len() - s,
        {
            let ghost before = out@;
            if self.has_kv_output(s) {
                out.push(Refresh::DecodePosition { segment_idx: s });
            }
            if let Some(id) = self.input_tokens_id {
                if self.has_input(s, id) {
                    out.push(Refresh::Tokens { segment_idx: s, id });
                }
            }
            if let Some(id) = self.position_id {
                if self.has_input(s, id) {
                    out.push(Refresh::Position { segment_idx: s, id });
                }
            }
            assert(self.kv_output(s as int) == old(self).kv_output(s as int));
            assert(out@ =~= before + old(self).refreshes(s as int));
            s += 1;
        }
        out
    }

    /// Moves to a position; `value` is the position as the graph's scalar input has it.
    pub fn set_position(&mut self, position: usize, value: Ieee32)
        requires
            old(self).wf(),
            old(self).names@.len() < u32::MAX,
        ensures
            final(self).wf(),
            final(self).position == position,
            final(self).table() == interned(old(self).table(), "position"@),
            final(self).lookup("position"@) is Some,
            final(self).position_id == final(self).lookup("position"@),
            final(self).host_value(final(self).position_id->0) == Some(seq![value]),
            forall|id: HandoffId|
                id != final(self).position_id->0 ==> #[trigger] final(self).host_value(id) == old(
                    self,
                ).host_value(id),
            exists|mid: SegmentRunner|
                {
                    &&& #[trigger] Self::named(*old(self), mid, "position"@)
                    &&& *final(self) == (SegmentRunner {
                        position,
                        position_id: final(self).position_id,
                        f32_slots: final(self).f32_slots,
                        ..mid
                    })
                },
    {
        let id = self.intern_name("position");
        assert(Self::named(*old(self), *self, "position"@));
        self.position = position;
        self.position_id = Some(id);
        let one = vec![value];
        assert(one@ =~= seq![value]);
        self.f32_slots.set(id.0 as usize, Some(one));
    }

    /// Sets the tokens that the first segment is fed.
    pub fn set_input_tokens(&mut self, name: &str, tokens: Vec<i32>)
        requires
            old(self).wf(),
            old(self).names@.len() < u32::MAX,
        ensures
            final(self).wf(),
            final(self).table() == interned(old(self).table(), name@),
            final(self).lookup(name@) is Some,
            final(self).input_tokens_id == final(self).lookup(name@),
            final(self).i32_slots@[(final(self).input_tokens_id->0).0 as int] == Some(tokens),
            forall|id: HandoffId|
                #[trigger] final(self).host_value(id) == old(self).host_value(id),
            exists|mid: SegmentRunner|
                {
                    &&& #[trigger] Self::named(*old(self), mid, name@)
                    &&& final(self).i32_slots@ == mid.i32_slots@.update(
                        (final(self).input_tokens_id->0).0 as int,
                        Some(tokens),
                    )
                    &&& *final(self) == (SegmentRunner {
                        input_tokens_id: final(self).input_tokens_id,
                        i32_slots: final(self).i32_slots,
                        ..mid
                    })
                },
    {
        let id = self.intern_name(name);
        assert(Self::named(*old(self), *self, name@));
        self.input_tokens_id = Some(id);
        self.i32_slots.set(id.0 as usize, Some(tokens));
    }

    /// Makes a request the active one at a position.
    pub fn activate_request(&mut self, request: u64, position: usize)
        requires
            old(self).wf(),
        ensures
            final(self).wf(),
            *final(self) == (SegmentRunner {
                active_request: Some(request),
                position,
                ..*old(self)
            }),
    {
        self.position = position;
        self.active_request = Some(request);
    }

    /// Sets how many rows one forward advances: at least one.
    pub fn set_decode_batch(&mut self, n: usize)
        requires
            old(self).wf(),
        ensures
            final(self).wf(),
            *final(self) == (SegmentRunner {
                decode_batch: if n == 0 {
                    1
                } else {
                    n
                },
                ..*old(self)
            }),
    {
        self.decode_batch = if n == 0 {
            1
        } else {
            n
        };
    }

    /// Gives every request a KV buffer of its own on the device, or all of them the same.
    pub fn set_paged_device_kv(&mut self, on: bool)
        requires
            old(self).wf(),
        ensures
            final(self).wf(),
            *final(self) == (SegmentRunner { paged_device_kv: on, ..*old(self) }),
    {
        self.paged_device_kv = on;
    }

    /// Keeps KV outputs as tensors instead of writing them into the cache.
    pub fn set_prefill_capture(&mut self, on: bool)
        requires
            old(self).wf(),
        ensures
            final(self).wf(),
            *final(self) == (SegmentRunner { prefill_capture: on, ..*old(self) }),
    {
        self.prefill_capture = on;
    }

    /// Says whether steps are part of a graph that is captured or replayed.
    pub fn set_capturing(&mut self, on: bool)
        requires
            old(self).wf(),
        ensures
            final(self).wf(),
            *final(self) == (SegmentRunner { capturing: on, ..*old(self) }),
    {
        self.capturing = on;
    }

    /// Starts over at the first position.
    pub fn reset_position(&mut self)
        requires
            old(self).wf(),
        ensures
            final(self).wf(),
            *final(self) == (SegmentRunner { position: 0, ..*old(self) }),
    {
        self.position = 0;
    }

    pub fn segment_count(&self) -> (res: usize)
        ensures
            res == self.segments@.len(),
    {
        self.segments.len()
    }

    /// Registers one host output more that stays on the device while capturing.
    pub fn add_capture_passthrough_id(&mut self, id: HandoffId)
        requires
            old(self).wf(),
        ensures
            final(self).wf(),
            *final(self) == (SegmentRunner {
                capture_passthrough: final(self).capture_passthrough,
                ..*old(self)
            }),
            forall|o: HandoffId|
                #[trigger] final(self).capture_passthrough@.contains(o) <==> o == id || old(
                    self,
                ).capture_passthrough@.contains(o),
    {
        let ghost before = self.capture_passthrough@;
        self.capture_passthrough.push(id);
        assert forall|o: HandoffId|
            #[trigger] self.capture_passthrough@.contains(o) <==> o == id || before.contains(o) by {
            if before.contains(o) {
                assert(self.capture_passthrough@[before.index_of(o)] == o);
            }
            assert(self.capture_passthrough@[before.len() as int] == id);
            if self.capture_passthrough@.contains(o) && o != id {
                let k = self.capture_passthrough@.index_of(o);
                assert(before[k] == o);
            }
        }
    }

    /// Registers the host outputs that stay on the device while capturing; names that are
    /// not interned are passed over.
    pub fn set_capture_passthrough_by_names(&mut self, names: &Vec<String>)
        requires
            old(self).wf(),
        ensures
            final(self).wf(),
            *final(self) == (SegmentRunner {
                capture_passthrough: final(self).capture_passthrough,
                ..*old(self)
            }),
            forall|id: HandoffId|
                #[trigger] final(self).capture_passthrough@.contains(id) <==> exists|i: int|
                    0 <= i < names@.len() && old(self).lookup((#[trigger] names@[i])@) == Some(id),
    {
        let mut ids: Vec<HandoffId> = Vec::new();
        let mut i: usize = 0;
        while i < names.len()
            invariant
                self.wf(),
                *self == *old(self),
                i <= names@.len(),
                forall|id: HandoffId|
                    #[trigger] ids@.contains(id) <==> exists|j: int|
                        0 <= j < i && old(self).lookup((#[trigger] names@[j])@) == Some(id),
            decreases names.len() - i,
        {
            let ghost before = ids@;
            let found = self.handoff_id(names[i].as_str());
            if let Some(id) = found {
                ids.push(id);
            }
            assert forall|id: HandoffId|
                #[trigger] ids@.contains(id) <==> exists|j: int|
                    0 <= j < i + 1 && old(self).lookup((#[trigger] names@[j])@) == Some(id) by {
                if found == Some(id) {
                    assert(old(self).lookup(names@[i as int]@) == Some(id));
                    assert(ids@[before.len() as int] == id);
                } else if before.contains(id) {
                    let k = before.index_of(id);
                    assert(ids@[k] == id);
                } else if ids@.contains(id) {
                    let k = ids@.index_of(id);
                    assert(k < before.len());
                    assert(before[k] == id);
                }
            }
            i += 1;
        }
        self.capture_passthrough = ids;
    }
}

/// One device write that a captured graph needs before it runs.
#[derive(Debug, Clone, Copy, PartialEq, Eq, Structural)]
pub enum Refresh {
    /// Set the decode position of the segment's runtime.
    DecodePosition { segment_idx: usize },
    /// Write the step's tokens into the input's buffer.
    Tokens { segment_idx: usize, id: HandoffId },
    /// Write the step's position into the input's buffer.
    Position { segment_idx: usize, id: HandoffId },
}

/// A list of `n` absent buffers.
fn no_buffers(n: usize) -> (res: Vec<Option<u64>>)
    ensures
        res@.len() == n,
        forall|i: int| 0 <= i < n ==> (#[trigger] res@[i]) is None,
{
    let mut out: Vec<Option<u64>> = Vec::new();
    let mut i: usize = 0;
    while i < n
        invariant
            i <= n,
            out@.len() == i,
            forall|j: int| 0 <= j < i ==> (#[trigger] out@[j]) is None,
        decreases n - i,
    {
        out.push(None);
        i += 1;
    }
    out
}

/// What a segment is fed is what the tensor holds: a device tensor that was kept is bound as it
/// is, whole and in place; one that is only on the host is uploaded; one that is nowhere is
/// not fed at all.
pub proof fn inputs_are_what_the_tensor_holds(r: SegmentRunner, id: HandoffId)
    requires
        r.wf(),
        id.0 < r.names@.len(),
        r.kind@[id.0 as int] == HandoffKind::Device,
    ensures
        r.device_slots@[id.0 as int] matches Some(h) ==> r.input_action(id)
            == (InputAction::BindDevice { id, ptr: h.ptr, n_bytes: h.n_bytes }),
        r.device_slots@[id.0 as int] is None && r.f32_slots@[id.0 as int] is Some ==> r.input_action(
            id,
        ) == (InputAction::UploadF32 { id }),
        r.device_slots@[id.0 as int] is None && r.f32_slots@[id.0 as int] is None
            ==> r.input_action(id) == InputAction::Nothing,
{
}

/// New KV entries line up: an entry that is copied into the cache goes to the cache's base at
/// position zero, and each position's entry begins where the one before ends.
pub proof fn kv_entries_line_up(
    a: SegmentRunner,
    b: SegmentRunner,
    id: HandoffId,
    ptr: u64,
    n_bytes: usize,
)
    requires
        b == (SegmentRunner { position: b.position, ..a }),
        b.position == a.position + 1,
        a.output_action(id, Some((ptr, n_bytes))) is KvCopy,
        a.kv_place_fits(id, Some((ptr, n_bytes))),
        b.kv_place_fits(id, Some((ptr, n_bytes))),
    ensures
        b.output_action(id, Some((ptr, n_bytes))) is KvCopy,
        a.output_action(id, Some((ptr, n_bytes)))->KvCopy_n_bytes == n_bytes,
        b.output_action(id, Some((ptr, n_bytes)))->dest == a.output_action(
            id,
            Some((ptr, n_bytes)),
        )->dest + n_bytes,
        a.position == 0 ==> Some(a.output_action(id, Some((ptr, n_bytes)))->dest)
            == a.kv_device_base@[id.0 as int],
{
    let p = a.position as int;
    let n = n_bytes as int;
    assert((p + 1) * n == p * n + n) by (nonlinear_arith);
    assert(0 <= p * n) by (nonlinear_arith)
        requires
            p >= 0,
            n >= 0,
    ;
    assert(0 * n == 0) by (nonlinear_arith);
}

/// A batch's new KV entries fit the cache: the rows make up no more than what was given, and
/// the positions that the cache is said to have fit its buffer.
pub proof fn batched_kv_entries_fit(r: SegmentRunner, id: HandoffId, ptr: u64, n_bytes: usize)
    requires
        r.kv_sizes_fit(),
        0 <= id.0 < r.kv_full_elems@.len(),
        r.output_action(id, Some((ptr, n_bytes))) is KvBatched,
        n_bytes > 0,
    ensures
        ({
            let a = r.output_action(id, Some((ptr, n_bytes)));
            let full = match r.kv_full_elems@[id.0 as int] {
                Some(n) => n as int,
                None => 0,
            };
            &&& a->batch == r.decode_batch > 1
            &&& a->row_bytes * a->batch <= n_bytes < (a->row_bytes + 1) * a->batch
            &&& a->cap * n_bytes <= full * KV_DEVICE_ELEM_BYTES < (a->cap + 1) * n_bytes
            &&& Some(a->KvBatched_base) == r.kv_device_base@[id.0 as int] || r.kv_device_base@[id.0
                as int] is None
        }),
{
    let n = n_bytes as int;
    let b = r.decode_batch as int;
    let full = r.kv_elems(id.0 as int) * KV_DEVICE_ELEM_BYTES;
    let rows = n / b;
    let cap = full / n;
    if r.kv_full_elems@[id.0 as int] is Some {
        assert(r.kv_full_elems@[id.0 as int]->0 * KV_DEVICE_ELEM_BYTES <= usize::MAX);
    }
    assert(rows * b <= n < (rows + 1) * b && 0 <= rows <= n) by (nonlinear_arith)
        requires
            rows == n / b,
            b > 1,
            n > 0,
    ;
    assert(cap * n <= full < (cap + 1) * n && 0 <= cap <= full) by (nonlinear_arith)
        requires
            cap == full / n,
            n > 0,
            full >= 0,
    ;
}

/// What a captured graph does not take in by itself is refreshed from outside: while a graph is
/// captured, the step's tokens and position are not uploaded with the other inputs, and every
/// segment that takes them is on the list of what to refresh, as is every segment that
/// appends to the KV cache.
pub proof fn captured_inputs_are_refreshed(r: SegmentRunner, s: int, i: int)
    requires
        r.wf(),
        0 <= s < r.segments@.len(),
        0 <= i < r.segment_inputs@[s]@.len(),
    ensures
        ({
            let id = r.segment_inputs@[s]@[i];
            let seg = s as usize;
            &&& r.capturing && !r.no_skip && r.input_tokens_id == Some(id) && r.kind@[id.0 as int]
                == HandoffKind::I32 ==> r.input_action(id) == InputAction::Nothing
            &&& r.capturing && !r.no_skip && r.position_id == Some(id) && r.kind@[id.0 as int]
                == HandoffKind::F32 ==> r.input_action(id) == InputAction::Nothing
            &&& r.input_tokens_id == Some(id) ==> r.refreshes(s).contains(
                Refresh::Tokens { segment_idx: seg, id },
            )
            &&& r.position_id == Some(id) ==> r.refreshes(s).contains(
                Refresh::Position { segment_idx: seg, id },
            )
            &&& r.kv_output(s) ==> r.refreshes(s).contains(
                Refresh::DecodePosition { segment_idx: seg },
            )
        }),
{
    let id = r.segment_inputs@[s]@[i];
    let seg = s as usize;
    let all = r.refreshes(s);
    assert(r.segment_inputs@[s]@.contains(id));
    let a: nat = if r.kv_output(s) {
        1
    } else {
        0
    };
    if r.kv_output(s) {
        assert(all[0] == (Refresh::DecodePosition { segment_idx: seg }));
    }
    if r.input_tokens_id == Some(id) {
        assert(all[a as int] == (Refresh::Tokens { segment_idx: seg, id }));
    }
    if r.position_id == Some(id) {
        assert(all[all.len() - 1] == (Refresh::Position { segment_idx: seg, id }));
    }
}

/// Whether deciding how to capture a tensor leads from one store to another, with this action:
/// a buffer that stays on the device becomes the tensor's value.
pub open spec fn output_planned(
    before: SegmentRunner,
    id: HandoffId,
    device: Option<(u64, usize)>,
    after: SegmentRunner,
    res: OutputAction,
) -> bool {
    let slot = id.0 as int;
    &&& res == before.output_action(id, device)
    &&& after == (SegmentRunner {
        device_slots: after.device_slots,
        f32_slots: after.f32_slots,
        ..before
    })
    &&& match res {
        OutputAction::ReadBack { .. } => after == before,
        OutputAction::Kept => {
            &&& after.device_slots@ == before.device_slots@.update(
                slot,
                Some(bf16_handle((device->0).0, (device->0).1)),
            )
            &&& after.f32_slots@ == before.f32_slots@.update(slot, None)
        },
        _ => {
            &&& after.device_slots@ == before.device_slots@.update(slot, None)
            &&& after.f32_slots@ == before.f32_slots@
        },
    }
}

/// Whether taking an output that was read back leads from one store to another: a new KV entry
/// is handed on to the cache, anything else is stored.
pub open spec fn output_taken(
    before: SegmentRunner,
    id: HandoffId,
    data: Vec<Ieee32>,
    after: SegmentRunner,
    res: Option<KvWrite>,
) -> bool {
    let slot = id.0 as int;
    let to_cache = before.kind@[slot] is KvCache && !before.prefill_capture;
    &&& after == (SegmentRunner {
        device_slots: after.device_slots,
        f32_slots: after.f32_slots,
        ..before
    })
    &&& res is Some <==> to_cache
    &&& res matches Some(w) ==> {
        &&& HandoffKind::KvCache { kind: w.kind, layer: w.layer } == before.kind@[slot]
        &&& w.slot == before.position
        &&& w.data@ == data@
    }
    &&& after.f32_slots@ == if to_cache {
        before.f32_slots@
    } else {
        before.f32_slots@.update(slot, Some(data))
    }
    &&& after.device_slots@ == if before.kind@[slot] is KvCache || before.kind@[slot]
        is HostCollective {
        before.device_slots@.update(slot, None)
    } else {
        before.device_slots@
    }
}

/// What a segment gives on the device, the next one is given: a tensor that is kept there is
/// afterwards bound just where the runtime has it, whole, and no stale value on the host can
/// take its place. No other tensor changes.
pub proof fn kept_outputs_feed_later_segments(
    before: SegmentRunner,
    id: HandoffId,
    ptr: u64,
    n_bytes: usize,
    after: SegmentRunner,
    other: HandoffId,
)
    requires
        before.wf(),
        id.0 < before.names@.len(),
        other.0 < before.names@.len(),
        before.kind@[id.0 as int] == HandoffKind::Device,
        output_planned(
            before,
            id,
            Some((ptr, n_bytes)),
            after,
            before.output_action(id, Some((ptr, n_bytes))),
        ),
    ensures
        before.output_action(id, Some((ptr, n_bytes))) == OutputAction::Kept,
        after.input_action(id) == (InputAction::BindDevice { id, ptr, n_bytes }),
        after.host_value(id) is None,
        after.device_buffer(id) == Some((ptr, (n_bytes / 2) as usize)),
        other != id ==> after.host_value(other) == before.host_value(other)
            && after.device_buffer(other) == before.device_buffer(other),
{
}

/// An output that is read back is stored as it is, and can be read; a new KV entry is instead
/// written to the cache of its half and layer, at the current position. No other tensor
/// changes.
pub proof fn outputs_read_back_are_stored(
    before: SegmentRunner,
    id: HandoffId,
    data: Vec<Ieee32>,
    after: SegmentRunner,
    res: Option<KvWrite>,
    other: HandoffId,
)
    requires
        before.wf(),
        id.0 < before.names@.len(),
        other.0 < before.names@.len(),
        output_taken(before, id, data, after, res),
    ensures
        !(before.kind@[id.0 as int] is KvCache) ==> res is None && after.host_value(id) == Some(
            data@,
        ),
        before.kind@[id.0 as int] is KvCache && before.prefill_capture ==> res is None
            && after.host_value(id) == Some(data@),
        before.kind@[id.0 as int] is KvCache && !before.prefill_capture ==> {
            &&& res is Some
            &&& res->0.slot == before.position
            &&& res->0.data@ == data@
            &&& res->0.kind == before.kind@[id.0 as int]->KvCache_kind
            &&& res->0.layer == before.kind@[id.0 as int]->KvCache_layer
            &&& after.host_value(id) == before.host_value(id)
        },
        other != id ==> after.host_value(other) == before.host_value(other)
            && after.device_buffer(other) == before.device_buffer(other),
{
}

/// A request's keys and values are its own: a segment is bound to the buffer that the active
/// request has for the tensor, of the size declared for it; where the request has none yet, one
/// is made for that request.
pub proof fn requests_are_bound_to_their_own_kv(r: SegmentRunner, id: HandoffId, request: u64)
    requires
        r.wf(),
        r.kv_sizes_fit(),
        id.0 < r.names@.len(),
        r.kind@[id.0 as int] is KvCache,
        r.paged_device_kv,
        r.active_request == Some(request),
    ensures
        ({
            let slot = id.0 as int;
            let size = match r.kv_full_elems@[slot] {
                Some(n) => n * KV_DEVICE_ELEM_BYTES,
                None => 0,
            };
            match request_buffer(r.kv_req_bufs@, request, slot) {
                Some(p) => {
                    &&& r.input_action(id) is BindKv
                    &&& r.input_action(id)->BindKv_ptr == p
                    &&& r.input_action(id)->BindKv_n_bytes == size
                    &&& r.kv_req_bufs@.contains_key(request)
                    &&& r.kv_req_bufs@[request]@[slot] == Some(p)
                },
                None => {
                    &&& r.input_action(id) is AllocKv
                    &&& r.input_action(id)->request == request
                    &&& r.input_action(id)->AllocKv_n_bytes == size
                },
            }
        }),
{
    let slot = id.0 as int;
    if r.kv_full_elems@[slot] is Some {
        assert(r.kv_full_elems@[slot]->0 * KV_DEVICE_ELEM_BYTES <= usize::MAX);
    }
}

} // verus!
