//! What the CUDA layer decides without a device: graph reuse by key, the name and layout
//! of the shared all-reduce segment, and the transports that have no implementation.

use vstd::prelude::*;

use crate::runtime::collective_kind::CollectiveKind;
use crate::runtime::distributed::rank_plan::ShmInfo;
use crate::runtime::error::RuntimeError;

verus! {

/// How a decode step went through the graph cache.
#[derive(Debug, Clone, Copy, PartialEq, Eq, Structural)]
pub enum GraphOutcome {
    /// First sight of the key: ran eagerly, and a graph was captured.
    Captured,
    /// The key's graph was replayed before the step.
    Replayed,
    /// Not eligible; ran eagerly.
    Eager,
}

/// Which keys have a graph, and how often graphs were captured and replayed.
#[derive(Debug)]
pub struct CudaGraphCache {
    pub keys: Vec<(u32, u32)>,
    pub captures: u64,
    pub replays: u64,
}

impl CudaGraphCache {
    /// A cache without graphs.
    pub fn new() -> (res: Self)
        ensures
            res.keys@.len() == 0,
            res.captures == 0,
            res.replays == 0,
    {
        CudaGraphCache { keys: Vec::new(), captures: 0, replays: 0 }
    }

    pub fn captures(&self) -> (res: u64)
        ensures
            res == self.captures,
    {
        self.captures
    }

    pub fn replays(&self) -> (res: u64)
        ensures
            res == self.replays,
    {
        self.replays
    }

    /// Whether a step with this key replays a graph or captures one.
    pub fn plan(&self, key: (u32, u32)) -> (res: GraphOutcome)
        ensures
            res == if self.keys@.contains(key) {
                GraphOutcome::Replayed
            } else {
                GraphOutcome::Captured
            },
    {
        let mut i: usize = 0;
        while i < self.keys.len()
            invariant
                i <= self.keys@.len(),
                forall|j: int| 0 <= j < i ==> self.keys@[j] != key,
            decreases self.keys.len() - i,
        {
            let k = self.keys[i];
            if k.0 == key.0 && k.1 == key.1 {
                assert(self.keys@[i as int] == key);
                return GraphOutcome::Replayed;
            }
            i += 1;
        }
        GraphOutcome::Captured
    }

    /// Notes that the key's graph was launched.
    pub fn note_replay(&mut self)
        requires
            old(self).replays < u64::MAX,
        ensures
            *final(self) == (CudaGraphCache {
                replays: (old(self).replays + 1) as u64,
                ..*old(self)
            }),
    {
        self.replays = self.replays + 1;
    }

    /// Notes that a graph was captured for a key.
    pub fn note_capture(&mut self, key: (u32, u32))
        requires
            old(self).captures < u64::MAX,
        ensures
            final(self).keys@ == old(self).keys@.push(key),
            final(self).captures == old(self).captures + 1,
            final(self).replays == old(self).replays,
    {
        self.keys.push(key);
        self.captures = self.captures + 1;
    }
}

/// A key is captured once: after that it is replayed, and other keys are as before.
pub proof fn captured_keys_replay(keys: Seq<(u32, u32)>, key: (u32, u32), other: (u32, u32))
    ensures
        keys.push(key).contains(key),
        other != key ==> (keys.push(key).contains(other) <==> keys.contains(other)),
{
    assert(keys.push(key)[keys.len() as int] == key);
    if other != key {
        if keys.contains(other) {
            let i = keys.index_of(other);
            assert(keys.push(key)[i] == other);
        }
        if keys.push(key).contains(other) {
            let i = keys.push(key).index_of(other);
            assert(i < keys.len());
            assert(keys[i] == other);
        }
    }
}

/// All-reduces of up to this many elements go through shared memory.
pub const MAX_ELEMS: usize = 131072;

/// Bytes of the two sequence flags, with padding.
pub const FLAGS_BYTES: usize = 64;

/// Bytes of one rank's slot: two per element.
pub const SLOT_BYTES: usize = 262144;

/// Bytes of the whole segment: the flags and two slots.
pub const SHM_BYTES: usize = 524352;

/// The FNV-1a hash of some bytes.
pub open spec fn fnv1a(bytes: Seq<u8>) -> u64
    decreases bytes.len(),
{
    if bytes.len() == 0 {
        0xcbf29ce484222325
    } else {
        (((fnv1a(bytes.drop_last()) ^ (bytes.last() as u64)) as int * 0x100000001b3)
            % 0x1_0000_0000_0000_0000) as u64
    }
}

/// The lower-case hexadecimal digit of a number below sixteen.
pub open spec fn hex_digit(d: int) -> char {
    "0123456789abcdef"@[d]
}

/// The lowest `n` hexadecimal digits of a number, highest first.
pub open spec fn hex(h: int, n: nat) -> Seq<char>
    decreases n,
{
    if n == 0 {
        seq![]
    } else {
        hex(h / 16, (n - 1) as nat).push(hex_digit(h % 16))
    }
}

/// The hash of the first 32 bytes of the shared id.
pub fn segment_hash(id_bytes: &[u8]) -> (res: u64)
    ensures
        res == fnv1a(
            id_bytes@.take(
                if id_bytes@.len() < 32 {
                    id_bytes@.len() as int
                } else {
                    32
                },
            ),
        ),
{
    let n: usize = if id_bytes.len() < 32 {
        id_bytes.len()
    } else {
        32
    };
    let mut h: u64 = 0xcbf29ce484222325;
    let mut i: usize = 0;
    assert(id_bytes@.take(0) =~= seq![]);
    while i < n
        invariant
            i <= n <= id_bytes@.len(),
            h == fnv1a(id_bytes@.take(i as int)),
        decreases n - i,
    {
        assert(id_bytes@.take(i + 1).drop_last() =~= id_bytes@.take(i as int));
        let x: u64 = h ^ (id_bytes[i] as u64);
        let wide: u128 = x as u128 * 0x100000001b3u128;
        h = (wide % 0x1_0000_0000_0000_0000u128) as u64;
        i += 1;
    }
    h
}

/// Appends the lowest `n` hexadecimal digits of a number.
fn push_hex(s: &mut String, h: u64, n: u64)
    ensures
        final(s)@ == old(s)@ + hex(h as int, n as nat),
    decreases n,
{
    if n > 0 {
        push_hex(s, h / 16, n - 1);
        proof {
            reveal_strlit("0123456789abcdef");
        }
        let d: usize = (h % 16) as usize;
        let c = "0123456789abcdef".get_char(d);
        s.push(c);
    }
    assert(s@ =~= old(s)@ + hex(h as int, n as nat));
}

/// The path of the segment that two ranks share, by their common id.
pub fn segment_path(id_bytes: &[u8]) -> (res: String)
    ensures
        res@ == "/dev/shm/skein_ar_"@ + hex(
            fnv1a(
                id_bytes@.take(
                    if id_bytes@.len() < 32 {
                        id_bytes@.len() as int
                    } else {
                        32
                    },
                ),
            ) as int,
            16,
        ),
{
    let mut s = "/dev/shm/skein_ar_".to_owned();
    push_hex(&mut s, segment_hash(id_bytes), 16);
    s
}

/// What a rank that mapped the segment at `ptr` offers.
pub fn shm_info(ptr: u64, rank: i32) -> (res: ShmInfo)
    ensures
        res == (ShmInfo { ptr, rank, slot_bytes: 262144, max_elems: 131072 }),
{
    ShmInfo { ptr, rank, slot_bytes: 262144, max_elems: MAX_ELEMS }
}

/// One rank's communicator. It cannot be made here.
#[derive(Debug)]
pub struct NcclCommunicator {
    pub world_size: usize,
    pub rank: usize,
}

impl NcclCommunicator {
    /// Always an error: there is no implementation.
    pub fn new(world_size: usize, rank: usize) -> (res: Result<Self, RuntimeError>)
        ensures
            res == Err::<NcclCommunicator, _>(
                RuntimeError::NotImplemented { what: "NcclCommunicator::new" },
            ),
    {
        Err(RuntimeError::NotImplemented { what: "NcclCommunicator::new" })
    }

    pub fn world_size(&self) -> (res: usize)
        ensures
            res == self.world_size,
    {
        self.world_size
    }

    pub fn rank(&self) -> (res: usize)
        ensures
            res == self.rank,
    {
        self.rank
    }

    /// Always an error: there is no implementation.
    pub fn run(
        &self,
        kind: CollectiveKind,
        participants: &[usize],
        device_buffer: u64,
        len: usize,
    ) -> (res: Result<(), RuntimeError>)
        ensures
            res == Err::<(), _>(RuntimeError::NotImplemented { what: "NcclCommunicator::run" }),
    {
        Err(RuntimeError::NotImplemented { what: "NcclCommunicator::run" })
    }
}

/// RDMA transport. It cannot be made here.
#[derive(Debug)]
pub struct RdmaTransport;

impl RdmaTransport {
    /// Always an error: there is no implementation.
    pub fn new() -> (res: Result<Self, RuntimeError>)
        ensures
            res == Err::<RdmaTransport, _>(
                RuntimeError::NotImplemented { what: "RdmaTransport::new" },
            ),
    {
        Err(RuntimeError::NotImplemented { what: "RdmaTransport::new" })
    }
}

/// A step replays a graph exactly when one was captured for its key.
pub proof fn graphs_are_replayed_by_key(
    cache: &CudaGraphCache,
    key: (u32, u32),
    outcome: GraphOutcome,
)
    requires
        call_ensures(CudaGraphCache::plan, (cache, key), outcome),
    ensures
        outcome is Replayed <==> cache.keys@.contains(key),
        outcome is Captured <==> !cache.keys@.contains(key),
{
}

/// A shared slot holds two bytes for each of the elements that fit it.
pub proof fn shared_slots_hold_their_elements(ptr: u64, rank: i32, info: ShmInfo)
    requires
        call_ensures(shm_info, (ptr, rank), info),
    ensures
        info.ptr == ptr,
        info.rank == rank,
        info.slot_bytes == 2 * info.max_elems,
{
}

} // verus!
