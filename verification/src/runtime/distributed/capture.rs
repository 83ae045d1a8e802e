//! What a rank settles at bootstrap: which tensors stay on the host, its place in the
//! pipeline, and the part of the schedule that is captured as one device graph; and which
//! parts a step then runs, captures or replays.

use vstd::prelude::*;

use crate::runtime::collective_kind::CollectiveKind;
use crate::runtime::distributed::handoff::{names_contain, SequenceStep};
use crate::runtime::distributed::rank_plan::{
    handoff_receiver, handoff_sender, receiver_of, sender_of, HandoffId, ResolvedSequenceStep,
};
use crate::runtime::distributed::segment_runner::SegmentRunner;

verus! {

/// The switches that bootstrap reads.
#[derive(Debug, Clone, Copy, PartialEq, Eq, Structural)]
pub struct ServeFlags {
    /// The final logits stay on the device, and the token is chosen there.
    pub device_logits: bool,
    /// Stage handoffs stay on the device.
    pub device_sendrecv: bool,
}

/// Whether a step is a collective of the given kind over the named tensor.
pub open spec fn hands_over(step: SequenceStep, kind: CollectiveKind, name: Seq<char>) -> bool {
    step is Collective && step->collective == kind && step->Collective_tensor@ == name
}

/// Whether a tensor must stay on the host: the collectives other than all-reduce keep
/// theirs there, and so do the logits, unless a switch keeps logits or stage handoffs on
/// the device.
pub open spec fn stays_on_host(
    schedule: Seq<SequenceStep>,
    flags: ServeFlags,
    name: Seq<char>,
) -> bool {
    let collective = exists|i: int|
        0 <= i < schedule.len() && (#[trigger] schedule[i]) is Collective && schedule[i]->collective
            != CollectiveKind::RingAllReduce && schedule[i]->Collective_tensor@ == name;
    let handoff = exists|i: int|
        0 <= i < schedule.len() && hands_over(
            #[trigger] schedule[i],
            CollectiveKind::SendRecv,
            name,
        );
    let base = if name == "logits"@ {
        !flags.device_logits
    } else {
        collective
    };
    base && !(flags.device_sendrecv && handoff)
}

/// Whether some step hands over the named tensor between stages.
fn is_stage_handoff(schedule: &Vec<SequenceStep>, name: &str) -> (res: bool)
    ensures
        res == exists|i: int|
            0 <= i < schedule@.len() && hands_over(
                #[trigger] schedule@[i],
                CollectiveKind::SendRecv,
                name@,
            ),
{
    let mut i: usize = 0;
    while i < schedule.len()
        invariant
            i <= schedule@.len(),
            forall|j: int|
                0 <= j < i ==> !hands_over(
                    #[trigger] schedule@[j],
                    CollectiveKind::SendRecv,
                    name@,
                ),
        decreases schedule.len() - i,
    {
        if let SequenceStep::Collective { collective, tensor, .. } = &schedule[i] {
            if *collective == CollectiveKind::SendRecv && crate::text::same(tensor.as_str(), name) {
                assert(hands_over(schedule@[i as int], CollectiveKind::SendRecv, name@));
                return true;
            }
        }
        i += 1;
    }
    false
}

/// The names of the tensors that must stay on the host.
pub fn host_tensors(schedule: &Vec<SequenceStep>, flags: ServeFlags) -> (res: Vec<String>)
    ensures
        forall|name: Seq<char>|
            #[trigger] names_contain(res@, name) <==> stays_on_host(schedule@, flags, name),
{
    let mut out: Vec<String> = Vec::new();
    if !flags.device_logits && !(flags.device_sendrecv && is_stage_handoff(schedule, "logits")) {
        out.push("logits".to_owned());
        assert(out@[0]@ == "logits"@);
    }
    assert forall|name: Seq<char>| #[trigger] names_contain(out@, name) <==> (name == "logits"@
        && stays_on_host(schedule@, flags, name)) by {
        if names_contain(out@, name) {
            let k = choose|k: int| 0 <= k < out@.len() && (#[trigger] out@[k])@ == name;
            assert(k == 0);
        }
    }
    let mut i: usize = 0;
    while i < schedule.len()
        invariant
            i <= schedule@.len(),
            forall|name: Seq<char>|
                #[trigger] names_contain(out@, name) <==> stays_on_host(schedule@, flags, name) && (
                name == "logits"@ || exists|j: int|
                    0 <= j < i && (#[trigger] schedule@[j]) is Collective && schedule@[j]->collective
                        != CollectiveKind::RingAllReduce && schedule@[j]->Collective_tensor@
                        == name),
        decreases schedule.len() - i,
    {
        let ghost before = out@;
        let ghost mut added: Option<Seq<char>> = None;
        if let SequenceStep::Collective { collective, tensor, .. } = &schedule[i] {
            if *collective != CollectiveKind::RingAllReduce {
                let logits = crate::text::same(tensor.as_str(), "logits");
                let handed = flags.device_sendrecv && is_stage_handoff(schedule, tensor.as_str());
                assert(schedule@[i as int]->Collective_tensor@ == tensor@);
                if !logits && !handed {
                    assert(stays_on_host(schedule@, flags, tensor@));
                    out.push(tensor.clone());
                    proof {
                        added = Some(tensor@);
                    }
                }
            }
        }
        assert forall|name: Seq<char>| #[trigger]
            names_contain(out@, name) <==> stays_on_host(schedule@, flags, name) && (name
                == "logits"@ || exists|j: int|
                0 <= j < i + 1 && (#[trigger] schedule@[j]) is Collective && schedule@[j]->collective
                    != CollectiveKind::RingAllReduce && schedule@[j]->Collective_tensor@
                    == name) by {
            if names_contain(before, name) {
                let k = choose|k: int| 0 <= k < before.len() && (#[trigger] before[k])@ == name;
                assert(out@[k]@ == name);
            }
            if added is Some && name == added->0 {
                assert(out@[before.len() as int]@ == name);
                assert(schedule@[i as int]->Collective_tensor@ == name);
            }
            if names_contain(out@, name) && !names_contain(before, name) {
                let k = choose|k: int| 0 <= k < out@.len() && (#[trigger] out@[k])@ == name;
                if k < before.len() {
                    assert(before[k]@ == name);
                }
            }
        }
        i += 1;
    }
    out
}

/// Whether a step is an all-reduce.
pub open spec fn all_reduces(step: ResolvedSequenceStep) -> bool {
    step is Collective && step->collective == CollectiveKind::RingAllReduce
}

/// Whether a rank sends at a step.
pub open spec fn sends(step: ResolvedSequenceStep, rank: usize) -> bool {
    step is Collective && step->collective == CollectiveKind::SendRecv && sender_of(
        step->participants@,
    ) == rank
}

/// Whether a rank receives at a step.
pub open spec fn receives(step: ResolvedSequenceStep, rank: usize) -> bool {
    step is Collective && step->collective == CollectiveKind::SendRecv && receiver_of(
        step->participants@,
    ) == rank
}

/// Whether a step runs a segment of the rank whose output is read back to the host.
pub open spec fn reads_back(runner: SegmentRunner, step: ResolvedSequenceStep, rank: usize) -> bool {
    step is ExecuteSegment && step->ExecuteSegment_device_idx as usize == rank
        && runner.host_output(step->segment_idx as int)
}

/// Whether `split` is the end of the part before the host tail.
pub open spec fn is_split(schedule: Seq<ResolvedSequenceStep>, split: int) -> bool {
    &&& 0 <= split <= schedule.len()
    &&& forall|i: int| split <= i < schedule.len() ==> !all_reduces(#[trigger] schedule[i])
    &&& (split > 0 && all_reduces(schedule[split - 1])) || (split == schedule.len() && forall|i: int|
        0 <= i < schedule.len() ==> !all_reduces(#[trigger] schedule[i]))
}

/// The end of the part before the host tail: just after the last all-reduce, or the whole
/// schedule where there is none.
pub fn capture_split(schedule: &Vec<ResolvedSequenceStep>) -> (res: usize)
    ensures
        is_split(schedule@, res as int),
{
    let mut i: usize = schedule.len();
    while i > 0
        invariant
            i <= schedule@.len(),
            forall|j: int| i <= j < schedule@.len() ==> !all_reduces(#[trigger] schedule@[j]),
        decreases i,
    {
        if let ResolvedSequenceStep::Collective { collective, .. } = &schedule[i - 1] {
            if *collective == CollectiveKind::RingAllReduce {
                assert(all_reduces(schedule@[i - 1]));
                return i;
            }
        }
        i -= 1;
    }
    schedule.len()
}

/// A rank's place in the pipeline. Ranks are numbered stage by stage.
#[derive(Debug, Clone, Copy, PartialEq, Eq, Structural)]
pub struct StagePlace {
    pub stage: usize,
    pub is_last_stage: bool,
    /// The first rank of the last stage.
    pub last_stage_root: usize,
}

/// The number of ranks per stage: at least one.
pub open spec fn stage_width(tp: u32, ep: u32) -> int {
    if tp * ep == 0 {
        1
    } else {
        tp * ep
    }
}

/// The last stage's number; zero where there are no stages.
pub open spec fn last_stage(pp: u32) -> int {
    if pp == 0 {
        0
    } else {
        pp - 1
    }
}

/// Finds a rank's place.
pub fn stage_place(rank: usize, tp: u32, pp: u32, ep: u32) -> (res: StagePlace)
    requires
        rank <= u32::MAX,
        tp * ep <= u32::MAX,
        last_stage(pp) * tp <= u32::MAX,
        last_stage(pp) * tp * ep <= u32::MAX,
    ensures
        res.stage == rank as int / stage_width(tp, ep),
        res.is_last_stage <==> res.stage == last_stage(pp),
        res.last_stage_root == last_stage(pp) * tp * ep,
{
    let product: u32 = tp * ep;
    let group: usize = if product == 0 {
        1
    } else {
        product as usize
    };
    let stage: usize = rank / group;
    assert(stage <= rank) by (nonlinear_arith)
        requires
            stage == rank / group,
            group >= 1,
    ;
    let last: u32 = if pp == 0 {
        0
    } else {
        pp - 1
    };
    StagePlace {
        stage,
        is_last_stage: stage as u32 == last,
        last_stage_root: (last * tp * ep) as usize,
    }
}

/// With every dimension at least one, exactly the ranks from the root on are on the last
/// stage.
pub proof fn last_stage_starts_at_its_root(rank: int, tp: u32, pp: u32, ep: u32)
    requires
        tp >= 1,
        pp >= 1,
        ep >= 1,
        0 <= rank < pp * (tp * ep),
    ensures
        rank / stage_width(tp, ep) == last_stage(pp) <==> rank >= last_stage(pp) * tp * ep,
        0 <= rank / stage_width(tp, ep) < pp,
{
    let w = tp * ep;
    let last = pp - 1;
    assert(w >= 1) by (nonlinear_arith)
        requires
            tp >= 1,
            ep >= 1,
            w == tp * ep,
    ;
    assert(last * tp * ep == last * w) by (nonlinear_arith)
        requires
            w == tp * ep,
    ;
    let q = rank / w;
    assert(q * w <= rank < q * w + w) by (nonlinear_arith)
        requires
            q == rank / w,
            w >= 1,
            rank >= 0,
    ;
    assert(0 <= q < pp) by (nonlinear_arith)
        requires
            q * w <= rank,
            rank < q * w + w,
            0 <= rank < pp * w,
            w >= 1,
    ;
    assert(q == last <==> rank >= last * w) by (nonlinear_arith)
        requires
            q * w <= rank < q * w + w,
            q <= last,
            w >= 1,
    ;
}

/// The part `lo .. hi` of the schedule that is captured.
#[derive(Debug, Clone, Copy, PartialEq, Eq, Structural)]
pub struct CaptureWindow {
    pub lo: usize,
    pub hi: usize,
}

/// Whether a window is the one between a rank's stage handoffs: it starts after the last
/// receive and ends before the first send.
pub open spec fn between_handoffs(
    schedule: Seq<ResolvedSequenceStep>,
    rank: usize,
    lo: int,
    hi: int,
) -> bool {
    &&& 0 <= lo <= schedule.len()
    &&& 0 <= hi <= schedule.len()
    &&& lo > 0 ==> receives(schedule[lo - 1], rank)
    &&& forall|i: int| lo <= i < schedule.len() ==> !receives(#[trigger] schedule[i], rank)
    &&& hi < schedule.len() ==> sends(schedule[hi], rank)
    &&& forall|i: int| 0 <= i < hi ==> !sends(#[trigger] schedule[i], rank)
}

fn handoff_window(schedule: &Vec<ResolvedSequenceStep>, rank: usize) -> (res: (usize, usize))
    ensures
        between_handoffs(schedule@, rank, res.0 as int, res.1 as int),
{
    let n: usize = schedule.len();
    let mut lo: usize = 0;
    let mut hi: usize = n;
    let mut i: usize = 0;
    while i < n
        invariant
            n == schedule@.len(),
            i <= n,
            lo <= i,
            hi <= n,
            hi < n ==> hi < i,
            lo > 0 ==> receives(schedule@[lo - 1], rank),
            forall|j: int| lo <= j < i ==> !receives(#[trigger] schedule@[j], rank),
            hi < n ==> sends(schedule@[hi as int], rank),
            forall|j: int| 0 <= j < i && j < hi ==> !sends(#[trigger] schedule@[j], rank),
        decreases n - i,
    {
        if let ResolvedSequenceStep::Collective { collective, participants, .. } = &schedule[i] {
            if *collective == CollectiveKind::SendRecv {
                let sender: usize = handoff_sender(participants);
                let receiver: usize = handoff_receiver(participants);
                if receiver == rank {
                    lo = i + 1;
                }
                if sender == rank && i < hi {
                    hi = i;
                }
            }
        }
        i += 1;
    }
    (lo, hi)
}

/// Whether `end` is where a window `lo .. hi` must stop so that it holds no segment whose
/// output is read back: at the first such segment, or at `hi`.
pub open spec fn stops_before_readback(
    runner: SegmentRunner,
    schedule: Seq<ResolvedSequenceStep>,
    rank: usize,
    lo: int,
    hi: int,
    end: int,
) -> bool {
    &&& lo <= hi ==> lo <= end <= hi
    &&& lo > hi ==> end == hi
    &&& end < hi ==> reads_back(runner, schedule[end], rank)
    &&& forall|i: int| lo <= i < end ==> !reads_back(runner, #[trigger] schedule[i], rank)
}

/// Whether a window is the one that a rank of a pipeline captures.
pub open spec fn pipeline_window(
    runner: SegmentRunner,
    schedule: Seq<ResolvedSequenceStep>,
    rank: usize,
    flags: ServeFlags,
    w: CaptureWindow,
) -> bool {
    exists|hi: int|
        {
            &&& #[trigger] between_handoffs(schedule, rank, w.lo as int, hi)
            &&& if flags.device_sendrecv || flags.device_logits {
                w.hi == w.lo
            } else {
                stops_before_readback(runner, schedule, rank, w.lo as int, hi, w.hi as int)
            }
        }
}

/// Whether a window is the one that a rank captures where there is one stage.
pub open spec fn single_stage_window(
    runner: SegmentRunner,
    schedule: Seq<ResolvedSequenceStep>,
    rank: usize,
    w: CaptureWindow,
) -> bool {
    w.lo == 0 && exists|split: int|
        {
            &&& #[trigger] is_split(schedule, split)
            &&& stops_before_readback(runner, schedule, rank, 0, split, w.hi as int)
        }
}

/// What a rank captures: under pipeline parallelism the part between its handoffs, else
/// the part up to the last all-reduce; never a segment whose output is read back; and
/// nothing at all on a pipeline that keeps handoffs or logits on the device.
pub fn capture_window(
    runner: &SegmentRunner,
    schedule: &Vec<ResolvedSequenceStep>,
    rank: usize,
    pp: u32,
    flags: ServeFlags,
) -> (res: CaptureWindow)
    requires
        runner.wf(),
    ensures
        res.lo <= schedule@.len(),
        res.hi <= schedule@.len(),
        pp > 1 ==> pipeline_window(*runner, schedule@, rank, flags, res),
        pp <= 1 ==> single_stage_window(*runner, schedule@, rank, res),
{
    let split: usize = capture_split(schedule);
    let (lo, hi) = if pp > 1 {
        handoff_window(schedule, rank)
    } else {
        (0, split)
    };
    let mut end: usize = lo;
    let mut found = false;
    while end < hi && !found
        invariant
            runner.wf(),
            lo <= end,
            lo <= hi ==> end <= hi,
            lo > hi ==> end == lo,
            hi <= schedule@.len(),
            found ==> end < hi && reads_back(*runner, schedule@[end as int], rank),
            forall|i: int| lo <= i < end ==> !reads_back(*runner, #[trigger] schedule@[i], rank),
        decreases hi - end + if found {
            0int
        } else {
            1int
        },
    {
        let mut reads = false;
        if let ResolvedSequenceStep::ExecuteSegment { device_idx, segment_idx } = &schedule[end] {
            reads = *device_idx as usize == rank && runner.segment_has_host_output(*segment_idx);
        }
        assert(reads == reads_back(*runner, schedule@[end as int], rank));
        if reads {
            found = true;
        } else {
            end += 1;
        }
    }
    if lo > hi {
        end = hi;
    }
    assert(stops_before_readback(*runner, schedule@, rank, lo as int, hi as int, end as int));
    if pp > 1 {
        assert(between_handoffs(schedule@, rank, lo as int, hi as int));
        if flags.device_sendrecv || flags.device_logits {
            let w = CaptureWindow { lo, hi: lo };
            assert(between_handoffs(schedule@, rank, w.lo as int, hi as int));
            assert(pipeline_window(*runner, schedule@, rank, flags, w));
            return w;
        }
        let w = CaptureWindow { lo, hi: end };
        assert(between_handoffs(schedule@, rank, w.lo as int, hi as int));
        assert(pipeline_window(*runner, schedule@, rank, flags, w));
        return w;
    }
    let w = CaptureWindow { lo, hi: end };
    assert(is_split(schedule@, hi as int));
    assert(single_stage_window(*runner, schedule@, rank, w));
    w
}

/// A pipeline's capture window holds no handoff of the rank and no segment of it whose
/// output is read back: nothing in it needs the host.
pub proof fn captured_part_needs_no_host(
    runner: SegmentRunner,
    schedule: Seq<ResolvedSequenceStep>,
    rank: usize,
    lo: int,
    hi: int,
    end: int,
    i: int,
)
    requires
        between_handoffs(schedule, rank, lo, hi),
        stops_before_readback(runner, schedule, rank, lo, hi, end),
        lo <= i < end,
    ensures
        !sends(schedule[i], rank),
        !receives(schedule[i], rank),
        !reads_back(runner, schedule[i], rank),
{
}

/// One part of a step.
#[derive(Debug, Clone, Copy, PartialEq, Eq, Structural)]
pub enum Region {
    /// Run the steps one by one.
    Run { from: usize, to: usize },
    /// Record the steps as a graph, then replay it so that they take effect.
    Capture { from: usize, to: usize },
    /// Replay the graph that was recorded of the steps.
    Replay { from: usize, to: usize },
}

impl Region {
    pub open spec fn start(self) -> usize {
        match self {
            Region::Run { from, to } => from,
            Region::Capture { from, to } => from,
            Region::Replay { from, to } => from,
        }
    }

    pub open spec fn end(self) -> usize {
        match self {
            Region::Run { from, to } => to,
            Region::Capture { from, to } => to,
            Region::Replay { from, to } => to,
        }
    }
}

/// The switches that a decode step reads.
#[derive(Debug, Clone, Copy, PartialEq, Eq, Structural)]
pub struct CaptureFlags {
    /// Capturing is on.
    pub capture: bool,
    /// Steps are never split.
    pub no_split: bool,
    /// A bound on the window's end.
    pub hi_override: Option<usize>,
    /// The step at which the window is captured.
    pub capture_at: usize,
}

/// The window's end under a bound.
pub open spec fn bounded_hi(window: CaptureWindow, flags: CaptureFlags) -> usize {
    match flags.hi_override {
        Some(h) => if h < window.hi {
            h
        } else {
            window.hi
        },
        None => window.hi,
    }
}

/// Whether steps are split around the window: capturing is on, and there is a proper
/// window to capture.
pub open spec fn captures(
    window: CaptureWindow,
    len: int,
    pp: u32,
    flags: CaptureFlags,
) -> bool {
    let hi = bounded_hi(window, flags);
    flags.capture && !flags.no_split && hi > window.lo && (pp > 1 || hi < len)
}

/// What a split step does with its window: replay what was captured, capture at the
/// appointed step, run before that.
pub open spec fn middle(
    from: usize,
    to: usize,
    has_captured: bool,
    decode_step: int,
    capture_at: int,
) -> Region {
    if has_captured {
        Region::Replay { from, to }
    } else if decode_step == capture_at {
        Region::Capture { from, to }
    } else {
        Region::Run { from, to }
    }
}

/// The parts of a decode step, in order.
pub open spec fn step_regions(
    window: CaptureWindow,
    len: usize,
    pp: u32,
    flags: CaptureFlags,
    has_captured: bool,
    decode_step: int,
) -> Seq<Region> {
    let hi = bounded_hi(window, flags);
    if captures(window, len as int, pp, flags) {
        let before = if window.lo > 0 {
            seq![Region::Run { from: 0, to: window.lo }]
        } else {
            seq![]
        };
        let after = if hi < len {
            seq![Region::Run { from: hi, to: len }]
        } else {
            seq![]
        };
        before + seq![middle(window.lo, hi, has_captured, decode_step, flags.capture_at as int)]
            + after
    } else {
        seq![Region::Run { from: 0, to: len }]
    }
}

/// Whether the steps of this rank are split around its window.
pub fn capture_active(window: CaptureWindow, len: usize, pp: u32, flags: CaptureFlags) -> (res: bool)
    ensures
        res == captures(window, len as int, pp, flags),
{
    let hi: usize = match flags.hi_override {
        Some(h) => if h < window.hi {
            h
        } else {
            window.hi
        },
        None => window.hi,
    };
    flags.capture && hi > window.lo && (pp > 1 || hi < len) && !flags.no_split
}

/// The parts of a decode step, in order; `decode_step` counts the steps with capturing
/// active, this one included.
pub fn plan_step(
    window: CaptureWindow,
    len: usize,
    pp: u32,
    flags: CaptureFlags,
    has_captured: bool,
    decode_step: usize,
) -> (res: Vec<Region>)
    ensures
        res@ == step_regions(window, len, pp, flags, has_captured, decode_step as int),
{
    let mut out: Vec<Region> = Vec::new();
    if !capture_active(window, len, pp, flags) {
        out.push(Region::Run { from: 0, to: len });
        assert(out@ =~= step_regions(window, len, pp, flags, has_captured, decode_step as int));
        return out;
    }
    let hi: usize = match flags.hi_override {
        Some(h) => if h < window.hi {
            h
        } else {
            window.hi
        },
        None => window.hi,
    };
    if window.lo > 0 {
        out.push(Region::Run { from: 0, to: window.lo });
    }
    if has_captured {
        out.push(Region::Replay { from: window.lo, to: hi });
    } else if decode_step == flags.capture_at {
        out.push(Region::Capture { from: window.lo, to: hi });
    } else {
        out.push(Region::Run { from: window.lo, to: hi });
    }
    if hi < len {
        out.push(Region::Run { from: hi, to: len });
    }
    assert(out@ =~= step_regions(window, len, pp, flags, has_captured, decode_step as int));
    out
}

/// However a step is split, its parts follow one another without gap or overlap from the
/// start of the schedule to its end: every step of the schedule takes effect exactly once,
/// in order.
pub proof fn regions_tile_the_schedule(
    window: CaptureWindow,
    len: usize,
    pp: u32,
    flags: CaptureFlags,
    has_captured: bool,
    decode_step: int,
)
    requires
        window.hi <= len,
    ensures
        ({
            let r = step_regions(window, len, pp, flags, has_captured, decode_step);
            &&& r.len() > 0
            &&& r[0].start() == 0
            &&& r.last().end() == len
            &&& forall|i: int|
                0 <= i < r.len() - 1 ==> (#[trigger] r[i]).end() == r[i + 1].start()
            &&& forall|i: int| 0 <= i < r.len() ==> (#[trigger] r[i]).start() <= r[i].end()
        }),
{
}

/// Once captured, every later step replays, and none captures again.
pub proof fn captured_once(
    window: CaptureWindow,
    len: usize,
    pp: u32,
    flags: CaptureFlags,
    decode_step: int,
    i: int,
)
    requires
        0 <= i < step_regions(window, len, pp, flags, true, decode_step).len(),
    ensures
        !(step_regions(window, len, pp, flags, true, decode_step)[i] is Capture),
{
}

/// How a rank comes by the next token.
#[derive(Debug, Clone, Copy, PartialEq, Eq, Structural)]
pub enum TokenRule {
    /// It chooses by itself; all ranks have the same logits.
    Local,
    /// It chooses and broadcasts the choice.
    Choose { root: usize },
    /// It takes what the root broadcasts.
    Follow { root: usize },
}

/// How a rank comes by the next token: on a pipeline the last stage chooses for all.
pub fn token_rule(pp: u32, place: StagePlace) -> (res: TokenRule)
    ensures
        res == if pp <= 1 {
            TokenRule::Local
        } else if place.is_last_stage {
            TokenRule::Choose { root: place.last_stage_root }
        } else {
            TokenRule::Follow { root: place.last_stage_root }
        },
{
    if pp <= 1 {
        TokenRule::Local
    } else if place.is_last_stage {
        TokenRule::Choose { root: place.last_stage_root }
    } else {
        TokenRule::Follow { root: place.last_stage_root }
    }
}

/// The length of prompt that a batched prefill graph is built for: what the variable says
/// if that is more than one, else none is built.
pub fn prefill_seq(var: Option<&str>) -> (res: usize)
    ensures
        res == match var {
            Some(s) => match crate::text::parsed(s@) {
                Some(n) => if n > 1 {
                    n
                } else {
                    0
                },
                None => 0,
            },
            None => 0,
        },
{
    match var {
        Some(s) => match crate::text::parse_usize(s) {
            Some(n) => if n > 1 {
                n
            } else {
                0
            },
            None => 0,
        },
        None => 0,
    }
}

/// The experts per token of the first routing step; `None` for a dense schedule.
pub fn schedule_top_k(schedule: &Vec<ResolvedSequenceStep>) -> (res: Option<usize>)
    ensures
        match res {
            Some(k) => exists|i: int|
                {
                    &&& 0 <= i < schedule@.len()
                    &&& (#[trigger] schedule@[i]) is MoeRoute
                    &&& schedule@[i]->top_k == k
                    &&& forall|j: int| 0 <= j < i ==> !((#[trigger] schedule@[j]) is MoeRoute)
                },
            None => forall|j: int|
                0 <= j < schedule@.len() ==> !((#[trigger] schedule@[j]) is MoeRoute),
        },
{
    let mut i: usize = 0;
    while i < schedule.len()
        invariant
            i <= schedule@.len(),
            forall|j: int| 0 <= j < i ==> !((#[trigger] schedule@[j]) is MoeRoute),
        decreases schedule.len() - i,
    {
        if let ResolvedSequenceStep::MoeRoute { top_k, .. } = &schedule[i] {
            assert(schedule@[i as int] is MoeRoute);
            return Some(*top_k);
        }
        i += 1;
    }
    None
}

/// The tensor that crosses between two stages.
#[derive(Debug, Clone, Copy, PartialEq, Eq, Structural)]
pub struct Carry {
    pub tensor: HandoffId,
    pub elems: usize,
    pub sender: usize,
    pub receiver: usize,
}

/// Whether a step is a stage handoff.
pub open spec fn is_handoff(step: ResolvedSequenceStep) -> bool {
    step is Collective && step->collective == CollectiveKind::SendRecv
}

/// The first stage handoff of a schedule.
pub fn find_carry(schedule: &Vec<ResolvedSequenceStep>) -> (res: Option<Carry>)
    requires
        forall|i: int|
            0 <= i < schedule@.len() && is_handoff(#[trigger] schedule@[i])
                ==> schedule@[i]->participants@.len() >= 2,
    ensures
        match res {
            Some(c) => exists|i: int|
                {
                    &&& 0 <= i < schedule@.len()
                    &&& is_handoff(#[trigger] schedule@[i])
                    &&& forall|j: int| 0 <= j < i ==> !is_handoff(#[trigger] schedule@[j])
                    &&& c == (Carry {
                        tensor: schedule@[i]->tensor,
                        elems: schedule@[i]->elems,
                        sender: schedule@[i]->participants@[0] as usize,
                        receiver: schedule@[i]->participants@[1] as usize,
                    })
                },
            None => forall|j: int| 0 <= j < schedule@.len() ==> !is_handoff(#[trigger] schedule@[j]),
        },
{
    let mut i: usize = 0;
    while i < schedule.len()
        invariant
            i <= schedule@.len(),
            forall|k: int|
                0 <= k < schedule@.len() && is_handoff(#[trigger] schedule@[k])
                    ==> schedule@[k]->participants@.len() >= 2,
            forall|j: int| 0 <= j < i ==> !is_handoff(#[trigger] schedule@[j]),
        decreases schedule.len() - i,
    {
        if let ResolvedSequenceStep::Collective { collective, participants, tensor, elems } =
            &schedule[i] {
            if *collective == CollectiveKind::SendRecv {
                assert(is_handoff(schedule@[i as int]));
                return Some(
                    Carry {
                        tensor: *tensor,
                        elems: *elems,
                        sender: participants[0] as usize,
                        receiver: participants[1] as usize,
                    },
                );
            }
        }
        i += 1;
    }
    None
}

/// The places of the steps that are no stage handoff, among the first `n`.
pub open spec fn compute_places(schedule: Seq<ResolvedSequenceStep>, n: int) -> Seq<usize>
    decreases n,
{
    if n <= 0 {
        seq![]
    } else if is_handoff(schedule[n - 1]) {
        compute_places(schedule, n - 1)
    } else {
        compute_places(schedule, n - 1).push((n - 1) as usize)
    }
}

/// The places of the steps that are no stage handoff, in order.
pub fn compute_steps(schedule: &Vec<ResolvedSequenceStep>) -> (res: Vec<usize>)
    ensures
        res@ == compute_places(schedule@, schedule@.len() as int),
{
    let mut out: Vec<usize> = Vec::new();
    let mut i: usize = 0;
    while i < schedule.len()
        invariant
            i <= schedule@.len(),
            out@ == compute_places(schedule@, i as int),
        decreases schedule.len() - i,
    {
        let mut handoff = false;
        if let ResolvedSequenceStep::Collective { collective, .. } = &schedule[i] {
            handoff = *collective == CollectiveKind::SendRecv;
        }
        if !handoff {
            out.push(i);
        }
        i += 1;
    }
    out
}

/// Whether a fixed set of prompts is decoded one after the other instead of pipelined: the
/// plan is no two-stage pipeline, or there are too few prompts to fill it.
pub fn fixed_falls_back(pp: u32, prompts: usize, carry: &Option<Carry>) -> (res: bool)
    ensures
        res == (pp != 2 || prompts < 2 || *carry is None),
{
    pp != 2 || prompts < 2 || carry.is_none()
}

/// Whether a queue of prompts is decoded one after the other instead of pipelined.
pub fn queue_falls_back(pp: u32, prompts: usize, max_slots: usize, carry: &Option<Carry>) -> (res: bool)
    ensures
        res == (pp != 2 || *carry is None || max_slots < 2 || prompts == 0),
{
    pp != 2 || carry.is_none() || max_slots < 2 || prompts == 0
}

/// Whether a queue of prompts is decoded one after the other instead of pipelined in
/// groups of `stage_mb`.
pub fn grouped_falls_back(pp: u32, prompts: usize, stage_mb: usize, carry: &Option<Carry>) -> (res: bool)
    ensures
        res == (pp != 2 || *carry is None || stage_mb < 1 || prompts == 0),
{
    pp != 2 || carry.is_none() || stage_mb < 1 || prompts == 0
}

/// Where a tensor lives. The logits stay on the host unless they are kept on the device; the
/// tensor of a gathering, a broadcast or another collective that works on the host stays
/// there; one that is only ever all-reduced does not; and a stage handoff does not, where
/// handoffs are kept on the device.
pub proof fn host_tensors_are_those_the_host_needs(
    schedule: &Vec<SequenceStep>,
    flags: ServeFlags,
    res: Vec<String>,
    i: int,
)
    requires
        call_ensures(host_tensors, (schedule, flags), res),
        0 <= i < schedule@.len(),
        schedule@[i] is Collective,
    ensures
        !flags.device_logits && !flags.device_sendrecv ==> names_contain(
            res@,
            seq!['l', 'o', 'g', 'i', 't', 's'],
        ),
        flags.device_logits ==> !names_contain(res@, seq!['l', 'o', 'g', 'i', 't', 's']),
        ({
            let name = schedule@[i]->Collective_tensor@;
            let kind = schedule@[i]->collective;
            &&& name != seq!['l', 'o', 'g', 'i', 't', 's'] && kind != CollectiveKind::RingAllReduce
                && !flags.device_sendrecv ==> names_contain(res@, name)
            &&& kind == CollectiveKind::SendRecv && flags.device_sendrecv ==> !names_contain(
                res@,
                name,
            )
            &&& name != seq!['l', 'o', 'g', 'i', 't', 's'] && (forall|j: int|
                0 <= j < schedule@.len() && (#[trigger] schedule@[j]) is Collective
                    && schedule@[j]->Collective_tensor@ == name ==> schedule@[j]->collective
                    == CollectiveKind::RingAllReduce) ==> !names_contain(res@, name)
        }),
{
    reveal_strlit("logits");
    assert("logits"@ =~= seq!['l', 'o', 'g', 'i', 't', 's']);
    let logits = "logits"@;
    let name = schedule@[i]->Collective_tensor@;
    let kind = schedule@[i]->collective;
    assert(names_contain(res@, logits) <==> stays_on_host(schedule@, flags, logits));
    assert(names_contain(res@, name) <==> stays_on_host(schedule@, flags, name));
    if kind == CollectiveKind::SendRecv {
        assert(hands_over(schedule@[i], CollectiveKind::SendRecv, name));
    }
}

/// The host tail starts just behind the last all-reduce: there is none after it, and one right
/// before it, or none at all.
pub proof fn the_tail_has_no_all_reduce(schedule: &Vec<ResolvedSequenceStep>, split: usize, i: int)
    requires
        call_ensures(capture_split, (schedule,), split),
        0 <= i < schedule@.len(),
        schedule@[i] is Collective,
        schedule@[i]->collective == CollectiveKind::RingAllReduce,
    ensures
        i < split <= schedule@.len(),
        schedule@[split - 1] is Collective,
        schedule@[split - 1]->collective == CollectiveKind::RingAllReduce,
{
    assert(all_reduces(schedule@[i]));
}

/// Ranks fill the stages in order, `tp * ep` to a stage: a rank's stage is the one whose range
/// of ranks it lies in, and the root of the last stage is its first rank.
pub proof fn ranks_fill_the_stages_in_order(
    rank: usize,
    tp: u32,
    pp: u32,
    ep: u32,
    place: StagePlace,
)
    requires
        call_ensures(stage_place, (rank, tp, pp, ep), place),
        tp >= 1,
        pp >= 1,
        ep >= 1,
        rank < pp * (tp * ep),
    ensures
        place.stage * (tp * ep) <= rank < (place.stage + 1) * (tp * ep),
        place.stage < pp,
        place.is_last_stage <==> rank >= place.last_stage_root,
        place.last_stage_root == (pp - 1) * (tp * ep),
{
    last_stage_starts_at_its_root(rank as int, tp, pp, ep);
    let w = tp * ep;
    assert(w >= 1) by (nonlinear_arith)
        requires
            w == tp * ep,
            tp >= 1,
            ep >= 1,
    ;
    let s = rank as int / w;
    assert(s * w <= rank < (s + 1) * w) by (nonlinear_arith)
        requires
            s == rank as int / w,
            w >= 1,
    ;
    assert((pp - 1) * tp * ep == (pp - 1) * (tp * ep)) by (nonlinear_arith);
}

/// Nothing in a captured window needs the host: on a pipeline it holds no handoff that the
/// rank sends or receives, and in any case no segment of the rank whose output is read back.
/// A single stage's window starts with the schedule; a pipeline that keeps handoffs or logits
/// on the device has none.
pub proof fn captured_windows_need_no_host(
    runner: &SegmentRunner,
    schedule: &Vec<ResolvedSequenceStep>,
    rank: usize,
    pp: u32,
    flags: ServeFlags,
    w: CaptureWindow,
    i: int,
)
    requires
        call_ensures(capture_window, (runner, schedule, rank, pp, flags), w),
        w.lo <= i < w.hi,
    ensures
        i < schedule@.len(),
        schedule@[i] is ExecuteSegment && schedule@[i]->ExecuteSegment_device_idx == rank
            ==> !runner.host_output(schedule@[i]->segment_idx as int),
        pp > 1 && schedule@[i] is Collective && schedule@[i]->collective == CollectiveKind::SendRecv
            && schedule@[i]->participants@.len() >= 2 ==> schedule@[i]->participants@[0] != rank
            && schedule@[i]->participants@[1] != rank,
        pp > 1 ==> !flags.device_sendrecv && !flags.device_logits,
        pp <= 1 ==> w.lo == 0,
{
    if pp > 1 {
        let hi = choose|hi: int|
            {
                &&& #[trigger] between_handoffs(schedule@, rank, w.lo as int, hi)
                &&& if flags.device_sendrecv || flags.device_logits {
                    w.hi == w.lo
                } else {
                    stops_before_readback(*runner, schedule@, rank, w.lo as int, hi, w.hi as int)
                }
            };
        captured_part_needs_no_host(
            *runner,
            schedule@,
            rank,
            w.lo as int,
            hi,
            w.hi as int,
            i,
        );
    } else {
        let split = choose|split: int|
            {
                &&& #[trigger] is_split(schedule@, split)
                &&& stops_before_readback(*runner, schedule@, rank, 0, split, w.hi as int)
            };
    }
    assert(!reads_back(*runner, schedule@[i], rank));
}

/// A part of a step is replayed only once it was captured, and captured only at the appointed
/// step and where nothing was captured yet; either is done to the window and to nothing else.
/// With capturing on, a window captured earlier is replayed.
pub proof fn windows_are_captured_then_replayed(
    window: CaptureWindow,
    len: usize,
    pp: u32,
    flags: CaptureFlags,
    has_captured: bool,
    decode_step: usize,
    regions: Vec<Region>,
    i: int,
)
    requires
        call_ensures(plan_step, (window, len, pp, flags, has_captured, decode_step), regions),
        0 <= i < regions@.len(),
        flags.hi_override is None,
    ensures
        regions@[i] is Replay ==> has_captured,
        regions@[i] is Capture ==> !has_captured && decode_step == flags.capture_at,
        !(regions@[i] is Run) ==> {
            &&& flags.capture
            &&& !flags.no_split
            &&& regions@[i].start() == window.lo < window.hi == regions@[i].end()
        },
        flags.capture && !flags.no_split && window.lo < window.hi < len && has_captured ==> exists|
            k: int,
        |
            0 <= k < regions@.len() && regions@[k] == (Region::Replay {
                from: window.lo,
                to: window.hi,
            }),
        flags.capture && !flags.no_split && window.lo < window.hi < len && !has_captured
            && decode_step == flags.capture_at ==> exists|k: int|
            0 <= k < regions@.len() && regions@[k] == (Region::Capture {
                from: window.lo,
                to: window.hi,
            }),
{
    if captures(window, len as int, pp, flags) {
        let k: int = if window.lo > 0 {
            1
        } else {
            0
        };
        let mid = middle(
            window.lo,
            window.hi,
            has_captured,
            decode_step as int,
            flags.capture_at as int,
        );
        assert(regions@[k] == mid);
    }
}

/// On a pipeline one stage chooses the token: the ranks of the last stage choose, all others
/// follow, and all of them name the same root; without a pipeline every rank chooses for
/// itself.
pub proof fn the_last_stage_chooses(pp: u32, place: StagePlace, rule: TokenRule)
    requires
        call_ensures(token_rule, (pp, place), rule),
    ensures
        rule is Local <==> pp <= 1,
        rule is Choose <==> pp > 1 && place.is_last_stage,
        rule matches TokenRule::Choose { root } ==> root == place.last_stage_root,
        rule matches TokenRule::Follow { root } ==> root == place.last_stage_root,
{
}

/// The compute steps are the steps that are no stage handoff: all of them, in order.
pub proof fn compute_steps_are_all_but_handoffs(
    schedule: Seq<ResolvedSequenceStep>,
    n: int,
    p: usize,
)
    requires
        0 <= n <= schedule.len(),
        n <= usize::MAX,
    ensures
        compute_places(schedule, n).contains(p) <==> p < n && !(schedule[p as int] is Collective
            && schedule[p as int]->collective == CollectiveKind::SendRecv),
        forall|i: int, j: int|
            0 <= i < j < compute_places(schedule, n).len() ==> compute_places(schedule, n)[i]
                < compute_places(schedule, n)[j],
        forall|i: int|
            0 <= i < compute_places(schedule, n).len() ==> (#[trigger] compute_places(
                schedule,
                n,
            )[i]) < n,
    decreases n,
{
    if n > 0 {
        let before = compute_places(schedule, n - 1);
        let now = compute_places(schedule, n);
        compute_steps_are_all_but_handoffs(schedule, n - 1, p);
        if !is_handoff(schedule[n - 1]) {
            assert(now == before.push((n - 1) as usize));
            assert(now[before.len() as int] == n - 1);
            if before.contains(p) {
                let q = before.index_of(p);
                assert(now[q] == p);
            }
            if now.contains(p) && p != n - 1 {
                let q = now.index_of(p);
                assert(before[q] == p);
            }
        }
    }
}

/// Pipelined decoding takes a pipeline of two stages with a handoff between them, and enough
/// to keep both busy.
pub proof fn pipelining_takes_two_stages(
    pp: u32,
    prompts: usize,
    slots: usize,
    carry: &Option<Carry>,
    fixed: bool,
    queued: bool,
    grouped: bool,
)
    requires
        call_ensures(fixed_falls_back, (pp, prompts, carry), fixed),
        call_ensures(queue_falls_back, (pp, prompts, slots, carry), queued),
        call_ensures(grouped_falls_back, (pp, prompts, slots, carry), grouped),
    ensures
        !fixed <==> pp == 2 && *carry is Some && prompts >= 2,
        !queued <==> pp == 2 && *carry is Some && prompts >= 1 && slots >= 2,
        !grouped <==> pp == 2 && *carry is Some && prompts >= 1 && slots >= 1,
{
}

/// A bound on the window moves its end, and only down: what is captured or replayed starts with
/// the window and ends with it or with the bound, whichever comes first.
pub proof fn bounds_only_shorten_the_window(
    window: CaptureWindow,
    len: usize,
    pp: u32,
    flags: CaptureFlags,
    has_captured: bool,
    decode_step: usize,
    regions: Vec<Region>,
    i: int,
    bound: usize,
)
    requires
        call_ensures(plan_step, (window, len, pp, flags, has_captured, decode_step), regions),
        0 <= i < regions@.len(),
        flags.hi_override == Some(bound),
        !(regions@[i] is Run),
    ensures
        regions@[i].start() == window.lo,
        regions@[i].end() <= bound,
        regions@[i].end() <= window.hi,
        regions@[i].end() == bound || regions@[i].end() == window.hi,
        regions@[i].start() < regions@[i].end(),
{
}

/// A batched prefill graph is built only for prompts of more than one token, and for just the
/// length that the variable says.
pub proof fn prefill_graphs_take_several_tokens(var: Option<&str>, n: usize)
    requires
        call_ensures(prefill_seq, (var,), n),
    ensures
        n != 1,
        n > 0 ==> var is Some && crate::text::parsed(var->0@) == Some(n),
        var is Some && crate::text::parsed(var->0@) is Some && crate::text::parsed(var->0@)->0 > 1
            ==> n == crate::text::parsed(var->0@)->0,
{
}

} // verus!
