//! Chunked prefill.

use vstd::prelude::*;

use crate::ir::types::BatchPolicy;
use crate::runtime::types::IncomingRequest;

verus! {

/// Which chunks of a prompt are prefilled, and which comes next.
#[derive(Debug, Clone, Copy, PartialEq, Eq, Structural)]
pub struct ChunkPlan {
    pub chunk_size: u32,
    pub total_chunks: u32,
    /// The next chunk; equal to `total_chunks` once all are done.
    pub next_chunk: u32,
}

/// The range of tokens of chunk `i`.
pub open spec fn chunk_range(chunk_size: int, prompt_len: int, i: int) -> (int, int) {
    let end = i * chunk_size + chunk_size;
    (
        i * chunk_size,
        if end < prompt_len {
            end
        } else {
            prompt_len
        },
    )
}

impl ChunkPlan {
    /// Whether no chunks remain.
    pub fn is_done(&self) -> (res: bool)
        ensures
            res == (self.next_chunk >= self.total_chunks),
    {
        self.next_chunk >= self.total_chunks
    }

    /// The token range of the next chunk; `None` if no chunks remain.
    pub fn current_range(&self, prompt_len: u32) -> (res: Option<(u32, u32)>)
        requires
            self.next_chunk < self.total_chunks ==> self.next_chunk * self.chunk_size
                + self.chunk_size <= u32::MAX,
        ensures
            res is None <==> self.next_chunk >= self.total_chunks,
            res matches Some(r) ==> (r.0 as int, r.1 as int) == chunk_range(
                self.chunk_size as int,
                prompt_len as int,
                self.next_chunk as int,
            ),
    {
        if self.is_done() {
            return None;
        }
        assert(0 <= self.next_chunk * self.chunk_size) by (nonlinear_arith)
            requires
                0 <= self.next_chunk,
                0 <= self.chunk_size,
        ;
        let start: u32 = self.next_chunk * self.chunk_size;
        let full: u32 = start + self.chunk_size;
        let end: u32 = if full < prompt_len {
            full
        } else {
            prompt_len
        };
        Some((start, end))
    }

    /// Goes on to the next chunk, if any remain.
    pub fn advance(&mut self)
        ensures
            *final(self) == (ChunkPlan {
                next_chunk: if old(self).next_chunk < old(self).total_chunks {
                    (old(self).next_chunk + 1) as u32
                } else {
                    old(self).next_chunk
                },
                ..*old(self)
            }),
    {
        if self.next_chunk < self.total_chunks {
            self.next_chunk = self.next_chunk + 1;
        }
    }
}

/// The size of the chunks: as the policy says, or the whole prompt; at least one.
pub open spec fn chunk_size_of(prompt_len: u32, policy: BatchPolicy) -> u32 {
    let size = match policy {
        BatchPolicy::ContinuousChunked { max_batch, chunk_tokens } => chunk_tokens,
        _ => prompt_len,
    };
    if size == 0 {
        1
    } else {
        size
    }
}

/// The number of chunks: as many as it takes to cover the prompt; at least one.
pub open spec fn chunk_count(prompt_len: int, chunk_size: int) -> int {
    if prompt_len == 0 {
        1
    } else {
        (prompt_len + chunk_size - 1) / chunk_size
    }
}

/// The plan for a request's prompt, nothing done yet.
pub fn plan_chunks(request: &IncomingRequest, policy: BatchPolicy) -> (res: ChunkPlan)
    ensures
        ({
            let prompt_len = request.prompt_tokens.len() as u32;
            let size = chunk_size_of(prompt_len, policy);
            res == (ChunkPlan {
                chunk_size: size,
                total_chunks: chunk_count(prompt_len as int, size as int) as u32,
                next_chunk: 0,
            })
        }),
        res.chunk_size >= 1,
        res.total_chunks == chunk_count(
            (request.prompt_tokens.len() as u32) as int,
            res.chunk_size as int,
        ),
{
    let prompt_len: u32 = #[verifier::truncate]
    (request.prompt_tokens.len() as u32);
    let wanted: u32 = match policy {
        BatchPolicy::ContinuousChunked { max_batch: _, chunk_tokens } => chunk_tokens,
        _ => prompt_len,
    };
    let chunk_size: u32 = if wanted == 0 {
        1
    } else {
        wanted
    };
    let whole: u32 = prompt_len / chunk_size;
    let rest: u32 = prompt_len % chunk_size;
    proof {
        let p = prompt_len as int;
        let c = chunk_size as int;
        assert(p == c * whole + rest && 0 <= rest < c && 0 <= whole <= p) by (nonlinear_arith)
            requires
                whole == p / c,
                rest == p % c,
                c >= 1,
                p >= 0,
        ;
        if rest == 0 {
            vstd::arithmetic::div_mod::lemma_fundamental_div_mod_converse(
                p + c - 1,
                c,
                whole as int,
                c - 1,
            );
            assert(whole * c == c * whole) by (nonlinear_arith);
        } else {
            assert((whole + 1) * c == c * whole + c) by (nonlinear_arith);
            vstd::arithmetic::div_mod::lemma_fundamental_div_mod_converse(
                p + c - 1,
                c,
                whole + 1,
                rest - 1,
            );
            assert(whole < p) by (nonlinear_arith)
                requires
                    p == c * whole + rest,
                    c >= 1,
                    rest >= 1,
                    whole >= 0,
            ;
        }
        if p > 0 && rest == 0 {
            assert(whole >= 1) by (nonlinear_arith)
                requires
                    p == c * whole,
                    p > 0,
                    c >= 1,
            ;
        }
    }
    let total_chunks: u32 = if prompt_len == 0 {
        1
    } else if rest == 0 {
        whole
    } else {
        whole + 1
    };
    ChunkPlan { chunk_size, total_chunks, next_chunk: 0 }
}

/// The chunks of a plan cover the prompt exactly: the first starts at its beginning, each
/// starts where the one before ends, the last ends at the prompt's end, and none is empty
/// unless the prompt is.
pub proof fn chunks_tile_the_prompt(prompt_len: int, chunk_size: int, i: int)
    requires
        prompt_len >= 0,
        chunk_size >= 1,
        0 <= i < chunk_count(prompt_len, chunk_size),
    ensures
        ({
            let r = chunk_range(chunk_size, prompt_len, i);
            let n = chunk_count(prompt_len, chunk_size);
            &&& i == 0 ==> r.0 == 0
            &&& i > 0 ==> r.0 == chunk_range(chunk_size, prompt_len, i - 1).1
            &&& i == n - 1 ==> r.1 == prompt_len
            &&& prompt_len > 0 ==> r.0 < r.1
            &&& 0 <= r.0 <= r.1 <= prompt_len
        }),
{
    let n = chunk_count(prompt_len, chunk_size);
    if prompt_len == 0 {
        assert(0 * chunk_size == 0) by (nonlinear_arith);
    } else {
        let q = prompt_len + chunk_size - 1;
        assert(n * chunk_size <= q < n * chunk_size + chunk_size) by (nonlinear_arith)
            requires
                n == q / chunk_size,
                chunk_size >= 1,
                q >= 0,
        ;
        assert(i * chunk_size <= (n - 1) * chunk_size) by (nonlinear_arith)
            requires
                i <= n - 1,
                chunk_size >= 1,
        ;
        assert((n - 1) * chunk_size == n * chunk_size - chunk_size) by (nonlinear_arith);
        assert((i - 1) * chunk_size == i * chunk_size - chunk_size) by (nonlinear_arith);
        assert(0 <= i * chunk_size) by (nonlinear_arith)
            requires
                0 <= i,
                chunk_size >= 1,
        ;
        assert(0 * chunk_size == 0) by (nonlinear_arith);
    }
}

/// Chunks are as long as the policy says. Where prefill is chunked, every chunk but the last
/// has just as many tokens as asked for (one, where none are), and the last has no more;
/// where it is not, the prompt is a single chunk.
pub proof fn chunks_are_as_long_as_asked(
    request: &IncomingRequest,
    policy: BatchPolicy,
    plan: ChunkPlan,
    i: int,
)
    requires
        call_ensures(plan_chunks, (request, policy), plan),
        request.prompt_tokens@.len() <= u32::MAX,
        0 <= i < plan.total_chunks,
    ensures
        plan.next_chunk == 0,
        ({
            let len = request.prompt_tokens@.len() as int;
            let r = chunk_range(plan.chunk_size as int, len, i);
            match policy {
                BatchPolicy::ContinuousChunked { chunk_tokens, .. } => {
                    let asked = if chunk_tokens == 0 {
                        1int
                    } else {
                        chunk_tokens as int
                    };
                    &&& i < plan.total_chunks - 1 ==> r.1 - r.0 == asked
                    &&& r.1 - r.0 <= asked
                },
                _ => plan.total_chunks == 1 && r == (0int, len),
            }
        }),
{
    let len = request.prompt_tokens@.len() as int;
    let c = plan.chunk_size as int;
    assert(request.prompt_tokens.len() == len);
    chunks_tile_the_prompt(len, c, i);
    if i < plan.total_chunks - 1 {
        chunks_tile_the_prompt(len, c, i + 1);
        assert((i + 1) * c == i * c + c) by (nonlinear_arith);
    }
    match policy {
        BatchPolicy::ContinuousChunked { .. } => {},
        _ => {
            if len > 0 {
                assert((len + len - 1) / len == 1) by (nonlinear_arith)
                    requires
                        len > 0,
                ;
            }
            assert(0 * c == 0) by (nonlinear_arith);
        },
    }
}

/// A request's chunks are handed out from the first to the last, and no more: the chunk that
/// comes next is the one that the plan stands at, until all are done.
pub proof fn chunks_are_handed_out_in_order(plan: &ChunkPlan, prompt_len: u32, res: Option<
    (u32, u32),
>)
    requires
        call_ensures(ChunkPlan::current_range, (plan, prompt_len), res),
    ensures
        res is None <==> plan.next_chunk >= plan.total_chunks,
        res matches Some(r) ==> {
            &&& r.0 == plan.next_chunk * plan.chunk_size
            &&& r.1 == prompt_len || r.1 == r.0 + plan.chunk_size
            &&& r.1 <= prompt_len
            &&& r.1 <= r.0 + plan.chunk_size
        },
{
}

} // verus!
