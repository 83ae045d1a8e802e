//! Content hashing of plans.

use vstd::prelude::*;
use vstd::utf8::encode_utf8;

use crate::ieee::Ieee32;
use crate::ir::canonical::{canonical_json, plan_json, writes_as};
use crate::ir::identity::{same_plan, same_plans_have_the_same_text};
use crate::ir::plan::Plan;

verus! {

/// The BLAKE3 hash of some bytes, with the default output length.
pub uninterp spec fn blake3_digest(input: Seq<u8>) -> Seq<u8>;

/// `blake3::hash`: the digest of the input, which depends on the input alone.
#[verifier::external_body]
fn blake3_hash(input: &[u8]) -> (res: [u8; 32])
    ensures
        res@ == blake3_digest(input@),
{
    *blake3::hash(input).as_bytes()
}

/// The hash of a plan's canonical text. Artifact directories go by it.
#[derive(Debug, Clone, Copy, PartialEq, Eq, Hash)]
pub struct ContentHash {
    pub bytes: [u8; 32],
}

/// The lower-case hexadecimal digits of some bytes, two each.
pub open spec fn hex_text(bytes: Seq<u8>) -> Seq<char>
    decreases bytes.len(),
{
    if bytes.len() == 0 {
        seq![]
    } else {
        hex_text(bytes.drop_last()).push("0123456789abcdef"@[bytes.last() as int / 16]).push(
            "0123456789abcdef"@[bytes.last() as int % 16],
        )
    }
}

impl ContentHash {
    /// The hash in lower-case hexadecimal.
    pub fn to_hex(&self) -> (res: String)
        ensures
            res@ == hex_text(self.bytes@),
    {
        proof {
            reveal_strlit("0123456789abcdef");
        }
        let mut s = String::new();
        let mut i: usize = 0;
        assert(self.bytes@.take(0) =~= seq![]);
        while i < 32
            invariant
                i <= 32,
                s@ == hex_text(self.bytes@.take(i as int)),
            decreases 32 - i,
        {
            proof {
                reveal_strlit("0123456789abcdef");
            }
            assert(self.bytes@.take(i + 1).drop_last() =~= self.bytes@.take(i as int));
            let b: u8 = self.bytes[i];
            s.push("0123456789abcdef".get_char((b / 16) as usize));
            s.push("0123456789abcdef".get_char((b % 16) as usize));
            i += 1;
        }
        assert(self.bytes@.take(32) =~= self.bytes@);
        s
    }
}

/// The hash of a text.
pub fn hash_text(text: &str) -> (res: ContentHash)
    ensures
        res.bytes@ == blake3_digest(encode_utf8(text@)),
{
    ContentHash { bytes: blake3_hash(text.as_bytes()) }
}

impl Plan {
    /// The hash of the plan's canonical JSON text; `fmt` writes a floating-point number.
    pub fn content_hash<F: Fn(Ieee32) -> String>(&self, fmt: &F) -> (res: ContentHash)
        requires
            forall|x: Ieee32| call_requires(*fmt, (x,)),
        ensures
            forall|text: spec_fn(Ieee32) -> Seq<char>| #[trigger]
                writes_as(*fmt, text) ==> res.bytes@ == blake3_digest(
                    encode_utf8(plan_json(*self, text, seq![])),
                ),
    {
        let json = canonical_json(self, fmt);
        hash_text(json.as_str())
    }
}

/// Plans that agree have the same hash, so the same artifact: a plan emitted twice is found
/// again.
pub proof fn same_plans_share_an_artifact(a: Plan, b: Plan, text: spec_fn(Ieee32) -> Seq<char>)
    requires
        same_plan(a, b, text),
    ensures
        blake3_digest(encode_utf8(plan_json(a, text, seq![]))) == blake3_digest(
            encode_utf8(plan_json(b, text, seq![])),
        ),
{
    same_plans_have_the_same_text(a, b, text, seq![]);
}

/// The text of a hash tells it apart: different bytes have different texts, two characters a
/// byte.
pub proof fn hashes_are_told_apart_by_their_texts(a: Seq<u8>, b: Seq<u8>)
    requires
        hex_text(a) == hex_text(b),
    ensures
        a == b,
        hex_text(a).len() == 2 * a.len(),
    decreases a.len(),
{
    hex_text_len(a);
    hex_text_len(b);
    if a.len() > 0 {
        reveal_strlit("0123456789abcdef");
        let x = a.last() as int;
        let y = b.last() as int;
        let n = hex_text(a).len() as int;
        let digits = "0123456789abcdef"@;
        assert(hex_text(a)[n - 1] == digits[x % 16]);
        assert(hex_text(b)[n - 1] == digits[y % 16]);
        assert(hex_text(a)[n - 2] == digits[x / 16]);
        assert(hex_text(b)[n - 2] == digits[y / 16]);
        assert(forall|i: int, j: int|
            0 <= i < 16 && 0 <= j < 16 && digits[i] == digits[j] ==> i == j);
        assert(x / 16 == y / 16 && x % 16 == y % 16);
        assert(hex_text(a.drop_last()) =~= hex_text(a).take(n - 2));
        assert(hex_text(b.drop_last()) =~= hex_text(b).take(n - 2));
        hashes_are_told_apart_by_their_texts(a.drop_last(), b.drop_last());
        assert(a =~= a.drop_last().push(a.last()));
        assert(b =~= b.drop_last().push(b.last()));
    } else {
        assert(a =~= b);
    }
}

proof fn hex_text_len(a: Seq<u8>)
    ensures
        hex_text(a).len() == 2 * a.len(),
    decreases a.len(),
{
    if a.len() > 0 {
        hex_text_len(a.drop_last());
    }
}

} // verus!
