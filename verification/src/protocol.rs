//! The host side of the brain wire protocol that can be checked: framing
//! rules (little-endian length prefix, payload cap) and the per-call
//! verdict policy (deadline and transport failures).
//!
//! The transport itself — the rendezvous socket, the sandboxed process,
//! the clock — lives outside the library; it hands byte payloads and
//! elapsed times in, and takes framed bytes out.

use vstd::prelude::*;
use crate::{MAX_PAYLOAD_BYTES, MAX_ANT_PROCESSING_TIME_NANOS};

verus! {

/// The integer a 4-byte little-endian length prefix denotes.
pub open spec fn le32(b0: u8, b1: u8, b2: u8, b3: u8) -> int {
    b0 + 256 * b1 + 65536 * b2 + 16777216 * b3
}

/// Frames a payload for the wire: 4-byte little-endian length, then the
/// payload. Payloads over `MAX_PAYLOAD_BYTES` are refused.
pub fn encode_frame(payload: &Vec<u8>) -> (r: Option<Vec<u8>>)
    ensures
        r is Some <==> payload.len() <= MAX_PAYLOAD_BYTES,
        r is Some ==> {
            let f = r->Some_0;
            &&& f.len() == payload.len() + 4
            &&& le32(f[0], f[1], f[2], f[3]) == payload.len()
            &&& forall|i: int| 0 <= i < payload.len() ==> f[4 + i] == #[trigger] payload[i]
        },
{
    if payload.len() > MAX_PAYLOAD_BYTES {
        return None;
    }
    let n = payload.len() as u32;
    let mut f: Vec<u8> = Vec::new();
    f.push((n % 256) as u8);
    f.push(((n / 256) % 256) as u8);
    f.push(((n / 65536) % 256) as u8);
    f.push((n / 16777216) as u8);
    let mut i: usize = 0;
    while i < payload.len()
        invariant
            i <= payload.len(),
            f.len() == 4 + i,
            le32(f[0], f[1], f[2], f[3]) == payload.len(),
            forall|j: int| 0 <= j < i ==> f[4 + j] == #[trigger] payload[j],
        decreases payload.len() - i,
    {
        f.push(payload[i]);
        i = i + 1;
    }
    Some(f)
}

/// Decodes a little-endian length prefix and applies the payload cap:
/// the length, or nothing for an oversized announcement.
pub fn decode_frame_len(b0: u8, b1: u8, b2: u8, b3: u8) -> (r: Option<u32>)
    ensures
        r is Some <==> le32(b0, b1, b2, b3) <= MAX_PAYLOAD_BYTES,
        r is Some ==> r->Some_0 == le32(b0, b1, b2, b3),
{
    let n: u32 = b0 as u32 + 256 * (b1 as u32) + 65536 * (b2 as u32) + 16777216 * (b3 as u32);
    if n <= MAX_PAYLOAD_BYTES as u32 {
        Some(n)
    } else {
        None
    }
}

/// How the engine judges one brain exchange.
#[derive(Clone, Copy, Debug, PartialEq, Eq, Structural)]
pub enum ThinkVerdict {
    /// The response arrived in time and parsed: apply it.
    Accepted,
    /// The exchange took longer than the per-call budget: the ant dies.
    TimedOut,
    /// The transport failed or the payload was rejected: skip this think.
    Failed,
}

/// Applies the wall-clock deadline and transport policy to one exchange.
/// A call over budget is a timeout even if a response arrived.
pub fn judge_think(elapsed_nanos: u64, response_ok: bool) -> (r: ThinkVerdict)
    ensures
        r == (if elapsed_nanos > MAX_ANT_PROCESSING_TIME_NANOS {
            ThinkVerdict::TimedOut
        } else if !response_ok {
            ThinkVerdict::Failed
        } else {
            ThinkVerdict::Accepted
        }),
{
    if elapsed_nanos > MAX_ANT_PROCESSING_TIME_NANOS {
        ThinkVerdict::TimedOut
    } else if !response_ok {
        ThinkVerdict::Failed
    } else {
        ThinkVerdict::Accepted
    }
}

} // verus!
