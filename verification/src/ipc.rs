//! Values exchanged between the unprivileged UI and the service that the
//! library itself builds, and the framing of the wire: each message is a
//! big-endian `u32` length followed by that many bytes of JSON. The JSON
//! itself is written and read by the transport around this crate.

use vstd::prelude::*;

verus! {

/// A block-moment intervention poll result. Debounced service-side so
/// browser DNS prefetch never triggers the window on its own.
#[derive(Debug, Clone, PartialEq)]
pub struct InterventionDto {
    /// True when the intervention window should open now.
    pub pending: bool,
    /// The domain whose blocked lookups armed it (`None` for a manual/panic
    /// trigger).
    pub domain: Option<String>,
    /// Interventions that fired while the UI wasn't polling, surfaced as a
    /// quiet "urges happened while you were away" summary, then cleared.
    pub urges_while_away: u32,
    /// The user's letter to self, attached when `pending` so the block-moment
    /// window can show it without a second round-trip. `None` if unwritten.
    pub letter: Option<String>,
}

impl Default for InterventionDto {
    fn default() -> (r: Self)
        ensures
            !r.pending,
            r.domain is None,
            r.urges_while_away == 0,
            r.letter is None,
    {
        InterventionDto { pending: false, domain: None, urges_while_away: 0, letter: None }
    }
}

/// The largest payload a frame may carry: 1 MiB, a safety cap.
pub const MAX_FRAME: usize = 1_048_576;

/// The number a big-endian four-byte header stands for.
pub open spec fn header_value(h: Seq<u8>) -> int {
    (h[0] as int) * 16777216 + (h[1] as int) * 65536 + (h[2] as int) * 256 + (h[3] as int)
}

/// The big-endian four-byte header for `n < 2^32`.
pub open spec fn be32(n: int) -> Seq<u8> {
    seq![(n / 16777216) as u8, (n / 65536 % 256) as u8, (n / 256 % 256) as u8, (n % 256) as u8]
}

/// The frame carrying `payload`: its length (taken modulo 2^32, as the cast
/// to `u32` does) in four big-endian bytes, then the payload.
pub open spec fn frame_spec(payload: Seq<u8>) -> Seq<u8> {
    be32((payload.len() as int) % 4294967296) + payload
}

/// Frame a payload for the wire.
pub fn encode_frame(payload: &Vec<u8>) -> (r: Vec<u8>)
    ensures
        r@ == frame_spec(payload@),
{
    let n: u64 = (payload.len() as u64) % 4294967296;
    let mut out: Vec<u8> = Vec::new();
    out.push((n / 16777216) as u8);
    out.push((n / 65536 % 256) as u8);
    out.push((n / 256 % 256) as u8);
    out.push((n % 256) as u8);
    assert(out@ =~= be32((payload@.len() as int) % 4294967296));
    let mut i: usize = 0;
    while i < payload.len()
        invariant
            i <= payload.len(),
            out@ == be32((payload@.len() as int) % 4294967296) + payload@.subrange(0, i as int),
        decreases payload.len() - i,
    {
        out.push(payload[i]);
        assert(payload@.subrange(0, i + 1) =~= payload@.subrange(0, i as int).push(payload@[i as int]));
        i += 1;
    }
    assert(payload@.subrange(0, payload.len() as int) =~= payload@);
    out
}

/// The payload length a received header announces, or `None` when it is
/// zero or over `MAX_FRAME` (the frame is then refused).
pub fn frame_len(header: &[u8; 4]) -> (r: Option<usize>)
    ensures
        r == (if 0 < header_value(header@) <= MAX_FRAME {
            Some(header_value(header@) as usize)
        } else {
            None
        }),
{
    let n: u64 = (header[0] as u64) * 16777216 + (header[1] as u64) * 65536 + (header[2] as u64)
        * 256 + (header[3] as u64);
    if n == 0 || n > MAX_FRAME as u64 {
        None
    } else {
        Some(n as usize)
    }
}

/// What one side frames, the other reads back: the header of a framed
/// payload announces the payload's length whenever that length fits the cap.
pub proof fn lemma_frame_roundtrip(payload: Seq<u8>)
    requires
        0 < payload.len() <= MAX_FRAME,
    ensures
        frame_spec(payload).subrange(4, frame_spec(payload).len() as int) == payload,
        header_value(frame_spec(payload).subrange(0, 4)) == payload.len(),
{
    let n = payload.len() as int;
    assert(n % 4294967296 == n);
    let f = frame_spec(payload);
    assert(f.subrange(4, f.len() as int) =~= payload);
    let h = f.subrange(0, 4);
    assert(h[0] == (n / 16777216) as u8);
    assert(h[1] == (n / 65536 % 256) as u8);
    assert(h[2] == (n / 256 % 256) as u8);
    assert(h[3] == (n % 256) as u8);
    assert((n / 16777216) * 16777216 + (n / 65536 % 256) * 65536 + (n / 256 % 256) * 256 + n % 256
        == n) by (nonlinear_arith)
        requires
            0 <= n < 16777216,
    ;
}

} // verus!
