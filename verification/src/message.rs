//! Fixed-length frame codec.
//!
//! Every frame on the wire is exactly [`MSG_SIZE`] bytes; a frame is either
//! the reserved all-zero noise sentinel or the encoding of a real payload.
//! A real payload is framed as a two-byte big-endian length followed by the
//! payload bytes and zero padding.  The sentinel is reserved: the encoder
//! rejects the empty payload (the only payload whose framing would collide
//! with the sentinel) and payloads longer than [`MAX_PAYLOAD_SIZE`], so a
//! successfully encoded real frame is never mistaken for noise.

use vstd::prelude::*;
use vstd::slice::slice_index_get;

verus! {

/// Exact number of bytes of every frame on the wire.
pub const MSG_SIZE: usize = 2048;

/// Longest payload a real frame can carry: two bytes of the frame hold the
/// payload length.
pub const MAX_PAYLOAD_SIZE: usize = 2046;

/// The reserved noise sentinel: an all-zero frame.
pub open spec fn noise_frame_spec() -> Seq<u8> {
    Seq::new(MSG_SIZE as nat, |i: int| 0u8)
}

/// A frame is noise exactly when it equals the sentinel.
pub open spec fn is_noise_spec(frame: Seq<u8>) -> bool {
    frame == noise_frame_spec()
}

/// Payloads the codec accepts: non-empty (the empty payload would collide
/// with the noise sentinel) and short enough to fit behind the length bytes.
pub open spec fn valid_payload(payload: Seq<u8>) -> bool {
    1 <= payload.len() <= MAX_PAYLOAD_SIZE as int
}

/// Framing of a real payload: big-endian length, payload, zero padding.
pub open spec fn encode_spec(payload: Seq<u8>) -> Seq<u8> {
    seq![(payload.len() as int / 256) as u8, (payload.len() as int % 256) as u8]
        + payload
        + Seq::new((MSG_SIZE - 2 - payload.len()) as nat, |i: int| 0u8)
}

/// The payload length a frame's first two bytes announce.
pub open spec fn announced_len(frame: Seq<u8>) -> int {
    frame[0] as int * 256 + frame[1] as int
}

/// A frame decodes to a payload exactly when it is a whole frame whose
/// announced length is a valid payload length and whose padding is all zero.
pub open spec fn decode_spec(frame: Seq<u8>) -> Option<Seq<u8>> {
    if frame.len() == MSG_SIZE as int {
        let n = announced_len(frame);
        if 1 <= n <= MAX_PAYLOAD_SIZE as int
            && (forall|i: int| 2 + n <= i < MSG_SIZE as int ==> frame[i] == 0u8) {
            Some(frame.subrange(2, 2 + n))
        } else {
            None
        }
    } else {
        None
    }
}

/// Why the codec refuses a payload.
#[derive(Clone, Copy, Debug, PartialEq, Eq, Structural)]
pub enum FrameError {
    /// The empty payload is reserved: its framing would equal the sentinel.
    EmptyPayload,
    /// The payload does not fit in a frame behind the two length bytes.
    PayloadTooLong,
}

/// Builds the noise sentinel frame.
pub fn encode_noise() -> (frame: Vec<u8>)
    ensures
        frame@ == noise_frame_spec(),
{
    let mut frame: Vec<u8> = Vec::new();
    let mut i: usize = 0;
    while i < MSG_SIZE
        invariant
            i <= MSG_SIZE,
            frame@.len() == i as int,
            forall|j: int| 0 <= j < i as int ==> frame@[j] == 0u8,
        decreases MSG_SIZE - i,
    {
        frame.push(0u8);
        i = i + 1;
    }
    proof {
        assert(frame@ =~= noise_frame_spec());
    }
    frame
}

/// Tells the noise sentinel apart from every other byte sequence.
pub fn is_noise(frame: &[u8]) -> (noise: bool)
    ensures
        noise == is_noise_spec(frame@),
{
    if frame.len() != MSG_SIZE {
        proof {
            assert(frame@.len() != noise_frame_spec().len());
        }
        return false;
    }
    let mut i: usize = 0;
    while i < MSG_SIZE
        invariant
            i <= MSG_SIZE,
            frame@.len() == MSG_SIZE as int,
            forall|j: int| 0 <= j < i as int ==> frame@[j] == 0u8,
        decreases MSG_SIZE - i,
    {
        if *slice_index_get(frame, i) != 0u8 {
            proof {
                assert(frame@[i as int] != noise_frame_spec()[i as int]);
            }
            return false;
        }
        i = i + 1;
    }
    proof {
        assert(frame@ =~= noise_frame_spec());
    }
    true
}

/// Frames a payload, or reports why it cannot be framed.  Success is owed
/// exactly on valid payloads.
pub fn encode_payload(payload: &[u8]) -> (result: Result<Vec<u8>, FrameError>)
    ensures
        payload@.len() == 0 ==> result == Result::<Vec<u8>, FrameError>::Err(FrameError::EmptyPayload),
        payload@.len() > MAX_PAYLOAD_SIZE as int
            ==> result == Result::<Vec<u8>, FrameError>::Err(FrameError::PayloadTooLong),
        valid_payload(payload@)
            ==> (result matches Result::Ok(frame) && frame@ == encode_spec(payload@)),
{
    if payload.len() == 0 {
        return Err(FrameError::EmptyPayload);
    }
    if payload.len() > MAX_PAYLOAD_SIZE {
        return Err(FrameError::PayloadTooLong);
    }
    Ok(encode_valid_payload(payload))
}

/// Frames a payload already known to be valid.
pub fn encode_valid_payload(payload: &[u8]) -> (frame: Vec<u8>)
    requires
        valid_payload(payload@),
    ensures
        frame@ == encode_spec(payload@),
{
    let n = payload.len();
    let mut frame: Vec<u8> = Vec::new();
    frame.push((n / 256) as u8);
    frame.push((n % 256) as u8);
    let mut i: usize = 0;
    while i < n
        invariant
            i <= n,
            n == payload@.len(),
            n <= MAX_PAYLOAD_SIZE,
            frame@.len() == 2 + i as int,
            frame@[0] == (n as int / 256) as u8,
            frame@[1] == (n as int % 256) as u8,
            forall|j: int| 0 <= j < i as int ==> frame@[2 + j] == payload@[j],
        decreases n - i,
    {
        frame.push(*slice_index_get(payload, i));
        i = i + 1;
    }
    let mut k: usize = n + 2;
    while k < MSG_SIZE
        invariant
            n + 2 <= k <= MSG_SIZE,
            n == payload@.len(),
            n <= MAX_PAYLOAD_SIZE,
            frame@.len() == k as int,
            frame@[0] == (n as int / 256) as u8,
            frame@[1] == (n as int % 256) as u8,
            forall|j: int| 0 <= j < n as int ==> frame@[2 + j] == payload@[j],
            forall|j: int| 2 + n as int <= j < k as int ==> frame@[j] == 0u8,
        decreases MSG_SIZE - k,
    {
        frame.push(0u8);
        k = k + 1;
    }
    proof {
        assert(frame@ =~= encode_spec(payload@));
    }
    frame
}

/// Recovers the payload of a real frame; yields nothing on the sentinel or
/// on any malformed byte sequence.
pub fn decode_frame(frame: &[u8]) -> (result: Option<Vec<u8>>)
    ensures
        result.deep_view() == decode_spec(frame@),
{
    if frame.len() != MSG_SIZE {
        return None;
    }
    let hi = *slice_index_get(frame, 0);
    let lo = *slice_index_get(frame, 1);
    let n: usize = (hi as usize) * 256 + (lo as usize);
    if n < 1 || n > MAX_PAYLOAD_SIZE {
        return None;
    }
    let mut k: usize = 2 + n;
    while k < MSG_SIZE
        invariant
            2 + n <= k <= MSG_SIZE,
            frame@.len() == MSG_SIZE as int,
            n == announced_len(frame@),
            1 <= n <= MAX_PAYLOAD_SIZE,
            forall|j: int| 2 + n as int <= j < k as int ==> frame@[j] == 0u8,
        decreases MSG_SIZE - k,
    {
        if *slice_index_get(frame, k) != 0u8 {
            return None;
        }
        k = k + 1;
    }
    let mut payload: Vec<u8> = Vec::new();
    let mut i: usize = 0;
    while i < n
        invariant
            i <= n,
            frame@.len() == MSG_SIZE as int,
            n == announced_len(frame@),
            1 <= n <= MAX_PAYLOAD_SIZE,
            payload@.len() == i as int,
            forall|j: int| 0 <= j < i as int ==> payload@[j] == frame@[2 + j],
        decreases n - i,
    {
        payload.push(*slice_index_get(frame, 2 + i));
        i = i + 1;
    }
    proof {
        assert(payload@ =~= frame@.subrange(2, 2 + n as int));
    }
    Some(payload)
}

/// A framed payload always fills a whole frame.
pub proof fn lemma_encode_len(payload: Seq<u8>)
    requires
        valid_payload(payload),
    ensures
        encode_spec(payload).len() == MSG_SIZE as int,
{
}

/// Indistinguishability boundary: a framed real payload is never the noise
/// sentinel, however the payload reads — its length bytes are never both
/// zero.
pub proof fn lemma_real_frame_not_noise(payload: Seq<u8>)
    requires
        valid_payload(payload),
    ensures
        !is_noise_spec(encode_spec(payload)),
{
    let frame = encode_spec(payload);
    let n = payload.len() as int;
    if n < 256 {
        assert(frame[1] == (n % 256) as u8);
        assert(frame[1] != 0u8);
        assert(noise_frame_spec()[1] == 0u8);
    } else {
        assert(frame[0] == (n / 256) as u8);
        assert(frame[0] != 0u8);
        assert(noise_frame_spec()[0] == 0u8);
    }
}

/// Round trip: decoding a framed payload gives the payload back.
pub proof fn lemma_decode_encode(payload: Seq<u8>)
    requires
        valid_payload(payload),
    ensures
        decode_spec(encode_spec(payload)) == Some(payload),
{
    let frame = encode_spec(payload);
    let n = payload.len() as int;
    assert(frame[0] as int == n / 256 && frame[1] as int == n % 256);
    assert(announced_len(frame) == n);
    assert(forall|i: int| 2 + n <= i < MSG_SIZE as int ==> frame[i] == 0u8);
    assert(frame.subrange(2, 2 + n) =~= payload);
}

/// Unique decoding: a frame that decodes at all is the framing of the
/// payload it decodes to, so distinct payloads have distinct frames.
pub proof fn lemma_encode_of_decoded(frame: Seq<u8>, payload: Seq<u8>)
    requires
        decode_spec(frame) == Some(payload),
    ensures
        valid_payload(payload),
        frame == encode_spec(payload),
{
    let n = announced_len(frame);
    assert(payload == frame.subrange(2, 2 + n));
    assert(payload.len() == n);
    assert(n / 256 < 256) by {
        assert(n <= MAX_PAYLOAD_SIZE as int);
    }
    assert(frame[0] as int == n / 256 && frame[1] as int == n % 256) by {
        assert(n == frame[0] as int * 256 + frame[1] as int);
        assert((frame[1] as int) < 256);
        assert(n / 256 == frame[0] as int && n % 256 == frame[1] as int) by (nonlinear_arith)
            requires
                n == frame[0] as int * 256 + frame[1] as int,
                0 <= (frame[1] as int) < 256;
    }
    assert(frame =~= encode_spec(payload));
}

/// The noise sentinel never decodes to a payload.
pub proof fn lemma_noise_not_decodable(frame: Seq<u8>)
    requires
        is_noise_spec(frame),
    ensures
        decode_spec(frame) is None,
{
    assert(announced_len(frame) == 0);
}

} // verus!
