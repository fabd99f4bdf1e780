use vstd::prelude::*;
use crate::bytes::{be_bytes_u16, be_u16, be_bytes_u64, be_u64, u16_to_be, u64_to_be, u16_from_be, u64_from_be_at,
    lemma_be_u16_roundtrip, lemma_be_u64_roundtrip};

verus! {

/// Unit type grouping the WebSocket frame codec.
pub struct WebSocketFrame;

/// `data` with byte `i` XOR-ed with `key[i % 4]`.
pub open spec fn ws_mask(data: Seq<u8>, key: Seq<u8>) -> Seq<u8> {
    Seq::new(data.len(), |i: int| data[i] ^ key[i % 4])
}

/// The length field of a masked client frame for a payload of `len` bytes.
pub open spec fn ws_len_field(len: nat) -> Seq<u8> {
    if len < 126 {
        seq![0x80u8 | (len as u8)]
    } else if len < 65536 {
        seq![0x80u8 | 126u8] + be_bytes_u16(len as u16)
    } else {
        seq![0x80u8 | 127u8] + be_bytes_u64(len as u64)
    }
}

/// The masked, final (FIN) frame carrying `data` with `opcode` and masking key `key`.
pub open spec fn spec_ws_frame(data: Seq<u8>, opcode: u8, key: Seq<u8>) -> Seq<u8> {
    seq![0x80u8 | opcode] + ws_len_field(data.len()) + key + ws_mask(data, key)
}

/// Payload length and the offset just after the length field, when the header is complete.
pub open spec fn ws_len_and_offset(data: Seq<u8>) -> Option<(int, int)> {
    if data.len() < 2 {
        None
    } else {
        let l7 = data[1] & 0x7f;
        if l7 == 126 {
            if data.len() < 4 {
                None
            } else {
                Some((be_u16(data[2], data[3]) as int, 4))
            }
        } else if l7 == 127 {
            if data.len() < 10 {
                None
            } else {
                Some(((be_u64(data.subrange(2, 10)) as usize) as int, 10))
            }
        } else {
            Some((l7 as int, 2))
        }
    }
}

/// Whether the frame header announces a masked payload.
pub open spec fn ws_is_masked(data: Seq<u8>) -> bool {
    data[1] & 0x80 != 0
}

/// The payload of the first complete frame in `data` and the frame's length,
/// or `None` when the frame is incomplete.
pub open spec fn spec_ws_decode(data: Seq<u8>) -> Option<(Seq<u8>, int)> {
    match ws_len_and_offset(data) {
        None => None,
        Some((len, off)) => if ws_is_masked(data) {
            if data.len() < off + 4 + len {
                None
            } else {
                Some((ws_mask(data.subrange(off + 4, off + 4 + len), data.subrange(off, off + 4)), off + 4 + len))
            }
        } else {
            if data.len() < off + len {
                None
            } else {
                Some((data.subrange(off, off + len), off + len))
            }
        },
    }
}

/// Inputs on which the announced frame end does not overflow `usize`.
pub open spec fn ws_decode_in_range(data: Seq<u8>) -> bool {
    match ws_len_and_offset(data) {
        None => true,
        Some((len, off)) => off + 4 + len <= usize::MAX,
    }
}

/// Trusted: `rand::random::<[u8; 4]>()`. Only the length is claimed: the key is random.
#[verifier::external_body]
fn random_mask_key() -> (r: [u8; 4])
{
    rand::random::<[u8; 4]>()
}

proof fn lemma_and3(i: usize)
    ensures
        i & 3 == i % 4,
        i & 3 < 4,
{
    assert(i & 3 == i % 4) by (bit_vector);
    assert(i & 3 < 4) by (bit_vector);
}

/// XOR-s `data[start..start + len]` with `key` (index taken modulo 4) onto the end of `out`.
fn push_masked(out: &mut Vec<u8>, data: &[u8], start: usize, len: usize, key: &[u8])
    requires
        start + len <= data@.len(),
        key@.len() == 4,
    ensures
        final(out)@ == old(out)@ + ws_mask(data@.subrange(start as int, start + len), key@),
{
    let mut i: usize = 0;
    let dl = data.len();
    while i < len
        invariant
            i <= len,
            start + len <= data@.len(),
            dl == data@.len(),
            key@.len() == 4,
            out@ == old(out)@ + ws_mask(data@.subrange(start as int, start + len), key@).take(i as int),
        decreases len - i,
    {
        proof {
            lemma_and3(i);
        }
        out.push(data[start + i] ^ key[i & 3]);
        assert(ws_mask(data@.subrange(start as int, start + len), key@).take(i + 1)
            =~= ws_mask(data@.subrange(start as int, start + len), key@).take(i as int).push(data@[start + i] ^ key@[(i % 4) as int]));
        i = i + 1;
    }
    assert(ws_mask(data@.subrange(start as int, start + len), key@).take(len as int)
        =~= ws_mask(data@.subrange(start as int, start + len), key@));
}

impl WebSocketFrame {
    /// Builds a masked frame with a random masking key.
    pub fn encode(data: &[u8], opcode: u8) -> (r: Vec<u8>)
        ensures
            exists|key: Seq<u8>| key.len() == 4 && r@ == spec_ws_frame(data@, opcode, key),
    {
        let key = random_mask_key();
        Self::encode_with_mask(data, opcode, key)
    }

    /// Builds a masked frame with the given masking key.
    pub fn encode_with_mask(data: &[u8], opcode: u8, mask_key: [u8; 4]) -> (r: Vec<u8>)
        ensures
            r@ == spec_ws_frame(data@, opcode, mask_key@),
    {
        let mask = 0x80u8;
        let mut frame: Vec<u8> = Vec::new();
        frame.push(0x80 | opcode);
        let len = data.len();
        if len < 126 {
            frame.push(mask | len as u8);
        } else if len < 65536 {
            frame.push(mask | 126);
            let b = u16_to_be(len as u16);
            frame.extend_from_slice(&b);
        } else {
            frame.push(mask | 127);
            let b = u64_to_be(len as u64);
            frame.extend_from_slice(&b);
        }
        assert(frame@ =~= seq![0x80u8 | opcode] + ws_len_field(data@.len()));
        frame.extend_from_slice(&mask_key);
        push_masked(&mut frame, data, 0, len, &mask_key);
        assert(data@.subrange(0, len as int) =~= data@);
        assert(frame@ =~= spec_ws_frame(data@, opcode, mask_key@));
        frame
    }

    /// Decodes the first frame in `data`: its (unmasked) payload and the frame's length,
    /// or `None` when `data` does not yet hold a complete frame.
    pub fn decode(data: &[u8]) -> (r: Option<(Vec<u8>, usize)>)
        requires
            ws_decode_in_range(data@),
        ensures
            match (r, spec_ws_decode(data@)) {
                (None, None) => true,
                (Some((p, n)), Some((sp, sn))) => p@ == sp && n as int == sn,
                _ => false,
            },
    {
        if data.len() < 2 {
            return None;
        }
        let masked = (data[1] & 0x80) != 0;
        let mut len: usize = (data[1] & 0x7f) as usize;
        let mut offset: usize = 2;
        if len == 126 {
            if data.len() < 4 {
                return None;
            }
            len = u16_from_be(data[2], data[3]) as usize;
            offset = 4;
        } else if len == 127 {
            if data.len() < 10 {
                return None;
            }
            len = u64_from_be_at(data, 2) as usize;
            offset = 10;
        }
        if masked {
            if data.len() < offset + 4 + len {
                return None;
            }
            let mask_key = &data[offset..offset + 4];
            offset = offset + 4;
            let mut payload: Vec<u8> = Vec::new();
            push_masked(&mut payload, data, offset, len, mask_key);
            assert(payload@ =~= ws_mask(data@.subrange(offset as int, offset + len), mask_key@));
            Some((payload, offset + len))
        } else {
            if data.len() < offset + len {
                return None;
            }
            let v = vstd::slice::slice_to_vec(&data[offset..offset + len]);
            Some((v, offset + len))
        }
    }
}

/// Decoding a frame built by `encode_with_mask` gives back the payload and consumes exactly
/// the frame (payloads whose frame would not fit in memory excluded).
pub proof fn lemma_ws_roundtrip(data: Seq<u8>, opcode: u8, key: Seq<u8>, rest: Seq<u8>)
    requires
        key.len() == 4,
        data.len() + 14 <= usize::MAX,
    ensures
        ws_decode_in_range(spec_ws_frame(data, opcode, key) + rest),
        spec_ws_decode(spec_ws_frame(data, opcode, key) + rest) == Some((data, spec_ws_frame(data, opcode, key).len() as int)),
{
    let f = spec_ws_frame(data, opcode, key);
    let s = f + rest;
    let len = data.len();
    let b1 = ws_len_field(len)[0];
    let hl: int = ws_len_field(len).len() as int;
    if len < 126 {
        let l = len as u8;
        assert((0x80u8 | l) & 0x7f == l && (0x80u8 | l) & 0x80 != 0) by (bit_vector) requires l < 126;
    } else if len < 65536 {
        assert((0x80u8 | 126u8) & 0x7f == 126u8 && (0x80u8 | 126u8) & 0x80 != 0) by (bit_vector);
        lemma_be_u16_roundtrip(len as u16);
        assert(s[2] == be_bytes_u16(len as u16)[0]);
        assert(s[3] == be_bytes_u16(len as u16)[1]);
    } else {
        assert((0x80u8 | 127u8) & 0x7f == 127u8 && (0x80u8 | 127u8) & 0x80 != 0) by (bit_vector);
        lemma_be_u64_roundtrip(len as u64);
        assert(s.subrange(2, 10) =~= be_bytes_u64(len as u64));
    }
    assert(s[1] == b1);
    let off = 1 + hl;
    assert(ws_len_and_offset(s) == Some((len as int, off)));
    assert(s.subrange(off, off + 4) =~= key);
    assert(s.subrange(off + 4, off + 4 + len) =~= ws_mask(data, key));
    assert forall|i: int| 0 <= i < len implies #[trigger] ws_mask(ws_mask(data, key), key)[i] == data[i] by {
        let a = data[i];
        let k = key[i % 4];
        assert((a ^ k) ^ k == a) by (bit_vector);
    }
    assert(ws_mask(ws_mask(data, key), key) =~= data);
}

/// Law of incomplete frames: every strict prefix of an encoded frame decodes to nothing, so
/// that a reader waits for the rest of the frame.
pub proof fn lemma_ws_prefix_incomplete(data: Seq<u8>, opcode: u8, key: Seq<u8>, k: int)
    requires
        key.len() == 4,
        data.len() + 14 <= usize::MAX,
        0 <= k < spec_ws_frame(data, opcode, key).len(),
    ensures
        spec_ws_decode(spec_ws_frame(data, opcode, key).take(k)) is None,
{
    let f = spec_ws_frame(data, opcode, key);
    lemma_ws_roundtrip(data, opcode, key, Seq::empty());
    assert(f + Seq::<u8>::empty() =~= f);
    let p = f.take(k);
    if k >= 2 {
        assert(p[1] == f[1]);
        let l7 = f[1] & 0x7f;
        if l7 == 126 && k >= 4 {
            assert(p[2] == f[2] && p[3] == f[3]);
        } else if l7 == 127 && k >= 10 {
            assert(p.subrange(2, 10) =~= f.subrange(2, 10));
        }
        assert(ws_is_masked(p) == ws_is_masked(f));
    }
}


/// Law of masking (RFC 6455): a frame ends with its masking key followed by the payload,
/// whose byte `i` is the data byte `i` xored with key byte `i mod 4`.
pub proof fn lemma_ws_frame_masking(data: Seq<u8>, opcode: u8, key: Seq<u8>)
    requires
        key.len() == 4,
    ensures
        ({
            let f = spec_ws_frame(data, opcode, key);
            &&& f.len() >= data.len() + 4
            &&& forall|j: int| 0 <= j < 4 ==> #[trigger] f[f.len() - data.len() - 4 + j] == key[j]
            &&& forall|i: int| 0 <= i < data.len() ==> #[trigger] f[f.len() - data.len() + i] == data[i] ^ key[i % 4]
        }),
{
    let f = spec_ws_frame(data, opcode, key);
    let h = seq![0x80u8 | opcode] + ws_len_field(data.len());
    assert(f == h + key + ws_mask(data, key));
    assert forall|j: int| 0 <= j < 4 implies #[trigger] f[f.len() - data.len() - 4 + j] == key[j] by {
        assert(f[h.len() + j] == key[j]);
    }
    assert forall|i: int| 0 <= i < data.len() implies #[trigger] f[f.len() - data.len() + i] == data[i] ^ key[i % 4] by {
        assert(f[h.len() + 4 + i] == ws_mask(data, key)[i]);
    }
}

/// Law of unmasking (RFC 6455): the payload decoded from a complete masked frame has as its
/// byte `i` the frame's payload byte `i` xored with byte `i mod 4` of the masking key that
/// follows the length field.
pub proof fn lemma_ws_decode_unmasks(data: Seq<u8>)
    requires
        ws_len_and_offset(data) is Some,
        ws_is_masked(data),
        spec_ws_decode(data) is Some,
    ensures
        ({
            let (len, off) = ws_len_and_offset(data).unwrap();
            let p = spec_ws_decode(data).unwrap().0;
            &&& p.len() == len
            &&& forall|i: int| 0 <= i < len ==> #[trigger] p[i] == data[off + 4 + i] ^ data[off + i % 4]
        }),
{
    let (len, off) = ws_len_and_offset(data).unwrap();
    let p = spec_ws_decode(data).unwrap().0;
    assert forall|i: int| 0 <= i < len implies #[trigger] p[i] == data[off + 4 + i] ^ data[off + i % 4] by {
        assert(data.subrange(off + 4, off + 4 + len)[i] == data[off + 4 + i]);
        assert(data.subrange(off, off + 4)[i % 4] == data[off + i % 4]);
    }
}


/// Law of the frame header (RFC 6455): the first byte is FIN with the opcode; the second has
/// the mask bit and the payload length when below 126, else 126 followed by the length as two
/// big-endian bytes when below 65536, else 127 followed by the length as eight big-endian bytes.
pub proof fn lemma_ws_frame_header(data: Seq<u8>, opcode: u8, key: Seq<u8>)
    requires
        data.len() <= u64::MAX,
    ensures
        ({
            let f = spec_ws_frame(data, opcode, key);
            let n = data.len();
            &&& f[0] == 0x80u8 | opcode
            &&& n < 126 ==> f[1] as int == 128 + n
            &&& 126 <= n < 65536 ==> f[1] == 254 && 256 * (f[2] as int) + (f[3] as int) == n
            &&& 65536 <= n ==> f[1] == 255 && forall|k: int| 0 <= k < 8 ==>
                #[trigger] f[9 - k] == (((n as u64) >> (8 * k) as u64) & 0xff) as u8
        }),
{
    let f = spec_ws_frame(data, opcode, key);
    let n = data.len();
    let lf = ws_len_field(n);
    assert(f == seq![0x80u8 | opcode] + lf + key + ws_mask(data, key));
    assert(f[0] == 0x80u8 | opcode);
    assert(0x80u8 | 126u8 == 254u8) by (bit_vector);
    assert(0x80u8 | 127u8 == 255u8) by (bit_vector);
    if n < 126 {
        let l = n as u8;
        assert(0x80u8 | l == 128 + l) by (bit_vector)
            requires l < 126;
        assert(lf[0] == 0x80u8 | l);
        assert(f[1] == lf[0]);
    } else if n < 65536 {
        crate::bytes::lemma_be_u16_value(0, 0, n as u16);
        assert(f[1] == lf[0]);
        assert(f[2] == lf[1]);
        assert(f[3] == lf[2]);
    } else {
        let v = n as u64;
        crate::bytes::lemma_be_bytes_u64_digits(v);
        assert(f[1] == lf[0]);
        assert forall|k: int| 0 <= k < 8 implies #[trigger] f[9 - k] == ((v >> (8 * k) as u64) & 0xff) as u8 by {
            assert(f[9 - k] == lf[8 - k]);
            assert(lf[8 - k] == be_bytes_u64(v)[7 - k]);
            if k == 0 {
            } else if k == 1 {
            } else if k == 2 {
            } else if k == 3 {
            } else if k == 4 {
            } else if k == 5 {
            } else if k == 6 {
            } else {
            }
        }
    }
}

} // verus!
