use vstd::prelude::*;
use vstd::slice::slice_to_vec;
use crate::error::{Error, Result, msg};
use crate::clock::unix_time_secs;
use crate::crc32::{crc32, spec_crc32, spec_adler32};
use crate::bytes::{bytes_eq, le_bytes_u32, le_u32, be_u16, u16_from_be, u32_from_le, lemma_le_u32_roundtrip};
use super::obfs::{Protocol, ServerInfo, is_default_info, passes_through};
use super::obfsutil::{rand_bytes, xorshift128plus, spec_xorshift_next_seed, get_s5_head_size, spec_s5_head_size,
    ss_sha1_hmac_full, spec_hmac_sha1, filladler32, checkadler32, spec_checkadler32};

verus! {

const OBFS_HMAC_SHA1_LEN: usize = 10;

/// Per-process identifiers of the auth protocols.
pub struct AuthGlobalData {
    pub local_client_id: [u8; 8],
    pub connection_id: u32,
}

impl AuthGlobalData {
    /// Random client id and a random 24-bit connection id.
    pub fn new() -> (r: Self)
        ensures
            r.connection_id <= 0xFF_FFFF,
    {
        let r = rand_bytes(8);
        let id: [u8; 8] = [r[0], r[1], r[2], r[3], r[4], r[5], r[6], r[7]];
        let r2 = rand_bytes(4);
        let c = u32_from_le(r2[0], r2[1], r2[2], r2[3]);
        assert(c & 0xFF_FFFF <= 0xFF_FFFF) by (bit_vector);
        AuthGlobalData { local_client_id: id, connection_id: c & 0xFF_FFFF }
    }
}

proof fn lemma_xorshift_zero()
    ensures
        spec_xorshift_next_seed(0) == 0,
{
    assert((0u64 ^ (0u64 << 23u64)) ^ 0u64 ^ ((0u64 ^ (0u64 << 23u64)) >> 17u64) ^ (0u64 >> 26u64) == 0u64)
        by (bit_vector);
}

/// Padding length of a packet. The generator is seeded with zero on every call, so the
/// padding is always one byte.
fn random_padding_len(data_len: usize) -> (r: usize)
    ensures
        r == 1,
{
    proof {
        lemma_xorshift_zero();
    }
    let mut seed: u64 = 0;
    let r: usize = if data_len > 1300 {
        0
    } else if data_len > 400 {
        let x = xorshift128plus(&mut seed);
        assert(x == 0);
        assert(x & 0x7F == 0) by (bit_vector) requires x == 0;
        (x & 0x7F) as usize
    } else {
        let x = xorshift128plus(&mut seed);
        assert(x == 0);
        assert(x & 0x3FF == 0) by (bit_vector) requires x == 0;
        (x & 0x3FF) as usize
    };
    r + 1
}

/// Padding length for the aes128 variants (seeded with zero as well, so always one byte).
fn random_padding_len_aes(_data_len: usize) -> (r: usize)
    ensures
        r == 1,
{
    proof {
        lemma_xorshift_zero();
    }
    let mut seed: u64 = 0;
    let x = xorshift128plus(&mut seed);
    assert(x & 0xF == 0) by (bit_vector) requires x == 0;
    (x & 0xF) as usize + 1
}

/// Trusted: `rand::random::<u32>()`. Nothing is claimed of the value.
#[verifier::external_body]
fn random_u32() -> (r: u32)
{
    rand::random::<u32>()
}

// ============================================================
//  auth_sha1_v4 wire format
// ============================================================

/// The two big-endian bytes of a packet size (truncated to 16 bits).
pub open spec fn size_bytes(size: usize) -> Seq<u8> {
    seq![(size >> 8) as u8, (size & 0xff) as u8]
}

/// A data packet: size, low CRC-32 bytes of the size, one byte of padding length (1),
/// the data, and the Adler-32 of everything before it.
#[verifier::opaque]
pub open spec fn v4_data_packet(data: Seq<u8>) -> Seq<u8> {
    let hdr = size_bytes((data.len() + 9) as usize);
    let body = hdr + le_bytes_u32(spec_crc32(hdr)).take(2) + seq![1u8] + data;
    body + le_bytes_u32(spec_adler32(body))
}

/// `data` cut into pieces of at most `unit` bytes, each packed as a data packet.
pub open spec fn v4_chunks(data: Seq<u8>, unit: nat) -> Seq<u8>
    decreases data.len(),
{
    if data.len() == 0 || unit == 0 {
        Seq::empty()
    } else {
        let n: int = if data.len() < unit { data.len() as int } else { unit as int };
        v4_data_packet(data.take(n)) + v4_chunks(data.skip(n), unit)
    }
}

/// The first ten bytes of the HMAC-SHA1 of `msg` under `key`.
pub open spec fn hmac10(key: Seq<u8>, msg: Seq<u8>) -> Seq<u8> {
    Seq::new(10, |i: int| spec_hmac_sha1(key, msg)[i])
}

/// The bytes of the protocol name mixed into the auth packet's CRC.
pub open spec fn v4_salt() -> Seq<u8> {
    seq![0x61u8, 0x75, 0x74, 0x68, 0x5f, 0x73, 0x68, 0x61, 0x31, 0x5f, 0x76, 0x34]
}

/// The first packet of a connection: size, CRC of (size, salt, key), padding, timestamp,
/// client id, 24-bit connection id, the data, then the first ten bytes of the
/// HMAC-SHA1 (under `key`) of everything before it followed by `iv`.
#[verifier::opaque]
pub open spec fn v4_auth_packet(data: Seq<u8>, key: Seq<u8>, iv: Seq<u8>, now: u32, client_id: Seq<u8>, conn_id: u32) -> Seq<u8> {
    let hdr = size_bytes((data.len() + 29) as usize);
    let crc2 = le_bytes_u32(spec_crc32(hdr + v4_salt() + key)).take(2);
    let body = hdr + crc2 + seq![0u8, 0u8, 1u8] + le_bytes_u32(now) + client_id + le_bytes_u32(conn_id & 0xFF_FFFF) + data;
    body + hmac10(key, body + iv)
}

/// Little-endian value of two bytes.
pub open spec fn le_u16(b0: u8, b1: u8) -> u16 {
    ((b0 as u16) | ((b1 as u16) << 8u16)) as u16
}

/// Where the data starts inside a data packet.
pub open spec fn v4_data_start(buf: Seq<u8>) -> int {
    if buf[4] < 255 {
        buf[4] + 4
    } else {
        be_u16(buf[5], buf[6]) + 4
    }
}

/// Which side reads the packets, which decides how malformed packets are treated.
#[derive(Clone, Copy, PartialEq, Eq, Structural)]
pub enum V4Mode {
    /// The client: a bad checksum or length is an error.
    Client,
    /// The server after the auth packet: a bad checksum is an error, a bad length waits.
    Server,
    /// The server right after the auth packet: a bad checksum discards the buffer.
    ServerFirst,
}

/// Outcome of reading the data packets at the front of a buffer.
pub enum V4Decoded {
    /// The data of the complete packets and the bytes left over.
    Done(Seq<u8>, Seq<u8>),
    /// A malformed packet: the buffer is discarded and an error reported.
    Failed,
    /// A packet whose data offset lies past its end: undefined.
    Stuck,
}

pub open spec fn v4_prepend(o: Seq<u8>, d: V4Decoded) -> V4Decoded {
    match d {
        V4Decoded::Done(o2, r) => V4Decoded::Done(o + o2, r),
        other => other,
    }
}

/// Reads the data packets at the front of `buf`.
pub open spec fn v4_decode(buf: Seq<u8>, mode: V4Mode) -> V4Decoded
    decreases buf.len(),
{
    if buf.len() <= 4 {
        V4Decoded::Done(Seq::empty(), buf)
    } else if (spec_crc32(buf.take(2)) as u16) != le_u16(buf[2], buf[3]) {
        if mode == V4Mode::ServerFirst {
            V4Decoded::Done(Seq::empty(), Seq::empty())
        } else {
            V4Decoded::Failed
        }
    } else {
        let length = be_u16(buf[0], buf[1]) as int;
        if length >= 8192 || length < 7 {
            if mode == V4Mode::Client {
                V4Decoded::Failed
            } else {
                V4Decoded::Done(Seq::empty(), buf)
            }
        } else if length > buf.len() {
            V4Decoded::Done(Seq::empty(), buf)
        } else if !spec_checkadler32(buf.take(length), length) {
            if mode == V4Mode::ServerFirst {
                V4Decoded::Done(Seq::empty(), Seq::empty())
            } else {
                V4Decoded::Failed
            }
        } else {
            let ds = v4_data_start(buf);
            if ds + 4 > length {
                V4Decoded::Stuck
            } else {
                v4_prepend(buf.subrange(ds, length - 4), v4_decode(buf.skip(length), mode))
            }
        }
    }
}


proof fn lemma_prepend_empty(d: V4Decoded)
    ensures
        v4_prepend(Seq::empty(), d) == d,
{
    match d {
        V4Decoded::Done(o2, r) => {
            assert(Seq::<u8>::empty() + o2 =~= o2);
        },
        _ => {},
    }
}

proof fn lemma_prepend_assoc(o: Seq<u8>, x: Seq<u8>, d: V4Decoded)
    ensures
        v4_prepend(o, v4_prepend(x, d)) == v4_prepend(o + x, d),
{
    match d {
        V4Decoded::Done(o2, r) => {
            assert(o + (x + o2) =~= (o + x) + o2);
        },
        _ => {},
    }
}

/// What reading the data packets of a buffer gave: their data and how many bytes they took,
/// a malformed packet, or a packet whose data offset lies past its end.
enum V4Read {
    Done(Vec<u8>, usize),
    Failed,
    Stuck,
}

/// Reads the data packets at the front of `buf`.
#[verifier::rlimit(40)]
fn v4_decode_exec(buf: &[u8], mode: V4Mode) -> (r: V4Read)
    ensures
        match v4_decode(buf@, mode) {
            V4Decoded::Done(o, rest) => r matches V4Read::Done(v, n) && v@ == o && n <= buf@.len() && rest == buf@.skip(n as int),
            V4Decoded::Failed => r is Failed,
            V4Decoded::Stuck => r is Stuck,
        },
{
    let mut out: Vec<u8> = Vec::new();
    let mut pos: usize = 0;
    let n = buf.len();
    proof {
        assert(buf@.skip(0) =~= buf@);
        lemma_prepend_empty(v4_decode(buf@, mode));
    }
    loop
        invariant
            n == buf@.len(),
            pos <= n,
            v4_decode(buf@, mode) == v4_prepend(out@, v4_decode(buf@.skip(pos as int), mode)),
        ensures
            pos <= n,
            v4_decode(buf@, mode) == v4_prepend(out@, V4Decoded::Done(Seq::empty(), buf@.skip(pos as int))),
        decreases n - pos,
    {
        let ghost cur = buf@.skip(pos as int);
        if n - pos <= 4 {
            break;
        }
        let crc = crc32(&buf[pos..pos + 2]);
        assert(buf@.subrange(pos as int, pos + 2) =~= cur.take(2));
        let crc_pkt: u16 = (buf[pos + 2] as u16) | ((buf[pos + 3] as u16) << 8u16);
        if (crc as u16) != crc_pkt {
            if mode == V4Mode::ServerFirst {
                assert(buf@.skip(n as int) =~= Seq::<u8>::empty());
                assert(out@ + Seq::<u8>::empty() =~= out@);
                pos = n;
                break;
            }
            return V4Read::Failed;
        }
        let length = u16_from_be(buf[pos], buf[pos + 1]) as usize;
        if length >= 8192 || length < 7 {
            if mode == V4Mode::Client {
                return V4Read::Failed;
            }
            assert(out@ + Seq::<u8>::empty() =~= out@);
            break;
        }
        if length > n - pos {
            assert(out@ + Seq::<u8>::empty() =~= out@);
            break;
        }
        let ok = checkadler32(&buf[pos..pos + length], length);
        assert(buf@.subrange(pos as int, pos + length) =~= cur.take(length as int));
        if !ok {
            if mode == V4Mode::ServerFirst {
                assert(buf@.skip(n as int) =~= Seq::<u8>::empty());
                assert(out@ + Seq::<u8>::empty() =~= out@);
                pos = n;
                break;
            }
            return V4Read::Failed;
        }
        let p = buf[pos + 4] as usize;
        let data_start: usize = if p < 255 {
            p + 4
        } else {
            u16_from_be(buf[pos + 5], buf[pos + 6]) as usize + 4
        };
        assert(data_start == v4_data_start(cur));
        if data_start + 4 > length {
            return V4Read::Stuck;
        }
        let ghost o = out@;
        out.extend_from_slice(&buf[pos + data_start..pos + length - 4]);
        assert(buf@.subrange(pos + data_start, pos + length - 4) =~= cur.subrange(data_start as int, length - 4));
        assert(cur.skip(length as int) =~= buf@.skip(pos + length));
        assert(out@ =~= o + cur.subrange(data_start as int, length - 4));
        proof {
            lemma_prepend_assoc(o, cur.subrange(data_start as int, length - 4), v4_decode(cur.skip(length as int), mode));
        }
        pos = pos + length;
    }
    V4Read::Done(out, pos)
}

/// Mathematical state of an `auth_sha1_v4` endpoint.
pub struct V4Model {
    pub info: ServerInfo,
    pub has_sent_header: bool,
    pub has_recv_header: bool,
    pub recv_buffer: Seq<u8>,
    pub extra_wait_size: nat,
}

/// Outcome of a `*_post_decrypt` call on a model.
pub enum V4Post {
    /// The output and the new state.
    Accepted(Seq<u8>, V4Model),
    /// An error is reported; the new state.
    Rejected(V4Model),
    Stuck,
}

/// Packet size that the client packs data in.
pub open spec fn v4_unit() -> nat {
    2000
}

/// Largest accepted difference between the client's and the server's clocks, in seconds.
pub open spec fn v4_max_time_diff() -> i32 {
    86400
}

/// The client's output for `data`, given the clock reading and random ids used for the
/// auth packet.
#[verifier::opaque]
pub open spec fn v4_client_pre(m: V4Model, data: Seq<u8>, now: u32, client_id: Seq<u8>, conn_id: u32) -> (Seq<u8>, V4Model) {
    if !m.has_sent_header && data.len() > 0 {
        let hs: int = if spec_s5_head_size(data) < data.len() { spec_s5_head_size(data) } else { data.len() as int };
        (
            v4_auth_packet(data.take(hs), m.info.key@, m.info.recv_iv@, now, client_id, conn_id)
                + v4_chunks(data.skip(hs), v4_unit()),
            V4Model { has_sent_header: true, ..m },
        )
    } else {
        (v4_chunks(data, v4_unit()), m)
    }
}

/// The client reading the server's packets.
pub open spec fn v4_client_post(m: V4Model, data: Seq<u8>) -> V4Post {
    match v4_decode(m.recv_buffer + data, V4Mode::Client) {
        V4Decoded::Done(o, rest) => V4Post::Accepted(o, V4Model { recv_buffer: rest, ..m }),
        V4Decoded::Failed => V4Post::Rejected(V4Model { recv_buffer: Seq::empty(), ..m }),
        V4Decoded::Stuck => V4Post::Stuck,
    }
}

/// Wrapping absolute difference of two clock readings, as 32-bit signed numbers.
pub open spec fn v4_time_diff(now: u32, sent: u32) -> i32 {
    let d = vstd::wrapping::i32_specs::wrapping_sub(now as i32, sent as i32);
    if d < 0 {
        if d == i32::MIN {
            d
        } else {
            (-d) as i32
        }
    } else {
        d
    }
}

/// The server reading the client's packets, at clock reading `now`.
#[verifier::opaque]
pub open spec fn v4_server_post(m: V4Model, data: Seq<u8>, now: u32) -> V4Post {
    let buf = m.recv_buffer + data;
    if m.has_recv_header {
        match v4_decode(buf, V4Mode::Server) {
            V4Decoded::Done(o, rest) => V4Post::Accepted(o, V4Model { recv_buffer: rest, ..m }),
            V4Decoded::Failed => V4Post::Rejected(V4Model { recv_buffer: Seq::empty(), ..m }),
            V4Decoded::Stuck => V4Post::Stuck,
        }
    } else if buf.len() < 12 && buf.len() < m.extra_wait_size {
        V4Post::Accepted(Seq::empty(), V4Model { recv_buffer: buf, ..m })
    } else if buf.len() < 2 {
        V4Post::Stuck
    } else {
        let hl = be_u16(buf[0], buf[1]) as int;
        let waiting = V4Model { recv_buffer: buf, ..m };
        if hl > buf.len() {
            V4Post::Accepted(Seq::empty(), waiting)
        } else if hl < 10 {
            V4Post::Stuck
        } else if hmac10(m.info.key@, buf.take(hl - 10) + m.info.recv_iv@) != buf.subrange(hl - 10, hl) {
            V4Post::Rejected(waiting)
        } else {
            let ds: int = if buf[6] < 255 { buf[6] + 6 } else { be_u16(buf[7], buf[8]) + 6 };
            if ds > hl - 10 {
                V4Post::Stuck
            } else {
                let auth = buf.subrange(ds, hl - 10);
                if auth.len() < 12 {
                    V4Post::Rejected(waiting)
                } else if v4_time_diff(now, le_u32(auth[0], auth[1], auth[2], auth[3])) > v4_max_time_diff() {
                    V4Post::Rejected(waiting)
                } else {
                    match v4_decode(buf.skip(hl), V4Mode::ServerFirst) {
                        V4Decoded::Done(o, rest) => V4Post::Accepted(
                            auth.skip(12) + o,
                            V4Model { has_recv_header: true, recv_buffer: rest, ..m },
                        ),
                        V4Decoded::Failed => V4Post::Rejected(waiting),
                        V4Decoded::Stuck => V4Post::Stuck,
                    }
                }
            }
        }
    }
}

pub proof fn lemma_server_first_never_fails(buf: Seq<u8>)
    ensures
        !(v4_decode(buf, V4Mode::ServerFirst) is Failed),
    decreases buf.len(),
{
    if buf.len() > 4 {
        let length = be_u16(buf[0], buf[1]) as int;
        if 7 <= length <= buf.len() && length < 8192 {
            lemma_server_first_never_fails(buf.skip(length));
        }
    }
}

/// Packs `data` as one data packet.
fn auth_sha1_v4_pack_data(data: &[u8]) -> (r: Vec<u8>)
    requires
        data@.len() + 9 <= usize::MAX,
    ensures
        r@ == v4_data_packet(data@),
{
    reveal(v4_data_packet);
    let rlen = random_padding_len(data.len());
    let out_size = rlen + data.len() + 8;
    let mut out: Vec<u8> = Vec::new();
    out.push((out_size >> 8) as u8);
    out.push((out_size & 0xFF) as u8);
    let ghost hdr = out@;
    assert(hdr =~= size_bytes((data@.len() + 9) as usize));
    let crc_val = crc32(out.as_slice());
    out.push((crc_val & 0xFF) as u8);
    out.push(((crc_val >> 8) & 0xFF) as u8);
    out.push(rlen as u8);
    out.extend_from_slice(data);
    let ghost body = out@;
    assert(body =~= hdr + le_bytes_u32(spec_crc32(hdr)).take(2) + seq![1u8] + data@);
    out.push(0);
    out.push(0);
    out.push(0);
    out.push(0);
    let olen = out.len();
    let ghost pre = out@;
    assert(pre.take(olen - 4) =~= body);
    assert(pre.skip(olen as int) =~= Seq::<u8>::empty());
    filladler32(out.as_mut_slice(), olen);
    assert(out@ =~= body + le_bytes_u32(spec_adler32(body)));
    out
}

/// Packs the first packet of a connection from the clock reading and random ids.
pub fn auth_sha1_v4_pack_auth_data_with(data: &[u8], server: &ServerInfo, now: u32, client_id: &[u8], conn_id: u32) -> (r: Vec<u8>)
    requires
        data@.len() + 29 <= usize::MAX,
        client_id@.len() == 4,
    ensures
        r@ == v4_auth_packet(data@, server.key@, server.recv_iv@, now, client_id@, conn_id),
{
    reveal(v4_auth_packet);
    let rlen = random_padding_len(data.len());
    let data_offset = rlen + 4 + 2;
    let out_size = data_offset + data.len() + 12 + OBFS_HMAC_SHA1_LEN;
    let mut out: Vec<u8> = Vec::new();
    out.push((out_size >> 8) as u8);
    out.push((out_size & 0xFF) as u8);
    let ghost hdr = out@;
    assert(hdr =~= size_bytes((data@.len() + 29) as usize));
    let salt: [u8; 12] = [0x61, 0x75, 0x74, 0x68, 0x5f, 0x73, 0x68, 0x61, 0x31, 0x5f, 0x76, 0x34];
    let mut crc_data: Vec<u8> = Vec::new();
    crc_data.extend_from_slice(out.as_slice());
    crc_data.extend_from_slice(&salt);
    crc_data.extend_from_slice(server.key.as_slice());
    assert(crc_data@ =~= hdr + v4_salt() + server.key@);
    let crc_val = crc32(crc_data.as_slice());
    out.push((crc_val & 0xFF) as u8);
    out.push(((crc_val >> 8) & 0xFF) as u8);
    out.push(0);
    out.push(0);
    out.push(rlen as u8);
    out.push((now & 0xFF) as u8);
    out.push(((now >> 8) & 0xFF) as u8);
    out.push(((now >> 16) & 0xFF) as u8);
    out.push(((now >> 24) & 0xFF) as u8);
    out.extend_from_slice(client_id);
    let conn = conn_id & 0xFF_FFFF;
    out.push((conn & 0xFF) as u8);
    out.push(((conn >> 8) & 0xFF) as u8);
    out.push(((conn >> 16) & 0xFF) as u8);
    out.push(((conn >> 24) & 0xFF) as u8);
    out.extend_from_slice(data);
    let ghost body = out@;
    assert(body =~= hdr + le_bytes_u32(spec_crc32(hdr + v4_salt() + server.key@)).take(2) + seq![0u8, 0u8, 1u8]
        + le_bytes_u32(now) + client_id@ + le_bytes_u32(conn_id & 0xFF_FFFF) + data@);
    let olen = out.len();
    let hmac = ss_sha1_hmac_full(out.as_slice(), olen, server.recv_iv.as_slice(), server.recv_iv.len(),
        server.key.as_slice(), server.key.len());
    assert(out@.take(olen as int) =~= body);
    assert(server.key@.take(server.key@.len() as int) =~= server.key@);
    assert(server.recv_iv@.take(server.recv_iv@.len() as int) =~= server.recv_iv@);
    out.extend_from_slice(&hmac[0..OBFS_HMAC_SHA1_LEN]);
    assert(hmac@.subrange(0, 10) =~= hmac10(server.key@, body + server.recv_iv@));
    assert(out@ =~= v4_auth_packet(data@, server.key@, server.recv_iv@, now, client_id@, conn_id));
    out
}

/// Packs the first packet of a connection with the current time and fresh random ids.
fn auth_sha1_v4_pack_auth_data(data: &[u8], server: &ServerInfo) -> (r: Vec<u8>)
    requires
        data@.len() + 29 <= usize::MAX,
    ensures
        exists|now: u32, client_id: Seq<u8>, conn_id: u32|
            client_id.len() == 4 && r@ == v4_auth_packet(data@, server.key@, server.recv_iv@, now, client_id, conn_id),
{
    let now = unix_time_secs();
    let rnd = rand_bytes(4);
    let conn_id = random_u32();
    auth_sha1_v4_pack_auth_data_with(data, server, now, rnd.as_slice(), conn_id)
}

/// `data` cut into pieces of at most 2000 bytes, packed, appended to `out`.
fn pack_chunks(out: &mut Vec<u8>, data: &[u8], start: usize, unit: usize)
    requires
        start <= data@.len(),
        unit == v4_unit(),
    ensures
        final(out)@ == old(out)@ + v4_chunks(data@.skip(start as int), v4_unit()),
{
    let n = data.len();
    let mut s = start;
    while n - s > unit
        invariant
            n == data@.len(),
            s <= n,
            unit == v4_unit(),
            out@ + v4_chunks(data@.skip(s as int), v4_unit()) == old(out)@ + v4_chunks(data@.skip(start as int), v4_unit()),
        decreases n - s,
    {
        let ghost o = out@;
        let pkt = auth_sha1_v4_pack_data(&data[s..s + unit]);
        out.extend_from_slice(pkt.as_slice());
        assert(data@.subrange(s as int, s + unit) =~= data@.skip(s as int).take(unit as int));
        assert(data@.skip(s as int).skip(unit as int) =~= data@.skip(s + unit));
        assert(o + v4_chunks(data@.skip(s as int), v4_unit()) =~= out@ + v4_chunks(data@.skip(s + unit), v4_unit()));
        s = s + unit;
    }
    if s < n {
        let ghost o = out@;
        let pkt = auth_sha1_v4_pack_data(&data[s..n]);
        out.extend_from_slice(pkt.as_slice());
        assert(data@.subrange(s as int, n as int) =~= data@.skip(s as int).take((n - s) as int));
        assert(data@.skip(s as int).skip((n - s) as int) =~= Seq::<u8>::empty());
        assert(v4_chunks(Seq::<u8>::empty(), v4_unit()) =~= Seq::<u8>::empty());
        assert(o + v4_chunks(data@.skip(s as int), v4_unit()) =~= out@);
    } else {
        assert(data@.skip(s as int) =~= Seq::<u8>::empty());
        assert(out@ + Seq::<u8>::empty() =~= out@);
    }
}

// ============================================================
//  AuthSHA1v4 Protocol
// ============================================================

/// The `auth_sha1_v4` protocol: authenticated first packet, checksummed data packets.
pub struct AuthSha1V4 {
    server_info: ServerInfo,
    has_sent_header: bool,
    has_recv_header: bool,
    recv_buffer: Vec<u8>,
    pack_unit_size: usize,
    extra_wait_size: usize,
    max_time_diff: i32,
}

impl View for AuthSha1V4 {
    type V = V4Model;

    closed spec fn view(&self) -> V4Model {
        V4Model {
            info: self.server_info,
            has_sent_header: self.has_sent_header,
            has_recv_header: self.has_recv_header,
            recv_buffer: self.recv_buffer@,
            extra_wait_size: self.extra_wait_size as nat,
        }
    }
}

impl AuthSha1V4 {
    /// The fixed settings every endpoint keeps.
    #[verifier::type_invariant]
    closed spec fn wf(&self) -> bool {
        self.pack_unit_size == 2000 && self.max_time_diff == 86400 && self.extra_wait_size < 1024
    }

    pub fn new() -> (r: Self)
        ensures
            is_default_info(r@.info),
            !r@.has_sent_header,
            !r@.has_recv_header,
            r@.recv_buffer == Seq::<u8>::empty(),
            r@.extra_wait_size < 1024,
    {
        let extra = rand_bytes(2);
        let extra_size = (((extra[0] as u16) | ((extra[1] as u16) << 8u16)) % 1024) as usize;
        AuthSha1V4 {
            server_info: ServerInfo::default(),
            has_sent_header: false,
            has_recv_header: false,
            recv_buffer: Vec::new(),
            pack_unit_size: 2000,
            extra_wait_size: extra_size,
            max_time_diff: 86400,
        }
    }

    /// The client's framing of `data` with the given clock reading and random ids.
    pub fn client_pre_encrypt_with(&mut self, data: &[u8], now: u32, client_id: &[u8], conn_id: u32) -> (r: Vec<u8>)
        requires
            client_id@.len() == 4,
        ensures
            (r@, final(self)@) == v4_client_pre(old(self)@, data@, now, client_id@, conn_id),
    {
        proof {
            use_type_invariant(&*self);
            reveal(v4_client_pre);
        }
        let mut out: Vec<u8> = Vec::new();
        let mut start: usize = 0;
        if !self.has_sent_header && data.len() > 0 {
            let head_size = get_s5_head_size(data);
            let hs = if head_size < data.len() { head_size } else { data.len() };
            let auth_pkt = auth_sha1_v4_pack_auth_data_with(&data[0..hs], &self.server_info, now, client_id, conn_id);
            assert(data@.subrange(0, hs as int) =~= data@.take(hs as int));
            out = auth_pkt;
            start = hs;
            self.has_sent_header = true;
        }
        pack_chunks(&mut out, data, start, self.pack_unit_size);
        assert(data@.skip(0) =~= data@);
        assert(Seq::<u8>::empty() + v4_chunks(data@, v4_unit()) =~= v4_chunks(data@, v4_unit()));
        out
    }

    /// The server's side of reading at clock reading `now`.
    pub fn server_post_decrypt_at(&mut self, data: &[u8], now: u32) -> (r: Result<Vec<u8>>)
        requires
            !(v4_server_post(old(self)@, data@, now) is Stuck),
        ensures
            match v4_server_post(old(self)@, data@, now) {
                V4Post::Accepted(o, m) => r matches Ok(v) && v@ == o && final(self)@ == m,
                V4Post::Rejected(m) => r matches Err(e) && e is Obfs && final(self)@ == m,
                V4Post::Stuck => false,
            },
    {
        self.server_post_decrypt_checked_at(data, now)
    }

    /// The server's side of reading at clock reading `now`, also on input the original reads
    /// out of bounds (a header shorter than its HMAC, a data offset past the header's end, a
    /// packet whose data offset lies past its end): those give an error.
    pub fn server_post_decrypt_checked_at(&mut self, data: &[u8], now: u32) -> (r: Result<Vec<u8>>)
        ensures
            match v4_server_post(old(self)@, data@, now) {
                V4Post::Accepted(o, m) => r matches Ok(v) && v@ == o && final(self)@ == m,
                V4Post::Rejected(m) => r matches Err(e) && e is Obfs && final(self)@ == m,
                V4Post::Stuck => r matches Err(e) && e is Obfs,
            },
    {
        proof {
            use_type_invariant(&*self);
            reveal(v4_server_post);
        }
        let need_wait = self.extra_wait_size;
        let mut joined = slice_to_vec(self.recv_buffer.as_slice());
        joined.extend_from_slice(data);
        self.recv_buffer = joined;
        let ghost buf = self.recv_buffer@;
        assert(buf =~= old(self)@.recv_buffer + data@);
        if !self.has_recv_header {
            if self.recv_buffer.len() < 12 && self.recv_buffer.len() < need_wait {
                return Ok(Vec::new());
            }
            if self.recv_buffer.len() < 2 {
                return Err(Error::Obfs(msg("auth_sha1_v4 short header")));
            }
            let header_len = u16_from_be(self.recv_buffer[0], self.recv_buffer[1]) as usize;
            if header_len > self.recv_buffer.len() {
                return Ok(Vec::new());
            }
            if header_len < OBFS_HMAC_SHA1_LEN {
                return Err(Error::Obfs(msg("auth_sha1_v4 short header")));
            }
            let hmac = ss_sha1_hmac_full(
                self.recv_buffer.as_slice(),
                header_len - OBFS_HMAC_SHA1_LEN,
                self.server_info.recv_iv.as_slice(),
                self.server_info.recv_iv.len(),
                self.server_info.key.as_slice(),
                self.server_info.key.len(),
            );
            assert(self.server_info.key@.take(self.server_info.key@.len() as int) =~= self.server_info.key@);
            assert(self.server_info.recv_iv@.take(self.server_info.recv_iv@.len() as int) =~= self.server_info.recv_iv@);
            assert(hmac@.subrange(0, 10) =~= hmac10(self.server_info.key@,
                self.recv_buffer@.take(header_len - 10) + self.server_info.recv_iv@));
            if !bytes_eq(&hmac[0..OBFS_HMAC_SHA1_LEN], &self.recv_buffer[header_len - OBFS_HMAC_SHA1_LEN..header_len]) {
                return Err(Error::Obfs(msg("auth_sha1_v4 hmac mismatch")));
            }
            let pos = self.recv_buffer[6] as usize;
            let data_start = if pos < 255 {
                pos + 6
            } else {
                (u16_from_be(self.recv_buffer[7], self.recv_buffer[8]) as usize) + 6
            };
            if data_start > header_len - OBFS_HMAC_SHA1_LEN {
                return Err(Error::Obfs(msg("auth_sha1_v4 bad data offset")));
            }
            let data_size = header_len - OBFS_HMAC_SHA1_LEN - data_start;
            let out0 = slice_to_vec(&self.recv_buffer[data_start..data_start + data_size]);
            if out0.len() < 12 {
                return Err(Error::Obfs(msg("auth_sha1_v4 short auth data")));
            }
            let utc_time = u32_from_le(out0[0], out0[1], out0[2], out0[3]);
            let d = (now as i32).wrapping_sub(utc_time as i32);
            let time_diff: i32 = if d < 0 {
                if d == i32::MIN { d } else { -d }
            } else {
                d
            };
            assert(time_diff == v4_time_diff(now, utc_time));
            if time_diff > self.max_time_diff {
                return Err(Error::Obfs(msg("auth_sha1_v4 wrong timestamp")));
            }
            let mut out = slice_to_vec(&out0[12..out0.len()]);
            let rest = slice_to_vec(&self.recv_buffer[header_len..self.recv_buffer.len()]);
            assert(rest@ =~= buf.skip(header_len as int));
            proof {
                lemma_server_first_never_fails(rest@);
            }
            match v4_decode_exec(rest.as_slice(), V4Mode::ServerFirst) {
                V4Read::Done(more, n) => {
                    out.extend_from_slice(more.as_slice());
                    self.recv_buffer = slice_to_vec(&rest[n..rest.len()]);
                    self.has_recv_header = true;
                    assert(self.recv_buffer@ =~= rest@.skip(n as int));
                    Ok(out)
                },
                V4Read::Failed => {
                    Ok(out)
                },
                V4Read::Stuck => {
                    Err(Error::Obfs(msg("auth_sha1_v4 bad packet")))
                },
            }
        } else {
            match v4_decode_exec(self.recv_buffer.as_slice(), V4Mode::Server) {
                V4Read::Done(out, n) => {
                    self.recv_buffer = slice_to_vec(&self.recv_buffer[n..self.recv_buffer.len()]);
                    assert(self.recv_buffer@ =~= buf.skip(n as int));
                    Ok(out)
                },
                V4Read::Failed => {
                    self.recv_buffer = Vec::new();
                    Err(Error::Obfs(msg("auth_sha1_v4 bad packet")))
                },
                V4Read::Stuck => {
                    Err(Error::Obfs(msg("auth_sha1_v4 bad packet")))
                },
            }
        }
    }

    /// The server's side of reading at the current clock reading, also on input the original
    /// reads out of bounds, which gives an error.
    pub fn server_post_decrypt_checked(&mut self, data: &[u8]) -> (r: Result<Vec<u8>>)
        ensures
            exists|now: u32|
                match #[trigger] v4_server_post(old(self)@, data@, now) {
                    V4Post::Accepted(o, m) => r matches Ok(v) && v@ == o && final(self)@ == m,
                    V4Post::Rejected(m) => r matches Err(e) && e is Obfs && final(self)@ == m,
                    V4Post::Stuck => r matches Err(e) && e is Obfs,
                },
    {
        let now = unix_time_secs();
        self.server_post_decrypt_checked_at(data, now)
    }

    /// The client's side of reading, also on input the original reads out of bounds (a
    /// packet whose data offset lies past its end), which gives an error.
    pub fn client_post_decrypt_checked(&mut self, data: &[u8]) -> (r: Result<Vec<u8>>)
        ensures
            match v4_client_post(old(self)@, data@) {
                V4Post::Accepted(o, m) => r matches Ok(v) && v@ == o && final(self)@ == m,
                V4Post::Rejected(m) => r matches Err(e) && e is Obfs && final(self)@ == m,
                V4Post::Stuck => r matches Err(e) && e is Obfs,
            },
    {
        proof {
            use_type_invariant(&*self);
        }
        let mut joined = slice_to_vec(self.recv_buffer.as_slice());
        joined.extend_from_slice(data);
        self.recv_buffer = joined;
        let ghost buf = self.recv_buffer@;
        assert(buf =~= old(self)@.recv_buffer + data@);
        match v4_decode_exec(self.recv_buffer.as_slice(), V4Mode::Client) {
            V4Read::Done(out, n) => {
                self.recv_buffer = slice_to_vec(&self.recv_buffer[n..self.recv_buffer.len()]);
                assert(self.recv_buffer@ =~= buf.skip(n as int));
                Ok(out)
            },
            V4Read::Failed => {
                self.recv_buffer = Vec::new();
                Err(Error::Obfs(msg("auth_sha1_v4 bad packet")))
            },
            V4Read::Stuck => {
                Err(Error::Obfs(msg("auth_sha1_v4 bad packet")))
            },
        }
    }
}

impl Protocol for AuthSha1V4 {
    open spec fn client_post_decrypt_pre(&self, data: Seq<u8>) -> bool {
        !(v4_client_post(self@, data) is Stuck)
    }

    open spec fn server_post_decrypt_pre(&self, data: Seq<u8>) -> bool {
        forall|now: u32| !(#[trigger] v4_server_post(self@, data, now) is Stuck)
    }

    fn name(&self) -> (r: &str)
        ensures
            r@ == "auth_sha1_v4"@,
    {
        "auth_sha1_v4"
    }

    fn client_pre_encrypt(&mut self, data: &[u8]) -> (r: Result<Vec<u8>>)
        ensures
            exists|now: u32, client_id: Seq<u8>, conn_id: u32|
                client_id.len() == 4
                && (r matches Ok(v) && (v@, final(self)@) == #[trigger] v4_client_pre(old(self)@, data@, now, client_id, conn_id)),
    {
        let now = unix_time_secs();
        let rnd = rand_bytes(4);
        let conn_id = random_u32();
        Ok(self.client_pre_encrypt_with(data, now, rnd.as_slice(), conn_id))
    }

    fn client_post_decrypt(&mut self, data: &[u8]) -> (r: Result<Vec<u8>>)
        ensures
            match v4_client_post(old(self)@, data@) {
                V4Post::Accepted(o, m) => r matches Ok(v) && v@ == o && final(self)@ == m,
                V4Post::Rejected(m) => r matches Err(e) && e is Obfs && final(self)@ == m,
                V4Post::Stuck => false,
            },
    {
        self.client_post_decrypt_checked(data)
    }

    fn server_pre_encrypt(&mut self, data: &[u8]) -> (r: Result<Vec<u8>>)
        ensures
            r matches Ok(v) && v@ == v4_chunks(data@, v4_unit()),
            final(self)@ == old(self)@,
    {
        let mut out: Vec<u8> = Vec::new();
        pack_chunks(&mut out, data, 0, 2000);
        assert(data@.skip(0) =~= data@);
        assert(Seq::<u8>::empty() + v4_chunks(data@, v4_unit()) =~= v4_chunks(data@, v4_unit()));
        Ok(out)
    }

    fn server_post_decrypt(&mut self, data: &[u8]) -> (r: Result<Vec<u8>>)
        ensures
            exists|now: u32|
                match #[trigger] v4_server_post(old(self)@, data@, now) {
                    V4Post::Accepted(o, m) => r matches Ok(v) && v@ == o && final(self)@ == m,
                    V4Post::Rejected(m) => r matches Err(e) && e is Obfs && final(self)@ == m,
                    V4Post::Stuck => false,
                },
    {
        let now = unix_time_secs();
        assert(!(v4_server_post(self@, data@, now) is Stuck));
        self.server_post_decrypt_at(data, now)
    }

    fn set_server_info(&mut self, info: ServerInfo)
        ensures
            final(self)@ == (V4Model { info: info, ..old(self)@ }),
    {
        proof {
            use_type_invariant(&*self);
        }
        self.server_info = info;
    }

    fn get_server_info(&self) -> (r: &ServerInfo)
        ensures
            *r == self@.info,
    {
        &self.server_info
    }

    fn dispose(&mut self)
        ensures
            final(self)@ == (V4Model { recv_buffer: Seq::empty(), ..old(self)@ }),
    {
        proof {
            use_type_invariant(&*self);
        }
        self.recv_buffer = Vec::new();
    }
}


// ============================================================
//  auth_sha1_v4 laws
// ============================================================

proof fn lemma_crc_low16(crc: u32)
    ensures
        le_u16(le_bytes_u32(crc)[0], le_bytes_u32(crc)[1]) == crc as u16,
{
    let b0 = (crc & 0xff) as u8;
    let b1 = ((crc >> 8) & 0xff) as u8;
    assert(((b0 as u16) | ((b1 as u16) << 8u16)) as u16 == crc as u16) by (bit_vector)
        requires
            b0 == (crc & 0xff) as u8,
            b1 == ((crc >> 8) & 0xff) as u8,
    ;
}

proof fn lemma_size_bytes(size: usize)
    requires
        size < 65536,
    ensures
        be_u16(size_bytes(size)[0], size_bytes(size)[1]) == size,
{
    let b0 = (size >> 8) as u8;
    let b1 = (size & 0xff) as u8;
    assert((((b0 as u16) << 8) | (b1 as u16)) as u16 == size as u16) by (bit_vector)
        requires
            b0 == (size >> 8) as u8,
            b1 == (size & 0xff) as u8,
            size < 65536,
    ;
}

/// Reading a data packet of 1 to 8000 bytes followed by `rest` gives the packet's data
/// followed by whatever `rest` gives.
pub proof fn lemma_v4_packet_decode(c: Seq<u8>, rest: Seq<u8>, mode: V4Mode)
    requires
        1 <= c.len() <= 8000,
    ensures
        v4_decode(v4_data_packet(c) + rest, mode) == v4_prepend(c, v4_decode(rest, mode)),
{
    reveal(v4_data_packet);
    let size = (c.len() + 9) as usize;
    let hdr = size_bytes(size);
    let body = hdr + le_bytes_u32(spec_crc32(hdr)).take(2) + seq![1u8] + c;
    let p = v4_data_packet(c);
    let s = p + rest;
    assert(p =~= body + le_bytes_u32(spec_adler32(body)));
    assert(s.take(2) =~= hdr);
    lemma_crc_low16(spec_crc32(hdr));
    lemma_size_bytes(size);
    let length = be_u16(s[0], s[1]) as int;
    assert(length == size);
    assert(s.take(length) =~= p);
    assert(p.take(length - 4) =~= body);
    lemma_le_u32_roundtrip(spec_adler32(body));
    assert(spec_checkadler32(s.take(length), length));
    assert(s[4] == 1u8);
    assert(v4_data_start(s) == 5);
    assert(s.subrange(5, length - 4) =~= c);
    assert(s.skip(length) =~= rest);
}

/// Reading packed chunks of `data` followed by `rest` gives `data` followed by whatever
/// `rest` gives.
pub proof fn lemma_v4_chunks_decode(data: Seq<u8>, rest: Seq<u8>, mode: V4Mode)
    ensures
        v4_decode(v4_chunks(data, v4_unit()) + rest, mode) == v4_prepend(data, v4_decode(rest, mode)),
    decreases data.len(),
{
    if data.len() == 0 {
        assert(v4_chunks(data, v4_unit()) + rest =~= rest);
        lemma_prepend_empty(v4_decode(rest, mode));
        assert(data =~= Seq::<u8>::empty());
    } else {
        let n: int = if data.len() < v4_unit() { data.len() as int } else { v4_unit() as int };
        let c = data.take(n);
        let tail = data.skip(n);
        assert(v4_chunks(data, v4_unit()) + rest =~= v4_data_packet(c) + (v4_chunks(tail, v4_unit()) + rest));
        lemma_v4_packet_decode(c, v4_chunks(tail, v4_unit()) + rest, mode);
        lemma_v4_chunks_decode(tail, rest, mode);
        lemma_prepend_assoc(c, tail, v4_decode(rest, mode));
        assert(c + tail =~= data);
    }
}

/// What the server sends, the client reads back unchanged (client with an empty buffer).
pub proof fn lemma_v4_server_to_client(m: V4Model, data: Seq<u8>)
    requires
        m.recv_buffer == Seq::<u8>::empty(),
    ensures
        v4_client_post(m, v4_chunks(data, v4_unit())) == V4Post::Accepted(data, m),
{
    lemma_v4_chunks_decode(data, Seq::empty(), V4Mode::Client);
    assert(v4_chunks(data, v4_unit()) + Seq::<u8>::empty() =~= v4_chunks(data, v4_unit()));
    assert(m.recv_buffer + v4_chunks(data, v4_unit()) =~= v4_chunks(data, v4_unit()));
    assert(data + Seq::<u8>::empty() =~= data);
}

/// After the auth packet, what the client sends the server reads back unchanged
/// (server with an empty buffer).
pub proof fn lemma_v4_client_to_server_data(m: V4Model, data: Seq<u8>, now: u32)
    requires
        m.has_recv_header,
        m.recv_buffer == Seq::<u8>::empty(),
    ensures
        v4_server_post(m, v4_chunks(data, v4_unit()), now) == V4Post::Accepted(data, m),
{
    reveal(v4_server_post);
    lemma_v4_chunks_decode(data, Seq::empty(), V4Mode::Server);
    assert(v4_chunks(data, v4_unit()) + Seq::<u8>::empty() =~= v4_chunks(data, v4_unit()));
    assert(m.recv_buffer + v4_chunks(data, v4_unit()) =~= v4_chunks(data, v4_unit()));
    assert(data + Seq::<u8>::empty() =~= data);
}

/// The pieces of an auth packet that the server reads.
proof fn lemma_v4_auth_packet_parts(head: Seq<u8>, key: Seq<u8>, iv: Seq<u8>, now: u32, client_id: Seq<u8>, conn_id: u32, rest: Seq<u8>)
    requires
        head.len() <= 259,
        client_id.len() == 4,
    ensures
        ({
            let buf = v4_auth_packet(head, key, iv, now, client_id, conn_id) + rest;
            let hl = be_u16(buf[0], buf[1]) as int;
            &&& hl == head.len() + 29
            &&& buf.len() >= hl
            &&& hmac10(key, buf.take(hl - 10) + iv) == buf.subrange(hl - 10, hl)
            &&& buf[6] == 1u8
            &&& buf.subrange(7, hl - 10) == le_bytes_u32(now) + client_id + le_bytes_u32(conn_id & 0xFF_FFFF) + head
            &&& buf.skip(hl) == rest
        }),
{
    let size = (head.len() + 29) as usize;
    let hdr = size_bytes(size);
    let crc2 = le_bytes_u32(spec_crc32(hdr + v4_salt() + key)).take(2);
    let body = hdr + crc2 + seq![0u8, 0u8, 1u8] + le_bytes_u32(now) + client_id
        + le_bytes_u32(conn_id & 0xFF_FFFF) + head;
    let auth = v4_auth_packet(head, key, iv, now, client_id, conn_id);
    assert(auth == body + hmac10(key, body + iv)) by {
        reveal(v4_auth_packet);
    }
    let buf = auth + rest;
    lemma_size_bytes(size);
    assert(buf[0] == hdr[0] && buf[1] == hdr[1]);
    let hl = size as int;
    assert(body.len() == hl - 10);
    assert(buf.take(hl - 10) =~= body);
    assert(buf.subrange(hl - 10, hl) =~= hmac10(key, body + iv));
    assert(buf.subrange(7, hl - 10) =~= le_bytes_u32(now) + client_id + le_bytes_u32(conn_id & 0xFF_FFFF) + head);
    assert(buf.skip(hl) =~= rest);
}

/// A fresh server accepts a buffer that starts with a well-formed auth packet.
#[verifier::rlimit(40)]
proof fn lemma_v4_server_reads_auth(m: V4Model, buf: Seq<u8>, now: u32, sent: u32, client_id: Seq<u8>,
    conn_id: u32, head: Seq<u8>, more: Seq<u8>)
    requires
        !m.has_recv_header,
        m.recv_buffer == Seq::<u8>::empty(),
        client_id.len() == 4,
        buf.len() >= be_u16(buf[0], buf[1]) as int,
        be_u16(buf[0], buf[1]) as int == head.len() + 29,
        hmac10(m.info.key@, buf.take(be_u16(buf[0], buf[1]) - 10) + m.info.recv_iv@)
            == buf.subrange(be_u16(buf[0], buf[1]) - 10, be_u16(buf[0], buf[1]) as int),
        buf[6] == 1u8,
        buf.subrange(7, be_u16(buf[0], buf[1]) - 10) == le_bytes_u32(sent) + client_id + le_bytes_u32(conn_id & 0xFF_FFFF) + head,
        v4_time_diff(now, sent) <= v4_max_time_diff(),
        v4_decode(buf.skip(be_u16(buf[0], buf[1]) as int), V4Mode::ServerFirst) == V4Decoded::Done(more, Seq::empty()),
    ensures
        v4_server_post(m, buf, now) == V4Post::Accepted(head + more,
            V4Model { has_recv_header: true, recv_buffer: Seq::empty(), ..m }),
{
    reveal(v4_server_post);
    let hl = be_u16(buf[0], buf[1]) as int;
    assert(m.recv_buffer + buf =~= buf);
    let a = buf.subrange(7, hl - 10);
    lemma_le_u32_roundtrip(sent);
    assert(le_u32(a[0], a[1], a[2], a[3]) == sent);
    assert(a.skip(12) =~= head);
}

/// Law of `auth_sha1_v4`: the first output of a client, read by a fresh server with the same
/// key and IV whose clock is within a day of the client's, gives back all the data the client
/// was handed.
pub proof fn lemma_v4_handshake(client: V4Model, server: V4Model, data: Seq<u8>, now_client: u32,
    client_id: Seq<u8>, conn_id: u32, now_server: u32)
    requires
        !client.has_sent_header,
        data.len() > 0,
        client_id.len() == 4,
        !server.has_recv_header,
        server.recv_buffer == Seq::<u8>::empty(),
        server.info.key@ == client.info.key@,
        server.info.recv_iv@ == client.info.recv_iv@,
        v4_time_diff(now_server, now_client) <= v4_max_time_diff(),
    ensures
        v4_server_post(server, v4_client_pre(client, data, now_client, client_id, conn_id).0, now_server)
            == V4Post::Accepted(data, V4Model { has_recv_header: true, ..server }),
{
    let hs: int = if spec_s5_head_size(data) < data.len() { spec_s5_head_size(data) } else { data.len() as int };
    assert(0 <= hs <= 259);
    let head = data.take(hs);
    let key = client.info.key@;
    let iv = client.info.recv_iv@;
    let auth = v4_auth_packet(head, key, iv, now_client, client_id, conn_id);
    let chunks = v4_chunks(data.skip(hs), v4_unit());
    let out = auth + chunks;
    assert(v4_client_pre(client, data, now_client, client_id, conn_id).0 == out) by {
        reveal(v4_client_pre);
    }
    lemma_v4_auth_packet_parts(head, key, iv, now_client, client_id, conn_id, chunks);
    lemma_v4_chunks_decode(data.skip(hs), Seq::empty(), V4Mode::ServerFirst);
    assert(chunks + Seq::<u8>::empty() =~= chunks);
    assert(data.skip(hs) + Seq::<u8>::empty() =~= data.skip(hs));
    lemma_v4_server_reads_auth(server, out, now_server, now_client, client_id, conn_id, head, data.skip(hs));
    assert(head + data.skip(hs) =~= data);
}
/// The `origin` plugin: every stage hands its input through unchanged.
pub struct Origin {
    server_info: ServerInfo,
}

impl Origin {
    /// The settings this plugin was given.
    pub closed spec fn info(&self) -> ServerInfo {
        self.server_info
    }

    pub fn new() -> (r: Self)
        ensures
            is_default_info(r.info()),
    {
        Origin { server_info: ServerInfo::default() }
    }
}

impl Protocol for Origin {
    open spec fn client_post_decrypt_pre(&self, data: Seq<u8>) -> bool {
        true
    }

    open spec fn server_post_decrypt_pre(&self, data: Seq<u8>) -> bool {
        true
    }

    fn name(&self) -> (r: &str)
        ensures
            r@ == "origin"@,
    {
        "origin"
    }

    fn client_pre_encrypt(&mut self, data: &[u8]) -> (r: Result<Vec<u8>>)
        ensures
            passes_through(data@, r),
            final(self).info() == old(self).info(),
    {
        Ok(slice_to_vec(data))
    }

    fn client_post_decrypt(&mut self, data: &[u8]) -> (r: Result<Vec<u8>>)
        ensures
            passes_through(data@, r),
            final(self).info() == old(self).info(),
    {
        Ok(slice_to_vec(data))
    }

    fn server_pre_encrypt(&mut self, data: &[u8]) -> (r: Result<Vec<u8>>)
        ensures
            passes_through(data@, r),
            final(self).info() == old(self).info(),
    {
        Ok(slice_to_vec(data))
    }

    fn server_post_decrypt(&mut self, data: &[u8]) -> (r: Result<Vec<u8>>)
        ensures
            passes_through(data@, r),
            final(self).info() == old(self).info(),
    {
        Ok(slice_to_vec(data))
    }

    fn set_server_info(&mut self, info: ServerInfo)
        ensures
            final(self).info() == info,
    {
        self.server_info = info;
    }

    fn get_server_info(&self) -> (r: &ServerInfo)
        ensures
            *r == self.info(),
    {
        &self.server_info
    }

    fn dispose(&mut self)
        ensures
            final(self).info() == old(self).info(),
    {
    }
}

/// The `auth_aes128_md5` plugin: every stage hands its input through unchanged.
pub struct AuthAes128Md5 {
    server_info: ServerInfo,
}

impl AuthAes128Md5 {
    /// The settings this plugin was given.
    pub closed spec fn info(&self) -> ServerInfo {
        self.server_info
    }

    pub fn new() -> (r: Self)
        ensures
            is_default_info(r.info()),
    {
        AuthAes128Md5 { server_info: ServerInfo::default() }
    }
}

impl Protocol for AuthAes128Md5 {
    open spec fn client_post_decrypt_pre(&self, data: Seq<u8>) -> bool {
        true
    }

    open spec fn server_post_decrypt_pre(&self, data: Seq<u8>) -> bool {
        true
    }

    fn name(&self) -> (r: &str)
        ensures
            r@ == "auth_aes128_md5"@,
    {
        "auth_aes128_md5"
    }

    fn client_pre_encrypt(&mut self, data: &[u8]) -> (r: Result<Vec<u8>>)
        ensures
            passes_through(data@, r),
            final(self).info() == old(self).info(),
    {
        Ok(slice_to_vec(data))
    }

    fn client_post_decrypt(&mut self, data: &[u8]) -> (r: Result<Vec<u8>>)
        ensures
            passes_through(data@, r),
            final(self).info() == old(self).info(),
    {
        Ok(slice_to_vec(data))
    }

    fn server_pre_encrypt(&mut self, data: &[u8]) -> (r: Result<Vec<u8>>)
        ensures
            passes_through(data@, r),
            final(self).info() == old(self).info(),
    {
        Ok(slice_to_vec(data))
    }

    fn server_post_decrypt(&mut self, data: &[u8]) -> (r: Result<Vec<u8>>)
        ensures
            passes_through(data@, r),
            final(self).info() == old(self).info(),
    {
        Ok(slice_to_vec(data))
    }

    fn set_server_info(&mut self, info: ServerInfo)
        ensures
            final(self).info() == info,
    {
        self.server_info = info;
    }

    fn get_server_info(&self) -> (r: &ServerInfo)
        ensures
            *r == self.info(),
    {
        &self.server_info
    }

    fn dispose(&mut self)
        ensures
            final(self).info() == old(self).info(),
    {
    }
}

/// The `auth_aes128_sha1` plugin: every stage hands its input through unchanged.
pub struct AuthAes128Sha1 {
    server_info: ServerInfo,
}

impl AuthAes128Sha1 {
    /// The settings this plugin was given.
    pub closed spec fn info(&self) -> ServerInfo {
        self.server_info
    }

    pub fn new() -> (r: Self)
        ensures
            is_default_info(r.info()),
    {
        AuthAes128Sha1 { server_info: ServerInfo::default() }
    }
}

impl Protocol for AuthAes128Sha1 {
    open spec fn client_post_decrypt_pre(&self, data: Seq<u8>) -> bool {
        true
    }

    open spec fn server_post_decrypt_pre(&self, data: Seq<u8>) -> bool {
        true
    }

    fn name(&self) -> (r: &str)
        ensures
            r@ == "auth_aes128_sha1"@,
    {
        "auth_aes128_sha1"
    }

    fn client_pre_encrypt(&mut self, data: &[u8]) -> (r: Result<Vec<u8>>)
        ensures
            passes_through(data@, r),
            final(self).info() == old(self).info(),
    {
        Ok(slice_to_vec(data))
    }

    fn client_post_decrypt(&mut self, data: &[u8]) -> (r: Result<Vec<u8>>)
        ensures
            passes_through(data@, r),
            final(self).info() == old(self).info(),
    {
        Ok(slice_to_vec(data))
    }

    fn server_pre_encrypt(&mut self, data: &[u8]) -> (r: Result<Vec<u8>>)
        ensures
            passes_through(data@, r),
            final(self).info() == old(self).info(),
    {
        Ok(slice_to_vec(data))
    }

    fn server_post_decrypt(&mut self, data: &[u8]) -> (r: Result<Vec<u8>>)
        ensures
            passes_through(data@, r),
            final(self).info() == old(self).info(),
    {
        Ok(slice_to_vec(data))
    }

    fn set_server_info(&mut self, info: ServerInfo)
        ensures
            final(self).info() == info,
    {
        self.server_info = info;
    }

    fn get_server_info(&self) -> (r: &ServerInfo)
        ensures
            *r == self.info(),
    {
        &self.server_info
    }

    fn dispose(&mut self)
        ensures
            final(self).info() == old(self).info(),
    {
    }
}

/// The `verify_simple` plugin: every stage hands its input through unchanged.
pub struct VerifySimple {
    server_info: ServerInfo,
}

impl VerifySimple {
    /// The settings this plugin was given.
    pub closed spec fn info(&self) -> ServerInfo {
        self.server_info
    }

    pub fn new() -> (r: Self)
        ensures
            is_default_info(r.info()),
    {
        VerifySimple { server_info: ServerInfo::default() }
    }
}

impl Protocol for VerifySimple {
    open spec fn client_post_decrypt_pre(&self, data: Seq<u8>) -> bool {
        true
    }

    open spec fn server_post_decrypt_pre(&self, data: Seq<u8>) -> bool {
        true
    }

    fn name(&self) -> (r: &str)
        ensures
            r@ == "verify_simple"@,
    {
        "verify_simple"
    }

    fn client_pre_encrypt(&mut self, data: &[u8]) -> (r: Result<Vec<u8>>)
        ensures
            passes_through(data@, r),
            final(self).info() == old(self).info(),
    {
        Ok(slice_to_vec(data))
    }

    fn client_post_decrypt(&mut self, data: &[u8]) -> (r: Result<Vec<u8>>)
        ensures
            passes_through(data@, r),
            final(self).info() == old(self).info(),
    {
        Ok(slice_to_vec(data))
    }

    fn server_pre_encrypt(&mut self, data: &[u8]) -> (r: Result<Vec<u8>>)
        ensures
            passes_through(data@, r),
            final(self).info() == old(self).info(),
    {
        Ok(slice_to_vec(data))
    }

    fn server_post_decrypt(&mut self, data: &[u8]) -> (r: Result<Vec<u8>>)
        ensures
            passes_through(data@, r),
            final(self).info() == old(self).info(),
    {
        Ok(slice_to_vec(data))
    }

    fn set_server_info(&mut self, info: ServerInfo)
        ensures
            final(self).info() == info,
    {
        self.server_info = info;
    }

    fn get_server_info(&self) -> (r: &ServerInfo)
        ensures
            *r == self.info(),
    {
        &self.server_info
    }

    fn dispose(&mut self)
        ensures
            final(self).info() == old(self).info(),
    {
    }
}

/// The `auth_simple` plugin: every stage hands its input through unchanged.
pub struct AuthSimple {
    server_info: ServerInfo,
}

impl AuthSimple {
    /// The settings this plugin was given.
    pub closed spec fn info(&self) -> ServerInfo {
        self.server_info
    }

    pub fn new() -> (r: Self)
        ensures
            is_default_info(r.info()),
    {
        AuthSimple { server_info: ServerInfo::default() }
    }
}

impl Protocol for AuthSimple {
    open spec fn client_post_decrypt_pre(&self, data: Seq<u8>) -> bool {
        true
    }

    open spec fn server_post_decrypt_pre(&self, data: Seq<u8>) -> bool {
        true
    }

    fn name(&self) -> (r: &str)
        ensures
            r@ == "auth_simple"@,
    {
        "auth_simple"
    }

    fn client_pre_encrypt(&mut self, data: &[u8]) -> (r: Result<Vec<u8>>)
        ensures
            passes_through(data@, r),
            final(self).info() == old(self).info(),
    {
        Ok(slice_to_vec(data))
    }

    fn client_post_decrypt(&mut self, data: &[u8]) -> (r: Result<Vec<u8>>)
        ensures
            passes_through(data@, r),
            final(self).info() == old(self).info(),
    {
        Ok(slice_to_vec(data))
    }

    fn server_pre_encrypt(&mut self, data: &[u8]) -> (r: Result<Vec<u8>>)
        ensures
            passes_through(data@, r),
            final(self).info() == old(self).info(),
    {
        Ok(slice_to_vec(data))
    }

    fn server_post_decrypt(&mut self, data: &[u8]) -> (r: Result<Vec<u8>>)
        ensures
            passes_through(data@, r),
            final(self).info() == old(self).info(),
    {
        Ok(slice_to_vec(data))
    }

    fn set_server_info(&mut self, info: ServerInfo)
        ensures
            final(self).info() == info,
    {
        self.server_info = info;
    }

    fn get_server_info(&self) -> (r: &ServerInfo)
        ensures
            *r == self.info(),
    {
        &self.server_info
    }

    fn dispose(&mut self)
        ensures
            final(self).info() == old(self).info(),
    {
    }
}

/// The `auth_sha1` plugin: every stage hands its input through unchanged.
pub struct AuthSha1 {
    server_info: ServerInfo,
}

impl AuthSha1 {
    /// The settings this plugin was given.
    pub closed spec fn info(&self) -> ServerInfo {
        self.server_info
    }

    pub fn new() -> (r: Self)
        ensures
            is_default_info(r.info()),
    {
        AuthSha1 { server_info: ServerInfo::default() }
    }
}

impl Protocol for AuthSha1 {
    open spec fn client_post_decrypt_pre(&self, data: Seq<u8>) -> bool {
        true
    }

    open spec fn server_post_decrypt_pre(&self, data: Seq<u8>) -> bool {
        true
    }

    fn name(&self) -> (r: &str)
        ensures
            r@ == "auth_sha1"@,
    {
        "auth_sha1"
    }

    fn client_pre_encrypt(&mut self, data: &[u8]) -> (r: Result<Vec<u8>>)
        ensures
            passes_through(data@, r),
            final(self).info() == old(self).info(),
    {
        Ok(slice_to_vec(data))
    }

    fn client_post_decrypt(&mut self, data: &[u8]) -> (r: Result<Vec<u8>>)
        ensures
            passes_through(data@, r),
            final(self).info() == old(self).info(),
    {
        Ok(slice_to_vec(data))
    }

    fn server_pre_encrypt(&mut self, data: &[u8]) -> (r: Result<Vec<u8>>)
        ensures
            passes_through(data@, r),
            final(self).info() == old(self).info(),
    {
        Ok(slice_to_vec(data))
    }

    fn server_post_decrypt(&mut self, data: &[u8]) -> (r: Result<Vec<u8>>)
        ensures
            passes_through(data@, r),
            final(self).info() == old(self).info(),
    {
        Ok(slice_to_vec(data))
    }

    fn set_server_info(&mut self, info: ServerInfo)
        ensures
            final(self).info() == info,
    {
        self.server_info = info;
    }

    fn get_server_info(&self) -> (r: &ServerInfo)
        ensures
            *r == self.info(),
    {
        &self.server_info
    }

    fn dispose(&mut self)
        ensures
            final(self).info() == old(self).info(),
    {
    }
}

/// The `auth_sha1_v2` plugin: every stage hands its input through unchanged.
pub struct AuthSha1V2 {
    server_info: ServerInfo,
}

impl AuthSha1V2 {
    /// The settings this plugin was given.
    pub closed spec fn info(&self) -> ServerInfo {
        self.server_info
    }

    pub fn new() -> (r: Self)
        ensures
            is_default_info(r.info()),
    {
        AuthSha1V2 { server_info: ServerInfo::default() }
    }
}

impl Protocol for AuthSha1V2 {
    open spec fn client_post_decrypt_pre(&self, data: Seq<u8>) -> bool {
        true
    }

    open spec fn server_post_decrypt_pre(&self, data: Seq<u8>) -> bool {
        true
    }

    fn name(&self) -> (r: &str)
        ensures
            r@ == "auth_sha1_v2"@,
    {
        "auth_sha1_v2"
    }

    fn client_pre_encrypt(&mut self, data: &[u8]) -> (r: Result<Vec<u8>>)
        ensures
            passes_through(data@, r),
            final(self).info() == old(self).info(),
    {
        Ok(slice_to_vec(data))
    }

    fn client_post_decrypt(&mut self, data: &[u8]) -> (r: Result<Vec<u8>>)
        ensures
            passes_through(data@, r),
            final(self).info() == old(self).info(),
    {
        Ok(slice_to_vec(data))
    }

    fn server_pre_encrypt(&mut self, data: &[u8]) -> (r: Result<Vec<u8>>)
        ensures
            passes_through(data@, r),
            final(self).info() == old(self).info(),
    {
        Ok(slice_to_vec(data))
    }

    fn server_post_decrypt(&mut self, data: &[u8]) -> (r: Result<Vec<u8>>)
        ensures
            passes_through(data@, r),
            final(self).info() == old(self).info(),
    {
        Ok(slice_to_vec(data))
    }

    fn set_server_info(&mut self, info: ServerInfo)
        ensures
            final(self).info() == info,
    {
        self.server_info = info;
    }

    fn get_server_info(&self) -> (r: &ServerInfo)
        ensures
            *r == self.info(),
    {
        &self.server_info
    }

    fn dispose(&mut self)
        ensures
            final(self).info() == old(self).info(),
    {
    }
}


/// Law of the auth packet's tag: the first packet ends with the first ten bytes of the
/// HMAC-SHA1, under the key, of everything before those ten bytes followed by the IV.
pub proof fn lemma_v4_auth_packet_tag(data: Seq<u8>, key: Seq<u8>, iv: Seq<u8>, now: u32, client_id: Seq<u8>, conn_id: u32)
    ensures
        ({
            let p = v4_auth_packet(data, key, iv, now, client_id, conn_id);
            &&& p.len() >= 10
            &&& forall|i: int| 0 <= i < 10 ==>
                #[trigger] p[p.len() - 10 + i] == spec_hmac_sha1(key, p.take(p.len() - 10) + iv)[i]
        }),
{
    reveal(v4_auth_packet);
    let p = v4_auth_packet(data, key, iv, now, client_id, conn_id);
    let hdr = size_bytes((data.len() + 29) as usize);
    let crc2 = le_bytes_u32(spec_crc32(hdr + v4_salt() + key)).take(2);
    let body = hdr + crc2 + seq![0u8, 0u8, 1u8] + le_bytes_u32(now) + client_id + le_bytes_u32(conn_id & 0xFF_FFFF) + data;
    assert(p == body + hmac10(key, body + iv));
    assert(p.take(p.len() - 10) =~= body);
    assert forall|i: int| 0 <= i < 10 implies
        #[trigger] p[p.len() - 10 + i] == spec_hmac_sha1(key, p.take(p.len() - 10) + iv)[i] by {
        assert(p[p.len() - 10 + i] == hmac10(key, body + iv)[i]);
    }
}

/// Law of the server's tag check: before the header has been read, a complete first packet
/// whose last ten bytes differ from the first ten bytes of the HMAC-SHA1, under the key, of
/// the bytes before them followed by the IV is refused, and the bytes are kept.
pub proof fn lemma_v4_server_refuses_bad_tag(m: V4Model, data: Seq<u8>, now: u32, i: int)
    requires
        !m.has_recv_header,
        (m.recv_buffer + data).len() >= 2,
        (m.recv_buffer + data).len() >= 12 || (m.recv_buffer + data).len() >= m.extra_wait_size,
        10 <= be_u16((m.recv_buffer + data)[0], (m.recv_buffer + data)[1]) <= (m.recv_buffer + data).len(),
        0 <= i < 10,
        ({
            let buf = m.recv_buffer + data;
            let hl = be_u16(buf[0], buf[1]) as int;
            buf[hl - 10 + i] != spec_hmac_sha1(m.info.key@, buf.take(hl - 10) + m.info.recv_iv@)[i]
        }),
    ensures
        v4_server_post(m, data, now) == V4Post::Rejected(V4Model { recv_buffer: m.recv_buffer + data, ..m }),
{
    reveal(v4_server_post);
    let buf = m.recv_buffer + data;
    let hl = be_u16(buf[0], buf[1]) as int;
    let h = hmac10(m.info.key@, buf.take(hl - 10) + m.info.recv_iv@);
    assert(h[i] != buf.subrange(hl - 10, hl)[i]);
    assert(h != buf.subrange(hl - 10, hl));
}


/// Law of the auth packet's layout: two big-endian bytes of total size (the data and 29
/// bytes); the two low bytes, little-endian, of the CRC-32 of those size bytes, the bytes of
/// `auth_sha1_v4` and the key; the padding `0, 0, 1`; the clock reading in four little-endian
/// bytes; the four bytes of the client id; the connection id's low 24 bits in four
/// little-endian bytes; the data; then the ten-byte tag.
pub proof fn lemma_v4_auth_packet_layout(data: Seq<u8>, key: Seq<u8>, iv: Seq<u8>, now: u32, client_id: Seq<u8>, conn_id: u32)
    requires
        client_id.len() == 4,
        data.len() + 29 < 65536,
    ensures
        ({
            let p = v4_auth_packet(data, key, iv, now, client_id, conn_id);
            let crc = spec_crc32(p.take(2) + seq![0x61u8, 0x75, 0x74, 0x68, 0x5f, 0x73, 0x68, 0x61, 0x31, 0x5f, 0x76, 0x34] + key);
            &&& p.len() == data.len() + 29
            &&& 256 * (p[0] as int) + (p[1] as int) == p.len()
            &&& (p[2] as int) + 256 * (p[3] as int) == (crc as int) % 65536
            &&& p[4] == 0 && p[5] == 0 && p[6] == 1
            &&& (p[7] as int) + 256 * (p[8] as int) + 65536 * (p[9] as int) + 16777216 * (p[10] as int) == now as int
            &&& p.subrange(11, 15) == client_id
            &&& (p[15] as int) + 256 * (p[16] as int) + 65536 * (p[17] as int) == (conn_id as int) % 16777216
            &&& p[18] == 0
            &&& p.subrange(19, 19 + data.len() as int) == data
        }),
{
    reveal(v4_auth_packet);
    let p = v4_auth_packet(data, key, iv, now, client_id, conn_id);
    let size = (data.len() + 29) as usize;
    let hdr = size_bytes(size);
    let c = spec_crc32(hdr + v4_salt() + key);
    let crc2 = le_bytes_u32(c).take(2);
    let cid = conn_id & 0xFF_FFFF;
    let body = hdr + crc2 + seq![0u8, 0u8, 1u8] + le_bytes_u32(now) + client_id + le_bytes_u32(cid) + data;
    assert(p == body + hmac10(key, body + iv));
    assert(p.take(2) =~= hdr);
    assert(((size >> 8) as u8) as int * 256 + ((size & 0xff) as u8) as int == size as int) by (bit_vector)
        requires size < 65536usize;
    crate::bytes::lemma_le_bytes_u32_value(c);
    crate::bytes::lemma_le_bytes_u32_value(now);
    crate::bytes::lemma_le_bytes_u32_value(cid);
    assert(cid as int == (conn_id as int) % 16777216 && cid < 16777216) by (bit_vector)
        requires cid == conn_id & 0xFF_FFFF;
    assert(p[2] == le_bytes_u32(c)[0] && p[3] == le_bytes_u32(c)[1]);
    assert(p[7] == le_bytes_u32(now)[0] && p[8] == le_bytes_u32(now)[1] && p[9] == le_bytes_u32(now)[2]
        && p[10] == le_bytes_u32(now)[3]);
    assert(p[15] == le_bytes_u32(cid)[0] && p[16] == le_bytes_u32(cid)[1] && p[17] == le_bytes_u32(cid)[2]
        && p[18] == le_bytes_u32(cid)[3]);
    assert(p.subrange(11, 15) =~= client_id);
    assert(p.subrange(19, 19 + data.len() as int) =~= data);
}


/// Law of the data packet's layout: two big-endian bytes of total size (the data and 9
/// bytes), the two low bytes, little-endian, of the CRC-32 of those size bytes, the padding
/// length 1, the data, then the Adler-32 of everything before it in four little-endian bytes.
pub proof fn lemma_v4_data_packet_layout(data: Seq<u8>)
    requires
        data.len() + 9 < 65536,
    ensures
        ({
            let p = v4_data_packet(data);
            let n = data.len() as int;
            let crc = spec_crc32(p.take(2));
            let adler = spec_adler32(p.take(n + 5));
            &&& p.len() == n + 9
            &&& 256 * (p[0] as int) + (p[1] as int) == p.len()
            &&& (p[2] as int) + 256 * (p[3] as int) == (crc as int) % 65536
            &&& p[4] == 1
            &&& p.subrange(5, n + 5) == data
            &&& (p[n + 5] as int) + 256 * (p[n + 6] as int) + 65536 * (p[n + 7] as int) + 16777216 * (p[n + 8] as int)
                == adler as int
        }),
{
    reveal(v4_data_packet);
    let p = v4_data_packet(data);
    let n = data.len() as int;
    let size = (data.len() + 9) as usize;
    let hdr = size_bytes(size);
    let c = spec_crc32(hdr);
    let body = hdr + le_bytes_u32(c).take(2) + seq![1u8] + data;
    let ad = spec_adler32(body);
    assert(p == body + le_bytes_u32(ad));
    assert(p.take(2) =~= hdr);
    assert(p.take(n + 5) =~= body);
    assert(((size >> 8) as u8) as int * 256 + ((size & 0xff) as u8) as int == size as int) by (bit_vector)
        requires size < 65536usize;
    crate::bytes::lemma_le_bytes_u32_value(c);
    crate::bytes::lemma_le_bytes_u32_value(ad);
    assert(p[2] == le_bytes_u32(c)[0] && p[3] == le_bytes_u32(c)[1]);
    assert(p[n + 5] == le_bytes_u32(ad)[0] && p[n + 6] == le_bytes_u32(ad)[1] && p[n + 7] == le_bytes_u32(ad)[2]
        && p[n + 8] == le_bytes_u32(ad)[3]);
    assert(p.subrange(5, n + 5) =~= data);
}

} // verus!
