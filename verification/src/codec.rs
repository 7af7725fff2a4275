//! The wire codec: the fixed binary layouts of every protocol message.
//!
//! Every message is `[1-byte tag | action-specific payload]`; all integers
//! are big-endian and all addresses are IPv4.  The codec performs no I/O:
//! it is pure transform logic over in-memory buffers.  Decoding never
//! panics on truncated input; it reports `IncompleteMessage` and the
//! caller decides whether to keep reading.

use vstd::prelude::*;

verus! {

use crate::error::{Error, ErrorKind};
use crate::types::{ActionType, PeerId};

// --- big-endian integer encodings ---

/// The two bytes of `x` in big-endian order.
pub open spec fn spec_u16_to_be_bytes(x: u16) -> Seq<u8> {
    seq![((x >> 8) & 0xff) as u8, (x & 0xff) as u8]
}

/// The `u16` read from two bytes in big-endian order.
pub open spec fn spec_u16_from_be_bytes(s: Seq<u8>) -> u16
    recommends
        s.len() == 2,
{
    (((s[0] as u16) << 8) | (s[1] as u16)) as u16
}

/// The four bytes of `x` in big-endian order.
pub open spec fn spec_u32_to_be_bytes(x: u32) -> Seq<u8> {
    seq![
        ((x >> 24) & 0xff) as u8,
        ((x >> 16) & 0xff) as u8,
        ((x >> 8) & 0xff) as u8,
        (x & 0xff) as u8,
    ]
}

/// The `u32` read from four bytes in big-endian order.
pub open spec fn spec_u32_from_be_bytes(s: Seq<u8>) -> u32
    recommends
        s.len() == 4,
{
    ((s[0] as u32) << 24 | (s[1] as u32) << 16 | (s[2] as u32) << 8 | (s[3] as u32)) as u32
}

/// Reading back the big-endian bytes of a `u16` yields the same value.
pub proof fn lemma_u16_be_round_trip(x: u16)
    ensures
        spec_u16_from_be_bytes(spec_u16_to_be_bytes(x)) == x,
{
    assert((((((x >> 8) & 0xff) as u8) as u16) << 8 | (((x & 0xff) as u8) as u16)) == x)
        by (bit_vector);
}

/// Reading back the big-endian bytes of a `u32` yields the same value.
pub proof fn lemma_u32_be_round_trip(x: u32)
    ensures
        spec_u32_from_be_bytes(spec_u32_to_be_bytes(x)) == x,
{
    assert(((((x >> 24) & 0xff) as u8) as u32) << 24 | ((((x >> 16) & 0xff) as u8) as u32) << 16
        | ((((x >> 8) & 0xff) as u8) as u32) << 8 | (((x & 0xff) as u8) as u32) == x)
        by (bit_vector);
}

/// Appends the two big-endian bytes of `x` to `out`.
pub fn push_u16_be(out: &mut Vec<u8>, x: u16)
    ensures
        final(out)@ == old(out)@ + spec_u16_to_be_bytes(x),
{
    proof {
        assert((x >> 8) & 0xff < 256 && x & 0xff < 256) by (bit_vector);
    }
    out.push(((x >> 8) & 0xff) as u8);
    out.push((x & 0xff) as u8);
    assert(out@ =~= old(out)@ + spec_u16_to_be_bytes(x));
}

/// Appends the four big-endian bytes of `x` to `out`.
pub fn push_u32_be(out: &mut Vec<u8>, x: u32)
    ensures
        final(out)@ == old(out)@ + spec_u32_to_be_bytes(x),
{
    proof {
        assert((x >> 24) & 0xff < 256 && (x >> 16) & 0xff < 256 && (x >> 8) & 0xff < 256 && x & 0xff
            < 256) by (bit_vector);
    }
    out.push(((x >> 24) & 0xff) as u8);
    out.push(((x >> 16) & 0xff) as u8);
    out.push(((x >> 8) & 0xff) as u8);
    out.push((x & 0xff) as u8);
    assert(out@ =~= old(out)@ + spec_u32_to_be_bytes(x));
}

/// Reads a big-endian `u16` from two bytes.
pub fn u16_from_be_pair(b0: u8, b1: u8) -> (r: u16)
    ensures
        r == spec_u16_from_be_bytes(seq![b0, b1]),
{
    ((b0 as u16) << 8) | (b1 as u16)
}

/// Reads a big-endian `u32` from four bytes.
pub fn u32_from_be_quad(b0: u8, b1: u8, b2: u8, b3: u8) -> (r: u32)
    ensures
        r == spec_u32_from_be_bytes(seq![b0, b1, b2, b3]),
{
    (b0 as u32) << 24 | (b1 as u32) << 16 | (b2 as u32) << 8 | (b3 as u32)
}

// --- JOIN ---

/// The JOIN message: tag byte `0` followed by the peer id, big-endian.
pub open spec fn spec_join_message(id: PeerId) -> Seq<u8> {
    seq![0u8] + spec_u32_to_be_bytes(id)
}

/// Encodes a JOIN message for the given peer id.
pub fn encode_join(id: PeerId) -> (r: Vec<u8>)
    ensures
        r@ == spec_join_message(id),
        r@.len() == 5,
{
    let mut out: Vec<u8> = Vec::new();
    out.push(ActionType::JOIN.tag());
    push_u32_be(&mut out, id);
    assert(out@ =~= spec_join_message(id));
    out
}

/// Decodes a JOIN message back into the peer id it carries.
///
/// Truncated input is reported as `IncompleteMessage`, trailing bytes as
/// `TooMuchData`, and a leading byte other than the JOIN tag as
/// `UnknownAction`; decoding never panics.
pub fn decode_join(msg: &Vec<u8>) -> (r: Result<PeerId, Error>)
    ensures
        msg@.len() < 5 ==> (r matches Err(e) && e.kind == ErrorKind::IncompleteMessage),
        msg@.len() > 5 ==> (r matches Err(e) && e.kind == ErrorKind::TooMuchData),
        msg@.len() == 5 && msg@[0] != 0 ==> (r matches Err(e) && e.kind == ErrorKind::UnknownAction),
        msg@.len() == 5 && msg@[0] == 0 ==> r == Ok::<PeerId, Error>(
            spec_u32_from_be_bytes(msg@.subrange(1, 5)),
        ),
{
    if msg.len() < 5 {
        return Err(Error::with_kind(ErrorKind::IncompleteMessage, "join message is truncated"));
    }
    if msg.len() > 5 {
        return Err(Error::with_kind(ErrorKind::TooMuchData, "join message has trailing bytes"));
    }
    if msg[0] != 0 {
        return Err(Error::with_kind(ErrorKind::UnknownAction, "message does not carry the join tag"));
    }
    let id = u32_from_be_quad(msg[1], msg[2], msg[3], msg[4]);
    assert(seq![msg@[1], msg@[2], msg@[3], msg@[4]] =~= msg@.subrange(1, 5));
    Ok(id)
}

/// Encoding a peer id as a JOIN message and decoding it back yields the
/// same peer id, for every peer id.
pub proof fn lemma_join_round_trip(id: PeerId)
    ensures
        spec_join_message(id).len() == 5,
        spec_join_message(id)[0] == 0,
        spec_u32_from_be_bytes(spec_join_message(id).subrange(1, 5)) == id,
{
    assert(spec_join_message(id).subrange(1, 5) =~= spec_u32_to_be_bytes(id));
    lemma_u32_be_round_trip(id);
}

// --- SEARCH ---

/// The SEARCH message: tag byte `2` followed by the raw ASCII filename
/// bytes, with no terminator.
pub open spec fn spec_search_message(name: Seq<u8>) -> Seq<u8> {
    seq![2u8] + name
}

/// Encodes a SEARCH message for the given filename bytes.
pub fn encode_search(name: &[u8]) -> (r: Vec<u8>)
    ensures
        r@ == spec_search_message(name@),
{
    let mut out: Vec<u8> = Vec::new();
    out.push(ActionType::SEARCH.tag());
    append_bytes(&mut out, name);
    assert(out@ =~= spec_search_message(name@));
    out
}

// --- FETCH ---

/// The FETCH message: tag byte `3`, the raw ASCII filename bytes, and a
/// single trailing NUL terminator.
pub open spec fn spec_fetch_message(name: Seq<u8>) -> Seq<u8> {
    seq![3u8] + name + seq![0u8]
}

/// Encodes a FETCH message for the given filename bytes.
pub fn encode_fetch(name: &[u8]) -> (r: Vec<u8>)
    ensures
        r@ == spec_fetch_message(name@),
{
    let mut out: Vec<u8> = Vec::new();
    out.push(ActionType::FETCH.tag());
    append_bytes(&mut out, name);
    out.push(0);
    assert(out@ =~= spec_fetch_message(name@));
    out
}

// --- REGISTER ---

/// The REGISTER message: tag byte `4`, the peer id (big-endian), the four
/// IPv4 address octets, and the port (big-endian).
pub open spec fn spec_register_message(id: PeerId, ip: Seq<u8>, port: u16) -> Seq<u8>
    recommends
        ip.len() == 4,
{
    seq![4u8] + spec_u32_to_be_bytes(id) + ip + spec_u16_to_be_bytes(port)
}

/// Encodes a REGISTER message advertising the given listening endpoint.
pub fn encode_register(id: PeerId, ip: &[u8; 4], port: u16) -> (r: Vec<u8>)
    ensures
        r@ == spec_register_message(id, ip@, port),
        r@.len() == 11,
{
    let mut out: Vec<u8> = Vec::new();
    out.push(ActionType::REGISTER.tag());
    push_u32_be(&mut out, id);
    append_bytes(&mut out, ip.as_slice());
    push_u16_be(&mut out, port);
    assert(out@ =~= spec_register_message(id, ip@, port));
    out
}

// --- SEARCH reply ---

/// The listening endpoint at which a peer can be fetched from.
#[derive(Debug)]
pub struct PeerEndpoint {
    /// The identifier the peer registered under; never `0`.
    pub peer_id: PeerId,
    /// The four octets of the peer's IPv4 address.
    pub ip: [u8; 4],
    /// The peer's listening TCP port.
    pub port: u16,
}

/// The ten bytes of a registry SEARCH reply: peer id (big-endian), four
/// IPv4 octets, and port (big-endian).  A peer id of `0` means not found.
pub open spec fn spec_search_reply(id: PeerId, ip: Seq<u8>, port: u16) -> Seq<u8>
    recommends
        ip.len() == 4,
{
    spec_u32_to_be_bytes(id) + ip + spec_u16_to_be_bytes(port)
}

/// Encodes a SEARCH reply, as the registry sends it.
pub fn encode_search_reply(id: PeerId, ip: &[u8; 4], port: u16) -> (r: Vec<u8>)
    ensures
        r@ == spec_search_reply(id, ip@, port),
        r@.len() == 10,
{
    let mut out: Vec<u8> = Vec::new();
    push_u32_be(&mut out, id);
    append_bytes(&mut out, ip.as_slice());
    push_u16_be(&mut out, port);
    assert(out@ =~= spec_search_reply(id, ip@, port));
    out
}

/// Decodes the ten reply bytes of a SEARCH.
///
/// A peer id of `0` is the normal "not found" outcome, reported as
/// `Ok(None)`, never as an error.  A reply of any other length is reported
/// as `IncompleteMessage`; decoding never panics.
pub fn decode_search_reply(reply: &Vec<u8>) -> (r: Result<Option<PeerEndpoint>, Error>)
    ensures
        reply@.len() != 10 ==> (r matches Err(e) && e.kind == ErrorKind::IncompleteMessage),
        reply@.len() == 10 ==> {
            let id = spec_u32_from_be_bytes(reply@.subrange(0, 4));
            &&& id == 0 ==> (r matches Ok(o) && o is None)
            &&& id != 0 ==> (r matches Ok(o) && o matches Some(ep) && ep.peer_id == id && ep.ip@
                == reply@.subrange(4, 8) && ep.port == spec_u16_from_be_bytes(
                reply@.subrange(8, 10),
            ))
        },
{
    if reply.len() != 10 {
        return Err(
            Error::with_kind(ErrorKind::IncompleteMessage, "search reply is not ten bytes"),
        );
    }
    let id = u32_from_be_quad(reply[0], reply[1], reply[2], reply[3]);
    assert(seq![reply@[0], reply@[1], reply@[2], reply@[3]] =~= reply@.subrange(0, 4));
    if id == 0 {
        return Ok(None);
    }
    let ip: [u8; 4] = [reply[4], reply[5], reply[6], reply[7]];
    let port = u16_from_be_pair(reply[8], reply[9]);
    assert(ip@ =~= reply@.subrange(4, 8));
    assert(seq![reply@[8], reply@[9]] =~= reply@.subrange(8, 10));
    Ok(Some(PeerEndpoint { peer_id: id, ip, port }))
}

/// A SEARCH reply round-trips: encoding a peer id, address and port and
/// decoding the ten bytes again yields the same fields, and a peer id of
/// `0` is read back as `0`, the "not found" marker.
pub proof fn lemma_search_reply_round_trip(id: PeerId, ip: Seq<u8>, port: u16)
    requires
        ip.len() == 4,
    ensures
        spec_search_reply(id, ip, port).len() == 10,
        spec_u32_from_be_bytes(spec_search_reply(id, ip, port).subrange(0, 4)) == id,
        spec_search_reply(id, ip, port).subrange(4, 8) == ip,
        spec_u16_from_be_bytes(spec_search_reply(id, ip, port).subrange(8, 10)) == port,
{
    let reply = spec_search_reply(id, ip, port);
    assert(reply.subrange(0, 4) =~= spec_u32_to_be_bytes(id));
    assert(reply.subrange(4, 8) =~= ip);
    assert(reply.subrange(8, 10) =~= spec_u16_to_be_bytes(port));
    lemma_u32_be_round_trip(id);
    lemma_u16_be_round_trip(port);
}

// --- helpers ---

/// Appends every byte of `src` to `out`, in order.
pub fn append_bytes(out: &mut Vec<u8>, src: &[u8])
    ensures
        final(out)@ == old(out)@ + src@,
{
    let mut i: usize = 0;
    while i < src.len()
        invariant
            i <= src@.len(),
            out@ == old(out)@ + src@.subrange(0, i as int),
        decreases src@.len() - i,
    {
        out.push(src[i]);
        assert(out@ =~= old(out)@ + src@.subrange(0, i + 1 as int));
        i = i + 1;
    }
    assert(out@ =~= old(out)@ + src@);
}

// --- PUBLISH ---

/// Total capacity of one PUBLISH message, header included.
pub const PUBLISH_CAPACITY: usize = 1200;

/// Length of the PUBLISH header: the tag byte and the big-endian count.
pub const PUBLISH_HEADER_LEN: usize = 5;

/// A shared file name as PUBLISH may carry it: non-empty, pure ASCII, with
/// no NUL (which terminates a name on the wire) and no path separator (a
/// shared file lives directly under the shared directory).
pub open spec fn valid_publish_name(name: Seq<u8>) -> bool {
    &&& name.len() > 0
    &&& forall|i: int| 0 <= i < name.len() ==> 0 < #[trigger] name[i] < 128 && name[i] != 47
}

/// Checks one name against the PUBLISH rules, so that an enumerator can
/// skip non-conforming entries before encoding.
pub fn is_valid_publish_name(name: &Vec<u8>) -> (r: bool)
    ensures
        r == valid_publish_name(name@),
{
    if name.len() == 0 {
        return false;
    }
    let mut i: usize = 0;
    while i < name.len()
        invariant
            i <= name@.len(),
            forall|j: int| 0 <= j < i ==> 0 < #[trigger] name@[j] < 128 && name@[j] != 47,
        decreases name@.len() - i,
    {
        let b = name[i];
        if b == 0 || b >= 128 || b == 47 {
            return false;
        }
        i = i + 1;
    }
    true
}

/// The names packed back-to-back, each followed by its NUL terminator.
pub open spec fn spec_packed_names(names: Seq<Seq<u8>>) -> Seq<u8>
    decreases names.len(),
{
    if names.len() == 0 {
        Seq::empty()
    } else {
        names[0] + seq![0u8] + spec_packed_names(names.drop_first())
    }
}

/// How many leading names fit when `room` payload bytes are left: packing
/// stops at the first name that does not fit, so no partial name is ever
/// written.
pub open spec fn spec_publish_count(names: Seq<Seq<u8>>, room: int) -> int
    decreases names.len(),
{
    if names.len() == 0 {
        0
    } else if names[0].len() + 1 > room {
        0
    } else {
        1 + spec_publish_count(names.drop_first(), room - (names[0].len() + 1))
    }
}

/// The PUBLISH message: tag byte `1`, the count of packed names
/// (big-endian), then that many NUL-terminated names, as many as fit in
/// the 1200-byte buffer.
pub open spec fn spec_publish_message(names: Seq<Seq<u8>>) -> Seq<u8> {
    let count = spec_publish_count(names, PUBLISH_CAPACITY - PUBLISH_HEADER_LEN);
    seq![1u8] + spec_u32_to_be_bytes(count as u32) + spec_packed_names(names.take(count))
}

/// Packing one more name appends it and its terminator.
proof fn lemma_packed_names_snoc(names: Seq<Seq<u8>>, x: Seq<u8>)
    ensures
        spec_packed_names(names.push(x)) == spec_packed_names(names) + x + seq![0u8],
    decreases names.len(),
{
    if names.len() == 0 {
        let e = Seq::<Seq<u8>>::empty();
        assert(names.push(x).drop_first() =~~= e);
        assert(names =~~= e);
        assert(spec_packed_names(e) =~= Seq::<u8>::empty());
        assert(spec_packed_names(names.push(x)) =~= spec_packed_names(names) + x + seq![0u8]);
    } else {
        assert(names.push(x).drop_first() =~~= names.drop_first().push(x));
        lemma_packed_names_snoc(names.drop_first(), x);
        assert(spec_packed_names(names.push(x)) =~= spec_packed_names(names) + x + seq![0u8]);
    }
}

/// The count never exceeds the number of names, nor the room.
proof fn lemma_publish_count_bounds(names: Seq<Seq<u8>>, room: int)
    ensures
        0 <= spec_publish_count(names, room) <= names.len(),
        spec_publish_count(names, room) <= if room >= 0 { room } else { 0 },
    decreases names.len(),
{
    if names.len() > 0 && names[0].len() + 1 <= room {
        lemma_publish_count_bounds(names.drop_first(), room - (names[0].len() + 1));
    }
}

/// When every name fits in the room, the count is the full set.
proof fn lemma_publish_count_all_fit(names: Seq<Seq<u8>>, room: int)
    requires
        spec_packed_names(names).len() <= room,
    ensures
        spec_publish_count(names, room) == names.len(),
    decreases names.len(),
{
    if names.len() > 0 {
        assert(spec_packed_names(names).len() == names[0].len() + 1 + spec_packed_names(
            names.drop_first(),
        ).len());
        lemma_publish_count_all_fit(names.drop_first(), room - (names[0].len() + 1));
    }
}

/// When the packed names overrun the room, at least one name is left out.
proof fn lemma_publish_count_overflow(names: Seq<Seq<u8>>, room: int)
    requires
        spec_packed_names(names).len() > room,
        room >= 0,
    ensures
        spec_publish_count(names, room) < names.len(),
    decreases names.len(),
{
    if names.len() > 0 && names[0].len() + 1 <= room {
        assert(spec_packed_names(names).len() == names[0].len() + 1 + spec_packed_names(
            names.drop_first(),
        ).len());
        lemma_publish_count_overflow(names.drop_first(), room - (names[0].len() + 1));
    }
}

/// For all filename sets whose packed representation fits within the
/// buffer, PUBLISH encodes exactly the true count, the payload is all the
/// names packed in order, and every name is recoverable in order by
/// splitting on NUL.
pub proof fn lemma_publish_all_names_fit(names: Seq<Seq<u8>>)
    requires
        PUBLISH_HEADER_LEN + spec_packed_names(names).len() <= PUBLISH_CAPACITY,
        forall|i: int| 0 <= i < names.len() ==> nul_free(#[trigger] names[i]),
    ensures
        spec_publish_count(names, PUBLISH_CAPACITY - PUBLISH_HEADER_LEN) == names.len(),
        spec_publish_message(names) == seq![1u8] + spec_u32_to_be_bytes(names.len() as u32)
            + spec_packed_names(names),
        split_nul(spec_packed_names(names)) == names,
{
    lemma_publish_count_all_fit(names, PUBLISH_CAPACITY - PUBLISH_HEADER_LEN);
    assert(names.take(names.len() as int) =~~= names);
    lemma_packed_names_recoverable(names);
}

/// For all filename sets that do not fit, PUBLISH encodes fewer than the
/// true count, and the encoded count matches the names actually present:
/// the payload is exactly the first `count` names packed whole, in order,
/// each recoverable by splitting on NUL — no partial name is ever written.
pub proof fn lemma_publish_truncates(names: Seq<Seq<u8>>)
    requires
        PUBLISH_HEADER_LEN + spec_packed_names(names).len() > PUBLISH_CAPACITY,
        forall|i: int| 0 <= i < names.len() ==> nul_free(#[trigger] names[i]),
    ensures
        spec_publish_count(names, PUBLISH_CAPACITY - PUBLISH_HEADER_LEN) < names.len(),
        ({
            let count = spec_publish_count(names, PUBLISH_CAPACITY - PUBLISH_HEADER_LEN);
            &&& spec_publish_message(names) == seq![1u8] + spec_u32_to_be_bytes(count as u32)
                + spec_packed_names(names.take(count))
            &&& split_nul(spec_packed_names(names.take(count))) == names.take(count)
        }),
{
    lemma_publish_count_overflow(names, PUBLISH_CAPACITY - PUBLISH_HEADER_LEN);
    let count = spec_publish_count(names, PUBLISH_CAPACITY - PUBLISH_HEADER_LEN);
    lemma_publish_count_bounds(names, PUBLISH_CAPACITY - PUBLISH_HEADER_LEN);
    assert(forall|i: int| 0 <= i < names.take(count).len() ==> nul_free(
        #[trigger] names.take(count)[i],
    ));
    lemma_packed_names_recoverable(names.take(count));
}

// --- recovering packed names by splitting on NUL ---

/// Holds when no byte of the name is the NUL terminator.
pub open spec fn nul_free(name: Seq<u8>) -> bool {
    forall|i: int| 0 <= i < name.len() ==> #[trigger] name[i] != 0
}

/// The index of the first NUL byte, or the length when there is none.
pub open spec fn first_nul(s: Seq<u8>) -> nat
    decreases s.len(),
{
    if s.len() == 0 {
        0
    } else if s[0] == 0 {
        0
    } else {
        1 + first_nul(s.drop_first())
    }
}

/// Splits a byte sequence on NUL bytes: each NUL terminates one piece, and
/// a non-empty tail with no terminator is one final piece.
pub open spec fn split_nul(s: Seq<u8>) -> Seq<Seq<u8>>
    decreases s.len(),
{
    if s.len() == 0 {
        Seq::empty()
    } else {
        let i = first_nul(s) as int;
        if i >= s.len() {
            seq![s]
        } else {
            seq![s.take(i)] + split_nul(s.skip(i + 1))
        }
    }
}

/// Prepending NUL-free bytes moves the first NUL past them.
proof fn lemma_first_nul_concat(a: Seq<u8>, b: Seq<u8>)
    requires
        nul_free(a),
    ensures
        first_nul(a + b) == a.len() + first_nul(b),
    decreases a.len(),
{
    if a.len() == 0 {
        assert(a + b =~= b);
    } else {
        assert((a + b)[0] == a[0]);
        assert((a + b).drop_first() =~= a.drop_first() + b);
        lemma_first_nul_concat(a.drop_first(), b);
    }
}

/// All packed names are recoverable in order by splitting on NUL, for
/// every set of NUL-free names: packing loses nothing and invents nothing.
pub proof fn lemma_packed_names_recoverable(names: Seq<Seq<u8>>)
    requires
        forall|i: int| 0 <= i < names.len() ==> nul_free(#[trigger] names[i]),
    ensures
        split_nul(spec_packed_names(names)) == names,
    decreases names.len(),
{
    if names.len() == 0 {
        assert(split_nul(spec_packed_names(names)) =~~= names);
    } else {
        let s = spec_packed_names(names);
        let head = names[0];
        let rest = spec_packed_names(names.drop_first());
        assert(s == head + seq![0u8] + rest);
        assert(s =~= head + (seq![0u8] + rest));
        lemma_first_nul_concat(head, seq![0u8] + rest);
        assert(first_nul(seq![0u8] + rest) == 0);
        assert(first_nul(s) == head.len());
        assert(s.len() == head.len() + 1 + rest.len());
        assert(s.take(head.len() as int) =~= head);
        assert(s.skip(head.len() + 1 as int) =~= rest);
        lemma_packed_names_recoverable(names.drop_first());
        assert(split_nul(s) =~~= names);
    }
}

/// Encodes a PUBLISH message: as many of the given names as fit, packed
/// NUL-terminated behind the tag and the big-endian count of names written.
pub fn encode_publish(names: &Vec<Vec<u8>>) -> (r: Vec<u8>)
    requires
        forall|i: int| 0 <= i < names@.len() ==> valid_publish_name(
            #[trigger] names.deep_view()[i],
        ),
    ensures
        r@ == spec_publish_message(names.deep_view()),
        r@.len() <= PUBLISH_CAPACITY,
{
    let ghost dv = names.deep_view();
    let room_total: usize = PUBLISH_CAPACITY - PUBLISH_HEADER_LEN;
    let mut payload: Vec<u8> = Vec::new();
    let mut count: u32 = 0;
    let mut i: usize = 0;
    let mut fit = true;
    proof {
        assert(dv.take(0) =~~= Seq::<Seq<u8>>::empty());
        assert(dv.skip(0) =~~= dv);
    }
    while fit && i < names.len()
        invariant
            0 <= i <= names@.len(),
            room_total == PUBLISH_CAPACITY - PUBLISH_HEADER_LEN,
            dv == names.deep_view(),
            dv.len() == names@.len(),
            forall|j: int| 0 <= j < names@.len() ==> valid_publish_name(#[trigger] dv[j]),
            forall|j: int| 0 <= j < names@.len() ==> dv[j] == names@[j]@,
            count == i,
            2 * i <= payload@.len() <= room_total,
            payload@ == spec_packed_names(dv.take(i as int)),
            spec_publish_count(dv, room_total as int) == if fit {
                i + spec_publish_count(dv.skip(i as int), room_total - payload@.len())
            } else {
                i as int
            },
        decreases names@.len() - i, (if fit { 1int } else { 0int }),
    {
        let name = &names[i];
        proof {
            assert(dv.skip(i as int)[0] == dv[i as int]);
            assert(dv[i as int] == names@[i as int]@);
        }
        if name.len() >= room_total - payload.len() {
            proof {
                assert(dv.skip(i as int).len() > 0);
                assert(spec_publish_count(dv.skip(i as int), room_total - payload@.len()) == 0);
            }
            fit = false;
        } else {
            append_bytes(&mut payload, name.as_slice());
            payload.push(0);
            proof {
                assert(dv.take(i + 1) =~~= dv.take(i as int).push(dv[i as int]));
                lemma_packed_names_snoc(dv.take(i as int), dv[i as int]);
                assert(payload@ == spec_packed_names(dv.take(i + 1)));
                assert(dv.skip(i as int).drop_first() =~~= dv.skip(i + 1));
            }
            count = count + 1;
            i = i + 1;
        }
    }
    proof {
        if fit {
            assert(dv.skip(i as int) =~~= Seq::<Seq<u8>>::empty());
        }
        assert(spec_publish_count(dv, room_total as int) == i as int);
    }
    let mut out: Vec<u8> = Vec::new();
    out.push(1);
    push_u32_be(&mut out, count);
    append_bytes(&mut out, payload.as_slice());
    assert(out@ =~= spec_publish_message(dv));
    out
}

} // verus!
