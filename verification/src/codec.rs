//! Bytes: little-endian integers, shared byte buffers, the binary encoding of
//! log entries and voter records, and checksums.
use std::collections::BTreeMap;

use bytes::Bytes;
use vstd::prelude::*;
use vstd::utf8::{
    decode_utf8, encode_utf8, encode_utf8_decode_utf8, encode_utf8_valid_utf8, valid_utf8,
};

verus! {

/// The `width` bytes of `x`, least significant first.
pub open spec fn le_bytes(x: nat, width: nat) -> Seq<u8>
    decreases width,
{
    if width == 0 {
        seq![]
    } else {
        seq![(x % 256) as u8] + le_bytes(x / 256, (width - 1) as nat)
    }
}

/// The number whose bytes, least significant first, are `s`.
pub open spec fn le_value(s: Seq<u8>) -> nat
    decreases s.len(),
{
    if s.len() == 0 {
        0
    } else {
        s[0] as nat + 256 * le_value(s.skip(1))
    }
}

/// How many numbers `width` bytes can hold.
pub open spec fn byte_range(width: nat) -> nat
    decreases width,
{
    if width == 0 {
        1
    } else {
        256 * byte_range((width - 1) as nat)
    }
}

pub proof fn lemma_byte_range()
    ensures
        byte_range(4) == 0x1_0000_0000,
        byte_range(8) == 0x1_0000_0000_0000_0000,
{
    reveal_with_fuel(byte_range, 9);
}

pub proof fn lemma_le_bytes_len(x: nat, width: nat)
    ensures
        le_bytes(x, width).len() == width,
    decreases width,
{
    if width > 0 {
        lemma_le_bytes_len(x / 256, (width - 1) as nat);
    }
}

/// Reading the bytes of a number gives the number back.
pub proof fn lemma_le_round_trip(x: nat, width: nat)
    requires
        x < byte_range(width),
    ensures
        le_value(le_bytes(x, width)) == x,
        le_bytes(x, width).len() == width,
    decreases width,
{
    if width > 0 {
        lemma_le_round_trip(x / 256, (width - 1) as nat);
        assert(le_bytes(x, width).skip(1) =~= le_bytes(x / 256, (width - 1) as nat));
    }
}

/// The value of `width` bytes is below `byte_range(width)`.
pub proof fn lemma_le_value_bound(s: Seq<u8>)
    ensures
        le_value(s) < byte_range(s.len()),
    decreases s.len(),
{
    if s.len() > 0 {
        lemma_le_value_bound(s.skip(1));
    }
}

pub proof fn lemma_u32_round_trip(x: u32)
    ensures
        le_value(le_bytes(x as nat, 4)) == x,
        le_bytes(x as nat, 4).len() == 4,
{
    lemma_byte_range();
    lemma_le_round_trip(x as nat, 4);
}

pub proof fn lemma_u64_round_trip(x: u64)
    ensures
        le_value(le_bytes(x as nat, 8)) == x,
        le_bytes(x as nat, 8).len() == 8,
{
    lemma_byte_range();
    lemma_le_round_trip(x as nat, 8);
}

/// Reads four bytes at `at` as an integer.
pub fn read_u32(buf: &[u8], at: usize) -> (x: u32)
    requires
        at + 4 <= buf@.len(),
    ensures
        x == le_value(buf@.subrange(at as int, at + 4)),
{
    let ghost s = buf@.subrange(at as int, at + 4);
    proof {
        reveal_with_fuel(le_value, 5);
        assert(s.skip(1).skip(1) =~= s.skip(2));
        assert(s.skip(2).skip(1) =~= s.skip(3));
        assert(s.skip(3).skip(1) =~= s.skip(4));
    }
    let b0: u32 = buf[at] as u32;
    let b1: u32 = buf[at + 1] as u32;
    let b2: u32 = buf[at + 2] as u32;
    let b3: u32 = buf[at + 3] as u32;
    b0 + 256 * (b1 + 256 * (b2 + 256 * b3))
}

/// Reads eight bytes at `at` as an integer.
pub fn read_u64(buf: &[u8], at: usize) -> (x: u64)
    requires
        at + 8 <= buf@.len(),
    ensures
        x == le_value(buf@.subrange(at as int, at + 8)),
{
    assert(buf@.len() == buf.len());
    let lo: u64 = read_u32(buf, at) as u64;
    let hi: u64 = read_u32(buf, at + 4) as u64;
    let ghost s = buf@.subrange(at as int, at + 8);
    proof {
        reveal_with_fuel(le_value, 5);
        assert(buf@.subrange(at as int, at + 4) =~= s.take(4));
        assert(buf@.subrange(at + 4, at + 8) =~= s.skip(4));
        let t = s.take(4);
        assert(t.skip(1).skip(1) =~= t.skip(2));
        assert(t.skip(2).skip(1) =~= t.skip(3));
        assert(t.skip(3).skip(1) =~= t.skip(4));
        assert(s.skip(1).skip(1) =~= s.skip(2));
        assert(s.skip(2).skip(1) =~= s.skip(3));
        assert(s.skip(3).skip(1) =~= s.skip(4));
    }
    lo + 0x1_0000_0000 * hi
}

/// Appends the four bytes of `x` to `out`.
pub fn append_u32(out: &mut Vec<u8>, x: u32)
    ensures
        final(out)@ == old(out)@ + le_bytes(x as nat, 4),
{
    proof {
        reveal_with_fuel(le_bytes, 5);
    }
    out.push((x % 256) as u8);
    out.push((x / 256 % 256) as u8);
    out.push((x / 256 / 256 % 256) as u8);
    out.push((x / 256 / 256 / 256 % 256) as u8);
    assert(out@ =~= old(out)@ + le_bytes(x as nat, 4));
}

/// Appends the eight bytes of `x` to `out`.
pub fn append_u64(out: &mut Vec<u8>, x: u64)
    ensures
        final(out)@ == old(out)@ + le_bytes(x as nat, 8),
{
    let mut rest: u64 = x;
    let mut i: usize = 0;
    let ghost start = out@;
    while i < 8
        invariant
            i <= 8,
            start + le_bytes(x as nat, 8) == out@ + le_bytes(rest as nat, (8 - i) as nat),
        decreases 8 - i,
    {
        let ghost before = out@;
        out.push((rest % 256) as u8);
        proof {
            let w = (8 - i) as nat;
            assert(before + le_bytes(rest as nat, w) =~= out@ + le_bytes(
                (rest / 256) as nat,
                (w - 1) as nat,
            ));
        }
        rest = rest / 256;
        i = i + 1;
    }
    assert(out@ + le_bytes(rest as nat, 0) =~= out@);
}

/// A cheaply cloneable byte buffer of the `bytes` crate.
#[verifier::external_type_specification]
#[verifier::external_body]
pub struct ExBytes(bytes::Bytes);

/// The bytes that a buffer holds.
pub uninterp spec fn bytes_content(b: bytes::Bytes) -> Seq<u8>;

/// `Bytes::from(Vec<u8>)`: the buffer holds the vector's bytes.
#[verifier::external_body]
pub(crate) fn bytes_from_vec(v: Vec<u8>) -> (b: Bytes)
    ensures
        bytes_content(b) == v@,
{
    Bytes::from(v)
}

/// `Bytes::new`: the buffer is empty.
#[verifier::external_body]
pub(crate) fn bytes_empty() -> (b: Bytes)
    ensures
        bytes_content(b) == Seq::<u8>::empty(),
{
    Bytes::new()
}

/// `Bytes::to_vec`, through its slice: a copy of what the buffer holds.
#[verifier::external_body]
pub(crate) fn bytes_to_vec(b: &Bytes) -> (v: Vec<u8>)
    ensures
        v@ == bytes_content(*b),
{
    b.to_vec()
}

/// `Bytes::clone`: another handle on the same bytes.
#[verifier::external_body]
pub(crate) fn bytes_clone(b: &Bytes) -> (r: Bytes)
    ensures
        bytes_content(r) == bytes_content(*b),
{
    b.clone()
}

/// `Bytes::len`: how many bytes the buffer holds.
#[verifier::external_body]
pub(crate) fn bytes_len(b: &Bytes) -> (n: usize)
    ensures
        n == bytes_content(*b).len(),
{
    b.len()
}

/// `Bytes::slice` of the range from `from` to `to`: a buffer with the bytes of
/// that range. It panics on a range that is inverted or out of bounds.
#[verifier::external_body]
pub(crate) fn bytes_slice(b: &Bytes, from: usize, to: usize) -> (r: Bytes)
    requires
        from <= to <= bytes_content(*b).len(),
    ensures
        bytes_content(r) == bytes_content(*b).subrange(from as int, to as int),
{
    b.slice(from..to)
}

/// The CRC-32C checksum of `data`.
pub uninterp spec fn crc32c_of(data: Seq<u8>) -> u32;

/// `crc32c::crc32c`: the checksum depends on the bytes alone.
#[verifier::external_body]
pub(crate) fn checksum(data: &[u8]) -> (crc: u32)
    ensures
        crc == crc32c_of(data@),
{
    crc32c::crc32c(data)
}

/// The encoding of a log entry's fields: three fixed-width integers, then the
/// payload behind its length.
pub open spec fn entry_encoding(offset: u64, term: u64, tag: u32, payload: Seq<u8>) -> Seq<u8> {
    le_bytes(offset as nat, 8) + le_bytes(term as nat, 8) + le_bytes(tag as nat, 4)
        + le_bytes(payload.len(), 8) + payload
}

/// True of bytes that start with an encoding of some entry's fields.
pub open spec fn entry_decodable(b: Seq<u8>) -> bool {
    b.len() >= 28 && le_value(b.subrange(20, 28)) <= b.len() - 28
}

/// The payload of the entry that `b` starts with.
pub open spec fn entry_payload(b: Seq<u8>) -> Seq<u8> {
    b.subrange(28, 28 + le_value(b.subrange(20, 28)) as int)
}

/// `bincode::serialize` of the four fields as a tuple, which writes them one
/// after the other with little-endian integers of fixed width and a 64-bit
/// length before the payload. With no size limit, writing to memory does not
/// fail.
#[verifier::external_body]
pub(crate) fn serialize_entry(offset: u64, term: u64, tag: u32, payload: &Bytes) -> (v: Vec<u8>)
    ensures
        v@ == entry_encoding(offset, term, tag, bytes_content(*payload)),
{
    bincode::serialize(&(offset, term, tag, payload)).expect("serialising to memory")
}

/// `bincode::deserialize` of a tuple of the four fields. It reads them from
/// the front of `b`, ignores what follows, and fails when `b` ends too early;
/// the text of the failure is left open.
#[verifier::external_body]
pub(crate) fn deserialize_entry(b: &[u8]) -> (r: Result<(u64, u64, u32, Bytes), String>)
    ensures
        r is Ok <==> entry_decodable(b@),
        r matches Ok(f) ==> {
            &&& f.0 == le_value(b@.subrange(0, 8))
            &&& f.1 == le_value(b@.subrange(8, 16))
            &&& f.2 == le_value(b@.subrange(16, 20))
            &&& bytes_content(f.3) == entry_payload(b@)
        },
{
    bincode::deserialize(b).map_err(|e| e.to_string())
}

/// Decoding the encoding of four fields gives the fields back, whatever
/// follows them.
pub proof fn lemma_entry_round_trip(offset: u64, term: u64, tag: u32, payload: Seq<u8>)
    requires
        payload.len() <= u64::MAX,
    ensures
        ({
            let b = entry_encoding(offset, term, tag, payload);
            &&& b.len() == 28 + payload.len()
            &&& entry_decodable(b)
            &&& le_value(b.subrange(0, 8)) == offset
            &&& le_value(b.subrange(8, 16)) == term
            &&& le_value(b.subrange(16, 20)) == tag
            &&& entry_payload(b) == payload
        }),
{
    let b = entry_encoding(offset, term, tag, payload);
    lemma_u64_round_trip(offset);
    lemma_u64_round_trip(term);
    lemma_u32_round_trip(tag);
    lemma_u64_round_trip(payload.len() as u64);
    assert(b.subrange(0, 8) =~= le_bytes(offset as nat, 8));
    assert(b.subrange(8, 16) =~= le_bytes(term as nat, 8));
    assert(b.subrange(16, 20) =~= le_bytes(tag as nat, 4));
    assert(b.subrange(20, 28) =~= le_bytes(payload.len(), 8));
    assert(entry_payload(b) =~= payload);
}

/// One voter as it is encoded: identifier, endpoint, last known term.
pub open spec fn voter_encoding(v: (u64, Seq<char>, u64)) -> Seq<u8> {
    le_bytes(v.0 as nat, 8) + le_bytes(encode_utf8(v.1).len(), 8) + encode_utf8(v.1) + le_bytes(
        v.2 as nat,
        8,
    )
}

/// The voters of a record, one after the other.
pub open spec fn voter_list_encoding(voters: Seq<(u64, Seq<char>, u64)>) -> Seq<u8>
    decreases voters.len(),
{
    if voters.len() == 0 {
        seq![]
    } else {
        voter_list_encoding(voters.drop_last()) + voter_encoding(voters.last())
    }
}

/// The encoding of a voters record: its version, how many voters, the voters.
pub open spec fn voters_encoding(version: u32, voters: Seq<(u64, Seq<char>, u64)>) -> Seq<u8> {
    le_bytes(version as nat, 4) + le_bytes(voters.len(), 8) + voter_list_encoding(voters)
}

/// How many bytes the endpoint of the voter takes that `b` starts with.
pub open spec fn endpoint_length(b: Seq<u8>) -> nat {
    le_value(b.subrange(8, 16))
}

/// `b` starts with a voter: an identifier, a text behind its length, a term.
pub open spec fn voter_decodable(b: Seq<u8>) -> bool {
    &&& b.len() >= 24
    &&& endpoint_length(b) <= b.len() - 24
    &&& valid_utf8(b.subrange(16, 16 + endpoint_length(b) as int))
}

/// The voter that `b` starts with.
pub open spec fn voter_decoding(b: Seq<u8>) -> (u64, Seq<char>, u64) {
    let end = 16 + endpoint_length(b) as int;
    (
        le_value(b.take(8)) as u64,
        decode_utf8(b.subrange(16, end)),
        le_value(b.subrange(end, end + 8)) as u64,
    )
}

/// The `n` voters that `b` starts with, or `None` where it does not.
pub open spec fn voter_list_decoding(b: Seq<u8>, n: nat) -> Option<Seq<(u64, Seq<char>, u64)>>
    decreases n,
{
    if n == 0 {
        Some(seq![])
    } else if !voter_decodable(b) {
        None
    } else {
        match voter_list_decoding(b.skip(24 + endpoint_length(b) as int), (n - 1) as nat) {
            Some(rest) => Some(seq![voter_decoding(b)] + rest),
            None => None,
        }
    }
}

/// The version and the voters that the bytes of a voters record hold, or `None`
/// where they hold none. What follows the voters does not matter.
pub open spec fn voters_decoding(b: Seq<u8>) -> Option<(u32, Seq<(u64, Seq<char>, u64)>)> {
    if b.len() < 12 {
        None
    } else {
        match voter_list_decoding(b.skip(12), le_value(b.subrange(4, 12))) {
            Some(voters) => Some((le_value(b.take(4)) as u32, voters)),
            None => None,
        }
    }
}

proof fn lemma_voter_list_front(voters: Seq<(u64, Seq<char>, u64)>)
    requires
        voters.len() > 0,
    ensures
        voter_list_encoding(voters) == voter_encoding(voters[0]) + voter_list_encoding(
            voters.skip(1),
        ),
    decreases voters.len(),
{
    if voters.len() == 1 {
        assert(voters.drop_last() =~= Seq::empty());
        assert(voters.skip(1) =~= Seq::empty());
        assert(voter_list_encoding(voters) =~= voter_encoding(voters[0]) + voter_list_encoding(
            voters.skip(1),
        ));
    } else {
        lemma_voter_list_front(voters.drop_last());
        assert(voters.drop_last().skip(1) =~= voters.skip(1).drop_last());
        assert(voters.skip(1).last() == voters.last());
        assert(voter_list_encoding(voters) =~= voter_encoding(voters[0]) + voter_list_encoding(
            voters.skip(1),
        ));
    }
}

proof fn lemma_voter_list_round_trip(voters: Seq<(u64, Seq<char>, u64)>)
    requires
        voter_list_encoding(voters).len() <= u64::MAX,
    ensures
        voter_list_decoding(voter_list_encoding(voters), voters.len()) == Some(voters),
        voters.len() <= voter_list_encoding(voters).len(),
    decreases voters.len(),
{
    let b = voter_list_encoding(voters);
    if voters.len() == 0 {
        assert(voters =~= Seq::empty());
    } else {
        let v = voters[0];
        let text = encode_utf8(v.1);
        let rest = voters.skip(1);
        lemma_voter_list_front(voters);
        lemma_u64_round_trip(v.0);
        lemma_u64_round_trip(v.2);
        lemma_le_bytes_len(text.len(), 8);
        lemma_u64_round_trip(text.len() as u64);
        encode_utf8_valid_utf8(v.1);
        encode_utf8_decode_utf8(v.1);
        assert(b.take(8) =~= le_bytes(v.0 as nat, 8));
        assert(b.subrange(8, 16) =~= le_bytes(text.len(), 8));
        assert(b.subrange(16, 16 + text.len() as int) =~= text);
        assert(b.subrange(16 + text.len() as int, 24 + text.len() as int) =~= le_bytes(
            v.2 as nat,
            8,
        ));
        assert(b.skip(24 + text.len() as int) =~= voter_list_encoding(rest));
        lemma_voter_list_round_trip(rest);
        assert(seq![v] + rest =~= voters);
    }
}

/// Decoding the encoding of a voters record gives the record back.
pub proof fn lemma_voters_round_trip(version: u32, voters: Seq<(u64, Seq<char>, u64)>)
    requires
        voters_encoding(version, voters).len() <= u64::MAX,
    ensures
        voters_decoding(voters_encoding(version, voters)) == Some((version, voters)),
{
    let b = voters_encoding(version, voters);
    lemma_le_bytes_len(voters.len(), 8);
    lemma_u32_round_trip(version);
    lemma_voter_list_round_trip(voters);
    lemma_u64_round_trip(voters.len() as u64);
    assert(b.take(4) =~= le_bytes(version as nat, 4));
    assert(b.subrange(4, 12) =~= le_bytes(voters.len(), 8));
    assert(b.skip(12) =~= voter_list_encoding(voters));
}

/// A voter as a plain tuple, its endpoint taken as text.
pub open spec fn voter_fields(voters: Seq<(u64, String, u64)>) -> Seq<(u64, Seq<char>, u64)> {
    voters.map_values(|v: (u64, String, u64)| (v.0, v.1@, v.2))
}

/// `bincode::serialize` of the version and the voters as a tuple. It writes
/// fixed-width little-endian integers, lists and texts behind their 64-bit
/// lengths, and does not fail in memory.
#[verifier::external_body]
pub(crate) fn serialize_voters(version: u32, voters: &Vec<(u64, String, u64)>) -> (v: Vec<u8>)
    ensures
        v@ == voters_encoding(version, voter_fields(voters@)),
{
    bincode::serialize(&(version, voters)).expect("serialising to memory")
}

/// `bincode::deserialize` of a version and a list of voters. It reads what
/// serialising writes from the front of `b` and ignores what follows. It fails
/// if `b` ends too early or an endpoint is not UTF-8; the text of the failure is
/// left open.
#[verifier::external_body]
pub(crate) fn deserialize_voters(b: &[u8]) -> (r: Result<(u32, Vec<(u64, String, u64)>), String>)
    ensures
        r is Ok <==> voters_decoding(b@) is Some,
        r matches Ok(f) ==> voters_decoding(b@) == Some((f.0, voter_fields(f.1@))),
{
    bincode::deserialize(b).map_err(|e| e.to_string())
}

/// Pairs of numbers, one after the other.
pub open spec fn pair_list_encoding(pairs: Seq<(u64, u64)>) -> Seq<u8>
    decreases pairs.len(),
{
    if pairs.len() == 0 {
        seq![]
    } else {
        pair_list_encoding(pairs.drop_last()) + le_bytes(pairs.last().0 as nat, 8) + le_bytes(
            pairs.last().1 as nat,
            8,
        )
    }
}

/// The pairs are those of the map, in ascending order of their keys.
pub open spec fn lists_map(pairs: Seq<(u64, u64)>, m: Map<u64, u64>) -> bool {
    &&& forall|i: int, j: int| 0 <= i < j < pairs.len() ==> pairs[i].0 < pairs[j].0
    &&& forall|i: int|
        0 <= i < pairs.len() ==> m.contains_key((#[trigger] pairs[i]).0) && m[pairs[i].0]
            == pairs[i].1
    &&& forall|k: u64| #[trigger]
        m.contains_key(k) ==> exists|i: int| 0 <= i < pairs.len() && (#[trigger] pairs[i]).0 == k
    &&& pairs.len() <= u64::MAX
}

/// `b` is the encoding of the map: how many pairs, then the pairs.
pub open spec fn encodes_map(b: Seq<u8>, m: Map<u64, u64>) -> bool {
    exists|pairs: Seq<(u64, u64)>| #[trigger]
        lists_map(pairs, m) && b == le_bytes(pairs.len(), 8) + pair_list_encoding(pairs)
}

/// The map of the `n` pairs that `b` starts with. Of several values for one key
/// the last counts.
pub open spec fn paired_map(b: Seq<u8>, n: nat) -> Map<u64, u64>
    decreases n,
{
    if n == 0 {
        Map::empty()
    } else {
        let at = 16 * (n - 1);
        paired_map(b, (n - 1) as nat).insert(
            le_value(b.subrange(at, at + 8)) as u64,
            le_value(b.subrange(at + 8, at + 16)) as u64,
        )
    }
}

/// The map that the bytes hold: how many pairs, then the pairs. `None` where
/// the bytes end before the pairs do; what follows the pairs does not matter.
pub open spec fn map_decoding(b: Seq<u8>) -> Option<Map<u64, u64>> {
    if b.len() < 8 || 16 * le_value(b.take(8)) > b.len() - 8 {
        None
    } else {
        Some(paired_map(b.skip(8), le_value(b.take(8))))
    }
}

/// Decoding the pairs of a list gives a map with their keys and, where no key
/// comes twice, their values.
proof fn lemma_paired_map(pairs: Seq<(u64, u64)>, b: Seq<u8>)
    requires
        pair_list_encoding(pairs).is_prefix_of(b),
        forall|i: int, j: int| 0 <= i < j < pairs.len() ==> pairs[i].0 < pairs[j].0,
    ensures
        pair_list_encoding(pairs).len() == 16 * pairs.len(),
        forall|k: u64| #[trigger]
            paired_map(b, pairs.len()).contains_key(k) ==> exists|i: int|
                0 <= i < pairs.len() && (#[trigger] pairs[i]).0 == k,
        forall|i: int|
            0 <= i < pairs.len() ==> paired_map(b, pairs.len()).contains_key(
                (#[trigger] pairs[i]).0,
            ) && paired_map(b, pairs.len())[pairs[i].0] == pairs[i].1,
    decreases pairs.len(),
{
    if pairs.len() > 0 {
        let n = pairs.len();
        let front = pairs.drop_last();
        let (key, value) = pairs.last();
        let at = 16 * (n - 1);
        let whole = pair_list_encoding(pairs);
        let head = pair_list_encoding(front);
        lemma_u64_round_trip(key);
        lemma_u64_round_trip(value);
        assert(head =~= whole.take(head.len() as int));
        assert(head.is_prefix_of(b)) by {
            assert(b.take(head.len() as int) =~= head);
        }
        lemma_paired_map(front, b);
        assert(whole.subrange(at, at + 8) =~= le_bytes(key as nat, 8));
        assert(whole.subrange(at + 8, at + 16) =~= le_bytes(value as nat, 8));
        assert(b.subrange(at, at + 8) =~= whole.subrange(at, at + 8));
        assert(b.subrange(at + 8, at + 16) =~= whole.subrange(at + 8, at + 16));
        let before = paired_map(b, front.len());
        let all = paired_map(b, n);
        assert(all == before.insert(key, value));
        assert forall|k: u64| #[trigger] all.contains_key(k) implies exists|i: int|
            0 <= i < n && (#[trigger] pairs[i]).0 == k by {
            if k == key {
                assert(pairs[n - 1].0 == k);
            } else {
                assert(before.contains_key(k));
                let i = choose|i: int| 0 <= i < front.len() && (#[trigger] front[i]).0 == k;
                assert(pairs[i].0 == k);
            }
        }
        assert forall|i: int| 0 <= i < n implies all.contains_key((#[trigger] pairs[i]).0)
            && all[pairs[i].0] == pairs[i].1 by {
            if i < n - 1 {
                assert(front[i] == pairs[i]);
                assert(pairs[i].0 < pairs[n - 1].0);
            }
        }
    }
}

/// Decoding the encoding of a map gives the map back.
pub proof fn lemma_map_round_trip(b: Seq<u8>, m: Map<u64, u64>)
    requires
        encodes_map(b, m),
    ensures
        b.len() >= 8,
        map_decoding(b) == Some(m),
{
    let pairs = choose|pairs: Seq<(u64, u64)>| #[trigger]
        lists_map(pairs, m) && b == le_bytes(pairs.len(), 8) + pair_list_encoding(pairs);
    let n = pairs.len();
    lemma_u64_round_trip(n as u64);
    assert(b.take(8) =~= le_bytes(n, 8));
    assert(b.skip(8) =~= pair_list_encoding(pairs));
    lemma_paired_map(pairs, b.skip(8));
    let found = paired_map(b.skip(8), n);
    assert forall|k: u64| found.contains_key(k) == m.contains_key(k) by {
        if m.contains_key(k) {
            let i = choose|i: int| 0 <= i < pairs.len() && (#[trigger] pairs[i]).0 == k;
            assert(found.contains_key(pairs[i].0));
        }
        if found.contains_key(k) {
            let i = choose|i: int| 0 <= i < pairs.len() && (#[trigger] pairs[i]).0 == k;
            assert(m.contains_key(pairs[i].0));
        }
    }
    assert forall|k: u64| #[trigger] found.contains_key(k) implies found[k] == m[k] by {
        let i = choose|i: int| 0 <= i < pairs.len() && (#[trigger] pairs[i]).0 == k;
        assert(m[pairs[i].0] == found[pairs[i].0]);
    }
    assert(found =~= m);
}

/// `bincode::serialize` of a map. It writes the number of pairs and then each
/// pair, in the order of the map, as fixed-width little-endian integers, and
/// does not fail in memory.
#[verifier::external_body]
pub(crate) fn serialize_map(m: &BTreeMap<u64, u64>) -> (v: Vec<u8>)
    ensures
        encodes_map(v@, m@),
{
    bincode::serialize(m).expect("serialising to memory")
}

/// `bincode::deserialize` of a map. It reads the number of pairs and then each
/// pair as fixed-width little-endian integers, and puts the pairs into the map
/// one after the other. It fails if the bytes end before that; bytes that follow
/// are ignored. The text of a failure is left open.
#[verifier::external_body]
pub(crate) fn deserialize_map(b: &[u8]) -> (r: Result<BTreeMap<u64, u64>, String>)
    ensures
        r is Ok <==> map_decoding(b@) is Some,
        r matches Ok(m) ==> map_decoding(b@) == Some(m@),
{
    bincode::deserialize(b).map_err(|e| e.to_string())
}

} // verus!
