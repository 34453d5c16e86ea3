//! Canonical byte encoding of field elements: each element occupies
//! `ELEMENT_BYTES` bytes, little endian, in reduced form, and sequences of
//! elements are encoded by plain concatenation with no length prefixes.
//! Decoding rejects any byte pattern that is not a canonical representative.

use vstd::prelude::*;
use vstd::arithmetic::div_mod::{lemma_div_by_multiple, lemma_fundamental_div_mod, lemma_small_mod};
use crate::field::{Felt, P};
use crate::polynom::seq_val;

verus! {

/// A reason why a byte region could not be decoded into field elements.
#[derive(Clone, Copy, Debug, PartialEq, Eq, Structural)]
pub enum DecodeError {
    /// The region's length is not a multiple of `ELEMENT_BYTES`.
    InvalidLength,
    /// A group of `ELEMENT_BYTES` bytes is not the canonical reduced form
    /// of any field element (its value is `P` or above).
    NonCanonical,
}

/// The canonical little-endian byte encoding of the representative `v`.
pub open spec fn felt_bytes(v: nat) -> Seq<u8> {
    seq![
        (v % 256) as u8,
        ((v / 256) % 256) as u8,
        ((v / 65536) % 256) as u8,
        ((v / 16777216) % 256) as u8,
    ]
}

/// The value carried by the `i`-th group of `ELEMENT_BYTES` bytes of `b`.
pub open spec fn chunk_val(b: Seq<u8>, i: int) -> nat {
    b[4 * i] as nat + 256 * (b[4 * i + 1] as nat) + 65536 * (b[4 * i + 2] as nat) + 16777216 * (
    b[4 * i + 3] as nat)
}

/// Concatenation of the canonical encodings of the representatives in `s`.
pub open spec fn encode_elems(s: Seq<nat>) -> Seq<u8>
    decreases s.len(),
{
    if s.len() == 0 {
        Seq::empty()
    } else {
        felt_bytes(s[0]) + encode_elems(s.subrange(1, s.len() as int))
    }
}

/// Whether `b` is a well-formed encoding: a whole number of groups, each
/// carrying a canonical (reduced) representative.
pub open spec fn bytes_ok(b: Seq<u8>) -> bool {
    &&& b.len() % 4 == 0
    &&& forall|i: int| 0 <= i < b.len() / 4 ==> chunk_val(b, i) < P as nat
}

/// The representatives carried by the groups of `b`.
pub open spec fn decode_elems(b: Seq<u8>) -> Seq<nat> {
    Seq::new((b.len() / 4) as nat, |i: int| chunk_val(b, i))
}

/// The error reported for a byte region that is not a well-formed encoding.
pub open spec fn decode_failure(b: Seq<u8>) -> DecodeError {
    if b.len() % 4 != 0 {
        DecodeError::InvalidLength
    } else {
        DecodeError::NonCanonical
    }
}

/// Packing the four little-endian bytes of `v` back together yields `v`.
pub proof fn lemma_pack_unpack(v: nat)
    requires
        v < 0x1_0000_0000,
    ensures
        chunk_val(felt_bytes(v), 0) == v,
{
    let x = v as u64;
    assert(x % 256 + 256 * ((x / 256) % 256) + 65536 * ((x / 65536) % 256) + 16777216 * ((x
        / 16777216) % 256) == x) by (bit_vector)
        requires
            x < 0x1_0000_0000,
    ;
}

/// Unpacking the value packed from four bytes recovers each byte, and the
/// packed value is below `2^32`.
pub proof fn lemma_unpack_pack(b0: u8, b1: u8, b2: u8, b3: u8)
    ensures
        ({
            let v = b0 as nat + 256 * (b1 as nat) + 65536 * (b2 as nat) + 16777216 * (b3 as nat);
            &&& v < 0x1_0000_0000
            &&& v % 256 == b0 as nat
            &&& (v / 256) % 256 == b1 as nat
            &&& (v / 65536) % 256 == b2 as nat
            &&& (v / 16777216) % 256 == b3 as nat
        }),
{
    let x0 = b0 as u64;
    let x1 = b1 as u64;
    let x2 = b2 as u64;
    let x3 = b3 as u64;
    let x: u64 = (x0 + 256 * x1 + 65536 * x2 + 16777216 * x3) as u64;
    assert(x < 0x1_0000_0000 && x % 256 == x0 && (x / 256) % 256 == x1 && (x / 65536) % 256 == x2
        && (x / 16777216) % 256 == x3) by (bit_vector)
        requires
            x == x0 + 256 * x1 + 65536 * x2 + 16777216 * x3,
            x0 < 256,
            x1 < 256,
            x2 < 256,
            x3 < 256,
    ;
}

/// The encoding of `s` occupies exactly four bytes per element.
pub proof fn lemma_encode_len(s: Seq<nat>)
    ensures
        encode_elems(s).len() == 4 * s.len(),
    decreases s.len(),
{
    if s.len() > 0 {
        lemma_encode_len(s.subrange(1, s.len() as int));
    }
}

/// Appending one element to a sequence appends its four bytes to the encoding.
pub proof fn lemma_encode_push(s: Seq<nat>, v: nat)
    ensures
        encode_elems(s.push(v)) == encode_elems(s) + felt_bytes(v),
    decreases s.len(),
{
    if s.len() == 0 {
        assert(s.push(v)[0] == v);
        assert(s.push(v).subrange(1, 1) =~= Seq::<nat>::empty());
        assert(encode_elems(s.push(v)) == felt_bytes(v) + encode_elems(Seq::<nat>::empty()));
        assert(felt_bytes(v) + Seq::<u8>::empty() =~= Seq::<u8>::empty() + felt_bytes(v));
    } else {
        let sub = s.subrange(1, s.len() as int);
        assert(s.push(v)[0] == s[0]);
        assert(s.push(v).subrange(1, s.len() as int + 1) =~= sub.push(v));
        lemma_encode_push(sub, v);
        assert(encode_elems(s.push(v)) == felt_bytes(s[0]) + (encode_elems(sub) + felt_bytes(v)));
        assert(felt_bytes(s[0]) + (encode_elems(sub) + felt_bytes(v)) =~= (felt_bytes(s[0])
            + encode_elems(sub)) + felt_bytes(v));
        assert(encode_elems(s) == felt_bytes(s[0]) + encode_elems(sub));
    }
}

/// Round trip, element side: decoding the encoding of any sequence of
/// canonical representatives yields that sequence back, and the encoding is
/// itself well formed.
pub proof fn lemma_decode_encode(s: Seq<nat>)
    requires
        forall|j: int| 0 <= j < s.len() ==> s[j] < P as nat,
    ensures
        encode_elems(s).len() == 4 * s.len(),
        bytes_ok(encode_elems(s)),
        decode_elems(encode_elems(s)) == s,
    decreases s.len(),
{
    lemma_encode_len(s);
    let b = encode_elems(s);
    if s.len() == 0 {
        assert(decode_elems(b) =~= s);
    } else {
        let rest = s.subrange(1, s.len() as int);
        lemma_decode_encode(rest);
        lemma_encode_len(rest);
        let brest = encode_elems(rest);
        assert(b == felt_bytes(s[0]) + brest);
        assert forall|j: int| 0 <= j < s.len() implies chunk_val(b, j) == s[j] by {
            if j == 0 {
                lemma_pack_unpack(s[0]);
                assert(b[0] == felt_bytes(s[0])[0]);
                assert(b[1] == felt_bytes(s[0])[1]);
                assert(b[2] == felt_bytes(s[0])[2]);
                assert(b[3] == felt_bytes(s[0])[3]);
            } else {
                assert(chunk_val(brest, j - 1) == rest[j - 1]);
                assert(b[4 * j] == brest[4 * (j - 1)]);
                assert(b[4 * j + 1] == brest[4 * (j - 1) + 1]);
                assert(b[4 * j + 2] == brest[4 * (j - 1) + 2]);
                assert(b[4 * j + 3] == brest[4 * (j - 1) + 3]);
            }
        }
        assert(decode_elems(b) =~= s);
    }
}

/// Round trip, byte side: encoding the elements decoded from any byte
/// sequence of whole groups yields the bytes back.
#[verifier::rlimit(50)]
pub proof fn lemma_encode_decode(b: Seq<u8>)
    requires
        b.len() % 4 == 0,
    ensures
        encode_elems(decode_elems(b)) == b,
    decreases b.len(),
{
    let s = decode_elems(b);
    if b.len() == 0 {
        assert(encode_elems(s) =~= b);
    } else {
        assert(b.len() >= 4);
        let rest = b.subrange(4, b.len() as int);
        lemma_encode_decode(rest);
        lemma_unpack_pack(b[0], b[1], b[2], b[3]);
        assert(felt_bytes(s[0]) =~= b.subrange(0, 4));
        assert forall|j: int| 1 <= j < s.len() implies s[j] == decode_elems(rest)[j - 1] by {
            assert(rest[4 * (j - 1)] == b[4 * j]);
            assert(rest[4 * (j - 1) + 1] == b[4 * j + 1]);
            assert(rest[4 * (j - 1) + 2] == b[4 * j + 2]);
            assert(rest[4 * (j - 1) + 3] == b[4 * j + 3]);
        }
        assert(s.subrange(1, s.len() as int) =~= decode_elems(rest));
        assert(encode_elems(s) == felt_bytes(s[0]) + encode_elems(decode_elems(rest)));
        assert(encode_elems(s) =~= b);
    }
}

/// Encodes a slice of field elements into their concatenated canonical bytes.
pub fn elements_to_canonical_bytes(elements: &[Felt]) -> (r: Vec<u8>)
    ensures
        r@ == encode_elems(seq_val(elements@)),
{
    let mut bytes: Vec<u8> = Vec::new();
    let mut i: usize = 0;
    proof {
        assert(seq_val(elements@).subrange(0, 0) =~= Seq::<nat>::empty());
    }
    while i < elements.len()
        invariant
            i <= elements.len(),
            bytes@ == encode_elems(seq_val(elements@).subrange(0, i as int)),
        decreases elements.len() - i,
    {
        let v: u64 = elements[i].value();
        bytes.push((v % 256) as u8);
        bytes.push(((v / 256) % 256) as u8);
        bytes.push(((v / 65536) % 256) as u8);
        bytes.push(((v / 16777216) % 256) as u8);
        proof {
            let s = seq_val(elements@);
            assert(s.subrange(0, i + 1) =~= s.subrange(0, i as int).push(s[i as int]));
            lemma_encode_push(s.subrange(0, i as int), s[i as int]);
            assert(bytes@ =~= encode_elems(s.subrange(0, i as int)) + felt_bytes(s[i as int]));
        }
        i = i + 1;
    }
    proof {
        assert(seq_val(elements@).subrange(0, elements@.len() as int) =~= seq_val(elements@));
    }
    bytes
}

/// Decodes a byte region into field elements; rejects a region whose length
/// is not a whole number of groups, and any non-canonical group.
pub fn read_elements_into_vec(bytes: &[u8]) -> (r: Result<Vec<Felt>, DecodeError>)
    ensures
        r is Ok <==> bytes_ok(bytes@),
        r is Ok ==> seq_val(r->Ok_0@) == decode_elems(bytes@) && r->Ok_0@.len() == bytes@.len()
            / 4,
        r is Err ==> r->Err_0 == decode_failure(bytes@),
{
    if bytes.len() % 4 != 0 {
        return Err(DecodeError::InvalidLength);
    }
    let n: usize = bytes.len() / 4;
    proof {
        lemma_fundamental_div_mod(bytes@.len() as int, 4);
    }
    let mut out: Vec<Felt> = Vec::new();
    let mut i: usize = 0;
    while i < n
        invariant
            i <= n,
            bytes@.len() == 4 * n,
            bytes@.len() <= usize::MAX,
            out@.len() == i,
            forall|j: int|
                0 <= j < i ==> #[trigger] chunk_val(bytes@, j) < P as nat && out@[j]@ == chunk_val(
                    bytes@,
                    j,
                ),
        decreases n - i,
    {
        let b0 = bytes[4 * i] as u64;
        let b1 = bytes[4 * i + 1] as u64;
        let b2 = bytes[4 * i + 2] as u64;
        let b3 = bytes[4 * i + 3] as u64;
        let v: u64 = b0 + 256 * b1 + 65536 * b2 + 16777216 * b3;
        if v >= P {
            proof {
                assert(chunk_val(bytes@, i as int) == v as nat);
            }
            return Err(DecodeError::NonCanonical);
        }
        proof {
            assert(chunk_val(bytes@, i as int) == v as nat);
            lemma_small_mod(v as nat, P as nat);
        }
        let ghost prev = out@;
        out.push(Felt::new(v));
        proof {
            assert(out@[i as int]@ == chunk_val(bytes@, i as int));
            assert forall|j: int| 0 <= j < i + 1 implies #[trigger] chunk_val(bytes@, j)
                < P as nat && out@[j]@ == chunk_val(bytes@, j) by {
                if j < i {
                    assert(out@[j] == prev[j]);
                }
            }
        }
        i = i + 1;
    }
    proof {
        lemma_div_by_multiple(n as int, 4);
        assert(bytes@.len() / 4 == n);
        assert(seq_val(out@) =~= decode_elems(bytes@));
    }
    Ok(out)
}

} // verus!
