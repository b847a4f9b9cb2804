//! The canonical binary layout of contract event payloads: little-endian
//! fixed-width integers, one byte per boolean, 32-byte identifiers, and byte
//! sequences prefixed by their length in ULEB128.

use vstd::prelude::*;
use vstd::slice::{slice_subrange, slice_to_vec};

verus! {

/// The largest length a byte sequence may declare.
pub const MAX_SEQUENCE_LENGTH: u64 = 2147483647;

/// A 32-byte object identifier or account address, held as its first and last
/// sixteen bytes read big-endian.
#[derive(Clone, Copy, Debug, PartialEq, Eq, Hash, Structural)]
pub struct ObjectId {
    pub hi: u128,
    pub lo: u128,
}

/// The eight bytes `s[0..8]` read as a little-endian integer.
pub open spec fn le_u64(s: Seq<u8>) -> u64 {
    (s[0] as u64) | ((s[1] as u64) << 8u64) | ((s[2] as u64) << 16u64) | ((s[3] as u64) << 24u64)
        | ((s[4] as u64) << 32u64) | ((s[5] as u64) << 40u64) | ((s[6] as u64) << 48u64)
        | ((s[7] as u64) << 56u64)
}

/// The little-endian bytes of `v`.
pub open spec fn u64_bytes(v: u64) -> Seq<u8> {
    seq![
        v as u8,
        (v >> 8u64) as u8,
        (v >> 16u64) as u8,
        (v >> 24u64) as u8,
        (v >> 32u64) as u8,
        (v >> 40u64) as u8,
        (v >> 48u64) as u8,
        (v >> 56u64) as u8,
    ]
}

/// The sixteen bytes `s[0..16]` read as a big-endian integer.
pub open spec fn be_u128(s: Seq<u8>) -> u128 {
    ((s[0] as u128) << 120u128) | ((s[1] as u128) << 112u128) | ((s[2] as u128) << 104u128)
        | ((s[3] as u128) << 96u128) | ((s[4] as u128) << 88u128) | ((s[5] as u128) << 80u128)
        | ((s[6] as u128) << 72u128) | ((s[7] as u128) << 64u128) | ((s[8] as u128) << 56u128)
        | ((s[9] as u128) << 48u128) | ((s[10] as u128) << 40u128) | ((s[11] as u128) << 32u128)
        | ((s[12] as u128) << 24u128) | ((s[13] as u128) << 16u128) | ((s[14] as u128) << 8u128)
        | (s[15] as u128)
}

/// The big-endian bytes of `v`.
pub open spec fn u128_bytes(v: u128) -> Seq<u8> {
    seq![
        (v >> 120u128) as u8,
        (v >> 112u128) as u8,
        (v >> 104u128) as u8,
        (v >> 96u128) as u8,
        (v >> 88u128) as u8,
        (v >> 80u128) as u8,
        (v >> 72u128) as u8,
        (v >> 64u128) as u8,
        (v >> 56u128) as u8,
        (v >> 48u128) as u8,
        (v >> 40u128) as u8,
        (v >> 32u128) as u8,
        (v >> 24u128) as u8,
        (v >> 16u128) as u8,
        (v >> 8u128) as u8,
        v as u8,
    ]
}

/// The identifier held in the 32 bytes at offset `o`.
pub open spec fn id_at(s: Seq<u8>, o: int) -> ObjectId {
    ObjectId { hi: be_u128(s.subrange(o, o + 16)), lo: be_u128(s.subrange(o + 16, o + 32)) }
}

/// The integer held in the 8 bytes at offset `o`.
pub open spec fn u64_at(s: Seq<u8>, o: int) -> u64 {
    le_u64(s.subrange(o, o + 8))
}

/// The 32 bytes of an identifier.
pub open spec fn id_bytes(id: ObjectId) -> Seq<u8> {
    u128_bytes(id.hi) + u128_bytes(id.lo)
}

/// The byte of a boolean.
pub open spec fn bool_byte(b: bool) -> u8 {
    if b { 1 } else { 0 }
}

/// A byte holds a boolean when it is 0 or 1.
pub open spec fn is_bool_byte(x: u8) -> bool {
    x <= 1
}

pub proof fn lemma_u64_round_trip(v: u64)
    ensures
        le_u64(u64_bytes(v)) == v,
{
    assert(((v as u8) as u64) | ((((v >> 8u64) as u8) as u64) << 8u64) | ((((v >> 16u64) as u8) as u64) << 16u64)
        | ((((v >> 24u64) as u8) as u64) << 24u64) | ((((v >> 32u64) as u8) as u64) << 32u64)
        | ((((v >> 40u64) as u8) as u64) << 40u64) | ((((v >> 48u64) as u8) as u64) << 48u64)
        | ((((v >> 56u64) as u8) as u64) << 56u64) == v) by (bit_vector);
}

pub proof fn lemma_u128_round_trip(v: u128)
    ensures
        be_u128(u128_bytes(v)) == v,
{
    assert(((((v >> 120u128) as u8) as u128) << 120u128) | ((((v >> 112u128) as u8) as u128) << 112u128)
        | ((((v >> 104u128) as u8) as u128) << 104u128) | ((((v >> 96u128) as u8) as u128) << 96u128)
        | ((((v >> 88u128) as u8) as u128) << 88u128) | ((((v >> 80u128) as u8) as u128) << 80u128)
        | ((((v >> 72u128) as u8) as u128) << 72u128) | ((((v >> 64u128) as u8) as u128) << 64u128)
        | ((((v >> 56u128) as u8) as u128) << 56u128) | ((((v >> 48u128) as u8) as u128) << 48u128)
        | ((((v >> 40u128) as u8) as u128) << 40u128) | ((((v >> 32u128) as u8) as u128) << 32u128)
        | ((((v >> 24u128) as u8) as u128) << 24u128) | ((((v >> 16u128) as u8) as u128) << 16u128)
        | ((((v >> 8u128) as u8) as u128) << 8u128) | ((v as u8) as u128) == v) by (bit_vector);
}

/// Reading an identifier back from its bytes gives the identifier.
pub proof fn lemma_id_round_trip(s: Seq<u8>, o: int, id: ObjectId)
    requires
        0 <= o,
        o + 32 <= s.len(),
        s.subrange(o, o + 32) == id_bytes(id),
    ensures
        id_at(s, o) == id,
{
    assert(s.subrange(o, o + 16) =~= u128_bytes(id.hi)) by {
        assert forall|i: int| 0 <= i < 16 implies s.subrange(o, o + 16)[i] == u128_bytes(id.hi)[i] by {
            assert(s.subrange(o, o + 16)[i] == s.subrange(o, o + 32)[i]);
        }
    }
    assert(s.subrange(o + 16, o + 32) =~= u128_bytes(id.lo)) by {
        assert forall|i: int| 0 <= i < 16 implies s.subrange(o + 16, o + 32)[i] == u128_bytes(id.lo)[i] by {
            assert(s.subrange(o + 16, o + 32)[i] == s.subrange(o, o + 32)[i + 16]);
        }
    }
    lemma_u128_round_trip(id.hi);
    lemma_u128_round_trip(id.lo);
}

/// Reading an integer back from its bytes gives the integer.
pub proof fn lemma_u64_at_round_trip(s: Seq<u8>, o: int, v: u64)
    requires
        0 <= o,
        o + 8 <= s.len(),
        s.subrange(o, o + 8) == u64_bytes(v),
    ensures
        u64_at(s, o) == v,
{
    lemma_u64_round_trip(v);
}

/// Reads the little-endian integer at offset `o`.
pub fn read_u64(b: &[u8], o: usize) -> (r: u64)
    requires
        o + 8 <= b@.len(),
    ensures
        r == u64_at(b@, o as int),
{
    let ghost s = b@.subrange(o as int, o + 8);
    assert(s[0] == b@[o as int] && s[1] == b@[o + 1] && s[2] == b@[o + 2] && s[3] == b@[o + 3]);
    assert(s[4] == b@[o + 4] && s[5] == b@[o + 5] && s[6] == b@[o + 6] && s[7] == b@[o + 7]);
    (b[o] as u64) | ((b[o + 1] as u64) << 8u64) | ((b[o + 2] as u64) << 16u64) | ((b[o + 3] as u64) << 24u64)
        | ((b[o + 4] as u64) << 32u64) | ((b[o + 5] as u64) << 40u64) | ((b[o + 6] as u64) << 48u64)
        | ((b[o + 7] as u64) << 56u64)
}

fn read_u128_be(b: &[u8], o: usize) -> (r: u128)
    requires
        o + 16 <= b@.len(),
    ensures
        r == be_u128(b@.subrange(o as int, o + 16)),
{
    let ghost s = b@.subrange(o as int, o + 16);
    assert(forall|i: int| 0 <= i < 16 ==> s[i] == b@[o + i]);
    ((b[o] as u128) << 120u128) | ((b[o + 1] as u128) << 112u128) | ((b[o + 2] as u128) << 104u128)
        | ((b[o + 3] as u128) << 96u128) | ((b[o + 4] as u128) << 88u128) | ((b[o + 5] as u128) << 80u128)
        | ((b[o + 6] as u128) << 72u128) | ((b[o + 7] as u128) << 64u128) | ((b[o + 8] as u128) << 56u128)
        | ((b[o + 9] as u128) << 48u128) | ((b[o + 10] as u128) << 40u128) | ((b[o + 11] as u128) << 32u128)
        | ((b[o + 12] as u128) << 24u128) | ((b[o + 13] as u128) << 16u128) | ((b[o + 14] as u128) << 8u128)
        | (b[o + 15] as u128)
}

/// Reads the identifier at offset `o`.
pub fn read_id(b: &[u8], o: usize) -> (r: ObjectId)
    requires
        o + 32 <= b@.len(),
    ensures
        r == id_at(b@, o as int),
{
    let _n = b.len();
    ObjectId { hi: read_u128_be(b, o), lo: read_u128_be(b, o + 16) }
}

// ---------------------------------------------------------------------------
// Length prefixes and byte sequences
// ---------------------------------------------------------------------------

pub open spec fn pow128(k: nat) -> nat
    decreases k,
{
    if k == 0 { 1 } else { 128 * pow128((k - 1) as nat) }
}

/// A canonical ULEB128 number at the start of `s`: its value and how many bytes
/// it takes. A byte with the high bit set continues the number; a continuation
/// may not end in a zero group.
pub open spec fn uleb_parse(s: Seq<u8>) -> Option<(nat, nat)>
    decreases s.len(),
{
    if s.len() == 0 {
        None
    } else if s[0] < 128 {
        Some((s[0] as nat, 1))
    } else {
        match uleb_parse(s.drop_first()) {
            Some((v, k)) => if v > 0 { Some(((s[0] - 128) as nat + 128 * v, k + 1)) } else { None },
            None => None,
        }
    }
}

/// The canonical ULEB128 bytes of `n`.
pub open spec fn uleb_bytes(n: nat) -> Seq<u8>
    decreases n,
{
    if n < 128 {
        seq![n as u8]
    } else {
        seq![(n % 128 + 128) as u8] + uleb_bytes(n / 128)
    }
}

/// The byte sequence that starts at offset `o`: its bytes and the offset after it.
pub open spec fn text_at(s: Seq<u8>, o: int) -> Option<(Seq<u8>, int)> {
    match uleb_parse(s.subrange(o, s.len() as int)) {
        Some((n, k)) => if n <= MAX_SEQUENCE_LENGTH && o + k + n <= s.len() {
            Some((s.subrange(o + k, o + k + n), o + k + n))
        } else {
            None
        },
        None => None,
    }
}

/// The encoding of a byte sequence: its length, then its bytes.
pub open spec fn text_bytes(t: Seq<u8>) -> Seq<u8> {
    uleb_bytes(t.len()) + t
}

pub proof fn lemma_uleb_round_trip(n: nat, rest: Seq<u8>)
    ensures
        uleb_parse(uleb_bytes(n) + rest) == Some((n, uleb_bytes(n).len())),
    decreases n,
{
    let b = uleb_bytes(n) + rest;
    if n < 128 {
        assert(b[0] == n as u8);
    } else {
        lemma_uleb_round_trip(n / 128, rest);
        assert(b.drop_first() =~= uleb_bytes(n / 128) + rest);
        assert(b[0] == (n % 128 + 128) as u8);
    }
}

proof fn lemma_uleb_large(s: Seq<u8>, j: nat)
    requires
        j >= 1,
        j <= s.len(),
        forall|i: int| 0 <= i < j ==> s[i] >= 128,
    ensures
        uleb_parse(s) matches Some((v, k)) ==> v >= pow128(j),
    decreases j,
{
    reveal_with_fuel(pow128, 2);
    if j > 1 {
        lemma_uleb_large(s.drop_first(), (j - 1) as nat);
    }
}

proof fn lemma_uleb_unterminated(s: Seq<u8>)
    requires
        forall|i: int| 0 <= i < s.len() ==> s[i] >= 128,
    ensures
        uleb_parse(s) is None,
    decreases s.len(),
{
    if s.len() > 0 {
        lemma_uleb_unterminated(s.drop_first());
    }
}

/// A failure to read a suffix of continuation bytes fails the whole number.
proof fn lemma_uleb_none_up(s: Seq<u8>, j: nat)
    requires
        j <= s.len(),
        forall|i: int| 0 <= i < j ==> s[i] >= 128,
        uleb_parse(s.subrange(j as int, s.len() as int)) is None,
    ensures
        uleb_parse(s) is None,
    decreases j,
{
    if j == 0 {
        assert(s.subrange(0, s.len() as int) =~= s);
    } else {
        assert(s.drop_first().subrange((j - 1) as int, s.drop_first().len() as int) =~= s.subrange(j as int, s.len() as int));
        lemma_uleb_none_up(s.drop_first(), (j - 1) as nat);
    }
}

/// Reads the ULEB128 length prefix at `o`: its value and the offset after it.
fn read_length(b: &[u8], o: usize) -> (r: Option<(u64, usize)>)
    requires
        o <= b@.len(),
    ensures
        match uleb_parse(b@.subrange(o as int, b@.len() as int)) {
            Some((v, k)) => if v <= MAX_SEQUENCE_LENGTH {
                o + k <= b@.len() && r == Some((v as u64, (o + k) as usize))
            } else {
                r is None
            },
            None => r is None,
        },
        r matches Some((v, e)) ==> o < e <= b@.len(),
{
    let n = b.len();
    let ghost s = b@.subrange(o as int, n as int);
    let mut e: usize = 0;
    loop
        invariant
            e < 5,
            o + e <= n,
            n == b@.len(),
            s == b@.subrange(o as int, n as int),
            forall|i: int| 0 <= i < e ==> s[i] >= 128,
        ensures
            e < 5,
            o + e < n,
            n == b@.len(),
            s == b@.subrange(o as int, n as int),
            forall|i: int| 0 <= i < e ==> s[i] >= 128,
            s[e as int] < 128,
        decreases 5 - e,
    {
        if o + e >= n {
            proof {
                lemma_uleb_unterminated(s);
            }
            return None;
        }
        if b[o + e] < 128 {
            break;
        }
        e = e + 1;
        if e == 5 {
            proof {
                lemma_uleb_large(s, 5);
                reveal_with_fuel(pow128, 6);
            }
            return None;
        }
    }
    let mut acc: u64 = b[o + e] as u64;
    let mut j: usize = e;
    proof {
        let t = s.subrange(e as int, s.len() as int);
        assert(t[0] == s[e as int]);
        reveal_with_fuel(pow128, 2);
    }
    while j > 0
        invariant
            j <= e,
            e < 5,
            o + e < n,
            n == b@.len(),
            s == b@.subrange(o as int, n as int),
            forall|i: int| 0 <= i < e ==> s[i] >= 128,
            uleb_parse(s.subrange(j as int, s.len() as int)) == Some((acc as nat, (e - j + 1) as nat)),
            acc < pow128((e - j + 1) as nat),
        decreases j,
    {
        let ghost t = s.subrange(j - 1, s.len() as int);
        proof {
            assert(t.drop_first() =~= s.subrange(j as int, s.len() as int));
            assert(t[0] == s[j - 1]);
        }
        if acc == 0 {
            proof {
                lemma_uleb_none_up(s, (j - 1) as nat);
            }
            return None;
        }
        proof {
            assert(pow128((e - j + 1) as nat) <= pow128(5)) by {
                reveal_with_fuel(pow128, 6);
            }
            reveal_with_fuel(pow128, 6);
        }
        acc = (b[o + j - 1] - 128) as u64 + 128 * acc;
        j = j - 1;
    }
    assert(s.subrange(0, s.len() as int) =~= s);
    if acc > MAX_SEQUENCE_LENGTH {
        None
    } else {
        Some((acc, o + e + 1))
    }
}

/// Reads the length-prefixed byte sequence at `o`: its bytes and the offset after it.
pub fn read_text(b: &[u8], o: usize) -> (r: Option<(Vec<u8>, usize)>)
    requires
        o <= b@.len(),
    ensures
        match text_at(b@, o as int) {
            Some((t, e)) => r matches Some((v, e2)) && v@ == t && e2 == e,
            None => r is None,
        },
{
    let ghost s = b@.subrange(o as int, b@.len() as int);
    let n = b.len();
    let rl = read_length(b, o);
    match rl {
        None => None,
        Some((len, start)) => {
            proof {
                match uleb_parse(s) {
                    Some((v, k)) => {
                        assert(v <= MAX_SEQUENCE_LENGTH);
                        assert(start == o + k);
                        assert(len == v);
                    },
                    None => {},
                }
            }
            if len as usize > n - start {
                None
            } else {
                let end = start + len as usize;
                let v = slice_to_vec(slice_subrange(b, start, end));
                Some((v, end))
            }
        },
    }
}

/// A slice of the second part of a concatenation.
pub proof fn lemma_subrange_of_tail(a: Seq<u8>, t: Seq<u8>, i: int, j: int)
    requires
        0 <= i <= j <= t.len(),
    ensures
        (a + t).subrange(a.len() + i, a.len() + j) == t.subrange(i, j),
{
    assert((a + t).subrange(a.len() + i, a.len() + j) =~= t.subrange(i, j));
}

/// Reading a byte sequence back from its encoding gives the sequence.
pub proof fn lemma_text_round_trip(s: Seq<u8>, o: int, t: Seq<u8>)
    requires
        0 <= o,
        t.len() <= MAX_SEQUENCE_LENGTH,
        o + text_bytes(t).len() <= s.len(),
        s.subrange(o, o + text_bytes(t).len()) == text_bytes(t),
    ensures
        text_at(s, o) == Some((t, o + text_bytes(t).len())),
{
    let k = uleb_bytes(t.len()).len();
    let rest = s.subrange(o + k, s.len() as int);
    assert(s.subrange(o, s.len() as int) =~= uleb_bytes(t.len()) + rest) by {
        assert forall|i: int| 0 <= i < k implies s.subrange(o, s.len() as int)[i] == uleb_bytes(t.len())[i] by {
            assert(s.subrange(o, s.len() as int)[i] == s.subrange(o, o + text_bytes(t).len())[i]);
        }
    }
    lemma_uleb_round_trip(t.len(), rest);
    assert(s.subrange(o + k, o + k + t.len()) =~= t) by {
        assert forall|i: int| 0 <= i < t.len() implies s.subrange(o + k, o + k + t.len())[i] == t[i] by {
            assert(s.subrange(o + k, o + k + t.len())[i] == s.subrange(o, o + text_bytes(t).len())[k + i]);
        }
    }
}

} // verus!
