//! Validator labels as the proof-of-stake contract stores them among its named
//! keys: `v_{public key in hex}_{bond in decimal}`.

use vstd::prelude::*;
use vstd::string::StringSliceAdditionalSpecFns;
use crate::text::{ascii_text, is_ascii_bytes, lemma_ascii_text_bytes, string_from_ascii};
use vstd::utf8::encode_utf8;
use crate::uint::{dec_digits, dec_parse, lemma_dec_digits_value, u512_bound, U512};

verus! {

/// A 32-byte account public key.
#[derive(Debug, Clone, Copy)]
pub struct PublicKey {
    value: [u8; 32],
}

impl View for PublicKey {
    type V = Seq<u8>;

    closed spec fn view(&self) -> Seq<u8> {
        self.value@
    }
}

impl PublicKey {
    pub fn new(value: [u8; 32]) -> (r: PublicKey)
        ensures
            r@ == value@,
    {
        PublicKey { value }
    }

    /// The key's bytes as an array.
    pub closed spec fn spec_value(&self) -> [u8; 32] {
        self.value
    }

    /// A public key is 32 bytes long.
    pub proof fn lemma_len(&self)
        ensures
            self@.len() == 32,
    {
    }

    pub fn value(&self) -> (r: [u8; 32])
        ensures
            r@ == self@,
            r == self.spec_value(),
    {
        self.value
    }
}

/// The lowercase hexadecimal digit for `n < 16`.
pub open spec fn hex_char(n: nat) -> u8 {
    if n < 10 {
        (48 + n) as u8
    } else {
        (87 + n) as u8
    }
}

/// Two lowercase hexadecimal digits for each byte, high digit first.
pub open spec fn hex_of(b: Seq<u8>) -> Seq<u8> {
    Seq::new(
        2 * b.len(),
        |i: int|
            if i % 2 == 0 {
                hex_char(b[i / 2] as nat / 16)
            } else {
                hex_char(b[i / 2] as nat % 16)
            },
    )
}

/// The value of one hexadecimal digit of either case.
pub open spec fn hex_digit_value(c: u8) -> Option<nat> {
    if 48 <= c <= 57 {
        Some((c - 48) as nat)
    } else if 97 <= c <= 102 {
        Some((c - 87) as nat)
    } else if 65 <= c <= 70 {
        Some((c - 55) as nat)
    } else {
        None
    }
}

/// The byte that two characters spell in base 16; a leading `+` is taken as a
/// sign, as Rust's radix parsing of unsigned integers does.
pub open spec fn hex_pair_value(h: u8, l: u8) -> Option<u8> {
    match (hex_digit_value(h), hex_digit_value(l)) {
        (Some(a), Some(b)) => Some((16 * a + b) as u8),
        (None, Some(b)) => if h == 43 {
            Some(b as u8)
        } else {
            None
        },
        _ => None,
    }
}

/// The label under which the proof-of-stake contract keeps a validator's bond.
pub open spec fn validator_key_bytes(pk: Seq<u8>, stakes: nat) -> Seq<u8> {
    seq![118u8, 95u8] + hex_of(pk) + seq![95u8] + dec_digits(stakes)
}

/// Where the `_`-separated segment that starts at `start` ends.
pub open spec fn segment_end(s: Seq<u8>, start: int) -> int
    decreases s.len() - start,
{
    if start >= s.len() || start < 0 {
        s.len() as int
    } else if s[start] == 95 {
        start
    } else {
        segment_end(s, start + 1)
    }
}

/// Whether the first 32 character pairs of `h` each spell a byte.
pub open spec fn hex_key_ok(h: Seq<u8>) -> bool {
    h.len() >= 64 && forall|i: int| 0 <= i < 32 ==> (#[trigger] hex_pair_value(h[2 * i], h[2 * i + 1])) is Some
}

/// The 32 bytes spelled by the first 64 characters of `h`.
pub open spec fn hex_key_bytes(h: Seq<u8>) -> Seq<u8> {
    Seq::new(32, |i: int| hex_pair_value(h[2 * i], h[2 * i + 1])->0)
}

/// What a label parses to: the first segment is `v`, the second holds the key
/// in its first 64 characters, the third the bond in decimal; segments after
/// the third are not read.
pub open spec fn validator_bond_parse(s: Seq<u8>) -> Option<(Seq<u8>, nat)> {
    if s.len() >= 2 && s[0] == 118 && s[1] == 95 {
        let e1 = segment_end(s, 2);
        let h = s.subrange(2, e1);
        if hex_key_ok(h) && e1 < s.len() {
            let e2 = segment_end(s, e1 + 1);
            match dec_parse(s.subrange(e1 + 1, e2), u512_bound()) {
                Some(v) => Some((hex_key_bytes(h), v)),
                None => None,
            }
        } else {
            None
        }
    } else {
        None
    }
}

fn hex_digit(n: u8) -> (r: u8)
    requires
        n < 16,
    ensures
        r == hex_char(n as nat),
{
    if n < 10 {
        48 + n
    } else {
        87 + n
    }
}

/// Lowercase hexadecimal digits of the bytes.
pub fn hex_bytes(b: &[u8]) -> (r: Vec<u8>)
    ensures
        r@ == hex_of(b@),
{
    let mut r: Vec<u8> = Vec::new();
    let mut i: usize = 0;
    while i < b.len()
        invariant
            i <= b@.len(),
            r@ =~= hex_of(b@).take(2 * i as int),
        decreases b@.len() - i,
    {
        let x = b[i];
        r.push(hex_digit(x / 16));
        r.push(hex_digit(x % 16));
        i += 1;
        assert(r@ =~= hex_of(b@).take(2 * i as int));
    }
    assert(hex_of(b@).take(2 * b@.len() as int) =~= hex_of(b@));
    r
}

pub proof fn lemma_hex_ascii(b: Seq<u8>)
    ensures
        is_ascii_bytes(hex_of(b)),
        forall|i: int| 0 <= i < hex_of(b).len() ==> #[trigger] hex_of(b)[i] != 95,
{
}

/// The address in lowercase hexadecimal.
pub fn addr_to_hex(addr: &[u8; 32]) -> (r: String)
    ensures
        r@ == ascii_text(hex_of(addr@)),
{
    let h = hex_bytes(addr.as_slice());
    proof {
        lemma_hex_ascii(addr@);
    }
    string_from_ascii(h)
}

/// Label of a validator with the given bond, as the proof-of-stake contract
/// constructs it.
pub fn pos_validator_key(pk: PublicKey, stakes: U512) -> (r: String)
    ensures
        r@ == ascii_text(validator_key_bytes(pk@, stakes@)),
{
    let mut b: Vec<u8> = vec![118u8, 95u8];
    let mut h = hex_bytes(pk.value.as_slice());
    b.append(&mut h);
    b.push(95u8);
    let mut d = stakes.to_dec_bytes();
    b.append(&mut d);
    proof {
        lemma_hex_ascii(pk@);
        lemma_dec_digits_value(stakes@);
        assert(b@ =~= validator_key_bytes(pk@, stakes@));
    }
    string_from_ascii(b)
}

fn hex_digit_value_of(c: u8) -> (r: Option<u8>)
    ensures
        match hex_digit_value(c) {
            Some(v) => r == Some(v as u8),
            None => r is None,
        },
{
    if 48 <= c && c <= 57 {
        Some(c - 48)
    } else if 97 <= c && c <= 102 {
        Some(c - 87)
    } else if 65 <= c && c <= 70 {
        Some(c - 55)
    } else {
        None
    }
}

fn hex_pair(h: u8, l: u8) -> (r: Option<u8>)
    ensures
        r == hex_pair_value(h, l),
{
    match (hex_digit_value_of(h), hex_digit_value_of(l)) {
        (Some(a), Some(b)) => Some(16 * a + b),
        (None, Some(b)) => if h == 43 {
            Some(b)
        } else {
            None
        },
        _ => None,
    }
}

fn segment_end_of(s: &[u8], start: usize) -> (r: usize)
    requires
        start <= s@.len(),
    ensures
        r as int == segment_end(s@, start as int),
        start <= r <= s@.len(),
{
    let mut i: usize = start;
    while i < s.len() && s[i] != 95
        invariant
            start <= i <= s@.len(),
            segment_end(s@, start as int) == segment_end(s@, i as int),
        decreases s@.len() - i,
    {
        i += 1;
    }
    i
}

/// Parses a label made by `pos_validator_key` back into the key and the bond.
pub fn pos_validator_to_tuple(pos_bond: &str) -> (r: Option<(PublicKey, U512)>)
    ensures
        match validator_bond_parse(pos_bond.spec_bytes()) {
            Some((k, v)) => match r {
                Some(t) => t.0@ == k && t.1@ == v,
                None => false,
            },
            None => r is None,
        },
{
    let s = pos_bond.as_bytes();
    if s.len() < 2 || s[0] != 118 || s[1] != 95 {
        return None;
    }
    let e1 = segment_end_of(s, 2);
    let ghost h = s@.subrange(2, e1 as int);
    if e1 - 2 < 64 {
        return None;
    }
    let mut key: [u8; 32] = [0u8; 32];
    let mut i: usize = 0;
    while i < 32
        invariant
            i <= 32,
            e1 - 2 >= 64,
            e1 <= s@.len(),
            e1 as int == segment_end(s@, 2),
            s@ == pos_bond.spec_bytes(),
            s@.len() >= 2 && s@[0] == 118 && s@[1] == 95,
            h == s@.subrange(2, e1 as int),
            forall|j: int| 0 <= j < i ==> (#[trigger] hex_pair_value(h[2 * j], h[2 * j + 1])) is Some,
            forall|j: int| 0 <= j < i ==> key@[j] == hex_key_bytes(h)[j],
        decreases 32 - i,
    {
        match hex_pair(s[2 + 2 * i], s[3 + 2 * i]) {
            Some(b) => {
                key[i] = b;
            },
            None => {
                assert(h[2 * i as int] == s@[2 + 2 * i as int]);
                assert(h[2 * i as int + 1] == s@[3 + 2 * i as int]);
                assert(!hex_key_ok(h));
                assert(hex_pair_value(h[2 * i as int], h[2 * i as int + 1]) is None);
                return None;
            },
        }
        i += 1;
    }
    assert(key@ =~= hex_key_bytes(h));
    if e1 >= s.len() {
        return None;
    }
    let e2 = segment_end_of(s, e1 + 1);
    let digits = vstd::slice::slice_subrange(s, e1 + 1, e2);
    match U512::from_dec_bytes(digits) {
        Some(v) => Some((PublicKey { value: key }, v)),
        None => None,
    }
}


proof fn lemma_segment_end(s: Seq<u8>, start: int, e: int)
    requires
        0 <= start <= e <= s.len(),
        forall|k: int| start <= k < e ==> s[k] != 95,
        e == s.len() || s[e] == 95,
    ensures
        segment_end(s, start) == e,
    decreases e - start,
{
    if start < e {
        lemma_segment_end(s, start + 1, e);
    }
}

proof fn lemma_hex_digit_round_trip(n: nat)
    requires
        n < 16,
    ensures
        hex_digit_value(hex_char(n)) == Some(n),
{
}

proof fn lemma_hex_pair_round_trip(b: u8)
    ensures
        hex_pair_value(hex_char(b as nat / 16), hex_char(b as nat % 16)) == Some(b),
{
    lemma_hex_digit_round_trip(b as nat / 16);
    lemma_hex_digit_round_trip(b as nat % 16);
}

proof fn lemma_validator_key_round_trip(pk: Seq<u8>, stakes: nat)
    requires
        pk.len() == 32,
        stakes < u512_bound(),
    ensures
        validator_bond_parse(validator_key_bytes(pk, stakes)) == Some((pk, stakes)),
{
    let s = validator_key_bytes(pk, stakes);
    let hx = hex_of(pk);
    let d = dec_digits(stakes);
    lemma_dec_digits_value(stakes);
    lemma_hex_ascii(pk);
    assert(s.len() == 67 + d.len());
    assert forall|k: int| 2 <= k < 66 implies s[k] != 95 by {
        assert(s[k] == hx[k - 2]);
    }
    lemma_segment_end(s, 2, 66);
    assert forall|k: int| 67 <= k < s.len() implies s[k] != 95 by {
        assert(s[k] == d[k - 67]);
    }
    lemma_segment_end(s, 67, s.len() as int);
    let h = s.subrange(2, 66);
    assert(h =~= hx);
    assert forall|i: int| 0 <= i < 32 implies (#[trigger] hex_pair_value(h[2 * i], h[2 * i + 1]))
        == Some(pk[i]) by {
        lemma_hex_pair_round_trip(pk[i]);
        assert(h[2 * i] == hex_char(pk[i] as nat / 16));
        assert(h[2 * i + 1] == hex_char(pk[i] as nat % 16));
    }
    assert(hex_key_bytes(h) =~= pk);
    assert(s.subrange(67, s.len() as int) =~= d);
}


/// Every label that `pos_validator_key` makes for a 32-byte key and a bond that
/// fits in 512 bits parses back, by `pos_validator_to_tuple`, to that key and
/// bond: the label's text is ASCII, so its bytes are the label bytes.
pub proof fn lemma_validator_label_round_trip(pk: Seq<u8>, stakes: nat)
    requires
        pk.len() == 32,
        stakes < u512_bound(),
    ensures
        validator_bond_parse(encode_utf8(ascii_text(validator_key_bytes(pk, stakes)))) == Some(
            (pk, stakes),
        ),
{
    let b = validator_key_bytes(pk, stakes);
    let d = dec_digits(stakes);
    lemma_dec_digits_value(stakes);
    lemma_hex_ascii(pk);
    assert forall|i: int| 0 <= i < b.len() implies #[trigger] b[i] < 128 by {
        if i >= 67 {
            assert(b[i] == d[i - 67]);
        } else if i >= 2 && i < 66 {
            assert(b[i] == hex_of(pk)[i - 2]);
        }
    }
    lemma_ascii_text_bytes(b);
    lemma_validator_key_round_trip(pk, stakes);
}

} // verus!
