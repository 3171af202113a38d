use vstd::prelude::*;

use crate::crypto::{sha256, sha256_digest};
use crate::encoding::{
    hex_decode, hex_decode_result, hex_decode_spec, hex_encode, hex_encode_spec, is_valid_hex,
    lemma_hex_encode_len, lemma_hex_roundtrip, HexError,
};
use vstd::arithmetic::power2::{lemma2_to64, lemma_pow2_adds, lemma_pow2_pos, pow2};
use vstd::string::{StrSliceExecFns, StringSliceAdditionalSpecFns};

verus! {

/// Highest set bit of a non-zero byte (0 for the least significant bit).
pub open spec fn highest_bit(b: u8) -> int {
    if b >= 128 {
        7
    } else if b >= 64 {
        6
    } else if b >= 32 {
        5
    } else if b >= 16 {
        4
    } else if b >= 8 {
        3
    } else if b >= 4 {
        2
    } else if b >= 2 {
        1
    } else {
        0
    }
}

/// Byte-wise XOR of two byte strings.
pub open spec fn xor_bytes(a: Seq<u8>, b: Seq<u8>) -> Seq<u8> {
    Seq::new(a.len(), |i: int| a[i] ^ b[i])
}

/// Position of the highest set bit of a big-endian bit string, counted from its
/// least significant bit; `None` when every bit is zero.
pub open spec fn highest_set_bit(d: Seq<u8>) -> Option<int>
    decreases d.len(),
{
    if d.len() == 0 {
        None
    } else if d[0] != 0 {
        Some((d.len() - 1) * 8 + highest_bit(d[0]))
    } else {
        highest_set_bit(d.drop_first())
    }
}

/// A big-endian byte string read as a natural number.
pub open spec fn be_value(d: Seq<u8>) -> nat
    decreases d.len(),
{
    if d.len() == 0 {
        0
    } else {
        d[0] as nat * pow2((8 * (d.len() - 1)) as nat) + be_value(d.drop_first())
    }
}

/// The highest set bit of a non-zero byte `b` is the `h` with
/// `2^h <= b < 2^(h+1)`.
pub proof fn lemma_highest_bit_bounds(b: u8)
    requires
        b != 0,
    ensures
        0 <= highest_bit(b) < 8,
        pow2(highest_bit(b) as nat) <= b < pow2((highest_bit(b) + 1) as nat),
{
    lemma2_to64();
}

/// A byte string of `n` bytes reads as a number below `2^(8n)`.
pub proof fn lemma_be_value_bound(d: Seq<u8>)
    ensures
        be_value(d) < pow2((8 * d.len()) as nat),
    decreases d.len(),
{
    lemma2_to64();
    if d.len() > 0 {
        let rest = d.drop_first();
        let p = pow2((8 * rest.len()) as nat);
        lemma_be_value_bound(rest);
        lemma_pow2_adds(8, (8 * rest.len()) as nat);
        assert((8 + 8 * rest.len()) as nat == (8 * d.len()) as nat);
        let d0 = d[0] as nat;
        assert(d0 * p + be_value(rest) < 256 * p) by (nonlinear_arith)
            requires
                d0 < 256,
                be_value(rest) < p,
        ;
    }
}

/// The highest set bit of a big-endian bit string is where its value lies
/// between powers of two: `Some(i)` exactly when `2^i <= value < 2^(i+1)`
/// (bit `i` is set and every higher bit is clear), and `None` exactly when the
/// value is zero.
pub proof fn lemma_highest_set_bit_value(d: Seq<u8>)
    ensures
        match highest_set_bit(d) {
            Some(i) => 0 <= i < 8 * d.len() && pow2(i as nat) <= be_value(d) < pow2((i + 1) as nat),
            None => be_value(d) == 0,
        },
    decreases d.len(),
{
    if d.len() > 0 {
        let rest = d.drop_first();
        let e = (8 * rest.len()) as nat;
        let p = pow2(e);
        lemma_highest_set_bit_value(rest);
        lemma_be_value_bound(rest);
        lemma_pow2_pos(e);
        if d[0] != 0 {
            let h = highest_bit(d[0]);
            lemma_highest_bit_bounds(d[0]);
            let d0 = d[0] as nat;
            let lo = pow2(h as nat);
            let hi = pow2((h + 1) as nat);
            lemma_pow2_adds(e, h as nat);
            lemma_pow2_adds(e, (h + 1) as nat);
            assert((e + h) as nat == ((d.len() - 1) * 8 + h) as nat);
            assert((e + h + 1) as nat == ((d.len() - 1) * 8 + h + 1) as nat);
            assert(p * lo <= d0 * p + be_value(rest) < p * hi) by (nonlinear_arith)
                requires
                    lo <= d0 < hi,
                    be_value(rest) < p,
            ;
        } else {
            let d0 = d[0] as nat;
            assert(d0 == 0);
            assert(d0 * p == 0) by (nonlinear_arith)
                requires
                    d0 == 0,
            ;
        }
    }
}

/// Lexicographic order on byte strings of equal length (the order of `[u8; N]`).
pub open spec fn lex_lt(a: Seq<u8>, b: Seq<u8>) -> bool
    decreases a.len(),
{
    if a.len() == 0 || b.len() == 0 {
        false
    } else if a[0] < b[0] {
        true
    } else if a[0] > b[0] {
        false
    } else {
        lex_lt(a.drop_first(), b.drop_first())
    }
}

/// The bytes a string of hex digits decodes to have half its length.
pub proof fn lemma_hex_decode_len(s: Seq<char>)
    requires
        s.len() % 2 == 0,
    ensures
        hex_decode_spec(s).len() == s.len() / 2,
    decreases s.len(),
{
    if s.len() >= 2 {
        lemma_hex_decode_len(s.subrange(2, s.len() as int));
    }
}

/// What `NodeId::from_hex` reports for a string of ASCII characters that is
/// not the hex encoding of 20 bytes.
pub open spec fn from_hex_error(s: Seq<char>) -> HexError {
    match hex_decode_result(s) {
        Err(e) => e,
        Ok(_) => HexError::InvalidStringLength,
    }
}

/// The identifier of a string: the first 20 bytes of the SHA-256 of its UTF-8
/// encoding.
pub open spec fn string_id(s: Seq<char>) -> Seq<u8> {
    sha256_digest(vstd::utf8::encode_utf8(s)).subrange(0, 20)
}

/// `rand::random`: 20 random bytes.
#[verifier::external_body]
fn random_id_bytes() -> [u8; 20] {
    rand::random::<[u8; 20]>()
}

/// A 160-bit node identifier of the DHT.
#[derive(Clone, Copy, Debug, Hash, PartialOrd, Ord)]
pub struct NodeId([u8; 20]);

impl View for NodeId {
    type V = Seq<u8>;

    closed spec fn view(&self) -> Seq<u8> {
        self.0@
    }
}

impl PartialEq for NodeId {
    fn eq(&self, other: &NodeId) -> (r: bool) {
        let mut i: usize = 0;
        while i < 20
            invariant
                0 <= i <= 20,
                forall|j: int| 0 <= j < i ==> self@[j] == other@[j],
            decreases 20 - i,
        {
            if self.0[i] != other.0[i] {
                return false;
            }
            i += 1;
        }
        proof {
            lemma_view_eq(*self, *other);
        }
        true
    }
}

impl vstd::std_specs::cmp::PartialEqSpecImpl for NodeId {
    open spec fn obeys_eq_spec() -> bool {
        true
    }

    open spec fn eq_spec(&self, other: &NodeId) -> bool {
        self@ == other@
    }
}

impl Eq for NodeId {}

/// Identifiers with the same bytes are the same identifier.
pub proof fn lemma_view_eq(a: NodeId, b: NodeId)
    ensures
        a@ =~= b@ <==> a == b,
{
    if a@ =~= b@ {
        assert(a.0 =~= b.0);
    }
}

/// Every identifier is 20 bytes long.
pub broadcast proof fn lemma_node_id_len(id: NodeId)
    ensures
        #[trigger] id@.len() == 20,
{
}

impl NodeId {
    /// Create a new NodeId from raw bytes.
    pub fn new(bytes: [u8; 20]) -> (id: NodeId)
        ensures
            id@ == bytes@,
    {
        NodeId(bytes)
    }

    /// A random identifier.
    pub fn random() -> NodeId {
        NodeId(random_id_bytes())
    }

    /// The identifier of a string: the first 160 bits of the SHA-256 of its
    /// UTF-8 bytes.
    pub fn from_string(s: &str) -> (id: NodeId)
        ensures
            id@ == string_id(s@),
    {
        let hash = sha256(s.as_bytes());
        let mut bytes = [0u8; 20];
        for i in 0..20
            invariant
                hash@ == sha256_digest(s.spec_bytes()),
                hash@.len() == 32,
                bytes@.len() == 20,
                forall|j: int| 0 <= j < i ==> bytes@[j] == hash@[j],
        {
            bytes[i] = hash[i];
        }
        assert(bytes@ =~= hash@.subrange(0, 20));
        NodeId(bytes)
    }

    /// Lowercase hex of the 20 bytes.
    pub fn to_hex(&self) -> (s: String)
        ensures
            s@ == hex_encode_spec(self@),
    {
        hex_encode(self.0.as_slice())
    }

    /// The identifier whose hex encoding is `s` (digits of either case).
    pub fn from_hex(s: &str) -> (r: Result<NodeId, HexError>)
        ensures
            r is Ok <==> is_valid_hex(s@) && s@.len() == 40,
            r matches Ok(id) ==> id@ == hex_decode_spec(s@),
            vstd::string::is_ascii(s) && r is Err ==> r == Err::<NodeId, HexError>(
                from_hex_error(s@),
            ),
    {
        let bytes = match hex_decode(s) {
            Ok(b) => b,
            Err(e) => {
                return Err(e);
            },
        };
        proof {
            lemma_hex_decode_len(s@);
        }
        if bytes.len() != 20 {
            return Err(HexError::InvalidStringLength);
        }
        let mut array = [0u8; 20];
        for i in 0..20
            invariant
                bytes@.len() == 20,
                array@.len() == 20,
                forall|j: int| 0 <= j < i ==> array@[j] == bytes@[j],
        {
            array[i] = bytes[i];
        }
        assert(array@ =~= bytes@);
        Ok(NodeId(array))
    }

    /// The first eight hex digits: how an identifier is shown.
    pub fn short_hex(&self) -> (s: String)
        ensures
            s@ == hex_encode_spec(self@).subrange(0, 8),
    {
        let full = self.to_hex();
        proof {
            lemma_hex_encode_len(self@);
            lemma_hex_roundtrip(self@);
            assert forall|i: int| 0 <= i < full@.len() implies #[trigger] full@[i] < 128 by {
                assert(crate::encoding::is_hex_digit(full@[i]));
            }
        }
        String::from_str(full.as_str().substring_ascii(0, 8))
    }

    /// XOR distance between two identifiers, the metric of Kademlia.
    pub fn distance(&self, other: &NodeId) -> (d: NodeId)
        ensures
            d@ == xor_bytes(self@, other@),
    {
        let mut result = [0u8; 20];
        for i in 0..20
            invariant
                result@.len() == 20,
                forall|j: int| 0 <= j < i ==> result@[j] == self@[j] ^ other@[j],
        {
            result[i] = self.0[i] ^ other.0[i];
        }
        assert(result@ =~= xor_bytes(self@, other@));
        NodeId(result)
    }

    /// Index of the k-bucket that `other` falls into as seen from `self`: the
    /// position of the highest bit in which the two identifiers differ, counted
    /// from the least significant bit (0..=159); `None` for equal identifiers.
    pub fn bucket_index(&self, other: &NodeId) -> (r: Option<usize>)
        ensures
            r matches Some(i) ==> highest_set_bit(xor_bytes(self@, other@)) == Some(i as int),
            r is None ==> highest_set_bit(xor_bytes(self@, other@)) is None,
            r matches Some(i) ==> i < 160 && pow2(i as nat) <= be_value(xor_bytes(self@, other@)) < pow2(
                (i + 1) as nat,
            ),
            r is None ==> be_value(xor_bytes(self@, other@)) == 0,
    {
        let distance = self.distance(other);
        let ghost d = distance@;
        let mut byte_idx: usize = 0;
        assert(d.subrange(0, 20) =~= d);
        while byte_idx < 20
            invariant
                0 <= byte_idx <= 20,
                d == distance@,
                d == xor_bytes(self@, other@),
                d.len() == 20,
                highest_set_bit(d) == highest_set_bit(d.subrange(byte_idx as int, 20)),
            decreases 20 - byte_idx,
        {
            let byte = distance.0[byte_idx];
            let ghost rest = d.subrange(byte_idx as int, 20);
            if byte != 0 {
                let bit_idx: usize = if byte >= 128 {
                    7
                } else if byte >= 64 {
                    6
                } else if byte >= 32 {
                    5
                } else if byte >= 16 {
                    4
                } else if byte >= 8 {
                    3
                } else if byte >= 4 {
                    2
                } else if byte >= 2 {
                    1
                } else {
                    0
                };
                assert(rest[0] == byte);
                assert(bit_idx == highest_bit(byte));
                assert(highest_set_bit(rest) == Some((rest.len() - 1) * 8 + highest_bit(rest[0])));
                proof {
                    lemma_highest_set_bit_value(d);
                }
                return Some((19 - byte_idx) * 8 + bit_idx);
            }
            assert(rest.drop_first() =~= d.subrange(byte_idx + 1, 20));
            byte_idx += 1;
        }
        assert(d.subrange(20, 20).len() == 0);
        proof {
            lemma_highest_set_bit_value(d);
        }
        None
    }

    /// The raw bytes.
    pub fn as_bytes(&self) -> (b: &[u8; 20])
        ensures
            b@ == self@,
    {
        &self.0
    }
}

impl NodeId {
    /// Whether `self` orders before `other` (the order of the byte arrays).
    pub fn less_than(&self, other: &NodeId) -> (r: bool)
        ensures
            r == lex_lt(self@, other@),
    {
        let mut i: usize = 0;
        assert(self@.subrange(0, 20) =~= self@);
        assert(other@.subrange(0, 20) =~= other@);
        while i < 20
            invariant
                0 <= i <= 20,
                lex_lt(self@, other@) == lex_lt(self@.subrange(i as int, 20), other@.subrange(i as int, 20)),
            decreases 20 - i,
        {
            let ghost a = self@.subrange(i as int, 20);
            let ghost b = other@.subrange(i as int, 20);
            if self.0[i] < other.0[i] {
                assert(a[0] == self@[i as int] && b[0] == other@[i as int]);
                return true;
            }
            if self.0[i] > other.0[i] {
                assert(a[0] == self@[i as int] && b[0] == other@[i as int]);
                return false;
            }
            assert(a.drop_first() =~= self@.subrange(i + 1, 20));
            assert(b.drop_first() =~= other@.subrange(i + 1, 20));
            i += 1;
        }
        false
    }
}

/// The order of byte strings of equal length is a strict total order.
pub proof fn lemma_lex_order(a: Seq<u8>, b: Seq<u8>, c: Seq<u8>)
    requires
        a.len() == b.len(),
        b.len() == c.len(),
    ensures
        !lex_lt(a, a),
        lex_lt(a, b) ==> !lex_lt(b, a),
        lex_lt(a, b) && lex_lt(b, c) ==> lex_lt(a, c),
        lex_lt(a, b) || lex_lt(b, a) || a =~= b,
    decreases a.len(),
{
    if a.len() > 0 {
        lemma_lex_order(a.drop_first(), b.drop_first(), c.drop_first());
        if a[0] == b[0] && a.drop_first() =~= b.drop_first() {
            assert(a =~= b) by {
                assert forall|i: int| 0 <= i < a.len() implies a[i] == b[i] by {
                    if i > 0 {
                        assert(a[i] == a.drop_first()[i - 1]);
                        assert(b[i] == b.drop_first()[i - 1]);
                    }
                }
            }
        }
    }
}

/// Laws of the XOR metric: it is symmetric, zero exactly between equal
/// identifiers, and the bucket index is symmetric and absent exactly for equal
/// identifiers.
pub proof fn lemma_distance_laws(a: NodeId, b: NodeId)
    ensures
        xor_bytes(a@, b@) == xor_bytes(b@, a@),
        xor_bytes(a@, a@) == Seq::new(20, |i: int| 0u8),
        (xor_bytes(a@, b@) == Seq::new(20, |i: int| 0u8)) <==> a == b,
        highest_set_bit(xor_bytes(a@, b@)) == highest_set_bit(xor_bytes(b@, a@)),
        highest_set_bit(xor_bytes(a@, b@)) is None <==> a == b,
{
    let ab = xor_bytes(a@, b@);
    let zero = Seq::new(20, |i: int| 0u8);
    assert forall|i: int| 0 <= i < 20 implies ab[i] == xor_bytes(b@, a@)[i] by {
        let x = a@[i];
        let y = b@[i];
        assert(x ^ y == y ^ x) by (bit_vector);
    }
    assert(ab =~= xor_bytes(b@, a@));
    assert forall|i: int| 0 <= i < 20 implies xor_bytes(a@, a@)[i] == 0 by {
        let x = a@[i];
        assert(x ^ x == 0) by (bit_vector);
    }
    assert(xor_bytes(a@, a@) =~= zero);
    assert forall|i: int| 0 <= i < 20 implies (ab[i] == 0 <==> a@[i] == b@[i]) by {
        let x = a@[i];
        let y = b@[i];
        assert(x ^ y == 0 <==> x == y) by (bit_vector);
    }
    if ab =~= zero {
        assert forall|i: int| 0 <= i < 20 implies a@[i] == b@[i] by {
            assert(ab[i] == zero[i]);
        }
        assert(a@ =~= b@);
    }
    lemma_view_eq(a, b);
    lemma_highest_set_bit_zero(ab);
}

/// The highest set bit is absent exactly when every byte is zero.
pub proof fn lemma_highest_set_bit_zero(d: Seq<u8>)
    ensures
        highest_set_bit(d) is None <==> d =~= Seq::new(d.len(), |i: int| 0u8),
    decreases d.len(),
{
    if d.len() > 0 {
        lemma_highest_set_bit_zero(d.drop_first());
        if d[0] == 0 && d.drop_first() =~= Seq::new((d.len() - 1) as nat, |i: int| 0u8) {
            assert forall|i: int| 0 <= i < d.len() implies d[i] == 0u8 by {
                if i > 0 {
                    assert(d[i] == d.drop_first()[i - 1]);
                }
            }
            assert(d =~= Seq::new(d.len(), |i: int| 0u8));
        }
        if d =~= Seq::new(d.len(), |i: int| 0u8) {
            assert(d[0] == 0);
            assert(d.drop_first() =~= Seq::new((d.len() - 1) as nat, |i: int| 0u8));
        }
    }
}

/// Hex encoding and decoding of an identifier are inverse: the encoding is 40
/// hex digits, and `from_hex` of `to_hex` gives the identifier back.
pub proof fn lemma_hex_roundtrip_id(id: NodeId)
    ensures
        is_valid_hex(hex_encode_spec(id@)),
        hex_encode_spec(id@).len() == 40,
        hex_decode_spec(hex_encode_spec(id@)) == id@,
{
    lemma_hex_encode_len(id@);
    lemma_hex_roundtrip(id@);
}

} // verus!
