use vstd::prelude::*;

use crate::error::P2PError;
use crate::net::IpAddress;

verus! {

/// The STUN magic cookie.
pub open spec fn cookie() -> Seq<u8> {
    seq![0x21u8, 0x12u8, 0xA4u8, 0x42u8]
}

/// A 16-bit big-endian field at `pos`.
pub open spec fn be16(buf: Seq<u8>, pos: int) -> int {
    buf[pos] * 256 + buf[pos + 1]
}

/// A 32-bit big-endian value of four bytes.
pub open spec fn be32(b: Seq<u8>) -> int {
    b[0] * 16777216 + b[1] * 65536 + b[2] * 256 + b[3]
}

/// The IPv4 address bytes at `pos`, XORed with the magic cookie.
pub open spec fn xor_cookie(buf: Seq<u8>, pos: int) -> Seq<u8> {
    seq![buf[pos] ^ 0x21u8, buf[pos + 1] ^ 0x12u8, buf[pos + 2] ^ 0xA4u8, buf[pos + 3] ^ 0x42u8]
}

/// Padding after an attribute value of `l` bytes, to a multiple of four.
pub open spec fn padding(l: int) -> int {
    (4 - (l % 4)) % 4
}

/// The IPv4 address that the attributes from `pos` on report: the first
/// XOR-MAPPED-ADDRESS (0x0020) or MAPPED-ADDRESS (0x0001) attribute of family
/// IPv4. An address attribute shorter than 8 bytes is skipped by its header
/// only, and the scan stops at an attribute, or its padding, that runs past
/// the end.
pub open spec fn stun_scan(buf: Seq<u8>, pos: int) -> Option<Seq<u8>>
    decreases buf.len() - pos,
{
    if pos < 0 || pos + 4 > buf.len() {
        None
    } else {
        let t = be16(buf, pos);
        let l = be16(buf, pos + 2);
        let p = pos + 4;
        if p + l > buf.len() {
            None
        } else if (t == 0x0020 || t == 0x0001) && l < 8 {
            stun_scan(buf, p)
        } else if t == 0x0020 && buf[p + 1] == 1 {
            Some(xor_cookie(buf, p + 4))
        } else if t == 0x0001 && buf[p + 1] == 1 {
            Some(buf.subrange(p + 4, p + 8))
        } else if p + l + padding(l) > buf.len() {
            None
        } else {
            stun_scan(buf, p + l + padding(l))
        }
    }
}

/// How a STUN Binding response is read.
pub enum StunOutcome {
    TooShort,
    BadType,
    BadCookie,
    NotFound,
    Found(Seq<u8>),
}

/// What a STUN response says: it must be at least 20 bytes, of type Binding
/// Response (0x0101), with the magic cookie; then the first IPv4 address
/// attribute gives the address.
pub open spec fn stun_outcome(buf: Seq<u8>) -> StunOutcome {
    if buf.len() < 20 {
        StunOutcome::TooShort
    } else if buf[0] != 1 || buf[1] != 1 {
        StunOutcome::BadType
    } else if buf.subrange(4, 8) != cookie() {
        StunOutcome::BadCookie
    } else {
        match stun_scan(buf, 20) {
            Some(ip) => StunOutcome::Found(ip),
            None => StunOutcome::NotFound,
        }
    }
}

/// The four bytes of an IPv4 address XORed with the magic cookie, as an
/// XOR-MAPPED-ADDRESS attribute carries them.
pub open spec fn xor_address(ip: Seq<u8>) -> Seq<u8> {
    seq![ip[0] ^ 0x21u8, ip[1] ^ 0x12u8, ip[2] ^ 0xA4u8, ip[3] ^ 0x42u8]
}

/// A Binding success response for transaction `txid` (12 bytes) whose one
/// attribute is an XOR-MAPPED-ADDRESS of family IPv4 with the port bytes
/// `port` (2 bytes) and the address `ip` (4 bytes).
pub open spec fn xor_mapped_response(txid: Seq<u8>, port: Seq<u8>, ip: Seq<u8>) -> Seq<u8> {
    seq![0x01u8, 0x01u8, 0x00u8, 0x0Cu8] + cookie() + txid + seq![0x00u8, 0x20u8, 0x00u8, 0x08u8, 0x00u8, 0x01u8] + port
        + xor_address(ip)
}

/// Reading a response that maps the node to an address gives back that
/// address.
pub proof fn lemma_xor_mapped_roundtrip(txid: Seq<u8>, port: Seq<u8>, ip: Seq<u8>)
    requires
        txid.len() == 12,
        port.len() == 2,
        ip.len() == 4,
    ensures
        stun_outcome(xor_mapped_response(txid, port, ip)) == StunOutcome::Found(ip),
{
    let buf = xor_mapped_response(txid, port, ip);
    assert(buf.len() == 32);
    assert(buf.subrange(4, 8) =~= cookie());
    assert(buf[20] == 0 && buf[21] == 0x20 && buf[22] == 0 && buf[23] == 8 && buf[25] == 1);
    assert(be16(buf, 20) == 0x20);
    assert(be16(buf, 22) == 8);
    let (a, b, c, d) = (ip[0], ip[1], ip[2], ip[3]);
    assert(buf[28] == a ^ 0x21u8 && buf[29] == b ^ 0x12u8 && buf[30] == c ^ 0xA4u8 && buf[31] == d ^ 0x42u8);
    assert((a ^ 0x21u8) ^ 0x21u8 == a) by (bit_vector);
    assert((b ^ 0x12u8) ^ 0x12u8 == b) by (bit_vector);
    assert((c ^ 0xA4u8) ^ 0xA4u8 == c) by (bit_vector);
    assert((d ^ 0x42u8) ^ 0x42u8 == d) by (bit_vector);
    assert(xor_cookie(buf, 28) =~= ip);
    assert(stun_scan(buf, 20) == Some(xor_cookie(buf, 28)));
}

/// The padding after an attribute value of `l` bytes is the least `p >= 0`
/// that brings `l + p` to a multiple of four: none when `l` already is one.
pub proof fn lemma_padding_least(l: int)
    requires
        l >= 0,
    ensures
        0 <= padding(l) < 4,
        (l + padding(l)) % 4 == 0,
        padding(l) > 0 ==> l % 4 != 0,
        padding(l) > 1 ==> (l + 1) % 4 != 0,
        padding(l) > 2 ==> (l + 2) % 4 != 0,
        l % 4 == 0 ==> padding(l) == 0,
{
}

/// A Binding success response for transaction `txid` (12 bytes) whose first
/// attribute has the type bytes `t` (2 bytes), the value `value` and then the
/// bytes `pad`, and whose second attribute is an XOR-MAPPED-ADDRESS of family
/// IPv4 with the port bytes `port` (2 bytes) and the address `ip` (4 bytes).
pub open spec fn two_attribute_response(
    txid: Seq<u8>,
    t: Seq<u8>,
    value: Seq<u8>,
    pad: Seq<u8>,
    port: Seq<u8>,
    ip: Seq<u8>,
) -> Seq<u8> {
    let l = value.len();
    seq![0x01u8, 0x01u8, 0x00u8, 0x00u8] + cookie() + txid + t + seq![(l / 256) as u8, (l % 256) as u8] + value
        + pad + seq![0x00u8, 0x20u8, 0x00u8, 0x08u8, 0x00u8, 0x01u8] + port + xor_address(ip)
}

/// An attribute that carries no address, of any length `l`, followed by the
/// least padding that brings it to a multiple of four, is skipped whole: the
/// XOR-MAPPED-ADDRESS right after it gives the address.
pub proof fn lemma_skips_padded_attribute(
    txid: Seq<u8>,
    t: Seq<u8>,
    value: Seq<u8>,
    pad: Seq<u8>,
    port: Seq<u8>,
    ip: Seq<u8>,
)
    requires
        txid.len() == 12,
        t.len() == 2,
        t[0] * 256 + t[1] != 0x0020,
        t[0] * 256 + t[1] != 0x0001,
        value.len() < 65536,
        pad.len() < 4,
        (value.len() + pad.len()) % 4 == 0,
        port.len() == 2,
        ip.len() == 4,
    ensures
        stun_outcome(two_attribute_response(txid, t, value, pad, port, ip)) == StunOutcome::Found(ip),
{
    let buf = two_attribute_response(txid, t, value, pad, port, ip);
    let l = value.len() as int;
    let n = pad.len() as int;
    let q = 24 + l + n;
    assert(buf.len() == q + 12);
    assert(buf.subrange(4, 8) =~= cookie());
    assert(buf[0] == 1 && buf[1] == 1);
    assert(buf[20] == t[0] && buf[21] == t[1]);
    assert(buf[22] == (l / 256) as u8 && buf[23] == (l % 256) as u8);
    assert(be16(buf, 20) == t[0] * 256 + t[1]);
    assert(be16(buf, 22) == l);
    assert(padding(l) == n);
    assert(buf[q] == 0 && buf[q + 1] == 0x20 && buf[q + 2] == 0 && buf[q + 3] == 8);
    assert(buf[q + 5] == 1);
    assert(be16(buf, q) == 0x20);
    assert(be16(buf, q + 2) == 8);
    let (a, b, c, d) = (ip[0], ip[1], ip[2], ip[3]);
    assert(buf[q + 8] == a ^ 0x21u8 && buf[q + 9] == b ^ 0x12u8 && buf[q + 10] == c ^ 0xA4u8 && buf[q + 11] == d
        ^ 0x42u8);
    assert((a ^ 0x21u8) ^ 0x21u8 == a) by (bit_vector);
    assert((b ^ 0x12u8) ^ 0x12u8 == b) by (bit_vector);
    assert((c ^ 0xA4u8) ^ 0xA4u8 == c) by (bit_vector);
    assert((d ^ 0x42u8) ^ 0x42u8 == d) by (bit_vector);
    assert(xor_cookie(buf, q + 8) =~= ip);
    assert(stun_scan(buf, q) == Some(xor_cookie(buf, q + 8)));
    assert(stun_scan(buf, 20) == stun_scan(buf, q));
}

/// `r` is a network error with message `msg`.
pub open spec fn is_network_error<T>(r: Result<T, P2PError>, msg: Seq<char>) -> bool {
    match r {
        Err(P2PError::NetworkError(s)) => s@ == msg,
        _ => false,
    }
}

/// `rand::random`: twelve random bytes.
#[verifier::external_body]
fn random_transaction_id() -> [u8; 12] {
    rand::random::<[u8; 12]>()
}

/// NAT traversal: UPnP port mapping and STUN discovery of the public address.
/// The gateway and the STUN server are reached from outside; this type decides
/// whether to try, what to send, and what the answer means.
pub struct NatManager {
    enabled: bool,
}

impl NatManager {
    pub closed spec fn is_on(&self) -> bool {
        self.enabled
    }

    pub fn new(enabled: bool) -> (m: NatManager)
        ensures
            m.is_on() == enabled,
    {
        NatManager { enabled }
    }

    /// Whether NAT traversal is enabled.
    pub fn enabled(&self) -> (b: bool)
        ensures
            b == self.is_on(),
    {
        self.enabled
    }

    /// Allow a traversal attempt only when enabled.
    pub fn check_enabled(&self) -> (r: Result<(), P2PError>)
        ensures
            self.is_on() ==> r is Ok,
            !self.is_on() ==> is_network_error(r, "NAT traversal disabled"@),
    {
        if !self.enabled {
            return Err(P2PError::NetworkError(String::from_str("NAT traversal disabled")));
        }
        Ok(())
    }

    /// A fresh random STUN transaction identifier.
    pub fn new_transaction_id() -> [u8; 12] {
        random_transaction_id()
    }

    /// The STUN Binding Request with transaction identifier `transaction_id`:
    /// type 0x0001, length 0, the magic cookie, then the identifier. Refused
    /// when traversal is disabled.
    pub fn stun_request(&self, transaction_id: [u8; 12]) -> (r: Result<Vec<u8>, P2PError>)
        ensures
            self.is_on() ==> (r matches Ok(p) && p@ == seq![0u8, 1u8, 0u8, 0u8] + cookie() + transaction_id@),
            !self.is_on() ==> is_network_error(r, "NAT traversal disabled"@),
    {
        self.check_enabled()?;
        let mut packet: Vec<u8> = Vec::with_capacity(20);
        packet.push(0x00);
        packet.push(0x01);
        packet.push(0x00);
        packet.push(0x00);
        packet.push(0x21);
        packet.push(0x12);
        packet.push(0xA4);
        packet.push(0x42);
        for i in 0..12
            invariant
                packet@ == seq![0u8, 1u8, 0u8, 0u8] + cookie() + transaction_id@.take(i as int),
        {
            packet.push(transaction_id[i]);
            assert(packet@ =~= seq![0u8, 1u8, 0u8, 0u8] + cookie() + transaction_id@.take(i + 1));
        }
        assert(transaction_id@.take(12) =~= transaction_id@);
        Ok(packet)
    }

    /// The public IPv4 address that a STUN Binding response reports.
    pub fn parse_stun_response(buf: &[u8]) -> (r: Result<IpAddress, P2PError>)
        ensures
            match stun_outcome(buf@) {
                StunOutcome::TooShort => is_network_error(r, "STUN response too short"@),
                StunOutcome::BadType => is_network_error(r, "Invalid STUN response type"@),
                StunOutcome::BadCookie => is_network_error(r, "Invalid STUN cookie"@),
                StunOutcome::NotFound => is_network_error(r, "Public IP not found in STUN response"@),
                StunOutcome::Found(ip) => r == Ok::<IpAddress, P2PError>(IpAddress::V4(be32(ip) as u32)),
            },
    {
        let len = buf.len();
        if len < 20 {
            return Err(P2PError::NetworkError(String::from_str("STUN response too short")));
        }
        if buf[0] != 0x01 || buf[1] != 0x01 {
            return Err(P2PError::NetworkError(String::from_str("Invalid STUN response type")));
        }
        if buf[4] != 0x21 || buf[5] != 0x12 || buf[6] != 0xA4 || buf[7] != 0x42 {
            proof {
                assert(buf@.subrange(4, 8) != cookie()) by {
                    if buf@.subrange(4, 8) == cookie() {
                        assert(buf@.subrange(4, 8)[0] == buf@[4]);
                        assert(buf@.subrange(4, 8)[1] == buf@[5]);
                        assert(buf@.subrange(4, 8)[2] == buf@[6]);
                        assert(buf@.subrange(4, 8)[3] == buf@[7]);
                    }
                }
            }
            return Err(P2PError::NetworkError(String::from_str("Invalid STUN cookie")));
        }
        assert(buf@.subrange(4, 8) =~= cookie());
        let mut pos: usize = 20;
        while pos <= len && len - pos >= 4
            invariant
                len == buf@.len(),
                len >= 20,
                buf@[0] == 1 && buf@[1] == 1,
                buf@.subrange(4, 8) == cookie(),
                20 <= pos,
                stun_scan(buf@, 20) == stun_scan(buf@, pos as int),
            decreases len - pos,
        {
            let attr_type: usize = (buf[pos] as usize) * 256 + (buf[pos + 1] as usize);
            let attr_len: usize = (buf[pos + 2] as usize) * 256 + (buf[pos + 3] as usize);
            let p = pos + 4;
            if attr_len > len - p {
                return Err(P2PError::NetworkError(String::from_str("Public IP not found in STUN response")));
            }
            if (attr_type == 0x0020 || attr_type == 0x0001) && attr_len < 8 {
                pos = p;
                continue;
            }
            if attr_type == 0x0020 && buf[p + 1] == 0x01 {
                let ip: u32 = ((buf[p + 4] ^ 0x21) as u32) * 16777216 + ((buf[p + 5] ^ 0x12) as u32) * 65536
                    + ((buf[p + 6] ^ 0xA4) as u32) * 256 + ((buf[p + 7] ^ 0x42) as u32);
                return Ok(IpAddress::V4(ip));
            }
            if attr_type == 0x0001 && buf[p + 1] == 0x01 {
                let ip: u32 = (buf[p + 4] as u32) * 16777216 + (buf[p + 5] as u32) * 65536
                    + (buf[p + 6] as u32) * 256 + (buf[p + 7] as u32);
                return Ok(IpAddress::V4(ip));
            }
            let pad = (4 - (attr_len % 4)) % 4;
            if len - p - attr_len < pad {
                // The next attribute would start past the end.
                return Err(P2PError::NetworkError(String::from_str("Public IP not found in STUN response")));
            }
            pos = p + attr_len + pad;
        }
        Err(P2PError::NetworkError(String::from_str("Public IP not found in STUN response")))
    }
}

} // verus!
