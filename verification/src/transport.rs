use vstd::prelude::*;

use crate::error::P2PError;
use crate::nat_traversal::be32;

verus! {

/// The size of the pieces in which a rate-limited stream is written and read.
pub const PIECE_SIZE: usize = 4096;

/// The largest message a peer accepts: ten million bytes.
pub const MAX_MESSAGE_SIZE: usize = 10000000;

/// The sizes of the pieces of a transfer of `len` bytes: full pieces of 4096
/// bytes, then what remains.
pub open spec fn piece_sizes(len: nat) -> Seq<nat>
    decreases len,
{
    if len == 0 {
        Seq::empty()
    } else if len <= PIECE_SIZE {
        seq![len]
    } else {
        seq![PIECE_SIZE as nat] + piece_sizes((len - PIECE_SIZE) as nat)
    }
}

/// The sum of a list of sizes.
pub open spec fn total(s: Seq<nat>) -> nat
    decreases s.len(),
{
    if s.len() == 0 {
        0
    } else {
        s[0] + total(s.drop_first())
    }
}

/// The pieces of a transfer add up to it, and each holds between one byte and
/// a full piece.
pub proof fn lemma_pieces_cover(len: nat)
    ensures
        total(piece_sizes(len)) == len,
        forall|i: int| 0 <= i < piece_sizes(len).len() ==> 0 < #[trigger] piece_sizes(len)[i] <= PIECE_SIZE,
    decreases len,
{
    if len > PIECE_SIZE {
        let rest = (len - PIECE_SIZE) as nat;
        lemma_pieces_cover(rest);
        let s = piece_sizes(len);
        assert(s.drop_first() =~= piece_sizes(rest));
        assert(s[0] == PIECE_SIZE);
        assert(total(s) == s[0] + total(s.drop_first()));
        assert forall|i: int| 0 <= i < s.len() implies 0 < #[trigger] s[i] <= PIECE_SIZE by {
            if i > 0 {
                assert(s[i] == piece_sizes(rest)[i - 1]);
            }
        }
    } else if len > 0 {
        assert(piece_sizes(len).drop_first() =~= Seq::<nat>::empty());
        assert(total(Seq::<nat>::empty()) == 0);
        assert(total(piece_sizes(len)) == piece_sizes(len)[0] + total(piece_sizes(len).drop_first()));
    }
}

/// The four bytes of `n`, most significant first.
pub open spec fn be_bytes(n: u32) -> Seq<u8> {
    seq![(n >> 24u32) as u8, ((n >> 16u32) & 0xffu32) as u8, ((n >> 8u32) & 0xffu32) as u8, (n & 0xffu32) as u8]
}

/// Reading a length prefix gives back the length it was made of.
pub proof fn lemma_prefix_roundtrip(n: u32)
    ensures
        be32(be_bytes(n)) == n,
{
    let b = be_bytes(n);
    let b0 = (n >> 24u32) as u8;
    let b1 = ((n >> 16u32) & 0xffu32) as u8;
    let b2 = ((n >> 8u32) & 0xffu32) as u8;
    let b3 = (n & 0xffu32) as u8;
    assert(b[0] == b0 && b[1] == b1 && b[2] == b2 && b[3] == b3);
    assert(b0 as u32 * 16777216 + b1 as u32 * 65536 + b2 as u32 * 256 + b3 as u32 == n) by (bit_vector)
        requires
            b0 == (n >> 24u32) as u8,
            b1 == ((n >> 16u32) & 0xffu32) as u8,
            b2 == ((n >> 8u32) & 0xffu32) as u8,
            b3 == (n & 0xffu32) as u8,
    ;
}

/// Framing of messages on a stream: a 4-byte big-endian length, then the
/// bytes. Sockets are handled by the caller.
pub struct Transport;

impl Transport {
    /// The length prefix of a frame of `len` bytes: `len as u32` in big-endian
    /// order.
    pub fn length_prefix(len: usize) -> (p: [u8; 4])
        ensures
            p@ == be_bytes(len as u32),
    {
        let n: u32 = len as u32;
        let p = [(n >> 24u32) as u8, ((n >> 16u32) & 0xffu32) as u8, ((n >> 8u32) & 0xffu32) as u8, (n & 0xffu32) as u8];
        assert(p@ =~= be_bytes(n));
        p
    }

    /// The length that a frame's prefix announces.
    pub fn read_length(prefix: [u8; 4]) -> (n: u32)
        ensures
            n == be32(prefix@),
    {
        (prefix[0] as u32) * 16777216 + (prefix[1] as u32) * 65536 + (prefix[2] as u32) * 256 + (prefix[3] as u32)
    }

    /// Accept an announced length up to `max_size`; a longer message is refused.
    pub fn check_length(len: u32, max_size: usize) -> (r: Result<usize, P2PError>)
        ensures
            len <= max_size ==> r == Ok::<usize, P2PError>(len as usize),
            len > max_size ==> (r matches Err(P2PError::MessageTooLarge(n)) && n == len),
    {
        let n = len as usize;
        if n > max_size {
            return Err(P2PError::MessageTooLarge(n));
        }
        Ok(n)
    }

    /// A whole frame: the prefix, then the data.
    pub fn frame(data: &[u8]) -> (f: Vec<u8>)
        ensures
            f@ == be_bytes(data@.len() as u32) + data@,
    {
        let p = Self::length_prefix(data.len());
        let mut f: Vec<u8> = Vec::with_capacity(4);
        f.push(p[0]);
        f.push(p[1]);
        f.push(p[2]);
        f.push(p[3]);
        assert(f@ =~= p@);
        for i in 0..data.len()
            invariant
                f@ == p@ + data@.take(i as int),
        {
            f.push(data[i]);
            assert(f@ =~= p@ + data@.take(i + 1));
        }
        assert(data@.take(data@.len() as int) =~= data@);
        f
    }

    /// The sizes of the pieces in which `len` bytes are paced through a rate
    /// limiter.
    pub fn pieces(len: usize) -> (r: Vec<usize>)
        ensures
            r@.map_values(|n: usize| n as nat) == piece_sizes(len as nat),
    {
        let mut r: Vec<usize> = Vec::new();
        let mut done: usize = 0;
        while done < len
            invariant
                done <= len,
                r@.map_values(|n: usize| n as nat) + piece_sizes((len - done) as nat) == piece_sizes(len as nat),
            decreases len - done,
        {
            let remaining = len - done;
            let n = if remaining < PIECE_SIZE { remaining } else { PIECE_SIZE };
            let ghost before = r@.map_values(|n: usize| n as nat);
            r.push(n);
            proof {
                assert(r@.map_values(|n: usize| n as nat) =~= before.push(n as nat));
                if remaining <= PIECE_SIZE {
                    assert(piece_sizes(remaining as nat) == seq![remaining as nat]);
                    assert(piece_sizes(0) =~= Seq::<nat>::empty());
                    assert(before + seq![remaining as nat] =~= before.push(n as nat) + piece_sizes(0));
                } else {
                    assert(before + (seq![PIECE_SIZE as nat] + piece_sizes((remaining - PIECE_SIZE) as nat)) =~= before.push(
                        n as nat,
                    ) + piece_sizes((remaining - PIECE_SIZE) as nat));
                }
            }
            done = done + n;
        }
        proof {
            assert(piece_sizes(0) =~= Seq::<nat>::empty());
            assert(r@.map_values(|n: usize| n as nat) + piece_sizes(0) =~= r@.map_values(|n: usize| n as nat));
        }
        r
    }
}

} // verus!
