use vstd::prelude::*;
use vstd::slice::{slice_subrange, slice_to_vec};
use crate::handshake::{Handshake, HandshakeHeader, handshake_header_bytes, MAX_U24};
use crate::record_layer::views;

verus! {

/// The `k`-th piece of `b` when it is cut into pieces of `n` bytes.
pub open spec fn chunk(b: Seq<u8>, n: int, k: int) -> Seq<u8> {
    let end = if (k + 1) * n < b.len() {
        (k + 1) * n
    } else {
        b.len() as int
    };
    b.subrange(k * n, end)
}

/// `c` is the number of `n`-byte pieces that `len` bytes make: the least
/// count whose pieces cover them all.
pub open spec fn is_piece_count(c: int, len: int, n: int) -> bool {
    &&& c * n >= len
    &&& c > 0 ==> (c - 1) * n < len
}

/// Cuts `bytes` into consecutive pieces of `split_len` bytes; the last may be shorter.
pub fn split_bytes(bytes: &[u8], split_len: usize) -> (r: Vec<Vec<u8>>)
    requires
        split_len > 0,
    ensures
        is_piece_count(r@.len() as int, bytes@.len() as int, split_len as int),
        forall|k: int|
            0 <= k < r@.len() ==> #[trigger] r@[k]@ == chunk(bytes@, split_len as int, k),
{
    let mut splits: Vec<Vec<u8>> = Vec::new();
    let num_bytes = bytes.len();
    let mut i: usize = 0;
    assert(splits@.len() * split_len == 0) by (nonlinear_arith)
        requires
            splits@.len() == 0,
    ;
    while i < num_bytes
        invariant
            i <= num_bytes == bytes@.len(),
            split_len > 0,
            i < num_bytes ==> i == splits@.len() * split_len,
            i == num_bytes ==> is_piece_count(
                splits@.len() as int,
                num_bytes as int,
                split_len as int,
            ),
            forall|k: int|
                0 <= k < splits@.len() ==> #[trigger] splits@[k]@ == chunk(
                    bytes@,
                    split_len as int,
                    k,
                ),
        decreases num_bytes - i,
    {
        let ghost k = splits@.len() as int;
        let j: usize = if num_bytes - i <= split_len {
            num_bytes
        } else {
            i + split_len
        };
        proof {
            assert((k + 1) * split_len == k * split_len + split_len) by (nonlinear_arith);
        }
        let piece = slice_to_vec(slice_subrange(bytes, i, j));
        assert(piece@ == chunk(bytes@, split_len as int, k));
        splits.push(piece);
        proof {
            if j == num_bytes {
                assert(is_piece_count(k + 1, num_bytes as int, split_len as int));
            }
        }
        i = j;
    }
    splits
}

/// The header of the fragment at `offset` holding `len` bytes of the message that `h` heads.
pub open spec fn fragment_header(h: HandshakeHeader, offset: int, len: int) -> HandshakeHeader {
    HandshakeHeader { fragment_offset: offset as u32, fragment_length: len as u32, ..h }
}

/// The number of fragments that a body of `len` bytes makes under `mtu`:
/// one for an empty body, else as many pieces as cover it.
pub open spec fn is_fragment_count(c: int, len: int, mtu: int) -> bool {
    if len == 0 {
        c == 1
    } else {
        is_piece_count(c, len, mtu)
    }
}

/// The wire bytes of fragment `k` of `h` under `mtu`: its header and its piece of the body.
pub open spec fn fragment_bytes(h: Handshake, mtu: int, k: int) -> Seq<u8> {
    let piece = chunk(h.body@, mtu, k);
    handshake_header_bytes(fragment_header(h.header, k * mtu, piece.len() as int)) + piece
}

/// Splits a handshake message into fragments that each carry at most `mtu`
/// bytes of its body, with the same type, length and message sequence and the
/// offsets at which their pieces start.
pub fn fragment_handshake(maximum_transmission_unit: usize, h: &Handshake) -> (r: Vec<Vec<u8>>)
    requires
        maximum_transmission_unit > 0,
        h.wf(),
    ensures
        is_fragment_count(
            r@.len() as int,
            h.body@.len() as int,
            maximum_transmission_unit as int,
        ),
        forall|k: int|
            0 <= k < r@.len() ==> #[trigger] r@[k]@ == fragment_bytes(
                *h,
                maximum_transmission_unit as int,
                k,
            ),
{
    let mtu = maximum_transmission_unit;
    let content_fragments = split_bytes(h.body.as_slice(), mtu);
    let mut fragmented: Vec<Vec<u8>> = Vec::new();
    if content_fragments.len() == 0 {
        let header = HandshakeHeader { fragment_offset: 0, fragment_length: 0, ..h.header };
        let raw = header.marshal();
        proof {
            assert(chunk(h.body@, mtu as int, 0) =~= Seq::<u8>::empty());
            assert(raw@ =~= fragment_bytes(*h, mtu as int, 0));
        }
        fragmented.push(raw);
        return fragmented;
    }
    let mut offset: usize = 0;
    let mut idx: usize = 0;
    assert(h.body@.len() > 0);
    while idx < content_fragments.len()
        invariant
            mtu > 0,
            h.wf(),
            content_fragments@.len() > 0,
            is_piece_count(content_fragments@.len() as int, h.body@.len() as int, mtu as int),
            forall|k: int|
                0 <= k < content_fragments@.len() ==> #[trigger] content_fragments@[k]@ == chunk(
                    h.body@,
                    mtu as int,
                    k,
                ),
            idx <= content_fragments@.len(),
            fragmented@.len() == idx,
            idx < content_fragments@.len() ==> offset == idx * mtu,
            idx < content_fragments@.len() ==> offset < h.body@.len(),
            forall|k: int|
                0 <= k < idx ==> #[trigger] fragmented@[k]@ == fragment_bytes(*h, mtu as int, k),
        decreases content_fragments@.len() - idx,
    {
        let piece = &content_fragments[idx];
        let ghost k = idx as int;
        assert(piece@ == chunk(h.body@, mtu as int, k));
        let piece_len = piece.len();
        proof {
            assert((k + 1) * mtu == k * mtu + mtu) by (nonlinear_arith);
            assert(piece_len <= MAX_U24);
        }
        let header = HandshakeHeader {
            fragment_offset: offset as u32,
            fragment_length: piece_len as u32,
            ..h.header
        };
        let mut raw = header.marshal();
        raw.extend_from_slice(piece.as_slice());
        proof {
            assert(raw@ =~= fragment_bytes(*h, mtu as int, k));
        }
        fragmented.push(raw);
        idx = idx + 1;
        proof {
            if idx < content_fragments@.len() {
                assert(idx as int * mtu <= (content_fragments@.len() - 1) * mtu) by (nonlinear_arith)
                    requires
                        idx < content_fragments@.len(),
                        mtu > 0,
                ;
            }
        }
        if idx < content_fragments.len() {
            offset = offset + mtu;
        }
    }
    fragmented
}

/// The datagrams accumulated so far and the one being filled, after packing
/// `raw` in order: a record joins the open datagram unless that one is
/// non-empty and the two together would reach `mtu` bytes.
pub open spec fn compact_state(raw: Seq<Seq<u8>>, mtu: int) -> (Seq<Seq<u8>>, Seq<u8>)
    decreases raw.len(),
{
    if raw.len() == 0 {
        (Seq::empty(), Seq::empty())
    } else {
        let (done, cur) = compact_state(raw.drop_last(), mtu);
        let p = raw.last();
        if cur.len() > 0 && cur.len() + p.len() >= mtu {
            (done.push(cur), p)
        } else {
            (done, cur + p)
        }
    }
}

/// The datagrams that packing `raw` under `mtu` yields.
pub open spec fn compacted(raw: Seq<Seq<u8>>, mtu: int) -> Seq<Seq<u8>> {
    compact_state(raw, mtu).0.push(compact_state(raw, mtu).1)
}

/// Packs consecutive records into datagrams while they stay below `mtu` bytes.
pub fn compact_raw_packets(raw_packets: &Vec<Vec<u8>>, maximum_transmission_unit: usize) -> (r: Vec<
    Vec<u8>,
>)
    ensures
        views(r@) == compacted(views(raw_packets@), maximum_transmission_unit as int),
{
    let mut combined: Vec<Vec<u8>> = Vec::new();
    let mut current: Vec<u8> = Vec::new();
    let mut i: usize = 0;
    while i < raw_packets.len()
        invariant
            i <= raw_packets@.len(),
            (views(combined@), current@) == compact_state(
                views(raw_packets@).take(i as int),
                maximum_transmission_unit as int,
            ),
        decreases raw_packets@.len() - i,
    {
        let raw_packet = &raw_packets[i];
        proof {
            let pre = views(raw_packets@).take(i as int + 1);
            assert(pre.drop_last() =~= views(raw_packets@).take(i as int));
            assert(pre.last() == raw_packet@);
        }
        if current.len() > 0 && current.len() as u128 + raw_packet.len() as u128
            >= maximum_transmission_unit as u128 {
            let ghost before = views(combined@);
            combined.push(current);
            assert(views(combined@) =~= before.push(current@));
            current = Vec::new();
        }
        current.extend_from_slice(raw_packet.as_slice());
        i = i + 1;
        proof {
            let (d, c) = compact_state(
                views(raw_packets@).take(i as int),
                maximum_transmission_unit as int,
            );
            assert(current@ =~= c);
        }
    }
    assert(views(raw_packets@).take(i as int) =~= views(raw_packets@));
    let ghost before = views(combined@);
    combined.push(current);
    assert(views(combined@) =~= before.push(current@));
    combined
}

} // verus!
