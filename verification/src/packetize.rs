//! Packetizer: splits one encoded media unit into datagram-sized slices.
//!
//! Slices preserve order, concatenate back to the input, and every slice but
//! the last is full; an input that already fits, the largest datagram
//! payload included, travels as a single slice.

use vstd::prelude::*;

verus! {

/// The concatenation of a sequence of chunks.
pub open spec fn concat_chunks(cs: Seq<Seq<u8>>) -> Seq<u8>
    decreases cs.len(),
{
    if cs.len() == 0 {
        Seq::empty()
    } else {
        cs[0] + concat_chunks(cs.drop_first())
    }
}

pub proof fn lemma_concat_chunks_snoc(cs: Seq<Seq<u8>>, c: Seq<u8>)
    ensures
        concat_chunks(cs.push(c)) == concat_chunks(cs) + c,
    decreases cs.len(),
{
    if cs.len() == 0 {
        assert(cs.push(c).drop_first() =~= cs);
        assert(concat_chunks(cs.push(c)) =~= concat_chunks(cs) + c);
    } else {
        assert(cs.push(c)[0] == cs[0]);
        assert(cs.push(c).drop_first() =~= cs.drop_first().push(c));
        lemma_concat_chunks_snoc(cs.drop_first(), c);
        assert(concat_chunks(cs.push(c)) =~= concat_chunks(cs) + c);
    }
}

/// The models of the chunks, in order.
pub open spec fn chunk_views(cs: Seq<Vec<u8>>) -> Seq<Seq<u8>> {
    cs.map_values(|c: Vec<u8>| c@)
}

/// Splits `data` into slices of at most [`crate::MAX_PACKET_DATA`] bytes.
///
/// The slices concatenate to exactly `data`; every slice except the last is
/// exactly full, so an input of up to one datagram payload — 1400 bytes
/// included — yields a single slice.
pub fn packetize(data: &Vec<u8>) -> (r: Vec<Vec<u8>>)
    ensures
        concat_chunks(chunk_views(r@)) == data@,
        forall|i: int|
            0 <= i < r@.len() ==> 1 <= (#[trigger] r@[i]@.len()) <= crate::MAX_PACKET_DATA,
        forall|i: int|
            0 <= i < r@.len() - 1 ==> (#[trigger] r@[i]@.len()) == crate::MAX_PACKET_DATA,
        data@.len() == 0 ==> r@.len() == 0,
        1 <= data@.len() <= crate::MAX_PACKET_DATA ==> r@.len() == 1,
{
    let mut out: Vec<Vec<u8>> = Vec::new();
    let mut pos: usize = 0;
    proof {
        assert(concat_chunks(chunk_views(out@)) =~= data@.subrange(0, 0));
    }
    while pos < data.len()
        invariant
            pos <= data@.len(),
            concat_chunks(chunk_views(out@)) == data@.subrange(0, pos as int),
            pos == out@.len() * crate::MAX_PACKET_DATA,
            forall|i: int|
                0 <= i < out@.len() ==> 1 <= (#[trigger] out@[i]@.len())
                    <= crate::MAX_PACKET_DATA,
            forall|i: int|
                0 <= i < out@.len() - 1 ==> (#[trigger] out@[i]@.len())
                    == crate::MAX_PACKET_DATA,
            out@.len() >= 1 ==> out@[out@.len() - 1]@.len() == crate::MAX_PACKET_DATA,
        decreases data@.len() - pos,
    {
        let remaining = data.len() - pos;
        let take = if remaining < crate::MAX_PACKET_DATA {
            remaining
        } else {
            crate::MAX_PACKET_DATA
        };
        let chunk = vstd::slice::slice_to_vec(
            vstd::slice::slice_subrange(data.as_slice(), pos, pos + take),
        );
        proof {
            lemma_concat_chunks_snoc(chunk_views(out@), chunk@);
            assert(chunk_views(out@.push(chunk)) =~= chunk_views(out@).push(chunk@));
            assert(data@.subrange(0, pos as int) + data@.subrange(
                pos as int,
                (pos + take) as int,
            ) =~= data@.subrange(0, (pos + take) as int));
        }
        out.push(chunk);
        pos = pos + take;
        if pos == data.len() {
            proof {
                assert(data@.subrange(0, data@.len() as int) =~= data@);
            }
            return out;
        }
    }
    proof {
        assert(data@.subrange(0, data@.len() as int) =~= data@);
    }
    out
}

} // verus!
