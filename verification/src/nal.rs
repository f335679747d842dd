//! Video depacketizer: reassembles H.264 NAL units from the byte stream of
//! delivered video packets.
//!
//! Packet boundaries carry no meaning: payloads are concatenated and the
//! Annex-B framing alone delimits units. A unit is complete once the start
//! code of the next one has arrived; it is emitted behind a four-byte start
//! code, ready for the decoder. A zero immediately before a start code is
//! the long form of that start code and belongs to no unit.

use vstd::prelude::*;

verus! {

/// A three-byte Annex-B start code begins at `i`.
pub open spec fn is_start_code(s: Seq<u8>, i: int) -> bool {
    &&& 0 <= i
    &&& i + 3 <= s.len()
    &&& s[i] == 0
    &&& s[i + 1] == 0
    &&& s[i + 2] == 1
}

/// The first start code at or after `from`, if any.
pub open spec fn first_start_code(s: Seq<u8>, from: int) -> Option<int>
    decreases s.len() - from,
        when 0 <= from <= s.len()
{
    if from + 3 > s.len() {
        None
    } else if is_start_code(s, from) {
        Some(from)
    } else {
        first_start_code(s, from + 1)
    }
}

/// The four-byte start code put in front of every emitted unit.
pub open spec fn out_prefix() -> Seq<u8> {
    seq![0u8, 0u8, 0u8, 1u8]
}

/// The complete units of `s` and the tail that still waits for the next
/// start code. A unit's body runs from the end of its start code to the
/// next start code, less the zero of that code's long form.
pub open spec fn spec_drain(s: Seq<u8>) -> (Seq<Seq<u8>>, Seq<u8>)
    decreases s.len(),
{
    match first_start_code(s, 0) {
        None => (Seq::empty(), s),
        Some(i) => match first_start_code(s, i + 3) {
            None => (Seq::empty(), s.skip(i)),
            Some(j) => {
                if 0 < j && j <= s.len() {
                    let body_end = if s[j - 1] == 0 {
                        j - 1
                    } else {
                        j as int
                    };
                    let unit = out_prefix() + s.subrange(i + 3, body_end);
                    let rec = spec_drain(s.skip(j));
                    (seq![unit] + rec.0, rec.1)
                } else {
                    (Seq::empty(), s.skip(i))
                }
            },
        },
    }
}

/// Skipping to the first start code changes nothing about what drains.
pub proof fn lemma_drain_skip_to_first(s: Seq<u8>, i: int)
    requires
        first_start_code(s, 0) == Some(i),
    ensures
        first_start_code(s.skip(i), 0) == Some(0int),
        spec_drain(s) == spec_drain(s.skip(i)),
{
    lemma_first_sc_props(s, 0);
    lemma_first_sc_shift(s, i, 0);
    let t = s.skip(i);
    lemma_first_sc_shift(s, i, 3);
    match first_start_code(s, i + 3) {
        None => {
            assert(t.skip(0) =~= t);
            assert(s.skip(i) =~= t);
        },
        Some(j) => {
            lemma_first_sc_props(s, i + 3);
            let jj = j - i;
            assert(t[jj - 1] == s[j - 1]);
            assert(t.subrange(3, if t[jj - 1] == 0 {
                jj - 1
            } else {
                jj as int
            }) =~= s.subrange(i + 3, if s[j - 1] == 0 {
                j - 1
            } else {
                j as int
            }));
            assert(t.skip(jj) =~= s.skip(j));
            assert(t.skip(0) =~= t);
        },
    }
}

pub proof fn lemma_first_sc_props(s: Seq<u8>, from: int)
    requires
        0 <= from <= s.len(),
    ensures
        match first_start_code(s, from) {
            Some(i) => from <= i && is_start_code(s, i) && forall|k: int|
                from <= k < i ==> !is_start_code(s, k),
            None => forall|k: int| from <= k ==> !is_start_code(s, k),
        },
    decreases s.len() - from,
{
    if from + 3 > s.len() {
    } else if is_start_code(s, from) {
    } else {
        lemma_first_sc_props(s, from + 1);
    }
}

/// Scanning a suffix finds the same start codes, shifted.
pub proof fn lemma_first_sc_shift(s: Seq<u8>, k: int, from: int)
    requires
        0 <= k,
        k <= from + k <= s.len(),
    ensures
        first_start_code(s.skip(k), from) == (match first_start_code(s, from + k) {
            Some(i) => Some(i - k),
            None => None::<int>,
        }),
    decreases s.len() - from - k,
{
    let t = s.skip(k);
    if from + 3 > t.len() {
    } else {
        assert(t[from] == s[from + k]);
        assert(t[from + 1] == s[from + k + 1]);
        assert(t[from + 2] == s[from + k + 2]);
        assert(is_start_code(t, from) == is_start_code(s, from + k));
        if is_start_code(t, from) {
        } else {
            lemma_first_sc_shift(s, k, from + 1);
        }
    }
}

fn find_start_code(buf: &Vec<u8>, from: usize) -> (r: Option<usize>)
    requires
        from <= buf@.len(),
    ensures
        match r {
            Some(i) => first_start_code(buf@, from as int) == Some(i as int),
            None => first_start_code(buf@, from as int) is None,
        },
{
    let mut i: usize = from;
    while i < buf.len() && buf.len() - i >= 3
        invariant
            from <= i <= buf@.len(),
            first_start_code(buf@, from as int) == first_start_code(buf@, i as int),
        decreases buf@.len() - i,
    {
        if buf[i] == 0 && buf[i + 1] == 0 && buf[i + 2] == 1 {
            return Some(i);
        }
        i = i + 1;
    }
    None
}

/// Reassembles NAL units from the video payload stream.
pub struct NalAccumulator {
    /// Bytes not yet part of an emitted unit: at most one incomplete unit
    /// with its start code, behind any bytes that precede the first start
    /// code of the stream.
    pub buf: Vec<u8>,
}

impl NalAccumulator {
    /// An accumulator that has seen nothing.
    pub fn new() -> (r: NalAccumulator)
        ensures
            r.buf@.len() == 0,
    {
        NalAccumulator { buf: Vec::new() }
    }

    /// Takes the payload of one delivered video packet and returns every
    /// unit completed by it, in stream order, each behind a four-byte start
    /// code. Exactly the units and tail of the concatenated bytes seen so
    /// far: no byte is lost across packet boundaries.
    pub fn push(&mut self, data: &Vec<u8>) -> (r: Vec<Vec<u8>>)
        ensures
            ({
                let d = spec_drain(old(self).buf@ + data@);
                crate::packetize::chunk_views(r@) == d.0 && final(self).buf@ == d.1
            }),
    {
        let mut dd = vstd::slice::slice_to_vec(data.as_slice());
        self.buf.append(&mut dd);
        let ghost whole = self.buf@;
        let mut out: Vec<Vec<u8>> = Vec::new();

        // the start code opening the unit at the front of the buffer
        let mut i: usize = match find_start_code(&self.buf, 0) {
            Some(i) => i,
            None => {
                proof {
                    assert(crate::packetize::chunk_views(out@) =~= spec_drain(whole).0);
                }
                return out;
            },
        };
        proof {
            lemma_first_sc_props(whole, 0);
            lemma_drain_skip_to_first(whole, i as int);
            assert(crate::packetize::chunk_views(out@) + spec_drain(whole.skip(i as int)).0
                =~= spec_drain(whole).0);
        }

        loop
            invariant_except_break
                self.buf@ == whole,
            invariant
                is_start_code(whole, i as int),
                first_start_code(whole, 0) is Some,
                i + 3 <= whole.len(),
                ({
                    let d = spec_drain(whole);
                    let drest = spec_drain(whole.skip(i as int));
                    &&& d.0 == crate::packetize::chunk_views(out@) + drest.0
                    &&& d.1 == drest.1
                    &&& first_start_code(whole.skip(i as int), 0) == Some(0int)
                }),
            ensures
                ({
                    let d = spec_drain(whole);
                    crate::packetize::chunk_views(out@) == d.0 && self.buf@ == whole.skip(i as int)
                        && whole.skip(i as int) == d.1
                }),
            decreases whole.len() - i,
        {
            proof {
                lemma_drain_at_sc(whole, i as int);
            }
            let n = self.buf.len();
            proof {
                assert(i + 3 <= n);
            }
            match find_start_code(&self.buf, i + 3) {
                Some(j) => {
                    proof {
                        lemma_first_sc_props(whole, i + 3);
                        lemma_first_sc_shift(whole, i as int, 3);
                    }
                    let body_end = if self.buf[j - 1] == 0 {
                        j - 1
                    } else {
                        j
                    };
                    let mut unit: Vec<u8> = Vec::new();
                    unit.push(0);
                    unit.push(0);
                    unit.push(0);
                    unit.push(1);
                    let mut body = vstd::slice::slice_to_vec(
                        vstd::slice::slice_subrange(self.buf.as_slice(), i + 3, body_end),
                    );
                    unit.append(&mut body);
                    proof {
                        assert(unit@ =~= out_prefix() + whole.subrange(i + 3, body_end as int));
                        // the unit just built is the head of the remaining drain
                        lemma_drain_step(whole, i as int, j as int);
                        assert(crate::packetize::chunk_views(out@.push(unit))
                            =~= crate::packetize::chunk_views(out@).push(unit@));
                        let d = spec_drain(whole);
                        let drest = spec_drain(whole.skip(i as int));
                        let dnext = spec_drain(whole.skip(j as int));
                        assert(drest.0 == seq![unit@] + dnext.0);
                        assert(crate::packetize::chunk_views(out@.push(unit)) + dnext.0
                            =~= crate::packetize::chunk_views(out@) + drest.0);
                    }
                    out.push(unit);
                    i = j;
                    proof {
                        lemma_first_sc_props(whole, i as int);
                        lemma_first_sc_shift(whole, i as int, 0);
                        assert(first_start_code(whole.skip(i as int), 0) == Some(0int));
                    }
                },
                None => {
                    proof {
                        lemma_drain_no_next(whole, i as int);
                    }
                    let rest = self.buf.split_off(i);
                    proof {
                        assert(rest@ =~= whole.skip(i as int));
                    }
                    self.buf = rest;
                    break ;
                },
            }
        }
        out
    }
}

/// At a start code, the drain of the suffix from it is the drain there.
proof fn lemma_drain_at_sc(s: Seq<u8>, i: int)
    requires
        is_start_code(s, i),
        first_start_code(s.skip(i), 0) == Some(0int),
    ensures
        ({
            let t = s.skip(i);
            spec_drain(t) == (match first_start_code(t, 3) {
                None => (Seq::<Seq<u8>>::empty(), t),
                Some(j) => {
                    let body_end = if t[j - 1] == 0 {
                        j - 1
                    } else {
                        j as int
                    };
                    let unit = out_prefix() + t.subrange(3, body_end);
                    let rec = spec_drain(t.skip(j));
                    (seq![unit] + rec.0, rec.1)
                },
            })
        }),
{
    let t = s.skip(i);
    match first_start_code(t, 3) {
        Some(j) => {
            lemma_first_sc_props(t, 3);
        },
        None => {
        },
    }
}

/// One drain step: at a start code `i` whose next start code is `j`, the
/// drain emits the unit between them and continues at `j`.
proof fn lemma_drain_step(s: Seq<u8>, i: int, j: int)
    requires
        is_start_code(s, i),
        first_start_code(s, i + 3) == Some(j),
        first_start_code(s.skip(i), 0) == Some(0int),
    ensures
        i + 3 <= j,
        j + 3 <= s.len(),
        ({
            let body_end = if s[j - 1] == 0 {
                j - 1
            } else {
                j as int
            };
            let unit = out_prefix() + s.subrange(i + 3, body_end);
            let drest = spec_drain(s.skip(i));
            let dnext = spec_drain(s.skip(j));
            drest.0 == seq![unit] + dnext.0 && drest.1 == dnext.1
        }),
{
    lemma_first_sc_props(s, i + 3);
    let t = s.skip(i);
    lemma_first_sc_shift(s, i, 3);
    assert(first_start_code(t, 3) == Some(j - i));
    lemma_drain_at_sc(s, i);
    let jj = j - i;
    assert(t[jj - 1] == s[j - 1]);
    let body_end_t = if t[jj - 1] == 0 {
        jj - 1
    } else {
        jj as int
    };
    let body_end = if s[j - 1] == 0 {
        j - 1
    } else {
        j as int
    };
    assert(t.subrange(3, body_end_t) =~= s.subrange(i + 3, body_end));
    assert(t.skip(jj) =~= s.skip(j));
}

/// A unit without a following start code is not complete: the drain keeps
/// everything from its start code on.
proof fn lemma_drain_no_next(s: Seq<u8>, i: int)
    requires
        is_start_code(s, i),
        first_start_code(s, i + 3) is None,
        first_start_code(s.skip(i), 0) == Some(0int),
    ensures
        spec_drain(s.skip(i)) == (Seq::<Seq<u8>>::empty(), s.skip(i)),
{
    let t = s.skip(i);
    lemma_first_sc_shift(s, i, 3);
}

} // verus!
