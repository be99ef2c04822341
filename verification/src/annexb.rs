//! Splitting an Annex-B byte stream into NAL unit views.
//!
//! The stream delimits NAL units with 3-byte (`00 00 01`) or 4-byte
//! (`00 00 00 01`) start codes; the 4-byte form is preferred where both
//! match. Bytes before the first start code are discarded, empty spans
//! between adjacent start codes are dropped, and the bytes after the last
//! start code form the final unit.

use vstd::prelude::*;
use vstd::slice::slice_subrange;

verus! {

/// Whether a 4-byte start code `00 00 00 01` stands at position `i` of `s`.
pub open spec fn is_start4(s: Seq<u8>, i: int) -> bool {
    &&& i + 4 <= s.len()
    &&& s[i] == 0
    &&& s[i + 1] == 0
    &&& s[i + 2] == 0
    &&& s[i + 3] == 1
}

/// Whether a 3-byte start code `00 00 01` stands at position `i` of `s`.
pub open spec fn is_start3(s: Seq<u8>, i: int) -> bool {
    &&& i + 3 <= s.len()
    &&& s[i] == 0
    &&& s[i + 1] == 0
    &&& s[i + 2] == 1
}

/// The `(start, end)` spans of the NAL unit views that the left-to-right scan
/// yields from position `i` onward, where `cur` holds the payload start
/// opened by the last start code already seen, if any.
pub open spec fn annexb_scan(s: Seq<u8>, i: int, cur: Option<int>) -> Seq<(int, int)>
    decreases s.len() - i,
{
    if i + 3 > s.len() {
        match cur {
            Some(st) => if st < s.len() {
                seq![(st, s.len() as int)]
            } else {
                seq![]
            },
            None => seq![],
        }
    } else if is_start4(s, i) {
        let tail = annexb_scan(s, i + 4, Some(i + 4));
        match cur {
            Some(st) => if st < i {
                seq![(st, i)] + tail
            } else {
                tail
            },
            None => tail,
        }
    } else if is_start3(s, i) {
        let tail = annexb_scan(s, i + 3, Some(i + 3));
        match cur {
            Some(st) => if st < i {
                seq![(st, i)] + tail
            } else {
                tail
            },
            None => tail,
        }
    } else {
        annexb_scan(s, i + 1, cur)
    }
}

/// The spans of the NAL unit views of a whole Annex-B buffer.
pub open spec fn annexb_spans(s: Seq<u8>) -> Seq<(int, int)> {
    annexb_scan(s, 0, None)
}

/// Every span the scan yields is a non-empty range inside the buffer.
proof fn lemma_annexb_scan_spans_wf(s: Seq<u8>, i: int, cur: Option<int>)
    requires
        0 <= i,
        cur matches Some(st) ==> 0 <= st <= s.len(),
    ensures
        forall|j: int|
            0 <= j < annexb_scan(s, i, cur).len() ==> {
                let sp = #[trigger] annexb_scan(s, i, cur)[j];
                0 <= sp.0 < sp.1 <= s.len()
            },
    decreases s.len() - i,
{
    let r = annexb_scan(s, i, cur);
    if i + 3 > s.len() {
        match cur {
            Some(st) => {
                if st < s.len() {
                    assert(r == seq![(st, s.len() as int)]);
                    assert(r[0] == (st, s.len() as int));
                } else {
                    assert(r.len() == 0);
                }
            },
            None => {
                assert(r.len() == 0);
            },
        }
    } else if is_start4(s, i) {
        let tail = annexb_scan(s, i + 4, Some(i + 4));
        lemma_annexb_scan_spans_wf(s, i + 4, Some(i + 4));
        assert forall|j: int| 0 <= j < r.len() implies {
            let sp = #[trigger] r[j];
            0 <= sp.0 < sp.1 <= s.len()
        } by {
            if cur matches Some(st) && st < i {
                if j > 0 {
                    assert(r[j] == tail[j - 1]);
                }
            } else {
                assert(r[j] == tail[j]);
            }
        }
    } else if is_start3(s, i) {
        let tail = annexb_scan(s, i + 3, Some(i + 3));
        lemma_annexb_scan_spans_wf(s, i + 3, Some(i + 3));
        assert forall|j: int| 0 <= j < r.len() implies {
            let sp = #[trigger] r[j];
            0 <= sp.0 < sp.1 <= s.len()
        } by {
            if cur matches Some(st) && st < i {
                if j > 0 {
                    assert(r[j] == tail[j - 1]);
                }
            } else {
                assert(r[j] == tail[j]);
            }
        }
    } else {
        lemma_annexb_scan_spans_wf(s, i + 1, cur);
        assert(r == annexb_scan(s, i + 1, cur));
        assert forall|j: int| 0 <= j < r.len() implies {
            let sp = #[trigger] r[j];
            0 <= sp.0 < sp.1 <= s.len()
        } by {
            assert(r[j] == annexb_scan(s, i + 1, cur)[j]);
        }
    }
}

/// The span list of a whole buffer holds only non-empty in-range spans.
pub proof fn lemma_annexb_spans_wf(s: Seq<u8>)
    ensures
        forall|j: int|
            0 <= j < annexb_spans(s).len() ==> {
                let sp = #[trigger] annexb_spans(s)[j];
                0 <= sp.0 < sp.1 <= s.len()
            },
{
    lemma_annexb_scan_spans_wf(s, 0, None);
}

/// The spec-level image of the running cursor: the payload start opened by
/// the last start code seen so far, if any.
pub open spec fn opt_index(o: Option<usize>) -> Option<int> {
    match o {
        Some(v) => Some(v as int),
        None => None,
    }
}

/// Scans `data` for 3- and 4-byte start codes and returns the NAL unit views
/// between them, in encounter order: exactly the spans of `annexb_spans`,
/// every one non-empty. Empty input or input without a start code yields an
/// empty sequence.
#[verifier::loop_isolation(false)]
pub fn split_annexb_nalus<'a>(data: &'a [u8]) -> (r: Vec<&'a [u8]>)
    ensures
        r@.len() == annexb_spans(data@).len(),
        forall|j: int|
            0 <= j < r@.len() ==> r@[j]@ == data@.subrange(
                #[trigger] annexb_spans(data@)[j].0,
                annexb_spans(data@)[j].1,
            ),
        forall|j: int| 0 <= j < r@.len() ==> #[trigger] r@[j]@.len() > 0,
{
    let ghost spans = annexb_spans(data@);
    let mut nalus: Vec<&'a [u8]> = Vec::new();
    let mut nalu_start: Option<usize> = None;
    let mut i: usize = 0;

    proof {
        assert(spans =~= spans.subrange(0, 0) + annexb_scan(data@, 0, opt_index(nalu_start)));
    }
    while data.len() - i >= 3
        invariant
            i <= data.len(),
            nalu_start matches Some(st) ==> st <= data.len(),
            nalus@.len() <= spans.len(),
            spans == spans.subrange(0, nalus@.len() as int) + annexb_scan(
                data@,
                i as int,
                opt_index(nalu_start),
            ),
            forall|j: int|
                0 <= j < nalus@.len() ==> nalus@[j]@ == data@.subrange(
                    #[trigger] spans[j].0,
                    spans[j].1,
                ),
        decreases data.len() - i,
    {
        let start_code_len: usize = if data.len() - i >= 4 && data[i] == 0 && data[i + 1] == 0
            && data[i + 2] == 0 && data[i + 3] == 1 {
            4
        } else if data[i] == 0 && data[i + 1] == 0 && data[i + 2] == 1 {
            3
        } else {
            0
        };

        if start_code_len == 0 {
            proof {
                assert(annexb_scan(data@, i as int, opt_index(nalu_start)) == annexb_scan(
                    data@,
                    i as int + 1,
                    opt_index(nalu_start),
                ));
            }
            i = i + 1;
        } else {
            let ghost nxt: int = i as int + start_code_len as int;
            let ghost tail = annexb_scan(data@, nxt, Some(nxt));
            if let Some(start) = nalu_start {
                if start < i {
                    proof {
                        assert(annexb_scan(data@, i as int, opt_index(nalu_start)) == seq![
                            (start as int, i as int),
                        ] + tail);
                        assert(spans == spans.subrange(0, nalus@.len() as int) + (seq![
                            (start as int, i as int),
                        ] + tail));
                        assert(spans == (spans.subrange(0, nalus@.len() as int) + seq![
                            (start as int, i as int),
                        ]) + tail) by {
                            assert(spans.subrange(0, nalus@.len() as int) + (seq![
                                (start as int, i as int),
                            ] + tail) =~= (spans.subrange(0, nalus@.len() as int) + seq![
                                (start as int, i as int),
                            ]) + tail);
                        }
                        assert(spans[nalus@.len() as int] == (start as int, i as int));
                        assert(spans.subrange(0, nalus@.len() as int + 1) =~= spans.subrange(
                            0,
                            nalus@.len() as int,
                        ) + seq![(start as int, i as int)]);
                    }
                    nalus.push(slice_subrange(data, start, i));
                } else {
                    proof {
                        assert(annexb_scan(data@, i as int, opt_index(nalu_start)) == tail);
                    }
                }
            } else {
                proof {
                    assert(annexb_scan(data@, i as int, opt_index(nalu_start)) == tail);
                }
            }
            nalu_start = Some(i + start_code_len);
            i = i + start_code_len;
        }
    }

    // push the final NALU, from the end of the last start code to buffer end
    if let Some(start) = nalu_start {
        if start < data.len() {
            proof {
                assert(annexb_scan(data@, i as int, opt_index(nalu_start)) == seq![
                    (start as int, data@.len() as int),
                ]);
                assert(spans[nalus@.len() as int] == (start as int, data@.len() as int));
                assert(spans.subrange(0, nalus@.len() as int + 1) =~= spans.subrange(
                    0,
                    nalus@.len() as int,
                ) + seq![(start as int, data@.len() as int)]);
                assert(spans.len() == nalus@.len() + 1);
            }
            nalus.push(slice_subrange(data, start, data.len()));
        } else {
            proof {
                assert(annexb_scan(data@, i as int, opt_index(nalu_start)) =~= Seq::<
                    (int, int),
                >::empty());
                assert(spans =~= spans.subrange(0, nalus@.len() as int));
            }
        }
    } else {
        proof {
            assert(annexb_scan(data@, i as int, opt_index(nalu_start)) =~= Seq::<
                (int, int),
            >::empty());
            assert(spans =~= spans.subrange(0, nalus@.len() as int));
        }
    }

    proof {
        assert(spans =~= spans.subrange(0, spans.len() as int));
        lemma_annexb_spans_wf(data@);
        assert forall|j: int| 0 <= j < nalus@.len() implies #[trigger] nalus@[j]@.len() > 0 by {
            assert(nalus@[j]@ == data@.subrange(spans[j].0, spans[j].1));
            assert(0 <= spans[j].0 < spans[j].1 <= data@.len());
        }
    }
    nalus
}

} // verus!
