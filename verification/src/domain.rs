//! Decomposition of a `(address, length)` bit range over an element array
//! into a partial head, a run of whole elements, and a partial tail —
//! together with the proof that the three parts cover exactly the named
//! range, with no bit counted twice and no bit outside it.

use crate::addr::BitAddress;
use vstd::prelude::*;

verus! {

/// A partial element at the edge of a decomposed range: element `elem`,
/// semantic positions `lo..hi` inside it.
#[derive(Clone, Copy, Debug, PartialEq, Eq, Structural)]
pub struct EdgeSpan {
    /// The element index.
    pub elem: usize,
    /// The first covered position inside the element.
    pub lo: usize,
    /// One past the last covered position inside the element.
    pub hi: usize,
}

/// The head/body/tail decomposition of a bit range.
///
/// `head` and `tail` are genuinely partial elements (they never cover a
/// whole element — a whole element always folds into the body), and the
/// body is the run of element indices `body_start..body_end`, every bit
/// of which belongs to the range.
#[derive(Clone, Copy, Debug, PartialEq, Eq, Structural)]
pub struct Domain {
    /// The leading partial element, if the range starts partway into one.
    pub head: Option<EdgeSpan>,
    /// First element fully covered by the range.
    pub body_start: usize,
    /// One past the last element fully covered by the range.
    pub body_end: usize,
    /// The trailing partial element, if the range ends partway into one.
    pub tail: Option<EdgeSpan>,
}

/// The absolute bit position of semantic position `j` in element `e`.
pub open spec fn abs_of(e: usize, j: usize, w: usize) -> int {
    e * w + j
}

/// How many bits the head of a decomposition covers.
pub open spec fn spec_head_len(d: Domain) -> int {
    if d.head is Some {
        d.head.unwrap().hi - d.head.unwrap().lo
    } else {
        0
    }
}

impl Domain {
    /// Whether the head covers position `j` of element `e`.
    pub open spec fn covers_head(self, e: usize, j: usize) -> bool {
        self.head is Some && {
            let h = self.head.unwrap();
            e == h.elem && h.lo <= j < h.hi
        }
    }

    /// Whether the body covers element `e` (every position of it).
    pub open spec fn covers_body(self, e: usize) -> bool {
        self.body_start <= e < self.body_end
    }

    /// Whether the tail covers position `j` of element `e`.
    pub open spec fn covers_tail(self, e: usize, j: usize) -> bool {
        self.tail is Some && {
            let t = self.tail.unwrap();
            e == t.elem && t.lo <= j < t.hi
        }
    }

    /// Whether any part covers position `j` of element `e`.
    pub open spec fn covers(self, e: usize, j: usize) -> bool {
        self.covers_head(e, j) || self.covers_body(e) || self.covers_tail(e, j)
    }

    /// Every structural fact the decomposition guarantees, relative to the
    /// range `[start, start + len)` over `w`-bit elements.
    pub open spec fn decomposes(self, start: int, len: usize, w: usize) -> bool {
        // The edges are genuinely partial, ordered, and flush with the body.
        &&& (self.head matches Some(h) ==> h.lo < h.hi <= w && (0 < h.lo || h.hi < w)
            && h.elem + 1 == self.body_start)
        &&& (self.tail matches Some(t) ==> t.lo == 0 && 0 < t.hi < w && t.elem == self.body_end)
        &&& self.body_start <= self.body_end
        // Coverage: the parts name exactly the bits of the range.
        &&& forall|e: usize, j: usize| j < w ==> (self.covers(e, j) <==> start <= abs_of(e, j, w)
            < start + len)
        // Disjointness: no bit is named by two parts.
        &&& forall|e: usize, j: usize| !(self.covers_head(e, j) && self.covers_body(e))
        &&& forall|e: usize, j: usize| !(self.covers_head(e, j) && self.covers_tail(e, j))
        &&& forall|e: usize, j: usize| !(self.covers_body(e) && self.covers_tail(e, j))
    }

    /// Decomposes the `len` bits starting at `addr` into head, body and
    /// tail.  The postcondition is the coverage/disjointness law: together
    /// the parts cover exactly the named range and nothing twice.
    pub fn new(addr: BitAddress, len: usize) -> (d: Domain)
        requires
            addr.wf(),
            addr.abs_pos() + len <= usize::MAX,
        ensures
            d.decomposes(addr.abs_pos(), len, addr.spec_width()),
            len == 0 ==> d.head is None && d.tail is None && d.body_start == d.body_end
                && d.body_start == addr.elem,
            // Where each part sits on the absolute bit line: the head starts
            // at the address, the body right after the head, the tail right
            // after the body, and the last part ends exactly at `start + len`.
            d.head matches Some(h) ==> h.elem == addr.elem && h.lo == addr.index.spec_value(),
            d.body_start < d.body_end ==> d.body_start * addr.spec_width() == addr.abs_pos()
                + spec_head_len(d),
            d.tail matches Some(t) ==> t.elem * addr.spec_width() == addr.abs_pos()
                + spec_head_len(d) + (d.body_end - d.body_start) * addr.spec_width(),
            d.tail matches Some(t) ==> t.elem * addr.spec_width() + t.hi == addr.abs_pos() + len,
            d.tail is None && d.body_start < d.body_end ==> d.body_end * addr.spec_width()
                == addr.abs_pos() + len,
            d.tail is None && d.body_start == d.body_end && d.head is Some ==> spec_head_len(d)
                == len,
    {
        let w = addr.index.width();
        let i0 = addr.index.value();
        let k0 = addr.elem;
        let ghost start = addr.abs_pos();
        proof {
            lemma_elem_bound(k0, w, i0, len);
        }
        if len == 0 {
            let d = Domain { head: None, body_start: k0, body_end: k0, tail: None };
            proof {
                assert forall|e: usize, j: usize| j < w implies (d.covers(e, j) <==> start <= abs_of(
                    e,
                    j,
                    w,
                ) < start + len) by {
                    assert(!d.covers(e, j));
                }
            }
            d
        } else if len <= w - i0 {
            // The whole range sits inside the starting element.
            if i0 == 0 && len == w {
                let d = Domain { head: None, body_start: k0, body_end: k0 + 1, tail: None };
                proof {
                    assert forall|e: usize, j: usize| j < w implies (d.covers(e, j) <==> start
                        <= abs_of(e, j, w) < start + len) by {
                        lemma_abs_window(e, j, w, k0);
                    }
                    assert((k0 + 1) * w == k0 * w + w) by (nonlinear_arith);
                }
                d
            } else {
                let d = Domain {
                    head: Some(EdgeSpan { elem: k0, lo: i0, hi: i0 + len }),
                    body_start: k0 + 1,
                    body_end: k0 + 1,
                    tail: None,
                };
                proof {
                    assert forall|e: usize, j: usize| j < w implies (d.covers(e, j) <==> start
                        <= abs_of(e, j, w) < start + len) by {
                        lemma_abs_window(e, j, w, k0);
                    }
                }
                d
            }
        } else {
            // The range spans more than one element.
            let head = if i0 > 0 {
                Some(EdgeSpan { elem: k0, lo: i0, hi: w })
            } else {
                None
            };
            let consumed = if i0 > 0 {
                w - i0
            } else {
                0
            };
            let rest = len - consumed;
            let bs = if i0 > 0 {
                k0 + 1
            } else {
                k0
            };
            let nb = rest / w;
            let tl = rest % w;
            proof {
                vstd::arithmetic::div_mod::lemma_fundamental_div_mod(rest as int, w as int);
                assert(rest == nb * w + tl && tl < w) by (nonlinear_arith)
                    requires
                        w > 0,
                        nb == rest as int / w as int,
                        tl == rest as int % w as int,
                ;
                assert(bs * w == start + consumed) by (nonlinear_arith)
                    requires
                        bs == (if i0 > 0 { k0 + 1 } else { k0 as int }),
                        consumed == (if i0 > 0 { w - i0 } else { 0int }),
                        i0 < w,
                        start == k0 * w + i0,
                ;
                assert(bs * w + nb * w == (bs + nb) * w) by (nonlinear_arith);
                assert((bs + nb) * w == start + len - tl);
                assert(bs + nb <= usize::MAX) by (nonlinear_arith)
                    requires
                        (bs + nb) * w <= usize::MAX,
                        w >= 1,
                        bs >= 0,
                        nb >= 0,
                ;
            }
            let be = bs + nb;
            let tail = if tl > 0 {
                Some(EdgeSpan { elem: be, lo: 0, hi: tl })
            } else {
                None
            };
            let d = Domain { head, body_start: bs, body_end: be, tail };
            proof {
                if i0 == 0 {
                    assert(nb >= 1) by (nonlinear_arith)
                        requires
                            nb * w + tl == rest,
                            rest > w,
                            tl < w,
                            w > 0,
                            nb >= 0,
                    ;
                }
                assert((be - bs) * w == nb * w) by (nonlinear_arith)
                    requires
                        be == bs + nb,
                ;
                assert forall|e: usize, j: usize| j < w implies (d.covers(e, j) <==> start
                    <= abs_of(e, j, w) < start + len) by {
                    lemma_abs_window(e, j, w, k0);
                    lemma_abs_window(e, j, w, bs);
                    lemma_abs_window(e, j, w, be);
                    lemma_span_window(e, j, w, bs, be);
                }
            }
            d
        }
    }
}

/// If the absolute start position of an element range fits in `usize`,
/// so do the element indices right after it.
proof fn lemma_elem_bound(k0: usize, w: usize, i0: usize, len: usize)
    requires
        8 <= w,
        k0 * w + i0 + len <= usize::MAX,
    ensures
        k0 + 1 <= usize::MAX,
        k0 * w + i0 + len <= usize::MAX,
{
    assert(k0 == 0 || k0 * 8 <= k0 * w) by (nonlinear_arith)
        requires
            w >= 8,
            k0 >= 0,
    ;
}

/// Where the positions of element `k` sit on the absolute bit line.
proof fn lemma_abs_window(e: usize, j: usize, w: usize, k: usize)
    by (nonlinear_arith)
    requires
        j < w,
        0 < w,
    ensures
        e == k ==> abs_of(e, j, w) == k * w + j,
        e < k ==> abs_of(e, j, w) < k * w,
        e > k ==> abs_of(e, j, w) >= (k + 1) * w,
        k * w + w == (k + 1) * w,
{
}

/// Where the positions of the elements `bs..be` sit on the absolute bit line.
proof fn lemma_span_window(e: usize, j: usize, w: usize, bs: usize, be: usize)
    by (nonlinear_arith)
    requires
        j < w,
        0 < w,
        bs <= be,
    ensures
        bs <= e < be ==> bs * w <= abs_of(e, j, w) < be * w,
        e < bs ==> abs_of(e, j, w) < bs * w,
        e >= be ==> abs_of(e, j, w) >= be * w,
{
}

} // verus!
