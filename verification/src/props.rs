//! The bridge's delivery guarantees, stated over the stream model.
//!
//! The channel itself is trusted to be FIFO; what is proved here is that the
//! verified part of the worker — splitting and decoding — hands the channel
//! exactly the input's lines, in input order.

use vstd::prelude::*;
use crate::decode::decoded_lines;
use crate::decode::utf8_decode;
use crate::lines::complete_lines;
use crate::lines::lemma_append_lf;
use crate::lines::lemma_extend_no_lf;
use crate::lines::no_lf;
use crate::lines::pending_tail;
use crate::lines::strip_cr;
use crate::lines::CR;
use crate::lines::LF;

verus! {

/// The byte stream that carries the given lines, each terminated by one line
/// feed.
pub open spec fn terminated(ls: Seq<Seq<u8>>) -> Seq<u8>
    decreases ls.len(),
{
    if ls.len() == 0 {
        Seq::empty()
    } else {
        terminated(ls.drop_last()) + ls.last() + seq![LF]
    }
}

/// A line that the stream model reproduces exactly: it holds no line feed —
/// one would cut it in two — and does not end in a carriage return, which the
/// delimiter stripping would remove.
pub open spec fn plain_line(l: Seq<u8>) -> bool {
    no_lf(l) && !(l.len() > 0 && l.last() == CR)
}

/// Splitting recovers the lines of a terminated stream: a source of plain
/// lines, each followed by a line feed, splits back into exactly those lines,
/// in order, with nothing left pending.
pub proof fn lemma_split_terminated(ls: Seq<Seq<u8>>)
    requires
        forall|i: int| 0 <= i < ls.len() ==> plain_line(#[trigger] ls[i]),
    ensures
        complete_lines(terminated(ls)) == ls,
        pending_tail(terminated(ls)).len() == 0,
    decreases ls.len(),
{
    if ls.len() == 0 {
        assert(complete_lines(terminated(ls)) =~= ls);
    } else {
        let ls0 = ls.drop_last();
        let l = ls.last();
        assert(forall|i: int| 0 <= i < ls0.len() ==> plain_line(#[trigger] ls0[i]));
        lemma_split_terminated(ls0);
        lemma_extend_no_lf(terminated(ls0), l);
        lemma_append_lf(terminated(ls0) + l);
        assert(terminated(ls) =~= (terminated(ls0) + l).push(LF));
        assert(pending_tail(terminated(ls0)) + l =~= l);
        assert(strip_cr(l) == l);
        assert(ls0.push(l) =~= ls);
        assert(complete_lines(terminated(ls)) =~= ls);
    }
}

/// Where a given line lands in the delivered output: the number of decodable
/// lines before it.
pub open spec fn delivery_index(raws: Seq<Seq<u8>>, i: int) -> int {
    decoded_lines(raws.take(i)).len() as int
}

/// A line that decodes is delivered, at its delivery index, as its decoding.
pub proof fn lemma_delivered_at(raws: Seq<Seq<u8>>, i: int)
    requires
        0 <= i < raws.len(),
        utf8_decode(raws[i]) is Some,
    ensures
        0 <= delivery_index(raws, i) < decoded_lines(raws).len(),
        decoded_lines(raws)[delivery_index(raws, i)] == utf8_decode(raws[i]).unwrap(),
    decreases raws.len(),
{
    let r0 = raws.drop_last();
    if i == raws.len() - 1 {
        assert(raws.take(i) =~= r0);
    } else {
        assert(raws.take(i) =~= r0.take(i));
        assert(r0[i] == raws[i]);
        lemma_delivered_at(r0, i);
    }
}

/// The delivered output never grows shorter as more of the input is taken.
pub proof fn lemma_delivery_monotonic(raws: Seq<Seq<u8>>, a: int, b: int)
    requires
        0 <= a <= b <= raws.len(),
    ensures
        decoded_lines(raws.take(a)).len() <= decoded_lines(raws.take(b)).len(),
    decreases b - a,
{
    if a < b {
        lemma_delivery_monotonic(raws, a + 1, b);
        assert(raws.take(a + 1).drop_last() =~= raws.take(a));
    }
}

/// Order preservation: of two distinct input lines that both decode, the
/// earlier one is delivered at the strictly earlier position — the consumer
/// never observes the later line first.
pub proof fn lemma_no_reordering(raws: Seq<Seq<u8>>, i: int, j: int)
    requires
        0 <= i < j < raws.len(),
        utf8_decode(raws[i]) is Some,
        utf8_decode(raws[j]) is Some,
    ensures
        delivery_index(raws, i) < delivery_index(raws, j),
        decoded_lines(raws)[delivery_index(raws, i)] == utf8_decode(raws[i]).unwrap(),
        decoded_lines(raws)[delivery_index(raws, j)] == utf8_decode(raws[j]).unwrap(),
{
    lemma_delivered_at(raws, i);
    lemma_delivered_at(raws, j);
    assert(raws.take(i + 1).drop_last() =~= raws.take(i));
    assert(decoded_lines(raws.take(i + 1)).len() == delivery_index(raws, i) + 1);
    lemma_delivery_monotonic(raws, i + 1, j);
}

/// Each line decodes to itself under the hypothesis below, so the delivered
/// lines are exactly the input lines' decodings, in order.
pub proof fn lemma_decode_all(ls: Seq<Seq<u8>>)
    requires
        forall|i: int| 0 <= i < ls.len() ==> (#[trigger] utf8_decode(ls[i])) is Some,
    ensures
        decoded_lines(ls) == ls.map_values(|l: Seq<u8>| utf8_decode(l).unwrap()),
    decreases ls.len(),
{
    if ls.len() > 0 {
        let ls0 = ls.drop_last();
        assert(forall|i: int| 0 <= i < ls0.len() ==> ls0[i] == ls[i]);
        lemma_decode_all(ls0);
        assert(decoded_lines(ls) =~= ls.map_values(|l: Seq<u8>| utf8_decode(l).unwrap()));
    } else {
        assert(decoded_lines(ls) =~= ls.map_values(|l: Seq<u8>| utf8_decode(l).unwrap()));
    }
}

/// Exact delivery: a finite source of N plain, decodable lines, each followed
/// by a line feed, is delivered as exactly N items, in the same order, each
/// the decoding of its line with the delimiter removed, and with no byte left
/// pending.
pub proof fn lemma_bridge_delivers(ls: Seq<Seq<u8>>)
    requires
        forall|i: int| 0 <= i < ls.len() ==> plain_line(#[trigger] ls[i]),
        forall|i: int| 0 <= i < ls.len() ==> (#[trigger] utf8_decode(ls[i])) is Some,
    ensures
        decoded_lines(complete_lines(terminated(ls))) == ls.map_values(
            |l: Seq<u8>| utf8_decode(l).unwrap(),
        ),
        decoded_lines(complete_lines(terminated(ls))).len() == ls.len(),
        pending_tail(terminated(ls)).len() == 0,
{
    lemma_split_terminated(ls);
    lemma_decode_all(ls);
}

} // verus!
