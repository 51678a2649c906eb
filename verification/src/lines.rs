//! Splitting a byte stream into newline-delimited lines.
//!
//! The stream model: a byte sequence is cut at every line feed. Each complete
//! line is the run of bytes since the previous cut, with one trailing carriage
//! return removed (so both `\n` and `\r\n` delimit a line); bytes after the
//! last line feed remain pending. [`LineBuffer`] holds those pending bytes
//! between reads, so a line may arrive split across many chunks.

use vstd::prelude::*;

verus! {

/// The line feed byte, `\n`.
pub const LF: u8 = 10;

/// The carriage return byte, `\r`.
pub const CR: u8 = 13;

/// Holds when no byte of `s` is a line feed.
pub open spec fn no_lf(s: Seq<u8>) -> bool {
    forall|i: int| 0 <= i < s.len() ==> s[i] != LF
}

/// One trailing carriage return removed, if present: the content of a line
/// that was delimited by `\r\n` as well as by `\n` alone.
pub open spec fn strip_cr(line: Seq<u8>) -> Seq<u8> {
    if line.len() > 0 && line.last() == CR {
        line.drop_last()
    } else {
        line
    }
}

/// Cuts `s` at every line feed: the complete lines, in input order and with
/// their delimiters removed, paired with the pending bytes after the last cut.
pub open spec fn split_stream(s: Seq<u8>) -> (Seq<Seq<u8>>, Seq<u8>)
    decreases s.len(),
{
    if s.len() == 0 {
        (Seq::empty(), Seq::empty())
    } else {
        let (done, rest) = split_stream(s.drop_last());
        if s.last() == LF {
            (done.push(strip_cr(rest)), Seq::empty())
        } else {
            (done, rest.push(s.last()))
        }
    }
}

/// The complete lines of `s`, in input order, delimiters removed.
pub open spec fn complete_lines(s: Seq<u8>) -> Seq<Seq<u8>> {
    split_stream(s).0
}

/// The bytes of `s` after its last line feed: the start of a line whose
/// delimiter has not arrived yet.
pub open spec fn pending_tail(s: Seq<u8>) -> Seq<u8> {
    split_stream(s).1
}

/// The pending bytes never contain a line feed.
pub proof fn lemma_pending_tail_no_lf(s: Seq<u8>)
    ensures
        no_lf(pending_tail(s)),
    decreases s.len(),
{
    if s.len() > 0 {
        lemma_pending_tail_no_lf(s.drop_last());
    }
}

/// A stream without a line feed is all pending: no line is complete yet.
pub proof fn lemma_no_lf_all_pending(s: Seq<u8>)
    requires
        no_lf(s),
    ensures
        complete_lines(s) == Seq::<Seq<u8>>::empty(),
        pending_tail(s) == s,
    decreases s.len(),
{
    if s.len() > 0 {
        assert(forall|i: int| 0 <= i < s.len() - 1 ==> s.drop_last()[i] == s[i]);
        lemma_no_lf_all_pending(s.drop_last());
        assert(pending_tail(s.drop_last()).push(s.last()) =~= s);
    } else {
        assert(s =~= Seq::<u8>::empty());
    }
}

/// Appending bytes that hold no line feed completes no line: it only grows the
/// pending tail.
pub proof fn lemma_extend_no_lf(s: Seq<u8>, t: Seq<u8>)
    requires
        no_lf(t),
    ensures
        complete_lines(s + t) == complete_lines(s),
        pending_tail(s + t) == pending_tail(s) + t,
    decreases t.len(),
{
    if t.len() == 0 {
        assert(s + t =~= s);
        assert(pending_tail(s) + t =~= pending_tail(s));
    } else {
        let t0 = t.drop_last();
        assert(no_lf(t0)) by {
            assert(forall|i: int| 0 <= i < t0.len() ==> t0[i] == t[i]);
        }
        lemma_extend_no_lf(s, t0);
        assert(s + t =~= (s + t0).push(t.last()));
        assert((s + t0).push(t.last()).drop_last() =~= s + t0);
        assert(pending_tail(s) + t =~= (pending_tail(s) + t0).push(t.last()));
    }
}

/// Appending a line feed completes the pending line and empties the tail.
pub proof fn lemma_append_lf(s: Seq<u8>)
    ensures
        complete_lines(s.push(LF)) == complete_lines(s).push(strip_cr(pending_tail(s))),
        pending_tail(s.push(LF)) == Seq::<u8>::empty(),
{
    assert(s.push(LF).drop_last() =~= s);
}

/// The pending bytes read so far that no line feed has yet terminated.
///
/// Feed chunks of input with [`LineBuffer::push`]; it returns each line as
/// soon as its delimiter arrives. At end of input, [`LineBuffer::take_rest`]
/// yields the unterminated final line, if any.
pub struct LineBuffer {
    pending: Vec<u8>,
}

impl View for LineBuffer {
    type V = Seq<u8>;

    closed spec fn view(&self) -> Seq<u8> {
        self.pending@
    }
}

impl LineBuffer {
    #[verifier::type_invariant]
    spec fn inv(self) -> bool {
        no_lf(self.pending@)
    }

    /// An empty buffer: no bytes are pending.
    pub fn new() -> (b: Self)
        ensures
            b@ == Seq::<u8>::empty(),
    {
        let b = LineBuffer { pending: Vec::new() };
        proof {
            assert(b@ =~= Seq::<u8>::empty());
        }
        b
    }

    /// Appends one chunk of input and returns every line it completes, in
    /// input order and with delimiters removed; the bytes after the chunk's
    /// last line feed stay pending.
    pub fn push(&mut self, chunk: &[u8]) -> (out: Vec<Vec<u8>>)
        ensures
            (({
                let full = old(self)@ + chunk@;
                &&& out@.map_values(|v: Vec<u8>| v@) == complete_lines(full)
                &&& final(self)@ == pending_tail(full)
            })),
    {
        proof {
            use_type_invariant(&*self);
        }
        let ghost base: Seq<u8> = self.pending@;
        let mut pend: Vec<u8> = Vec::new();
        core::mem::swap(&mut pend, &mut self.pending);
        let mut out: Vec<Vec<u8>> = Vec::new();
        proof {
            assert(base + chunk@.take(0) =~= base);
            lemma_no_lf_all_pending(base);
            assert(out@.map_values(|v: Vec<u8>| v@) =~= Seq::<Seq<u8>>::empty());
        }
        let mut k: usize = 0;
        while k < chunk.len()
            invariant
                k <= chunk.len(),
                out@.map_values(|v: Vec<u8>| v@) == complete_lines(base + chunk@.take(k as int)),
                pend@ == pending_tail(base + chunk@.take(k as int)),
                no_lf(pend@),
            decreases chunk.len() - k,
        {
            let ghost full_k = base + chunk@.take(k as int);
            let b = chunk[k];
            proof {
                assert(base + chunk@.take(k as int + 1) =~= full_k.push(b));
            }
            if b == LF {
                let ghost rest = pend@;
                if pend.len() > 0 && pend[pend.len() - 1] == CR {
                    let _last = pend.pop();
                }
                proof {
                    assert(pend@ == strip_cr(rest));
                    lemma_append_lf(full_k);
                }
                let mut line: Vec<u8> = Vec::new();
                core::mem::swap(&mut line, &mut pend);
                out.push(line);
                proof {
                    assert(out@.map_values(|v: Vec<u8>| v@) =~= complete_lines(
                        full_k,
                    ).push(strip_cr(rest)));
                    assert(pend@ =~= Seq::<u8>::empty());
                }
            } else {
                pend.push(b);
                proof {
                    lemma_extend_no_lf(full_k, seq![b]);
                    assert(full_k + seq![b] =~= full_k.push(b));
                    assert(pending_tail(full_k) + seq![b] =~= pending_tail(full_k).push(b));
                }
            }
            k = k + 1;
        }
        proof {
            assert(base + chunk@.take(chunk@.len() as int) =~= base + chunk@);
        }
        self.pending = pend;
        out
    }

    /// Takes the unterminated final line at end of input: the pending bytes,
    /// exactly as they arrived, or nothing if no byte is pending. The buffer
    /// is left empty either way.
    pub fn take_rest(&mut self) -> (out: Option<Vec<u8>>)
        ensures
            final(self)@ == Seq::<u8>::empty(),
            out is Some <==> old(self)@.len() > 0,
            out matches Some(v) ==> v@ == old(self)@,
    {
        let mut rest: Vec<u8> = Vec::new();
        core::mem::swap(&mut rest, &mut self.pending);
        proof {
            assert(self.pending@ =~= Seq::<u8>::empty());
        }
        if rest.len() > 0 {
            Some(rest)
        } else {
            None
        }
    }
}

} // verus!
