//! The worker loop's behaviour, one read event at a time.
//!
//! The caller's loop performs the blocking reads and hands each outcome in as
//! a [`ReadEvent`]; the functions here split the bytes into lines, decode
//! them, and forward every decoded line over the channel's sending end. A
//! read failure is skipped and an enqueue refused because the receiving end
//! is gone is discarded: the loop never stops on either.

use vstd::prelude::*;
use crate::decode::decode_lines;
use crate::decode::decoded_lines;
use crate::lines::complete_lines;
use crate::lines::pending_tail;
use crate::lines::LineBuffer;

verus! {

/// The sending end of tokio's bounded channel, which carries each decoded
/// line to the consumer. Opaque here: what is known of it is stated on the
/// trusted operations below.
#[verifier::external_type_specification]
#[verifier::external_body]
#[verifier::reject_recursive_types(T)]
pub struct ExSender<T>(tokio::sync::mpsc::Sender<T>);

/// Relies on `tokio::sync::mpsc::Sender::blocking_send`: appends the line at
/// the tail of the bounded queue, in the order of the calls, blocking the
/// calling thread while the queue holds its capacity of undelivered lines;
/// once the receiving end has been dropped it delivers nothing and returns an
/// error instead. Whether the line was accepted depends on the receiver, so
/// nothing is promised of the result. Must be called from a thread that may
/// block, as the bridge's worker thread does.
#[verifier::external_body]
fn send_line(tx: &tokio::sync::mpsc::Sender<String>, line: String) -> (delivered: bool) {
    tx.blocking_send(line).is_ok()
}

/// One outcome of a blocking read on the input source.
pub enum ReadEvent {
    /// The read returned this chunk of bytes.
    Data(Vec<u8>),
    /// The read failed; nothing was received and nothing is delivered.
    Failed,
    /// The source is exhausted; the unterminated final line, if any, is
    /// delivered.
    EndOfInput,
}

/// The lines a buffer delivers on one event: the decoded complete lines of
/// the pending bytes followed by the chunk, for a read; the decoded pending
/// line, for end of input; nothing, for a failed read.
pub open spec fn event_output(pending: Seq<u8>, ev: ReadEvent) -> Seq<Seq<char>> {
    match ev {
        ReadEvent::Data(c) => decoded_lines(complete_lines(pending + c@)),
        ReadEvent::EndOfInput => {
            if pending.len() > 0 {
                decoded_lines(seq![pending])
            } else {
                Seq::empty()
            }
        },
        ReadEvent::Failed => Seq::empty(),
    }
}

/// The pending bytes a buffer keeps after one event: what follows the last
/// line feed, for a read; nothing, for end of input; unchanged, for a failed
/// read.
pub open spec fn event_pending(pending: Seq<u8>, ev: ReadEvent) -> Seq<u8> {
    match ev {
        ReadEvent::Data(c) => pending_tail(pending + c@),
        ReadEvent::EndOfInput => Seq::empty(),
        ReadEvent::Failed => pending,
    }
}

/// Applies one read outcome to the buffer and returns the lines it delivers,
/// in input order: every line the event completes that decodes as UTF-8.
pub fn advance(buf: &mut LineBuffer, ev: ReadEvent) -> (out: Vec<String>)
    ensures
        out@.map_values(|s: String| s@) == event_output(old(buf)@, ev),
        final(buf)@ == event_pending(old(buf)@, ev),
{
    match ev {
        ReadEvent::Data(c) => {
            let raws = buf.push(c.as_slice());
            let out = decode_lines(raws);
            proof {
                assert(out@.map_values(|s: String| s@) == event_output(old(buf)@, ev));
            }
            out
        },
        ReadEvent::EndOfInput => {
            match buf.take_rest() {
                Some(raw) => {
                    let ghost pending = old(buf)@;
                    let mut raws: Vec<Vec<u8>> = Vec::new();
                    raws.push(raw);
                    proof {
                        assert(raws@.map_values(|v: Vec<u8>| v@) =~= seq![pending]);
                    }
                    decode_lines(raws)
                },
                None => {
                    let out: Vec<String> = Vec::new();
                    proof {
                        assert(out@.map_values(|s: String| s@) =~= Seq::<Seq<char>>::empty());
                    }
                    out
                },
            }
        },
        ReadEvent::Failed => {
            let out: Vec<String> = Vec::new();
            proof {
                assert(out@.map_values(|s: String| s@) =~= Seq::<Seq<char>>::empty());
            }
            out
        },
    }
}

/// Forwards the lines over the sending end, first to last, so the consumer
/// sees them in the order given. A line refused because the receiving end is
/// gone is discarded without stopping: per the bridge's policy the worker
/// never terminates on its own.
pub fn send_all(tx: &tokio::sync::mpsc::Sender<String>, lines: Vec<String>) {
    let mut lines = lines;
    while lines.len() > 0
        decreases lines.len(),
    {
        let line = lines.remove(0);
        let _delivered = send_line(tx, line);
    }
}

/// The whole worker-loop body for one read outcome: splits, decodes, and
/// forwards every line the event completes, in input order, and returns how
/// many lines were handed to the channel. The buffer afterwards holds exactly
/// the bytes of the line still unterminated.
pub fn step(buf: &mut LineBuffer, tx: &tokio::sync::mpsc::Sender<String>, ev: ReadEvent) -> (n:
    usize)
    ensures
        n == event_output(old(buf)@, ev).len(),
        final(buf)@ == event_pending(old(buf)@, ev),
{
    let lines = advance(buf, ev);
    let n = lines.len();
    proof {
        assert(lines@.map_values(|s: String| s@).len() == lines@.len());
    }
    send_all(tx, lines);
    n
}

} // verus!
