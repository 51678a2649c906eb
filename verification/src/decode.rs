//! Decoding raw lines as UTF-8 text.
//!
//! Each complete line of bytes is decoded on its own; a line that is not valid
//! UTF-8 is skipped, with no item delivered and no error surfaced, and the
//! following lines are unaffected.

use vstd::prelude::*;

verus! {

/// What `String::from_utf8` makes of a byte sequence: the decoded characters,
/// or nothing when the bytes are not valid UTF-8. A function of the bytes
/// alone.
pub uninterp spec fn utf8_decode(bytes: Seq<u8>) -> Option<Seq<char>>;

/// Relies on `String::from_utf8`: returns the UTF-8 decoding of the bytes,
/// and succeeds exactly on valid UTF-8.
#[verifier::external_body]
fn decode_line(raw: Vec<u8>) -> (r: Option<String>)
    ensures
        r is Some <==> utf8_decode(raw@) is Some,
        r matches Some(s) ==> utf8_decode(raw@) == Some(s@),
{
    String::from_utf8(raw).ok()
}

/// The lines that decoding delivers: each raw line's decoding, in order, with
/// the lines that are not valid UTF-8 left out.
pub open spec fn decoded_lines(raws: Seq<Seq<u8>>) -> Seq<Seq<char>>
    decreases raws.len(),
{
    if raws.len() == 0 {
        Seq::empty()
    } else {
        let init = decoded_lines(raws.drop_last());
        match utf8_decode(raws.last()) {
            Some(l) => init.push(l),
            None => init,
        }
    }
}

/// Decodes each raw line in order, skipping the ones that are not valid
/// UTF-8.
pub fn decode_lines(raws: Vec<Vec<u8>>) -> (out: Vec<String>)
    ensures
        out@.map_values(|s: String| s@) == decoded_lines(raws@.map_values(|v: Vec<u8>| v@)),
{
    let ghost model: Seq<Seq<u8>> = raws@.map_values(|v: Vec<u8>| v@);
    let mut out: Vec<String> = Vec::new();
    proof {
        assert(out@.map_values(|s: String| s@) =~= Seq::<Seq<char>>::empty());
        assert(model.take(0) =~= Seq::<Seq<u8>>::empty());
    }
    let mut k: usize = 0;
    while k < raws.len()
        invariant
            k <= raws.len(),
            model == raws@.map_values(|v: Vec<u8>| v@),
            out@.map_values(|s: String| s@) == decoded_lines(model.take(k as int)),
        decreases raws.len() - k,
    {
        proof {
            assert(model.take(k as int + 1).drop_last() =~= model.take(k as int));
            assert(model.take(k as int + 1).last() == raws@[k as int]@);
        }
        let raw = raws[k].clone();
        proof {
            assert(raw@ == raws@[k as int]@);
        }
        match decode_line(raw) {
            Some(s) => {
                out.push(s);
                proof {
                    assert(out@.map_values(|s: String| s@) =~= decoded_lines(
                        model.take(k as int + 1),
                    ));
                }
            },
            None => {
                proof {
                    assert(out@.map_values(|s: String| s@) =~= decoded_lines(
                        model.take(k as int + 1),
                    ));
                }
            },
        }
        k = k + 1;
    }
    proof {
        assert(model.take(raws@.len() as int) =~= model);
    }
    out
}

} // verus!
