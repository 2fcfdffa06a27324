//! Reading the payloads out of a server-sent event stream, as the
//! client does when it bridges the daemon's event feed: the body is
//! buffered, every complete line is taken off the buffer, and the lines
//! of the form `data: <payload>` give their payloads. Blank separator
//! lines and `:` keep-alive comments give nothing.

use vstd::prelude::*;

use crate::text::{
    chars_of, chars_start_with, find_char, index_of_from, lemma_index_of_from, lemma_rscan_while, rscan_while, rskip_ws,
    slice_chars, starts_with, string_from_chars, string_of, ws,
};

verus! {

/// Where the line starting at `i` ends once trailing whitespace
/// (the newline among it) is trimmed, given its newline at `nl`.
pub open spec fn line_end(s: Seq<char>, i: int, nl: int) -> int {
    rscan_while(s, i, nl + 1, ws())
}

/// The payloads of the complete lines of `s` from index `i` on, in
/// order: each line, trailing whitespace trimmed, that starts with
/// `data: ` gives the rest of it.
pub open spec fn sse_payloads(s: Seq<char>, i: int) -> Seq<Seq<char>>
    decreases s.len() - i,
{
    if i < 0 || i >= s.len() {
        Seq::empty()
    } else {
        let nl = index_of_from(s, '\n', i);
        proof {
            lemma_index_of_from(s, '\n', i);
        }
        if nl >= s.len() {
            Seq::empty()
        } else {
            let line = s.subrange(i, line_end(s, i, nl));
            if starts_with(line, "data: "@) {
                seq![line.skip(6)] + sse_payloads(s, nl + 1)
            } else {
                sse_payloads(s, nl + 1)
            }
        }
    }
}

/// What stays buffered of `s` from index `i` on: the text after its
/// last newline, an incomplete line.
pub open spec fn sse_leftover(s: Seq<char>, i: int) -> Seq<char>
    decreases s.len() - i,
{
    if i < 0 || i >= s.len() {
        Seq::empty()
    } else {
        let nl = index_of_from(s, '\n', i);
        proof {
            lemma_index_of_from(s, '\n', i);
        }
        if nl >= s.len() {
            s.subrange(i, s.len() as int)
        } else {
            sse_leftover(s, nl + 1)
        }
    }
}

/// Takes every complete line off `buf` and returns the payloads of its
/// `data: ` lines, in order; an incomplete last line stays in `buf` for
/// the next chunk.
pub fn take_sse_payloads(buf: &mut String) -> (r: Vec<String>)
    ensures
        r@.len() == sse_payloads(old(buf)@, 0).len(),
        forall|k: int| 0 <= k < r@.len() ==> #[trigger] r@[k]@ == sse_payloads(old(buf)@, 0)[k],
        final(buf)@ == sse_leftover(old(buf)@, 0),
{
    let v = chars_of(buf.as_str());
    let ghost s = v@;
    let prefix = chars_of("data: ");
    proof {
        reveal_strlit("data: ");
    }
    let mut out: Vec<String> = Vec::new();
    let mut i: usize = 0;
    while i < v.len()
        invariant
            s == v@,
            prefix@ == "data: "@,
            i <= v@.len(),
            out@.len() + sse_payloads(s, i as int).len() == sse_payloads(s, 0).len(),
            forall|k: int| 0 <= k < out@.len() ==> #[trigger] out@[k]@ == sse_payloads(s, 0)[k],
            forall|k: int|
                0 <= k < sse_payloads(s, i as int).len() ==> sse_payloads(s, i as int)[k]
                    == sse_payloads(s, 0)[out@.len() + k],
            sse_leftover(s, i as int) == sse_leftover(s, 0),
        ensures
            index_of_from(s, '\n', i as int) >= s.len(),
        decreases v@.len() - i,
    {
        let nl = find_char(v.as_slice(), '\n', i);
        if nl == v.len() {
            break;
        }
        let e = rskip_ws(v.as_slice(), i, nl + 1);
        proof {
            lemma_rscan_while(s, i as int, nl + 1, ws());
        }
        let line = slice_chars(v.as_slice(), i, e);
        if chars_start_with(line.as_slice(), prefix.as_slice()) {
            proof {
                reveal_strlit("data: ");
            }
            assert(prefix@.len() == 6);
            assert(line@.len() == e - i);
            let payload = string_of(v.as_slice(), i + 6, e);
            proof {
                assert(line@.skip(6) =~= s.subrange(i + 6, e as int));
                let rest = sse_payloads(s, nl + 1);
                assert(sse_payloads(s, i as int) == seq![line@.skip(6)] + rest);
                assert(sse_payloads(s, i as int)[0] == payload@);
                assert forall|k: int| 0 <= k < rest.len() implies rest[k] == sse_payloads(s, 0)[out@.len()
                    + 1 + k] by {
                    assert(sse_payloads(s, i as int)[k + 1] == rest[k]);
                }
            }
            out.push(payload);
        }
        i = nl + 1;
    }
    let rest = slice_chars(v.as_slice(), i, v.len());
    *buf = string_from_chars(rest.as_slice());
    out
}

} // verus!
