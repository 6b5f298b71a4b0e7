//! Trace formatting: renders a message and a filtered frame sequence into a
//! single human-readable block — the message as a header, then one line per
//! frame, each with a zero-based relative index, source location, and, when
//! resolved, the symbol name.

use vstd::prelude::*;
use vstd::string::StrSliceExecFns;
use vstd::string::StringExecFns;

use crate::frame::Frame;
use crate::frame::FrameModel;
use crate::frame::frame_models;

verus! {

/// The decimal digit character for one digit value.
pub open spec fn dec_digit(d: int) -> char {
    if d == 0 {
        '0'
    } else if d == 1 {
        '1'
    } else if d == 2 {
        '2'
    } else if d == 3 {
        '3'
    } else if d == 4 {
        '4'
    } else if d == 5 {
        '5'
    } else if d == 6 {
        '6'
    } else if d == 7 {
        '7'
    } else if d == 8 {
        '8'
    } else {
        '9'
    }
}

/// The decimal rendering of a non-negative integer, most significant digit
/// first, without leading zeros (a lone zero for 0).
pub open spec fn dec_seq(n: int) -> Seq<char>
    decreases n,
{
    if n < 10 {
        seq![dec_digit(n)]
    } else {
        dec_seq(n / 10).push(dec_digit(n % 10))
    }
}

/// The string of one decimal digit.
fn dec_digit_str(d: u64) -> (r: &'static str)
    requires
        d < 10,
    ensures
        r@ == seq![dec_digit(d as int)],
{
    let r: &'static str = if d == 0 {
        "0"
    } else if d == 1 {
        "1"
    } else if d == 2 {
        "2"
    } else if d == 3 {
        "3"
    } else if d == 4 {
        "4"
    } else if d == 5 {
        "5"
    } else if d == 6 {
        "6"
    } else if d == 7 {
        "7"
    } else if d == 8 {
        "8"
    } else {
        "9"
    };
    proof {
        reveal_strlit("0");
        reveal_strlit("1");
        reveal_strlit("2");
        reveal_strlit("3");
        reveal_strlit("4");
        reveal_strlit("5");
        reveal_strlit("6");
        reveal_strlit("7");
        reveal_strlit("8");
        reveal_strlit("9");
        assert(r@ =~= seq![dec_digit(d as int)]);
    }
    r
}

/// Renders an unsigned integer in decimal.
pub fn u64_to_dec(n: u64) -> (s: String)
    ensures
        s@ == dec_seq(n as int),
    decreases n,
{
    if n < 10 {
        String::from_str(dec_digit_str(n))
    } else {
        let mut s = u64_to_dec(n / 10);
        s.append(dec_digit_str(n % 10));
        proof {
            assert(s@ =~= dec_seq(n as int));
        }
        s
    }
}

/// The optional symbol part of a frame line.
pub open spec fn symbol_part(symbol: Option<Seq<char>>) -> Seq<char> {
    match symbol {
        Some(s) => " ["@ + s + "]"@,
        None => Seq::empty(),
    }
}

/// One rendered frame line: `[index] path:line`, with ` [symbol]` appended
/// when the symbol is resolved. A frame without a source location renders as
/// nothing.
pub open spec fn frame_line(index: int, f: FrameModel) -> Seq<char> {
    match (f.path, f.line) {
        (Some(p), Some(l)) => "["@ + dec_seq(index) + "] "@ + p + ":"@ + dec_seq(l as int)
            + symbol_part(f.symbol),
        _ => Seq::empty(),
    }
}

/// The first `k` frame lines, each opened by a line break.
pub open spec fn frame_lines(frames: Seq<FrameModel>, k: int) -> Seq<char>
    decreases k,
{
    if k <= 0 {
        Seq::empty()
    } else {
        frame_lines(frames, k - 1) + "\n"@ + frame_line(k - 1, frames[k - 1])
    }
}

/// The whole rendered trace block: the message, a colon, then one line per
/// frame.
pub open spec fn rendered_trace(message: Seq<char>, frames: Seq<FrameModel>) -> Seq<char> {
    message + ":"@ + frame_lines(frames, frames.len() as int)
}

/// Renders a message and a (filtered) frame sequence into one trace block,
/// one line per frame, each with its zero-based relative index.
pub fn format_trace(message: &str, frames: &Vec<Frame>) -> (r: String)
    ensures
        r@ == rendered_trace(message@, frame_models(frames@)),
{
    let ghost models = frame_models(frames@);
    let mut r = String::from_str(message);
    r.append(":");
    let mut i: usize = 0;
    let len = frames.len();
    while i < len
        invariant
            len == frames@.len(),
            models == frame_models(frames@),
            0 <= i <= len,
            r@ == message@ + ":"@ + frame_lines(models, i as int),
        decreases len - i,
    {
        r.append("\n");
        match (&frames[i].path, &frames[i].line) {
            (Some(p), Some(l)) => {
                r.append("[");
                let idx = u64_to_dec(i as u64);
                r.append(idx.as_str());
                r.append("] ");
                r.append(p.as_str());
                r.append(":");
                let line = u64_to_dec(*l);
                r.append(line.as_str());
                match &frames[i].symbol {
                    Some(s) => {
                        r.append(" [");
                        r.append(s.as_str());
                        r.append("]");
                    },
                    None => {},
                }
            },
            _ => {},
        }
        proof {
            assert(r@ =~= message@ + ":"@ + frame_lines(models, i + 1int));
        }
        i += 1;
    }
    r
}

} // verus!
