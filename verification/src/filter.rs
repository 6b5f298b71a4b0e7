//! Frame filtering: from the raw, outermost-first call-stack snapshot, keep
//! only the "interesting" frames — those of the lock's caller — by skipping
//! the leading frames that belong to the instrumentation's own source and
//! dropping frames that come from toolchain or package-cache directories or
//! that carry no resolvable source location.

use vstd::prelude::*;

use crate::frame::Frame;
use crate::frame::FrameModel;
use crate::frame::frame_models;
use crate::text::contains_seq;
use crate::text::str_contains;

verus! {

/// A frame carries both a source path and a line number.
pub open spec fn frame_resolved(f: FrameModel) -> bool {
    f.path is Some && f.line is Some
}

/// A source path that lies in a package cache, a toolchain installation or
/// the compiler's own sources.
pub open spec fn toolchain_path(p: Seq<char>) -> bool {
    ||| contains_seq(p, "/.cargo/registry/"@)
    ||| contains_seq(p, "/.rustup/toolchains/"@)
    ||| contains_seq(p, "/rustc/"@)
}

/// A frame the filter retains: resolved and outside the toolchain.
pub open spec fn interesting_frame(f: FrameModel) -> bool {
    match f.path {
        Some(p) => f.line is Some && !toolchain_path(p),
        None => false,
    }
}

/// A resolved frame that lies outside the instrumentation's own source,
/// marking where the caller's frames begin.
pub open spec fn caller_frame(f: FrameModel, own: Seq<char>) -> bool {
    match f.path {
        Some(p) => f.line is Some && !contains_seq(p, own),
        None => false,
    }
}

/// The index of the first caller frame, or the length when there is none.
pub open spec fn start_index(frames: Seq<FrameModel>, own: Seq<char>) -> int
    decreases frames.len(),
{
    if frames.len() == 0 {
        0
    } else if caller_frame(frames[0], own) {
        0
    } else {
        1 + start_index(frames.drop_first(), own)
    }
}

/// The subsequence of interesting frames, in order.
pub open spec fn keep_interesting(frames: Seq<FrameModel>) -> Seq<FrameModel>
    decreases frames.len(),
{
    if frames.len() == 0 {
        Seq::empty()
    } else {
        let rest = keep_interesting(frames.drop_last());
        if interesting_frame(frames.last()) {
            rest.push(frames.last())
        } else {
            rest
        }
    }
}

/// What the frame filter produces: of the frames from the first caller frame
/// on, those that are interesting.
pub open spec fn filtered_frames(frames: Seq<FrameModel>, own: Seq<char>) -> Seq<FrameModel> {
    keep_interesting(frames.skip(start_index(frames, own)))
}

pub proof fn lemma_start_index_bounds(frames: Seq<FrameModel>, own: Seq<char>)
    ensures
        0 <= start_index(frames, own) <= frames.len(),
    decreases frames.len(),
{
    if frames.len() != 0 && !caller_frame(frames[0], own) {
        lemma_start_index_bounds(frames.drop_first(), own);
    }
}

/// The first index whose frame is a caller frame, with none before it, is the
/// start index.
proof fn lemma_start_index_is(frames: Seq<FrameModel>, own: Seq<char>, i: int)
    requires
        0 <= i <= frames.len(),
        forall|k: int| 0 <= k < i ==> !caller_frame(frames[k], own),
        i < frames.len() ==> caller_frame(frames[i], own),
    ensures
        start_index(frames, own) == i,
    decreases frames.len(),
{
    if frames.len() == 0 {
    } else if caller_frame(frames[0], own) {
        assert(i == 0);
    } else {
        let rest = frames.drop_first();
        assert(forall|k: int| 0 <= k < i - 1 ==> frames.drop_first()[k] == frames[k + 1]);
        lemma_start_index_is(rest, own, i - 1);
    }
}

/// Checks whether a frame is a caller frame for the given own-source marker.
fn is_caller_frame(f: &Frame, own: &str) -> (r: bool)
    ensures
        r == caller_frame(f@, own@),
{
    match (&f.path, &f.line) {
        (Some(p), Some(_)) => !str_contains(p.as_str(), own),
        _ => false,
    }
}

/// Checks whether a frame is interesting: resolved and not from the
/// toolchain.
fn is_interesting_frame(f: &Frame) -> (r: bool)
    ensures
        r == interesting_frame(f@),
{
    match (&f.path, &f.line) {
        (Some(p), Some(_)) => {
            let cargo = str_contains(p.as_str(), "/.cargo/registry/");
            let rustup = str_contains(p.as_str(), "/.rustup/toolchains/");
            let rustc = str_contains(p.as_str(), "/rustc/");
            !cargo && !rustup && !rustc
        },
        _ => false,
    }
}

/// Filters a raw call-stack snapshot: skips the leading frames whose path
/// contains `own_marker` (the instrumentation's own source), then keeps, of
/// the rest, exactly the frames that are resolved and outside the toolchain.
pub fn filter_frames(frames: &Vec<Frame>, own_marker: &str) -> (r: Vec<Frame>)
    ensures
        frame_models(r@) == filtered_frames(frame_models(frames@), own_marker@),
{
    let ghost models = frame_models(frames@);
    let len = frames.len();
    let mut start: usize = 0;
    loop
        invariant
            len == frames@.len(),
            models == frame_models(frames@),
            0 <= start <= len,
            forall|k: int| 0 <= k < start ==> !caller_frame(models[k], own_marker@),
        ensures
            0 <= start <= len,
            forall|k: int| 0 <= k < start ==> !caller_frame(models[k], own_marker@),
            start < len ==> caller_frame(models[start as int], own_marker@),
        decreases len - start,
    {
        if start == len {
            break;
        }
        if is_caller_frame(&frames[start], own_marker) {
            break;
        }
        start += 1;
    }
    proof {
        lemma_start_index_is(models, own_marker@, start as int);
    }
    let mut r: Vec<Frame> = Vec::new();
    let mut j: usize = start;
    while j < len
        invariant
            len == frames@.len(),
            models == frame_models(frames@),
            0 <= start <= j <= len,
            start_index(models, own_marker@) == start,
            frame_models(r@) == keep_interesting(models.subrange(start as int, j as int)),
        decreases len - j,
    {
        let ghost prev = models.subrange(start as int, j as int);
        let ghost next = models.subrange(start as int, j + 1int);
        proof {
            assert(next.drop_last() =~= prev);
            assert(next.last() == models[j as int]);
        }
        if is_interesting_frame(&frames[j]) {
            let copy = frames[j].clone();
            r.push(copy);
            proof {
                assert(frame_models(r@) =~= keep_interesting(prev).push(models[j as int]));
            }
        } else {
            proof {
                assert(frame_models(r@) =~= keep_interesting(next));
            }
        }
        j += 1;
    }
    proof {
        assert(models.subrange(start as int, len as int) =~= models.skip(start as int));
    }
    r
}

/// Law: every frame the filter retains is resolved and lies outside the
/// toolchain — frames with a toolchain-cache marker in their path are
/// excluded wherever they stand, and frames without a resolvable source
/// location are dropped rather than kept or faulted on.
pub proof fn lemma_filter_excludes_toolchain(frames: Seq<FrameModel>, own: Seq<char>, i: int)
    requires
        0 <= i < filtered_frames(frames, own).len(),
    ensures
        interesting_frame(filtered_frames(frames, own)[i]),
        frame_resolved(filtered_frames(frames, own)[i]),
        !toolchain_path(filtered_frames(frames, own)[i].path.unwrap()),
{
    lemma_keep_interesting_all(frames.skip(start_index(frames, own)), i);
}

proof fn lemma_keep_interesting_all(frames: Seq<FrameModel>, i: int)
    requires
        0 <= i < keep_interesting(frames).len(),
    ensures
        interesting_frame(keep_interesting(frames)[i]),
    decreases frames.len(),
{
    if frames.len() != 0 {
        let rest = keep_interesting(frames.drop_last());
        if interesting_frame(frames.last()) {
            if i < rest.len() {
                lemma_keep_interesting_all(frames.drop_last(), i);
            }
        } else {
            lemma_keep_interesting_all(frames.drop_last(), i);
        }
    }
}

/// Law: the filter drops nothing it should keep — every interesting frame at
/// or after the start index appears in the filter's output.
pub proof fn lemma_filter_keeps_interesting(frames: Seq<FrameModel>, own: Seq<char>, j: int)
    requires
        start_index(frames, own) <= j < frames.len(),
        interesting_frame(frames[j]),
    ensures
        filtered_frames(frames, own).contains(frames[j]),
{
    lemma_start_index_bounds(frames, own);
    let start = start_index(frames, own);
    let tail = frames.skip(start);
    assert(tail[j - start] == frames[j]);
    lemma_keep_interesting_contains(tail, j - start);
}

proof fn lemma_keep_interesting_contains(frames: Seq<FrameModel>, j: int)
    requires
        0 <= j < frames.len(),
        interesting_frame(frames[j]),
    ensures
        keep_interesting(frames).contains(frames[j]),
    decreases frames.len(),
{
    let rest = keep_interesting(frames.drop_last());
    if j == frames.len() - 1 {
        assert(keep_interesting(frames)[rest.len() as int] == frames.last());
    } else {
        assert(frames.drop_last()[j] == frames[j]);
        lemma_keep_interesting_contains(frames.drop_last(), j);
        let k = choose|k: int| 0 <= k < rest.len() && rest[k] == frames[j];
        assert(keep_interesting(frames)[k] == frames[j]);
    }
}

} // verus!
