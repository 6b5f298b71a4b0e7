//! One entry of a captured call stack: an optional source file path, an
//! optional line number, and an optional symbol name. Frames are produced by
//! an outside unwinding facility and are read-only to this crate.

use vstd::prelude::*;

verus! {

/// A single call-stack frame, as handed over by the stack-capture
/// collaborator. Resolution may be partial: any of the fields may be absent.
pub struct Frame {
    pub path: Option<String>,
    pub line: Option<u64>,
    pub symbol: Option<String>,
}

/// The mathematical content of a frame: character sequences in place of
/// strings.
pub struct FrameModel {
    pub path: Option<Seq<char>>,
    pub line: Option<u64>,
    pub symbol: Option<Seq<char>>,
}

impl View for Frame {
    type V = FrameModel;

    open spec fn view(&self) -> FrameModel {
        FrameModel {
            path: match self.path {
                Some(p) => Some(p@),
                None => None,
            },
            line: self.line,
            symbol: match self.symbol {
                Some(s) => Some(s@),
                None => None,
            },
        }
    }
}

impl Clone for Frame {
    fn clone(&self) -> (res: Self)
        ensures
            res@ == self@,
    {
        Frame {
            path: match &self.path {
                Some(p) => Some(p.clone()),
                None => None,
            },
            line: self.line,
            symbol: match &self.symbol {
                Some(s) => Some(s.clone()),
                None => None,
            },
        }
    }
}

/// The models of a sequence of frames.
pub open spec fn frame_models(frames: Seq<Frame>) -> Seq<FrameModel> {
    frames.map_values(|f: Frame| f@)
}

} // verus!
