use crate::error::ImtError;
use crate::parse::ImtParsedGlyph;
use crate::primative::ImtPosition;
use std::sync::Arc;
use vstd::prelude::*;

verus! {

/// Where text stands in the height of its body.
#[derive(Clone, Copy, Debug, PartialEq, Eq, Structural)]
pub enum ImtVertAlign {
    Top,
    Bottom,
    Center,
}

/// Where text stands in the width of its body.
#[derive(Clone, Copy, Debug, PartialEq, Eq, Structural)]
pub enum ImtHoriAlign {
    Left,
    Right,
    Center,
}

/// What becomes of text that is wider than its body.
#[derive(Clone, Copy, Debug, PartialEq, Eq, Structural)]
pub enum ImtTextWrap {
    Shift,
    NewLine,
    NoWrap,
    NoneDotted,
}

/// A glyph with its place on the line of text. The place and the parts of
/// the glyph that stand over the body are in parts of a design unit.
#[derive(Debug)]
pub struct ImtShapedGlyph {
    pub parsed: Arc<ImtParsedGlyph>,
    pub position: ImtPosition,
    pub x_overflow: i64,
    pub y_overflow: i64,
}

/// Places the glyphs of a text on its lines.
pub struct ImtShaper {}

impl ImtShaper {
    /// A shaper. It holds nothing and cannot fail.
    pub fn new() -> (r: Result<Self, ImtError>)
        ensures
            r is Ok,
    {
        Ok(ImtShaper {  })
    }
}

} // verus!
