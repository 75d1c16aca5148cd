//! Exact glyph metrics, outline building and raster bookkeeping for OpenType text.
//!
//! Every quantity is an integer or a ratio of integers: design units, pixels as
//! numerator and denominator, and text heights as IEEE-754 single bit patterns.

pub mod bitmap;
pub mod error;
pub mod flatten;
pub mod font;
pub mod glyph;
pub mod outline;
pub mod parse;
pub mod primative;
pub mod raster;
pub mod raster_v2;
pub mod scale;
pub mod script;
pub mod shape;

pub use bitmap::{ImtBitmapData, ImtBitmapMetrics, ImtGlyphBitmap, ImtUnits};
pub use error::{ImtError, ImtErrorSrc, ImtErrorTy, ImtParseFailure};
pub use font::ImtWeight;
pub use glyph::{ImtGlyph, ImtPixels, ImtRasteredGlyph};
pub use outline::ImtContourPoint;
pub use parse::{
    ImtBoundingBox, ImtBounds, ImtComponent, ImtFontProps, ImtGlyfRecord, ImtParsedGlyph,
};
pub use primative::{ImtGeometry, ImtPoint, ImtPosition};
pub use raster::{
    ImtCacheStatus, ImtFillQuality, ImtRaster, ImtRasterOpts, ImtSampleQuality, RasterCacheState,
};
pub use scale::{ImtRatio, ImtScale, ImtTextHeight};
pub use script::{ImtLang, ImtScript};
pub use shape::{ImtHoriAlign, ImtShapedGlyph, ImtShaper, ImtTextWrap, ImtVertAlign};
