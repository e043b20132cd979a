//! Lazy, bounds-checked decoding of the horizontal-metrics table and of
//! segmented-coverage character maps inside a font file.
use vstd::prelude::*;

pub mod format12;
pub mod hmtx;
pub mod parser;

pub use format12::SequentialMapGroup;
pub use hmtx::{lookup_horizontal_metrics, HorizontalMetricsRecord};
pub use parser::{FromData, LazyArray, Stream};

verus! {

/// Tables that a lookup may find missing from the font.
#[derive(Clone, Copy, Debug, PartialEq, Eq, Structural)]
pub enum TableName {
    HorizontalMetrics,
}

/// Why a lookup failed.
#[derive(Clone, Copy, Debug, PartialEq, Eq, Structural)]
pub enum Error {
    /// A read or an array needed more bytes than the data holds.
    UnexpectedEof,
    /// The metrics table is empty or inconsistent with the glyph count.
    NoHorizontalMetrics,
    /// The glyph id is not below the font's glyph count.
    InvalidGlyphId,
    /// The font has no such table.
    TableMissing(TableName),
}

/// The index of a glyph in the font.
#[derive(Clone, Copy, Debug, PartialEq, Eq, Structural)]
pub struct GlyphId(pub u16);

/// How far a glyph advances the pen, and where its ink starts.
#[derive(Clone, Copy, Debug, PartialEq, Eq, Structural)]
pub struct HorizontalMetrics {
    pub advance: u16,
    pub left_side_bearing: i16,
}

/// The parts of a font that the lookups read: the bytes of the horizontal-metrics
/// table, if the font has one, and the two counts that other tables declare.
pub struct Font<'a> {
    pub hmtx: Option<&'a [u8]>,
    pub number_of_hmetrics: u16,
    pub number_of_glyphs: u16,
}

impl<'a> Font<'a> {
    fn check_glyph_id(&self, glyph_id: GlyphId) -> (r: Result<(), Error>)
        ensures
            glyph_id.0 < self.number_of_glyphs ==> r is Ok,
            glyph_id.0 >= self.number_of_glyphs ==> r == Err::<(), Error>(Error::InvalidGlyphId),
    {
        if glyph_id.0 < self.number_of_glyphs {
            Ok(())
        } else {
            Err(Error::InvalidGlyphId)
        }
    }
}

} // verus!
