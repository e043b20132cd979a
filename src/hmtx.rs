//! The horizontal-metrics table: full records for the first glyphs, then left-side
//! bearings alone for the rest, which share the advance of the last full record.
use vstd::prelude::*;

use crate::parser::{i16_at, u16_at, FromData, LazyArray, Stream};
use crate::{Error, Font, GlyphId, HorizontalMetrics, TableName};

verus! {

/// One full record of the table.
#[derive(Clone, Copy, Debug, PartialEq, Eq, Structural)]
pub struct HorizontalMetricsRecord {
    pub advance_width: u16,
    pub lsb: i16,
}

impl FromData for HorizontalMetricsRecord {
    open spec fn spec_size() -> nat {
        4
    }

    open spec fn spec_parse(data: Seq<u8>) -> HorizontalMetricsRecord {
        HorizontalMetricsRecord { advance_width: u16_at(data, 0), lsb: i16_at(data, 2) }
    }

    fn size() -> (r: usize) {
        4
    }

    fn parse(data: &[u8]) -> (r: Option<HorizontalMetricsRecord>) {
        let mut s = Stream::new(data);
        let advance_width: u16 = match s.read() {
            Ok(v) => v,
            Err(_) => return None,
        };
        let lsb: i16 = match s.read() {
            Ok(v) => v,
            Err(_) => return None,
        };
        Some(HorizontalMetricsRecord { advance_width, lsb })
    }
}

/// The full record at index `i` of `table`.
pub open spec fn full_record(table: Seq<u8>, i: int) -> HorizontalMetricsRecord {
    HorizontalMetricsRecord { advance_width: u16_at(table, 4 * i), lsb: i16_at(table, 4 * i + 2) }
}

/// The left-side bearing at index `j` of the run that follows `n` full records.
pub open spec fn tail_lsb(table: Seq<u8>, n: int, j: int) -> i16 {
    i16_at(table, 4 * n + 2 * j)
}

/// The metrics of `glyph_id` in `table`, which holds `number_of_hmetrics` full
/// records followed by a left-side bearing for each further glyph of the
/// `number_of_glyphs`; or why they cannot be had.
pub open spec fn hor_metrics_of(
    table: Seq<u8>,
    number_of_hmetrics: u16,
    number_of_glyphs: u16,
    glyph_id: u16,
) -> Result<HorizontalMetrics, Error> {
    let n = number_of_hmetrics as int;
    if n == 0 {
        Err(Error::NoHorizontalMetrics)
    } else if table.len() < 4 * n {
        Err(Error::UnexpectedEof)
    } else if glyph_id < n {
        let r = full_record(table, glyph_id as int);
        Ok(HorizontalMetrics { advance: r.advance_width, left_side_bearing: r.lsb })
    } else if number_of_glyphs < n {
        Err(Error::NoHorizontalMetrics)
    } else if table.len() < 4 * n + 2 * (number_of_glyphs - n) {
        Err(Error::UnexpectedEof)
    } else if glyph_id >= number_of_glyphs {
        Err(Error::NoHorizontalMetrics)
    } else {
        Ok(
            HorizontalMetrics {
                advance: full_record(table, n - 1).advance_width,
                left_side_bearing: tail_lsb(table, n, glyph_id - n),
            },
        )
    }
}

/// Looks up the metrics of `glyph_id` in the bytes of a horizontal-metrics table.
pub fn lookup_horizontal_metrics(
    data: &[u8],
    number_of_hmetrics: u16,
    number_of_glyphs: u16,
    glyph_id: u16,
) -> (r: Result<HorizontalMetrics, Error>)
    ensures
        r == hor_metrics_of(data@, number_of_hmetrics, number_of_glyphs, glyph_id),
{
    if number_of_hmetrics == 0 {
        return Err(Error::NoHorizontalMetrics);
    }
    let mut s = Stream::new(data);
    let array: LazyArray<HorizontalMetricsRecord> = match s.read_array(number_of_hmetrics) {
        Ok(a) => a,
        Err(e) => return Err(e),
    };
    if let Some(metrics) = array.get(glyph_id as usize) {
        return Ok(HorizontalMetrics { advance: metrics.advance_width, left_side_bearing: metrics.lsb });
    }
    // Past the full records: each remaining glyph has a left-side bearing of its own
    // and the advance of the last full record.
    if number_of_glyphs < number_of_hmetrics {
        return Err(Error::NoHorizontalMetrics);
    }
    let count = number_of_glyphs - number_of_hmetrics;
    let left_side_bearings: LazyArray<i16> = match s.read_array(count) {
        Ok(a) => a,
        Err(e) => return Err(e),
    };
    let left_side_bearing = match left_side_bearings.get((glyph_id - number_of_hmetrics) as usize) {
        Some(v) => v,
        None => return Err(Error::NoHorizontalMetrics),
    };
    let last_metric = match array.last() {
        Some(m) => m,
        None => return Err(Error::NoHorizontalMetrics),
    };
    Ok(HorizontalMetrics { advance: last_metric.advance_width, left_side_bearing })
}

impl<'a> Font<'a> {
    /// Returns the glyph's horizontal metrics.
    pub fn glyph_hor_metrics(&self, glyph_id: GlyphId) -> (r: Result<HorizontalMetrics, Error>)
        ensures
            glyph_id.0 >= self.number_of_glyphs ==> r == Err::<HorizontalMetrics, Error>(
                Error::InvalidGlyphId,
            ),
            glyph_id.0 < self.number_of_glyphs && self.hmtx is None ==> r == Err::<
                HorizontalMetrics,
                Error,
            >(Error::TableMissing(TableName::HorizontalMetrics)),
            glyph_id.0 < self.number_of_glyphs && self.hmtx is Some ==> r == hor_metrics_of(
                self.hmtx->Some_0@,
                self.number_of_hmetrics,
                self.number_of_glyphs,
                glyph_id.0,
            ),
    {
        if let Err(e) = self.check_glyph_id(glyph_id) {
            return Err(e);
        }
        let data = match self.hmtx {
            Some(d) => d,
            None => return Err(Error::TableMissing(TableName::HorizontalMetrics)),
        };
        lookup_horizontal_metrics(data, self.number_of_hmetrics, self.number_of_glyphs, glyph_id.0)
    }
}

/// A glyph among the first `number_of_hmetrics` gets the full record stored at its
/// own index, unchanged, whenever the table holds all those records.
pub proof fn lemma_full_record_verbatim(
    table: Seq<u8>,
    number_of_hmetrics: u16,
    number_of_glyphs: u16,
    glyph_id: u16,
)
    requires
        glyph_id < number_of_hmetrics,
        table.len() >= 4 * number_of_hmetrics,
    ensures
        hor_metrics_of(table, number_of_hmetrics, number_of_glyphs, glyph_id) == Ok::<
            HorizontalMetrics,
            Error,
        >(
            HorizontalMetrics {
                advance: full_record(table, glyph_id as int).advance_width,
                left_side_bearing: full_record(table, glyph_id as int).lsb,
            },
        ),
{
}

/// A glyph past the full records, and below the glyph count, gets the advance of the
/// last full record and the left-side bearing stored for it after the full records,
/// whenever the table holds all of them.
pub proof fn lemma_tail_glyph(
    table: Seq<u8>,
    number_of_hmetrics: u16,
    number_of_glyphs: u16,
    glyph_id: u16,
)
    requires
        0 < number_of_hmetrics <= glyph_id < number_of_glyphs,
        table.len() >= 4 * number_of_hmetrics + 2 * (number_of_glyphs - number_of_hmetrics),
    ensures
        hor_metrics_of(table, number_of_hmetrics, number_of_glyphs, glyph_id) == Ok::<
            HorizontalMetrics,
            Error,
        >(
            HorizontalMetrics {
                advance: full_record(table, number_of_hmetrics - 1).advance_width,
                left_side_bearing: tail_lsb(
                    table,
                    number_of_hmetrics as int,
                    glyph_id - number_of_hmetrics,
                ),
            },
        ),
{
}

/// A table declared with no full records has no metrics for any glyph.
pub proof fn lemma_no_full_records(
    table: Seq<u8>,
    number_of_hmetrics: u16,
    number_of_glyphs: u16,
    glyph_id: u16,
)
    requires
        number_of_hmetrics == 0,
    ensures
        hor_metrics_of(table, number_of_hmetrics, number_of_glyphs, glyph_id) == Err::<
            HorizontalMetrics,
            Error,
        >(Error::NoHorizontalMetrics),
{
}

} // verus!
