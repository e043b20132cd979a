//! Character maps in the segmented-coverage layout: a list of groups, each mapping
//! a run of consecutive character codes to a run of consecutive glyph ids.
//!
//! The body of such a subtable, after its format number, holds a reserved `u16`,
//! a `u32` length, a `u32` language, a `u32` group count, and then the groups,
//! twelve bytes each.
use vstd::prelude::*;

use crate::parser::{u32_at, FromData, Stream};

verus! {

/// A run of character codes `start_char_code..=end_char_code` that maps to the glyph
/// ids from `start_glyph_id` on.
#[derive(Clone, Copy, Debug, PartialEq, Eq, Structural)]
pub struct SequentialMapGroup {
    pub start_char_code: u32,
    pub end_char_code: u32,
    pub start_glyph_id: u32,
}

impl FromData for SequentialMapGroup {
    open spec fn spec_size() -> nat {
        12
    }

    open spec fn spec_parse(data: Seq<u8>) -> SequentialMapGroup {
        SequentialMapGroup {
            start_char_code: u32_at(data, 0),
            end_char_code: u32_at(data, 4),
            start_glyph_id: u32_at(data, 8),
        }
    }

    fn size() -> (r: usize) {
        12
    }

    fn parse(data: &[u8]) -> (r: Option<SequentialMapGroup>) {
        let mut s = Stream::new(data);
        let start_char_code: u32 = match s.read() {
            Ok(v) => v,
            Err(_) => return None,
        };
        let end_char_code: u32 = match s.read() {
            Ok(v) => v,
            Err(_) => return None,
        };
        let start_glyph_id: u32 = match s.read() {
            Ok(v) => v,
            Err(_) => return None,
        };
        Some(SequentialMapGroup { start_char_code, end_char_code, start_glyph_id })
    }
}

/// Whether `group` holds `code_point`.
pub open spec fn covers(group: SequentialMapGroup, code_point: u32) -> bool {
    group.start_char_code <= code_point <= group.end_char_code
}

/// The glyph id that `group` gives `code_point`: the group's first glyph id plus
/// the distance of `code_point` from the group's first code, where that sum is a
/// 16-bit value.
pub open spec fn glyph_in_group(group: SequentialMapGroup, code_point: u32) -> Option<u16> {
    let id = group.start_glyph_id + (code_point - group.start_char_code);
    if 0 <= id <= u16::MAX {
        Some(id as u16)
    } else {
        None
    }
}

/// The glyph id that the first group of `groups` that holds `code_point` gives it.
pub open spec fn lookup_in(groups: Seq<SequentialMapGroup>, code_point: u32) -> Option<u16>
    decreases groups.len(),
{
    if groups.len() == 0 {
        None
    } else if covers(groups[0], code_point) {
        glyph_in_group(groups[0], code_point)
    } else {
        lookup_in(groups.drop_first(), code_point)
    }
}

/// Offset of the group count in a subtable body.
pub open spec fn count_offset() -> int {
    10
}

/// Offset of the first group in a subtable body.
pub open spec fn groups_offset() -> int {
    14
}

/// The number of groups that `body` declares.
pub open spec fn group_count(body: Seq<u8>) -> u32 {
    u32_at(body, count_offset())
}

/// Whether `body` holds its header and all the groups it declares.
pub open spec fn body_complete(body: Seq<u8>) -> bool {
    &&& body.len() >= groups_offset()
    &&& body.len() >= groups_offset() + 12 * group_count(body)
}

/// The group at index `k` of `body`.
pub open spec fn group_at(body: Seq<u8>, k: int) -> SequentialMapGroup {
    let at = groups_offset() + 12 * k;
    SequentialMapGroup {
        start_char_code: u32_at(body, at),
        end_char_code: u32_at(body, at + 4),
        start_glyph_id: u32_at(body, at + 8),
    }
}

/// The groups of `body`, in stored order.
pub open spec fn groups_of(body: Seq<u8>) -> Seq<SequentialMapGroup> {
    Seq::new(group_count(body) as nat, |k: int| group_at(body, k))
}

/// The glyph id that the subtable `body` maps `code_point` to, if any.
pub open spec fn glyph_of(body: Seq<u8>, code_point: u32) -> Option<u16> {
    if body_complete(body) {
        lookup_in(groups_of(body), code_point)
    } else {
        None
    }
}

/// Resolves `code_point` through the subtable body that `s` reads.
#[verifier::loop_isolation(false)]
pub fn parse(mut s: Stream, code_point: u32) -> (r: Option<u16>)
    ensures
        r == glyph_of(s@, code_point),
{
    let ghost body = s@;
    // The reserved field, the length and the language.
    if s.skip::<u16>().is_err() || s.skip::<u32>().is_err() || s.skip::<u32>().is_err() {
        return None;
    }
    let count: u32 = match s.read() {
        Ok(v) => v,
        Err(_) => return None,
    };
    assert(count == group_count(body));
    let groups = match s.read_array32::<SequentialMapGroup>(count) {
        Ok(g) => g,
        Err(_) => return None,
    };
    assert(groups@ =~= groups_of(body));
    assert(body_complete(body));
    assert(groups@.skip(0) =~= groups@);
    let n = groups.len();
    let mut i: usize = 0;
    while i < n
        invariant
            i <= n,
            n == groups@.len(),
            glyph_of(body, code_point) == lookup_in(groups@.skip(i as int), code_point),
        decreases n - i,
    {
        let group = match groups.get(i) {
            Some(g) => g,
            None => return None,
        };
        assert(groups@.skip(i as int)[0] == group);
        assert(groups@.skip(i as int).drop_first() =~= groups@.skip(i + 1));
        if code_point >= group.start_char_code && code_point <= group.end_char_code {
            let delta = code_point.checked_sub(group.start_char_code)?;
            let id = group.start_glyph_id.checked_add(delta)?;
            return if id <= 0xFFFF {
                Some(id as u16)
            } else {
                None
            };
        }
        i += 1;
    }
    None
}

proof fn lemma_lookup_first(groups: Seq<SequentialMapGroup>, code_point: u32, k: int)
    requires
        0 <= k < groups.len(),
        covers(groups[k], code_point),
        forall|j: int| 0 <= j < k ==> !covers(#[trigger] groups[j], code_point),
    ensures
        lookup_in(groups, code_point) == glyph_in_group(groups[k], code_point),
    decreases k,
{
    if k > 0 {
        let rest = groups.drop_first();
        assert forall|j: int| 0 <= j < k - 1 implies !covers(#[trigger] rest[j], code_point) by {
            assert(rest[j] == groups[j + 1]);
        }
        lemma_lookup_first(rest, code_point, k - 1);
    }
}

proof fn lemma_lookup_uncovered(groups: Seq<SequentialMapGroup>, code_point: u32)
    requires
        forall|j: int| 0 <= j < groups.len() ==> !covers(#[trigger] groups[j], code_point),
    ensures
        lookup_in(groups, code_point) is None,
    decreases groups.len(),
{
    if groups.len() > 0 {
        let rest = groups.drop_first();
        assert forall|j: int| 0 <= j < rest.len() implies !covers(#[trigger] rest[j], code_point) by {
            assert(rest[j] == groups[j + 1]);
        }
        lemma_lookup_uncovered(rest, code_point);
    }
}

proof fn lemma_lookup_exact(groups: Seq<SequentialMapGroup>, code_point: u32)
    ensures
        lookup_in(groups, code_point) matches Some(v) ==> exists|k: int|
            0 <= k < groups.len() && covers(#[trigger] groups[k], code_point) && v
                == groups[k].start_glyph_id + (code_point - groups[k].start_char_code),
    decreases groups.len(),
{
    if groups.len() > 0 && !covers(groups[0], code_point) {
        let rest = groups.drop_first();
        lemma_lookup_exact(rest, code_point);
        if let Some(v) = lookup_in(groups, code_point) {
            let k = choose|k: int|
                0 <= k < rest.len() && covers(#[trigger] rest[k], code_point) && v
                    == rest[k].start_glyph_id + (code_point - rest[k].start_char_code);
            assert(rest[k] == groups[k + 1]);
        }
    }
}

/// Within the first group that holds a code point, the code point maps to the
/// group's first glyph id plus its distance from the group's first code, or to
/// nothing where that sum is not a 16-bit value.
pub proof fn lemma_first_covering_group(body: Seq<u8>, code_point: u32, k: int)
    requires
        body_complete(body),
        0 <= k < group_count(body),
        covers(group_at(body, k), code_point),
        forall|j: int| 0 <= j < k ==> !covers(#[trigger] group_at(body, j), code_point),
    ensures
        ({
            let g = group_at(body, k);
            let id = g.start_glyph_id + (code_point - g.start_char_code);
            &&& id <= u16::MAX ==> glyph_of(body, code_point) == Some(id as u16)
            &&& id > u16::MAX ==> glyph_of(body, code_point) is None
        }),
{
    let groups = groups_of(body);
    assert forall|j: int| 0 <= j < k implies !covers(#[trigger] groups[j], code_point) by {
        assert(groups[j] == group_at(body, j));
    }
    lemma_lookup_first(groups, code_point, k);
}

/// A code point that no group holds maps to nothing.
pub proof fn lemma_uncovered_code_point(body: Seq<u8>, code_point: u32)
    requires
        forall|k: int| 0 <= k < group_count(body) ==> !covers(#[trigger] group_at(body, k), code_point),
    ensures
        glyph_of(body, code_point) is None,
{
    let groups = groups_of(body);
    assert forall|j: int| 0 <= j < groups.len() implies !covers(#[trigger] groups[j], code_point) by {
        assert(groups[j] == group_at(body, j));
    }
    lemma_lookup_uncovered(groups, code_point);
}

/// A glyph id that a lookup finds is the exact sum, with no wraparound, of the
/// first glyph id of a group that holds the code point and the code point's
/// distance from that group's first code; a sum past 16 bits, and so any sum that
/// would overflow 32 bits, gives no glyph id.
pub proof fn lemma_glyph_id_never_wraps(body: Seq<u8>, code_point: u32)
    ensures
        glyph_of(body, code_point) matches Some(v) ==> exists|k: int|
            0 <= k < group_count(body) && covers(#[trigger] group_at(body, k), code_point) && v
                == group_at(body, k).start_glyph_id + (code_point - group_at(
                body,
                k,
            ).start_char_code),
{
    let groups = groups_of(body);
    lemma_lookup_exact(groups, code_point);
    if let Some(v) = glyph_of(body, code_point) {
        let k = choose|k: int|
            0 <= k < groups.len() && covers(#[trigger] groups[k], code_point) && v
                == groups[k].start_glyph_id + (code_point - groups[k].start_char_code);
        assert(groups[k] == group_at(body, k));
    }
}

} // verus!
