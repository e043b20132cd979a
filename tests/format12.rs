use ttf_parser::format12::parse;
use ttf_parser::Stream;

fn body(groups: &[(u32, u32, u32)]) -> Vec<u8> {
    let mut b = vec![0, 0]; // reserved
    b.extend_from_slice(&(16 + 12 * groups.len() as u32).to_be_bytes()); // length
    b.extend_from_slice(&0u32.to_be_bytes()); // language
    b.extend_from_slice(&(groups.len() as u32).to_be_bytes());
    for &(start, end, glyph) in groups {
        b.extend_from_slice(&start.to_be_bytes());
        b.extend_from_slice(&end.to_be_bytes());
        b.extend_from_slice(&glyph.to_be_bytes());
    }
    b
}

fn lookup(data: &[u8], code_point: u32) -> Option<u16> {
    parse(Stream::new(data), code_point)
}

#[test]
fn latin_capitals() {
    let b = body(&[(65, 90, 36)]);
    assert_eq!(lookup(&b, 65), Some(36));
    assert_eq!(lookup(&b, 90), Some(61));
    assert_eq!(lookup(&b, 64), None);
    assert_eq!(lookup(&b, 77), Some(48));
    assert_eq!(lookup(&b, 91), None);
}

#[test]
fn overflowing_sum_gives_none() {
    let b = body(&[(0, 0xFFFF_FFFF, 0xFFFF_FFFF)]);
    assert_eq!(lookup(&b, 1), None);
    // No distance to add: the sum is 0xFFFF_FFFF, which is past 16 bits.
    assert_eq!(lookup(&b, 0), None);
}

#[test]
fn distance_is_taken_before_adding() {
    // start_glyph_id + code_point overflows 32 bits, but the distance to the
    // group's first code is small.
    let b = body(&[(0xFFFF_FFF0, 0xFFFF_FFFF, 0x10)]);
    assert_eq!(lookup(&b, 0xFFFF_FFF5), Some(0x15));
}

#[test]
fn glyph_past_sixteen_bits_gives_none() {
    let b = body(&[(0, 100, 0xFFF0)]);
    assert_eq!(lookup(&b, 15), Some(0xFFFF));
    assert_eq!(lookup(&b, 16), None);
}

#[test]
fn uncovered_code_points() {
    let b = body(&[(10, 20, 1), (30, 40, 100)]);
    assert_eq!(lookup(&b, 9), None);
    assert_eq!(lookup(&b, 25), None);
    assert_eq!(lookup(&b, 41), None);
    assert_eq!(lookup(&b, 35), Some(105));
    assert_eq!(lookup(&b, 20), Some(11));
}

#[test]
fn no_groups() {
    let b = body(&[]);
    assert_eq!(lookup(&b, 0), None);
    assert_eq!(lookup(&b, 65), None);
}

#[test]
fn first_of_overlapping_groups_wins() {
    let b = body(&[(0, 10, 5), (0, 10, 100)]);
    assert_eq!(lookup(&b, 1), Some(6));
}

#[test]
fn truncated_body_gives_none() {
    let b = body(&[(65, 90, 36)]);
    assert_eq!(lookup(&b[..b.len() - 1], 65), None);
    assert_eq!(lookup(&b[..13], 65), None);
    assert_eq!(lookup(&[], 65), None);
}

#[test]
fn code_point_is_read_from_stream_position() {
    let mut b = vec![0xAA, 0xBB];
    b.extend_from_slice(&body(&[(65, 90, 36)]));
    let mut s = Stream::new(&b);
    assert_eq!(s.skip::<u16>(), Ok(()));
    assert_eq!(parse(s, 66), Some(37));
}
