use virtual_memory::error::VMError;
use virtual_memory::io::data::decimal::read_decimal;
use virtual_memory::io::data::frame_offset::FrameOffset;
use virtual_memory::io::data::page_offset::PageOffset;
use virtual_memory::io::data::segment_offset::SegmentOffset;
use virtual_memory::io::data::segment_size::SegmentSize;

#[test]
fn frame_offset_simple() {
    let result = FrameOffset::new("2");
    assert_eq!(result.map(|offset| offset.value()), Ok(2));
}

#[test]
fn frame_offset_negative() {
    let result = FrameOffset::new("-1");
    assert_eq!(result.map(|offset| offset.value()), Ok(-1));
}

#[test]
fn zero() {
    // Zero is a location at this level: it says that none was given yet.
    let result = FrameOffset::new("0");
    assert_eq!(result.map(|offset| offset.value()), Ok(0));
}

#[test]
fn one() {
    let result = FrameOffset::new("1");
    assert_eq!(result, Err(VMError::InvalidFrame));
}

#[test]
fn frame_offset_too_large() {
    let result = FrameOffset::new("1024");
    assert_eq!(result, Err(VMError::InvalidFrame));
}

#[test]
fn frame_offset_max() {
    let result = FrameOffset::new("1023");
    assert_eq!(result.map(|offset| offset.value()), Ok(1023));
}

#[test]
fn frame_offset_min() {
    let result = FrameOffset::new("-1023");
    assert_eq!(result.map(|offset| offset.value()), Ok(-1023));
}

#[test]
fn frame_offset_too_small() {
    assert_eq!(FrameOffset::new("-1024"), Err(VMError::InvalidFrame));
    assert_eq!(FrameOffset::new("-32768"), Err(VMError::InvalidFrame));
    assert_eq!(FrameOffset::new("-99999999999999999999"), Err(VMError::InvalidFrame));
}

#[test]
fn frame_offset_signs() {
    assert_eq!(FrameOffset::new("+7").map(|offset| offset.value()), Ok(7));
    assert_eq!(FrameOffset::new("-0").map(|offset| offset.value()), Ok(0));
    assert_eq!(FrameOffset::new("+1"), Err(VMError::InvalidFrame));
    assert_eq!(FrameOffset::new("--7"), Err(VMError::InvalidFrame));
    assert_eq!(FrameOffset::new("+-7"), Err(VMError::InvalidFrame));
    assert_eq!(FrameOffset::new("-"), Err(VMError::InvalidFrame));
    assert_eq!(FrameOffset::new("+"), Err(VMError::InvalidFrame));
}

#[test]
fn frame_offset_not_a_number() {
    assert_eq!(FrameOffset::new(""), Err(VMError::InvalidFrame));
    assert_eq!(FrameOffset::new("abc"), Err(VMError::InvalidFrame));
    assert_eq!(FrameOffset::new("12x"), Err(VMError::InvalidFrame));
    assert_eq!(FrameOffset::new(" 12"), Err(VMError::InvalidFrame));
    assert_eq!(FrameOffset::new("12 "), Err(VMError::InvalidFrame));
    assert_eq!(FrameOffset::new("1.5"), Err(VMError::InvalidFrame));
    assert_eq!(FrameOffset::new("\u{0661}\u{0662}"), Err(VMError::InvalidFrame));
}

#[test]
fn page_offset_simple() {
    let result = PageOffset::new("0");
    assert_eq!(result.map(|offset| offset.value()), Ok(0));
}

#[test]
fn page_offset_negative() {
    let result = PageOffset::new("-1");
    assert_eq!(result, Err(VMError::InvalidPage));
}

#[test]
fn page_offset_too_large() {
    let result = PageOffset::new("1024");
    assert_eq!(result, Err(VMError::InvalidPage));
}

#[test]
fn page_offset_max() {
    // A page table has 512 words, so the last page is 511. 1023 is the last
    // frame, and no page.
    let result = PageOffset::new("1023");
    assert_eq!(result, Err(VMError::InvalidPage));
    assert_eq!(PageOffset::new("512"), Err(VMError::InvalidPage));
    assert_eq!(PageOffset::new("511").map(|offset| offset.value()), Ok(511));
}

#[test]
fn page_offset_text() {
    assert_eq!(PageOffset::new("+12").map(|offset| offset.value()), Ok(12));
    assert_eq!(PageOffset::new("007").map(|offset| offset.value()), Ok(7));
    assert_eq!(PageOffset::new("-0"), Err(VMError::InvalidPage));
    assert_eq!(PageOffset::new(""), Err(VMError::InvalidPage));
    assert_eq!(PageOffset::new("page"), Err(VMError::InvalidPage));
}

#[test]
fn segment_offset_simple() {
    let result = SegmentOffset::new("0");
    assert_eq!(result.map(|offset| offset.value()), Ok(0));
}

#[test]
fn segment_offset_negative() {
    let result = SegmentOffset::new("-1");
    assert_eq!(result, Err(VMError::InvalidSegment));
}

#[test]
fn segment_offset_too_large() {
    let result = SegmentOffset::new("512");
    assert_eq!(result, Err(VMError::InvalidSegment));
}

#[test]
fn segment_offset_max() {
    let result = SegmentOffset::new("511");
    assert_eq!(result.map(|offset| offset.value()), Ok(511));
}

#[test]
fn segment_offset_text() {
    assert_eq!(SegmentOffset::new("+511").map(|offset| offset.value()), Ok(511));
    assert_eq!(SegmentOffset::new("0000000000000000000000000000000008").map(|offset| offset.value()), Ok(8));
    assert_eq!(SegmentOffset::new("65536"), Err(VMError::InvalidSegment));
    assert_eq!(SegmentOffset::new("4294967304"), Err(VMError::InvalidSegment));
    assert_eq!(SegmentOffset::new("8\n"), Err(VMError::InvalidSegment));
}

#[test]
fn segment_size_simple() {
    let result = SegmentSize::new("0");
    assert_eq!(result.map(|size| size.value()), Ok(0));
}

#[test]
fn segment_size_negative() {
    let result = SegmentSize::new("-1");
    assert_eq!(result, Err(VMError::InvalidSegmentSize));
}

#[test]
fn segment_size_too_large() {
    let result = SegmentSize::new("523265");
    assert_eq!(result, Err(VMError::InvalidSegmentSize));
}

#[test]
fn segment_size_max() {
    let result = SegmentSize::new("523264");
    assert_eq!(result.map(|size| size.value()), Ok(523_264));
}

#[test]
fn segment_size_text() {
    assert_eq!(SegmentSize::new("+4000").map(|size| size.value()), Ok(4000));
    assert_eq!(SegmentSize::new("4294967296"), Err(VMError::InvalidSegmentSize));
    assert_eq!(SegmentSize::new("18446744073709551616"), Err(VMError::InvalidSegmentSize));
    assert_eq!(SegmentSize::new("4,000"), Err(VMError::InvalidSegmentSize));
}

#[test]
fn read_decimal_values() {
    assert_eq!(read_decimal("0", false, 10), Some(0));
    assert_eq!(read_decimal("10", false, 10), Some(10));
    assert_eq!(read_decimal("11", false, 10), None);
    assert_eq!(read_decimal("4294967295", false, u32::MAX), Some(4_294_967_295));
    assert_eq!(read_decimal("4294967296", false, u32::MAX), None);
    assert_eq!(read_decimal("-4294967295", true, u32::MAX), Some(-4_294_967_295));
    assert_eq!(read_decimal("-4294967296", true, u32::MAX), None);
    assert_eq!(read_decimal("1234567", true, 2_000_000), Some(1_234_567));
    assert_eq!(read_decimal("-1234567", true, 2_000_000), Some(-1_234_567));
    assert_eq!(read_decimal("000123", true, 200), Some(123));
}

#[test]
fn read_decimal_sign_only_where_allowed() {
    assert_eq!(read_decimal("-5", true, 10), Some(-5));
    assert_eq!(read_decimal("-5", false, 10), None);
    assert_eq!(read_decimal("+5", true, 10), Some(5));
    assert_eq!(read_decimal("+5", false, 10), Some(5));
    assert_eq!(read_decimal("-0", false, 10), None);
}

#[test]
fn read_decimal_rejects_other_text() {
    assert_eq!(read_decimal("", true, 10), None);
    assert_eq!(read_decimal("+", true, 10), None);
    assert_eq!(read_decimal("-", true, 10), None);
    assert_eq!(read_decimal("5-", true, 10), None);
    assert_eq!(read_decimal("0x5", true, 10), None);
    assert_eq!(read_decimal("5\u{e9}", true, 10), None);
    assert_eq!(read_decimal("\u{ff15}", true, 10), None);
    assert_eq!(read_decimal("/", true, 10), None);
    assert_eq!(read_decimal(":", true, 10), None);
}
