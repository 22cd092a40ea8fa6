use virtual_memory::batch::{
    answer, answer_queries, page_entries, raw_address, segment_entries, NO_ADDRESS,
};
use virtual_memory::error::VMError;
use virtual_memory::io::pt_input::PTInput;
use virtual_memory::io::st_input::STInput;
use virtual_memory::vm::virtual_memory::VirtualMemory;

fn two_segments() -> VirtualMemory {
    let segments = segment_entries(&vec!["8", "4000", "3", "9", "5000", "-7"])
        .expect("valid segment entries");
    let pages = page_entries(&vec![
        "8", "0", "10", "8", "1", "-20", "9", "0", "13", "9", "1", "-25",
    ])
    .expect("valid page entries");
    VirtualMemory::new(segments, pages).expect("Failed to init")
}

#[test]
fn segment_entries_in_order() {
    let fields = vec!["8", "4000", "3", "9", "5000", "-7"];
    assert_eq!(
        segment_entries(&fields),
        Ok(vec![
            STInput { segment: 8, size: 4000, frame: 3 },
            STInput { segment: 9, size: 5000, frame: -7 },
        ])
    );
    assert_eq!(segment_entries(&vec![]), Ok(vec![]));
}

#[test]
fn segment_entries_first_error() {
    let fields = vec!["8", "4000", "3", "9", "x", "-7", "600", "1", "1"];
    assert_eq!(segment_entries(&fields), Err(VMError::InvalidSegmentSize));
    let fields = vec!["8", "4000", "1", "600", "5000", "-7"];
    assert_eq!(segment_entries(&fields), Err(VMError::InvalidFrame));
    let fields = vec!["8", "4000", "3", "600", "5000", "1"];
    assert_eq!(segment_entries(&fields), Err(VMError::InvalidSegment));
}

#[test]
fn segment_entries_missing_field() {
    assert_eq!(segment_entries(&vec!["8"]), Err(VMError::InvalidSegmentSize));
    assert_eq!(segment_entries(&vec!["8", "4000"]), Err(VMError::InvalidFrame));
    assert_eq!(segment_entries(&vec!["8", "4000", "3", "9"]), Err(VMError::InvalidSegmentSize));
    assert_eq!(segment_entries(&vec!["8", "4000", "3", "9", "1"]), Err(VMError::InvalidFrame));
    assert_eq!(segment_entries(&vec!["8", "4000", "3", "x"]), Err(VMError::InvalidSegment));
    // An earlier error comes first.
    assert_eq!(segment_entries(&vec!["8", "4000", "1", "9"]), Err(VMError::InvalidFrame));
}

#[test]
fn page_entries_missing_field() {
    assert_eq!(page_entries(&vec!["8"]), Err(VMError::InvalidPage));
    assert_eq!(page_entries(&vec!["8", "0"]), Err(VMError::InvalidFrame));
    assert_eq!(page_entries(&vec!["8", "0", "10", "8", "1"]), Err(VMError::InvalidFrame));
    assert_eq!(page_entries(&vec!["8", "0", "10", "600", "1"]), Err(VMError::InvalidSegment));
}

#[test]
fn page_entries_in_order() {
    let fields = vec!["8", "0", "10", "8", "1", "-20"];
    assert_eq!(
        page_entries(&fields),
        Ok(vec![
            PTInput { segment: 8, page: 0, frame: 10 },
            PTInput { segment: 8, page: 1, frame: -20 },
        ])
    );
    assert_eq!(page_entries(&vec![]), Ok(vec![]));
}

#[test]
fn page_entries_first_error() {
    let fields = vec!["8", "0", "10", "8", "512", "1", "x", "y", "z"];
    assert_eq!(page_entries(&fields), Err(VMError::InvalidPage));
    let fields = vec!["8", "0", "10", "8", "1", "1", "8", "999", "2"];
    assert_eq!(page_entries(&fields), Err(VMError::InvalidFrame));
    let fields = vec!["-8", "0", "10"];
    assert_eq!(page_entries(&fields), Err(VMError::InvalidSegment));
}

#[test]
fn raw_address_reads_32_bits() {
    assert_eq!(raw_address("0"), Some(0));
    assert_eq!(raw_address("2097162"), Some(2_097_162));
    assert_eq!(raw_address("+17"), Some(17));
    assert_eq!(raw_address("4294967295"), Some(u32::MAX));
    assert_eq!(raw_address("4294967296"), None);
    assert_eq!(raw_address("-1"), None);
    assert_eq!(raw_address(""), None);
    assert_eq!(raw_address("12 "), None);
    assert_eq!(raw_address("0x10"), None);
}

#[test]
fn answer_of_each_result() {
    assert_eq!(NO_ADDRESS, -1);
    assert_eq!(answer(Ok(5130)), Ok(5130));
    assert_eq!(answer(Ok(0)), Ok(0));
    assert_eq!(answer(Ok(u32::MAX)), Ok(4_294_967_295));
    assert_eq!(answer(Err(VMError::VirtualAddressOutOfBounds)), Ok(-1));
    assert_eq!(answer(Err(VMError::MemoryNotInitialized)), Ok(-1));
    assert_eq!(answer(Err(VMError::MemoryFull)), Err(VMError::MemoryFull));
    assert_eq!(
        answer(Err(VMError::VirtualAddressLeadingBits)),
        Err(VMError::VirtualAddressLeadingBits)
    );
    assert_eq!(answer(Err(VMError::InvalidFrame)), Err(VMError::InvalidFrame));
}

#[test]
fn answer_queries_in_order() {
    let mut vm = two_segments();
    let raws: Vec<u32> = vec![2_097_162, 2_097_674, 2_359_306, 2_359_818];
    assert_eq!(answer_queries(&mut vm, &raws), Ok(vec![5130, 1034, 6666, 2570]));
    // Each page-in took the lowest free frame at its time: 2, then 4 for the
    // table of segment 9, then 5.
    assert_eq!(vm.word(3 * 512 + 1), 2);
    assert_eq!(vm.word(19), 4);
    assert_eq!(vm.word(4 * 512 + 1), 5);
    assert_eq!(answer_queries(&mut vm, &raws), Ok(vec![5130, 1034, 6666, 2570]));
    assert_eq!(answer_queries(&mut vm, &vec![]), Ok(vec![]));
}

#[test]
fn answer_queries_writes_no_address() {
    let mut vm = two_segments();
    // Beyond segment 8, a page of segment 8 without a location, a segment
    // without an entry.
    let raws: Vec<u32> = vec![
        (8 << 18) | 4000,
        (8 << 18) | (2 << 9),
        2_097_162,
        20 << 18,
    ];
    assert_eq!(answer_queries(&mut vm, &raws), Ok(vec![-1, -1, 5130, -1]));
}

#[test]
fn answer_queries_stops_at_leading_bits() {
    let mut vm = two_segments();
    let raws: Vec<u32> = vec![2_097_674, 0x800_0000, 2_359_306];
    assert_eq!(answer_queries(&mut vm, &raws), Err(VMError::VirtualAddressLeadingBits));
    // What came before the error was done, what came after was not.
    assert_eq!(vm.word(3 * 512 + 1), 2);
    assert_eq!(vm.word(19), -7);
}

#[test]
fn answer_queries_stops_when_full() {
    let mut vm = two_segments();
    for frame in 3..1024 {
        vm.mark_frame_used(frame);
    }
    let raws: Vec<u32> = vec![2_097_162, 2_097_674, 2_359_306, 2_097_162];
    assert_eq!(answer_queries(&mut vm, &raws), Err(VMError::MemoryFull));
    assert_eq!(vm.word(3 * 512 + 1), 2);
    assert_eq!(vm.word(19), -7);
    assert_eq!(vm.free_frame_count(), 0);
}
