use virtual_memory::batch::{
    answer_line, answer_queries, page_entries, raw_addresses, segment_entries,
};
use virtual_memory::io::data::decimal::{read_decimal, write_decimal};
use virtual_memory::io::fields::{blank, fields};
use virtual_memory::vm::virtual_memory::VirtualMemory;

fn written(n: i64) -> String {
    let mut out = String::new();
    write_decimal(n, &mut out);
    out
}

#[test]
fn fields_between_blanks() {
    assert_eq!(fields("8 4000 3"), vec!["8", "4000", "3"]);
    assert_eq!(fields("  8\t4000 \r\n 3\n"), vec!["8", "4000", "3"]);
    assert_eq!(fields("one"), vec!["one"]);
    assert_eq!(fields("a  b"), vec!["a", "b"]);
    assert_eq!(fields("-7 +3 x,y"), vec!["-7", "+3", "x,y"]);
}

#[test]
fn fields_of_blank_text() {
    let none: Vec<&str> = Vec::new();
    assert_eq!(fields(""), none);
    assert_eq!(fields(" "), none);
    assert_eq!(fields("\n"), none);
    assert_eq!(fields(" \t\r\n\u{b}\u{c}"), none);
    assert_eq!(fields("\u{a0}\u{3000}"), none);
}

#[test]
fn fields_of_text_beyond_ascii() {
    assert_eq!(fields("1\u{a0}2\u{2003}3\u{3000}4"), vec!["1", "2", "3", "4"]);
    assert_eq!(fields("\u{e9}t\u{e9} 12"), vec!["\u{e9}t\u{e9}", "12"]);
    assert_eq!(fields("a\u{85}b\u{1680}c\u{2028}d\u{2029}e\u{202f}f\u{205f}g"), vec![
        "a", "b", "c", "d", "e", "f", "g"
    ]);
    // These look like blanks and are none.
    assert_eq!(fields("a\u{200b}b\u{feff}c\u{180e}d"), vec!["a\u{200b}b\u{feff}c\u{180e}d"]);
    assert_eq!(fields("a\u{1c}b\u{1f}c"), vec!["a\u{1c}b\u{1f}c"]);
}

#[test]
fn fields_are_those_of_split_whitespace() {
    let texts = [
        "",
        " 1 2  3 ",
        "8 4000 3 9 5000 -7\n",
        "\t\tx\u{a0}y\u{2000}\u{200a}z\r\n",
        "\u{0}a\u{8}b\u{e}c\u{7f}d\u{84}e\u{86}f",
        "\u{1fff}\u{2000}\u{200a}\u{200b}\u{2027}\u{2028}\u{2029}\u{202a}\u{202e}\u{202f}\u{2030}",
        "\u{205e}\u{205f}\u{2060}\u{2fff}\u{3000}\u{3001}\u{167f}\u{1680}\u{1681}\u{9f}\u{a0}\u{a1}",
    ];
    for text in texts {
        let expected: Vec<&str> = text.split_whitespace().collect();
        assert_eq!(fields(text), expected);
    }
}

#[test]
fn blank_is_white_space() {
    let mut code: u32 = 0;
    while code <= 0x11_0000 {
        if let Some(c) = char::from_u32(code) {
            assert_eq!(blank(c), c.is_whitespace());
        }
        code += 1;
    }
}

#[test]
fn write_decimal_values() {
    assert_eq!(written(0), "0");
    assert_eq!(written(7), "7");
    assert_eq!(written(10), "10");
    assert_eq!(written(5130), "5130");
    assert_eq!(written(-1), "-1");
    assert_eq!(written(-1023), "-1023");
    assert_eq!(written(4_294_967_295), "4294967295");
    assert_eq!(written(i64::MAX), "9223372036854775807");
    assert_eq!(written(i64::MIN), "-9223372036854775808");
}

#[test]
fn write_decimal_appends() {
    let mut out = String::from("x ");
    write_decimal(12, &mut out);
    write_decimal(-3, &mut out);
    assert_eq!(out, "x 12-3");
}

#[test]
fn write_decimal_reads_back() {
    let numbers: [i64; 8] = [0, 1, 9, 10, 99, 100, 523_264, 4_294_967_295];
    for n in numbers {
        assert_eq!(read_decimal(&written(n), true, u32::MAX), Some(n));
        assert_eq!(read_decimal(&written(n), false, u32::MAX), Some(n));
        assert_eq!(read_decimal(&written(-n), true, u32::MAX), Some(-n));
        assert_eq!(written(n), n.to_string());
        assert_eq!(written(-n), (-n).to_string());
    }
}

#[test]
fn raw_addresses_in_order() {
    assert_eq!(
        raw_addresses(&vec!["2097162", "0", "4294967295"]),
        Some(vec![2_097_162, 0, u32::MAX])
    );
    assert_eq!(raw_addresses(&vec![]), Some(vec![]));
    assert_eq!(raw_addresses(&vec!["1", "x", "3"]), None);
    assert_eq!(raw_addresses(&vec!["1", "2", "4294967296"]), None);
    assert_eq!(raw_addresses(&vec!["-1"]), None);
}

#[test]
fn answer_line_of_answers() {
    assert_eq!(answer_line(&vec![]), "\n");
    assert_eq!(answer_line(&vec![5130]), "5130\n");
    assert_eq!(answer_line(&vec![5130, -1, 0, 1034]), "5130 -1 0 1034\n");
}

#[test]
fn whole_run_from_text() {
    let first_line = "8 4000 3 9 5000 -7\n";
    let second_line = "8 0 10 8 1 -20 9 0 13 9 1 -25\n";
    let queries = "2097162 2097674 2359306 2359818\n2099200 2621440";

    let segments = segment_entries(&fields(first_line)).expect("valid segment entries");
    let pages = page_entries(&fields(second_line)).expect("valid page entries");
    let mut vm = VirtualMemory::new(segments, pages).expect("Failed to init");
    let raws = raw_addresses(&fields(queries)).expect("valid addresses");
    let answers = answer_queries(&mut vm, &raws).expect("answers");
    assert_eq!(answer_line(&answers), "5130 1034 6666 2570 -1 -1\n");
}
