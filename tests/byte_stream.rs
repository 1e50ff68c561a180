use parser_c::{
    countLines, inputStreamEmpty, inputStreamFromString, inputStreamToString, readInputStream,
    takeByte, takeChar, takeChars,
};

#[test]
fn empty_text_gives_empty_stream() {
    assert!(inputStreamEmpty(&inputStreamFromString("")));
    assert!(!inputStreamEmpty(&inputStreamFromString("x")));
}

#[test]
fn round_trip_single_byte_text() {
    for s in ["", "x", "ab\ncd", "int main() { return 0; }\n", "caf\u{e9} \u{ff}"] {
        assert_eq!(inputStreamToString(&inputStreamFromString(s)), s);
    }
}

#[test]
fn wide_characters_keep_their_low_byte() {
    // U+0141 is stored as its low byte 0x41.
    let st = inputStreamFromString("\u{141}z");
    let (b, st) = takeByte(st);
    assert_eq!(b, 0x41);
    assert_eq!(inputStreamToString(&st), "z");
}

#[test]
fn line_counts() {
    assert_eq!(countLines(&inputStreamFromString("")), 0);
    assert_eq!(countLines(&inputStreamFromString("a\nb\n")), 2);
    assert_eq!(countLines(&inputStreamFromString("a\nb")), 2);
    assert_eq!(countLines(&inputStreamFromString("\n")), 1);
    assert_eq!(countLines(&inputStreamFromString("\n\n")), 2);
    assert_eq!(countLines(&inputStreamFromString("abc")), 1);
    assert_eq!(countLines(&inputStreamFromString("a\r\nb")), 2);
}

#[test]
fn take_char_keeps_text() {
    let st = inputStreamFromString("h\u{e9}llo");
    let whole = inputStreamToString(&st);
    let (c, rest) = takeChar(st);
    assert_eq!(c, 'h');
    assert_eq!(format!("{}{}", c, inputStreamToString(&rest)), whole);
    let (c, rest) = takeChar(rest);
    assert_eq!(c, '\u{e9}');
    assert_eq!(inputStreamToString(&rest), "llo");
}

#[test]
fn take_chars_past_end_gives_all() {
    let st = inputStreamFromString("abc");
    assert_eq!(takeChars(3, &st), vec!['a', 'b', 'c']);
    assert_eq!(takeChars(10, &st), vec!['a', 'b', 'c']);
    assert_eq!(takeChars(isize::MAX, &st), vec!['a', 'b', 'c']);
    assert_eq!(takeChars(5, &inputStreamFromString("")), Vec::<char>::new());
}

#[test]
fn take_chars_prefix() {
    let st = inputStreamFromString("abcdef");
    assert_eq!(takeChars(2, &st), vec!['a', 'b']);
    assert_eq!(inputStreamToString(&st), "abcdef");
}

#[test]
fn take_zero_chars_is_empty() {
    let st = inputStreamFromString("abc");
    assert!(takeChars(0, &st).is_empty());
    assert_eq!(inputStreamToString(&st), "abc");
}

#[test]
fn empty_file_gives_empty_stream() {
    let st = readInputStream(Vec::new());
    assert!(inputStreamEmpty(&st));
    assert_eq!(countLines(&st), 0);
}

#[test]
fn file_bytes_are_kept() {
    let st = readInputStream(vec![b'x', 0xff, b'\n']);
    let (b, st) = takeByte(st);
    assert_eq!(b, b'x');
    let (b, st) = takeByte(st);
    assert_eq!(b, 0xff);
    assert_eq!(countLines(&st), 1);
}

#[test]
fn take_two_bytes_then_rest() {
    let st = inputStreamFromString("ab\ncd");
    let (a, st) = takeByte(st);
    let (b, st) = takeByte(st);
    assert_eq!(a, b'a');
    assert_eq!(b, b'b');
    assert_eq!(inputStreamToString(&st), "\ncd");
    assert_eq!(countLines(&st), 2);
}

#[test]
fn consuming_to_the_end() {
    let mut st = inputStreamFromString("xyz");
    let mut seen = Vec::new();
    while !inputStreamEmpty(&st) {
        let (c, rest) = takeChar(st);
        seen.push(c);
        st = rest;
    }
    assert_eq!(seen, vec!['x', 'y', 'z']);
    assert_eq!(countLines(&st), 0);
    assert_eq!(inputStreamToString(&st), "");
}

#[test]
fn clones_advance_independently() {
    let st = inputStreamFromString("pq");
    let (a, rest) = takeByte(st.clone());
    assert_eq!(a, b'p');
    assert_eq!(inputStreamToString(&rest), "q");
    assert_eq!(inputStreamToString(&st), "pq");
    let (c, _) = takeChar(st);
    assert_eq!(c, 'p');
}
