use rock_core::test_file::{parse_test_file, TestFileError};

#[test]
fn test_file_prelude_and_tests() {
    let text = "//#prelude\nimport core.fmt;\n\n//#entry \"hello\"\n//#expect\n//hello\n//#!\nproc test_hello() void {}\n//#entry \"two\" runs twice\n//#expect(no_new_line)\n//a\n//b\n//#!\nproc test_two() void {}\n";
    let file = parse_test_file(text).unwrap();
    assert_eq!(file.prelude, "import core.fmt;\n");
    assert_eq!(file.tests.len(), 2);
    assert_eq!(file.tests[0].entry, "hello");
    assert_eq!(file.tests[0].expect, "hello\n");
    assert_eq!(file.tests[0].source, "proc test_hello() void {}\n");
    assert_eq!(file.tests[1].entry, "two");
    assert_eq!(file.tests[1].expect, "a\nb");
    assert_eq!(file.tests[1].source, "proc test_two() void {}\n");
}

#[test]
fn test_file_crlf_lines_and_open_expect() {
    let text = "//#prelude\r\n//#entry \"x\"\r\n//#expect\r\n//out\r\n";
    let file = parse_test_file(text).unwrap();
    assert_eq!(file.prelude, "");
    assert_eq!(file.tests.len(), 1);
    assert_eq!(file.tests[0].entry, "x");
    assert_eq!(file.tests[0].expect, "out\n");
    assert_eq!(file.tests[0].source, "");
}

#[test]
fn test_file_errors() {
    assert_eq!(parse_test_file("").err(), Some(TestFileError::MissingPrelude));
    assert_eq!(parse_test_file("//#prelud\n").err(), Some(TestFileError::MissingPrelude));
    assert_eq!(parse_test_file("//#prelude\n//#test \"a\"\n").err(), Some(TestFileError::MissingEntry));
    assert_eq!(parse_test_file("//#prelude\n//#entry a\n").err(), Some(TestFileError::EntryNameOpen));
    assert_eq!(parse_test_file("//#prelude\n//#entry \"a\n").err(), Some(TestFileError::EntryNameClose));
    assert_eq!(parse_test_file("//#prelude\n//#entry \"a\"\n").err(), Some(TestFileError::MissingExpect));
    assert_eq!(
        parse_test_file("//#prelude\n//#entry \"a\"\n//#expect\nproc x\n").err(),
        Some(TestFileError::ExpectNotComment)
    );
    assert_eq!(
        parse_test_file("//#prelude\n//#entry \"a\"\n//#expect\n//#!\n//#entry \"a\"\n//#expect\n//#!\n").err(),
        Some(TestFileError::DuplicateEntry)
    );
}
