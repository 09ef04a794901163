use mini_compiler::position::{line_starts, locate};

#[test]
fn lines_and_columns() {
    let text = "ab\ncd\n\nxyz";
    let starts = line_starts(text.as_bytes());
    assert_eq!(starts, vec![0, 3, 6, 7]);
    assert_eq!(locate(&starts, 0), (1, 1));
    assert_eq!(locate(&starts, 4), (2, 2));
    assert_eq!(locate(&starts, 6), (3, 1));
    assert_eq!(locate(&starts, 9), (4, 3));
}

#[test]
fn text_without_newline() {
    let starts = line_starts("let a: Int;".as_bytes());
    assert_eq!(starts, vec![0]);
    assert_eq!(locate(&starts, 4), (1, 5));
}
