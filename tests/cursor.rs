use simple_cursor::Cursor;

#[test]
fn peek() {
    let input = "s";
    let cursor = Cursor::new(input);
    assert_eq!(cursor.peek(), Some('s'));
    assert_eq!(cursor.byte_pos(), 0);
    assert_eq!(cursor.chars().as_str(), input);

    let input = "";
    let cursor = Cursor::new(input);
    assert_eq!(cursor.peek(), None);
    assert_eq!(cursor.byte_pos(), 0);
    assert_eq!(cursor.chars().as_str(), input);
}

#[test]
fn peek_two() {
    let input = "ab";
    let cursor = Cursor::new(input);
    assert_eq!(cursor.peek_two(), (Some('a'), Some('b')));
    assert_eq!(cursor.byte_pos(), 0);
    assert_eq!(cursor.chars().as_str(), input);

    let input = "a";
    let cursor = Cursor::new(input);
    assert_eq!(cursor.peek_two(), (Some('a'), None));
    assert_eq!(cursor.byte_pos(), 0);
    assert_eq!(cursor.chars().as_str(), input);

    let input = "";
    let cursor = Cursor::new(input);
    assert_eq!(cursor.peek_two(), (None, None));
    assert_eq!(cursor.byte_pos(), 0);
    assert_eq!(cursor.chars().as_str(), input);
}

#[test]
fn bump() {
    let input = "a";
    let mut cursor = Cursor::new(input);
    assert_eq!(cursor.bump(), Some('a'));
    assert_eq!(cursor.byte_pos(), 1);
    assert_eq!(cursor.chars().as_str(), "");
}

#[test]
fn bump_two() {
    let input = "abc";
    let mut cursor = Cursor::new(input);
    assert_eq!(cursor.bump_two(), (Some('a'), Some('b')));
    assert_eq!(cursor.byte_pos(), 2);
    assert_eq!(cursor.chars().as_str(), "c");

    assert_eq!(cursor.bump_two(), (Some('c'), None));
    assert_eq!(cursor.byte_pos(), 3);
    assert_eq!(cursor.chars().as_str(), "");

    assert_eq!(cursor.bump_two(), (None, None));
    assert_eq!(cursor.byte_pos(), 3);
    assert_eq!(cursor.chars().as_str(), "");
}

#[test]
fn skip_while() {
    let input = "aaaab";
    let mut cursor = Cursor::new(input);
    cursor.skip_while(|c| c == 'a');
    assert_eq!(cursor.byte_pos(), 4);
    assert_eq!(cursor.chars().as_str(), "b");
}
