use ffirs_commands::fragment::FragmentIterator;

#[test]
fn fragment_test_fragment_iterator() {
    let mut iterator = FragmentIterator::new(String::from("  hey ho 'bl bl' "));

    assert_eq!(iterator.next(), Some(String::from("hey")));
    assert_eq!(iterator.next(), Some(String::from("ho")));
    assert_eq!(iterator.next(), Some(String::from("bl bl")));
    assert_eq!(iterator.next(), None);
}

#[test]
fn fragment_test_trim_self_normal() {
    let mut it = FragmentIterator::new(String::from("  hey"));
    it.trim_self();
    assert_eq!(it.position(), 2);
}

#[test]
fn fragment_test_trim_self_nothing() {
    let mut it = FragmentIterator::new(String::from("hey"));
    it.trim_self();
    assert_eq!(it.position(), 0);
}

#[test]
fn fragment_test_end_of_word_normal() {
    let normal = "hey ho";
    assert_eq!(FragmentIterator::find_end_of_word(normal), 3);
}

#[test]
fn fragment_test_end_of_word_eof() {
    let eof = "hey";
    assert_eq!(FragmentIterator::find_end_of_word(eof), 3);
}

#[test]
fn fragment_test_end_of_word_whitespace() {
    let whitespace = "hey  ";
    assert_eq!(FragmentIterator::find_end_of_word(whitespace), 3);
}

#[test]
fn fragment_test_find_ending_quote_valid() {
    let valid = "'this is quoted'";
    assert_eq!(FragmentIterator::find_end_of_quote(valid), Some(15));
}

#[test]
fn fragment_test_find_ending_quote_invalid() {
    let invalid = "'nope";
    assert_eq!(FragmentIterator::find_end_of_quote(invalid), None);
}

#[test]
fn fragment_test_find_ending_quote_multiple() {
    let multiple = "'hey' 'ho'";
    assert_eq!(FragmentIterator::find_end_of_quote(multiple), Some(4));
}

#[test]
fn fragment_iterator_stops_at_unclosed_quote() {
    let mut it = FragmentIterator::new(String::from("a 'b"));
    assert_eq!(it.next(), Some(String::from("a")));
    assert_eq!(it.next(), None);
    assert_eq!(it.next(), None);
}
