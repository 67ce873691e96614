use ffirs_commands::error::CmdError;
use ffirs_commands::fragment_iter::{tokenize, FragmentIter};

#[test]
fn fragment_iter_test_fragment_iterator() {
    let mut iterator = FragmentIter::new(String::from("  hey ho 'bl bl' "));

    assert_eq!(iterator.next().unwrap().unwrap(), String::from("hey"));
    assert_eq!(iterator.next().unwrap().unwrap(), String::from("ho"));
    assert_eq!(iterator.next().unwrap().unwrap(), String::from("bl bl"));
    assert!(iterator.next().is_none());
}

#[test]
fn test_fragment_collect() {
    let mut iterator = FragmentIter::new(String::from("part one     and two 'three hey'"));
    let mut frags = Vec::new();
    while let Some(res) = iterator.next() {
        frags.push(res);
    }
    let err = frags.iter().find(|res| res.is_err());
    assert!(err.is_none());
    let frags = frags.into_iter().map(|res| res.unwrap()).collect::<Vec<_>>();

    assert_eq!(frags.len(), 5);
    assert_eq!(&frags, &["part", "one", "and", "two", "three hey"]);
}

#[test]
fn test_fragment_collect_err() {
    let mut iterator = FragmentIter::new(String::from("part one     and two 'three hey"));
    let mut frags = Vec::new();
    while let Some(res) = iterator.next() {
        frags.push(res);
    }
    let err = frags.iter().find(|res| res.is_err());

    assert!(err.is_some());
    let err = err.unwrap().as_ref().unwrap_err();
    match err {
        CmdError::ParsingError { start, end, .. } => {
            assert_eq!(*start, 21);
            assert_eq!(*end, 30);
        }
        _ => unreachable!(),
    }
}

#[test]
fn fragment_iter_test_trim_self_normal() {
    let mut it = FragmentIter::new(String::from("  hey"));
    it.trim_self();
    assert_eq!(it.position(), 2);
}

#[test]
fn fragment_iter_test_trim_self_nothing() {
    let mut it = FragmentIter::new(String::from("hey"));
    it.trim_self();
    assert_eq!(it.position(), 0);
}

#[test]
fn fragment_iter_test_end_of_word_normal() {
    let normal = "hey ho";
    assert_eq!(FragmentIter::find_end_of_word(normal), 3);
}

#[test]
fn fragment_iter_test_end_of_word_eof() {
    let eof = "hey";
    assert_eq!(FragmentIter::find_end_of_word(eof), 3);
}

#[test]
fn fragment_iter_test_end_of_word_whitespace() {
    let whitespace = "hey  ";
    assert_eq!(FragmentIter::find_end_of_word(whitespace), 3);
}

#[test]
fn fragment_iter_test_find_ending_quote_valid() {
    let valid = "'this is quoted'";
    assert_eq!(FragmentIter::find_end_of_quote(valid), Some(15));
}

#[test]
fn fragment_iter_test_find_ending_quote_invalid() {
    let invalid = "'nope";
    assert_eq!(FragmentIter::find_end_of_quote(invalid), None);
}

#[test]
fn fragment_iter_test_find_ending_quote_multiple() {
    let multiple = "'hey' 'ho'";
    assert_eq!(FragmentIter::find_end_of_quote(multiple), Some(4));
}

#[test]
fn test_find_ending_quote_spaced() {
    let not_trimmed = "'hey'  ";
    assert_eq!(FragmentIter::find_end_of_quote(not_trimmed), Some(4));
}

#[test]
fn test_find_ending_quote_invalid2() {
    let invalid = "'nope hey";
    assert_eq!(FragmentIter::find_end_of_quote(invalid), None);
}

#[test]
fn tokenize_drains_balanced_input() {
    let frags = tokenize("  hey ho 'bl bl' ").unwrap();
    assert_eq!(frags, vec!["hey", "ho", "bl bl"]);
}

#[test]
fn tokenize_five_fragments() {
    let frags = tokenize("part one     and two 'three hey'").unwrap();
    assert_eq!(frags, vec!["part", "one", "and", "two", "three hey"]);
}

#[test]
fn tokenize_empty_input() {
    assert!(tokenize("").unwrap().is_empty());
    assert!(tokenize("   \t ").unwrap().is_empty());
}

#[test]
fn tokenize_adjacent_quotes_give_empty_fragment() {
    assert_eq!(tokenize("a '' b").unwrap(), vec!["a", "", "b"]);
}

#[test]
fn tokenize_other_quote_inside_quotes_is_content() {
    assert_eq!(tokenize("\"it's\" 'say \"hi\"'").unwrap(), vec!["it's", "say \"hi\""]);
}

#[test]
fn tokenize_quote_right_after_word() {
    assert_eq!(tokenize("ab'c d'e").unwrap(), vec!["ab'c", "d'e"]);
}

#[test]
fn tokenize_unclosed_quote_error_span() {
    match tokenize("say \"hello") {
        Err(CmdError::ParsingError { message, start, end }) => {
            assert_eq!(message, "Can't find closing quote.");
            assert_eq!(start, 4);
            assert_eq!(end, 9);
        }
        other => panic!("unexpected {:?}", other),
    }
}

#[test]
fn tokenize_unclosed_quote_at_start() {
    match tokenize("'") {
        Err(CmdError::ParsingError { start, end, .. }) => {
            assert_eq!(start, 0);
            assert_eq!(end, 0);
        }
        other => panic!("unexpected {:?}", other),
    }
}

#[test]
fn tokenize_unicode_whitespace_and_letters() {
    assert_eq!(tokenize("héllo\u{3000}wörld").unwrap(), vec!["héllo", "wörld"]);
}

#[test]
fn tokenize_error_span_counts_bytes() {
    match tokenize("\u{e9} 'x") {
        Err(CmdError::ParsingError { start, end, .. }) => {
            assert_eq!(start, 3);
            assert_eq!(end, 4);
        }
        other => panic!("unexpected {:?}", other),
    }
}
