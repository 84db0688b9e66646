use field_codecs::query_sequence::{read_comma_list, split_commas, write_comma_list};

#[test]
fn comma_list_round_trip() {
    assert_eq!(write_comma_list(&vec![10, 20, 30]), "10,20,30");
    assert_eq!(read_comma_list("10,20,30").unwrap(), vec![10, 20, 30]);
    assert_eq!(write_comma_list(&vec![7]), "7");
    assert_eq!(read_comma_list("7").unwrap(), vec![7]);
}

#[test]
fn comma_list_empty_string_is_one_empty_token() {
    // Splitting "" yields a single empty token, whose parse fails: the
    // empty wire string is rejected rather than read as an empty sequence.
    assert_eq!(split_commas(""), vec!["".to_owned()]);
    let e = read_comma_list("").unwrap_err();
    assert_eq!(e.input, "");
    assert_eq!(e.reason, "not a decimal number");
}

#[test]
fn comma_list_does_not_trim_whitespace() {
    let e = read_comma_list("10, 20").unwrap_err();
    assert_eq!(e.input, " 20");
}

#[test]
fn comma_list_fails_fast_on_first_bad_token() {
    let e = read_comma_list("1,,3").unwrap_err();
    assert_eq!(e.input, "");
}

#[test]
fn split_keeps_every_token_in_order() {
    assert_eq!(
        split_commas("a,bb,,c"),
        vec!["a".to_owned(), "bb".to_owned(), "".to_owned(), "c".to_owned()]
    );
    assert_eq!(split_commas(","), vec!["".to_owned(), "".to_owned()]);
}
