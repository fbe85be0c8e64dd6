use rfi::errors::Error;
use rfi::rfc::parse_file_name;

fn unexpected(name: &str) -> Result<(u32, String), Error> {
    Err(Error::UnexpectedFileNameFormat(name.to_string()))
}

#[test]
fn reads_number_and_title() {
    assert_eq!(
        parse_file_name("0256-remove-refcounting-gc-of-t.md"),
        Ok((256, "remove-refcounting-gc-of-t".to_string()))
    );
    assert_eq!(
        parse_file_name("2071-impl-trait-type-alias.md"),
        Ok((2071, "impl-trait-type-alias".to_string()))
    );
}

#[test]
fn title_may_be_empty_or_hold_dots() {
    assert_eq!(parse_file_name("12-.md"), Ok((12, String::new())));
    assert_eq!(parse_file_name("7-a.md.md"), Ok((7, "a.md".to_string())));
    assert_eq!(parse_file_name("3-x-y-z.md"), Ok((3, "x-y-z".to_string())));
}

#[test]
fn rejects_other_shapes() {
    for name in ["README.md", "-x.md", "12x.md", "12-x.txt", "12-x.md ", "12.md", "", "12-", "x12-a.md"] {
        assert_eq!(parse_file_name(name), unexpected(name), "{:?}", name);
    }
}

#[test]
fn rejects_a_line_feed_in_the_title() {
    assert_eq!(parse_file_name("12-a\nb.md"), unexpected("12-a\nb.md"));
    assert_eq!(parse_file_name("12-a\rb.md"), Ok((12, "a\rb".to_string())));
}

#[test]
fn rejects_numbers_that_do_not_fit() {
    assert_eq!(parse_file_name("4294967295-max.md"), Ok((4294967295, "max".to_string())));
    assert_eq!(parse_file_name("4294967296-over.md"), unexpected("4294967296-over.md"));
    assert_eq!(parse_file_name("00000000000001-zeros.md"), Ok((1, "zeros".to_string())));
}

#[test]
fn rejects_digits_that_are_not_ascii() {
    let name = "\u{661}\u{662}-arabic.md";
    assert_eq!(parse_file_name(name), unexpected(name));
    let name = "12\u{663}-mixed.md";
    assert_eq!(parse_file_name(name), unexpected(name));
}

#[test]
fn title_keeps_unicode() {
    assert_eq!(parse_file_name("5-caf\u{e9}.md"), Ok((5, "caf\u{e9}".to_string())));
}
