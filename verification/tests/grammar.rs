use ab_tag_client::Segment;
use ab_tag_client::TagError;
use ab_tag_client::parse_tag;

fn segments_of(tag: &str) -> Vec<Segment> {
    parse_tag(tag).unwrap().segments().clone()
}

fn sym(s: &str) -> Segment {
    Segment::Symbol(s.to_owned())
}

fn elem(n: u32) -> Segment {
    Segment::Element(n)
}

#[test]
fn plain_symbol() {
    assert_eq!(segments_of("struct_a"), vec![sym("struct_a")]);
}

#[test]
fn underscore_start() {
    assert_eq!(segments_of("_under"), vec![sym("_under")]);
}

#[test]
fn bit_access() {
    assert_eq!(segments_of("struct_a.1"), vec![sym("struct_a"), elem(1)]);
}

#[test]
fn multi_dimensional_index() {
    assert_eq!(
        segments_of("profile[0,1,257]"),
        vec![sym("profile"), elem(0), elem(1), elem(257)]
    );
}

#[test]
fn nested_members() {
    assert_eq!(segments_of("a.b.c"), vec![sym("a"), sym("b"), sym("c")]);
}

#[test]
fn program_scoped_tag() {
    assert_eq!(
        segments_of("ProGram:MainProgram.test"),
        vec![sym("ProGram:MainProgram"), sym("test")]
    );
}

#[test]
fn mixed_path() {
    assert_eq!(
        segments_of("struct_a[1]._abc.efg[2,3]"),
        vec![sym("struct_a"), elem(1), sym("_abc"), sym("efg"), elem(2), elem(3)]
    );
}

#[test]
fn bit_access_and_index_form_the_same_address() {
    assert_eq!(segments_of("a.1"), segments_of("a[1]"));
}

#[test]
fn index_may_carry_leading_zeros() {
    assert_eq!(segments_of("a[00]"), vec![sym("a"), elem(0)]);
}

#[test]
fn malformed_tags_are_rejected() {
    let bad = [
        "",
        ".",
        "[",
        "124",
        "123534546456565756",
        "_abc-",
        ".1234",
        "[12345]",
        "abc[1,]",
        "abc[1,3,]",
        "abc[1,3",
        "abc[1,3,",
        "my.heart:on",
    ];
    for tag in bad {
        assert!(
            matches!(parse_tag(tag), Err(TagError::InvalidAddress)),
            "accepted {:?}",
            tag
        );
    }
}

#[test]
fn symbol_length_boundary() {
    let longest = "a".repeat(40);
    assert_eq!(segments_of(&longest), vec![sym(&longest)]);
    let too_long = "a".repeat(41);
    assert!(matches!(parse_tag(&too_long), Err(TagError::InvalidAddress)));
}

#[test]
fn program_prefix_counts_toward_length() {
    // 8 prefix characters plus 32 name characters fit exactly.
    let fits = format!("Program:{}", "b".repeat(32));
    assert_eq!(segments_of(&fits), vec![sym(&fits)]);
    let over = format!("Program:{}", "b".repeat(33));
    assert!(matches!(parse_tag(&over), Err(TagError::InvalidAddress)));
}

#[test]
fn program_prefix_is_case_insensitive() {
    assert_eq!(segments_of("program:x"), vec![sym("program:x")]);
    assert_eq!(segments_of("PROGRAM:x"), vec![sym("PROGRAM:x")]);
}

#[test]
fn program_prefix_needs_a_name() {
    assert!(matches!(parse_tag("Program:"), Err(TagError::InvalidAddress)));
}

#[test]
fn program_prefix_only_in_the_head() {
    assert!(matches!(parse_tag("a.Program:x"), Err(TagError::InvalidAddress)));
}

#[test]
fn index_value_boundary() {
    assert_eq!(segments_of("a[4294967295]"), vec![sym("a"), elem(4294967295)]);
    assert!(matches!(parse_tag("a[4294967296]"), Err(TagError::InvalidAddress)));
    assert!(matches!(parse_tag("a[12345678901]"), Err(TagError::InvalidAddress)));
}

#[test]
fn bit_number_boundary() {
    assert_eq!(segments_of("a.31"), vec![sym("a"), elem(31)]);
    assert!(matches!(parse_tag("a.32"), Err(TagError::InvalidAddress)));
}

#[test]
fn bit_access_must_close_the_path() {
    assert!(matches!(parse_tag("a.1.b"), Err(TagError::InvalidAddress)));
    assert!(matches!(parse_tag("a.1x"), Err(TagError::InvalidAddress)));
}
