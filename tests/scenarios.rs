use res_regex::unicode_tables::{general_category_values, script_values};
use res_regex::{validate_name, Error, ErrorKind, RegexParser};

fn validated(literal: &str) -> Result<RegexParser, Error> {
    let mut parser = RegexParser::new(literal)?;
    parser.validate()?;
    Ok(parser)
}

fn kind_of(literal: &str) -> (ErrorKind, usize, String) {
    match validated(literal) {
        Ok(_) => panic!("{} was accepted", literal),
        Err(e) => (e.kind, e.idx, e.msg),
    }
}

#[test]
fn corpus_of_valid_literals() {
    let corpus = [
        "/asdf|fdsa/g",
        "/a(b)[a-b]/",
        "/s*p+q?a{1}b{1,2}c{3,}d*?/",
        r"/\d\D\s\S\w\W\b\B/",
        r"/^\n\t\v\f\r\0\cJ\x41B\u{1F600}$/u",
        r"/(?:a|b)(?=c)(?!d)(?<=e)(?<!f)/",
        r"/(?<year>\d{4})-\k<year>/u",
        r"/[^\]\-a-z0-9_]/u",
        r"/\p{Lu}\P{Script=Greek}\p{ASCII_Hex_Digit}/u",
        r"/\/path\//",
        r"/{/",
        r"/a{,5}/",
        r"/\8\9/",
    ];
    for literal in corpus.iter() {
        if let Err(e) = validated(literal) {
            panic!("{} refused: {} at {}", literal, e.msg, e.idx);
        }
    }
}

#[test]
fn body_and_flags_are_the_outer_substrings() {
    let p = RegexParser::new("/ab+c/gi").unwrap();
    assert_eq!(p.body(), "ab+c");
    assert_eq!(p.flags(), Some("gi"));
    assert!(!p.unicode());
    let p = RegexParser::new("/a/b/").unwrap();
    assert_eq!(p.body(), "a/b");
    assert_eq!(p.flags(), None);
    let p = RegexParser::new("/x/u").unwrap();
    assert!(p.unicode());
}

#[test]
fn round_trip_rebuilds_the_literal() {
    for literal in ["/ab+c/gi", "/(?<x>a)|b/", r"/\p{gc=Lu}/u", "/a/b/my"].iter() {
        let mut p = validated(literal).unwrap();
        let rebuilt = format!("/{}/{}", p.body(), p.flags().unwrap_or(""));
        assert_eq!(&rebuilt, literal);
        let mut q = validated(&rebuilt).unwrap();
        assert_eq!(q.body(), p.body());
        assert_eq!(q.flags(), p.flags());
        assert_eq!(q.validate().is_ok(), p.validate().is_ok());
    }
}

#[test]
fn validating_twice_gives_the_same_result() {
    let mut p = RegexParser::new(r"/(?<x>a)\k<x>/").unwrap();
    assert!(p.validate().is_ok());
    assert!(p.validate().is_ok());
    assert_eq!(p.group_names(), vec!["x".to_string()]);
    let mut q = RegexParser::new(r"/(a/").unwrap();
    let first = q.validate().unwrap_err();
    let second = q.validate().unwrap_err();
    assert_eq!(first.kind, second.kind);
    assert_eq!(first.idx, second.idx);
    assert_eq!(first.msg, second.msg);
}

#[test]
fn repeated_flag_is_refused_at_the_repeat() {
    let (kind, idx, msg) = kind_of("/a/gg");
    assert_eq!(kind, ErrorKind::DuplicateFlag('g'));
    assert_eq!(idx, 4);
    assert_eq!(msg, "duplicate g flag");
    let (kind, idx, _) = kind_of("/a/imsuyi");
    assert_eq!(kind, ErrorKind::DuplicateFlag('i'));
    assert_eq!(idx, 8);
}

#[test]
fn unknown_flag_is_refused() {
    let (kind, idx, msg) = kind_of("/a/x");
    assert_eq!(kind, ErrorKind::InvalidFlag('x'));
    assert_eq!(idx, 3);
    assert_eq!(msg, "invalid flag 'x'");
    let (kind, idx, _) = kind_of("/é/gQ");
    assert_eq!(kind, ErrorKind::InvalidFlag('Q'));
    assert_eq!(idx, 5);
}

#[test]
fn back_reference_needs_a_group_in_unicode_mode() {
    assert_eq!(kind_of(r"/\1/u").0, ErrorKind::InvalidEscape);
    assert!(validated(r"/(a)\1/u").is_ok());
    assert!(validated(r"/\1/").is_ok());
}

#[test]
fn quantified_lookbehind_is_refused() {
    let (kind, idx, msg) = kind_of(r"/.(?<=.)?/");
    assert_eq!(kind, ErrorKind::NothingToRepeat);
    assert_eq!(idx, 8);
    assert_eq!(msg, "Nothing to repeat");
}

#[test]
fn bare_quantifier_is_refused() {
    let (kind, idx, _) = kind_of(r"/{2}/");
    assert_eq!(kind, ErrorKind::NothingToRepeat);
    assert_eq!(idx, 3);
}

#[test]
fn named_group_records_its_name() {
    let p = validated(r"/(?<x>a)|b/").unwrap();
    assert_eq!(p.group_names(), vec!["x".to_string()]);
    let p = validated(r"/(a)(?<first>b)(?<second>c)/u").unwrap();
    assert_eq!(p.group_names(), vec!["first".to_string(), "second".to_string()]);
}

#[test]
fn property_pairs_follow_the_tables() {
    for value in general_category_values() {
        assert!(validated(&format!(r"/\p{{gc={}}}/u", value)).is_ok());
    }
    for value in script_values() {
        assert!(validated(&format!(r"/\P{{scx={}}}/u", value)).is_ok());
    }
    assert!(validated(r"/\p{gc=Greek}/u").is_err());
    assert!(validated(r"/\p{Script=Lu}/u").is_err());
    assert!(validated(r"/\p{Block=Greek}/u").is_err());
    let (kind, idx, msg) = kind_of(r"/\p{General_Category=Geek}/u");
    assert_eq!(kind, ErrorKind::InvalidPropertyNameAndValue(3, 19, 20, 24));
    assert_eq!(idx, 24);
    assert_eq!(msg, "Unable to validate unicode property name and value (\"General_Category\" and \"Geek\")");
}

#[test]
fn lone_property_outside_the_union_is_refused() {
    let (kind, idx, msg) = kind_of(r"/\p{junk}/u");
    assert_eq!(kind, ErrorKind::InvalidPropertyNameOrValue(3, 7));
    assert_eq!(idx, 7);
    assert_eq!(msg, "Unable to validate unicode property name or value (Some(\"junk\"))");
    assert!(validated(r"/\p{Alphabetic}\p{Alpha}\p{L}/u").is_ok());
}

#[test]
fn property_escape_is_literal_outside_unicode_mode() {
    assert!(validated(r"/\p{junk}/").is_ok());
}

#[test]
fn validate_name_gives_the_value_table() {
    assert!(validate_name("gc").unwrap().contains("Lowercase_Letter"));
    assert!(validate_name("scx").unwrap().contains("Greek"));
    assert_eq!(validate_name("Script"), validate_name("sc"));
    assert_eq!(validate_name("Block"), None);
}

#[test]
fn error_offsets_count_bytes() {
    let (kind, idx, _) = kind_of("/é)/");
    assert_eq!(kind, ErrorKind::UnmatchedParen);
    assert_eq!(idx, 3);
    let (_, idx, _) = kind_of("/日本(/");
    assert_eq!(idx, 7);
}

#[test]
fn error_describes_message_and_offset() {
    let mut p = RegexParser::new("/*/").unwrap();
    let e = p.validate().unwrap_err();
    assert_eq!(e.describe(), "Nothing to repeat at 1");
}
