use res_regex::{Error, ErrorKind, RegexParser};

fn outcome(literal: &str) -> Result<RegexParser, Error> {
    let mut parser = RegexParser::new(literal)?;
    parser.validate()?;
    Ok(parser)
}

fn refused(literal: &str) -> (ErrorKind, usize, String) {
    match outcome(literal) {
        Ok(_) => panic!("{} was accepted", literal),
        Err(e) => (e.kind, e.idx, e.msg),
    }
}

#[test]
fn missing_slashes() {
    assert_eq!(refused("abc"), (ErrorKind::MissingOpeningSlash, 0, "regular expression literals must start with a /".to_string()));
    assert_eq!(refused(""), (ErrorKind::MissingOpeningSlash, 0, "regular expression literals must start with a /".to_string()));
    assert_eq!(refused("//"), (ErrorKind::EmptyBody, 0, "regular expression literals must not be empty".to_string()));
    assert_eq!(refused("//g"), (ErrorKind::EmptyBody, 0, "regular expression literals must not be empty".to_string()));
    assert!(outcome("/ /").is_ok());
    assert_eq!(refused("/abc"), (ErrorKind::MissingClosingSlash, 0, "regular expression literals must have 2 `/`".to_string()));
}

#[test]
fn stray_closing_characters() {
    assert_eq!(refused("/a)/"), (ErrorKind::UnmatchedParen, 2, "Unmatched `)`".to_string()));
    assert_eq!(refused("/a]/u"), (ErrorKind::LoneQuantifierBrackets, 2, "Lone quantifier brackets".to_string()));
    assert_eq!(refused("/a}/u").0, ErrorKind::LoneQuantifierBrackets);
    assert_eq!(refused("/{/u"), (ErrorKind::LoneOpeningBrace, 1, "lone quantifier brackets".to_string()));
}

#[test]
fn quantifier_errors() {
    assert_eq!(refused("/*/"), (ErrorKind::NothingToRepeat, 1, "Nothing to repeat".to_string()));
    assert_eq!(refused("/a|+/").0, ErrorKind::NothingToRepeat);
    assert_eq!(
        refused("/a{2,1}/"),
        (ErrorKind::NumbersOutOfOrder(2, 1), 6, "numbers out of order in {2,1}".to_string())
    );
    assert_eq!(refused("/a{1/u"), (ErrorKind::IncompleteQuantifier, 3, "Incomplete quantifier".to_string()));
    assert!(outcome("/a{1/").is_ok());
    assert_eq!(refused("/(?=a)*/u"), (ErrorKind::InvalidQuantifier, 6, "Invalid quantifier".to_string()));
    assert!(outcome("/(?=a)*/").is_ok());
    assert!(outcome("/a{99999999999}/").is_ok());
    assert_eq!(
        refused("/a{4294967296,4294967295}/"),
        (
            ErrorKind::NumbersOutOfOrder(u32::MAX, u32::MAX),
            24,
            "numbers out of order in {4294967295,4294967295}".to_string()
        )
    );
    assert_eq!(refused("/a{10,9}/").0, ErrorKind::NumbersOutOfOrder(10, 9));
    assert_eq!(
        refused("/a{99999999999999999999,99999999999999999998}/u").0,
        ErrorKind::NumbersOutOfOrder(u32::MAX, u32::MAX)
    );
    assert!(outcome("/a{99999999999999999998,99999999999999999999}/u").is_ok());
    assert!(outcome("/a{0007,7}/").is_ok());
    assert!(outcome("/a{4294967295,4294967296}/").is_ok());
    assert!(outcome("/a{4294967296,4294967295}/").is_err());
    assert!(outcome("/a{0,0000}/").is_ok());
    assert_eq!(refused("/a{1,0000}/").0, ErrorKind::NumbersOutOfOrder(1, 0));
    assert!(outcome("/a{2,2}?/").is_ok());
}

#[test]
fn escape_errors() {
    assert_eq!(refused(r"/\1/u"), (ErrorKind::InvalidEscape, 2, "Invalid escape".to_string()));
    assert_eq!(refused(r"/\M/u").0, ErrorKind::InvalidEscape);
    assert_eq!(refused(r"/\xZ/u"), (ErrorKind::InvalidEscape, 1, "Invalid escape".to_string()));
    assert_eq!(refused(r"/\c/u"), (ErrorKind::InvalidUnicodeEscape, 1, "Invalid unicode escape".to_string()));
    assert_eq!(refused(r"/\u{110000}/u"), (ErrorKind::InvalidUnicodeEscape, 10, "Invalid unicode escape".to_string()));
    assert_eq!(refused(r"/\u{12/u").0, ErrorKind::InvalidUnicodeEscape);
    assert!(outcome(r"/\u{10FFFF}/u").is_ok());
    assert!(outcome(r"/\M\c\xZ\u{110000}/").is_ok());
}

#[test]
fn property_name_errors() {
    assert_eq!(refused(r"/\p{}/u"), (ErrorKind::InvalidPropertyName, 3, "Invalid property name".to_string()));
    assert_eq!(refused(r"/\pL/u"), (ErrorKind::InvalidPropertyName, 2, "Invalid property name".to_string()));
    assert_eq!(refused(r"/\p{L/u"), (ErrorKind::InvalidPropertyName, 4, "Invalid property name".to_string()));
}

#[test]
fn group_name_errors() {
    assert_eq!(
        refused(r"/\k<a>/u"),
        (ErrorKind::InvalidNamedCaptureReferenced, 5, "Invalid named capture referenced".to_string())
    );
    assert_eq!(refused(r"/(?<a>x)\k<b>/").0, ErrorKind::InvalidNamedCaptureReferenced);
    assert!(outcome(r"/\k<b>/").is_ok());
    assert!(outcome(r"/\k<a>(?<a>x)/").is_ok());
    assert_eq!(refused(r"/\k/u"), (ErrorKind::InvalidNamedReference, 2, "Invalid named reference".to_string()));
    assert_eq!(refused(r"/(?<1>a)/"), (ErrorKind::InvalidCaptureGroupName, 3, "Invalid capture group name".to_string()));
    assert_eq!(refused(r"/(?<a/").0, ErrorKind::InvalidCaptureGroupName);
    assert_eq!(
        refused(r"/(?<a>x)(?<a>y)/"),
        (ErrorKind::DuplicateCaptureGroupName, 12, "Duplicate capture group name".to_string())
    );
    assert_eq!(refused(r"/(?a)/"), (ErrorKind::InvalidGroup, 2, "Invalid group".to_string()));
    let mut p = RegexParser::new(r"/(?<a>x)(?<a>y)/").unwrap();
    assert!(p.validate().is_err());
    assert_eq!(p.group_names(), vec!["a".to_string()]);
}

#[test]
fn unterminated_constructs() {
    assert_eq!(refused("/(a/"), (ErrorKind::UnterminatedGroup, 2, "Unterminated group".to_string()));
    assert_eq!(refused("/(?:a/"), (ErrorKind::UnterminatedGroup, 0, "Unterminated group".to_string()));
    assert_eq!(refused("/(?=a/").0, ErrorKind::UnterminatedGroup);
    assert_eq!(
        refused("/[a/"),
        (ErrorKind::UnterminatedCharacterClass, 2, "Unterminated character class".to_string())
    );
}

#[test]
fn class_range_errors() {
    assert_eq!(refused(r"/[\d-a]/u"), (ErrorKind::InvalidCharacterClass, 5, "Invalid character class".to_string()));
    assert!(outcome(r"/[\d-a]/").is_ok());
    assert_eq!(
        refused("/[z-a]/"),
        (ErrorKind::RangeOutOfOrder(122, 97), 4, "Range out of order in character class (122 > 97)".to_string())
    );
    assert_eq!(refused(r"/[\c]/u"), (ErrorKind::InvalidClassEscape, 2, "Invalid class escape".to_string()));
    assert_eq!(refused(r"/[\1]/u").0, ErrorKind::InvalidClassEscape);
    assert_eq!(refused(r"/[\M]/u").0, ErrorKind::InvalidEscape);
    assert!(outcome(r"/[\t-\n]/").is_ok());
    assert!(outcome(r"/[\1-\7\c_]/").is_ok());
    assert!(outcome(r"/[\c1-\c9]/u").is_ok());
}

#[test]
fn surrogate_pairs_combine_in_unicode_mode() {
    assert!(outcome(r"/[\uD83D\uDE00-\uD83D\uDE01]/u").is_ok());
    assert_eq!(
        refused(r"/[\uD83D\uDE01-\uD83D\uDE00]/u").0,
        ErrorKind::RangeOutOfOrder(0x1F601, 0x1F600)
    );
    assert_eq!(refused(r"/[\uD83D\uDE01-\uD83D\uDE00]/").0, ErrorKind::RangeOutOfOrder(0xDE01, 0xD83D));
    assert!(outcome("/[😀-😁]/u").is_ok());
    assert!(outcome(r"/\uD83D/u").is_ok());
}

#[test]
fn identifier_characters_use_the_unicode_tables() {
    assert!(outcome("/(?<é>a)/").is_ok());
    assert!(outcome("/(?<a·>a)/").is_ok());
    assert_eq!(refused("/(?<·>a)/").0, ErrorKind::InvalidCaptureGroupName);
    assert!(outcome(r"/(?<ab>x)\k<ab>/u").is_ok());
    assert_eq!(refused("/(?<a-b>x)/").0, ErrorKind::InvalidCaptureGroupName);
    let p = outcome(r"/(?<\u0061b>x)/").unwrap();
    assert_eq!(p.group_names(), vec![r"\u0061b".to_string()]);
    assert_eq!(refused(r"/(?<\u0031>x)/").0, ErrorKind::InvalidCaptureGroupName);
    assert_eq!(refused(r"/(?<1>x)/").0, ErrorKind::InvalidCaptureGroupName);
}
