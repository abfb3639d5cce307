//! Errors: what went wrong, and where.
use vstd::prelude::*;
use crate::text::utf8_len;

verus! {

/// The defects that validation reports. Positions in a variant are character
/// indices into the pattern body.
#[derive(Clone, Copy, Debug, PartialEq, Eq, Structural)]
pub enum ErrorKind {
    /// The literal does not start with `/`.
    MissingOpeningSlash,
    /// The literal has no closing `/`.
    MissingClosingSlash,
    /// The body between the slashes is empty.
    EmptyBody,
    /// A flag character appears twice.
    DuplicateFlag(char),
    /// A character that is not one of `g i m s u y` stands among the flags.
    InvalidFlag(char),
    /// A `)` with no group to close.
    UnmatchedParen,
    /// A stray `]` or `}` after the pattern.
    LoneQuantifierBrackets,
    /// A `{` that opens no quantifier, where no atom stands before it.
    LoneOpeningBrace,
    /// Input is left over that no production consumes.
    UnexpectedCharacter,
    /// A quantifier with nothing before it to repeat.
    NothingToRepeat,
    /// A braced quantifier `{min,max}` with `max < min`.
    NumbersOutOfOrder(u32, u32),
    /// A `{` in Unicode mode that does not complete a quantifier.
    IncompleteQuantifier,
    /// A quantified lookahead when named groups are in force.
    InvalidQuantifier,
    /// An escape that no rule accepts, or a back-reference past the last group.
    InvalidEscape,
    /// A malformed `\u` escape, or `\c` without a control letter, in Unicode mode.
    InvalidUnicodeEscape,
    /// A malformed `\p{...}` or `\P{...}`.
    InvalidPropertyName,
    /// `\p{name=value}` whose pair is not valid; the character ranges of name and value.
    InvalidPropertyNameAndValue(usize, usize, usize, usize),
    /// `\p{value}` whose value may not stand alone; its character range.
    InvalidPropertyNameOrValue(usize, usize),
    /// A `\k<name>` whose name no group declares.
    InvalidNamedCaptureReferenced,
    /// A `\k` that is not followed by a group name.
    InvalidNamedReference,
    /// A malformed `<name>`.
    InvalidCaptureGroupName,
    /// Two groups with the same name.
    DuplicateCaptureGroupName,
    /// A `(?` that opens no known kind of group.
    InvalidGroup,
    /// A group without its `)`.
    UnterminatedGroup,
    /// A character class without its `]`.
    UnterminatedCharacterClass,
    /// A class range with an endpoint that is not a single character, in Unicode mode.
    InvalidCharacterClass,
    /// A class range whose left end is above its right end.
    RangeOutOfOrder(u32, u32),
    /// `\c` or an octal digit escaped inside a class, in Unicode mode.
    InvalidClassEscape,
}

/// A defect found while parsing the pattern body, at a character index.
#[derive(Clone, Copy, Debug, PartialEq, Eq, Structural)]
pub struct ParseError {
    pub kind: ErrorKind,
    pub at: usize,
}

} // verus!

verus! {

/// What std's `Debug` writes for a character: the character in single
/// quotes, escaped where needed.
pub uninterp spec fn char_debug_text(c: char) -> Seq<char>;

/// Relies on `<char as Debug>::fmt` (through `format!`): the text depends on
/// the character alone.
#[verifier::external_body]
fn char_debug(c: char) -> (r: String)
    ensures
        r@ == char_debug_text(c),
{
    format!("{:?}", c)
}

/// The decimal digits of `n`.
pub open spec fn decimal(n: nat) -> Seq<char>
    decreases n,
{
    if n < 10 {
        seq![digit_char(n)]
    } else {
        decimal(n / 10) + seq![digit_char(n % 10)]
    }
}

/// The character of the decimal digit `d`.
pub open spec fn digit_char(d: nat) -> char {
    seq!['0', '1', '2', '3', '4', '5', '6', '7', '8', '9'][d as int]
}

fn digit_str(d: usize) -> (r: &'static str)
    requires
        d < 10,
    ensures
        r@ == seq![digit_char(d as nat)],
{
    proof {
        reveal_strlit("0");
        reveal_strlit("1");
        reveal_strlit("2");
        reveal_strlit("3");
        reveal_strlit("4");
        reveal_strlit("5");
        reveal_strlit("6");
        reveal_strlit("7");
        reveal_strlit("8");
        reveal_strlit("9");
    }
    let r = if d == 0 {
        "0"
    } else if d == 1 {
        "1"
    } else if d == 2 {
        "2"
    } else if d == 3 {
        "3"
    } else if d == 4 {
        "4"
    } else if d == 5 {
        "5"
    } else if d == 6 {
        "6"
    } else if d == 7 {
        "7"
    } else if d == 8 {
        "8"
    } else {
        "9"
    };
    assert(r@ =~= seq![digit_char(d as nat)]);
    r
}

/// Appends the decimal digits of `n`.
fn push_decimal(s: &mut String, n: usize)
    ensures
        final(s)@ == old(s)@ + decimal(n as nat),
    decreases n,
{
    if n >= 10 {
        push_decimal(s, n / 10);
        s.append(digit_str(n % 10));
        assert(final(s)@ =~= old(s)@ + decimal(n as nat));
    } else {
        s.append(digit_str(n));
    }
}

/// The characters `a..b` of `text`, or nothing where that is not a range of it.
pub open spec fn part(text: Seq<char>, a: usize, b: usize) -> Seq<char> {
    if a <= b <= text.len() {
        text.subrange(a as int, b as int)
    } else {
        Seq::empty()
    }
}

fn push_part(s: &mut String, text: &str, a: usize, b: usize)
    ensures
        final(s)@ == old(s)@ + part(text@, a, b),
{
    if a <= b && b <= text.unicode_len() {
        s.append(text.substring_char(a, b));
    } else {
        assert(old(s)@ + part(text@, a, b) =~= old(s)@);
    }
}

/// The message for a defect of kind `kind` found in (or around) the body `text`.
pub open spec fn message_text(kind: ErrorKind, text: Seq<char>) -> Seq<char> {
    match kind {
        ErrorKind::MissingOpeningSlash => "regular expression literals must start with a /"@,
        ErrorKind::MissingClosingSlash => "regular expression literals must have 2 `/`"@,
        ErrorKind::EmptyBody => "regular expression literals must not be empty"@,
        ErrorKind::DuplicateFlag(c) => "duplicate "@ + seq![c] + " flag"@,
        ErrorKind::InvalidFlag(c) => "invalid flag "@ + char_debug_text(c),
        ErrorKind::UnmatchedParen => "Unmatched `)`"@,
        ErrorKind::LoneQuantifierBrackets => "Lone quantifier brackets"@,
        ErrorKind::LoneOpeningBrace => "lone quantifier brackets"@,
        ErrorKind::UnexpectedCharacter => "Unexpected character"@,
        ErrorKind::NothingToRepeat => "Nothing to repeat"@,
        ErrorKind::NumbersOutOfOrder(min, max) => "numbers out of order in {"@ + decimal(min as nat)
            + ","@ + decimal(max as nat) + "}"@,
        ErrorKind::IncompleteQuantifier => "Incomplete quantifier"@,
        ErrorKind::InvalidQuantifier => "Invalid quantifier"@,
        ErrorKind::InvalidEscape => "Invalid escape"@,
        ErrorKind::InvalidUnicodeEscape => "Invalid unicode escape"@,
        ErrorKind::InvalidPropertyName => "Invalid property name"@,
        ErrorKind::InvalidPropertyNameAndValue(a, b, c, d) =>
            "Unable to validate unicode property name and value (\""@ + part(text, a, b)
            + "\" and \""@ + part(text, c, d) + "\")"@,
        ErrorKind::InvalidPropertyNameOrValue(a, b) =>
            "Unable to validate unicode property name or value (Some(\""@ + part(text, a, b)
            + "\"))"@,
        ErrorKind::InvalidNamedCaptureReferenced => "Invalid named capture referenced"@,
        ErrorKind::InvalidNamedReference => "Invalid named reference"@,
        ErrorKind::InvalidCaptureGroupName => "Invalid capture group name"@,
        ErrorKind::DuplicateCaptureGroupName => "Duplicate capture group name"@,
        ErrorKind::InvalidGroup => "Invalid group"@,
        ErrorKind::UnterminatedGroup => "Unterminated group"@,
        ErrorKind::UnterminatedCharacterClass => "Unterminated character class"@,
        ErrorKind::InvalidCharacterClass => "Invalid character class"@,
        ErrorKind::RangeOutOfOrder(l, r) => "Range out of order in character class ("@ + decimal(
            l as nat,
        ) + " > "@ + decimal(r as nat) + ")"@,
        ErrorKind::InvalidClassEscape => "Invalid class escape"@,
    }
}

/// A defect in a literal: what it is, a message for people, and the byte
/// offset where it was found (into the body for defects of the body).
#[derive(Debug)]
pub struct Error {
    pub msg: String,
    pub idx: usize,
    pub kind: ErrorKind,
}

impl Error {
    /// The error of kind `kind` at byte offset `idx`; `text` is the body that
    /// the kind's character ranges refer to.
    pub fn new(idx: usize, kind: ErrorKind, text: &str) -> (r: Error)
        ensures
            r.idx == idx,
            r.kind == kind,
            r.msg@ == message_text(kind, text@),
    {
        let mut msg = String::new();
        match kind {
            ErrorKind::MissingOpeningSlash => msg.append("regular expression literals must start with a /"),
            ErrorKind::MissingClosingSlash => msg.append("regular expression literals must have 2 `/`"),
            ErrorKind::EmptyBody => msg.append("regular expression literals must not be empty"),
            ErrorKind::DuplicateFlag(c) => {
                msg.append("duplicate ");
                msg.append(char_str(c).as_str());
                msg.append(" flag");
            },
            ErrorKind::InvalidFlag(c) => {
                msg.append("invalid flag ");
                msg.append(char_debug(c).as_str());
            },
            ErrorKind::UnmatchedParen => msg.append("Unmatched `)`"),
            ErrorKind::LoneQuantifierBrackets => msg.append("Lone quantifier brackets"),
            ErrorKind::LoneOpeningBrace => msg.append("lone quantifier brackets"),
            ErrorKind::UnexpectedCharacter => msg.append("Unexpected character"),
            ErrorKind::NothingToRepeat => msg.append("Nothing to repeat"),
            ErrorKind::NumbersOutOfOrder(min, max) => {
                msg.append("numbers out of order in {");
                push_decimal(&mut msg, min as usize);
                msg.append(",");
                push_decimal(&mut msg, max as usize);
                msg.append("}");
            },
            ErrorKind::IncompleteQuantifier => msg.append("Incomplete quantifier"),
            ErrorKind::InvalidQuantifier => msg.append("Invalid quantifier"),
            ErrorKind::InvalidEscape => msg.append("Invalid escape"),
            ErrorKind::InvalidUnicodeEscape => msg.append("Invalid unicode escape"),
            ErrorKind::InvalidPropertyName => msg.append("Invalid property name"),
            ErrorKind::InvalidPropertyNameAndValue(a, b, c, d) => {
                msg.append("Unable to validate unicode property name and value (\"");
                push_part(&mut msg, text, a, b);
                msg.append("\" and \"");
                push_part(&mut msg, text, c, d);
                msg.append("\")");
            },
            ErrorKind::InvalidPropertyNameOrValue(a, b) => {
                msg.append("Unable to validate unicode property name or value (Some(\"");
                push_part(&mut msg, text, a, b);
                msg.append("\"))");
            },
            ErrorKind::InvalidNamedCaptureReferenced => msg.append("Invalid named capture referenced"),
            ErrorKind::InvalidNamedReference => msg.append("Invalid named reference"),
            ErrorKind::InvalidCaptureGroupName => msg.append("Invalid capture group name"),
            ErrorKind::DuplicateCaptureGroupName => msg.append("Duplicate capture group name"),
            ErrorKind::InvalidGroup => msg.append("Invalid group"),
            ErrorKind::UnterminatedGroup => msg.append("Unterminated group"),
            ErrorKind::UnterminatedCharacterClass => msg.append("Unterminated character class"),
            ErrorKind::InvalidCharacterClass => msg.append("Invalid character class"),
            ErrorKind::RangeOutOfOrder(l, r) => {
                msg.append("Range out of order in character class (");
                push_decimal(&mut msg, l as usize);
                msg.append(" > ");
                push_decimal(&mut msg, r as usize);
                msg.append(")");
            },
            ErrorKind::InvalidClassEscape => msg.append("Invalid class escape"),
        }
        assert(msg@ =~= message_text(kind, text@));
        Error { msg, idx, kind }
    }

    /// The message and the offset, as `"<message> at <offset>"`.
    pub fn describe(&self) -> (r: String)
        ensures
            r@ == self.msg@ + " at "@ + decimal(self.idx as nat),
    {
        let mut r = String::from_str(self.msg.as_str());
        r.append(" at ");
        push_decimal(&mut r, self.idx);
        r
    }
}

/// Relies on `char::to_string`: a string of the one character.
#[verifier::external_body]
fn char_str(c: char) -> (r: String)
    ensures
        r@ == seq![c],
{
    c.to_string()
}

} // verus!
