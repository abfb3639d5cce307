//! The regular-expression grammar as spec functions: each production is a
//! function from the parse state before it to what it yields. `Step::No`
//! means the production does not apply here and leaves the state as it was;
//! the caller then tries the next alternative. `Step::Fail` is a hard error.
//!
//! Loops are written as recursion on a strictly later position; where that
//! position comes from a sub-production, the recursion is guarded by the
//! progress it needs, a guard that the parser shows is always met.
use vstd::prelude::*;
use vstd::utf8::is_scalar;
use crate::error::{ErrorKind, ParseError};
use crate::ident::{id_continue_property, id_start_property};
use crate::unicode::{is_lone_property, is_property_pair};

verus! {

/// What a pass over the pattern reads: the body's characters and the two modes.
pub struct Ctx {
    pub text: Seq<char>,
    /// Unicode mode (the `u` flag).
    pub u: bool,
    /// Named-group mode: `\k<name>` is a reference and lookaheads may not be quantified.
    pub n: bool,
}

/// The parse state: the position (a character index) and what has been
/// gathered so far.
pub struct Scan {
    pub pos: int,
    /// Capturing groups closed so far.
    pub caps: int,
    /// The largest numeric back-reference seen (Unicode mode).
    pub max_ref: int,
    /// The declared group names, in order of declaration.
    pub names: Seq<Seq<char>>,
    /// The names referenced by `\k<name>`, in order of appearance.
    pub refs: Seq<Seq<char>>,
}

/// What a production yields.
pub enum Step<T> {
    No,
    Yes(T, Scan),
    Fail(ParseError),
}

/// The result of a production that always applies.
pub type Outcome = Result<Scan, ParseError>;

// ---------------------------------------------------------------- characters

pub open spec fn is_syntax_char(ch: char) -> bool {
    ch == '$' || ('(' <= ch && ch <= '+') || ch == '.' || ch == '?' || ('[' <= ch && ch <= '^')
        || ('{' <= ch && ch <= '}')
}

pub open spec fn is_control_letter(ch: char) -> bool {
    ('A' <= ch && ch <= 'Z') || ('a' <= ch && ch <= 'z')
}

pub open spec fn is_class_escape_char(ch: char) -> bool {
    ch == 'd' || ch == 'D' || ch == 's' || ch == 'S' || ch == 'w' || ch == 'W'
}

pub open spec fn is_property_name_char(ch: char) -> bool {
    is_control_letter(ch) || ch == '_'
}

pub open spec fn is_property_value_char(ch: char) -> bool {
    is_property_name_char(ch) || ('0' <= ch && ch <= '9')
}

/// The characters that legacy mode takes literally where no atom matched.
pub open spec fn is_extended_pattern_char(ch: char) -> bool {
    ch != '$' && !('(' <= ch && ch <= '+') && ch != '.' && ch != '?' && ch != '[' && ch != '^'
        && ch != '|'
}

pub open spec fn is_ident_start_char(ch: char) -> bool {
    is_control_letter(ch) || ch == '$' || ch == '_' || id_start_property(ch)
}

pub open spec fn is_ident_part_char(ch: char) -> bool {
    is_control_letter(ch) || ('0' <= ch && ch <= '9') || ch == '$' || ch == '_'
        || id_continue_property(ch)
}

/// The value of `ch` as a digit of base `radix` (8, 10 or 16).
pub open spec fn digit_value(ch: char, radix: u32) -> Option<u32> {
    if '0' <= ch && ch <= '9' && (ch as u32 - '0' as u32) < radix {
        Some((ch as u32 - '0' as u32) as u32)
    } else if radix == 16 && 'a' <= ch && ch <= 'f' {
        Some((ch as u32 - 'a' as u32 + 10) as u32)
    } else if radix == 16 && 'A' <= ch && ch <= 'F' {
        Some((ch as u32 - 'A' as u32 + 10) as u32)
    } else {
        None
    }
}

/// The value of the control escapes `\t \n \v \f \r`.
pub open spec fn control_escape_value(ch: char) -> Option<u32> {
    if ch == 't' {
        Some(9u32)
    } else if ch == 'n' {
        Some(10u32)
    } else if ch == 'v' {
        Some(11u32)
    } else if ch == 'f' {
        Some(12u32)
    } else if ch == 'r' {
        Some(13u32)
    } else {
        None
    }
}

// ---------------------------------------------------------------- runs and numbers

/// The end of the run of non-syntax characters that starts at `i`.
pub open spec fn plain_run_end(t: Seq<char>, i: int) -> int
    decreases t.len() - i,
{
    if 0 <= i < t.len() && !is_syntax_char(t[i]) {
        plain_run_end(t, i + 1)
    } else {
        i
    }
}

/// The end of the run of property-name characters that starts at `i`.
pub open spec fn name_run_end(t: Seq<char>, i: int) -> int
    decreases t.len() - i,
{
    if 0 <= i < t.len() && is_property_name_char(t[i]) {
        name_run_end(t, i + 1)
    } else {
        i
    }
}

/// The end of the run of property-value characters that starts at `i`.
pub open spec fn value_run_end(t: Seq<char>, i: int) -> int
    decreases t.len() - i,
{
    if 0 <= i < t.len() && is_property_value_char(t[i]) {
        value_run_end(t, i + 1)
    } else {
        i
    }
}

/// The end of the run of base-`radix` digits that starts at `i`.
pub open spec fn digit_run_end(t: Seq<char>, i: int, radix: u32) -> int
    decreases t.len() - i,
{
    if 0 <= i < t.len() && digit_value(t[i], radix) is Some {
        digit_run_end(t, i + 1, radix)
    } else {
        i
    }
}

/// The number that the digits `t[a..b]` write in base `radix`.
pub open spec fn digits_value(t: Seq<char>, a: int, b: int, radix: u32) -> nat
    decreases b - a,
{
    if b <= a {
        0
    } else {
        digits_value(t, a, b - 1, radix) * radix as nat + digit_value(t[b - 1], radix)->0 as nat
    }
}

/// A number as a `u32`, saturating at `u32::MAX`.
pub open spec fn capped(v: int) -> u32 {
    if v < u32::MAX {
        v as u32
    } else {
        u32::MAX
    }
}

/// `t[a..b]` are all base-`radix` digits.
pub open spec fn all_digits(t: Seq<char>, a: int, b: int, radix: u32) -> bool {
    &&& 0 <= a <= b <= t.len()
    &&& forall|j: int| a <= j < b ==> (#[trigger] digit_value(t[j], radix)) is Some
}

/// The value of exactly `k` hex digits at `i`, if they are there.
pub open spec fn fixed_hex(t: Seq<char>, i: int, k: int) -> Option<u32> {
    if all_digits(t, i, i + k, 16) {
        Some(capped(digits_value(t, i, i + k, 16) as int))
    } else {
        None
    }
}

// ---------------------------------------------------------------- state helpers

pub open spec fn at(s: Scan, p: int) -> Scan {
    Scan { pos: p, caps: s.caps, max_ref: s.max_ref, names: s.names, refs: s.refs }
}

pub open spec fn peek(c: Ctx, s: Scan) -> Option<char> {
    if 0 <= s.pos < c.text.len() {
        Some(c.text[s.pos])
    } else {
        None
    }
}

/// The character `k` places after the position is `ch`.
pub open spec fn sees(c: Ctx, s: Scan, k: int, ch: char) -> bool {
    0 <= s.pos + k < c.text.len() && c.text[s.pos + k] == ch
}

pub open spec fn fault<T>(kind: ErrorKind, s: Scan) -> Step<T> {
    Step::Fail(ParseError { kind, at: s.pos as usize })
}

pub open spec fn error_at(kind: ErrorKind, s: Scan) -> ParseError {
    ParseError { kind, at: s.pos as usize }
}

/// `a`, or `b` where `a` does not apply.
pub open spec fn either<T>(a: Step<T>, b: Step<T>) -> Step<T> {
    if a is No {
        b
    } else {
        a
    }
}

/// The step with its value dropped.
pub open spec fn unit<T>(a: Step<T>) -> Step<()> {
    match a {
        Step::No => Step::No,
        Step::Yes(_, s) => Step::Yes((), s),
        Step::Fail(e) => Step::Fail(e),
    }
}

/// The step with its value made optional.
pub open spec fn some<T>(a: Step<T>) -> Step<Option<T>> {
    match a {
        Step::No => Step::No,
        Step::Yes(v, s) => Step::Yes(Some(v), s),
        Step::Fail(e) => Step::Fail(e),
    }
}

/// `b` lies at or after `a`, within the text.
pub open spec fn within(c: Ctx, a: Scan, b: Scan) -> bool {
    a.pos <= b.pos <= c.text.len()
}

/// The state at the start of a pass.
pub open spec fn fresh() -> Scan {
    Scan { pos: 0, caps: 0, max_ref: 0, names: Seq::empty(), refs: Seq::empty() }
}


// ---------------------------------------------------------------- quantifiers

/// `*`, `+`, `?` or a braced quantifier, then an optional lazy `?`.
pub open spec fn quantifier(c: Ctx, s: Scan, lenient: bool) -> Step<()> {
    match quantifier_prefix(c, s, lenient) {
        Step::Yes(_, s1) => Step::Yes((), if sees(c, s1, 0, '?') { at(s1, s1.pos + 1) } else { s1 }),
        other => other,
    }
}

pub open spec fn quantifier_prefix(c: Ctx, s: Scan, lenient: bool) -> Step<()> {
    if sees(c, s, 0, '*') || sees(c, s, 0, '+') || sees(c, s, 0, '?') {
        Step::Yes((), at(s, s.pos + 1))
    } else {
        braced_quantifier(c, s, lenient)
    }
}

/// A `{` that does not complete a quantifier: an error in Unicode mode unless
/// `lenient`, else no quantifier.
pub open spec fn incomplete_quantifier(c: Ctx, s: Scan, lenient: bool) -> Step<()> {
    if c.u && !lenient {
        fault(ErrorKind::IncompleteQuantifier, s)
    } else {
        Step::No
    }
}

/// `{min}`, `{min,}` or `{min,max}`. Unless `lenient`, `max < min` is an
/// error; the bounds are compared exactly, and the error carries them
/// saturated at `u32::MAX`.
pub open spec fn braced_quantifier(c: Ctx, s: Scan, lenient: bool) -> Step<()> {
    if !sees(c, s, 0, '{') {
        Step::No
    } else {
        let t = c.text;
        let from = s.pos + 1;
        let e1 = digit_run_end(t, from, 10);
        if e1 == from {
            incomplete_quantifier(c, at(s, from), lenient)
        } else {
            let min = capped(digits_value(t, from, e1, 10) as int);
            let comma = sees(c, at(s, e1), 0, ',');
            let e2 = digit_run_end(t, e1 + 1, 10);
            let has_max = comma && e2 > e1 + 1;
            let max = capped(digits_value(t, e1 + 1, e2, 10) as int);
            let close = if has_max { e2 } else if comma { e1 + 1 } else { e1 };
            if sees(c, at(s, close), 0, '}') {
                if has_max && digits_value(t, e1 + 1, e2, 10) < digits_value(t, from, e1, 10)
                    && !lenient {
                    fault(ErrorKind::NumbersOutOfOrder(min, max), at(s, close + 1))
                } else {
                    Step::Yes((), at(s, close + 1))
                }
            } else {
                incomplete_quantifier(c, at(s, close), lenient)
            }
        }
    }
}

// ---------------------------------------------------------------- pattern characters

/// A run of one or more non-syntax characters.
pub open spec fn pattern_characters(c: Ctx, s: Scan) -> Step<()> {
    let e = plain_run_end(c.text, s.pos);
    if e > s.pos {
        Step::Yes((), at(s, e))
    } else {
        Step::No
    }
}

/// One character that legacy mode takes literally.
pub open spec fn extended_pattern_character(c: Ctx, s: Scan) -> Step<()> {
    match peek(c, s) {
        Some(ch) => if is_extended_pattern_char(ch) {
            Step::Yes((), at(s, s.pos + 1))
        } else {
            Step::No
        },
        None => Step::No,
    }
}

/// A single character `ch`.
pub open spec fn literal(c: Ctx, s: Scan, ch: char) -> Step<()> {
    if sees(c, s, 0, ch) {
        Step::Yes((), at(s, s.pos + 1))
    } else {
        Step::No
    }
}

// ---------------------------------------------------------------- escapes

/// `\` followed by an atom escape.
pub open spec fn reverse_solidus_atom_escape(c: Ctx, s: Scan) -> Step<()> {
    if sees(c, s, 0, '\\') {
        atom_escape(c, at(s, s.pos + 1))
    } else {
        Step::No
    }
}

/// What may follow `\` in an atom. In Unicode mode an escape that no rule
/// accepts is an error.
pub open spec fn atom_escape(c: Ctx, s: Scan) -> Step<()> {
    let r = either(
        back_ref(c, s),
        either(
            unit(character_class_escape(c, s)),
            either(unit(character_escape(c, s)), if c.n { k_group_name(c, s) } else { Step::No }),
        ),
    );
    if r is No && c.u {
        if sees(c, s, 0, 'c') {
            fault(ErrorKind::InvalidUnicodeEscape, s)
        } else {
            fault(ErrorKind::InvalidEscape, s)
        }
    } else {
        r
    }
}

/// A numeric back-reference. In Unicode mode every number is taken and the
/// largest is kept, to be checked against the group count at the end; in
/// legacy mode only a number up to the groups closed so far is taken.
pub open spec fn back_ref(c: Ctx, s: Scan) -> Step<()> {
    let e = digit_run_end(c.text, s.pos, 10);
    if e == s.pos {
        Step::No
    } else {
        let v = capped(digits_value(c.text, s.pos, e, 10) as int) as int;
        if c.u {
            Step::Yes(
                (),
                Scan {
                    pos: e,
                    caps: s.caps,
                    max_ref: if v > s.max_ref { v } else { s.max_ref },
                    names: s.names,
                    refs: s.refs,
                },
            )
        } else if v <= s.caps {
            Step::Yes((), at(s, e))
        } else {
            Step::No
        }
    }
}

/// `\d \D \s \S \w \W`, and in Unicode mode `\p{...}` and `\P{...}`. These
/// stand for sets of characters, not for one character.
pub open spec fn character_class_escape(c: Ctx, s: Scan) -> Step<()> {
    match peek(c, s) {
        None => Step::No,
        Some(ch) => if is_class_escape_char(ch) {
            Step::Yes((), at(s, s.pos + 1))
        } else if c.u && (ch == 'P' || ch == 'p') {
            let s1 = at(s, s.pos + 1);
            if !sees(c, s1, 0, '{') {
                fault(ErrorKind::InvalidPropertyName, s1)
            } else {
                let s2 = at(s, s.pos + 2);
                match property_expression(c, s2) {
                    Step::Yes(_, s3) => if sees(c, s3, 0, '}') {
                        Step::Yes((), at(s3, s3.pos + 1))
                    } else {
                        fault(ErrorKind::InvalidPropertyName, s3)
                    },
                    Step::No => fault(ErrorKind::InvalidPropertyName, s2),
                    Step::Fail(e) => Step::Fail(e),
                }
            }
        } else {
            Step::No
        },
    }
}

/// The body of `\p{...}`: `name=value`, checked as a pair, or a lone value.
pub open spec fn property_expression(c: Ctx, s: Scan) -> Step<()> {
    let t = c.text;
    let ne = name_run_end(t, s.pos);
    let ve = value_run_end(t, ne + 1);
    if ne > s.pos && sees(c, at(s, ne), 0, '=') && ve > ne + 1 {
        if is_property_pair(t.subrange(s.pos, ne), t.subrange(ne + 1, ve)) {
            Step::Yes((), at(s, ve))
        } else {
            fault(
                ErrorKind::InvalidPropertyNameAndValue(
                    s.pos as usize,
                    ne as usize,
                    (ne + 1) as usize,
                    ve as usize,
                ),
                at(s, ve),
            )
        }
    } else {
        let le = value_run_end(t, s.pos);
        if le == s.pos {
            Step::No
        } else if is_lone_property(t.subrange(s.pos, le)) {
            Step::Yes((), at(s, le))
        } else {
            fault(ErrorKind::InvalidPropertyNameOrValue(s.pos as usize, le as usize), at(s, le))
        }
    }
}

/// An escape that stands for one character, with its value where it has one.
pub open spec fn character_escape(c: Ctx, s: Scan) -> Step<Option<u32>> {
    either(
        some(control_escape(c, s)),
        either(
            some(c_control_letter(c, s)),
            either(
                some(zero_escape(c, s)),
                either(
                    some(hex_escape_sequence(c, s)),
                    either(
                        some(unicode_escape_sequence(c, s)),
                        either(
                            if !c.u { some(legacy_octal_escape_sequence(c, s)) } else { Step::No },
                            identity_escape(c, s),
                        ),
                    ),
                ),
            ),
        ),
    )
}

/// `t n v f r`.
pub open spec fn control_escape(c: Ctx, s: Scan) -> Step<u32> {
    match peek(c, s) {
        Some(ch) => match control_escape_value(ch) {
            Some(v) => Step::Yes(v, at(s, s.pos + 1)),
            None => Step::No,
        },
        None => Step::No,
    }
}

/// `c` and a control letter, standing for the letter's code modulo 32.
pub open spec fn c_control_letter(c: Ctx, s: Scan) -> Step<u32> {
    if sees(c, s, 0, 'c') && s.pos + 1 < c.text.len() && is_control_letter(c.text[s.pos + 1]) {
        Step::Yes((c.text[s.pos + 1] as u32 % 32) as u32, at(s, s.pos + 2))
    } else {
        Step::No
    }
}

pub open spec fn zero_escape(c: Ctx, s: Scan) -> Step<u32> {
    if sees(c, s, 0, '0') {
        Step::Yes(0u32, at(s, s.pos + 1))
    } else {
        Step::No
    }
}

/// `x` and exactly two hex digits; in Unicode mode `x` without them is an error.
pub open spec fn hex_escape_sequence(c: Ctx, s: Scan) -> Step<u32> {
    if !sees(c, s, 0, 'x') {
        Step::No
    } else {
        match fixed_hex(c.text, s.pos + 1, 2) {
            Some(v) => Step::Yes(v, at(s, s.pos + 3)),
            None => if c.u {
                fault(ErrorKind::InvalidEscape, s)
            } else {
                Step::No
            },
        }
    }
}

pub open spec fn is_lead_surrogate(v: u32) -> bool {
    0xD800 <= v <= 0xDBFF
}

pub open spec fn is_trail_surrogate(v: u32) -> bool {
    0xDC00 <= v <= 0xDFFF
}

/// The code point of a surrogate pair.
pub open spec fn combine_surrogates(lead: u32, trail: u32) -> u32 {
    ((lead - 0xD800) * 0x400 + (trail - 0xDC00) + 0x10000) as u32
}

/// `uHHHH` (in Unicode mode a lead surrogate takes a following `\uHHHH`
/// trail surrogate with it), or in Unicode mode `u{H...}` up to 0x10FFFF.
/// In Unicode mode `u` without either is an error.
pub open spec fn unicode_escape_sequence(c: Ctx, s: Scan) -> Step<u32> {
    let t = c.text;
    if !sees(c, s, 0, 'u') {
        Step::No
    } else {
        let from = s.pos + 1;
        match fixed_hex(t, from, 4) {
            Some(lead) => {
                let lead_end = from + 4;
                if c.u && is_lead_surrogate(lead) && sees(c, at(s, lead_end), 0, '\\') && sees(
                    c,
                    at(s, lead_end),
                    1,
                    'u',
                ) && fixed_hex(t, lead_end + 2, 4) is Some && is_trail_surrogate(
                    fixed_hex(t, lead_end + 2, 4)->0,
                ) {
                    Step::Yes(combine_surrogates(lead, fixed_hex(t, lead_end + 2, 4)->0), at(s, lead_end + 6))
                } else {
                    Step::Yes(lead, at(s, lead_end))
                }
            },
            None => if !c.u {
                Step::No
            } else if !sees(c, at(s, from), 0, '{') {
                fault(ErrorKind::InvalidUnicodeEscape, at(s, from))
            } else {
                let e = digit_run_end(t, from + 1, 16);
                if e == from + 1 {
                    fault(ErrorKind::InvalidUnicodeEscape, at(s, e))
                } else if !sees(c, at(s, e), 0, '}') {
                    fault(ErrorKind::InvalidUnicodeEscape, at(s, e))
                } else if capped(digits_value(t, from + 1, e, 16) as int) <= 0x10FFFF {
                    Step::Yes(capped(digits_value(t, from + 1, e, 16) as int), at(s, e + 1))
                } else {
                    fault(ErrorKind::InvalidUnicodeEscape, at(s, e + 1))
                }
            },
        }
    }
}

/// A legacy octal escape: one octal digit, then a second, then a third where
/// the first is at most 3.
pub open spec fn legacy_octal_escape_sequence(c: Ctx, s: Scan) -> Step<u32> {
    let t = c.text;
    let p = s.pos;
    if !(0 <= p < t.len() && digit_value(t[p], 8) is Some) {
        Step::No
    } else {
        let n1 = digit_value(t[p], 8)->0;
        if !(p + 1 < t.len() && digit_value(t[p + 1], 8) is Some) {
            Step::Yes(n1, at(s, p + 1))
        } else {
            let n2 = digit_value(t[p + 1], 8)->0;
            if n1 <= 3 && p + 2 < t.len() && digit_value(t[p + 2], 8) is Some {
                Step::Yes((n1 * 64 + n2 * 8 + digit_value(t[p + 2], 8)->0) as u32, at(s, p + 3))
            } else {
                Step::Yes((n1 * 8 + n2) as u32, at(s, p + 2))
            }
        }
    }
}

/// An escaped character that stands for itself: in Unicode mode a syntax
/// character or `/`; in legacy mode anything but `c` (and `k` in named-group
/// mode). In legacy mode a `\` at the very end stands for no character.
pub open spec fn identity_escape(c: Ctx, s: Scan) -> Step<Option<u32>> {
    match peek(c, s) {
        Some(ch) => if c.u {
            if is_syntax_char(ch) || ch == '/' {
                Step::Yes(Some(ch as u32), at(s, s.pos + 1))
            } else {
                Step::No
            }
        } else if ch != 'c' && (!c.n || ch != 'k') {
            Step::Yes(Some(ch as u32), at(s, s.pos + 1))
        } else {
            Step::No
        },
        None => if c.u {
            Step::No
        } else {
            Step::Yes(None, s)
        },
    }
}

// ---------------------------------------------------------------- character classes

/// `[`, an optional `^`, class ranges, `]`.
pub open spec fn character_class(c: Ctx, s: Scan) -> Step<()> {
    if !sees(c, s, 0, '[') {
        Step::No
    } else {
        let s1 = if sees(c, s, 1, '^') { at(s, s.pos + 2) } else { at(s, s.pos + 1) };
        match class_ranges(c, s1) {
            Ok(s2) => if sees(c, s2, 0, ']') {
                Step::Yes((), at(s2, s2.pos + 1))
            } else {
                fault(ErrorKind::UnterminatedCharacterClass, s2)
            },
            Err(e) => Step::Fail(e),
        }
    }
}

/// The check on a range `left-right`, with the state after it.
pub open spec fn range_check(c: Ctx, left: Option<u32>, right: Option<u32>, s: Scan) -> Option<ParseError> {
    if c.u && (left is None || right is None) {
        Some(error_at(ErrorKind::InvalidCharacterClass, s))
    } else if left is Some && right is Some && left->0 > right->0 {
        Some(error_at(ErrorKind::RangeOutOfOrder(left->0, right->0), s))
    } else {
        None
    }
}

/// Class atoms, each optionally joined to the next by `-` into a range.
pub open spec fn class_ranges(c: Ctx, s: Scan) -> Outcome
    decreases c.text.len() - s.pos,
{
    match class_atom(c, s) {
        Step::No => Ok(s),
        Step::Fail(e) => Err(e),
        Step::Yes(left, s1) => if !(s.pos < s1.pos <= c.text.len()) {
            Ok(s1)
        } else if sees(c, s1, 0, '-') {
            let s2 = at(s1, s1.pos + 1);
            match class_atom(c, s2) {
                Step::No => class_ranges(c, s2),
                Step::Fail(e) => Err(e),
                Step::Yes(right, s3) => match range_check(c, left, right, s3) {
                    Some(e) => Err(e),
                    None => if s2.pos < s3.pos <= c.text.len() {
                        class_ranges(c, s3)
                    } else {
                        Ok(s3)
                    },
                },
            }
        } else {
            class_ranges(c, s1)
        },
    }
}

/// One class atom: an escape, or any character but `]`.
pub open spec fn class_atom(c: Ctx, s: Scan) -> Step<Option<u32>> {
    let plain = match peek(c, s) {
        Some(ch) => if ch != ']' {
            Step::Yes(Some(ch as u32), at(s, s.pos + 1))
        } else {
            Step::No
        },
        None => Step::No,
    };
    if sees(c, s, 0, '\\') {
        let s1 = at(s, s.pos + 1);
        match class_escape(c, s1) {
            Step::No => match peek(c, s1) {
                Some(ch) => if c.u {
                    if ch == 'c' || digit_value(ch, 8) is Some {
                        fault(ErrorKind::InvalidClassEscape, s1)
                    } else {
                        fault(ErrorKind::InvalidEscape, s1)
                    }
                } else {
                    plain
                },
                None => plain,
            },
            other => other,
        }
    } else {
        plain
    }
}

/// What may follow `\` in a class.
pub open spec fn class_escape(c: Ctx, s: Scan) -> Step<Option<u32>> {
    if sees(c, s, 0, 'b') {
        Step::Yes(Some(8u32), at(s, s.pos + 1))
    } else if c.u && sees(c, s, 0, '-') {
        Step::Yes(Some(0x2Du32), at(s, s.pos + 1))
    } else if c.u && sees(c, s, 0, 'c') && class_control_letter(c, at(s, s.pos + 1)) is Yes {
        match class_control_letter(c, at(s, s.pos + 1)) {
            Step::Yes(v, s1) => Step::Yes(Some(v), s1),
            _ => Step::No,
        }
    } else {
        either(
            match character_class_escape(c, s) {
                Step::Yes(_, s1) => Step::Yes(None, s1),
                Step::No => Step::No,
                Step::Fail(e) => Step::Fail(e),
            },
            character_escape(c, s),
        )
    }
}

/// A digit or `_` after `\c` in a class, standing for its code modulo 32.
pub open spec fn class_control_letter(c: Ctx, s: Scan) -> Step<u32> {
    match peek(c, s) {
        Some(ch) => if ('0' <= ch && ch <= '9') || ch == '_' {
            Step::Yes((ch as u32 % 32) as u32, at(s, s.pos + 1))
        } else {
            Step::No
        },
        None => Step::No,
    }
}

// ---------------------------------------------------------------- group names

/// `k<name>`: a named back-reference, recorded to be checked at the end.
pub open spec fn k_group_name(c: Ctx, s: Scan) -> Step<()> {
    if !sees(c, s, 0, 'k') {
        Step::No
    } else {
        let s1 = at(s, s.pos + 1);
        match group_name(c, s1) {
            Step::Yes(name, s2) => Step::Yes(
                (),
                Scan {
                    pos: s2.pos,
                    caps: s2.caps,
                    max_ref: s2.max_ref,
                    names: s2.names,
                    refs: s2.refs.push(name),
                },
            ),
            Step::No => fault(ErrorKind::InvalidNamedReference, s1),
            Step::Fail(e) => Step::Fail(e),
        }
    }
}

/// `<name>`, yielding the name as written.
pub open spec fn group_name(c: Ctx, s: Scan) -> Step<Seq<char>> {
    if !sees(c, s, 0, '<') {
        Step::No
    } else {
        let s1 = at(s, s.pos + 1);
        match identifier_name(c, s1) {
            Step::Yes(name, s2) => if sees(c, s2, 0, '>') {
                Step::Yes(name, at(s2, s2.pos + 1))
            } else {
                fault(ErrorKind::InvalidCaptureGroupName, s2)
            },
            Step::No => fault(ErrorKind::InvalidCaptureGroupName, s1),
            Step::Fail(e) => Step::Fail(e),
        }
    }
}

/// An identifier start and any identifier parts, yielding the text they span.
pub open spec fn identifier_name(c: Ctx, s: Scan) -> Step<Seq<char>> {
    match ident_start(c, s) {
        Step::Yes(_, s1) => match ident_parts(c, s1) {
            Ok(s2) => Step::Yes(c.text.subrange(s.pos, s2.pos), s2),
            Err(e) => Step::Fail(e),
        },
        Step::No => Step::No,
        Step::Fail(e) => Step::Fail(e),
    }
}

/// One identifier character, written plainly or as a `\u` escape; `start`
/// chooses between the start and the part property.
pub open spec fn ident_char(c: Ctx, s: Scan, start: bool) -> Step<()> {
    match peek(c, s) {
        None => Step::No,
        Some(ch) => {
            let s1 = at(s, s.pos + 1);
            let esc = if ch == '\\' { unicode_escape_sequence(c, s1) } else { Step::No };
            match esc {
                Step::Fail(e) => Step::Fail(e),
                _ => {
                    let (ch2, s2) = match esc {
                        Step::Yes(v, s2) => (if is_scalar(v) { v as char } else { ch }, s2),
                        _ => (ch, s1),
                    };
                    if (start && is_ident_start_char(ch2)) || (!start && is_ident_part_char(ch2)) {
                        Step::Yes((), s2)
                    } else {
                        Step::No
                    }
                },
            }
        },
    }
}

pub open spec fn ident_start(c: Ctx, s: Scan) -> Step<()> {
    ident_char(c, s, true)
}

pub open spec fn ident_part(c: Ctx, s: Scan) -> Step<()> {
    ident_char(c, s, false)
}

/// Identifier parts, as many as there are.
pub open spec fn ident_parts(c: Ctx, s: Scan) -> Outcome
    decreases c.text.len() - s.pos,
{
    match ident_part(c, s) {
        Step::No => Ok(s),
        Step::Fail(e) => Err(e),
        Step::Yes(_, s1) => if s.pos < s1.pos <= c.text.len() {
            ident_parts(c, s1)
        } else {
            Ok(s1)
        },
    }
}

/// After `(`: an optional `?<name>`, whose name must not be declared already.
pub open spec fn group_specifier(c: Ctx, s: Scan) -> Outcome {
    if !sees(c, s, 0, '?') {
        Ok(s)
    } else {
        let s1 = at(s, s.pos + 1);
        match group_name(c, s1) {
            Step::Yes(name, s2) => if s2.names.contains(name) {
                Err(error_at(ErrorKind::DuplicateCaptureGroupName, s2))
            } else {
                Ok(
                    Scan {
                        pos: s2.pos,
                        caps: s2.caps,
                        max_ref: s2.max_ref,
                        names: s2.names.push(name),
                        refs: s2.refs,
                    },
                )
            },
            Step::No => Err(error_at(ErrorKind::InvalidGroup, s1)),
            Step::Fail(e) => Err(e),
        }
    }
}


// ---------------------------------------------------------------- disjunctions and terms

/// Alternatives separated by `|`. A quantifier or a `{` left after them has
/// nothing to repeat.
pub open spec fn disjunction(c: Ctx, s: Scan) -> Outcome
    decreases c.text.len() - s.pos, 6int,
{
    match alternatives(c, s) {
        Err(e) => Err(e),
        Ok(s1) => match quantifier(c, s1, true) {
            Step::Yes(_, s2) => Err(error_at(ErrorKind::NothingToRepeat, s2)),
            Step::Fail(e) => Err(e),
            Step::No => if sees(c, s1, 0, '{') {
                Err(error_at(ErrorKind::LoneOpeningBrace, at(s1, s1.pos + 1)))
            } else {
                Ok(s1)
            },
        },
    }
}

/// An alternative, then, after each `|`, another.
pub open spec fn alternatives(c: Ctx, s: Scan) -> Outcome
    decreases c.text.len() - s.pos, 5int,
{
    match alternative(c, s) {
        Err(e) => Err(e),
        Ok(s1) => if sees(c, s1, 0, '|') && within(c, s, s1) {
            alternatives(c, at(s1, s1.pos + 1))
        } else {
            Ok(s1)
        },
    }
}

/// Terms, as many as there are.
pub open spec fn alternative(c: Ctx, s: Scan) -> Outcome
    decreases c.text.len() - s.pos, 4int,
{
    if s.pos < c.text.len() {
        match term(c, s) {
            Step::No => Ok(s),
            Step::Fail(e) => Err(e),
            Step::Yes(_, s1) => if s.pos < s1.pos <= c.text.len() {
                alternative(c, s1)
            } else {
                Ok(s1)
            },
        }
    } else {
        Ok(s)
    }
}

/// An assertion, or an atom with an optional quantifier. In named-group mode a
/// quantified lookahead is an error.
pub open spec fn term(c: Ctx, s: Scan) -> Step<()>
    decreases c.text.len() - s.pos, 3int,
{
    match assertion(c, s) {
        Step::Fail(e) => Step::Fail(e),
        Step::Yes(quantifiable, s1) => if quantifiable {
            match quantifier(c, s1, false) {
                Step::Fail(e) => Step::Fail(e),
                Step::Yes(_, s2) => if c.n {
                    fault(ErrorKind::InvalidQuantifier, s2)
                } else {
                    Step::Yes((), s2)
                },
                Step::No => Step::Yes((), s1),
            }
        } else {
            Step::Yes((), s1)
        },
        Step::No => match (if c.u { atom(c, s) } else { extended_atom(c, s) }) {
            Step::Yes(_, s1) => match quantifier(c, s1, false) {
                Step::Fail(e) => Step::Fail(e),
                Step::Yes(_, s2) => Step::Yes((), s2),
                Step::No => Step::Yes((), s1),
            },
            other => other,
        },
    }
}

/// An atom in Unicode mode.
pub open spec fn atom(c: Ctx, s: Scan) -> Step<()>
    decreases c.text.len() - s.pos, 2int,
{
    either(
        pattern_characters(c, s),
        either(
            literal(c, s, '.'),
            either(
                reverse_solidus_atom_escape(c, s),
                either(
                    character_class(c, s),
                    either(uncapturing_group(c, s), capturing_group(c, s)),
                ),
            ),
        ),
    )
}

/// An atom in legacy mode: a braced quantifier here has nothing to repeat,
/// and most other single characters stand for themselves.
pub open spec fn extended_atom(c: Ctx, s: Scan) -> Step<()>
    decreases c.text.len() - s.pos, 2int,
{
    either(
        literal(c, s, '.'),
        either(
            reverse_solidus_atom_escape(c, s),
            either(
                character_class(c, s),
                either(
                    uncapturing_group(c, s),
                    either(
                        capturing_group(c, s),
                        either(invalid_braced_quantifier(c, s), extended_pattern_character(c, s)),
                    ),
                ),
            ),
        ),
    )
}

/// A well-formed braced quantifier where an atom should stand.
pub open spec fn invalid_braced_quantifier(c: Ctx, s: Scan) -> Step<()> {
    match braced_quantifier(c, s, true) {
        Step::Yes(_, s1) => fault(ErrorKind::NothingToRepeat, s1),
        other => other,
    }
}

/// `^`, `$`, `\b`, `\B`, or a lookaround `(?=` `(?!` `(?<=` `(?<!` with its
/// disjunction and `)`. The value says whether a quantifier may follow: only
/// after a lookahead.
pub open spec fn assertion(c: Ctx, s: Scan) -> Step<bool>
    decreases c.text.len() - s.pos, 1int,
{
    if sees(c, s, 0, '^') || sees(c, s, 0, '$') {
        Step::Yes(false, at(s, s.pos + 1))
    } else if sees(c, s, 0, '\\') && (sees(c, s, 1, 'B') || sees(c, s, 1, 'b')) {
        Step::Yes(false, at(s, s.pos + 2))
    } else if sees(c, s, 0, '(') && sees(c, s, 1, '?') {
        let behind = sees(c, s, 2, '<');
        let k: int = if behind { 3 } else { 2 };
        if sees(c, s, k, '=') || sees(c, s, k, '!') {
            match disjunction(c, at(s, s.pos + k + 1)) {
                Ok(s1) => if sees(c, s1, 0, ')') {
                    Step::Yes(!behind, at(s1, s1.pos + 1))
                } else {
                    fault(ErrorKind::UnterminatedGroup, s1)
                },
                Err(e) => Step::Fail(e),
            }
        } else {
            Step::No
        }
    } else {
        Step::No
    }
}

/// `(?:`, a disjunction, `)`.
pub open spec fn uncapturing_group(c: Ctx, s: Scan) -> Step<()>
    decreases c.text.len() - s.pos, 1int,
{
    if sees(c, s, 0, '(') && sees(c, s, 1, '?') && sees(c, s, 2, ':') {
        match disjunction(c, at(s, s.pos + 3)) {
            Ok(s1) => if sees(c, s1, 0, ')') {
                Step::Yes((), at(s1, s1.pos + 1))
            } else {
                fault(ErrorKind::UnterminatedGroup, s)
            },
            Err(e) => Step::Fail(e),
        }
    } else {
        Step::No
    }
}

/// `(`, an optional group name, a disjunction, `)`; closing it counts one
/// more capturing group (the count saturates at `u32::MAX`).
pub open spec fn capturing_group(c: Ctx, s: Scan) -> Step<()>
    decreases c.text.len() - s.pos, 1int,
{
    if !sees(c, s, 0, '(') {
        Step::No
    } else {
        match group_specifier(c, at(s, s.pos + 1)) {
            Err(e) => Step::Fail(e),
            Ok(s1) => if !(s.pos < s1.pos <= c.text.len()) {
                Step::No
            } else {
                match disjunction(c, s1) {
                    Err(e) => Step::Fail(e),
                    Ok(s2) => if sees(c, s2, 0, ')') {
                        Step::Yes(
                            (),
                            Scan {
                                pos: s2.pos + 1,
                                caps: if s2.caps < u32::MAX { s2.caps + 1 } else { s2.caps },
                                max_ref: s2.max_ref,
                                names: s2.names,
                                refs: s2.refs,
                            },
                        )
                    } else {
                        fault(ErrorKind::UnterminatedGroup, s2)
                    },
                }
            },
        }
    }
}

// ---------------------------------------------------------------- the whole pattern

/// Every name referenced by `\k<name>` is declared.
pub open spec fn refs_declared(s: Scan) -> bool {
    forall|i: int| 0 <= i < s.refs.len() ==> s.names.contains(#[trigger] s.refs[i])
}

/// One pass over the whole body from a fresh state: a disjunction that leaves
/// nothing behind, then the checks that need the whole pattern.
pub open spec fn pattern(c: Ctx) -> Outcome {
    match disjunction(c, fresh()) {
        Err(e) => Err(e),
        Ok(s1) => if s1.pos != c.text.len() && sees(c, s1, 0, ')') {
            Err(error_at(ErrorKind::UnmatchedParen, at(s1, s1.pos + 1)))
        } else if s1.pos != c.text.len() && (sees(c, s1, 0, ']') || sees(c, s1, 0, '}')) {
            Err(error_at(ErrorKind::LoneQuantifierBrackets, at(s1, s1.pos + 1)))
        } else if s1.pos != c.text.len() {
            Err(error_at(ErrorKind::UnexpectedCharacter, s1))
        } else if s1.max_ref > s1.caps {
            Err(error_at(ErrorKind::InvalidEscape, s1))
        } else if !refs_declared(s1) {
            Err(error_at(ErrorKind::InvalidNamedCaptureReferenced, s1))
        } else {
            Ok(s1)
        }
    }
}

/// Validation of a body: one pass; then, where the body is not in Unicode
/// mode and declares a named group, a second pass in named-group mode.
pub open spec fn validation(text: Seq<char>, u: bool) -> Outcome {
    match pattern(Ctx { text, u, n: u }) {
        Err(e) => Err(e),
        Ok(s) => if !u && s.names.len() > 0 {
            pattern(Ctx { text, u, n: true })
        } else {
            Ok(s)
        },
    }
}

} // verus!
