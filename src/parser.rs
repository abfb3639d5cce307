//! The recursive-descent validator. Every production is a method whose
//! contract says that it yields exactly what the production of the same name
//! in `grammar` yields, from the state it started in.
use vstd::prelude::*;
use crate::error::{message_text, Error, ErrorKind, ParseError};
use crate::flags::{no_flags, RegExFlags};
use crate::grammar::{self, at, peek, sees, Ctx, Outcome, Scan, Step};
use crate::ident::{char_from_u32, has_id_continue, has_id_start};
use crate::literal::{last_slash_index, split_literal};
use crate::text::{byte_offset, chars_of, lemma_utf8_len_prefix, lemma_utf8_len_subrange, utf8_len};
use crate::unicode;

verus! {

/// The parse state of one pass: the position (a character index into the
/// body), the body's length, the counts and the names gathered so far, and
/// the two modes. A name is held as the character range that spells it.
pub struct State {
    pub pos: usize,
    pub len: usize,
    pub num_capturing_parens: u32,
    pub max_back_refs: u32,
    pub group_names: Vec<(usize, usize)>,
    pub back_ref_names: Vec<(usize, usize)>,
    pub n: bool,
    pub u: bool,
}

/// The names that the ranges `v` spell in `t`.
pub open spec fn spans(t: Seq<char>, v: Seq<(usize, usize)>) -> Seq<Seq<char>> {
    v.map_values(|p: (usize, usize)| t.subrange(p.0 as int, p.1 as int))
}

/// Every range lies within `len`.
pub open spec fn ranges_within(v: Seq<(usize, usize)>, len: usize) -> bool {
    forall|i: int| 0 <= i < v.len() ==> (#[trigger] v[i]).0 <= v[i].1 <= len
}

impl State {
    /// The state at the start of a pass over a body of `len` characters.
    /// Named-group mode starts on exactly in Unicode mode.
    pub fn new(len: usize, u: bool) -> (r: State)
        ensures
            r.pos == 0,
            r.len == len,
            r.num_capturing_parens == 0,
            r.max_back_refs == 0,
            r.group_names@.len() == 0,
            r.back_ref_names@.len() == 0,
            r.n == u,
            r.u == u,
    {
        State {
            pos: 0,
            len,
            num_capturing_parens: 0,
            max_back_refs: 0,
            group_names: Vec::new(),
            back_ref_names: Vec::new(),
            n: u,
            u,
        }
    }

    /// Back to the start of a pass: position, counts and names cleared; the
    /// length and the modes kept.
    pub fn reset(&mut self)
        ensures
            final(self).pos == 0,
            final(self).len == old(self).len,
            final(self).num_capturing_parens == 0,
            final(self).max_back_refs == 0,
            final(self).group_names@.len() == 0,
            final(self).back_ref_names@.len() == 0,
            final(self).n == old(self).n,
            final(self).u == old(self).u,
    {
        self.pos = 0;
        self.num_capturing_parens = 0;
        self.max_back_refs = 0;
        self.group_names.clear();
        self.back_ref_names.clear();
    }
}

/// A production that yields a value of type `T` or does not apply, against
/// its grammar step: `Ok(None)` where the step is `No` and the state is as it was.
pub open spec fn matches<T>(r: Result<Option<T>, ParseError>, old: Scan, new: Scan, g: Step<T>) -> bool {
    match r {
        Ok(Some(v)) => g == Step::<T>::Yes(v, new),
        Ok(None) => g is No && new == old,
        Err(e) => g == Step::<T>::Fail(e),
    }
}

/// A production that yields no value or does not apply, against its grammar step.
pub open spec fn matches_bool(r: Result<bool, ParseError>, old: Scan, new: Scan, g: Step<()>) -> bool {
    match r {
        Ok(true) => g == Step::<()>::Yes((), new),
        Ok(false) => g is No && new == old,
        Err(e) => g == Step::<()>::Fail(e),
    }
}

/// A production that always applies, against its grammar outcome.
pub open spec fn matches_outcome(r: Result<(), ParseError>, new: Scan, g: Outcome) -> bool {
    match r {
        Ok(_) => g == Outcome::Ok(new),
        Err(e) => g == Outcome::Err(e),
    }
}

/// A production that cannot fail, against its grammar step.
pub open spec fn matches_opt<T>(r: Option<T>, old: Scan, new: Scan, g: Step<T>) -> bool {
    matches(Ok::<Option<T>, ParseError>(r), old, new, g)
}

/// A yes-or-no production that cannot fail, against its grammar step.
pub open spec fn matches_flag(r: bool, old: Scan, new: Scan, g: Step<()>) -> bool {
    matches_bool(Ok::<bool, ParseError>(r), old, new, g)
}

/// A production that yields a name as its character range, against its
/// grammar step, which yields the name's characters.
pub open spec fn matches_name(
    r: Result<Option<(usize, usize)>, ParseError>,
    t: Seq<char>,
    old: Scan,
    new: Scan,
    g: Step<Seq<char>>,
) -> bool {
    match r {
        Ok(Some(p)) => p.0 <= p.1 <= t.len() && g == Step::<Seq<char>>::Yes(
            t.subrange(p.0 as int, p.1 as int),
            new,
        ),
        Ok(None) => g is No && new == old,
        Err(e) => g == Step::<Seq<char>>::Fail(e),
    }
}

/// An error, if any, lies within the body.
pub open spec fn err_within<T>(r: Result<T, ParseError>, len: usize) -> bool {
    r matches Err(e) ==> e.at <= len
}

/// A validator for one regular-expression literal `/body/flags`.
pub struct RegexParser {
    pattern: Vec<char>,
    body: String,
    flag_text: String,
    flags: RegExFlags,
    state: State,
}

impl RegexParser {
    /// The body's characters.
    pub closed spec fn text(&self) -> Seq<char> {
        self.pattern@
    }

    /// What the current pass reads.
    pub closed spec fn ctx(&self) -> Ctx {
        Ctx { text: self.pattern@, u: self.state.u, n: self.state.n }
    }

    /// The current parse state.
    pub closed spec fn scan(&self) -> Scan {
        Scan {
            pos: self.state.pos as int,
            caps: self.state.num_capturing_parens as int,
            max_ref: self.state.max_back_refs as int,
            names: spans(self.pattern@, self.state.group_names@),
            refs: spans(self.pattern@, self.state.back_ref_names@),
        }
    }

    pub closed spec fn wf(&self) -> bool {
        &&& self.pattern@ == self.body@
        &&& self.state.len == self.pattern@.len()
        &&& self.state.pos <= self.state.len
        &&& ranges_within(self.state.group_names@, self.state.len)
        &&& ranges_within(self.state.back_ref_names@, self.state.len)
        &&& self.state.u == self.flags.unicode
        &&& utf8_len(self.pattern@) <= usize::MAX
    }

    /// `other` reads the same input in the same modes.
    pub closed spec fn same_input(&self, other: &Self) -> bool {
        &&& self.pattern@ == other.pattern@
        &&& self.body@ == other.body@
        &&& self.flag_text@ == other.flag_text@
        &&& self.flags == other.flags
        &&& self.state.len == other.state.len
        &&& self.state.u == other.state.u
        &&& self.state.n == other.state.n
    }

    /// `self` follows `old` within one pass: same input, well formed, not behind.
    pub closed spec fn follows(&self, old: &Self) -> bool {
        &&& self.wf()
        &&& self.same_input(old)
        &&& old.state.pos <= self.state.pos
    }

    /// `self` has the group names that `old` had.
    pub closed spec fn keeps_names(&self, old: &Self) -> bool {
        self.state.group_names@ == old.state.group_names@
    }

    /// The character at the position, if any.
    fn current(&self) -> (r: Option<char>)
        requires
            self.wf(),
        ensures
            r == peek(self.ctx(), self.scan()),
    {
        if self.state.pos < self.state.len {
            Some(self.pattern[self.state.pos])
        } else {
            None
        }
    }

    /// Whether the character `k` places ahead is `ch`.
    fn sees(&self, k: usize, ch: char) -> (r: bool)
        requires
            self.wf(),
        ensures
            r == sees(self.ctx(), self.scan(), k as int, ch),
    {
        if k < self.state.len - self.state.pos {
            self.pattern[self.state.pos + k] == ch
        } else {
            false
        }
    }

    fn advance(&mut self)
        requires
            old(self).wf(),
            old(self).state.pos < old(self).state.len,
        ensures
            final(self).keeps_names(old(self)),
            final(self).wf(),
            final(self).same_input(old(self)),
            final(self).scan() == at(old(self).scan(), old(self).scan().pos + 1),
    {
        self.state.pos = self.state.pos + 1;
    }

    fn reset_to(&mut self, idx: usize)
        requires
            old(self).wf(),
            idx <= old(self).state.len,
        ensures
            final(self).keeps_names(old(self)),
            final(self).wf(),
            final(self).same_input(old(self)),
            final(self).scan() == at(old(self).scan(), idx as int),
    {
        self.state.pos = idx;
    }

    /// Consumes `ch` if it is next.
    fn eat(&mut self, ch: char) -> (r: bool)
        requires
            old(self).wf(),
        ensures
            final(self).keeps_names(old(self)),
            final(self).wf(),
            final(self).same_input(old(self)),
            r == sees(old(self).ctx(), old(self).scan(), 0, ch),
            final(self).scan() == (if r {
                at(old(self).scan(), old(self).scan().pos + 1)
            } else {
                old(self).scan()
            }),
    {
        if self.sees(0, ch) {
            self.advance();
            true
        } else {
            false
        }
    }

    /// Syntax characters: `$ ( ) * + . ? [ \ ] ^ { | }`.
    fn is_syntax_ch(ch: char) -> (r: bool)
        ensures
            r == grammar::is_syntax_char(ch),
    {
        ch == '$' || ('(' <= ch && ch <= '+') || ch == '.' || ch == '?' || ('[' <= ch && ch <= '^')
            || ('{' <= ch && ch <= '}')
    }

    /// Any upper or lower case English letter.
    fn is_control_letter(ch: char) -> (r: bool)
        ensures
            r == grammar::is_control_letter(ch),
    {
        ('A' <= ch && ch <= 'Z') || ('a' <= ch && ch <= 'z')
    }

    /// `d D s S w W`.
    fn is_character_class_escape(ch: char) -> (r: bool)
        ensures
            r == grammar::is_class_escape_char(ch),
    {
        ch == 'd' || ch == 'D' || ch == 's' || ch == 'S' || ch == 'w' || ch == 'W'
    }

    /// A letter or `_`.
    fn is_unicode_property_name_character(ch: char) -> (r: bool)
        ensures
            r == grammar::is_property_name_char(ch),
    {
        Self::is_control_letter(ch) || ch == '_'
    }

    /// A letter, `_` or a decimal digit.
    fn is_unicode_property_value_character(ch: char) -> (r: bool)
        ensures
            r == grammar::is_property_value_char(ch),
    {
        Self::is_unicode_property_name_character(ch) || ('0' <= ch && ch <= '9')
    }

    fn is_id_start(ch: char) -> (r: bool)
        ensures
            r == grammar::is_ident_start_char(ch),
    {
        Self::is_control_letter(ch) || ch == '$' || ch == '_' || has_id_start(ch)
    }

    fn is_id_continue(ch: char) -> (r: bool)
        ensures
            r == grammar::is_ident_part_char(ch),
    {
        Self::is_control_letter(ch) || ('0' <= ch && ch <= '9') || ch == '$' || ch == '_'
            || has_id_continue(ch)
    }

    /// The value of `ch` as a digit of base `radix`.
    fn digit_of(ch: char, radix: u32) -> (r: Option<u32>)
        ensures
            r == grammar::digit_value(ch, radix),
    {
        if '0' <= ch && ch <= '9' && (ch as u32 - '0' as u32) < radix {
            Some(ch as u32 - '0' as u32)
        } else if radix == 16 && 'a' <= ch && ch <= 'f' {
            Some(ch as u32 - 'a' as u32 + 10)
        } else if radix == 16 && 'A' <= ch && ch <= 'F' {
            Some(ch as u32 - 'A' as u32 + 10)
        } else {
            None
        }
    }

    /// Consumes one digit of base `radix`, yielding its value.
    fn eat_digit(&mut self, radix: u32) -> (r: Option<u32>)
        requires
            old(self).wf(),
        ensures
            final(self).keeps_names(old(self)),
            final(self).wf(),
            final(self).same_input(old(self)),
            r == (match peek(old(self).ctx(), old(self).scan()) {
                Some(ch) => grammar::digit_value(ch, radix),
                None => None::<u32>,
            }),
            final(self).scan() == (if r is Some {
                at(old(self).scan(), old(self).scan().pos + 1)
            } else {
                old(self).scan()
            }),
    {
        if let Some(next) = self.current() {
            if let Some(n) = Self::digit_of(next, radix) {
                self.advance();
                return Some(n);
            }
        }
        None
    }

    /// Consumes a run of digits of base `radix`, yielding the number they
    /// write (saturating at `u32::MAX`), or nothing where no digit is next.
    fn eat_digits(&mut self, radix: u32) -> (r: Option<u32>)
        requires
            old(self).wf(),
            2 <= radix <= 16,
        ensures
            final(self).keeps_names(old(self)),
            final(self).wf(),
            final(self).same_input(old(self)),
            ({
                let t = old(self).text();
                let p = old(self).scan().pos;
                let e = grammar::digit_run_end(t, p, radix);
                &&& e >= p
                &&& grammar::all_digits(t, p, e, radix)
                &&& if e > p {
                    r == Some(grammar::capped(grammar::digits_value(t, p, e, radix) as int))
                        && final(self).scan() == at(old(self).scan(), e)
                } else {
                    r is None && final(self).scan() == old(self).scan()
                }
            }),
    {
        let start = self.state.pos;
        let mut value: u32 = 0;
        loop
            invariant
                self.keeps_names(old(self)),
                self.wf(),
                self.same_input(old(self)),
                start <= self.state.pos,
                start == old(self).state.pos,
                self.scan() == at(old(self).scan(), self.state.pos as int),
                grammar::digit_run_end(self.text(), start as int, radix)
                    == grammar::digit_run_end(self.text(), self.state.pos as int, radix),
                value == grammar::capped(
                    grammar::digits_value(self.text(), start as int, self.state.pos as int, radix) as int,
                ),
                grammar::all_digits(self.text(), start as int, self.state.pos as int, radix),
                2 <= radix <= 16,
            ensures
                self.keeps_names(old(self)),
                grammar::all_digits(self.text(), start as int, self.state.pos as int, radix),
                self.wf(),
                self.same_input(old(self)),
                start <= self.state.pos,
                start == old(self).state.pos,
                self.scan() == at(old(self).scan(), self.state.pos as int),
                grammar::digit_run_end(self.text(), start as int, radix) == self.state.pos,
                value == grammar::capped(
                    grammar::digits_value(self.text(), start as int, self.state.pos as int, radix) as int,
                ),
            decreases self.state.len - self.state.pos,
        {
            let ghost before = self.state.pos as int;
            match self.eat_digit(radix) {
                Some(n) => {
                    proof {
                        lemma_capped_step(
                            grammar::digits_value(self.text(), start as int, before, radix) as int,
                            value as int,
                            radix as int,
                            n as int,
                        );
                    }
                    value = if value > (u32::MAX - n) / radix {
                        u32::MAX
                    } else {
                        value * radix + n
                    };
                },
                None => {
                    assert(grammar::digit_run_end(self.text(), self.state.pos as int, radix)
                        == self.state.pos);
                    break;
                },
            }
        }
        if self.state.pos != start {
            Some(value)
        } else {
            None
        }
    }

    /// Consumes exactly `len` hex digits, yielding their value; where they are
    /// not all there, consumes nothing.
    fn eat_fixed_hex_digits(&mut self, len: usize) -> (r: Option<u32>)
        requires
            old(self).wf(),
        ensures
            final(self).keeps_names(old(self)),
            final(self).wf(),
            final(self).same_input(old(self)),
            r == grammar::fixed_hex(old(self).text(), old(self).scan().pos, len as int),
            final(self).scan() == (if r is Some {
                at(old(self).scan(), old(self).scan().pos + len)
            } else {
                old(self).scan()
            }),
    {
        let start = self.state.pos;
        let mut value: u32 = 0;
        let mut i: usize = 0;
        while i < len
            invariant
                self.keeps_names(old(self)),
                self.wf(),
                self.same_input(old(self)),
                i <= len,
                self.state.pos == start + i,
                start == old(self).state.pos,
                self.scan() == at(old(self).scan(), self.state.pos as int),
                grammar::all_digits(self.text(), start as int, self.state.pos as int, 16),
                value == grammar::capped(
                    grammar::digits_value(self.text(), start as int, self.state.pos as int, 16) as int,
                ),
            decreases len - i,
        {
            let ghost before = self.state.pos as int;
            match self.eat_digit(16) {
                Some(n) => {
                    proof {
                        lemma_capped_step(
                            grammar::digits_value(self.text(), start as int, before, 16) as int,
                            value as int,
                            16,
                            n as int,
                        );
                    }
                    value = if value > (u32::MAX - n) / 16 {
                        u32::MAX
                    } else {
                        value * 16 + n
                    };
                },
                None => {
                    self.reset_to(start);
                    assert(!grammar::all_digits(self.text(), start as int, start + len, 16)) by {
                        if before < self.text().len() {
                            assert(grammar::digit_value(self.text()[before], 16) is None);
                        }
                    }
                    assert(self.text() == old(self).text());
                    assert(grammar::fixed_hex(old(self).text(), start as int, len as int) is None);
                    return None;
                },
            }
            i = i + 1;
        }
        Some(value)
    }

    /// `\t \n \v \f \r`, yielding the control character.
    fn eat_control_escape(&mut self) -> (r: Option<u32>)
        requires
            old(self).wf(),
        ensures
            final(self).follows(old(self)),
            matches_opt(r, old(self).scan(), final(self).scan(),
                grammar::control_escape(old(self).ctx(), old(self).scan())),
    {
        if let Some(ch) = self.current() {
            let v: u32 = if ch == 't' {
                9
            } else if ch == 'n' {
                10
            } else if ch == 'v' {
                11
            } else if ch == 'f' {
                12
            } else if ch == 'r' {
                13
            } else {
                return None;
            };
            self.advance();
            Some(v)
        } else {
            None
        }
    }

    /// `c` and a letter, as in `/\cI/`: the letter's code modulo 32.
    fn eat_c_control_letter(&mut self) -> (r: Option<u32>)
        requires
            old(self).wf(),
        ensures
            final(self).follows(old(self)),
            matches_opt(r, old(self).scan(), final(self).scan(),
                grammar::c_control_letter(old(self).ctx(), old(self).scan())),
    {
        let start = self.state.pos;
        if self.eat('c') {
            if let Some(v) = self.eat_control_letter() {
                return Some(v);
            }
            self.reset_to(start);
        }
        None
    }

    /// A letter, yielding its code modulo 32.
    fn eat_control_letter(&mut self) -> (r: Option<u32>)
        requires
            old(self).wf(),
        ensures
            final(self).follows(old(self)),
            ({
                let c = old(self).ctx();
                let s = old(self).scan();
                match peek(c, s) {
                    Some(ch) => if grammar::is_control_letter(ch) {
                        r == Some((ch as u32 % 32) as u32) && final(self).scan() == at(s, s.pos + 1)
                    } else {
                        r is None && final(self).scan() == s
                    },
                    None => r is None && final(self).scan() == s,
                }
            }),
    {
        if let Some(next) = self.current() {
            if Self::is_control_letter(next) {
                let n = next as u32;
                self.advance();
                return Some(n % 0x20);
            }
        }
        None
    }

    /// `0`.
    fn eat_zero(&mut self) -> (r: Option<u32>)
        requires
            old(self).wf(),
        ensures
            final(self).follows(old(self)),
            matches_opt(r, old(self).scan(), final(self).scan(),
                grammar::zero_escape(old(self).ctx(), old(self).scan())),
    {
        if self.eat('0') {
            Some(0)
        } else {
            None
        }
    }

    /// `x` and two hex digits.
    fn eat_hex_escape_sequence(&mut self) -> (r: Result<Option<u32>, ParseError>)
        requires
            old(self).wf(),
        ensures
            final(self).follows(old(self)),
            err_within(r, old(self).state.len),
            matches(r, old(self).scan(), final(self).scan(),
                grammar::hex_escape_sequence(old(self).ctx(), old(self).scan())),
    {
        let start = self.state.pos;
        if self.eat('x') {
            if let Some(v) = self.eat_fixed_hex_digits(2) {
                return Ok(Some(v));
            }
            if self.state.u {
                return Err(ParseError { kind: ErrorKind::InvalidEscape, at: start });
            }
            self.reset_to(start);
        }
        Ok(None)
    }

    /// A legacy octal escape of one to three digits.
    fn eat_legacy_octal_escape_sequence(&mut self) -> (r: Option<u32>)
        requires
            old(self).wf(),
        ensures
            final(self).follows(old(self)),
            matches_opt(r, old(self).scan(), final(self).scan(),
                grammar::legacy_octal_escape_sequence(old(self).ctx(), old(self).scan())),
    {
        if let Some(n1) = self.eat_digit(8) {
            let value = if let Some(n2) = self.eat_digit(8) {
                if n1 <= 3 {
                    if let Some(n3) = self.eat_digit(8) {
                        n1 * 64 + n2 * 8 + n3
                    } else {
                        n1 * 8 + n2
                    }
                } else {
                    n1 * 8 + n2
                }
            } else {
                n1
            };
            return Some(value);
        }
        None
    }

    /// A syntax character, yielding its code.
    fn eat_syntax_character(&mut self) -> (r: Option<u32>)
        requires
            old(self).wf(),
        ensures
            final(self).follows(old(self)),
            ({
                let s = old(self).scan();
                match peek(old(self).ctx(), s) {
                    Some(ch) => if grammar::is_syntax_char(ch) {
                        r == Some(ch as u32) && final(self).scan() == at(s, s.pos + 1)
                    } else {
                        r is None && final(self).scan() == s
                    },
                    None => r is None && final(self).scan() == s,
                }
            }),
    {
        if let Some(ch) = self.current() {
            if Self::is_syntax_ch(ch) {
                self.advance();
                return Some(ch as u32);
            }
        }
        None
    }

    /// An escaped character that stands for itself.
    fn eat_identity_escape(&mut self) -> (r: Option<Option<u32>>)
        requires
            old(self).wf(),
        ensures
            final(self).follows(old(self)),
            matches_opt(r, old(self).scan(), final(self).scan(),
                grammar::identity_escape(old(self).ctx(), old(self).scan())),
    {
        if self.state.u {
            if let Some(v) = self.eat_syntax_character() {
                return Some(Some(v));
            }
            if self.eat('/') {
                return Some(Some(0x2f));
            }
            return None;
        }
        if let Some(ch) = self.current() {
            if ch != 'c' && (!self.state.n || ch != 'k') {
                self.advance();
                Some(Some(ch as u32))
            } else {
                None
            }
        } else {
            Some(None)
        }
    }

    /// `u` and four hex digits (with a following trail surrogate in Unicode
    /// mode), or in Unicode mode `u{...}`, as in `/\u{61}b/u`.
    fn eat_unicode_escape_sequence(&mut self) -> (r: Result<Option<u32>, ParseError>)
        requires
            old(self).wf(),
        ensures
            final(self).keeps_names(old(self)),
            final(self).follows(old(self)),
            err_within(r, old(self).state.len),
            matches(r, old(self).scan(), final(self).scan(),
                grammar::unicode_escape_sequence(old(self).ctx(), old(self).scan())),
    {
        let start = self.state.pos;
        if !self.eat('u') {
            return Ok(None);
        }
        if let Some(lead) = self.eat_fixed_hex_digits(4) {
            if self.state.u && 0xD800 <= lead && lead <= 0xDBFF {
                let lead_end = self.state.pos;
                if self.eat('\\') && self.eat('u') {
                    if let Some(tail) = self.eat_fixed_hex_digits(4) {
                        if 0xDC00 <= tail && tail <= 0xDFFF {
                            return Ok(Some((lead - 0xD800) * 0x400 + (tail - 0xDC00) + 0x10000));
                        }
                    }
                }
                self.reset_to(lead_end);
            }
            return Ok(Some(lead));
        }
        if !self.state.u {
            self.reset_to(start);
            return Ok(None);
        }
        if self.eat('{') {
            if let Some(v) = self.eat_digits(16) {
                if self.eat('}') && v <= 0x10FFFF {
                    return Ok(Some(v));
                }
            }
        }
        Err(ParseError { kind: ErrorKind::InvalidUnicodeEscape, at: self.state.pos })
    }

    /// An escape that stands for one character: a control escape, `\cX`,
    /// `\0`, `\xHH`, a `\u` escape, a legacy octal escape (legacy mode), or an
    /// identity escape.
    fn eat_character_escape(&mut self) -> (r: Result<Option<Option<u32>>, ParseError>)
        requires
            old(self).wf(),
        ensures
            final(self).follows(old(self)),
            err_within(r, old(self).state.len),
            matches(r, old(self).scan(), final(self).scan(),
                grammar::character_escape(old(self).ctx(), old(self).scan())),
    {
        if let Some(v) = self.eat_control_escape() {
            return Ok(Some(Some(v)));
        }
        if let Some(v) = self.eat_c_control_letter() {
            return Ok(Some(Some(v)));
        }
        if let Some(v) = self.eat_zero() {
            return Ok(Some(Some(v)));
        }
        if let Some(v) = self.eat_hex_escape_sequence()? {
            return Ok(Some(Some(v)));
        }
        if let Some(v) = self.eat_unicode_escape_sequence()? {
            return Ok(Some(Some(v)));
        }
        if !self.state.u {
            if let Some(v) = self.eat_legacy_octal_escape_sequence() {
                return Ok(Some(Some(v)));
            }
        }
        Ok(self.eat_identity_escape())
    }

    /// A run of digits after `\`, yielding the number it writes.
    fn eat_decimal_escape(&mut self) -> (r: Option<u32>)
        requires
            old(self).wf(),
        ensures
            final(self).follows(old(self)),
            ({
                let t = old(self).text();
                let p = old(self).scan().pos;
                let e = grammar::digit_run_end(t, p, 10);
                &&& e >= p
                &&& if e > p {
                    r == Some(grammar::capped(grammar::digits_value(t, p, e, 10) as int))
                        && final(self).scan() == at(old(self).scan(), e)
                } else {
                    r is None && final(self).scan() == old(self).scan()
                }
            }),
    {
        self.eat_digits(10)
    }

    /// A numeric back-reference, as in `/(abc)\1/`.
    fn eat_back_ref(&mut self) -> (r: bool)
        requires
            old(self).wf(),
        ensures
            final(self).follows(old(self)),
            matches_flag(r, old(self).scan(), final(self).scan(),
                grammar::back_ref(old(self).ctx(), old(self).scan())),
    {
        let start = self.state.pos;
        if let Some(n) = self.eat_decimal_escape() {
            if self.state.u {
                if n > self.state.max_back_refs {
                    self.state.max_back_refs = n;
                }
                return true;
            }
            if n <= self.state.num_capturing_parens {
                return true;
            }
            self.reset_to(start);
        }
        false
    }

    /// A run of property-name characters; whether it was not empty.
    fn eat_unicode_property_name(&mut self) -> (r: bool)
        requires
            old(self).wf(),
        ensures
            final(self).follows(old(self)),
            ({
                let e = grammar::name_run_end(old(self).text(), old(self).scan().pos);
                &&& e >= old(self).scan().pos
                &&& final(self).scan() == at(old(self).scan(), e)
                &&& r == (e > old(self).scan().pos)
            }),
    {
        let start = self.state.pos;
        loop
            invariant
                self.follows(old(self)),
                start == old(self).state.pos,
                self.scan() == at(old(self).scan(), self.state.pos as int),
                grammar::name_run_end(self.text(), start as int)
                    == grammar::name_run_end(self.text(), self.state.pos as int),
            ensures
                self.follows(old(self)),
                self.scan() == at(old(self).scan(), self.state.pos as int),
                grammar::name_run_end(self.text(), start as int) == self.state.pos,
            decreases self.state.len - self.state.pos,
        {
            match self.current() {
                Some(ch) => if Self::is_unicode_property_name_character(ch) {
                    self.advance();
                } else {
                    break;
                },
                None => break,
            }
        }
        self.state.pos != start
    }

    /// A run of property-value characters; whether it was not empty.
    fn eat_unicode_property_value(&mut self) -> (r: bool)
        requires
            old(self).wf(),
        ensures
            final(self).follows(old(self)),
            ({
                let e = grammar::value_run_end(old(self).text(), old(self).scan().pos);
                &&& e >= old(self).scan().pos
                &&& final(self).scan() == at(old(self).scan(), e)
                &&& r == (e > old(self).scan().pos)
            }),
    {
        let start = self.state.pos;
        loop
            invariant
                self.follows(old(self)),
                start == old(self).state.pos,
                self.scan() == at(old(self).scan(), self.state.pos as int),
                grammar::value_run_end(self.text(), start as int)
                    == grammar::value_run_end(self.text(), self.state.pos as int),
            ensures
                self.follows(old(self)),
                self.scan() == at(old(self).scan(), self.state.pos as int),
                grammar::value_run_end(self.text(), start as int) == self.state.pos,
            decreases self.state.len - self.state.pos,
        {
            match self.current() {
                Some(ch) => if Self::is_unicode_property_value_character(ch) {
                    self.advance();
                } else {
                    break;
                },
                None => break,
            }
        }
        self.state.pos != start
    }

    /// A value standing alone in `\p{...}`.
    fn eat_lone_unicode_property_name_or_value(&mut self) -> (r: bool)
        requires
            old(self).wf(),
        ensures
            final(self).follows(old(self)),
            ({
                let e = grammar::value_run_end(old(self).text(), old(self).scan().pos);
                &&& e >= old(self).scan().pos
                &&& final(self).scan() == at(old(self).scan(), e)
                &&& r == (e > old(self).scan().pos)
            }),
    {
        self.eat_unicode_property_value()
    }

    /// The body text of the characters `a..b`.
    fn slice(&self, a: usize, b: usize) -> (r: &str)
        requires
            self.wf(),
            a <= b <= self.state.len,
        ensures
            r@ == self.text().subrange(a as int, b as int),
    {
        self.body.as_str().substring_char(a, b)
    }

    /// Checks the pair `name=value` (character ranges) against the property tables.
    fn validate_unicode_property_name_and_value(&self, name: (usize, usize), value: (usize, usize)) -> (r: Result<(), ParseError>)
        requires
            self.wf(),
            name.0 <= name.1 <= self.state.len,
            value.0 <= value.1 <= self.state.len,
        ensures
            r is Ok <==> crate::unicode::is_property_pair(
                self.text().subrange(name.0 as int, name.1 as int),
                self.text().subrange(value.0 as int, value.1 as int),
            ),
            r matches Err(e) ==> e == grammar::error_at(
                ErrorKind::InvalidPropertyNameAndValue(name.0, name.1, value.0, value.1),
                self.scan(),
            ),
    {
        if unicode::validate_name_and_value(self.slice(name.0, name.1), self.slice(value.0, value.1)) {
            Ok(())
        } else {
            Err(
                ParseError {
                    kind: ErrorKind::InvalidPropertyNameAndValue(name.0, name.1, value.0, value.1),
                    at: self.state.pos,
                },
            )
        }
    }

    /// Checks a lone value (a character range) against the property tables.
    fn validate_unicode_property_name_or_value(&self, name_or_value: (usize, usize)) -> (r: Result<(), ParseError>)
        requires
            self.wf(),
            name_or_value.0 <= name_or_value.1 <= self.state.len,
        ensures
            r is Ok <==> crate::unicode::is_lone_property(
                self.text().subrange(name_or_value.0 as int, name_or_value.1 as int),
            ),
            r matches Err(e) ==> e == grammar::error_at(
                ErrorKind::InvalidPropertyNameOrValue(name_or_value.0, name_or_value.1),
                self.scan(),
            ),
    {
        if unicode::validate_name_or_value(self.slice(name_or_value.0, name_or_value.1)) {
            Ok(())
        } else {
            Err(
                ParseError {
                    kind: ErrorKind::InvalidPropertyNameOrValue(name_or_value.0, name_or_value.1),
                    at: self.state.pos,
                },
            )
        }
    }

    /// The body of `\p{...}`: `name=value` or a lone value, each checked.
    fn eat_unicode_property_value_expression(&mut self) -> (r: Result<bool, ParseError>)
        requires
            old(self).wf(),
        ensures
            final(self).follows(old(self)),
            err_within(r, old(self).state.len),
            matches_bool(r, old(self).scan(), final(self).scan(),
                grammar::property_expression(old(self).ctx(), old(self).scan())),
    {
        let start = self.state.pos;
        if self.eat_unicode_property_name() {
            let name_end = self.state.pos;
            if self.eat('=') {
                if self.eat_unicode_property_value() {
                    self.validate_unicode_property_name_and_value(
                        (start, name_end),
                        (name_end + 1, self.state.pos),
                    )?;
                    return Ok(true);
                }
            }
        }
        self.reset_to(start);
        if self.eat_lone_unicode_property_name_or_value() {
            self.validate_unicode_property_name_or_value((start, self.state.pos))?;
            return Ok(true);
        }
        Ok(false)
    }

    /// `\d \D \s \S \w \W`, and in Unicode mode `\p{...}` and `\P{...}`.
    fn eat_character_class_escape(&mut self) -> (r: Result<bool, ParseError>)
        requires
            old(self).wf(),
        ensures
            final(self).follows(old(self)),
            err_within(r, old(self).state.len),
            matches_bool(r, old(self).scan(), final(self).scan(),
                grammar::character_class_escape(old(self).ctx(), old(self).scan())),
    {
        if let Some(next) = self.current() {
            if Self::is_character_class_escape(next) {
                self.advance();
                return Ok(true);
            }
            if self.state.u && (next == 'P' || next == 'p') {
                self.advance();
                if self.eat('{') && self.eat_unicode_property_value_expression()? && self.eat('}') {
                    return Ok(true);
                }
                return Err(ParseError { kind: ErrorKind::InvalidPropertyName, at: self.state.pos });
            }
        }
        Ok(false)
    }

    /// One character of an identifier, written plainly or as a `\u` escape;
    /// `start` chooses the start or the part property.
    fn eat_ident_char(&mut self, start_char: bool) -> (r: Result<bool, ParseError>)
        requires
            old(self).wf(),
        ensures
            final(self).keeps_names(old(self)),
            final(self).follows(old(self)),
            err_within(r, old(self).state.len),
            matches_bool(r, old(self).scan(), final(self).scan(),
                grammar::ident_char(old(self).ctx(), old(self).scan(), start_char)),
            r == Ok::<bool, ParseError>(true) ==> old(self).state.pos < final(self).state.pos,
    {
        let start = self.state.pos;
        let mut ch = if let Some(ch) = self.current() {
            ch
        } else {
            return Ok(false);
        };
        self.advance();
        if ch == '\\' {
            if let Some(n) = self.eat_unicode_escape_sequence()? {
                if let Some(n) = char_from_u32(n) {
                    ch = n;
                }
            }
        }
        let ok = if start_char {
            Self::is_id_start(ch)
        } else {
            Self::is_id_continue(ch)
        };
        if ok {
            return Ok(true);
        }
        self.reset_to(start);
        Ok(false)
    }

    /// The first character of an identifier.
    fn eat_ident_start(&mut self) -> (r: Result<bool, ParseError>)
        requires
            old(self).wf(),
        ensures
            final(self).keeps_names(old(self)),
            final(self).follows(old(self)),
            err_within(r, old(self).state.len),
            matches_bool(r, old(self).scan(), final(self).scan(),
                grammar::ident_start(old(self).ctx(), old(self).scan())),
    {
        self.eat_ident_char(true)
    }

    /// A further character of an identifier.
    fn eat_ident_part(&mut self) -> (r: Result<bool, ParseError>)
        requires
            old(self).wf(),
        ensures
            final(self).keeps_names(old(self)),
            final(self).follows(old(self)),
            err_within(r, old(self).state.len),
            matches_bool(r, old(self).scan(), final(self).scan(),
                grammar::ident_part(old(self).ctx(), old(self).scan())),
            r == Ok::<bool, ParseError>(true) ==> old(self).state.pos < final(self).state.pos,
    {
        self.eat_ident_char(false)
    }

    /// An identifier, yielding the range it spans.
    fn eat_regex_identifier_name(&mut self) -> (r: Result<Option<(usize, usize)>, ParseError>)
        requires
            old(self).wf(),
        ensures
            final(self).keeps_names(old(self)),
            final(self).follows(old(self)),
            err_within(r, old(self).state.len),
            matches_name(r, old(self).text(), old(self).scan(), final(self).scan(),
                grammar::identifier_name(old(self).ctx(), old(self).scan())),
    {
        let start = self.state.pos;
        if !self.eat_ident_start()? {
            return Ok(None);
        }
        let ghost s1 = self.scan();
        loop
            invariant
                self.keeps_names(old(self)),
                self.follows(old(self)),
                start == old(self).state.pos,
                grammar::ident_start(old(self).ctx(), old(self).scan()) == Step::<()>::Yes((), s1),
                grammar::ident_parts(self.ctx(), s1) == grammar::ident_parts(self.ctx(), self.scan()),
            ensures
                self.keeps_names(old(self)),
                self.follows(old(self)),
                grammar::ident_parts(self.ctx(), s1) == Outcome::Ok(self.scan()),
            decreases self.state.len - self.state.pos,
        {
            let ghost before = self.scan();
            match self.eat_ident_part() {
                Err(e) => {
                    assert(grammar::ident_parts(self.ctx(), before) == Outcome::Err(e));
                    return Err(e);
                },
                Ok(false) => {
                    break;
                },
                Ok(true) => {},
            }
        }
        Ok(Some((start, self.state.pos)))
    }

    /// `<name>`, yielding the range of the name.
    fn eat_group_name(&mut self) -> (r: Result<Option<(usize, usize)>, ParseError>)
        requires
            old(self).wf(),
        ensures
            final(self).keeps_names(old(self)),
            final(self).follows(old(self)),
            err_within(r, old(self).state.len),
            matches_name(r, old(self).text(), old(self).scan(), final(self).scan(),
                grammar::group_name(old(self).ctx(), old(self).scan())),
    {
        if self.eat('<') {
            if let Some(name) = self.eat_regex_identifier_name()? {
                if self.eat('>') {
                    return Ok(Some(name));
                }
            }
            return Err(ParseError { kind: ErrorKind::InvalidCaptureGroupName, at: self.state.pos });
        }
        Ok(None)
    }

    /// `k<name>`, recording the name to be checked once the whole pattern is read.
    fn eat_k_group_name(&mut self) -> (r: Result<bool, ParseError>)
        requires
            old(self).wf(),
        ensures
            final(self).follows(old(self)),
            err_within(r, old(self).state.len),
            matches_bool(r, old(self).scan(), final(self).scan(),
                grammar::k_group_name(old(self).ctx(), old(self).scan())),
    {
        if self.eat('k') {
            if let Some(name) = self.eat_group_name()? {
                let ghost before = self.state.back_ref_names@;
                self.state.back_ref_names.push(name);
                assert(spans(self.pattern@, self.state.back_ref_names@) =~= spans(
                    self.pattern@,
                    before,
                ).push(self.pattern@.subrange(name.0 as int, name.1 as int)));
                return Ok(true);
            }
            return Err(ParseError { kind: ErrorKind::InvalidNamedReference, at: self.state.pos });
        }
        Ok(false)
    }

    /// What follows `\` in an atom: a back-reference, a class escape, a
    /// character escape, or in named-group mode `k<name>`. In Unicode mode
    /// anything else is an error.
    fn eat_atom_escape(&mut self) -> (r: Result<bool, ParseError>)
        requires
            old(self).wf(),
        ensures
            final(self).follows(old(self)),
            err_within(r, old(self).state.len),
            matches_bool(r, old(self).scan(), final(self).scan(),
                grammar::atom_escape(old(self).ctx(), old(self).scan())),
    {
        if self.eat_back_ref() || self.eat_character_class_escape()? || self.eat_character_escape()?.is_some()
            || (self.state.n && self.eat_k_group_name()?) {
            return Ok(true);
        }
        if self.state.u {
            if let Some(next) = self.current() {
                if next == 'c' {
                    return Err(ParseError { kind: ErrorKind::InvalidUnicodeEscape, at: self.state.pos });
                }
            }
            return Err(ParseError { kind: ErrorKind::InvalidEscape, at: self.state.pos });
        }
        Ok(false)
    }

    /// `\` and an atom escape.
    fn eat_reverse_solidus_atom_escape(&mut self) -> (r: Result<bool, ParseError>)
        requires
            old(self).wf(),
        ensures
            final(self).follows(old(self)),
            err_within(r, old(self).state.len),
            matches_bool(r, old(self).scan(), final(self).scan(),
                grammar::reverse_solidus_atom_escape(old(self).ctx(), old(self).scan())),
            r == Ok::<bool, ParseError>(true) ==> old(self).state.pos < final(self).state.pos,
    {
        let start = self.state.pos;
        if self.eat('\\') {
            if self.eat_atom_escape()? {
                return Ok(true);
            }
            self.reset_to(start);
        }
        Ok(false)
    }

    /// A digit or `_` after `\c` in a class: its code modulo 32.
    fn eat_class_control_letter(&mut self) -> (r: Option<u32>)
        requires
            old(self).wf(),
        ensures
            final(self).follows(old(self)),
            matches_opt(r, old(self).scan(), final(self).scan(),
                grammar::class_control_letter(old(self).ctx(), old(self).scan())),
    {
        if let Some(ch) = self.current() {
            if ('0' <= ch && ch <= '9') || ch == '_' {
                let n = ch as u32;
                self.advance();
                return Some(n % 0x20);
            }
        }
        None
    }

    /// What may follow `\` in a class, yielding the character's value where
    /// it stands for one character.
    fn eat_class_escape(&mut self) -> (r: Result<Option<Option<u32>>, ParseError>)
        requires
            old(self).wf(),
        ensures
            final(self).follows(old(self)),
            err_within(r, old(self).state.len),
            matches(r, old(self).scan(), final(self).scan(),
                grammar::class_escape(old(self).ctx(), old(self).scan())),
    {
        let start = self.state.pos;
        if self.eat('b') {
            return Ok(Some(Some(0x08)));
        }
        if self.state.u && self.eat('-') {
            return Ok(Some(Some(0x2D)));
        }
        if self.state.u && self.eat('c') {
            if let Some(v) = self.eat_class_control_letter() {
                return Ok(Some(Some(v)));
            }
            self.reset_to(start);
        }
        if self.eat_character_class_escape()? {
            return Ok(Some(None));
        }
        self.eat_character_escape()
    }

    /// One class atom, yielding the character's value where it stands for one.
    fn eat_class_atom(&mut self) -> (r: Result<Option<Option<u32>>, ParseError>)
        requires
            old(self).wf(),
        ensures
            final(self).follows(old(self)),
            err_within(r, old(self).state.len),
            matches(r, old(self).scan(), final(self).scan(),
                grammar::class_atom(old(self).ctx(), old(self).scan())),
            r matches Ok(Some(_)) ==> old(self).state.pos < final(self).state.pos,
    {
        let start = self.state.pos;
        if self.eat('\\') {
            if let Some(v) = self.eat_class_escape()? {
                return Ok(Some(v));
            }
            if self.state.u {
                if let Some(ch) = self.current() {
                    if ch == 'c' || Self::digit_of(ch, 8).is_some() {
                        return Err(ParseError { kind: ErrorKind::InvalidClassEscape, at: self.state.pos });
                    }
                    return Err(ParseError { kind: ErrorKind::InvalidEscape, at: self.state.pos });
                }
            }
            self.reset_to(start);
        }
        if let Some(ch) = self.current() {
            if ch != ']' {
                self.advance();
                return Ok(Some(Some(ch as u32)));
            }
        }
        Ok(None)
    }

    /// Class atoms and ranges up to the closing `]`, as in `/[a-z_]/`.
    fn class_ranges(&mut self) -> (r: Result<(), ParseError>)
        requires
            old(self).wf(),
        ensures
            final(self).follows(old(self)),
            err_within(r, old(self).state.len),
            matches_outcome(r, final(self).scan(),
                grammar::class_ranges(old(self).ctx(), old(self).scan())),
    {
        loop
            invariant
                self.follows(old(self)),
                grammar::class_ranges(old(self).ctx(), old(self).scan())
                    == grammar::class_ranges(self.ctx(), self.scan()),
            ensures
                self.follows(old(self)),
                grammar::class_ranges(old(self).ctx(), old(self).scan()) == Outcome::Ok(self.scan()),
            decreases self.state.len - self.state.pos,
        {
            let ghost s0 = self.scan();
            let left = match self.eat_class_atom() {
                Err(e) => {
                    return Err(e);
                },
                Ok(None) => {
                    break;
                },
                Ok(Some(v)) => v,
            };
            if self.eat('-') {
                let ghost s2 = self.scan();
                match self.eat_class_atom() {
                    Err(e) => {
                        return Err(e);
                    },
                    Ok(None) => {
                        assert(grammar::class_ranges(self.ctx(), s0) == grammar::class_ranges(self.ctx(), s2));
                    },
                    Ok(Some(right)) => {
                        if self.state.u && (left.is_none() || right.is_none()) {
                            return Err(ParseError { kind: ErrorKind::InvalidCharacterClass, at: self.state.pos });
                        }
                        if let (Some(l), Some(r)) = (left, right) {
                            if l > r {
                                return Err(
                                    ParseError { kind: ErrorKind::RangeOutOfOrder(l, r), at: self.state.pos },
                                );
                            }
                        }
                    },
                }
            }
        }
        Ok(())
    }

    /// `[`, an optional `^`, class ranges, `]`.
    fn eat_character_class(&mut self) -> (r: Result<bool, ParseError>)
        requires
            old(self).wf(),
        ensures
            final(self).follows(old(self)),
            err_within(r, old(self).state.len),
            matches_bool(r, old(self).scan(), final(self).scan(),
                grammar::character_class(old(self).ctx(), old(self).scan())),
            r == Ok::<bool, ParseError>(true) ==> old(self).state.pos < final(self).state.pos,
    {
        if self.eat('[') {
            self.eat('^');
            self.class_ranges()?;
            if self.eat(']') {
                Ok(true)
            } else {
                Err(ParseError { kind: ErrorKind::UnterminatedCharacterClass, at: self.state.pos })
            }
        } else {
            Ok(false)
        }
    }

    /// A braced quantifier `{min}`, `{min,}` or `{min,max}`, as in `/a{1,100}/`.
    /// Unless `no_error`, `max < min` is an error, and so in Unicode mode is a
    /// `{` that does not complete one.
    fn eat_braced_quantifier(&mut self, no_error: bool) -> (r: Result<bool, ParseError>)
        requires
            old(self).wf(),
        ensures
            final(self).follows(old(self)),
            err_within(r, old(self).state.len),
            matches_bool(r, old(self).scan(), final(self).scan(),
                grammar::braced_quantifier(old(self).ctx(), old(self).scan(), no_error)),
    {
        let start = self.state.pos;
        if self.eat('{') {
            let min_start = self.state.pos;
            if let Some(min) = self.eat_digits(10) {
                let min_end = self.state.pos;
                let max = if self.eat(',') {
                    let max_start = self.state.pos;
                    match self.eat_digits(10) {
                        Some(v) => Some((v, max_start, self.state.pos)),
                        None => None,
                    }
                } else {
                    None
                };
                if self.eat('}') {
                    if let Some((max, max_start, max_end)) = max {
                        if !no_error && self.digits_less(max_start, max_end, min_start, min_end) {
                            return Err(
                                ParseError { kind: ErrorKind::NumbersOutOfOrder(min, max), at: self.state.pos },
                            );
                        }
                    }
                    return Ok(true);
                }
            }
            if self.state.u && !no_error {
                return Err(ParseError { kind: ErrorKind::IncompleteQuantifier, at: self.state.pos });
            }
            self.reset_to(start);
        }
        Ok(false)
    }

    /// `*`, `+`, `?` or a braced quantifier.
    fn eat_quantifier_prefix(&mut self, no_error: bool) -> (r: Result<bool, ParseError>)
        requires
            old(self).wf(),
        ensures
            final(self).follows(old(self)),
            err_within(r, old(self).state.len),
            matches_bool(r, old(self).scan(), final(self).scan(),
                grammar::quantifier_prefix(old(self).ctx(), old(self).scan(), no_error)),
    {
        let ret = self.eat('*') || self.eat('+') || self.eat('?') || self.eat_braced_quantifier(no_error)?;
        Ok(ret)
    }

    /// A quantifier, as in `/s*p+q?a{1}b{1,2}/`, with an optional lazy `?`.
    fn eat_quantifier(&mut self, no_error: bool) -> (r: Result<bool, ParseError>)
        requires
            old(self).wf(),
        ensures
            final(self).follows(old(self)),
            err_within(r, old(self).state.len),
            matches_bool(r, old(self).scan(), final(self).scan(),
                grammar::quantifier(old(self).ctx(), old(self).scan(), no_error)),
    {
        Ok(
            if self.eat_quantifier_prefix(no_error)? {
                self.eat('?');
                true
            } else {
                false
            },
        )
    }

    /// A run of non-syntax characters.
    fn eat_pattern_characters(&mut self) -> (r: bool)
        requires
            old(self).wf(),
        ensures
            final(self).follows(old(self)),
            matches_flag(r, old(self).scan(), final(self).scan(),
                grammar::pattern_characters(old(self).ctx(), old(self).scan())),
            r ==> old(self).state.pos < final(self).state.pos,
    {
        let start = self.state.pos;
        loop
            invariant
                self.follows(old(self)),
                start == old(self).state.pos,
                self.scan() == at(old(self).scan(), self.state.pos as int),
                grammar::plain_run_end(self.text(), start as int)
                    == grammar::plain_run_end(self.text(), self.state.pos as int),
            ensures
                self.follows(old(self)),
                self.scan() == at(old(self).scan(), self.state.pos as int),
                grammar::plain_run_end(self.text(), start as int) == self.state.pos,
            decreases self.state.len - self.state.pos,
        {
            match self.current() {
                Some(next) => if !Self::is_syntax_ch(next) {
                    self.advance();
                } else {
                    break;
                },
                None => break,
            }
        }
        self.state.pos != start
    }

    /// One character that legacy mode takes literally, such as `)` or `]`.
    fn eat_extended_pattern_character(&mut self) -> (r: bool)
        requires
            old(self).wf(),
        ensures
            final(self).follows(old(self)),
            matches_flag(r, old(self).scan(), final(self).scan(),
                grammar::extended_pattern_character(old(self).ctx(), old(self).scan())),
            r ==> old(self).state.pos < final(self).state.pos,
    {
        if let Some(ch) = self.current() {
            if ch != '$' && !('(' <= ch && ch <= '+') && ch != '.' && ch != '?' && ch != '[' && ch
                != '^' && ch != '|' {
                self.advance();
                return true;
            }
        }
        false
    }

    /// A braced quantifier where an atom should stand: nothing to repeat.
    fn eat_invalid_braced_quantifier(&mut self) -> (r: Result<bool, ParseError>)
        requires
            old(self).wf(),
        ensures
            final(self).follows(old(self)),
            err_within(r, old(self).state.len),
            matches_bool(r, old(self).scan(), final(self).scan(),
                grammar::invalid_braced_quantifier(old(self).ctx(), old(self).scan())),
            r is Ok ==> r == Ok::<bool, ParseError>(false),
    {
        if self.eat_braced_quantifier(true)? {
            return Err(ParseError { kind: ErrorKind::NothingToRepeat, at: self.state.pos });
        }
        Ok(false)
    }

    /// Whether the names spelled by ranges `a` and `b` are the same.
    fn same_name(&self, a: (usize, usize), b: (usize, usize)) -> (r: bool)
        requires
            self.wf(),
            a.0 <= a.1 <= self.state.len,
            b.0 <= b.1 <= self.state.len,
        ensures
            r == (self.text().subrange(a.0 as int, a.1 as int) == self.text().subrange(
                b.0 as int,
                b.1 as int,
            )),
    {
        let t = Ghost(self.text());
        if a.1 - a.0 != b.1 - b.0 {
            assert(t@.subrange(a.0 as int, a.1 as int).len() != t@.subrange(b.0 as int, b.1 as int).len());
            return false;
        }
        let n = a.1 - a.0;
        let mut i: usize = 0;
        while i < n
            invariant
                self.wf(),
                t@ == self.text(),
                n == a.1 - a.0,
                n == b.1 - b.0,
                a.0 <= a.1 <= self.state.len,
                b.0 <= b.1 <= self.state.len,
                i <= n,
                forall|j: int| 0 <= j < i ==> #[trigger] t@[a.0 + j] == t@[b.0 + j],
            decreases n - i,
        {
            if self.pattern[a.0 + i] != self.pattern[b.0 + i] {
                assert(t@.subrange(a.0 as int, a.1 as int)[i as int] != t@.subrange(
                    b.0 as int,
                    b.1 as int,
                )[i as int]);
                return false;
            }
            i = i + 1;
        }
        assert forall|k: int| 0 <= k < n implies #[trigger] t@.subrange(a.0 as int, a.1 as int)[k]
            == t@.subrange(b.0 as int, b.1 as int)[k] by {
            assert(t@[a.0 + k] == t@[b.0 + k]);
        }
        assert(t@.subrange(a.0 as int, a.1 as int) =~= t@.subrange(b.0 as int, b.1 as int));
        true
    }

    /// Whether a group with the name spelled by `name` is declared.
    fn has_group_name(&self, name: (usize, usize)) -> (r: bool)
        requires
            self.wf(),
            name.0 <= name.1 <= self.state.len,
        ensures
            r == self.scan().names.contains(self.text().subrange(name.0 as int, name.1 as int)),
    {
        let ghost target = self.text().subrange(name.0 as int, name.1 as int);
        let mut i: usize = 0;
        while i < self.state.group_names.len()
            invariant
                self.wf(),
                name.0 <= name.1 <= self.state.len,
                target == self.text().subrange(name.0 as int, name.1 as int),
                i <= self.state.group_names@.len(),
                forall|j: int| 0 <= j < i ==> self.scan().names[j] != target,
            decreases self.state.group_names@.len() - i,
        {
            let g = self.state.group_names[i];
            if self.same_name(g, name) {
                assert(self.scan().names[i as int] == target);
                return true;
            }
            i = i + 1;
        }
        assert(!self.scan().names.contains(target)) by {
            if self.scan().names.contains(target) {
                let j = choose|j: int| 0 <= j < self.scan().names.len() && self.scan().names[j] == target;
                assert(self.scan().names[j] != target);
            }
        }
        false
    }

    /// After `(`: an optional `?<name>`, whose name must be new.
    fn group_specifier(&mut self) -> (r: Result<(), ParseError>)
        requires
            old(self).wf(),
        ensures
            final(self).follows(old(self)),
            err_within(r, old(self).state.len),
            matches_outcome(r, final(self).scan(),
                grammar::group_specifier(old(self).ctx(), old(self).scan())),
            r is Err ==> final(self).keeps_names(old(self)) && final(self).names() == old(self).names(),
    {
        if self.eat('?') {
            if let Some(name) = self.eat_group_name()? {
                if self.has_group_name(name) {
                    return Err(ParseError { kind: ErrorKind::DuplicateCaptureGroupName, at: self.state.pos });
                }
                let ghost before = self.state.group_names@;
                self.state.group_names.push(name);
                assert(spans(self.pattern@, self.state.group_names@) =~= spans(
                    self.pattern@,
                    before,
                ).push(self.pattern@.subrange(name.0 as int, name.1 as int)));
                return Ok(());
            }
            return Err(ParseError { kind: ErrorKind::InvalidGroup, at: self.state.pos });
        }
        Ok(())
    }

    /// Alternatives separated by `|`, as in `/dis|junction/`; a quantifier or
    /// `{` left after them is an error.
    fn disjunction(&mut self) -> (r: Result<(), ParseError>)
        requires
            old(self).wf(),
        ensures
            final(self).follows(old(self)),
            err_within(r, old(self).state.len),
            matches_outcome(r, final(self).scan(), grammar::disjunction(old(self).ctx(), old(self).scan())),
        decreases old(self).state.len - old(self).state.pos, 6int,
    {
        self.alternative()?;
        loop
            invariant
                self.follows(old(self)),
                grammar::alternatives(old(self).ctx(), old(self).scan()) == (if sees(
                    self.ctx(),
                    self.scan(),
                    0,
                    '|',
                ) {
                    grammar::alternatives(self.ctx(), at(self.scan(), self.scan().pos + 1))
                } else {
                    Outcome::Ok(self.scan())
                }),
            ensures
                self.follows(old(self)),
                grammar::alternatives(old(self).ctx(), old(self).scan()) == Outcome::Ok(self.scan()),
            decreases self.state.len - self.state.pos,
        {
            if !self.eat('|') {
                break;
            }
            self.alternative()?;
        }
        if self.eat_quantifier(true)? {
            return Err(ParseError { kind: ErrorKind::NothingToRepeat, at: self.state.pos });
        }
        if self.eat('{') {
            return Err(ParseError { kind: ErrorKind::LoneOpeningBrace, at: self.state.pos });
        }
        Ok(())
    }

    /// Terms, as many as there are, as in either side of `/alt1|alt2/`.
    fn alternative(&mut self) -> (r: Result<(), ParseError>)
        requires
            old(self).wf(),
        ensures
            final(self).follows(old(self)),
            err_within(r, old(self).state.len),
            matches_outcome(r, final(self).scan(), grammar::alternative(old(self).ctx(), old(self).scan())),
        decreases old(self).state.len - old(self).state.pos, 4int,
    {
        loop
            invariant
                self.follows(old(self)),
                grammar::alternative(old(self).ctx(), old(self).scan())
                    == grammar::alternative(self.ctx(), self.scan()),
            ensures
                self.follows(old(self)),
                grammar::alternative(old(self).ctx(), old(self).scan()) == Outcome::Ok(self.scan()),
            decreases self.state.len - self.state.pos,
        {
            if self.state.pos >= self.state.len {
                break;
            }
            if !self.eat_term()? {
                break;
            }
        }
        Ok(())
    }

    /// An assertion, or an atom with an optional quantifier, as in `/a+/`.
    fn eat_term(&mut self) -> (r: Result<bool, ParseError>)
        requires
            old(self).wf(),
        ensures
            final(self).follows(old(self)),
            err_within(r, old(self).state.len),
            matches_bool(r, old(self).scan(), final(self).scan(), grammar::term(old(self).ctx(), old(self).scan())),
            r == Ok::<bool, ParseError>(true) ==> old(self).state.pos < final(self).state.pos,
        decreases old(self).state.len - old(self).state.pos, 3int,
    {
        if let Some(quantifiable) = self.eat_assertion()? {
            if quantifiable && self.eat_quantifier(false)? && self.state.n {
                return Err(ParseError { kind: ErrorKind::InvalidQuantifier, at: self.state.pos });
            }
            return Ok(true);
        }
        if self.state.u {
            if self.eat_atom()? {
                self.eat_quantifier(false)?;
                return Ok(true);
            }
        } else if self.eat_extended_atom()? {
            self.eat_quantifier(false)?;
            return Ok(true);
        }
        Ok(false)
    }

    /// An atom in Unicode mode: pattern characters, `.`, an escape, a class
    /// or a group, as in `/a(b)[a-b]/u`.
    fn eat_atom(&mut self) -> (r: Result<bool, ParseError>)
        requires
            old(self).wf(),
        ensures
            final(self).follows(old(self)),
            err_within(r, old(self).state.len),
            matches_bool(r, old(self).scan(), final(self).scan(), grammar::atom(old(self).ctx(), old(self).scan())),
            r == Ok::<bool, ParseError>(true) ==> old(self).state.pos < final(self).state.pos,
        decreases old(self).state.len - old(self).state.pos, 2int,
    {
        let ret = self.eat_pattern_characters() || self.eat('.') || self.eat_reverse_solidus_atom_escape()?
            || self.eat_character_class()? || self.eat_uncapturing_group()? || self.eat_capturing_group()?;
        Ok(ret)
    }

    /// An atom in legacy mode, which also takes most single characters.
    fn eat_extended_atom(&mut self) -> (r: Result<bool, ParseError>)
        requires
            old(self).wf(),
        ensures
            final(self).follows(old(self)),
            err_within(r, old(self).state.len),
            matches_bool(r, old(self).scan(), final(self).scan(),
                grammar::extended_atom(old(self).ctx(), old(self).scan())),
            r == Ok::<bool, ParseError>(true) ==> old(self).state.pos < final(self).state.pos,
        decreases old(self).state.len - old(self).state.pos, 2int,
    {
        let ret = self.eat('.') || self.eat_reverse_solidus_atom_escape()? || self.eat_character_class()?
            || self.eat_uncapturing_group()? || self.eat_capturing_group()?
            || self.eat_invalid_braced_quantifier()? || self.eat_extended_pattern_character();
        Ok(ret)
    }

    /// `^`, `$`, `\b`, `\B`, or a lookaround with its disjunction. Yields
    /// whether a quantifier may follow (after a lookahead).
    fn eat_assertion(&mut self) -> (r: Result<Option<bool>, ParseError>)
        requires
            old(self).wf(),
        ensures
            final(self).follows(old(self)),
            err_within(r, old(self).state.len),
            matches(r, old(self).scan(), final(self).scan(), grammar::assertion(old(self).ctx(), old(self).scan())),
            r matches Ok(Some(_)) ==> old(self).state.pos < final(self).state.pos,
        decreases old(self).state.len - old(self).state.pos, 1int,
    {
        let start = self.state.pos;
        if self.sees(0, '^') || self.sees(0, '$') {
            self.advance();
            return Ok(Some(false));
        }
        if self.sees(0, '\\') && (self.sees(1, 'B') || self.sees(1, 'b')) {
            self.reset_to(start + 2);
            return Ok(Some(false));
        }
        if self.sees(0, '(') && self.sees(1, '?') {
            let look_behind = self.sees(2, '<');
            let k: usize = if look_behind {
                3
            } else {
                2
            };
            if self.sees(k, '=') || self.sees(k, '!') {
                self.reset_to(start + k + 1);
                self.disjunction()?;
                if !self.eat(')') {
                    return Err(ParseError { kind: ErrorKind::UnterminatedGroup, at: self.state.pos });
                }
                return Ok(Some(!look_behind));
            }
        }
        Ok(None)
    }

    /// `(?:`, a disjunction, `)`.
    fn eat_uncapturing_group(&mut self) -> (r: Result<bool, ParseError>)
        requires
            old(self).wf(),
        ensures
            final(self).follows(old(self)),
            err_within(r, old(self).state.len),
            matches_bool(r, old(self).scan(), final(self).scan(),
                grammar::uncapturing_group(old(self).ctx(), old(self).scan())),
            r == Ok::<bool, ParseError>(true) ==> old(self).state.pos < final(self).state.pos,
        decreases old(self).state.len - old(self).state.pos, 1int,
    {
        let start = self.state.pos;
        if self.sees(0, '(') && self.sees(1, '?') && self.sees(2, ':') {
            self.reset_to(start + 3);
            self.disjunction()?;
            if self.eat(')') {
                return Ok(true);
            }
            return Err(ParseError { kind: ErrorKind::UnterminatedGroup, at: start });
        }
        Ok(false)
    }

    /// `(`, an optional `?<name>`, a disjunction, `)`; one more capturing group.
    fn eat_capturing_group(&mut self) -> (r: Result<bool, ParseError>)
        requires
            old(self).wf(),
        ensures
            final(self).follows(old(self)),
            err_within(r, old(self).state.len),
            matches_bool(r, old(self).scan(), final(self).scan(),
                grammar::capturing_group(old(self).ctx(), old(self).scan())),
            r == Ok::<bool, ParseError>(true) ==> old(self).state.pos < final(self).state.pos,
        decreases old(self).state.len - old(self).state.pos, 1int,
    {
        if self.eat('(') {
            self.group_specifier()?;
            self.disjunction()?;
            if self.eat(')') {
                if self.state.num_capturing_parens < u32::MAX {
                    self.state.num_capturing_parens = self.state.num_capturing_parens + 1;
                }
                Ok(true)
            } else {
                Err(ParseError { kind: ErrorKind::UnterminatedGroup, at: self.state.pos })
            }
        } else {
            Ok(false)
        }
    }

    /// The flags as written after the closing `/`.
    pub closed spec fn flag_text(&self) -> Seq<char> {
        self.flag_text@
    }

    /// The flags that were set.
    pub closed spec fn flag_set(&self) -> RegExFlags {
        self.flags
    }

    /// Whether the parser stands at the start of a pass in the mode its flags give.
    pub closed spec fn fresh(&self) -> bool {
        &&& self.scan() == grammar::fresh()
        &&& self.state.n == self.state.u
    }

    /// The names of the groups that the last pass declared.
    pub closed spec fn names(&self) -> Seq<Seq<char>> {
        self.scan().names
    }

    /// Takes the literal `/body/flags` apart: the body, which may not be empty,
    /// lies between the first `/` and the last; the flags (each of `g i m s u y`
    /// at most once) follow it.
    pub fn new(js: &str) -> (r: Result<RegexParser, Error>)
        requires
            utf8_len(js@) <= usize::MAX,
        ensures
            match split_literal(js@) {
                Ok((body, flag_text, flags)) => r matches Ok(p) && (p.wf() && p.text() == body
                    && p.flag_text() == flag_text && p.flag_set() == flags && p.fresh()),
                Err((kind, idx)) => r matches Err(e) && (e.kind == kind && e.idx == idx
                    && e.msg@ == message_text(kind, ""@)),
            },
    {
        let chars = chars_of(js);
        if chars.len() == 0 || chars[0] != '/' {
            return Err(Error::new(0, ErrorKind::MissingOpeningSlash, ""));
        }
        let end = match last_slash_index(&chars) {
            Some(end) => end,
            None => {
                return Err(Error::new(0, ErrorKind::MissingClosingSlash, ""));
            },
        };
        if end == 0 {
            return Err(Error::new(0, ErrorKind::MissingClosingSlash, ""));
        }
        if end == 1 {
            return Err(Error::new(0, ErrorKind::EmptyBody, ""));
        }
        let pat_end_idx = byte_offset(&chars, end, usize::MAX);
        let ghost f = js@.subrange(end + 1, js@.len() as int);
        proof {
            lemma_utf8_len_prefix(js@, end as int);
        }
        let mut flags = RegExFlags::default();
        let mut i = end + 1;
        while i < chars.len()
            invariant
                chars@ == js@,
                js@.len() > 0 && js@[0] == '/',
                end as int == crate::literal::last_slash(js@),
                end > 1,
                end < i <= chars@.len(),
                f == js@.subrange(end + 1, js@.len() as int),
                pat_end_idx == utf8_len(js@.subrange(0, end as int)),
                pat_end_idx + (js@.len() - end) <= usize::MAX,
                crate::flags::flags_from(no_flags(), f, 0) == crate::flags::flags_from(
                    flags,
                    f,
                    i - end - 1,
                ),
            decreases chars@.len() - i,
        {
            let ghost before = flags;
            assert(f[i - end - 1] == chars@[i as int]);
            match flags.add_flag(chars[i], pat_end_idx + (i - end - 1) + 1) {
                Ok(()) => {},
                Err(e) => {
                    assert(crate::flags::flags_from(before, f, i - end - 1) == Err::<RegExFlags, (ErrorKind, int)>((e.kind, i - end - 1)));
                    return Err(e);
                },
            }
            i = i + 1;
        }
        let body = js.substring_char(1, end);
        let pattern = chars_of(body);
        proof {
            lemma_utf8_len_subrange(js@, 1, end as int);
        }
        let len = pattern.len();
        let unicode = flags.unicode;
        let p = RegexParser {
            pattern,
            body: body.to_owned(),
            flag_text: js.substring_char(end + 1, chars.len()).to_owned(),
            flags,
            state: State::new(len, unicode),
        };
        assert(p.scan().names =~= Seq::<Seq<char>>::empty());
        assert(p.scan().refs =~= Seq::<Seq<char>>::empty());
        Ok(p)
    }

    /// One pass over the whole body from a fresh state, then the checks that
    /// need the whole pattern: no input left, numeric back-references within
    /// the group count, every referenced name declared.
    fn pattern(&mut self) -> (r: Result<(), ParseError>)
        requires
            old(self).wf(),
        ensures
            final(self).wf(),
            final(self).same_input(old(self)),
            err_within(r, old(self).state.len),
            matches_outcome(r, final(self).scan(), grammar::pattern(old(self).ctx())),
    {
        self.state.reset();
        assert(self.scan() =~= grammar::fresh()) by {
            assert(self.scan().names =~= Seq::<Seq<char>>::empty());
            assert(self.scan().refs =~= Seq::<Seq<char>>::empty());
        }
        self.disjunction()?;
        if self.state.pos != self.state.len {
            if self.eat(')') {
                return Err(ParseError { kind: ErrorKind::UnmatchedParen, at: self.state.pos });
            }
            if self.eat(']') || self.eat('}') {
                return Err(ParseError { kind: ErrorKind::LoneQuantifierBrackets, at: self.state.pos });
            }
            return Err(ParseError { kind: ErrorKind::UnexpectedCharacter, at: self.state.pos });
        }
        if self.state.max_back_refs > self.state.num_capturing_parens {
            return Err(ParseError { kind: ErrorKind::InvalidEscape, at: self.state.pos });
        }
        let mut i: usize = 0;
        while i < self.state.back_ref_names.len()
            invariant
                self.wf(),
                self.same_input(old(self)),
                self.state.pos == self.state.len,
                self.state.max_back_refs <= self.state.num_capturing_parens,
                grammar::disjunction(old(self).ctx(), grammar::fresh()) == Outcome::Ok(self.scan()),
                i <= self.state.back_ref_names@.len(),
                forall|j: int| 0 <= j < i ==> self.scan().names.contains(#[trigger] self.scan().refs[j]),
            decreases self.state.back_ref_names@.len() - i,
        {
            let name = self.state.back_ref_names[i];
            if !self.has_group_name(name) {
                assert(!grammar::refs_declared(self.scan())) by {
                    assert(!self.scan().names.contains(self.scan().refs[i as int]));
                }
                return Err(ParseError { kind: ErrorKind::InvalidNamedCaptureReferenced, at: self.state.pos });
            }
            i = i + 1;
        }
        Ok(())
    }

    /// The error for a defect of the body.
    fn error_of(&self, e: ParseError) -> (r: Error)
        requires
            self.wf(),
            e.at <= self.state.len,
        ensures
            r.kind == e.kind,
            r.idx == utf8_len(self.text().subrange(0, e.at as int)),
            r.msg@ == message_text(e.kind, self.text()),
    {
        Error::new(byte_offset(&self.pattern, e.at, usize::MAX), e.kind, self.body.as_str())
    }

    /// Validates the body against the grammar: one pass, and where the body
    /// is not in Unicode mode but declares a named group, a second pass in
    /// named-group mode. Validating again gives the same result.
    pub fn validate(&mut self) -> (r: Result<(), Error>)
        requires
            old(self).wf(),
        ensures
            final(self).wf(),
            final(self).text() == old(self).text(),
            final(self).flag_text() == old(self).flag_text(),
            final(self).flag_set() == old(self).flag_set(),
            match grammar::validation(old(self).text(), old(self).flag_set().unicode) {
                Ok(s) => r is Ok && final(self).names() == s.names,
                Err(e) => r matches Err(err) && (e.at <= old(self).text().len() && err.kind == e.kind
                    && err.idx == utf8_len(old(self).text().subrange(0, e.at as int))
                    && err.msg@ == message_text(e.kind, old(self).text())),
            },
    {
        self.state.n = self.state.u;
        if let Err(e) = self.pattern() {
            return Err(self.error_of(e));
        }
        if !self.state.n && self.state.group_names.len() > 0 {
            self.state.n = true;
            if let Err(e) = self.pattern() {
                return Err(self.error_of(e));
            }
        }
        Ok(())
    }

    /// The body, the text between the delimiting slashes.
    pub fn body(&self) -> (r: &str)
        requires
            self.wf(),
        ensures
            r@ == self.text(),
    {
        self.body.as_str()
    }

    /// The flags as written after the closing `/`, or `None` where there are none.
    pub fn flags(&self) -> (r: Option<&str>)
        ensures
            match r {
                Some(f) => f@ == self.flag_text() && f@.len() > 0,
                None => self.flag_text().len() == 0,
            },
    {
        if self.flag_text.as_str().unicode_len() == 0 {
            None
        } else {
            Some(self.flag_text.as_str())
        }
    }

    /// Whether the `u` flag is set (Unicode mode).
    pub fn unicode(&self) -> (r: bool)
        ensures
            r == self.flag_set().unicode,
    {
        self.flags.unicode
    }

    /// The names of the groups that the last validation declared, in order.
    pub fn group_names(&self) -> (r: Vec<String>)
        requires
            self.wf(),
        ensures
            r@.len() == self.names().len(),
            forall|i: int| 0 <= i < r@.len() ==> (#[trigger] r@[i])@ == self.names()[i],
    {
        let mut r: Vec<String> = Vec::new();
        let mut i: usize = 0;
        while i < self.state.group_names.len()
            invariant
                self.wf(),
                i <= self.state.group_names@.len(),
                r@.len() == i,
                forall|j: int| 0 <= j < i ==> (#[trigger] r@[j])@ == self.names()[j],
            decreases self.state.group_names@.len() - i,
        {
            let (a, b) = self.state.group_names[i];
            r.push(self.slice(a, b).to_owned());
            i = i + 1;
        }
        r
    }

    /// Whether the decimal number written by `t[a..ea]` is below the one written
    /// by `t[b..eb]`, compared exactly, however long the digit runs are.
    fn digits_less(&self, a: usize, ea: usize, b: usize, eb: usize) -> (r: bool)
        requires
            self.wf(),
            grammar::all_digits(self.text(), a as int, ea as int, 10),
            grammar::all_digits(self.text(), b as int, eb as int, 10),
        ensures
            r == (grammar::digits_value(self.text(), a as int, ea as int, 10)
                < grammar::digits_value(self.text(), b as int, eb as int, 10)),
    {
        let ghost t = self.text();
        let mut ca = a;
        let mut cb = b;
        let mut lt = false;
        let mut eq = true;
        while ca < ea || cb < eb
            invariant
                self.wf(),
                t == self.text(),
                grammar::all_digits(t, a as int, ea as int, 10),
                grammar::all_digits(t, b as int, eb as int, 10),
                a <= ca <= ea,
                b <= cb <= eb,
                ea - ca > eb - cb ==> cb == b,
                eb - cb > ea - ca ==> ca == a,
                lt == (grammar::digits_value(t, a as int, ca as int, 10) < grammar::digits_value(
                    t,
                    b as int,
                    cb as int,
                    10,
                )),
                eq == (grammar::digits_value(t, a as int, ca as int, 10) == grammar::digits_value(
                    t,
                    b as int,
                    cb as int,
                    10,
                )),
            decreases (ea - ca) + (eb - cb),
        {
            let ra = ea - ca;
            let rb = eb - cb;
            let da: u32 = if ra >= rb {
                match Self::digit_of(self.pattern[ca], 10) {
                    Some(d) => d,
                    None => 0,
                }
            } else {
                0
            };
            let db: u32 = if rb >= ra {
                match Self::digit_of(self.pattern[cb], 10) {
                    Some(d) => d,
                    None => 0,
                }
            } else {
                0
            };
            proof {
                let va = grammar::digits_value(t, a as int, ca as int, 10) as int;
                let vb = grammar::digits_value(t, b as int, cb as int, 10) as int;
                if ra >= rb {
                    assert(grammar::digit_value(t[ca as int], 10) is Some);
                }
                if rb >= ra {
                    assert(grammar::digit_value(t[cb as int], 10) is Some);
                }
                lemma_digit_step(va, vb, da as int, db as int);
            }
            lt = lt || (eq && da < db);
            eq = eq && da == db;
            if ra >= rb {
                ca = ca + 1;
            }
            if rb >= ra {
                cb = cb + 1;
            }
        }
        lt
    }
}

/// One more digit: the saturated value follows the exact one.
proof fn lemma_capped_step(exact: int, value: int, radix: int, d: int)
    requires
        exact >= 0,
        value == grammar::capped(exact),
        2 <= radix <= 16,
        0 <= d < radix,
    ensures
        (if value > (u32::MAX - d) / radix {
            u32::MAX as int
        } else {
            value * radix + d
        }) == grammar::capped(exact * radix + d) as int,
        value <= (u32::MAX - d) / radix ==> value * radix + d <= u32::MAX,
{
    let m = u32::MAX as int;
    let q = (m - d) / radix;
    assert(q * radix <= m - d && m - d < (q + 1) * radix) by (nonlinear_arith)
        requires
            q == (m - d) / radix,
            radix >= 2,
            m - d >= 0,
    ;
    if exact >= m {
        assert(exact * radix >= m) by (nonlinear_arith)
            requires
                exact >= m,
                radix >= 2,
                m >= 0,
        ;
    } else if value > q {
        assert(value * radix >= (q + 1) * radix) by (nonlinear_arith)
            requires
                value >= q + 1,
                radix >= 2,
        ;
    } else {
        assert(value * radix <= q * radix) by (nonlinear_arith)
            requires
                value <= q,
                radix >= 2,
        ;
    }
}


/// Appending a digit to each of two numbers: the order is decided by the
/// numbers before it, and by the digits where those are equal.
proof fn lemma_digit_step(x: int, y: int, dx: int, dy: int)
    requires
        x >= 0,
        y >= 0,
        0 <= dx <= 9,
        0 <= dy <= 9,
    ensures
        (x * 10 + dx < y * 10 + dy) <==> (x < y || (x == y && dx < dy)),
        (x * 10 + dx == y * 10 + dy) <==> (x == y && dx == dy),
{
    if x < y {
        assert(x * 10 + 10 <= y * 10) by (nonlinear_arith)
            requires
                x < y,
        ;
    } else if x > y {
        assert(y * 10 + 10 <= x * 10) by (nonlinear_arith)
            requires
                y < x,
        ;
    }
}

} // verus!
