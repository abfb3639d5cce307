//! Properties that relate several calls or hold of every input.
use vstd::prelude::*;
use crate::error::ErrorKind;
use crate::flags::{flag_added, flag_of, flags_from, no_flags, with_flag, RegExFlags};
use crate::grammar::{
    self, at, fresh, is_property_name_char, is_property_value_char, name_run_end, validation,
    value_run_end, Ctx, Outcome, Step,
};
use crate::unicode::{is_property_pair, value_table_of};
use crate::unicode_tables::{lemma_words_of_value_chars, value_chars_only, words};
use crate::literal::{last_slash, last_slash_before, split_literal};
use crate::parser::RegexParser;
use crate::text::utf8_len;

verus! {

/// The flag text of a literal: what follows its last `/`.
pub open spec fn flag_part(js: Seq<char>) -> Seq<char> {
    js.subrange(last_slash(js) + 1, js.len() as int)
}

/// `js` has the outer form of a literal: a `/` first and another `/` later,
/// with a body between them.
pub open spec fn delimited(js: Seq<char>) -> bool {
    js.len() > 0 && js[0] == '/' && last_slash(js) > 1
}

/// `c` names one of the six flags.
pub open spec fn is_flag_char(c: char) -> bool {
    flag_of(no_flags(), c) is Some
}

/// `f[..m]` are flag characters, no two alike.
pub open spec fn distinct_flags(f: Seq<char>, m: int) -> bool {
    &&& 0 <= m <= f.len()
    &&& forall|k: int| 0 <= k < m ==> is_flag_char(#[trigger] f[k])
    &&& forall|a: int, b: int| 0 <= a < b < m ==> f[a] != f[b]
}

/// The flags that `f[..m]` set.
pub open spec fn flags_set_by(f: Seq<char>, m: int) -> RegExFlags
    decreases m,
{
    if m <= 0 {
        no_flags()
    } else {
        with_flag(flags_set_by(f, m - 1), f[m - 1])
    }
}

/// The last `/` found is a `/`, or there is none.
pub proof fn lemma_last_slash(s: Seq<char>, i: int)
    requires
        0 <= i <= s.len(),
    ensures
        last_slash_before(s, i) == -1 || (0 <= last_slash_before(s, i) < i && s[last_slash_before(s, i)] == '/'),
        forall|k: int| last_slash_before(s, i) < k < i ==> s[k] != '/',
    decreases i,
{
    if i > 0 && s[i - 1] != '/' {
        lemma_last_slash(s, i - 1);
    }
}

/// Reading distinct flags one by one sets exactly those read.
proof fn lemma_flags_prefix(f: Seq<char>, m: int)
    requires
        distinct_flags(f, m),
    ensures
        flags_from(no_flags(), f, 0) == flags_from(flags_set_by(f, m), f, m),
        forall|c: char|
            is_flag_char(c) ==> flag_of(flags_set_by(f, m), c) == Some(
                exists|k: int| 0 <= k < m && f[k] == c,
            ),
    decreases m,
{
    if m > 0 {
        lemma_flags_prefix(f, m - 1);
        let acc = flags_set_by(f, m - 1);
        let x = f[m - 1];
        assert(is_flag_char(x));
        assert(!(exists|k: int| 0 <= k < m - 1 && f[k] == x));
        assert(flag_of(acc, x) == Some(false));
        assert(flag_added(acc, x) == Ok::<RegExFlags, ErrorKind>(with_flag(acc, x)));
        assert forall|c: char| is_flag_char(c) implies flag_of(flags_set_by(f, m), c) == Some(
            exists|k: int| 0 <= k < m && f[k] == c,
        ) by {
            if c == x {
                assert(f[m - 1] == c);
            } else {
                if exists|k: int| 0 <= k < m && f[k] == c {
                    let k = choose|k: int| 0 <= k < m && f[k] == c;
                    assert(k < m - 1);
                }
            }
        }
    }
}

/// Flags that are not all distinct flag characters are refused, at the
/// first place where that fails.
proof fn lemma_flags_fail(f: Seq<char>, m: int)
    requires
        distinct_flags(f, m),
        !distinct_flags(f, f.len() as int),
    ensures
        flags_from(no_flags(), f, 0) is Err,
    decreases f.len() - m,
{
    lemma_flags_prefix(f, m);
    let acc = flags_set_by(f, m);
    if m == f.len() {
    } else if !is_flag_char(f[m]) {
        assert(flag_of(acc, f[m]) is None);
    } else if exists|k: int| 0 <= k < m && f[k] == f[m] {
        assert(flag_of(acc, f[m]) == Some(true));
    } else {
        assert(distinct_flags(f, m + 1)) by {
            assert forall|a: int, b: int| 0 <= a < b < m + 1 implies f[a] != f[b] by {
                if b == m {
                    assert(!(0 <= a < m && f[a] == f[m]));
                }
            }
        }
        assert(flag_of(acc, f[m]) == Some(false));
        lemma_flags_fail(f, m + 1);
        lemma_flags_prefix(f, m + 1);
    }
}

/// A flag written a second time is refused with a duplicate-flag error at the
/// byte offset of that second occurrence, where every flag before it is a
/// flag character written once.
pub proof fn lemma_repeated_flag(js: Seq<char>, i: int, j: int)
    requires
        delimited(js),
        0 <= i < j < flag_part(js).len(),
        flag_part(js)[i] == flag_part(js)[j],
        distinct_flags(flag_part(js), j),
    ensures
        split_literal(js) == Err::<(Seq<char>, Seq<char>, RegExFlags), (ErrorKind, int)>(
            (ErrorKind::DuplicateFlag(flag_part(js)[j]), utf8_len(js.subrange(0, last_slash(js))) + 1 + j),
        ),
{
    let f = flag_part(js);
    lemma_flags_prefix(f, j);
    assert(flag_of(flags_set_by(f, j), f[j]) == Some(true));
}

/// A flag text with a character written twice is refused.
pub proof fn lemma_repeated_flag_refused(js: Seq<char>, i: int, j: int)
    requires
        delimited(js),
        0 <= i < j < flag_part(js).len(),
        flag_part(js)[i] == flag_part(js)[j],
    ensures
        split_literal(js) is Err,
{
    lemma_flags_fail(flag_part(js), 0);
}

/// A character that names no flag is refused with an invalid-flag error at
/// its byte offset, where every flag before it is a flag character written once.
pub proof fn lemma_invalid_flag(js: Seq<char>, j: int)
    requires
        delimited(js),
        0 <= j < flag_part(js).len(),
        !is_flag_char(flag_part(js)[j]),
        distinct_flags(flag_part(js), j),
    ensures
        split_literal(js) == Err::<(Seq<char>, Seq<char>, RegExFlags), (ErrorKind, int)>(
            (ErrorKind::InvalidFlag(flag_part(js)[j]), utf8_len(js.subrange(0, last_slash(js))) + 1 + j),
        ),
{
    let f = flag_part(js);
    lemma_flags_prefix(f, j);
}

/// A flag text holding a character that names no flag is refused.
pub proof fn lemma_invalid_flag_refused(js: Seq<char>, j: int)
    requires
        delimited(js),
        0 <= j < flag_part(js).len(),
        !is_flag_char(flag_part(js)[j]),
    ensures
        split_literal(js) is Err,
{
    lemma_flags_fail(flag_part(js), 0);
}

/// Re-assembling `/body/flags` from the parts of an accepted literal gives
/// the literal back; so it splits into the same body and flags, and its body
/// validates exactly as before.
pub proof fn lemma_round_trip(js: Seq<char>)
    requires
        split_literal(js) is Ok,
    ensures
        ({
            let (body, flag_text, flags) = split_literal(js)->Ok_0;
            let again = seq!['/'] + body + seq!['/'] + flag_text;
            &&& again == js
            &&& split_literal(again) == split_literal(js)
            &&& validation(split_literal(again)->Ok_0.0, split_literal(again)->Ok_0.2.unicode)
                == validation(body, flags.unicode)
        }),
{
    let k = last_slash(js);
    lemma_last_slash(js, js.len() as int);
    let (body, flag_text, flags) = split_literal(js)->Ok_0;
    assert(seq!['/'] + body + seq!['/'] + flag_text =~= js);
}

/// Validation reads nothing but the body and the Unicode flag, and
/// `RegexParser::validate` leaves both as they were: validating the same
/// literal again gives the same outcome.
pub proof fn lemma_revalidation(first: RegexParser, again: RegexParser)
    requires
        again.text() == first.text(),
        again.flag_set() == first.flag_set(),
    ensures
        validation(again.text(), again.flag_set().unicode) == validation(
            first.text(),
            first.flag_set().unicode,
        ),
{
}


/// A run of property-name characters ends where they end.
proof fn lemma_name_run(t: Seq<char>, i: int, e: int)
    requires
        0 <= i <= e <= t.len(),
        forall|k: int| i <= k < e ==> is_property_name_char(#[trigger] t[k]),
        e < t.len() ==> !is_property_name_char(t[e]),
    ensures
        name_run_end(t, i) == e,
    decreases e - i,
{
    if i < e {
        lemma_name_run(t, i + 1, e);
    }
}

/// A run of property-value characters ends where they end.
proof fn lemma_value_run(t: Seq<char>, i: int, e: int)
    requires
        0 <= i <= e <= t.len(),
        forall|k: int| i <= k < e ==> is_property_value_char(#[trigger] t[k]),
        e < t.len() ==> !is_property_value_char(t[e]),
    ensures
        value_run_end(t, i) == e,
    decreases e - i,
{
    if i < e {
        lemma_value_run(t, i + 1, e);
    }
}

/// The body `\p{name=value}`.
pub open spec fn property_pair_body(name: Seq<char>, value: Seq<char>) -> Seq<char> {
    seq!['\\', 'p', '{'] + name + seq!['='] + value + seq!['}']
}

/// In Unicode mode, `\p{name=value}` (a name of letters and `_`, a value of
/// letters, digits and `_`) validates exactly when `value` is among the
/// values that the property `name` takes in the property tables.
pub proof fn lemma_property_pair_escape(name: Seq<char>, value: Seq<char>)
    requires
        name.len() > 0,
        value.len() > 0,
        forall|k: int| 0 <= k < name.len() ==> is_property_name_char(#[trigger] name[k]),
        forall|k: int| 0 <= k < value.len() ==> is_property_value_char(#[trigger] value[k]),
    ensures
        validation(property_pair_body(name, value), true) is Ok <==> is_property_pair(name, value),
{
    let t = property_pair_body(name, value);
    let n = name.len() as int;
    let m = value.len() as int;
    let len = t.len() as int;
    assert(len == n + m + 5);
    assert(t[0] == '\\' && t[1] == 'p' && t[2] == '{');
    assert forall|k: int| 3 <= k < 3 + n implies #[trigger] t[k] == name[k - 3] by {}
    assert(t[3 + n] == '=');
    assert forall|k: int| 4 + n <= k < 4 + n + m implies #[trigger] t[k] == value[k - 4 - n] by {}
    assert(t[4 + n + m] == '}');
    let c = Ctx { text: t, u: true, n: true };
    let s0 = fresh();
    assert forall|k: int| 3 <= k < 3 + n implies is_property_name_char(#[trigger] t[k]) by {
        assert(t[k] == name[k - 3]);
    }
    lemma_name_run(t, 3, 3 + n);
    assert forall|k: int| 4 + n <= k < 4 + n + m implies is_property_value_char(#[trigger] t[k]) by {
        assert(t[k] == value[k - 4 - n]);
    }
    lemma_value_run(t, 4 + n, 4 + n + m);
    assert(t.subrange(3, 3 + n) =~= name);
    assert(t.subrange(4 + n, 4 + n + m) =~= value);
    let s3 = at(s0, 3);
    let send = at(s0, 4 + n + m);
    let sfin = at(s0, len);
    assert(grammar::digit_run_end(t, 1, 10) == 1);
    assert(grammar::back_ref(c, at(s0, 1)) is No);
    assert(grammar::plain_run_end(t, 0) == 0);
    assert(grammar::pattern_characters(c, s0) is No);
    assert(grammar::assertion(c, s0) is No);
    if is_property_pair(name, value) {
        assert(grammar::property_expression(c, s3) == Step::<()>::Yes((), send));
        assert(grammar::character_class_escape(c, at(s0, 1)) == Step::<()>::Yes((), sfin));
        assert(grammar::atom_escape(c, at(s0, 1)) == Step::<()>::Yes((), sfin));
        assert(grammar::atom(c, s0) == Step::<()>::Yes((), sfin));
        assert(grammar::quantifier(c, sfin, false) is No);
        assert(grammar::term(c, s0) == Step::<()>::Yes((), sfin));
        assert(grammar::alternative(c, sfin) == Outcome::Ok(sfin));
        assert(grammar::alternative(c, s0) == Outcome::Ok(sfin));
        assert(grammar::alternatives(c, s0) == Outcome::Ok(sfin));
        assert(grammar::quantifier(c, sfin, true) is No);
        assert(grammar::disjunction(c, s0) == Outcome::Ok(sfin));
        assert(grammar::refs_declared(sfin));
        assert(grammar::pattern(c) == Outcome::Ok(sfin));
    } else {
        assert(grammar::property_expression(c, s3) is Fail);
        assert(grammar::character_class_escape(c, at(s0, 1)) is Fail);
        assert(grammar::atom_escape(c, at(s0, 1)) is Fail);
        assert(grammar::atom(c, s0) is Fail);
        assert(grammar::term(c, s0) is Fail);
        assert(grammar::alternative(c, s0) is Err);
        assert(grammar::alternatives(c, s0) is Err);
        assert(grammar::disjunction(c, s0) is Err);
        assert(grammar::pattern(c) is Err);
    }
}


/// Every value that the property `name` takes in the tables makes
/// `\p{name=value}` validate in Unicode mode, where the table holds nothing
/// but spaces and property-value characters (which `has_value_chars_only`
/// decides, for each table).
pub proof fn lemma_table_values_validate(name: Seq<char>, value: Seq<char>)
    requires
        name.len() > 0,
        forall|k: int| 0 <= k < name.len() ==> is_property_name_char(#[trigger] name[k]),
        value_table_of(name) is Some,
        value_chars_only(value_table_of(name)->0@),
        words(value_table_of(name)->0@).contains(value),
    ensures
        validation(property_pair_body(name, value), true) is Ok,
{
    let t = value_table_of(name)->0@;
    lemma_words_of_value_chars(t, 0, Seq::empty());
    let j = choose|j: int| 0 <= j < words(t).len() && words(t)[j] == value;
    assert(value.len() > 0);
    assert forall|k: int| 0 <= k < value.len() implies is_property_value_char(#[trigger] value[k]) by {
        assert(words(t)[j][k] == value[k]);
    }
    assert(is_property_pair(name, value));
    lemma_property_pair_escape(name, value);
}

} // verus!
