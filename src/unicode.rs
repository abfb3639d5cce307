//! Validation of the property names and values of `\p{...}` escapes.
use vstd::prelude::*;
use crate::text::str_eq;
use crate::unicode_tables::{has_word, words, BINARY_PROPERTY, GENERAL_CATEGORY, SCRIPT};

verus! {

/// The value table of a property name that takes a value after `=`.
pub open spec fn value_table_of(name: Seq<char>) -> Option<&'static str> {
    if name == "General_Category"@ || name == "gc"@ {
        Some(GENERAL_CATEGORY)
    } else if name == "Script"@ || name == "sc"@ || name == "Script_Extensions"@ || name
        == "scx"@ {
        Some(SCRIPT)
    } else {
        None
    }
}

/// `s` may stand alone in `\p{...}`: a General_Category value or a binary property name.
pub open spec fn is_lone_property(s: Seq<char>) -> bool {
    words(GENERAL_CATEGORY@).contains(s) || words(BINARY_PROPERTY@).contains(s)
}

/// `name=value` is a valid pair in `\p{name=value}`.
pub open spec fn is_property_pair(name: Seq<char>, value: Seq<char>) -> bool {
    match value_table_of(name) {
        Some(t) => words(t@).contains(value),
        None => false,
    }
}

/// Validate a lone `\p{...}` body, as in `/\p{White_Space}\p{Lu}/u`: it must
/// be a General_Category value or a binary property name (or an alias).
pub fn validate_name_or_value(name: &str) -> (r: bool)
    ensures
        r == is_lone_property(name@),
{
    if has_word(GENERAL_CATEGORY, name) {
        true
    } else if has_word(BINARY_PROPERTY, name) {
        true
    } else {
        false
    }
}

/// Validate a `\p{name=value}` body, as in `/\p{Script=Greek}\p{gc=Lm}/u`.
/// The names are `General_Category`, `gc`, `Script`, `sc`,
/// `Script_Extensions` and `scx`; any other name is refused.
pub fn validate_name_and_value(name: &str, value: &str) -> (r: bool)
    ensures
        r == is_property_pair(name@, value@),
{
    if let Some(set) = validate_name(name) {
        has_word(set, value)
    } else {
        false
    }
}

/// The table of values (space-separated) that the property `name` takes
/// after `=`, or `None` when `name` is not one of the names that take a value.
pub fn validate_name(name: &str) -> (r: Option<&'static str>)
    ensures
        r == value_table_of(name@),
{
    proof {
        reveal_strlit("General_Category");
        reveal_strlit("gc");
        reveal_strlit("Script");
        reveal_strlit("sc");
        reveal_strlit("Script_Extensions");
        reveal_strlit("scx");
    }
    if str_eq(name, "General_Category") || str_eq(name, "gc") {
        Some(GENERAL_CATEGORY)
    } else if str_eq(name, "Script") || str_eq(name, "sc") || str_eq(name, "Script_Extensions")
        || str_eq(name, "scx") {
        Some(SCRIPT)
    } else {
        None
    }
}

} // verus!
