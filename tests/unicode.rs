use res_regex::unicode_tables::{
    binary_property_names, general_category_values, has_value_chars_only, is_sorted_table,
    lone_property_values, script_values, BINARY_PROPERTY, GENERAL_CATEGORY, SCRIPT,
};
use res_regex::{validate_name_and_value, validate_name_or_value};

#[test]
fn name_and_value() {
    for value in general_category_values() {
        assert!(validate_name_and_value("General_Category", &value));
        assert!(validate_name_and_value("gc", &value));
    }
    assert!(!validate_name_and_value("General_Category", "junk"));
    assert!(!validate_name_and_value("gc", "junk"));
    for value in script_values() {
        assert!(validate_name_and_value("Script", &value));
        assert!(validate_name_and_value("Script_Extensions", &value));
        assert!(validate_name_and_value("sc", &value));
        assert!(validate_name_and_value("scx", &value));
    }
    assert!(!validate_name_and_value("Script", "junk"));
    assert!(!validate_name_and_value("Script_Extensions", "junk"));
    assert!(!validate_name_and_value("sc", "junk"));
    assert!(!validate_name_and_value("scx", "junk"));
}

#[test]
fn name_or_value() {
    for value in general_category_values() {
        assert!(validate_name_or_value(&value));
    }
    for value in binary_property_names() {
        assert!(validate_name_or_value(&value));
    }
    assert!(!validate_name_or_value("junk"));
}

#[test]
fn tables_are_sorted() {
    assert!(is_sorted_table(GENERAL_CATEGORY));
    assert!(is_sorted_table(SCRIPT));
    assert!(is_sorted_table(BINARY_PROPERTY));
    assert!(is_sorted_table("Lu Ll"[3..].trim()));
    assert!(!is_sorted_table("Lu Ll"));
    assert!(!is_sorted_table("Lu Lu"));
    assert!(is_sorted_table("L Lu Lua"));
}

#[test]
fn tables_hold_only_property_value_characters() {
    assert!(has_value_chars_only(GENERAL_CATEGORY));
    assert!(has_value_chars_only(SCRIPT));
    assert!(has_value_chars_only(BINARY_PROPERTY));
    assert!(!has_value_chars_only("Lu L-u"));
}

#[test]
fn table_word_counts() {
    assert_eq!(general_category_values().len(), 80);
    assert_eq!(script_values().len(), 322);
    assert_eq!(binary_property_names().len(), 98);
    assert_eq!(lone_property_values().len(), 178);
}
