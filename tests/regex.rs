use res_regex::unicode_tables::{general_category_values, lone_property_values, script_values};
use res_regex::{Error, RegexParser};

fn run_test(regex: &str) -> Result<(), Error> {
    let mut parser = RegexParser::new(regex)?;
    parser.validate()?;
    Ok(())
}

#[test]
fn lots_of_regexes() {
    run_test("/asdf|fdsa/g").unwrap();
}

#[test]
#[should_panic = "Invalid escape"]
fn decimal_escape_with_u() {
    run_test(r"/\1/u").unwrap()
}

#[test]
#[should_panic = "invalid flag"]
fn invalid_regex_flag() {
    run_test("/./G").unwrap();
}

#[test]
#[should_panic = "Nothing to repeat"]
fn bad_look_behind() {
    run_test(r"/.(?<=.)?/").unwrap();
}

#[test]
#[should_panic]
fn bad_quant() {
    run_test(r"/{2}/").unwrap();
}

#[test]
#[should_panic]
fn id_continue_u() {
    run_test(r"/\M/u").unwrap();
}

#[test]
#[should_panic]
fn cant_start_with_star() {
    run_test("/*/").unwrap();
}

#[test]
fn unicode_name_and_value() {
    for value in general_category_values() {
        run_test(&format!(r"/\p{{General_Category={}}}/u", value))
            .expect(&format!("failed at General_category={}", value));
        run_test(&format!(r"/\p{{gc={}}}/u", value)).expect(&format!("failed at gc={}", value));
    }
    for value in script_values() {
        run_test(&format!(r"/\p{{Script={}}}/u", value))
            .expect(&format!("failed at Script={}", value));
        run_test(&format!(r"/\p{{sc={}}}/u", value)).expect(&format!("failed at sc={}", value));
        run_test(&format!(r"/\p{{Script_Extensions={}}}/u", value))
            .expect(&format!("failed at Script_Extensions={}", value));
        run_test(&format!(r"/\p{{scx={}}}/u", value))
            .expect(&format!("failed at scx={}", value));
    }
}

#[test]
#[should_panic]
fn unicode_name_and_value_bad_name() {
    run_test(r"/\p{junk=Greek}/u").unwrap();
}

#[test]
#[should_panic]
fn unicode_name_and_value_bad_value() {
    run_test(r"/\p{General_Category=Geek}/u").unwrap();
}

#[test]
#[should_panic]
fn unicode_name_or_value_bad_value() {
    run_test(r"/\p{junk}/u").unwrap();
}

#[test]
fn unicode_name_or_value() {
    for value in lone_property_values() {
        run_test(&format!(r"/\p{{{}}}/u", value)).unwrap();
    }
}

#[test]
fn named_group() {
    run_test(r"/(?<x>a)|b/").unwrap();
}
