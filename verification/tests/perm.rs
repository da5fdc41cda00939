use miniutils::UtilError;
use miniutils::perm::translate;

#[test]
fn user_add_all_capabilities() {
    assert_eq!(translate("u+rwx", 0), Ok(0o700));
}

#[test]
fn group_add_execute() {
    assert_eq!(translate("g+x", 0), Ok(0o010));
}

#[test]
fn other_add_read() {
    assert_eq!(translate("o+r", 0), Ok(0o004));
}

#[test]
fn single_category_single_capability_weights() {
    assert_eq!(translate("u+r", 0), Ok(0o400));
    assert_eq!(translate("u+w", 0), Ok(0o200));
    assert_eq!(translate("u+x", 0), Ok(0o100));
    assert_eq!(translate("g+r", 0), Ok(0o040));
    assert_eq!(translate("g+w", 0), Ok(0o020));
    assert_eq!(translate("o+w", 0), Ok(0o002));
    assert_eq!(translate("o+x", 0), Ok(0o001));
}

#[test]
fn all_sets_every_digit_to_seven() {
    assert_eq!(translate("a+rwx", 0), Ok(0o777));
    // other category letters beside `a` change nothing
    assert_eq!(translate("ua+rwx", 0), Ok(0o777));
    assert_eq!(translate("goa+rwx", 0o123), Ok(0o777));
}

#[test]
fn add_is_bitwise_or() {
    assert_eq!(translate("ug+rw", 0o111), Ok(0o111 | 0o660));
}

#[test]
fn toggle_is_bitwise_xor() {
    // subtracting a bit that is set clears it ...
    assert_eq!(translate("u-w", 0o666), Ok(0o466));
    // ... and toggling one that is absent sets it
    assert_eq!(translate("u-w", 0o466), Ok(0o666));
}

#[test]
fn last_operator_wins() {
    assert_eq!(translate("u+w-r", 0), Ok(0o600));
}

#[test]
fn numeric_replaces_mode_outright() {
    assert_eq!(translate("644", 0), Ok(0o644));
    assert_eq!(translate("644", 0o777), Ok(0o644));
    assert_eq!(translate("0", 0o555), Ok(0));
}

#[test]
fn numeric_with_bad_octal_digit_is_rejected() {
    assert_eq!(translate("98", 0), Err(UtilError::Validation));
    assert_eq!(translate("778", 0o644), Err(UtilError::Validation));
}

#[test]
fn numeric_overflow_is_rejected() {
    assert_eq!(translate("7777777777777777", 0), Err(UtilError::Validation));
}

#[test]
fn unrecognized_characters_are_ignored()
{
    assert_eq!(translate("u?+!r", 0), Ok(0o400));
    assert_eq!(translate("z*", 0o321), Ok(0o321));
}

#[test]
fn duplicate_letters_collapse() {
    assert_eq!(translate("uu+rr", 0), Ok(0o400));
}

#[test]
fn empty_expression_defaults_to_add_of_nothing() {
    assert_eq!(translate("", 0o123), Ok(0o123));
}

#[test]
fn category_without_capability_adds_nothing() {
    assert_eq!(translate("u+", 0o222), Ok(0o222));
}

#[test]
fn capability_without_category_adds_nothing() {
    assert_eq!(translate("+rwx", 0o111), Ok(0o111));
}
