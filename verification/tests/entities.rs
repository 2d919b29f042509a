use matchscore::entities::{
    is_side, is_xplayerid, oops_otherside_id, starts_with, str_eq, SIDE_L, SIDE_R,
    XPLAYERID_OOPS_OTHERSIDE_START, XPLAYERID_START, XPLAYERID_UNKNOWN,
};

#[test]
fn reserved_identifiers_begin_with_the_marker() {
    assert!(is_xplayerid(XPLAYERID_START));
    assert!(is_xplayerid(XPLAYERID_UNKNOWN));
    assert!(is_xplayerid(XPLAYERID_OOPS_OTHERSIDE_START));
    assert!(!is_xplayerid("1"));
    assert!(!is_xplayerid("11"));
    assert!(!is_xplayerid(""));
    assert!(!is_xplayerid("X"));
    assert!(!is_xplayerid("xX1"));
    assert!(!is_xplayerid("1XX"));
}

#[test]
fn oops_identifier_is_marker_hyphen_and_player() {
    assert_eq!(oops_otherside_id("7"), "XXOops-7");
    assert_eq!(oops_otherside_id(""), "XXOops-");
    assert_eq!(oops_otherside_id(XPLAYERID_UNKNOWN), "XXOops-XXUnknown");
    assert!(is_xplayerid(&oops_otherside_id("10")));
}

#[test]
fn starts_with_compares_characters() {
    assert!(starts_with("hello", ""));
    assert!(starts_with("hello", "hel"));
    assert!(starts_with("hello", "hello"));
    assert!(!starts_with("hello", "hello!"));
    assert!(!starts_with("hello", "hex"));
    assert!(starts_with("äöü", "ä"));
    assert!(!starts_with("äöü", "a"));
    assert!(!starts_with("", "a"));
}

#[test]
fn str_eq_compares_whole_strings() {
    assert!(str_eq("", ""));
    assert!(str_eq("10", "10"));
    assert!(!str_eq("10", "1"));
    assert!(!str_eq("1", "10"));
    assert!(!str_eq("10", "11"));
    assert!(str_eq("äö", "äö"));
    assert!(!str_eq("äö", "äo"));
}

#[test]
fn sides_are_two() {
    assert!(is_side(SIDE_L));
    assert!(is_side(SIDE_R));
    assert!(!is_side('L'));
    assert!(!is_side('a'));
    assert_eq!((SIDE_L, SIDE_R), ('l', 'r'));
}
