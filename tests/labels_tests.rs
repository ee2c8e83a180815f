use cesure::activation::{Activation, ActivationType, TYPE_SIGMOID, TYPE_TANH};
use cesure::error_calculation::{
    ErrorCalculation, ERROR_CALCULATION_TYPE_BASIC, ERROR_CALCULATION_TYPE_ONLY_ON, ERROR_CALCULATION_TYPE_SMART,
};
use cesure::text::{is_alphanumeric, is_control, str_eq};

#[test]
fn activation_codes() {
    assert_eq!(Activation::new(TYPE_SIGMOID).unwrap().act_type, ActivationType::Sigmoid);
    assert_eq!(Activation::new(TYPE_TANH).unwrap().act_type, ActivationType::Tanh);
    assert!(Activation::new(2).is_none());
    assert_eq!(ActivationType::Tanh.code(), 1);
    assert_eq!(ActivationType::from_code(0), Some(ActivationType::Sigmoid));
    assert_eq!(ActivationType::from_code(7), None);
}

#[test]
fn activation_tags_round_trip() {
    let s = Activation { act_type: ActivationType::Sigmoid };
    let t = Activation { act_type: ActivationType::Tanh };
    assert_eq!(s.to_string(), "sigmoid");
    assert_eq!(t.to_string(), "tanh");
    assert_eq!(Activation::from_string(&s.to_string()), Some(s));
    assert_eq!(Activation::from_string(&t.to_string()), Some(t));
    assert_eq!(Activation::from_string("relu"), None);
    assert_eq!(Activation::from_string("Sigmoid"), None);
}

#[test]
fn error_calculation_codes() {
    for code in [ERROR_CALCULATION_TYPE_BASIC, ERROR_CALCULATION_TYPE_ONLY_ON, ERROR_CALCULATION_TYPE_SMART] {
        assert_eq!(ErrorCalculation::new(code).unwrap().calculation_type, code);
    }
    assert!(ErrorCalculation::new(3).is_none());
}

#[test]
fn alphanumeric_strings() {
    assert!(is_alphanumeric("abc123"));
    assert!(is_alphanumeric(""));
    assert!(is_alphanumeric("été"));
    assert!(!is_alphanumeric("a b"));
    assert!(!is_alphanumeric("x-1"));
}

#[test]
fn control_characters() {
    assert!(is_control("a\nb"));
    assert!(is_control("\t"));
    assert!(!is_control("plain text"));
    assert!(!is_control(""));
}

#[test]
fn string_equality() {
    assert!(str_eq("tanh", "tanh"));
    assert!(!str_eq("tanh", "tan"));
    assert!(!str_eq("tanh", "tanH"));
    assert!(str_eq("", ""));
}

#[test]
fn control_class_matches_std() {
    for code in 0u32..0x3100 {
        if let Some(c) = char::from_u32(code) {
            assert_eq!(is_control(&c.to_string()), c.is_control(), "U+{:X}", code);
        }
    }
}
