use plaster::validation::ValidationFn;

#[test]
fn validate_runs_the_wrapped_function() {
    let check = ValidationFn::from(|v: u64| {
        if v > 10 {
            Some("too big".to_string())
        } else {
            None
        }
    });
    assert_eq!(check.validate(5), None);
    assert_eq!(check.validate(11), Some("too big".to_string()));
}

#[test]
fn validate_passes_string_values_through() {
    let nonempty = ValidationFn::from(|v: String| {
        if v.is_empty() {
            Some("required".to_string())
        } else {
            None
        }
    });
    assert_eq!(nonempty.validate(String::new()), Some("required".to_string()));
    assert_eq!(nonempty.validate("x".to_string()), None);
}

#[test]
fn validation_functions_compare_equal() {
    let allow = |_v: u64| None;
    let a = ValidationFn::from(allow);
    let b = ValidationFn::from(allow);
    assert!(a == b, "validation functions are opaque: any two compare equal");
}
