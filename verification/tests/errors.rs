use module_manager::errors::Errors;

#[test]
fn new_error_list_is_empty() {
    let errors = Errors::new();
    assert!(errors.is_empty());
    assert_eq!(errors.to_string(), "");
}

#[test]
fn pushed_errors_are_listed_in_order() {
    let mut errors = Errors::new();
    errors.push("first");
    assert!(!errors.is_empty());
    assert_eq!(errors.to_string(), "first\n");
    errors.push("second thing");
    errors.push("");
    assert_eq!(errors.to_string(), "first\nsecond thing\n\n");
    assert!(!errors.is_empty());
}
