use sem_diff::attribute::Attribute;
use sem_diff::attribute::TypedValue;
use sem_diff::attribute::deprecation_info;
use sem_diff::attribute::has_asio_low_pri;
use sem_diff::attribute::has_const;
use sem_diff::attribute::has_dynamically_callable;
use sem_diff::attribute::has_dynamically_constructible;
use sem_diff::attribute::has_dynamically_referenced;
use sem_diff::attribute::has_enum_class;
use sem_diff::attribute::has_foldable;
use sem_diff::attribute::has_meth_caller;
use sem_diff::attribute::has_provenance_skip_frame;
use sem_diff::attribute::has_sealed;
use sem_diff::attribute::is_keyed_by_ic_memoize;
use sem_diff::attribute::is_native_opcode_impl;
use sem_diff::attribute::is_no_injection;
use sem_diff::attribute::is_not_keyed_by_ic_and_leak_ic;
use sem_diff::user_attributes as ua;

fn mk_attr(name: &str) -> Attribute {
    Attribute::new(name, vec![])
}

fn with_string(name: &str, arg: &str) -> Attribute {
    Attribute::new(name, vec![TypedValue::Int(1), TypedValue::String(arg.to_string())])
}

#[test]
fn example_is_memoized_vs_eq_memoize() {
    let attr = Attribute { name: ua::MEMOIZE_LSB.to_string(), arguments: vec![] };
    assert!(attr.is(ua::is_memoized));
    assert!(!attr.is(|s| s == ua::MEMOIZE));
    assert!(attr.is(|s| s == ua::MEMOIZE_LSB));
}

#[test]
fn example_has_dynamically_callable() {
    let attrs = vec![mk_attr(ua::CONST), mk_attr(ua::DYNAMICALLY_CALLABLE)];
    let has_result = attrs.iter().any(|a| a.name.as_str() == ua::DYNAMICALLY_CALLABLE);
    assert!(has_result);
    assert!(has_dynamically_callable(&attrs));
}

#[test]
fn attribute_new_keeps_name_and_arguments() {
    let a = Attribute::new("__Foo", vec![TypedValue::Bool(true)]);
    assert_eq!(a.name, "__Foo");
    assert_eq!(a.arguments.len(), 1);
}

#[test]
fn memoized_names() {
    assert!(ua::is_memoized("__Memoize"));
    assert!(ua::is_memoized("__MemoizeLSB"));
    assert!(!ua::is_memoized("__Memo"));
    assert!(ua::is_native("__Native"));
    assert!(!ua::is_native("__Const"));
}

#[test]
fn native_arguments() {
    let attrs = vec![mk_attr(ua::CONST), with_string(ua::NATIVE, "NoInjection")];
    assert!(is_no_injection(&attrs));
    assert!(!is_native_opcode_impl(&attrs));
    let attrs = vec![with_string(ua::NATIVE, "OpCodeImpl")];
    assert!(is_native_opcode_impl(&attrs));
    assert!(!is_no_injection(&attrs));
    let attrs = vec![with_string(ua::CONST, "NoInjection")];
    assert!(!is_no_injection(&attrs));
    let attrs = vec![Attribute::new(ua::NATIVE, vec![TypedValue::LazyClass("NoInjection".to_string())])];
    assert!(!is_no_injection(&attrs));
}

#[test]
fn memoize_arguments() {
    let attrs = vec![with_string(ua::MEMOIZE, "KeyedByIC")];
    assert!(is_keyed_by_ic_memoize(&attrs));
    assert!(!is_not_keyed_by_ic_and_leak_ic(&attrs));
    let attrs = vec![with_string(ua::MEMOIZE_LSB, "NotKeyedByICAndLeakIC__DO_NOT_USE")];
    assert!(is_not_keyed_by_ic_and_leak_ic(&attrs));
    assert!(!is_keyed_by_ic_memoize(&attrs));
    let attrs = vec![with_string(ua::NATIVE, "KeyedByIC")];
    assert!(!is_keyed_by_ic_memoize(&attrs));
}

#[test]
fn has_predicates() {
    let attrs = vec![
        mk_attr(ua::ASIO_LOW_PRI),
        mk_attr(ua::ENUM_CLASS),
        mk_attr(ua::DYNAMICALLY_CONSTRUCTIBLE),
        mk_attr(ua::IS_FOLDABLE),
        mk_attr(ua::SEALED),
        mk_attr(ua::CONST),
        mk_attr("__MethCaller"),
        mk_attr(ua::PROVENANCE_SKIP_FRAME),
        mk_attr(ua::DYNAMICALLY_CALLABLE),
    ];
    assert!(has_asio_low_pri(&attrs));
    assert!(has_enum_class(&attrs));
    assert!(has_dynamically_constructible(&attrs));
    assert!(has_foldable(&attrs));
    assert!(has_sealed(&attrs));
    assert!(has_const(&attrs));
    assert!(has_meth_caller(&attrs));
    assert!(has_provenance_skip_frame(&attrs));
    assert!(has_dynamically_callable(&attrs));
    assert!(!has_dynamically_referenced(&attrs));
    let none: Vec<Attribute> = vec![];
    assert!(!has_sealed(&none));
    assert!(!has_const(&none));
}

#[test]
fn dynamically_referenced_needs_no_arguments() {
    let attrs = vec![with_string(ua::DYNAMICALLY_REFERENCED, "x")];
    assert!(!has_dynamically_referenced(&attrs));
    let attrs = vec![with_string(ua::DYNAMICALLY_REFERENCED, "x"), mk_attr(ua::DYNAMICALLY_REFERENCED)];
    assert!(has_dynamically_referenced(&attrs));
}

#[test]
fn deprecation_info_first_deprecated() {
    let attrs = vec![
        mk_attr(ua::CONST),
        with_string(ua::DEPRECATED, "use g"),
        Attribute::new(ua::DEPRECATED, vec![TypedValue::Null]),
    ];
    let args = deprecation_info(&attrs).unwrap();
    assert_eq!(args.len(), 2);
    assert!(matches!(&args[1], TypedValue::String(s) if s == "use g"));
    assert!(deprecation_info(&[mk_attr(ua::CONST)]).is_none());
}
