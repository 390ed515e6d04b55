use std::cell::RefCell;

use sem_diff::diff::DiffError;
use sem_diff::diff::DiffResult;
use sem_diff::diff::Side;
use sem_diff::diff::sem_diff_eq;
use sem_diff::diff::sem_diff_iter;
use sem_diff::diff::sem_diff_map_t;
use sem_diff::diff::sem_diff_option;
use sem_diff::diff::sem_diff_set_t;
use sem_diff::diff::sem_diff_slice;
use sem_diff::diff::sem_diff_str;
use sem_diff::path::CodePath;
use sem_diff::program::Function;
use sem_diff::program::sem_diff_function;

fn entry(name: &str, value: i64) -> Function {
    Function { name: name.to_string(), params: vec![], return_type: value.to_string(), doc_comment: None }
}

fn values_eq(p: &CodePath, x: &Function, y: &Function) -> DiffResult {
    sem_diff_function(p, x, y)
}

fn ints_eq(p: &CodePath, x: &i64, y: &i64) -> DiffResult {
    sem_diff_eq(p, x, y)
}

fn root_field(name: &str) -> CodePath {
    CodePath::root().field(name)
}

#[test]
fn path_renders_segments_in_order() {
    let p = CodePath::root()
        .field("classes")
        .index_str("Foo")
        .field("methods")
        .index_str("bar")
        .field("params")
        .index(3);
    assert_eq!(p.render(), "classes[Foo].methods[bar].params[3]");
    assert_eq!(p.len(), 6);
}

#[test]
fn path_root_is_empty() {
    let p = CodePath::root();
    assert_eq!(p.render(), "");
    assert_eq!(p.len(), 0);
}

#[test]
fn path_renders_multi_digit_indices_and_qualifiers() {
    assert_eq!(root_field("xs").index(0).render(), "xs[0]");
    assert_eq!(root_field("xs").index(10).render(), "xs[10]");
    assert_eq!(root_field("xs").index(1234).render(), "xs[1234]");
    assert_eq!(root_field("x").qualified("unwrap()").render(), "x.unwrap()");
    assert_eq!(CodePath::root().qualified("q").render(), "q");
}

#[test]
fn path_parent_is_unchanged_by_descent() {
    let parent = root_field("classes");
    let a = parent.index_str("A");
    let b = parent.index_str("B");
    assert_eq!(parent.render(), "classes");
    assert_eq!(a.render(), "classes[A]");
    assert_eq!(b.render(), "classes[B]");
    assert_eq!(parent.duplicate().render(), "classes");
}

#[test]
fn eq_equal_leaves_succeed() {
    assert!(sem_diff_eq(&root_field("x"), &7i64, &7i64).is_ok());
    assert!(sem_diff_eq(&root_field("x"), &true, &true).is_ok());
}

#[test]
fn eq_unequal_leaves_report_both_values() {
    let e = sem_diff_eq(&root_field("x"), &1i64, &2i64).unwrap_err();
    match &e {
        DiffError::Mismatch { path, lhs, rhs } => {
            assert_eq!(path.render(), "x");
            assert_eq!(lhs, "1");
            assert_eq!(rhs, "2");
        }
        _ => panic!("expected a mismatch"),
    }
    assert_eq!(e.describe(), "Mismatch in x:\n1\n2");
    assert_eq!(e.path().render(), "x");
}

#[test]
fn str_comparison() {
    assert!(sem_diff_str(&root_field("s"), "abc", "abc").is_ok());
    let e = sem_diff_str(&root_field("s"), "abc", "abd").unwrap_err();
    assert_eq!(e.describe(), "Mismatch in s:\n\"abc\"\n\"abd\"");
}

#[test]
fn option_both_absent_succeeds() {
    let r = sem_diff_option(&root_field("x"), None::<&i64>, None, |_p: &CodePath, _a: &i64, _b: &i64| -> DiffResult {
        panic!("nothing to compare")
    });
    assert!(r.is_ok());
}

#[test]
fn option_present_vs_absent_is_mismatch_without_unwrapping() {
    let calls = RefCell::new(0);
    let f = |p: &CodePath, a: &i64, b: &i64| {
        *calls.borrow_mut() += 1;
        sem_diff_eq(p, a, b)
    };
    let e = sem_diff_option(&root_field("x"), Some(&5i64), None, f).unwrap_err();
    assert_eq!(*calls.borrow(), 0);
    match &e {
        DiffError::Mismatch { path, lhs, rhs } => {
            assert_eq!(path.render(), "x");
            assert_eq!(lhs, "Some(5)");
            assert_eq!(rhs, "None");
        }
        _ => panic!("expected a mismatch"),
    }
    let e = sem_diff_option(&root_field("x"), None, Some(&5i64), ints_eq).unwrap_err();
    assert!(matches!(e, DiffError::Mismatch { .. }));
    assert_eq!(e.path().render(), "x");
}

#[test]
fn option_both_present_compares_under_unwrap() {
    assert!(sem_diff_option(&root_field("x"), Some(&5i64), Some(&5i64), ints_eq).is_ok());
    let e = sem_diff_option(&root_field("x"), Some(&5i64), Some(&6i64), ints_eq).unwrap_err();
    assert_eq!(e.path().render(), "x.unwrap()");
    assert_eq!(e.describe(), "Mismatch in x.unwrap():\n5\n6");
}

#[test]
fn slice_length_mismatch_after_matching_prefix() {
    let seen = RefCell::new(Vec::new());
    let f = |p: &CodePath, a: &i64, b: &i64| {
        seen.borrow_mut().push(p.render());
        sem_diff_eq(p, a, b)
    };
    let a: Vec<i64> = vec![1, 2, 3];
    let b: Vec<i64> = vec![1, 2];
    let e = sem_diff_slice(&root_field("xs"), &a, &b, f).unwrap_err();
    assert_eq!(*seen.borrow(), vec!["xs[0]".to_string(), "xs[1]".to_string()]);
    match &e {
        DiffError::LengthMismatch { path, longer } => {
            assert_eq!(path.render(), "xs");
            assert_eq!(*longer, Side::Left);
        }
        _ => panic!("expected a length mismatch"),
    }
    assert_eq!(e.describe(), "Mismatch in xs: A side is longer.");
}

#[test]
fn slice_right_side_longer() {
    let a: Vec<i64> = vec![1];
    let b: Vec<i64> = vec![1, 2];
    let e = sem_diff_slice(&root_field("xs"), &a, &b, ints_eq).unwrap_err();
    assert!(matches!(e, DiffError::LengthMismatch { longer: Side::Right, .. }));
    assert_eq!(e.describe(), "Mismatch in xs: B side is longer.");
}

#[test]
fn slice_equal_and_empty_sequences_succeed() {
    let a: Vec<i64> = vec![4, 5, 6];
    assert!(sem_diff_slice(&root_field("xs"), &a, &a.clone(), ints_eq).is_ok());
    let e: Vec<i64> = vec![];
    assert!(sem_diff_slice(&root_field("xs"), &e, &e, ints_eq).is_ok());
}

#[test]
fn iter_stops_at_first_failure() {
    let seen = RefCell::new(Vec::new());
    let f = |p: &CodePath, a: &i64, b: &i64| {
        seen.borrow_mut().push(p.render());
        sem_diff_eq(p, a, b)
    };
    let a: Vec<i64> = vec![1, 9, 8];
    let b: Vec<i64> = vec![1, 2, 3];
    let e = sem_diff_iter(&root_field("xs"), &a, &b, f).unwrap_err();
    assert_eq!(e.path().render(), "xs[1]");
    assert_eq!(e.describe(), "Mismatch in xs[1]:\n9\n2");
    assert_eq!(*seen.borrow(), vec!["xs[0]".to_string(), "xs[1]".to_string()]);
}

#[test]
fn map_ignores_order() {
    let a = vec![entry("a", 1), entry("b", 2), entry("c", 3)];
    let b = vec![entry("c", 3), entry("a", 1), entry("b", 2)];
    assert!(sem_diff_map_t(&root_field("m"), &a, &b, values_eq).is_ok());
}

#[test]
fn map_empty_collections_succeed() {
    let a: Vec<Function> = vec![];
    assert!(sem_diff_map_t(&root_field("m"), &a, &a, values_eq).is_ok());
}

#[test]
fn map_removed_entity_is_extra_on_left() {
    let a = vec![entry("a", 1), entry("b", 2), entry("c", 3)];
    let b = vec![entry("a", 1), entry("c", 3)];
    let e = sem_diff_map_t(&root_field("m"), &a, &b, values_eq).unwrap_err();
    match &e {
        DiffError::ExtraOnLeft { path, key } => {
            assert_eq!(path.render(), "m");
            assert_eq!(key, "b");
        }
        _ => panic!("expected an extra key on the left"),
    }
    assert_eq!(e.describe(), "In m lhs has key b but rhs does not");
}

#[test]
fn map_added_entity_is_extra_on_right() {
    let a = vec![entry("a", 1)];
    let b = vec![entry("a", 1), entry("z", 3)];
    let e = sem_diff_map_t(&root_field("m"), &a, &b, values_eq).unwrap_err();
    match &e {
        DiffError::ExtraOnRight { path, key } => {
            assert_eq!(path.render(), "m");
            assert_eq!(key, "z");
        }
        _ => panic!("expected an extra key on the right"),
    }
    assert_eq!(e.describe(), "In m rhs has key z but lhs does not");
}

#[test]
fn map_left_extra_reported_before_right_extra() {
    let a = vec![entry("a", 1), entry("x", 1)];
    let b = vec![entry("a", 1), entry("y", 1)];
    let e = sem_diff_map_t(&root_field("m"), &a, &b, values_eq).unwrap_err();
    assert!(matches!(e, DiffError::ExtraOnLeft { .. }));
}

#[test]
fn map_content_difference_under_key() {
    let a = vec![entry("a", 1), entry("b", 2)];
    let b = vec![entry("b", 5), entry("a", 1)];
    let e = sem_diff_map_t(&root_field("m"), &a, &b, values_eq).unwrap_err();
    assert_eq!(e.path().render(), "m[b].return_type");
    assert_eq!(e.describe(), "Mismatch in m[b].return_type:\n\"2\"\n\"5\"");
}

#[test]
fn map_content_difference_reported_before_extra_keys() {
    let a = vec![entry("a", 1), entry("x", 2)];
    let b = vec![entry("a", 7)];
    let e = sem_diff_map_t(&root_field("m"), &a, &b, values_eq).unwrap_err();
    assert!(matches!(e, DiffError::Mismatch { .. }));
    assert_eq!(e.path().render(), "m[a].return_type");
}

#[test]
fn map_duplicate_name_last_one_wins() {
    let a = vec![entry("a", 1), entry("a", 2)];
    let b = vec![entry("a", 2)];
    assert!(sem_diff_map_t(&root_field("m"), &a, &b, values_eq).is_ok());
    let c = vec![entry("a", 1)];
    let e = sem_diff_map_t(&root_field("m"), &a, &c, values_eq).unwrap_err();
    assert_eq!(e.describe(), "Mismatch in m[a].return_type:\n\"2\"\n\"1\"");
}

#[test]
fn set_ignores_order_and_repeats() {
    let a: Vec<i64> = vec![3, 1, 2, 1];
    let b: Vec<i64> = vec![1, 2, 3];
    assert!(sem_diff_set_t(&root_field("s"), &a, &b).is_ok());
}

#[test]
fn set_difference_on_left() {
    let a: Vec<i64> = vec![1, 2, 4];
    let b: Vec<i64> = vec![1, 2, 3];
    let e = sem_diff_set_t(&root_field("s"), &a, &b).unwrap_err();
    match &e {
        DiffError::SetDifference { path, only_on, value } => {
            assert_eq!(path.render(), "s");
            assert_eq!(*only_on, Side::Left);
            assert_eq!(value, "4");
        }
        _ => panic!("expected a set difference"),
    }
    assert_eq!(e.describe(), "In s lhs has value 4 but rhs does not");
}

#[test]
fn set_difference_on_right() {
    let a: Vec<i64> = vec![1, 2];
    let b: Vec<i64> = vec![2, 1, 7];
    let e = sem_diff_set_t(&root_field("s"), &a, &b).unwrap_err();
    assert!(matches!(e, DiffError::SetDifference { only_on: Side::Right, .. }));
    assert_eq!(e.describe(), "In s rhs has value 7 but lhs does not");
}
