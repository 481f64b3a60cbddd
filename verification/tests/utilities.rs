use claw_ql::clear_double_space::ClearDoubleSpace;
use claw_ql::sub_arc::SubArc;
use claw_ql::utils_some_is_err::{some_is_err, SomeIsErr};
use std::sync::Arc;

#[test]
fn lib_main() {
    let arc: Arc<str> = Arc::from("hello world");
    let sub_arc = SubArc::new(arc, 0..5);

    assert_eq!(&*sub_arc, "hello");
}

#[test]
fn sub_arc_reads_through_deref_and_as_ref() {
    let arc: Arc<str> = Arc::from("héllo");
    let sub = SubArc::new(arc.clone(), 0..3);
    assert!(sub.readable());
    assert_eq!(sub.as_ref(), "hé");
    assert_eq!(sub.len(), 3);
    let cut = SubArc::new(arc.clone(), 0..2);
    assert!(!cut.readable());
    assert_eq!(&*cut, "");
    let past = SubArc::new(arc, 4..9);
    assert!(!past.readable());
    assert_eq!(past.as_ref(), "");
}

#[test]
fn sub_arc_detaches_a_copy_of_the_substring() {
    let arc: Arc<str> = Arc::from("héllo wörld");
    let sub = SubArc::new(arc.clone(), 7..13);
    assert_eq!(sub.as_str(), "wörld");
    let detached = sub.detach();
    assert_eq!(&*detached, "wörld");
    assert!(!Arc::ptr_eq(&detached, &arc));
    assert!(Arc::ptr_eq(sub.backing_arc(), &arc));
    let copy = sub.clone();
    assert_eq!(copy, sub);
    assert_eq!(SubArc::new(arc, 3..3).as_str(), "");
}

#[test]
fn runs_of_spaces_collapse_into_one() {
    let out = ClearDoubleSpace::new("SELECT  *   FROM  todo ".chars().collect()).consume();
    assert_eq!(out, "SELECT * FROM todo ");
    assert_eq!(ClearDoubleSpace::new(vec![]).consume(), "");
    assert_eq!(ClearDoubleSpace::new("    ".chars().collect()).consume(), " ");
    assert_eq!(ClearDoubleSpace::new("a b".chars().collect()).consume(), "a b");
}

#[test]
fn an_optional_error_becomes_a_result() {
    assert_eq!(some_is_err(Some("bad")), Err("bad"));
    assert_eq!(some_is_err::<&str>(None), Ok(()));
    assert_eq!(Some(3).some_is_err(), Err(3));
    assert_eq!(None::<u8>.some_is_err(), Ok(()));
}
