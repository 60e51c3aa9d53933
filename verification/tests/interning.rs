use expr_eval::common::str_intern_range;
use expr_eval::common::InternStr;
use std::ptr;

#[test]
fn common_test_string_interning() {
    let x = "hello";
    let y = "hello";
    assert!(!ptr::eq(&x, &y));
    let mut interns: Vec<InternStr> = Vec::new();
    let px = str_intern_range(&mut interns, x);
    let py = str_intern_range(&mut interns, y);
    assert!(ptr::eq(px, py));
    let z = "hello!";
    let pz = str_intern_range(&mut interns, z);
    assert!(!ptr::eq(pz, px));
}

#[test]
fn main_test_string_interning() {
    let x = "hello";
    let y = "hello";
    assert!(!ptr::eq(&x, &y));
    let mut interns: Vec<InternStr> = Vec::new();
    let px = str_intern_range(&mut interns, x);
    let py = str_intern_range(&mut interns, y);
    assert!(ptr::eq(px, py));
    let z = "hello!";
    let pz = str_intern_range(&mut interns, z);
    assert!(!ptr::eq(pz, px));
}

#[test]
fn interning_keeps_distinct_texts() {
    let mut interns: Vec<InternStr> = Vec::new();
    str_intern_range(&mut interns, "one");
    str_intern_range(&mut interns, "two");
    str_intern_range(&mut interns, "one");
    assert_eq!(interns.len(), 2);
    assert_eq!(interns[0].text, "one");
    assert_eq!(interns[1].text, "two");
    assert_eq!(interns[0].len, 3);
}
