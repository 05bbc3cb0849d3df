use hoi4ms::text::{order_by_text, order_ignoring_case};

#[test]
fn lists_texts_ignoring_case_and_keeping_ties_in_order() {
    let keys: Vec<String> = ["b.txt", "A.txt", "a.txt", "C.txt"].iter().map(|s| s.to_string()).collect();
    assert_eq!(order_ignoring_case(&keys), vec![1, 2, 0, 3]);
}

#[test]
fn an_empty_list_has_no_order() {
    assert_eq!(order_ignoring_case(&Vec::new()), Vec::<usize>::new());
}

#[test]
fn files_are_listed_by_name_as_str_compares_it() {
    let keys: Vec<String> = vec!["b.txt".into(), "a.txt".into(), "B.txt".into(), "a.txt".into()];
    assert_eq!(order_by_text(&keys), vec![2, 1, 3, 0]);
}
