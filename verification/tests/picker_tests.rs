use ogedit::picker::encoding_picker_update_list;

#[test]
fn blank_needle_lists_everything() {
    assert_eq!(encoding_picker_update_list("", &[1, 2]), None);
    assert_eq!(encoding_picker_update_list(" \t\r\n\u{c}", &[1, 2]), None);
}

#[test]
fn matches_best_first_in_stable_order() {
    assert_eq!(encoding_picker_update_list("utf", &[0, 5, 3, 5, -1, 7]), Some(vec![5, 1, 3, 2]));
    assert_eq!(encoding_picker_update_list(" 8 ", &[0, -2]), Some(vec![]));
    assert_eq!(encoding_picker_update_list("\u{a0}", &[]), Some(vec![]));
}
