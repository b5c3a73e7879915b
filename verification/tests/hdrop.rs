use clipboard_manager::hdrop::file_list;

#[test]
fn file_list_is_nul_terminated_utf16_with_a_closing_nul() {
    let paths = vec!["C:\\a.txt".to_string(), "D:\\ü\\𝄞.png".to_string()];
    let mut expected: Vec<u16> = Vec::new();
    for p in &paths {
        expected.extend(p.encode_utf16());
        expected.push(0);
    }
    expected.push(0);
    assert_eq!(file_list(&paths), expected);
}

#[test]
fn empty_file_list_is_a_single_nul() {
    assert_eq!(file_list(&vec![]), vec![0u16]);
}
