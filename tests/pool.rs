use texbox::string_pool::{
    generate_checksum, generate_initial_memory_pool_file, prepare_compiletime_string_pool, string_pool_checksum,
    string_pool_index,
};

#[test]
fn pool_is_sorted_without_repeats_or_single_bytes() {
    let literals = vec!["abc", "a", "xyz", "abc", "ab", "", "Z"];
    let pool = prepare_compiletime_string_pool(&literals);
    assert_eq!(pool, vec!["", "ab", "abc", "xyz"]);
}

#[test]
fn pool_indices() {
    let pool = prepare_compiletime_string_pool(&vec!["nullfont", "par", "x", "hbox"]);
    assert_eq!(pool, vec!["hbox", "nullfont", "par"]);
    assert_eq!(string_pool_index(&pool, "x"), 120);
    assert_eq!(string_pool_index(&pool, "hbox"), 256);
    assert_eq!(string_pool_index(&pool, "par"), 258);
}

#[test]
fn checksum_value() {
    assert_eq!(generate_checksum(), 123456789);
    assert_eq!(string_pool_checksum(), 123456789);
}

#[test]
fn pool_file_layout() {
    let long = "y".repeat(120);
    let pool = vec!["ab", "xyz", long.as_str()];
    let file = generate_initial_memory_pool_file(&pool);
    let mut expected = b"02ab\n03xyz\n120".to_vec();
    expected.extend_from_slice(long.as_bytes());
    expected.extend_from_slice(b"\n*123456789");
    assert_eq!(file, expected);
    assert_eq!(generate_initial_memory_pool_file(&Vec::new()), b"*123456789".to_vec());
}
