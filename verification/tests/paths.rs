use rule_builder::path::{parse_path, path_to_string, usize_to_string};

#[test]
fn root_token_decodes_to_empty_path() {
    assert_eq!(parse_path("0"), Vec::<usize>::new());
}

#[test]
fn empty_path_encodes_to_root_token() {
    assert_eq!(path_to_string(&[]), "0".to_string());
}

#[test]
fn encode_simple_path() {
    assert_eq!(path_to_string(&[1, 2]), "0-1-2".to_string());
    assert_eq!(path_to_string(&[0]), "0-0".to_string());
    assert_eq!(path_to_string(&[10, 0, 3]), "0-10-0-3".to_string());
}

#[test]
fn decode_simple_path() {
    assert_eq!(parse_path("0-1-2"), vec![1, 2]);
    assert_eq!(parse_path("0-0"), vec![0]);
    assert_eq!(parse_path("0-10-0-3"), vec![10, 0, 3]);
}

#[test]
fn round_trip_concrete_paths() {
    for p in [
        vec![],
        vec![0],
        vec![1, 2, 3],
        vec![7, 0, 0, 42],
        vec![usize::MAX],
    ] {
        assert_eq!(parse_path(&path_to_string(&p)), p);
    }
}

#[test]
fn malformed_elements_are_dropped() {
    assert_eq!(parse_path("0-x-2"), vec![2]);
    assert_eq!(parse_path("0--3"), vec![3]);
    assert_eq!(parse_path("0-1.5-2"), vec![2]);
    assert_eq!(parse_path(""), Vec::<usize>::new());
    assert_eq!(parse_path("garbage"), Vec::<usize>::new());
}

#[test]
fn first_element_is_always_the_root_marker() {
    // Whatever stands first is treated as the root marker and dropped.
    assert_eq!(parse_path("9-2"), vec![2]);
}

#[test]
fn plus_sign_is_accepted_in_an_element() {
    assert_eq!(parse_path("0-+3"), vec![3]);
}

#[test]
fn overflowing_element_is_dropped() {
    assert_eq!(parse_path("0-99999999999999999999999999-1"), vec![1]);
}

#[test]
fn decimal_rendering() {
    assert_eq!(usize_to_string(0), "0".to_string());
    assert_eq!(usize_to_string(7), "7".to_string());
    assert_eq!(usize_to_string(240), "240".to_string());
    assert_eq!(usize_to_string(1005), "1005".to_string());
}
