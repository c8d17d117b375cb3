use cooking_book::store::Store;

#[test]
fn test_store_size() {
    let it = Store::get_store_iterator();
    let size = it.len();
    assert_eq!(size, 4);
}

#[test]
fn test_lookup_store() {
    assert_eq!(Store::lookup_store_number(0), Store::Rewe);
    assert_eq!(Store::lookup_store_number(1), Store::DM);
    assert_eq!(Store::lookup_store_number(2), Store::Denz);
    assert_eq!(Store::lookup_store_number(3), Store::Any);
    assert_eq!(Store::lookup_store_number(4), Store::Any);
}

#[test]
fn test_store_code_roundtrip() {
    for s in [Store::Rewe, Store::DM, Store::Denz] {
        let code = s.code();
        assert!(code >= 0);
        assert_eq!(Store::lookup_store_number(code as usize), s);
    }
    assert_eq!(Store::Any.code(), -1);
}

#[test]
fn test_all_as_json() {
    assert_eq!(
        Store::all_as_json(),
        "{\"stores\": [\"Rewe\", \"DM\", \"Denz\", \"Any\"]}"
    );
}
