use lofty::commands::properties::list_query;

#[test]
fn omits_property_type_when_no_filter_is_given() {
    // Sending any sentinel is refused upstream; "all types" must be expressed by
    // leaving the parameter off.
    let q = list_query(1, 50, None, None);
    assert_eq!(
        q,
        vec![("page", "1".to_string()), ("pageSize", "50".to_string())]
    );
}

#[test]
fn passes_a_property_type_through_verbatim() {
    // Upstream values contain spaces and are lowercase ("vacation rental"); values
    // unknown here must reach the API untouched so new upstream types just work.
    let q = list_query(2, 10, Some("vacation rental"), Some("Tiffin, OH"));
    assert_eq!(
        q,
        vec![
            ("page", "2".to_string()),
            ("pageSize", "10".to_string()),
            ("propertyType", "vacation rental".to_string()),
            ("location", "Tiffin, OH".to_string()),
        ]
    );
}

#[test]
fn large_page_numbers_are_written_out_in_full() {
    let q = list_query(4294967295, 1000, None, Some("all"));
    assert_eq!(q[0].1, "4294967295");
    assert_eq!(q[1].1, "1000");
    assert_eq!(q[2], ("location", "all".to_string()));
}
