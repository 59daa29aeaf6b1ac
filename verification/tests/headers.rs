use http_server::Headers;

#[test]
fn new_headers_are_empty() {
    let headers = Headers::new();
    assert_eq!(headers.len(), 0);
    assert_eq!(headers.get("Host"), None);
    assert!(!headers.contains_key("Host"));
    assert!(!headers.contains_key(""));
}

#[test]
fn inserted_fields_are_found_by_their_exact_name() {
    let mut headers = Headers::new();
    headers.insert("Host".to_string(), "localhost".to_string());
    headers.insert("".to_string(), "nameless".to_string());
    assert_eq!(headers.len(), 2);
    assert_eq!(headers.get("Host").unwrap(), "localhost");
    assert_eq!(headers.get("").unwrap(), "nameless");
    assert_eq!(headers.get("Hos"), None);
    assert_eq!(headers.get("Host "), None);
    assert_eq!(headers.get("host"), None);
    assert!(headers.contains_key("Host"));
    assert!(!headers.contains_key("HOST"));
}

#[test]
fn insert_replaces_in_place_and_appends_new_names() {
    let mut headers = Headers::new();
    headers.insert("A".to_string(), "1".to_string());
    headers.insert("B".to_string(), "2".to_string());
    headers.insert("C".to_string(), "3".to_string());
    headers.insert("B".to_string(), "4".to_string());
    headers.insert("A".to_string(), "5".to_string());
    headers.insert("D".to_string(), "6".to_string());
    assert_eq!(headers.len(), 4);
    let mut seen: Vec<(String, String)> = Vec::new();
    let mut i: usize = 0;
    while i < headers.len() {
        seen.push((headers.name_at(i).to_string(), headers.value_at(i).to_string()));
        i += 1;
    }
    let want: Vec<(String, String)> = [("A", "5"), ("B", "4"), ("C", "3"), ("D", "6")]
        .iter()
        .map(|(name, value)| (name.to_string(), value.to_string()))
        .collect();
    assert_eq!(seen, want);
}

#[test]
fn clone_keeps_fields_and_is_independent() {
    let mut headers = Headers::new();
    headers.insert("A".to_string(), "1".to_string());
    headers.insert("B".to_string(), "2".to_string());
    let mut copy = headers.clone();
    copy.insert("A".to_string(), "9".to_string());
    copy.insert("C".to_string(), "3".to_string());
    assert_eq!(headers.len(), 2);
    assert_eq!(headers.get("A").unwrap(), "1");
    assert_eq!(headers.get("C"), None);
    assert_eq!(copy.len(), 3);
    assert_eq!(copy.get("A").unwrap(), "9");
    assert_eq!(copy.get("B").unwrap(), "2");
    assert_eq!(copy.name_at(0), "A");
    assert_eq!(copy.name_at(2), "C");
}

#[test]
fn names_that_differ_in_encoding_length_are_different() {
    let mut headers = Headers::new();
    headers.insert("e".to_string(), "plain".to_string());
    headers.insert("\u{e9}".to_string(), "accented".to_string());
    headers.insert("e\u{301}".to_string(), "combining".to_string());
    assert_eq!(headers.len(), 3);
    assert_eq!(headers.get("e").unwrap(), "plain");
    assert_eq!(headers.get("\u{e9}").unwrap(), "accented");
    assert_eq!(headers.get("e\u{301}").unwrap(), "combining");
}
