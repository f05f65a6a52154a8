use ffrs::Parameters;

#[test]
fn get_returns_what_insert_wrote() {
    let mut params = Parameters::new();
    assert_eq!(params.insert("width".to_string(), "1280".to_string()), None);
    assert_eq!(params.get(&"width".to_string()), Some(&"1280".to_string()));
    assert_eq!(params.get(&"height".to_string()), None);
}

#[test]
fn insert_replaces_and_returns_previous_value() {
    let mut params = Parameters::new();
    params.insert("vcodec".to_string(), "libx264".to_string());
    params.insert("acodec".to_string(), "aac".to_string());
    let previous = params.insert("vcodec".to_string(), "libx265".to_string());
    assert_eq!(previous, Some("libx264".to_string()));
    assert_eq!(params.get(&"vcodec".to_string()), Some(&"libx265".to_string()));
    assert_eq!(params.get(&"acodec".to_string()), Some(&"aac".to_string()));
}

#[test]
fn empty_parameters_hold_nothing() {
    let params = Parameters::new();
    assert_eq!(params.get(&String::new()), None);
}
