use awatchlog::state::{file_key, get_state_file_path, load, save, Error, State, NOT_FOUND, UNREADABLE};

#[test]
fn key_is_the_hash_of_the_path() {
    assert_eq!(file_key("Hello World!"), "2ef7bde608ce5404e97d5f042f95f89f1c232871");
    assert_eq!(file_key(""), "da39a3ee5e6b4b0d3255bfef95601890afd80709");
    assert_eq!(file_key("/var/log/syslog").len(), 40);
    assert_ne!(file_key("/var/log/syslog"), file_key("/var/log/Syslog"));
    assert_eq!(file_key("/var/log/syslog"), file_key("/var/log/syslog"));
}

#[test]
fn state_file_is_named_after_the_key() {
    assert_eq!(
        get_state_file_path("Hello World!", Some("/tmp/states")),
        "/tmp/states/2ef7bde608ce5404e97d5f042f95f89f1c232871.json"
    );
    assert_eq!(
        get_state_file_path("Hello World!", None),
        "/usr/share/awatchlog/states/2ef7bde608ce5404e97d5f042f95f89f1c232871.json"
    );
    assert_eq!(get_state_file_path("", Some("")), "/da39a3ee5e6b4b0d3255bfef95601890afd80709.json");
}

#[test]
fn state_is_saved_as_one_json_object() {
    let text = save(&State { token: "4959".to_string(), offset: 1024 });
    let value: serde_json::Value = serde_json::from_str(&text).unwrap();
    let object = value.as_object().unwrap();
    assert_eq!(object.len(), 2);
    assert_eq!(object.get("token").unwrap().as_str(), Some("4959"));
    assert_eq!(object.get("offset").unwrap().as_u64(), Some(1024));
}

#[test]
fn saved_state_loads_again() {
    for (token, offset) in [("4959", 1024u64), ("", 0), ("with \"quotes\" and \\ and \n", u64::MAX), ("t\u{f6}ken", 7)] {
        let state = State { token: token.to_string(), offset };
        let text = save(&state);
        assert_eq!(load(Some(&text)), Ok(state));
    }
}

#[test]
fn missing_state_file_is_not_found() {
    assert_eq!(NOT_FOUND, 0);
    assert_eq!(load(None), Err(Error { code: 0, message: "State file not found".to_string() }));
}

#[test]
fn state_is_loaded_from_json() {
    assert_eq!(
        load(Some("{\"token\":\"abc\",\"offset\":12}")),
        Ok(State { token: "abc".to_string(), offset: 12 })
    );
    assert_eq!(
        load(Some(" { \"offset\" : 3, \"extra\": true, \"token\" : \"x\" } ")),
        Ok(State { token: "x".to_string(), offset: 3 })
    );
}

#[test]
fn corrupt_state_is_unreadable() {
    assert_eq!(UNREADABLE, 1);
    for text in [
        "",
        "not json",
        "{\"token\":\"abc\"}",
        "{\"offset\":12}",
        "{\"token\":5,\"offset\":12}",
        "{\"token\":\"abc\",\"offset\":-1}",
        "{\"token\":\"abc\",\"offset\":\"12\"}",
        "{\"token\":\"abc\",\"offset\":12",
        "[\"abc\",12]",
    ] {
        let loaded = load(Some(text));
        assert_eq!(loaded, Err(Error { code: 1, message: "State file holds no state".to_string() }));
    }
}
