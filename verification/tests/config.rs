use myx::config::{get, Config, TomlValue};

#[test]
fn empty_config_is_all_defaults() {
    let c = Config::parse("").expect("empty toml is valid");
    assert_eq!(c.scrolloff, 3);
    assert!(c.client_id.is_none());
}

#[test]
fn reads_keys() {
    let c = Config::parse("scrolloff = 5\nclient_id = \"abc\"").expect("valid toml");
    assert_eq!(c.scrolloff, 5);
    assert_eq!(c.client_id.as_deref(), Some("abc"));
}

#[test]
fn unknown_keys_are_ignored() {
    // An older myx must not choke on a config written for a newer one.
    let c = Config::parse("scrolloff = 1\nfuture_key = true").expect("valid toml");
    assert_eq!(c.scrolloff, 1);
}

#[test]
fn malformed_config_falls_back_rather_than_failing() {
    assert!(Config::parse("scrolloff = \"three\"").is_none());
}

#[test]
fn wrong_types_are_refused() {
    assert!(Config::parse("scrolloff = -1").is_none());
    assert!(Config::parse("scrolloff = 2.5").is_none());
    assert!(Config::parse("scrolloff = 2.0").is_none());
    assert!(Config::parse("scrolloff = inf").is_none());
    assert!(Config::parse("client_id = nan").is_none());
    assert!(Config::parse("scrolloff = 07:32:00").is_none());
    assert!(Config::parse("scrolloff = 9223372036854775808").is_none());
    assert!(Config::parse("scrolloff = [1]").is_none());
    assert!(Config::parse("client_id = 7").is_none());
    assert!(Config::parse("client_id = 1979-05-27").is_none());
    assert!(Config::parse("client_id = true").is_none());
    assert!(Config::parse("[client_id]\nx = 1").is_none());
    assert!(Config::parse("scrolloff = ").is_none());
    assert!(Config::parse("scrolloff = 1\nscrolloff = 2").is_none());
}

#[test]
fn values_of_every_kind_are_ignored_under_unknown_keys() {
    let text = "a = 1\nb = \"x\"\nc = 1.5\nd = false\ne = 1979-05-27T07:32:00Z\nf = [1, 2]\n\
                scrolloff = 0\n[g]\nscrolloff = 9\n";
    let c = Config::parse(text).expect("valid toml");
    assert_eq!(c.scrolloff, 0);
    assert!(c.client_id.is_none());
}

#[test]
fn tables_with_any_keys_are_ignored() {
    for text in [
        "x = { \"$__toml_private_datetime\" = 5 }\nscrolloff = 4",
        "scrolloff = 4\n[x]\n\"$__toml_private_datetime\" = \"no date\"",
        "scrolloff = 4\n[[x.y]]\n\"$__toml_private_datetime\" = []",
        "scrolloff = 4\nx = [nan, -inf, { \"$serde_json::private::Number\" = true }]",
        "scrolloff = 4\n\"$__toml_private_datetime\" = 1",
    ] {
        assert_eq!(Config::parse(text).expect("valid toml").scrolloff, 4);
    }
    assert!(Config::parse("client_id = { \"$__toml_private_datetime\" = \"x\" }").is_none());
}

#[test]
fn missing_or_malformed_file_gives_defaults() {
    for contents in [None, Some(""), Some("= nonsense"), Some("client_id = 1")] {
        let c = Config::load(contents);
        assert_eq!(c.scrolloff, 3);
        assert!(c.client_id.is_none());
    }
    assert_eq!(Config::load(Some("scrolloff = 8")).scrolloff, 8);
    assert_eq!(Config::default().scrolloff, 3);
}

#[test]
fn settings_are_read_once() {
    let mut slot = None;
    assert_eq!(get(&mut slot, Some("scrolloff = 4")).scrolloff, 4);
    assert_eq!(get(&mut slot, Some("scrolloff = 9")).scrolloff, 4);
    assert_eq!(get(&mut slot, None).scrolloff, 4);
}

#[test]
fn first_entry_with_a_key_counts() {
    let entries = vec![
        ("other".to_string(), TomlValue::Number(None)),
        ("scrolloff".to_string(), TomlValue::Number(Some(6))),
        ("client_id".to_string(), TomlValue::Text("id".to_string())),
    ];
    let c = Config::from_entries(&entries).expect("right types");
    assert_eq!(c.scrolloff, 6);
    assert_eq!(c.client_id.as_deref(), Some("id"));
    assert!(Config::from_entries(&vec![("scrolloff".to_string(), TomlValue::Table)]).is_none());
}

#[test]
fn config_path_is_below_home() {
    assert!(Config::path(None).is_none());
    let path = Config::path(Some("/home/u")).expect("a home");
    assert_eq!(path.home, "/home/u");
    assert_eq!(path.tail, ".config/myx/config.toml");
}
