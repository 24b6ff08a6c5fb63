use sausagewiki::theme::{theme_from_hash, theme_from_str_hash, Theme};

#[test]
fn basic_display() {
    assert_eq!(&Theme::Red.to_string(), "red");
}

#[test]
fn display_kebab_case() {
    assert_eq!(&Theme::LightGreen.to_string(), "light-green");
}

#[test]
fn basic_from_str() {
    let indigo: Theme = "indigo".parse().unwrap();
    assert_eq!(indigo, Theme::Indigo);
}

#[test]
fn to_number() {
    assert_eq!(Theme::Red as i32, 0);
    assert_eq!(Theme::LightGreen as i32, 10);
    assert_eq!(Theme::BlueGray as i32, 18);
}

#[test]
fn from_str_hash() {
    assert_eq!(theme_from_str_hash("Bartefjes"), Theme::Orange);
}

#[test]
fn css_class_display() {
    assert_eq!(&Theme::Red.css_class().to_string(), "theme-red");
}

#[test]
fn every_name_parses_back_to_its_theme() {
    for index in 0..19u64 {
        let theme = Theme::from_index(index);
        assert_eq!(theme.index(), index);
        assert_eq!(theme as u64, index);
        assert_eq!(Theme::parse(theme.name()), Some(theme));
    }
    assert_eq!(Theme::parse("blueish-yellow"), None);
    assert!("blueish-yellow".parse::<Theme>().is_err());
}

#[test]
fn hash_selects_modulo_palette_size() {
    assert_eq!(theme_from_hash(0), Theme::Red);
    assert_eq!(theme_from_hash(18), Theme::BlueGray);
    assert_eq!(theme_from_hash(19), Theme::Red);
    assert_eq!(theme_from_hash(33), Theme::Orange);
    assert_eq!(theme_from_hash(u64::MAX), Theme::from_index(u64::MAX % 19));
}

#[test]
fn basic_serialize() {
    assert_eq!(Theme::Red.name(), "red");
}

#[test]
fn serialize_kebab_case() {
    assert_eq!(Theme::LightGreen.name(), "light-green");
}

#[test]
fn serialize_json() {
    let mut test = serde_json::Map::new();
    test.insert("x".into(), serde_json::Value::String(Theme::Red.to_string()));
    assert_eq!(
        serde_json::to_string(&serde_json::Value::Object(test)).unwrap(),
        "{\"x\":\"red\"}"
    );
}

#[test]
fn deserialize_json() {
    let test: serde_json::Value = serde_json::from_str("{\"x\":\"red\"}").unwrap();
    assert_eq!(test["x"].as_str().unwrap().parse::<Theme>().unwrap(), Theme::Red);
}

#[test]
fn serialize_urlencoded() {
    assert_eq!(
        serde_urlencoded::to_string(&[("x", Theme::Red.to_string())]).unwrap(),
        "x=red"
    );
}

#[test]
fn deserialize_urlencoded() {
    let test: Vec<(String, String)> = serde_urlencoded::from_str("x=red").unwrap();
    assert_eq!(test[0].0, "x");
    assert_eq!(test[0].1.parse::<Theme>().unwrap(), Theme::Red);
}

#[test]
fn basic_db_roundtrip() {
    // A theme is stored as its name and read back from it.
    let stored = Theme::DeepPurple.to_string();
    assert_eq!(Some(Theme::DeepPurple), Theme::parse(&stored));
}

#[test]
fn db_invalid_value_gives_error() {
    assert!("green".parse::<Theme>().is_ok());
    assert!("blueish-yellow".parse::<Theme>().is_err());
}

#[test]
fn hash_of_a_text_does_not_depend_on_where_the_text_lies() {
    let padded = String::from("xBartefjes and a longer tail, so that whole words are read");
    for start in 0..9 {
        let part = &padded[start..];
        assert_eq!(theme_from_str_hash(&part.to_string()), theme_from_str_hash(part));
    }
    assert_eq!(theme_from_str_hash(&padded[1..10]), Theme::Orange);
    // The digest of this text is 1988685042348123509.
    assert_eq!(
        theme_from_str_hash("to be or not to be"),
        theme_from_hash(1988685042348123509)
    );
}
