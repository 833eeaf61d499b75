use tabbycat_sync::rows::{
    bool_from_str, deserialize_fields_to_vec, flag_from_word, not_true, ret_false,
    tags_deserialize, RowError, Speaker,
};

fn cols(pairs: &[(&str, &str)]) -> Vec<(String, String)> {
    pairs.iter().map(|(k, v)| (k.to_string(), v.to_string())).collect()
}

#[test]
fn defaults_are_false() {
    assert!(!ret_false());
    assert!(!not_true());
}

#[test]
fn flags_are_read() {
    for word in ["t", "true", "1", "on", "y", "yes", " TRUE ", "Yes", "ON"] {
        assert_eq!(bool_from_str(word), Ok(true), "{}", word);
    }
    for word in ["f", "false", "0", "off", "n", "no", "", "  ", "FALSE", " No"] {
        assert_eq!(bool_from_str(word), Ok(false), "{:?}", word);
    }
    assert_eq!(bool_from_str(" Maybe "), Err(RowError::NotAFlag("maybe".to_string())));
    assert_eq!(bool_from_str("2"), Err(RowError::NotAFlag("2".to_string())));
    assert_eq!(flag_from_word("yes"), Some(true));
    assert_eq!(flag_from_word("Yes"), None);
    assert_eq!(flag_from_word(""), Some(false));
}

#[test]
fn tags_are_split_at_commas() {
    assert_eq!(tags_deserialize("a,b,,c"), vec!["a", "b", "c"]);
    assert_eq!(tags_deserialize(""), Vec::<String>::new());
    assert_eq!(tags_deserialize(",,"), Vec::<String>::new());
    assert_eq!(tags_deserialize("open, esl "), vec!["open", " esl "]);
    assert_eq!(tags_deserialize("one"), vec!["one"]);
}

#[test]
fn speakers_are_regrouped_and_sorted() {
    let columns = cols(&[
        ("full_name", "Acme A"),
        ("speaker2_name", "Bob"),
        ("speaker1_name", "Alice"),
        ("speaker10_name", "Judy"),
        ("speaker1_email", "alice@example.org"),
        ("speaker3_name", "  "),
        ("speaker3_email", ""),
        ("speaker2_categories", "esl, ,novice,"),
        ("speaker2_anonymous", "TRUE"),
        ("speaker1_anonymous", "yes"),
        ("speaker1_gender", "Male"),
        ("speaker2_gender", "FEMALE"),
        ("speaker10_gender", "nb"),
        ("speaker10_pronoun", "they"),
        ("speaker10_phone", "123"),
        ("speaker 2 _phone", "456"),
    ]);
    let speakers = deserialize_fields_to_vec(&columns).expect("well-formed columns");
    assert_eq!(
        speakers,
        vec![
            Speaker {
                name: "Alice".to_string(),
                categories: vec![],
                email: Some("alice@example.org".to_string()),
                phone: None,
                anonymous: false,
                code_name: None,
                url_key: None,
                gender: Some("M".to_string()),
                pronoun: None,
            },
            Speaker {
                name: "Bob".to_string(),
                categories: vec!["esl".to_string(), "novice".to_string()],
                email: None,
                phone: Some("456".to_string()),
                anonymous: true,
                code_name: None,
                url_key: None,
                gender: Some("F".to_string()),
                pronoun: None,
            },
            Speaker {
                name: "Judy".to_string(),
                categories: vec![],
                email: None,
                phone: Some("123".to_string()),
                anonymous: false,
                code_name: None,
                url_key: None,
                gender: Some("nb".to_string()),
                pronoun: Some("they".to_string()),
            },
        ]
    );
}

#[test]
fn speaker_fields_with_an_underscore_are_read() {
    let columns = cols(&[
        ("speaker1_name", "A"),
        ("speaker1_url_key", "k1"),
        ("speaker1_code_name", "cn"),
    ]);
    let speakers = deserialize_fields_to_vec(&columns).unwrap();
    assert_eq!(speakers.len(), 1);
    assert_eq!(speakers[0].name, "A");
    assert_eq!(speakers[0].url_key, Some("k1".to_string()));
    assert_eq!(speakers[0].code_name, Some("cn".to_string()));
    let panda = cols(&[("speaker1_name", "Alice"), ("speaker1_code_name", "Panda")]);
    assert_eq!(
        deserialize_fields_to_vec(&panda).unwrap()[0].code_name,
        Some("Panda".to_string())
    );
}

#[test]
fn speaker_numbers_are_decimal() {
    let columns = cols(&[
        ("speaker+10_name", "Ten"),
        ("speaker007_name", "Seven"),
        ("speaker 255 _name", "Last"),
        ("speaker0_name", "Zero"),
    ]);
    let speakers = deserialize_fields_to_vec(&columns).unwrap();
    let names: Vec<&str> = speakers.iter().map(|s| s.name.as_str()).collect();
    assert_eq!(names, vec!["Zero", "Seven", "Ten", "Last"]);
    for bad in ["speaker-1_name", "speaker_name", "speaker+_name", "speaker1 0_name", "speaker0x1_name"] {
        assert_eq!(
            deserialize_fields_to_vec(&cols(&[(bad, "x")])),
            Err(RowError::MalformedColumn(0)),
            "{}",
            bad
        );
    }
}

#[test]
fn later_column_counts() {
    let columns = cols(&[
        ("speaker1_name", "Alice"),
        ("speaker01_name", "Alicia"),
        ("speaker2_name", "Bob"),
        ("speaker02_name", " "),
    ]);
    let speakers = deserialize_fields_to_vec(&columns).unwrap();
    assert_eq!(speakers.len(), 1);
    assert_eq!(speakers[0].name, "Alicia");
}

#[test]
fn speaker_other_gender() {
    let columns = cols(&[("speaker1_name", "A"), ("speaker1_gender", "Other")]);
    assert_eq!(deserialize_fields_to_vec(&columns).unwrap()[0].gender, Some("O".to_string()));
}

#[test]
fn speaker_column_errors() {
    assert_eq!(
        deserialize_fields_to_vec(&cols(&[("speaker1_name", "A"), ("speakerX_name", "B")])),
        Err(RowError::MalformedColumn(1))
    );
    assert_eq!(
        deserialize_fields_to_vec(&cols(&[("speaker1", "A")])),
        Err(RowError::MalformedColumn(0))
    );
    assert_eq!(
        deserialize_fields_to_vec(&cols(&[("name", "A"), ("speaker256_name", "B")])),
        Err(RowError::MalformedColumn(1))
    );
    assert_eq!(
        deserialize_fields_to_vec(&cols(&[
            ("speaker7_email", "x@example.org"),
            ("speaker3_email", "y@example.org"),
            ("speaker1_name", "A"),
        ])),
        Err(RowError::MissingName(3))
    );
    assert_eq!(deserialize_fields_to_vec(&cols(&[("team", "A")])), Ok(vec![]));
    assert_eq!(deserialize_fields_to_vec(&vec![]), Ok(vec![]));
}

#[test]
fn speakers_of_all_numbers_come_in_order() {
    let mut columns = vec![];
    for n in (0..=255u32).rev() {
        columns.push((format!("speaker{}_name", n), format!("S{}", n)));
    }
    let speakers = deserialize_fields_to_vec(&columns).unwrap();
    assert_eq!(speakers.len(), 256);
    for (k, s) in speakers.iter().enumerate() {
        assert_eq!(s.name, format!("S{}", k));
    }
}

#[test]
fn flagged_texts_are_kept() {
    let parts = vec!["a".to_string(), " ".to_string(), "b".to_string()];
    assert_eq!(
        tabbycat_sync::rows::keep_flagged(&parts, &vec![true, false, true]),
        vec!["a", "b"]
    );
    assert_eq!(tabbycat_sync::rows::keep_flagged(&parts, &vec![false, true]), vec![" "]);
    assert_eq!(tabbycat_sync::rows::keep_non_blank(parts), vec!["a", "b"]);
}
