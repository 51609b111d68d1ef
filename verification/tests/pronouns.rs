use udp_chat::{make_presets, Decode, Encode, PronounTable, Pronouns};

fn set(case_sensitive: bool, plural: bool, forms: [&str; 5]) -> Pronouns {
    Pronouns {
        case_sensitive,
        plural,
        subject: forms[0].to_string(),
        object: forms[1].to_string(),
        possessive: forms[2].to_string(),
        possessive_pronoun: forms[3].to_string(),
        reflexive: forms[4].to_string(),
    }
}

#[test]
fn presets_are_the_eight_sets_in_their_order() {
    let expected = vec![
        set(false, false, ["she", "her", "her", "hers", "herself"]),
        set(false, false, ["he", "him", "him", "him", "himself"]),
        set(false, false, ["they", "them", "their", "theirs", "themself"]),
        set(false, true, ["they", "them", "their", "theirs", "themselves"]),
        set(false, false, ["fae", "faer", "faer", "faers", "faerself"]),
        set(false, false, ["e", "em", "eir", "eirs", "emself"]),
        set(true, false, ["E", "Em", "Eir", "Eirs", "Emself"]),
        set(false, false, ["it", "its", "its", "its", "itself"]),
    ];
    assert_eq!(make_presets(), expected);
}

#[test]
fn short_format_is_subject_and_object() {
    assert_eq!(make_presets()[0].format_short(), "she/her");
    assert_eq!(set(false, false, ["", "", "", "", ""]).format_short(), "/");
}

#[test]
fn pronouns_format_is_the_five_forms() {
    assert_eq!(make_presets()[2].format_pronouns(), "they/them/their/theirs/themself");
    assert_eq!(set(true, true, ["a", "", "c", "", "e"]).format_pronouns(), "a//c//e");
}

#[test]
fn usage_names_what_holds_of_the_set() {
    let forms = ["a", "b", "c", "d", "e"];
    assert_eq!(set(false, false, forms).format_usage(), None);
    assert_eq!(set(false, true, forms).format_usage(), Some("plural".to_string()));
    assert_eq!(set(true, false, forms).format_usage(), Some("case-sensitive".to_string()));
    assert_eq!(set(true, true, forms).format_usage(), Some("plural, case-sensitive".to_string()));
}

#[test]
fn full_format_adds_the_usage_in_brackets() {
    let presets = make_presets();
    assert_eq!(presets[1].format_full(), "he/him/him/him/himself");
    assert_eq!(presets[3].format_full(), "they/them/their/theirs/themselves [plural]");
    assert_eq!(presets[6].format_full(), "E/Em/Eir/Eirs/Emself [case-sensitive]");
    assert_eq!(
        set(true, true, ["a", "b", "c", "d", "e"]).format_full(),
        "a/b/c/d/e [plural, case-sensitive]"
    );
}

#[test]
fn table_capitalizes_the_first_character() {
    let table = make_presets()[0].make_table();
    let expected = PronounTable {
        case_sensitive: false,
        plural: false,
        subject: "she".to_string(),
        object: "her".to_string(),
        possessive: "her".to_string(),
        possessive_pronoun: "hers".to_string(),
        reflexive: "herself".to_string(),
        subject_capitalized: "She".to_string(),
        object_capitalized: "Her".to_string(),
        possessive_capitalized: "Her".to_string(),
        possessive_pronoun_capitalized: "Hers".to_string(),
        reflexive_capitalized: "Herself".to_string(),
    };
    assert_eq!(table, expected);
}

#[test]
fn table_of_a_case_sensitive_set_changes_nothing() {
    let table = set(true, false, ["e", "em", "eir", "eirs", "emself"]).make_table();
    assert_eq!(table.subject_capitalized, "e");
    assert_eq!(table.object_capitalized, "em");
    assert_eq!(table.possessive_capitalized, "eir");
    assert_eq!(table.possessive_pronoun_capitalized, "eirs");
    assert_eq!(table.reflexive_capitalized, "emself");
    assert!(table.case_sensitive);
}

#[test]
fn table_leaves_empty_forms_empty_and_keeps_what_is_uppercase() {
    let table = set(false, true, ["", "x", "Xe", "1st", "a b"]).make_table();
    assert_eq!(table.subject_capitalized, "");
    assert_eq!(table.object_capitalized, "X");
    assert_eq!(table.possessive_capitalized, "Xe");
    assert_eq!(table.possessive_pronoun_capitalized, "1st");
    assert_eq!(table.reflexive_capitalized, "A b");
    assert!(table.plural);
}

#[test]
fn pronouns_travel_as_two_bytes_and_five_texts() {
    let they = set(false, true, ["they", "them", "their", "theirs", "themselves"]);
    let mut bytes = Vec::new();
    they.encode(&mut bytes);
    assert_eq!(&bytes[..7], &[0, 1, 4, b't', b'h', b'e', b'y']);
    let mut reader = bytes.as_slice();
    assert_eq!(Pronouns::decode(&mut reader), Ok(they));
    assert!(reader.is_empty());
    for preset in make_presets() {
        let mut bytes = Vec::new();
        preset.encode(&mut bytes);
        let mut reader = bytes.as_slice();
        assert_eq!(Pronouns::decode(&mut reader), Ok(preset));
    }
}

#[test]
fn table_capitalizes_a_first_character_of_any_script() {
    let table = set(false, false, ["éa", "ßx", "ωμ", "你", "🎉!"]).make_table();
    assert_eq!(table.subject_capitalized, "Éa");
    assert_eq!(table.object_capitalized, "SSx");
    assert_eq!(table.possessive_capitalized, "Ωμ");
    assert_eq!(table.possessive_pronoun_capitalized, "你");
    assert_eq!(table.reflexive_capitalized, "🎉!");
    assert_eq!(table.subject, "éa");
}
