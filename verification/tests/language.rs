use tealdeer::language::get_languages;

#[test]
fn missing_lang_env() {
    let lang_list = get_languages(None, Some("de:fr"));
    assert_eq!(lang_list, vec!["en"]);
    let lang_list = get_languages(None, None);
    assert_eq!(lang_list, vec!["en"]);
}

#[test]
fn missing_language_env() {
    let lang_list = get_languages(Some("de"), None);
    assert_eq!(lang_list, vec!["de", "en"]);
}

#[test]
fn preference_order() {
    let lang_list = get_languages(Some("de"), Some("fr:cn"));
    assert_eq!(lang_list, vec!["fr", "cn", "de", "en"]);
}

#[test]
fn country_code_expansion() {
    let lang_list = get_languages(Some("pt_BR"), None);
    assert_eq!(lang_list, vec!["pt_BR", "pt", "en"]);
}

#[test]
fn ignore_posix_and_c() {
    let lang_list = get_languages(Some("POSIX"), None);
    assert_eq!(lang_list, vec!["en"]);
    let lang_list = get_languages(Some("C"), None);
    assert_eq!(lang_list, vec!["en"]);
}

#[test]
fn no_duplicates() {
    let lang_list = get_languages(Some("de"), Some("fr:de:cn:de"));
    assert_eq!(lang_list, vec!["fr", "de", "cn", "en"]);
}

#[test]
fn list_is_nonempty_ends_with_default_and_deduplicated() {
    let inputs: Vec<(Option<&str>, Option<&str>)> = vec![
        (None, None),
        (None, Some("de:fr")),
        (Some("de"), Some("fr:cn")),
        (Some("pt_BR"), Some("it_CH:POSIX")),
        (Some("POSIX"), Some("")),
        (Some("C"), None),
        (Some("en_US"), Some("en")),
    ];
    for (lang, language) in inputs {
        let list = get_languages(lang, language);
        assert!(!list.is_empty());
        assert!(list.contains(&"en".to_string()));
        for i in 0..list.len() {
            for j in 0..i {
                assert_ne!(list[i], list[j]);
            }
        }
    }
}

#[test]
fn region_form_comes_before_language_form() {
    let lang_list = get_languages(Some("de"), Some("it_CH"));
    assert_eq!(lang_list, vec!["it_CH", "it", "de", "en"]);
}

#[test]
fn default_code_seen_early_keeps_first_position() {
    // The default code is appended once more at the end and deduplicated,
    // so a preference list that already names it keeps its early position.
    let lang_list = get_languages(Some("de"), Some("en"));
    assert_eq!(lang_list, vec!["en", "de"]);
}
