use neurographrag::i18n::{current, init, language_from_env_values, language_from_lowercase, tr, Language};

#[test]
fn unset_environment_selects_english() {
    assert_eq!(language_from_env_values(None, Some("C"), Some("C")), Language::English);
    assert_eq!(language_from_env_values(None, None, None), Language::English);
}

#[test]
fn language_variable_pt_selects_portuguese() {
    assert_eq!(language_from_env_values(Some("pt"), None, None), Language::Portugues);
    assert_eq!(language_from_env_values(Some("pt-BR"), None, None), Language::Portugues);
    assert_eq!(language_from_env_values(Some("PT"), None, None), Language::Portugues);
}

#[test]
fn language_variable_en_wins_over_locale() {
    assert_eq!(language_from_env_values(Some("EN"), Some("pt_BR.UTF-8"), None), Language::English);
}

#[test]
fn other_language_variable_falls_back_to_locale() {
    assert_eq!(language_from_env_values(Some("fr"), None, Some("pt_PT")), Language::Portugues);
    assert_eq!(language_from_env_values(Some("fr"), Some("de_DE"), Some("en_US")), Language::English);
}

#[test]
fn locale_pt_br_selects_portuguese() {
    assert_eq!(language_from_env_values(None, Some("pt_BR.UTF-8"), None), Language::Portugues);
    assert_eq!(language_from_env_values(None, Some("C"), Some("pt_BR.UTF-8")), Language::Portugues);
}

#[test]
fn lowercase_values_are_matched_as_given() {
    assert_eq!(language_from_lowercase(Some("PT"), None, None), Language::English);
    assert_eq!(language_from_lowercase(Some("pt"), None, None), Language::Portugues);
    assert_eq!(language_from_lowercase(Some("p"), None, Some("pt")), Language::Portugues);
}

#[test]
fn explicit_choice_wins_and_english_is_the_fallback() {
    assert_eq!(init(Some(Language::English), Language::Portugues), Language::English);
    assert_eq!(init(None, Language::Portugues), Language::Portugues);
    assert_eq!(current(None), Language::English);
    assert_eq!(current(Some(Language::Portugues)), Language::Portugues);
}

#[test]
fn tr_picks_the_variant_of_the_language() {
    assert_eq!(tr(Language::English, "saved", "salvo"), "saved");
    assert_eq!(tr(Language::Portugues, "saved", "salvo"), "salvo");
}
