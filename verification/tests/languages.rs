use syllibot::languages::{
    autocomplete_language, flag_to_language, get_available_flags, get_available_languages,
    language_select_menu_labels, supported_languages_listing,
};

#[test]
fn available_languages_list() {
    let languages = get_available_languages();
    assert_eq!(
        languages,
        vec![
            "English",
            "Polish",
            "French",
            "German",
            "Spanish",
            "Romanian",
            "Turkish",
            "Dutch",
            "Swedish",
            "Slovenian",
            "Portuguese",
        ]
    );
}

#[test]
fn available_flags_align_with_languages() {
    let flags = get_available_flags();
    let languages = get_available_languages();
    assert_eq!(flags.len(), languages.len());
    assert_eq!(flags[0], "\u{1f1fa}\u{1f1f8}");
    assert_eq!(flags[2], "\u{1f1eb}\u{1f1f7}");
    assert_eq!(flags[10], "\u{1f1f5}\u{1f1f9}");
}

#[test]
fn menu_labels_bounded_by_option_limit() {
    let labels = language_select_menu_labels();
    assert!(labels.len() <= 25);
    assert_eq!(labels, get_available_languages());
}

#[test]
fn autocomplete_filters_by_prefix() {
    assert_eq!(autocomplete_language("Po"), vec!["Polish", "Portuguese"]);
    assert_eq!(autocomplete_language("French"), vec!["French"]);
    assert_eq!(autocomplete_language("x"), Vec::<String>::new());
    assert_eq!(autocomplete_language("").len(), 11);
}

#[test]
fn flag_lookup_finds_language() {
    assert_eq!(flag_to_language("\u{1f1eb}\u{1f1f7}"), Some("French"));
    assert_eq!(flag_to_language("\u{1f1fa}\u{1f1f8}"), Some("English"));
    assert_eq!(flag_to_language("\u{1f1f5}\u{1f1f9}"), Some("Portuguese"));
}

#[test]
fn flag_lookup_rejects_other_emoji() {
    assert_eq!(flag_to_language("\u{1f600}"), None);
    assert_eq!(flag_to_language("not a flag"), None);
    assert_eq!(flag_to_language(""), None);
}

#[test]
fn listing_is_one_bullet_per_language() {
    let listing = supported_languages_listing();
    let expected = "- English\n- Polish\n- French\n- German\n- Spanish\n- Romanian\n- Turkish\n- Dutch\n- Swedish\n- Slovenian\n- Portuguese";
    assert_eq!(listing, expected);
}
