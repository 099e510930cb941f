use lingua::{Language, LanguageDetectorBuilder};
use syllibot::language_detection::{
    compose_unsupported_message, detect_language, find_likely_language, top_ranked,
};

#[test]
fn detects_french() {
    let text = "Bonjour le monde".to_string();
    assert_eq!(detect_language(&text), Ok("French".to_string()));
}

#[test]
fn detects_english() {
    let text = "The weather is lovely this morning, would you like some tea?".to_string();
    assert_eq!(detect_language(&text), Ok("English".to_string()));
}

#[test]
fn detects_german() {
    let text = "Guten Morgen, wie geht es dir heute?".to_string();
    assert_eq!(detect_language(&text), Ok("German".to_string()));
}

#[test]
fn detects_polish() {
    let text = "Dzień dobry, jak się masz? Mam nadzieję, że wszystko w porządku.".to_string();
    assert_eq!(detect_language(&text), Ok("Polish".to_string()));
}

#[test]
fn confident_on_unambiguous_text() {
    // the detector restricted to the supported set ranks the right
    // language first, with a clear margin
    let detector = LanguageDetectorBuilder::from_languages(&[
        Language::English,
        Language::Polish,
        Language::French,
        Language::German,
        Language::Spanish,
        Language::Romanian,
        Language::Turkish,
        Language::Dutch,
        Language::Swedish,
        Language::Slovene,
        Language::Portuguese,
    ])
    .build();
    let values = detector.compute_language_confidence_values("Bonjour le monde");
    assert_eq!(values[0].0, Language::French);
    assert!(values[0].1 > 0.5, "confidence was {}", values[0].1);
}

#[test]
fn likely_language_of_italian_text() {
    let text = "Ciao mondo, come stai oggi? Questo testo è scritto in italiano.".to_string();
    assert_eq!(find_likely_language(&text), "Italian");
}

#[test]
fn no_signal_text_reports_unrestricted_guess() {
    // digits and punctuation carry no language signal, so the restricted
    // detector finds nothing and the diagnostic names the unrestricted
    // detector's guess — some compiled-in language
    let text = "12345 67890 !!! ???".to_string();
    let error = detect_language(&text).expect_err("no language can be identified");
    let all_names = [
        "English", "Polish", "French", "German", "Spanish", "Romanian", "Turkish", "Dutch",
        "Swedish", "Slovene", "Portuguese", "Italian", "Russian", "Ukrainian", "Greek",
        "Czech", "Hungarian",
    ];
    let matched = all_names
        .iter()
        .any(|name| error == compose_unsupported_message(&name.to_string()));
    assert!(matched, "unexpected diagnostic: {}", error);
}

#[test]
fn cyrillic_text_reports_unrestricted_guess() {
    // no allow-listed language uses Cyrillic, so the restricted pass finds
    // nothing; the diagnostic names the unrestricted detector's guess
    let text = "Этот текст написан по-русски, мы хотим проверить результат.".to_string();
    let error = detect_language(&text).expect_err("Cyrillic is outside the allow-list");
    let guess = find_likely_language(&text);
    assert_eq!(guess, "Russian");
    assert_eq!(error, compose_unsupported_message(&guess));
}

#[test]
fn top_ranked_picks_first_entry() {
    let ranked = vec!["Italian".to_string(), "Spanish".to_string(), "French".to_string()];
    assert_eq!(top_ranked(&ranked), "Italian");
}

#[test]
fn diagnostic_message_embeds_guess() {
    let message = compose_unsupported_message(&"Italian".to_string());
    assert_eq!(
        message,
        "Unfortunately, I was unable to find the language of this text. It looks like you're \
         trying to convert text from Italian. This may not be supported currently. Use the \
         `/supported_languages` command to see a list."
    );
}
