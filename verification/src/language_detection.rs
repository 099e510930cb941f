//! The language identifier.  A restricted detector, built from the
//! allow-listed languages only, names the source language of a message;
//! when it cannot, an unrestricted pass over every compiled-in language
//! supplies a best guess for the user-facing diagnostic.  Both passes run
//! through the `lingua` detector behind trusted wrappers; their contracts
//! promise only what holds of every outcome, since lingua's confidence
//! ordering ties to internal hash iteration for signal-free input.

use vstd::prelude::*;
use lingua::{Language, LanguageDetector, LanguageDetectorBuilder};

verus! {

/// The names the restricted detector can answer with: the display names
/// of the allow-listed `lingua` languages.  (Lingua displays Slovenian as
/// "Slovene".)
pub open spec fn restricted_detector_names() -> Seq<Seq<char>> {
    seq![
        "English"@,
        "Polish"@,
        "French"@,
        "German"@,
        "Spanish"@,
        "Romanian"@,
        "Turkish"@,
        "Dutch"@,
        "Swedish"@,
        "Slovene"@,
        "Portuguese"@,
    ]
}

/// The names the unrestricted pass can answer with: every language
/// compiled into the detector — the allow-list plus the extra languages
/// kept only so the fallback can name what it saw.
pub open spec fn unrestricted_detector_names() -> Seq<Seq<char>> {
    restricted_detector_names() + seq![
        "Italian"@,
        "Russian"@,
        "Ukrainian"@,
        "Greek"@,
        "Czech"@,
        "Hungarian"@,
    ]
}

/// Relies on lingua's `LanguageDetectorBuilder::from_languages` and
/// `LanguageDetector::detect_language_of`: a detector built from the
/// allow-listed languages answers with one of them (rendered as its
/// display name), or with `None` when no reliable pick exists.
#[verifier::external_body]
fn detect_supported(text: &String) -> (r: Option<String>)
    ensures
        r is Some ==> restricted_detector_names().contains(r.unwrap()@),
{
    let languages = vec![
        Language::English, Language::Polish, Language::French, Language::German,
        Language::Spanish, Language::Romanian, Language::Turkish, Language::Dutch,
        Language::Swedish, Language::Slovene, Language::Portuguese,
    ];
    let detector: LanguageDetector = LanguageDetectorBuilder::from_languages(&languages).build();
    detector.detect_language_of(text.as_str()).map(|lang| lang.to_string())
}

/// Relies on lingua's `LanguageDetectorBuilder::from_all_languages` and
/// `LanguageDetector::compute_language_confidence_values`: one entry per
/// compiled-in language (so never empty), ordered by descending
/// confidence.  The order on ties falls back to internal hash iteration,
/// so nothing is promised of it beyond membership.
#[verifier::external_body]
fn ranked_language_names(text: &String) -> (r: Vec<String>)
    ensures
        r@.len() > 0,
        forall|i: int| 0 <= i < r@.len() ==> unrestricted_detector_names().contains(r@[i]@),
{
    let detector: LanguageDetector = LanguageDetectorBuilder::from_all_languages().build();
    detector
        .compute_language_confidence_values(text.as_str())
        .into_iter()
        .map(|(language, _)| language.to_string())
        .collect()
}

/// The top entry of a ranking: the guess the diagnostic names.
pub fn top_ranked(ranked: &Vec<String>) -> (r: String)
    requires
        ranked@.len() > 0,
    ensures
        r@ == ranked@[0]@,
{
    ranked[0].clone()
}

/// The unrestricted detector's best guess for the text's language: the
/// top entry of the ranking it handed back.
pub fn find_likely_language(text: &String) -> (r: String)
    ensures
        unrestricted_detector_names().contains(r@),
{
    let ranked = ranked_language_names(text);
    top_ranked(&ranked)
}

/// The diagnostic sent when no supported language fits, naming the best
/// unrestricted guess.
pub open spec fn unsupported_message(guess: Seq<char>) -> Seq<char> {
    "Unfortunately, I was unable to find the language of this text. It looks like you're trying to convert text from "@
        + guess
        + ". This may not be supported currently. Use the `/supported_languages` command to see a list."@
}

/// Renders the diagnostic naming the given guess.
pub fn compose_unsupported_message(guess: &String) -> (r: String)
    ensures
        r@ == unsupported_message(guess@),
{
    let mut s = String::from_str(
        "Unfortunately, I was unable to find the language of this text. It looks like you're trying to convert text from ",
    );
    s.append(guess.as_str());
    s.append(
        ". This may not be supported currently. Use the `/supported_languages` command to see a list.",
    );
    proof {
        assert(s@ =~= unsupported_message(guess@));
    }
    s
}

/// Detects the source language of a text among the supported set; when
/// none fits, reports the unrestricted detector's best guess in a
/// user-facing diagnostic.
pub fn detect_language(text: &String) -> (r: Result<String, String>)
    ensures
        r is Ok ==> restricted_detector_names().contains(r->Ok_0@),
        r is Err ==> exists|g: Seq<char>|
            unrestricted_detector_names().contains(g) && r->Err_0@ == unsupported_message(g),
{
    match detect_supported(text) {
        Some(lang) => Ok(lang),
        None => {
            let likely_language = find_likely_language(text);
            let error_text = compose_unsupported_message(&likely_language);
            proof {
                assert(unrestricted_detector_names().contains(likely_language@) && error_text@
                    == unsupported_message(likely_language@));
            }
            Err(error_text)
        },
    }
}

} // verus!
