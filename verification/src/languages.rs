//! The fixed allow-list of languages the bot can route to the translation
//! service, the flag emoji that trigger a reaction-based translation, and
//! the small helpers that derive UI data from the list.

use vstd::prelude::*;
use crate::text::str_eq;

verus! {

/// Names of the languages the bot can route to the translation service,
/// in the fixed order used everywhere in the crate.
pub open spec fn supported_language_names() -> Seq<Seq<char>> {
    seq![
        "English"@,
        "Polish"@,
        "French"@,
        "German"@,
        "Spanish"@,
        "Romanian"@,
        "Turkish"@,
        "Dutch"@,
        "Swedish"@,
        "Slovenian"@,
        "Portuguese"@,
    ]
}

/// Flag emoji, one per supported language and in the same order: reacting
/// with the flag at index `i` requests a translation into
/// `supported_language_names()[i]`.
pub open spec fn supported_flag_emoji() -> Seq<Seq<char>> {
    seq![
        "\u{1f1fa}\u{1f1f8}"@,
        "\u{1f1f5}\u{1f1f1}"@,
        "\u{1f1eb}\u{1f1f7}"@,
        "\u{1f1e9}\u{1f1ea}"@,
        "\u{1f1f2}\u{1f1fd}"@,
        "\u{1f1f7}\u{1f1f4}"@,
        "\u{1f1f9}\u{1f1f7}"@,
        "\u{1f1f3}\u{1f1f1}"@,
        "\u{1f1f8}\u{1f1ea}"@,
        "\u{1f1f8}\u{1f1ee}"@,
        "\u{1f1f5}\u{1f1f9}"@,
    ]
}

/// The selection UI shows at most this many target languages.
pub const MENU_OPTION_LIMIT: usize = 25;

/// The allow-list of target languages, as shown to users.
pub fn get_available_languages() -> (r: Vec<&'static str>)
    ensures
        r@.len() == supported_language_names().len(),
        forall|i: int| 0 <= i < r@.len() ==> r@[i]@ == supported_language_names()[i],
{
    let mut v: Vec<&'static str> = Vec::new();
    v.push("English");
    v.push("Polish");
    v.push("French");
    v.push("German");
    v.push("Spanish");
    v.push("Romanian");
    v.push("Turkish");
    v.push("Dutch");
    v.push("Swedish");
    v.push("Slovenian");
    v.push("Portuguese");
    v
}

/// The flag emoji that trigger a reaction-based translation, aligned with
/// `get_available_languages`.
pub fn get_available_flags() -> (r: Vec<&'static str>)
    ensures
        r@.len() == supported_flag_emoji().len(),
        forall|i: int| 0 <= i < r@.len() ==> r@[i]@ == supported_flag_emoji()[i],
{
    let mut v: Vec<&'static str> = Vec::new();
    v.push("\u{1f1fa}\u{1f1f8}");
    v.push("\u{1f1f5}\u{1f1f1}");
    v.push("\u{1f1eb}\u{1f1f7}");
    v.push("\u{1f1e9}\u{1f1ea}");
    v.push("\u{1f1f2}\u{1f1fd}");
    v.push("\u{1f1f7}\u{1f1f4}");
    v.push("\u{1f1f9}\u{1f1f7}");
    v.push("\u{1f1f3}\u{1f1f1}");
    v.push("\u{1f1f8}\u{1f1ea}");
    v.push("\u{1f1f8}\u{1f1ee}");
    v.push("\u{1f1f5}\u{1f1f9}");
    v
}

/// The option labels of the selection UI: the supported languages,
/// truncated to the platform's option limit.
pub fn language_select_menu_labels() -> (r: Vec<&'static str>)
    ensures
        r@.len() == vstd::math::min(
            supported_language_names().len() as int,
            MENU_OPTION_LIMIT as int,
        ),
        forall|i: int| 0 <= i < r@.len() ==> r@[i]@ == supported_language_names()[i],
{
    let mut v = get_available_languages();
    v.truncate(MENU_OPTION_LIMIT);
    v
}

/// True when `p` is a prefix of `s`.
pub open spec fn starts_with_spec(s: Seq<char>, p: Seq<char>) -> bool {
    p.len() <= s.len() && s.take(p.len() as int) == p
}

/// Prefix test, specified over the views.
pub fn str_starts_with(s: &str, p: &str) -> (r: bool)
    ensures
        r == starts_with_spec(s@, p@),
{
    let sl = s.unicode_len();
    let pl = p.unicode_len();
    if pl > sl {
        return false;
    }
    let mut i: usize = 0;
    while i < pl
        invariant
            0 <= i <= pl,
            pl == p@.len(),
            sl == s@.len(),
            pl <= sl,
            forall|j: int| 0 <= j < i ==> s@[j] == p@[j],
        decreases pl - i,
    {
        if s.get_char(i) != p.get_char(i) {
            proof {
                assert(s@.take(pl as int)[i as int] != p@[i as int]);
            }
            return false;
        }
        i += 1;
    }
    proof {
        assert(s@.take(pl as int) =~= p@);
    }
    true
}

/// The supported languages whose names start with the given fragment, in
/// list order — the autocompletion source for the language arguments.
pub fn autocomplete_language(partial: &str) -> (r: Vec<String>)
    ensures
        r@.map_values(|s: String| s@) == supported_language_names().filter(
            |n: Seq<char>| starts_with_spec(n, partial@),
        ),
{
    let ghost pred = |n: Seq<char>| starts_with_spec(n, partial@);
    let names = get_available_languages();
    let mut out: Vec<String> = Vec::new();
    let mut i: usize = 0;
    proof {
        reveal(Seq::filter);
        assert(supported_language_names().take(0) =~= Seq::<Seq<char>>::empty());
        assert(out@.map_values(|s: String| s@) =~= supported_language_names().take(0).filter(
            pred,
        ));
    }
    while i < names.len()
        invariant
            0 <= i <= names@.len(),
            names@.len() == supported_language_names().len(),
            forall|j: int| 0 <= j < names@.len() ==> names@[j]@ == supported_language_names()[j],
            out@.map_values(|s: String| s@) == supported_language_names().take(i as int).filter(
                |n: Seq<char>| starts_with_spec(n, partial@),
            ),
        decreases names@.len() - i,
    {
        let name = names[i];
        if str_starts_with(name, partial) {
            out.push(String::from_str(name));
        }
        proof {
            reveal(Seq::filter);
            let taken = supported_language_names().take(i + 1);
            assert(taken.drop_last() =~= supported_language_names().take(i as int));
            assert(taken.last() == supported_language_names()[i as int]);
            assert(out@.map_values(|s: String| s@) =~= taken.filter(
                |n: Seq<char>| starts_with_spec(n, partial@),
            ));
        }
        i += 1;
    }
    proof {
        assert(supported_language_names().take(supported_language_names().len() as int)
            =~= supported_language_names());
    }
    out
}

/// Maps a reaction emoji to the language its flag stands for, or `None`
/// when the emoji is not one of the supported flags.
pub fn flag_to_language(emoji: &str) -> (r: Option<&'static str>)
    ensures
        match r {
            Some(lang) => exists|i: int|
                0 <= i < supported_flag_emoji().len() && #[trigger] supported_flag_emoji()[i]
                    == emoji@ && lang@ == supported_language_names()[i],
            None => forall|i: int|
                0 <= i < supported_flag_emoji().len() ==> #[trigger] supported_flag_emoji()[i]
                    != emoji@,
        },
{
    let flags = get_available_flags();
    let languages = get_available_languages();
    let mut i: usize = 0;
    while i < flags.len()
        invariant
            0 <= i <= flags@.len(),
            flags@.len() == supported_flag_emoji().len(),
            languages@.len() == supported_language_names().len(),
            flags@.len() == languages@.len(),
            forall|j: int| 0 <= j < flags@.len() ==> flags@[j]@ == supported_flag_emoji()[j],
            forall|j: int|
                0 <= j < languages@.len() ==> languages@[j]@ == supported_language_names()[j],
            forall|j: int| 0 <= j < i ==> #[trigger] supported_flag_emoji()[j] != emoji@,
        decreases flags@.len() - i,
    {
        if str_eq(flags[i], emoji) {
            return Some(languages[i]);
        }
        i += 1;
    }
    None
}

/// The bullet list of names shown by the supported-languages command.
pub open spec fn bullet_lines(names: Seq<Seq<char>>) -> Seq<char>
    decreases names.len(),
{
    if names.len() == 0 {
        Seq::empty()
    } else if names.len() == 1 {
        "- "@ + names[0]
    } else {
        "- "@ + names[0] + "\n"@ + bullet_lines(names.drop_first())
    }
}

/// Appending one more name extends the bullet list by one line.
proof fn lemma_bullet_lines_snoc(names: Seq<Seq<char>>, x: Seq<char>)
    ensures
        bullet_lines(names.push(x)) == if names.len() == 0 {
            "- "@ + x
        } else {
            bullet_lines(names) + "\n"@ + "- "@ + x
        },
    decreases names.len(),
{
    let whole = names.push(x);
    if names.len() == 0 {
        assert(whole.len() == 1 && whole[0] == x);
    } else if names.len() == 1 {
        assert(whole.drop_first() =~= seq![x]);
        assert(bullet_lines(whole.drop_first()) == "- "@ + x);
        assert("- "@ + names[0] + "\n"@ + ("- "@ + x) =~= ("- "@ + names[0]) + "\n"@ + "- "@
            + x);
    } else {
        assert(whole.drop_first() =~= names.drop_first().push(x));
        lemma_bullet_lines_snoc(names.drop_first(), x);
        assert("- "@ + names[0] + "\n"@ + (bullet_lines(names.drop_first()) + "\n"@ + "- "@ + x)
            =~= ("- "@ + names[0] + "\n"@ + bullet_lines(names.drop_first())) + "\n"@ + "- "@
            + x);
    }
}

/// Renders the listing of supported languages, one bulleted name per line.
pub fn supported_languages_listing() -> (r: String)
    ensures
        r@ == bullet_lines(supported_language_names()),
{
    let names = get_available_languages();
    let mut out = String::new();
    let mut i: usize = 0;
    proof {
        assert(supported_language_names().take(0) =~= Seq::<Seq<char>>::empty());
    }
    while i < names.len()
        invariant
            0 <= i <= names@.len(),
            names@.len() == supported_language_names().len(),
            forall|j: int| 0 <= j < names@.len() ==> names@[j]@ == supported_language_names()[j],
            out@ == bullet_lines(supported_language_names().take(i as int)),
        decreases names@.len() - i,
    {
        if i > 0 {
            out.append("\n");
        }
        out.append("- ");
        out.append(names[i]);
        proof {
            let taken = supported_language_names().take(i as int);
            lemma_bullet_lines_snoc(taken, supported_language_names()[i as int]);
            assert(supported_language_names().take(i + 1) =~= taken.push(
                supported_language_names()[i as int],
            ));
            assert(out@ =~= bullet_lines(supported_language_names().take(i + 1)));
        }
        i += 1;
    }
    proof {
        assert(supported_language_names().take(supported_language_names().len() as int)
            =~= supported_language_names());
    }
    out
}

} // verus!
