//! Choice of the language of the messages meant for people.
//!
//! Order of precedence: an explicit choice, then the variable
//! `NEUROGRAPHRAG_LANG`, then the locale (`LC_ALL`, then `LANG`) when it
//! starts with `pt`, then English. Machine output never depends on it.
use vstd::prelude::*;
use vstd::string::*;

verus! {

#[derive(Clone, Copy, Debug, PartialEq, Eq, Structural)]
pub enum Language {
    English,
    Portugues,
}

/// `str::to_lowercase` of a text: its lowercase equivalent, as Unicode
/// defines it.
pub uninterp spec fn lowercase_of(s: Seq<char>) -> Seq<char>;

/// Calls `str::to_lowercase`. Its result is claimed to be a function of
/// the text alone, named `lowercase_of`; nothing more is claimed of it.
#[verifier::external_body]
fn to_lowercase(s: &str) -> (r: String)
    ensures
        r@ == lowercase_of(s@),
{
    s.to_lowercase()
}

/// `s` begins with the two characters `a`, `b`.
pub open spec fn starts_with2(s: Seq<char>, a: char, b: char) -> bool {
    s.len() >= 2 && s[0] == a && s[1] == b
}

fn text_starts_with2(s: &str, a: char, b: char) -> (r: bool)
    ensures
        r == starts_with2(s@, a, b),
{
    if s.unicode_len() < 2 {
        return false;
    }
    s.get_char(0) == a && s.get_char(1) == b
}

/// The language chosen by the environment, given the lowercased values of
/// `NEUROGRAPHRAG_LANG`, `LC_ALL` and `LANG` (`None` when unset).
pub open spec fn language_from_lowered(
    lang_var: Option<Seq<char>>,
    lc_all: Option<Seq<char>>,
    lang: Option<Seq<char>>,
) -> Language {
    if lang_var matches Some(v) && starts_with2(v, 'p', 't') {
        Language::Portugues
    } else if lang_var matches Some(v) && starts_with2(v, 'e', 'n') {
        Language::English
    } else if lc_all matches Some(v) && starts_with2(v, 'p', 't') {
        Language::Portugues
    } else if lang matches Some(v) && starts_with2(v, 'p', 't') {
        Language::Portugues
    } else {
        Language::English
    }
}

/// The lowercase form of an optional text.
pub open spec fn lowered(v: Option<Seq<char>>) -> Option<Seq<char>> {
    match v {
        Some(s) => Some(lowercase_of(s)),
        None => None,
    }
}

/// The view of an optional text.
pub open spec fn opt_view(v: Option<&str>) -> Option<Seq<char>> {
    match v {
        Some(s) => Some(s@),
        None => None,
    }
}

/// The language that the lowercased environment values select: Portuguese
/// when `NEUROGRAPHRAG_LANG` starts with `pt`, English when it starts with
/// `en`; else Portuguese when `LC_ALL` or then `LANG` starts with `pt`;
/// else English.
pub fn language_from_lowercase(
    lang_var: Option<&str>,
    lc_all: Option<&str>,
    lang: Option<&str>,
) -> (l: Language)
    ensures
        l == language_from_lowered(opt_view(lang_var), opt_view(lc_all), opt_view(lang)),
{
    if let Some(v) = lang_var {
        if text_starts_with2(v, 'p', 't') {
            return Language::Portugues;
        }
        if text_starts_with2(v, 'e', 'n') {
            return Language::English;
        }
    }
    if let Some(v) = lc_all {
        if text_starts_with2(v, 'p', 't') {
            return Language::Portugues;
        }
    }
    if let Some(v) = lang {
        if text_starts_with2(v, 'p', 't') {
            return Language::Portugues;
        }
    }
    Language::English
}

fn lowercase_opt(v: Option<&str>) -> (r: Option<String>)
    ensures
        match r {
            Some(s) => lowered(opt_view(v)) == Some(s@),
            None => v is None,
        },
{
    match v {
        Some(s) => Some(to_lowercase(s)),
        None => None,
    }
}

/// The language that the environment selects, from the values of
/// `NEUROGRAPHRAG_LANG`, `LC_ALL` and `LANG` (`None` when unset or not
/// Unicode); each value is compared in lowercase.
pub fn language_from_env_values(
    lang_var: Option<&str>,
    lc_all: Option<&str>,
    lang: Option<&str>,
) -> (l: Language)
    ensures
        l == language_from_lowered(
            lowered(opt_view(lang_var)),
            lowered(opt_view(lc_all)),
            lowered(opt_view(lang)),
        ),
        (l == Language::Portugues) <==> ({
        ||| (lowered(opt_view(lang_var)) matches Some(v) && v.len() >= 2 && v[0] == 'p' && v[1]
            == 't')
        ||| (!(lowered(opt_view(lang_var)) matches Some(v) && v.len() >= 2 && v[0] == 'e' && v[1]
            == 'n') && ({
        ||| (lowered(opt_view(lc_all)) matches Some(v) && v.len() >= 2 && v[0] == 'p' && v[1]
            == 't')
        ||| (lowered(opt_view(lang)) matches Some(v) && v.len() >= 2 && v[0] == 'p' && v[1]
            == 't')}))}),
{
    proof {
        lemma_environment_language(opt_view(lang_var), opt_view(lc_all), opt_view(lang));
    }
    let a = lowercase_opt(lang_var);
    let b = lowercase_opt(lc_all);
    let c = lowercase_opt(lang);
    let a_ref: Option<&str> = match &a {
        Some(s) => Some(s.as_str()),
        None => None,
    };
    let b_ref: Option<&str> = match &b {
        Some(s) => Some(s.as_str()),
        None => None,
    };
    let c_ref: Option<&str> = match &c {
        Some(s) => Some(s.as_str()),
        None => None,
    };
    language_from_lowercase(a_ref, b_ref, c_ref)
}

/// Which language the environment selects, stated over the characters of
/// the lowercased values of `NEUROGRAPHRAG_LANG` (`a`), `LC_ALL` (`b`) and
/// `LANG` (`c`): Portuguese exactly when `a` begins with `p`, `t`, or when
/// `a` does not begin with `e`, `n` and `b` or `c` begins with `p`, `t`;
/// English otherwise. A value shorter than two characters, or one whose
/// second character is not `t` (such as `pl_pl.utf-8`), never selects
/// Portuguese.
pub proof fn lemma_environment_language(
    lang_var: Option<Seq<char>>,
    lc_all: Option<Seq<char>>,
    lang: Option<Seq<char>>,
)
    ensures
        ({
            let a = lowered(lang_var);
            let b = lowered(lc_all);
            let c = lowered(lang);
            let l = language_from_lowered(a, b, c);
            &&& (l == Language::Portugues) <==> ({
            ||| (a matches Some(v) && v.len() >= 2 && v[0] == 'p' && v[1] == 't')
            ||| (!(a matches Some(v) && v.len() >= 2 && v[0] == 'e' && v[1] == 'n') && ({
            ||| (b matches Some(v) && v.len() >= 2 && v[0] == 'p' && v[1] == 't')
            ||| (c matches Some(v) && v.len() >= 2 && v[0] == 'p' && v[1] == 't')}))})
            &&& (l == Language::English) <==> (l != Language::Portugues)
        }),
{
}

/// The language to set up: the explicit choice when there is one, else
/// the one the environment selects.
pub fn init(explicit: Option<Language>, from_environment: Language) -> (l: Language)
    ensures
        l == match explicit {
            Some(x) => x,
            None => from_environment,
        },
{
    match explicit {
        Some(x) => x,
        None => from_environment,
    }
}

/// The active language: the one set up, or English when none was.
pub fn current(active: Option<Language>) -> (l: Language)
    ensures
        l == active_language(active),
{
    match active {
        Some(x) => x,
        None => Language::English,
    }
}

/// The language that `current` reports for an active setting: that
/// setting, or English when there is none.
pub open spec fn active_language(active: Option<Language>) -> Language {
    match active {
        Some(x) => x,
        None => Language::English,
    }
}

/// The variant of a message that belongs to `language`.
pub open spec fn message_in(language: Language, en: Seq<char>, pt: Seq<char>) -> Seq<char> {
    match language {
        Language::English => en,
        Language::Portugues => pt,
    }
}

/// The variant of a message that belongs to `language`.
pub fn tr<'a>(language: Language, en: &'a str, pt: &'a str) -> (s: &'a str)
    ensures
        s == match language {
            Language::English => en,
            Language::Portugues => pt,
        },
        s@ == message_in(language, en@, pt@),
{
    match language {
        Language::English => en,
        Language::Portugues => pt,
    }
}

/// The language in force once `proposed` is offered as the setting: the
/// one already set, if any (later settings are ignored), else `proposed`.
pub open spec fn settled(prior: Option<Language>, proposed: Language) -> Language {
    match prior {
        Some(x) => x,
        None => proposed,
    }
}

/// The language in force once `proposed` is offered as the setting, the
/// setting in force before being `prior`.
pub fn settle(prior: Option<Language>, proposed: Language) -> (l: Language)
    ensures
        l == settled(prior, proposed),
{
    match prior {
        Some(x) => x,
        None => proposed,
    }
}

/// The setting in force after the settings `proposals` are offered in
/// turn, starting from `prior`.
pub open spec fn settle_all(prior: Option<Language>, proposals: Seq<Language>) -> Option<Language>
    decreases proposals.len(),
{
    if proposals.len() == 0 {
        prior
    } else {
        settle_all(Some(settled(prior, proposals[0])), proposals.drop_first())
    }
}

/// The first setting wins: whatever settings are offered later, the
/// language in force is the one set first (the prior one, or else the
/// first offered).
pub proof fn lemma_first_setting_wins(prior: Option<Language>, proposals: Seq<Language>)
    requires
        prior is Some || proposals.len() > 0,
    ensures
        settle_all(prior, proposals) == Some(
            match prior {
                Some(l) => l,
                None => proposals[0],
            },
        ),
    decreases proposals.len(),
{
    if proposals.len() > 0 {
        lemma_first_setting_wins(Some(settled(prior, proposals[0])), proposals.drop_first());
    }
}

/// One session never mixes languages. The first message fixes the active
/// language (`current` of the setting in force, which then stays set);
/// after any settings offered in between, a later message comes in the
/// same language: both in English or both in Portuguese.
pub proof fn lemma_session_never_mixes(
    prior: Option<Language>,
    between: Seq<Language>,
    en1: Seq<char>,
    pt1: Seq<char>,
    en2: Seq<char>,
    pt2: Seq<char>,
)
    ensures
        ({
            let first = active_language(prior);
            let later = active_language(settle_all(Some(first), between));
            ||| (message_in(first, en1, pt1) == en1 && message_in(later, en2, pt2) == en2)
            ||| (message_in(first, en1, pt1) == pt1 && message_in(later, en2, pt2) == pt2)
        }),
{
    lemma_first_setting_wins(Some(active_language(prior)), between);
}

} // verus!
