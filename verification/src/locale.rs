//! The locales the documentation is published in.
use vstd::prelude::*;
use crate::text::str_eq;

verus! {

/// A content locale.
#[derive(Clone, Copy, Debug, PartialEq, Eq, Hash, Structural)]
pub enum Locale {
    EnUs,
    De,
    Es,
    Fr,
    Ja,
    Ko,
    PtBr,
    Ru,
    ZhCn,
    ZhTw,
}

/// A string that names no locale.
#[derive(Clone, Debug)]
pub enum LocaleError {
    InvalidLocale(String),
}

/// How a locale is written in URLs.
pub open spec fn spec_url_str(l: Locale) -> Seq<char> {
    match l {
        Locale::EnUs => "en-US"@,
        Locale::De => "de"@,
        Locale::Es => "es"@,
        Locale::Fr => "fr"@,
        Locale::Ja => "ja"@,
        Locale::Ko => "ko"@,
        Locale::PtBr => "pt-BR"@,
        Locale::Ru => "ru"@,
        Locale::ZhCn => "zh-CN"@,
        Locale::ZhTw => "zh-TW"@,
    }
}

/// How a locale is written in folder names.
pub open spec fn spec_folder_str(l: Locale) -> Seq<char> {
    match l {
        Locale::EnUs => "en-us"@,
        Locale::De => "de"@,
        Locale::Es => "es"@,
        Locale::Fr => "fr"@,
        Locale::Ja => "ja"@,
        Locale::Ko => "ko"@,
        Locale::PtBr => "pt-br"@,
        Locale::Ru => "ru"@,
        Locale::ZhCn => "zh-cn"@,
        Locale::ZhTw => "zh-tw"@,
    }
}

/// The locale named by `s`, in its URL or its folder spelling.
pub open spec fn spec_locale_from(s: Seq<char>) -> Option<Locale> {
    if s == "en-US"@ || s == "en-us"@ {
        Some(Locale::EnUs)
    } else if s == "de"@ {
        Some(Locale::De)
    } else if s == "es"@ {
        Some(Locale::Es)
    } else if s == "fr"@ {
        Some(Locale::Fr)
    } else if s == "ja"@ {
        Some(Locale::Ja)
    } else if s == "ko"@ {
        Some(Locale::Ko)
    } else if s == "pt-BR"@ || s == "pt-br"@ {
        Some(Locale::PtBr)
    } else if s == "ru"@ {
        Some(Locale::Ru)
    } else if s == "zh-CN"@ || s == "zh-cn"@ {
        Some(Locale::ZhCn)
    } else if s == "zh-TW"@ || s == "zh-tw"@ {
        Some(Locale::ZhTw)
    } else {
        None
    }
}

impl Locale {
    /// The default locale.
    pub fn default_locale() -> (r: Locale)
        ensures
            r == Locale::EnUs,
    {
        Locale::EnUs
    }

    /// How the locale is written in URLs.
    pub fn as_url_str(&self) -> (r: &'static str)
        ensures
            r@ == spec_url_str(*self),
    {
        match self {
            Locale::EnUs => "en-US",
            Locale::De => "de",
            Locale::Es => "es",
            Locale::Fr => "fr",
            Locale::Ja => "ja",
            Locale::Ko => "ko",
            Locale::PtBr => "pt-BR",
            Locale::Ru => "ru",
            Locale::ZhCn => "zh-CN",
            Locale::ZhTw => "zh-TW",
        }
    }

    /// How the locale is written in folder names.
    pub fn as_folder_str(&self) -> (r: &'static str)
        ensures
            r@ == spec_folder_str(*self),
    {
        match self {
            Locale::EnUs => "en-us",
            Locale::De => "de",
            Locale::Es => "es",
            Locale::Fr => "fr",
            Locale::Ja => "ja",
            Locale::Ko => "ko",
            Locale::PtBr => "pt-br",
            Locale::Ru => "ru",
            Locale::ZhCn => "zh-cn",
            Locale::ZhTw => "zh-tw",
        }
    }

    /// Reads a locale from its URL or folder spelling.
    pub fn from_str(s: &str) -> (r: Result<Locale, LocaleError>)
        ensures
            match spec_locale_from(s@) {
                Some(l) => r == Ok::<Locale, LocaleError>(l),
                None => r matches Err(LocaleError::InvalidLocale(t)) && t@ == s@,
            },
    {
        if str_eq(s, "en-US") || str_eq(s, "en-us") {
            Ok(Locale::EnUs)
        } else if str_eq(s, "de") {
            Ok(Locale::De)
        } else if str_eq(s, "es") {
            Ok(Locale::Es)
        } else if str_eq(s, "fr") {
            Ok(Locale::Fr)
        } else if str_eq(s, "ja") {
            Ok(Locale::Ja)
        } else if str_eq(s, "ko") {
            Ok(Locale::Ko)
        } else if str_eq(s, "pt-BR") || str_eq(s, "pt-br") {
            Ok(Locale::PtBr)
        } else if str_eq(s, "ru") {
            Ok(Locale::Ru)
        } else if str_eq(s, "zh-CN") || str_eq(s, "zh-cn") {
            Ok(Locale::ZhCn)
        } else if str_eq(s, "zh-TW") || str_eq(s, "zh-tw") {
            Ok(Locale::ZhTw)
        } else {
            Err(LocaleError::InvalidLocale(s.to_owned()))
        }
    }
}

/// A locale's URL spelling and its folder spelling both name it again.
pub proof fn law_locale_spelling(l: Locale)
    ensures
        spec_locale_from(spec_url_str(l)) == Some(l),
        spec_locale_from(spec_folder_str(l)) == Some(l),
{
    reveal_strlit("en-US");
    reveal_strlit("en-us");
    reveal_strlit("de");
    reveal_strlit("es");
    reveal_strlit("fr");
    reveal_strlit("ja");
    reveal_strlit("ko");
    reveal_strlit("pt-BR");
    reveal_strlit("pt-br");
    reveal_strlit("ru");
    reveal_strlit("zh-CN");
    reveal_strlit("zh-cn");
    reveal_strlit("zh-TW");
    reveal_strlit("zh-tw");
    assert("en-US"@.len() == 5 && "en-us"@.len() == 5 && "pt-BR"@.len() == 5 && "pt-br"@.len() == 5);
    assert("zh-CN"@.len() == 5 && "zh-cn"@.len() == 5 && "zh-TW"@.len() == 5 && "zh-tw"@.len() == 5);
    assert("de"@.len() == 2 && "es"@.len() == 2 && "fr"@.len() == 2 && "ja"@.len() == 2 && "ko"@.len() == 2 && "ru"@.len() == 2);
    match l {
        Locale::EnUs => {
            assert("en-us"@[3] != "en-US"@[3]);
            assert("en-US"@[3] != "en-us"@[3]);
            assert("en-US"@[0] != "pt-BR"@[0]);
            assert("en-us"@[0] != "pt-BR"@[0]);
            assert("en-US"@[0] != "pt-br"@[0]);
            assert("en-us"@[0] != "pt-br"@[0]);
            assert("en-US"@[0] != "zh-CN"@[0]);
            assert("en-us"@[0] != "zh-CN"@[0]);
            assert("en-US"@[0] != "zh-cn"@[0]);
            assert("en-us"@[0] != "zh-cn"@[0]);
            assert("en-US"@[0] != "zh-TW"@[0]);
            assert("en-us"@[0] != "zh-TW"@[0]);
            assert("en-US"@[0] != "zh-tw"@[0]);
            assert("en-us"@[0] != "zh-tw"@[0]);
        },
        Locale::De => {
            assert("de"@[0] != "es"@[0]);
            assert("de"@[0] != "fr"@[0]);
            assert("de"@[0] != "ja"@[0]);
            assert("de"@[0] != "ko"@[0]);
            assert("de"@[0] != "ru"@[0]);
        },
        Locale::Es => {
            assert("es"@[0] != "de"@[0]);
            assert("es"@[0] != "fr"@[0]);
            assert("es"@[0] != "ja"@[0]);
            assert("es"@[0] != "ko"@[0]);
            assert("es"@[0] != "ru"@[0]);
        },
        Locale::Fr => {
            assert("fr"@[0] != "de"@[0]);
            assert("fr"@[0] != "es"@[0]);
            assert("fr"@[0] != "ja"@[0]);
            assert("fr"@[0] != "ko"@[0]);
            assert("fr"@[0] != "ru"@[0]);
        },
        Locale::Ja => {
            assert("ja"@[0] != "de"@[0]);
            assert("ja"@[0] != "es"@[0]);
            assert("ja"@[0] != "fr"@[0]);
            assert("ja"@[0] != "ko"@[0]);
            assert("ja"@[0] != "ru"@[0]);
        },
        Locale::Ko => {
            assert("ko"@[0] != "de"@[0]);
            assert("ko"@[0] != "es"@[0]);
            assert("ko"@[0] != "fr"@[0]);
            assert("ko"@[0] != "ja"@[0]);
            assert("ko"@[0] != "ru"@[0]);
        },
        Locale::PtBr => {
            assert("pt-br"@[0] != "en-US"@[0]);
            assert("pt-BR"@[0] != "en-US"@[0]);
            assert("pt-br"@[0] != "en-us"@[0]);
            assert("pt-BR"@[0] != "en-us"@[0]);
            assert("pt-br"@[3] != "pt-BR"@[3]);
            assert("pt-BR"@[3] != "pt-br"@[3]);
            assert("pt-br"@[0] != "zh-CN"@[0]);
            assert("pt-BR"@[0] != "zh-CN"@[0]);
            assert("pt-br"@[0] != "zh-cn"@[0]);
            assert("pt-BR"@[0] != "zh-cn"@[0]);
            assert("pt-br"@[0] != "zh-TW"@[0]);
            assert("pt-BR"@[0] != "zh-TW"@[0]);
            assert("pt-br"@[0] != "zh-tw"@[0]);
            assert("pt-BR"@[0] != "zh-tw"@[0]);
        },
        Locale::Ru => {
            assert("ru"@[0] != "de"@[0]);
            assert("ru"@[0] != "es"@[0]);
            assert("ru"@[0] != "fr"@[0]);
            assert("ru"@[0] != "ja"@[0]);
            assert("ru"@[0] != "ko"@[0]);
        },
        Locale::ZhCn => {
            assert("zh-cn"@[0] != "en-US"@[0]);
            assert("zh-CN"@[0] != "en-US"@[0]);
            assert("zh-cn"@[0] != "en-us"@[0]);
            assert("zh-CN"@[0] != "en-us"@[0]);
            assert("zh-cn"@[0] != "pt-BR"@[0]);
            assert("zh-CN"@[0] != "pt-BR"@[0]);
            assert("zh-cn"@[0] != "pt-br"@[0]);
            assert("zh-CN"@[0] != "pt-br"@[0]);
            assert("zh-cn"@[3] != "zh-CN"@[3]);
            assert("zh-CN"@[3] != "zh-cn"@[3]);
            assert("zh-cn"@[3] != "zh-TW"@[3]);
            assert("zh-CN"@[3] != "zh-TW"@[3]);
            assert("zh-cn"@[3] != "zh-tw"@[3]);
            assert("zh-CN"@[3] != "zh-tw"@[3]);
        },
        Locale::ZhTw => {
            assert("zh-TW"@[0] != "en-US"@[0]);
            assert("zh-tw"@[0] != "en-US"@[0]);
            assert("zh-TW"@[0] != "en-us"@[0]);
            assert("zh-tw"@[0] != "en-us"@[0]);
            assert("zh-TW"@[0] != "pt-BR"@[0]);
            assert("zh-tw"@[0] != "pt-BR"@[0]);
            assert("zh-TW"@[0] != "pt-br"@[0]);
            assert("zh-tw"@[0] != "pt-br"@[0]);
            assert("zh-TW"@[3] != "zh-CN"@[3]);
            assert("zh-tw"@[3] != "zh-CN"@[3]);
            assert("zh-TW"@[3] != "zh-cn"@[3]);
            assert("zh-tw"@[3] != "zh-cn"@[3]);
            assert("zh-tw"@[3] != "zh-TW"@[3]);
            assert("zh-TW"@[3] != "zh-tw"@[3]);
        },
    }
}

/// No locale spelling holds a `/`.
pub proof fn lemma_url_str_no_slash(l: Locale)
    ensures
        forall|j: int| 0 <= j < spec_url_str(l).len() ==> spec_url_str(l)[j] != '/',
{
    reveal_strlit("en-US");
    reveal_strlit("de");
    reveal_strlit("es");
    reveal_strlit("fr");
    reveal_strlit("ja");
    reveal_strlit("ko");
    reveal_strlit("pt-BR");
    reveal_strlit("ru");
    reveal_strlit("zh-CN");
    reveal_strlit("zh-TW");
}

/// Only a non-empty string names a locale.
pub proof fn lemma_locale_from_nonempty(s: Seq<char>)
    ensures
        spec_locale_from(s) is Some ==> s.len() > 0,
{
    reveal_strlit("en-US");
    reveal_strlit("en-us");
    reveal_strlit("de");
    reveal_strlit("es");
    reveal_strlit("fr");
    reveal_strlit("ja");
    reveal_strlit("ko");
    reveal_strlit("pt-BR");
    reveal_strlit("pt-br");
    reveal_strlit("ru");
    reveal_strlit("zh-CN");
    reveal_strlit("zh-cn");
    reveal_strlit("zh-TW");
    reveal_strlit("zh-tw");
}

} // verus!
