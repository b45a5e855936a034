//! Random texts, by kind and locale.
use fake::faker::address::raw::{CityName, CountryName, StateAbbr, StreetName, ZipCode};
use fake::faker::company::raw::{Buzzword, CompanyName, CompanySuffix, Industry, Profession};
use fake::faker::lorem::raw::{Paragraph, Paragraphs, Sentence, Sentences, Word, Words};
use fake::faker::name::raw::{FirstName, LastName, Name, NameWithTitle};
use fake::faker::phone_number::raw::{PhoneNumber};
use fake::faker::{address, automotive, barcode, creditcard, currency, finance, internet, number};
use fake::locales::{
    AR_SA, CY_GB, DE_DE, EN, FA_IR, FR_FR, IT_IT, JA_JP, NL_NL, PT_BR, PT_PT, TR_TR, ZH_CN, ZH_TW,
};
use fake::{Fake, Faker};
use vstd::prelude::*;

use crate::dates::is_digit;
use crate::models::Locale;
use crate::models::Locale::{
    ArSa, CyGb, DeDe, En, FaIr, FrFr, ItIt, JaJp, NlNl, PtBr, PtPt, TrTr, ZhCn, ZhTw,
};
use crate::text::decimal_text;

verus! {

// ---------------------------------------------------------------------------
// What fakers can give
// ---------------------------------------------------------------------------

/// The texts that the faker `FirstName` of a locale can give.
pub uninterp spec fn given_names(locale: Locale) -> Set<Seq<char>>;

/// The texts that the faker `LastName` of a locale can give.
pub uninterp spec fn family_names(locale: Locale) -> Set<Seq<char>>;

/// The texts that the faker `Word` of a locale can give.
pub uninterp spec fn lorem_words(locale: Locale) -> Set<Seq<char>>;

/// The texts that the faker `CompanyName` of a locale can give.
pub uninterp spec fn company_names(locale: Locale) -> Set<Seq<char>>;

/// The texts that the faker `CompanySuffix` of a locale can give.
pub uninterp spec fn company_suffixes(locale: Locale) -> Set<Seq<char>>;

/// The texts that the faker `Industry` of a locale can give.
pub uninterp spec fn industries(locale: Locale) -> Set<Seq<char>>;

/// The texts that the faker `Profession` of a locale can give.
pub uninterp spec fn professions(locale: Locale) -> Set<Seq<char>>;

/// The texts that the faker `Buzzword` of a locale can give.
pub uninterp spec fn buzzwords(locale: Locale) -> Set<Seq<char>>;

/// The texts that the faker `CityName` of a locale can give.
pub uninterp spec fn city_names(locale: Locale) -> Set<Seq<char>>;

/// The texts that the faker `CountryName` of a locale can give.
pub uninterp spec fn country_names(locale: Locale) -> Set<Seq<char>>;

/// The texts that the faker `StreetName` of a locale can give.
pub uninterp spec fn street_names(locale: Locale) -> Set<Seq<char>>;

/// The texts that the faker `StateAbbr` of a locale can give.
pub uninterp spec fn state_abbrs(locale: Locale) -> Set<Seq<char>>;

/// The titles that the faker `NameWithTitle` of a locale puts into names.
pub uninterp spec fn titles(locale: Locale) -> Set<Seq<char>>;

/// The digit templates of the faker `PhoneNumber` of a locale.
pub uninterp spec fn phone_templates(locale: Locale) -> Set<Seq<char>>;

/// The templates of the faker `ZipCode` of a locale.
pub uninterp spec fn zip_templates(locale: Locale) -> Set<Seq<char>>;

/// The texts that the faker `FreeEmail` of a locale can give.
pub uninterp spec fn free_emails(locale: Locale) -> Set<Seq<char>>;

/// The texts that the faker `Username` of a locale can give.
pub uninterp spec fn usernames(locale: Locale) -> Set<Seq<char>>;

/// The texts that the faker `UserAgent` of a locale can give.
pub uninterp spec fn user_agents(locale: Locale) -> Set<Seq<char>>;

/// The texts that the faker `CountryCode` of a locale can give.
pub uninterp spec fn country_codes(locale: Locale) -> Set<Seq<char>>;

/// The texts that the faker `TimeZone` of a locale can give.
pub uninterp spec fn time_zones(locale: Locale) -> Set<Seq<char>>;

/// The texts that the faker `Latitude` of a locale can give.
pub uninterp spec fn latitudes(locale: Locale) -> Set<Seq<char>>;

/// The texts that the faker `Longitude` of a locale can give.
pub uninterp spec fn longitudes(locale: Locale) -> Set<Seq<char>>;

/// The texts that the faker `CurrencyCode` of a locale can give.
pub uninterp spec fn currency_codes(locale: Locale) -> Set<Seq<char>>;

/// The texts that the faker `CurrencyName` of a locale can give.
pub uninterp spec fn currency_names(locale: Locale) -> Set<Seq<char>>;

/// The texts that the faker `CurrencySymbol` of a locale can give.
pub uninterp spec fn currency_symbols(locale: Locale) -> Set<Seq<char>>;

/// A given and a family name in the order of the locale.
pub open spec fn written_name(locale: Locale, given: Seq<char>, family: Seq<char>) -> Seq<char> {
    match locale {
        ZhCn | ZhTw => family + given,
        JaJp => family + " "@ + given,
        _ => given + " "@ + family,
    }
}

/// A title, a given and a family name in the order of the locale.
pub open spec fn written_title(
    locale: Locale,
    title: Seq<char>,
    given: Seq<char>,
    family: Seq<char>,
) -> Seq<char> {
    match locale {
        ZhCn | ZhTw | JaJp => family + given + title,
        _ => title + " "@ + given + " "@ + family,
    }
}

/// A given and a family name out of two sets, in the order of the locale.
pub open spec fn is_name(
    locale: Locale,
    given_names: Set<Seq<char>>,
    family_names: Set<Seq<char>>,
    text: Seq<char>,
) -> bool {
    exists|given: Seq<char>, family: Seq<char>|
        {
            &&& given_names.contains(given)
            &&& family_names.contains(family)
            &&& text == #[trigger] written_name(locale, given, family)
        }
}

/// A title, a given and a family name out of three sets, in the order of the locale.
pub open spec fn is_titled_name(
    locale: Locale,
    titles: Set<Seq<char>>,
    given_names: Set<Seq<char>>,
    family_names: Set<Seq<char>>,
    text: Seq<char>,
) -> bool {
    exists|title: Seq<char>, given: Seq<char>, family: Seq<char>|
        {
            &&& titles.contains(title)
            &&& given_names.contains(given)
            &&& family_names.contains(family)
            &&& text == #[trigger] written_title(locale, title, given, family)
        }
}

/// What some template of a set becomes when every `#` is replaced by a digit and every `^` by a
/// digit above zero.
pub open spec fn fills_some_template(templates: Set<Seq<char>>, text: Seq<char>) -> bool {
    exists|t: Seq<char>| #[trigger] templates.contains(t) && fills_template(t, text)
}

/// What some template of a set becomes when every `#` is replaced by a digit and every `$` by a
/// plain letter.
pub open spec fn fills_some_plate(templates: Set<Seq<char>>, text: Seq<char>) -> bool {
    exists|t: Seq<char>| #[trigger] templates.contains(t) && fills_plate(t, text)
}

/// A letter that is not mistaken for a digit or another letter: none of I, O and U.
pub open spec fn is_plain_letter(c: char) -> bool {
    'A' <= c <= 'Z' && c != 'I' && c != 'O' && c != 'U'
}

/// What a template becomes when every `#` is replaced by a digit and every `$` by a plain letter.
pub open spec fn fills_plate(template: Seq<char>, text: Seq<char>) -> bool {
    &&& text.len() == template.len()
    &&& forall|i: int|
        #![trigger text[i]]
        0 <= i < text.len() ==> if template[i] == '#' {
            is_digit(text[i])
        } else if template[i] == '$' {
            is_plain_letter(text[i])
        } else {
            text[i] == template[i]
        }
}

/// Letters and digits of ASCII.
pub open spec fn is_alphanumeric(c: char) -> bool {
    is_digit(c) || 'A' <= c <= 'Z' || 'a' <= c <= 'z'
}

/// A hexadecimal digit in upper case.
pub open spec fn is_upper_hex(c: char) -> bool {
    is_digit(c) || 'A' <= c <= 'F'
}

/// Four numbers below 256 with dots between them.
pub open spec fn is_ipv4(text: Seq<char>) -> bool {
    exists|a: u8, b: u8, c: u8, d: u8| text == #[trigger] dotted(a, b, c, d)
}

/// Four numbers with dots between them.
pub open spec fn dotted(a: u8, b: u8, c: u8, d: u8) -> Seq<char> {
    decimal_text(a as nat) + "."@ + decimal_text(b as nat) + "."@ + decimal_text(c as nat) + "."@
        + decimal_text(d as nat)
}

/// One to four hexadecimal digits in upper case, without a leading zero where there are more.
pub open spec fn is_hex_group(text: Seq<char>) -> bool {
    &&& 1 <= text.len() <= 4
    &&& text.len() > 1 ==> text[0] != '0'
    &&& forall|i: int| 0 <= i < text.len() ==> is_upper_hex(#[trigger] text[i])
}

/// Eight hexadecimal groups with colons between them.
pub open spec fn is_ipv6(text: Seq<char>) -> bool {
    exists|groups: Seq<Seq<char>>|
        {
            &&& groups.len() == 8
            &&& forall|i: int| 0 <= i < 8 ==> is_hex_group(#[trigger] groups[i])
            &&& text == #[trigger] glued(groups, ":"@, 8)
        }
}

/// Six pairs of hexadecimal digits in upper case with colons between them.
pub open spec fn is_mac_address(text: Seq<char>) -> bool {
    &&& text.len() == 17
    &&& forall|i: int|
        0 <= i < 17 ==> if i % 3 == 2 {
            #[trigger] text[i] == ':'
        } else {
            is_upper_hex(text[i])
        }
}

/// 32 hexadecimal digits in lower case with hyphens behind the eighth, twelfth, sixteenth and
/// twentieth.
pub open spec fn is_uuid(text: Seq<char>) -> bool {
    &&& text.len() == 36
    &&& forall|i: int|
        0 <= i < 36 ==> if i == 8 || i == 13 || i == 18 || i == 23 {
            #[trigger] text[i] == '-'
        } else {
            is_digit(text[i]) || 'a' <= text[i] <= 'f'
        }
}

/// Digits, with the beginning and the length of one of three issuers.
pub open spec fn is_card_number(text: Seq<char>) -> bool {
    &&& text.len() > 2
    &&& forall|i: int| 0 <= i < text.len() ==> is_digit(#[trigger] text[i])
    &&& {
        ||| text[0] == '3' && (text[1] == '4' || text[1] == '7') && text.len() == 15
        ||| text[0] == '4' && (text.len() == 13 || text.len() == 16)
        ||| text[0] == '5' && '1' <= text[1] <= '5' && text.len() == 16
    }
}

/// Bank, country and place of a bank, and in the long form its branch: three digits, or three
/// letters with a vowel in the middle.
pub open spec fn is_bic(text: Seq<char>) -> bool {
    &&& text.len() == 8 || text.len() == 11
    &&& forall|i: int| 0 <= i < 7 ==> 'A' <= #[trigger] text[i] <= 'Z'
    &&& is_vowel(text[3])
    &&& text[7] == '1'
    &&& text.len() == 11 ==> {
        ||| is_digit(text[8]) && is_digit(text[9]) && is_digit(text[10])
        ||| 'A' <= text[8] <= 'Z' && is_vowel(text[9]) && 'A' <= text[10] <= 'Z'
    }
}

/// A vowel in upper case.
pub open spec fn is_vowel(c: char) -> bool {
    c == 'A' || c == 'E' || c == 'I' || c == 'O' || c == 'U'
}

/// Two letters, nine letters or digits, and a digit.
pub open spec fn is_isin(text: Seq<char>) -> bool {
    &&& text.len() == 12
    &&& 'A' <= text[0] <= 'Z'
    &&& 'A' <= text[1] <= 'Z'
    &&& forall|i: int|
        2 <= i < 11 ==> is_digit(#[trigger] text[i]) || 'A' <= text[i] <= 'Z'
    &&& is_digit(text[11])
}

/// Ten digits in four parts, or thirteen digits in five parts the first of which is 978, with
/// hyphens between them; the last one of ten may be an X.
pub open spec fn is_isbn(text: Seq<char>) -> bool {
    exists|parts: Seq<Seq<char>>|
        {
            &&& text == #[trigger] glued(parts, "-"@, parts.len() as int)
            &&& (parts.len() == 4 && text.len() == 13) || (parts.len() == 5 && text.len() == 17
                && parts[0] == "978"@)
            &&& parts.last().len() == 1
            &&& is_digit(parts.last()[0]) || (parts.len() == 4 && parts.last()[0] == 'X')
            &&& forall|k: int, i: int|
                0 <= k < parts.len() - 1 && 0 <= i < parts[k].len() ==> is_digit(
                    #[trigger] parts[k][i],
                )
        }
}

/// The three numbers of a version.
pub open spec fn release(major: nat, minor: nat, patch: nat) -> Seq<char> {
    decimal_text(major) + "."@ + decimal_text(minor) + "."@ + decimal_text(patch)
}

/// A version below 9.20.20 in each of its numbers, final or `alpha`, `beta` or `rc` with a number
/// below 9.
pub open spec fn is_version(text: Seq<char>) -> bool {
    exists|major: nat, minor: nat, patch: nat|
        {
            &&& major < 9
            &&& minor < 20
            &&& patch < 20
            &&& {
                ||| text == #[trigger] release(major, minor, patch)
                ||| is_early(text, release(major, minor, patch))
            }
        }
}

/// A release that is not final.
pub open spec fn is_early(text: Seq<char>, release: Seq<char>) -> bool {
    exists|n: nat|
        {
            let number = #[trigger] decimal_text(n);
            &&& n < 9
            &&& {
                ||| text == release + "-alpha."@ + number
                ||| text == release + "-beta."@ + number
                ||| text == release + "-rc."@ + number
            }
        }
}

/// Five to nineteen letters and digits.
pub open spec fn is_any_text(text: Seq<char>) -> bool {
    &&& 5 <= text.len() < 20
    &&& forall|i: int| 0 <= i < text.len() ==> is_alphanumeric(#[trigger] text[i])
}

/// The first `n` texts with a separator between them.
pub open spec fn glued(parts: Seq<Seq<char>>, separator: Seq<char>, n: int) -> Seq<char>
    decreases n,
{
    if n <= 0 {
        Seq::empty()
    } else if n == 1 {
        parts[0]
    } else {
        glued(parts, separator, n - 1) + separator + parts[n - 1]
    }
}

/// The largest end of a range of counts: a list of more strings than this does not fit into
/// memory that can be addressed.
pub open spec fn most_parts() -> usize {
    usize::MAX / 48
}

/// All texts are lorem words of the locale.
pub open spec fn all_lorem(locale: Locale, words: Seq<Seq<char>>) -> bool {
    forall|i: int| 0 <= i < words.len() ==> lorem_words(locale).contains(#[trigger] words[i])
}

/// Lorem words with spaces between them and a full stop behind them; at least `min`, fewer than
/// `max`.
pub open spec fn is_sentence(locale: Locale, text: Seq<char>, min: int, max: int) -> bool {
    exists|words: Seq<Seq<char>>|
        {
            &&& min <= words.len() < max
            &&& all_lorem(locale, words)
            &&& text == (#[trigger] glued(words, " "@, words.len() as int)).push('.')
        }
}

/// Sentences of four to nine words, a line each; at least `min`, fewer than `max`.
pub open spec fn is_paragraph(locale: Locale, text: Seq<char>, min: int, max: int) -> bool {
    exists|lines: Seq<Seq<char>>|
        {
            &&& min <= lines.len() < max
            &&& text == #[trigger] glued(lines, "\n"@, lines.len() as int)
            &&& forall|i: int| 0 <= i < lines.len() ==> is_sentence(
                locale,
                #[trigger] lines[i],
                4,
                10,
            )
        }
}

/// Letters and digits; at least `min`, fewer than `max`.
pub open spec fn is_password(text: Seq<char>, min: int, max: int) -> bool {
    &&& min <= text.len() < max
    &&& forall|i: int|
        0 <= i < text.len() ==> is_alphanumeric(#[trigger] text[i])
}

/// So many different characters of the geohash alphabet, which has 32.
pub open spec fn is_geohash(text: Seq<char>, precision: int) -> bool {
    &&& text.len() == if precision < 32 {
        precision
    } else {
        32
    }
    &&& text.no_duplicates()
    &&& forall|i: int|
        0 <= i < text.len() ==> "0123456789bcdefghjkmnpqrstuvwxyz"@.contains(#[trigger] text[i])
}

// ---------------------------------------------------------------------------
// Outside calls
// ---------------------------------------------------------------------------

/// Calls the faker `fake::faker::name::raw::FirstName` of a locale: a given name.
/// Which one comes out is chance.
#[verifier::external_body]
pub(crate) fn first_name(locale: Locale) -> (r: String)
    ensures
        given_names(locale).contains(r@),
{
    match locale {
        En => FirstName(EN).fake(), FrFr => FirstName(FR_FR).fake(),
        DeDe => FirstName(DE_DE).fake(), ItIt => FirstName(IT_IT).fake(),
        NlNl => FirstName(NL_NL).fake(), PtBr => FirstName(PT_BR).fake(),
        PtPt => FirstName(PT_PT).fake(), CyGb => FirstName(CY_GB).fake(),
        ZhCn => FirstName(ZH_CN).fake(), ZhTw => FirstName(ZH_TW).fake(),
        JaJp => FirstName(JA_JP).fake(), ArSa => FirstName(AR_SA).fake(),
        TrTr => FirstName(TR_TR).fake(), FaIr => FirstName(FA_IR).fake(),
    }
}

/// Calls the faker `fake::faker::name::raw::LastName` of a locale: a family name.
/// Which one comes out is chance.
#[verifier::external_body]
pub(crate) fn last_name(locale: Locale) -> (r: String)
    ensures
        family_names(locale).contains(r@),
{
    match locale {
        En => LastName(EN).fake(), FrFr => LastName(FR_FR).fake(),
        DeDe => LastName(DE_DE).fake(), ItIt => LastName(IT_IT).fake(),
        NlNl => LastName(NL_NL).fake(), PtBr => LastName(PT_BR).fake(),
        PtPt => LastName(PT_PT).fake(), CyGb => LastName(CY_GB).fake(),
        ZhCn => LastName(ZH_CN).fake(), ZhTw => LastName(ZH_TW).fake(),
        JaJp => LastName(JA_JP).fake(), ArSa => LastName(AR_SA).fake(),
        TrTr => LastName(TR_TR).fake(), FaIr => LastName(FA_IR).fake(),
    }
}

/// Calls the faker `fake::faker::name::raw::Name` of a locale: a full name.
/// Which one comes out is chance.
#[verifier::external_body]
pub(crate) fn full_name(locale: Locale) -> (r: String)
    ensures
        is_name(locale, given_names(locale), family_names(locale), r@),
{
    match locale {
        En => Name(EN).fake(), FrFr => Name(FR_FR).fake(),
        DeDe => Name(DE_DE).fake(), ItIt => Name(IT_IT).fake(),
        NlNl => Name(NL_NL).fake(), PtBr => Name(PT_BR).fake(),
        PtPt => Name(PT_PT).fake(), CyGb => Name(CY_GB).fake(),
        ZhCn => Name(ZH_CN).fake(), ZhTw => Name(ZH_TW).fake(),
        JaJp => Name(JA_JP).fake(), ArSa => Name(AR_SA).fake(),
        TrTr => Name(TR_TR).fake(), FaIr => Name(FA_IR).fake(),
    }
}

/// Calls the faker `fake::faker::name::raw::NameWithTitle` of a locale: a full name with a title.
/// Which one comes out is chance.
#[verifier::external_body]
pub(crate) fn name_with_title(locale: Locale) -> (r: String)
    ensures
        is_titled_name(
            locale,
            titles(locale),
            given_names(locale),
            family_names(locale),
            r@,
        ),
{
    match locale {
        En => NameWithTitle(EN).fake(), FrFr => NameWithTitle(FR_FR).fake(),
        DeDe => NameWithTitle(DE_DE).fake(), ItIt => NameWithTitle(IT_IT).fake(),
        NlNl => NameWithTitle(NL_NL).fake(), PtBr => NameWithTitle(PT_BR).fake(),
        PtPt => NameWithTitle(PT_PT).fake(), CyGb => NameWithTitle(CY_GB).fake(),
        ZhCn => NameWithTitle(ZH_CN).fake(), ZhTw => NameWithTitle(ZH_TW).fake(),
        JaJp => NameWithTitle(JA_JP).fake(), ArSa => NameWithTitle(AR_SA).fake(),
        TrTr => NameWithTitle(TR_TR).fake(), FaIr => NameWithTitle(FA_IR).fake(),
    }
}

/// Calls the faker `fake::faker::lorem::raw::Word` of a locale: a word.
/// Which one comes out is chance.
#[verifier::external_body]
pub(crate) fn word(locale: Locale) -> (r: String)
    ensures
        lorem_words(locale).contains(r@),
{
    match locale {
        En => Word(EN).fake(), FrFr => Word(FR_FR).fake(),
        DeDe => Word(DE_DE).fake(), ItIt => Word(IT_IT).fake(),
        NlNl => Word(NL_NL).fake(), PtBr => Word(PT_BR).fake(),
        PtPt => Word(PT_PT).fake(), CyGb => Word(CY_GB).fake(),
        ZhCn => Word(ZH_CN).fake(), ZhTw => Word(ZH_TW).fake(),
        JaJp => Word(JA_JP).fake(), ArSa => Word(AR_SA).fake(),
        TrTr => Word(TR_TR).fake(), FaIr => Word(FA_IR).fake(),
    }
}

/// Calls the faker `fake::faker::company::raw::CompanyName` of a locale: the name of a company.
/// Which one comes out is chance.
#[verifier::external_body]
pub(crate) fn company_name(locale: Locale) -> (r: String)
    ensures
        company_names(locale).contains(r@),
{
    match locale {
        En => CompanyName(EN).fake(), FrFr => CompanyName(FR_FR).fake(),
        DeDe => CompanyName(DE_DE).fake(), ItIt => CompanyName(IT_IT).fake(),
        NlNl => CompanyName(NL_NL).fake(), PtBr => CompanyName(PT_BR).fake(),
        PtPt => CompanyName(PT_PT).fake(), CyGb => CompanyName(CY_GB).fake(),
        ZhCn => CompanyName(ZH_CN).fake(), ZhTw => CompanyName(ZH_TW).fake(),
        JaJp => CompanyName(JA_JP).fake(), ArSa => CompanyName(AR_SA).fake(),
        TrTr => CompanyName(TR_TR).fake(), FaIr => CompanyName(FA_IR).fake(),
    }
}

/// Calls the faker `fake::faker::company::raw::CompanySuffix` of a locale: the legal form of a
/// company.
/// Which one comes out is chance.
#[verifier::external_body]
pub(crate) fn company_suffix(locale: Locale) -> (r: String)
    ensures
        company_suffixes(locale).contains(r@),
{
    match locale {
        En => CompanySuffix(EN).fake(), FrFr => CompanySuffix(FR_FR).fake(),
        DeDe => CompanySuffix(DE_DE).fake(), ItIt => CompanySuffix(IT_IT).fake(),
        NlNl => CompanySuffix(NL_NL).fake(), PtBr => CompanySuffix(PT_BR).fake(),
        PtPt => CompanySuffix(PT_PT).fake(), CyGb => CompanySuffix(CY_GB).fake(),
        ZhCn => CompanySuffix(ZH_CN).fake(), ZhTw => CompanySuffix(ZH_TW).fake(),
        JaJp => CompanySuffix(JA_JP).fake(), ArSa => CompanySuffix(AR_SA).fake(),
        TrTr => CompanySuffix(TR_TR).fake(), FaIr => CompanySuffix(FA_IR).fake(),
    }
}

/// Calls the faker `fake::faker::company::raw::Industry` of a locale: an industry.
/// Which one comes out is chance.
#[verifier::external_body]
pub(crate) fn industry(locale: Locale) -> (r: String)
    ensures
        industries(locale).contains(r@),
{
    match locale {
        En => Industry(EN).fake(), FrFr => Industry(FR_FR).fake(),
        DeDe => Industry(DE_DE).fake(), ItIt => Industry(IT_IT).fake(),
        NlNl => Industry(NL_NL).fake(), PtBr => Industry(PT_BR).fake(),
        PtPt => Industry(PT_PT).fake(), CyGb => Industry(CY_GB).fake(),
        ZhCn => Industry(ZH_CN).fake(), ZhTw => Industry(ZH_TW).fake(),
        JaJp => Industry(JA_JP).fake(), ArSa => Industry(AR_SA).fake(),
        TrTr => Industry(TR_TR).fake(), FaIr => Industry(FA_IR).fake(),
    }
}

/// Calls the faker `fake::faker::company::raw::Profession` of a locale: a profession.
/// Which one comes out is chance.
#[verifier::external_body]
pub(crate) fn profession(locale: Locale) -> (r: String)
    ensures
        professions(locale).contains(r@),
{
    match locale {
        En => Profession(EN).fake(), FrFr => Profession(FR_FR).fake(),
        DeDe => Profession(DE_DE).fake(), ItIt => Profession(IT_IT).fake(),
        NlNl => Profession(NL_NL).fake(), PtBr => Profession(PT_BR).fake(),
        PtPt => Profession(PT_PT).fake(), CyGb => Profession(CY_GB).fake(),
        ZhCn => Profession(ZH_CN).fake(), ZhTw => Profession(ZH_TW).fake(),
        JaJp => Profession(JA_JP).fake(), ArSa => Profession(AR_SA).fake(),
        TrTr => Profession(TR_TR).fake(), FaIr => Profession(FA_IR).fake(),
    }
}

/// Calls the faker `fake::faker::company::raw::Buzzword` of a locale: a buzzword.
/// Which one comes out is chance.
#[verifier::external_body]
pub(crate) fn buzzword(locale: Locale) -> (r: String)
    ensures
        buzzwords(locale).contains(r@),
{
    match locale {
        En => Buzzword(EN).fake(), FrFr => Buzzword(FR_FR).fake(),
        DeDe => Buzzword(DE_DE).fake(), ItIt => Buzzword(IT_IT).fake(),
        NlNl => Buzzword(NL_NL).fake(), PtBr => Buzzword(PT_BR).fake(),
        PtPt => Buzzword(PT_PT).fake(), CyGb => Buzzword(CY_GB).fake(),
        ZhCn => Buzzword(ZH_CN).fake(), ZhTw => Buzzword(ZH_TW).fake(),
        JaJp => Buzzword(JA_JP).fake(), ArSa => Buzzword(AR_SA).fake(),
        TrTr => Buzzword(TR_TR).fake(), FaIr => Buzzword(FA_IR).fake(),
    }
}

/// Calls the faker `fake::faker::address::raw::CityName` of a locale: the name of a city.
/// Which one comes out is chance.
#[verifier::external_body]
pub(crate) fn city_name(locale: Locale) -> (r: String)
    ensures
        city_names(locale).contains(r@),
{
    match locale {
        En => CityName(EN).fake(), FrFr => CityName(FR_FR).fake(),
        DeDe => CityName(DE_DE).fake(), ItIt => CityName(IT_IT).fake(),
        NlNl => CityName(NL_NL).fake(), PtBr => CityName(PT_BR).fake(),
        PtPt => CityName(PT_PT).fake(), CyGb => CityName(CY_GB).fake(),
        ZhCn => CityName(ZH_CN).fake(), ZhTw => CityName(ZH_TW).fake(),
        JaJp => CityName(JA_JP).fake(), ArSa => CityName(AR_SA).fake(),
        TrTr => CityName(TR_TR).fake(), FaIr => CityName(FA_IR).fake(),
    }
}

/// Calls the faker `fake::faker::address::raw::CountryName` of a locale: the name of a country.
/// Which one comes out is chance.
#[verifier::external_body]
pub(crate) fn country_name(locale: Locale) -> (r: String)
    ensures
        country_names(locale).contains(r@),
{
    match locale {
        En => CountryName(EN).fake(), FrFr => CountryName(FR_FR).fake(),
        DeDe => CountryName(DE_DE).fake(), ItIt => CountryName(IT_IT).fake(),
        NlNl => CountryName(NL_NL).fake(), PtBr => CountryName(PT_BR).fake(),
        PtPt => CountryName(PT_PT).fake(), CyGb => CountryName(CY_GB).fake(),
        ZhCn => CountryName(ZH_CN).fake(), ZhTw => CountryName(ZH_TW).fake(),
        JaJp => CountryName(JA_JP).fake(), ArSa => CountryName(AR_SA).fake(),
        TrTr => CountryName(TR_TR).fake(), FaIr => CountryName(FA_IR).fake(),
    }
}

/// Calls the faker `fake::faker::address::raw::StreetName` of a locale: the name of a street.
/// Which one comes out is chance.
#[verifier::external_body]
pub(crate) fn street_name(locale: Locale) -> (r: String)
    ensures
        street_names(locale).contains(r@),
{
    match locale {
        En => StreetName(EN).fake(), FrFr => StreetName(FR_FR).fake(),
        DeDe => StreetName(DE_DE).fake(), ItIt => StreetName(IT_IT).fake(),
        NlNl => StreetName(NL_NL).fake(), PtBr => StreetName(PT_BR).fake(),
        PtPt => StreetName(PT_PT).fake(), CyGb => StreetName(CY_GB).fake(),
        ZhCn => StreetName(ZH_CN).fake(), ZhTw => StreetName(ZH_TW).fake(),
        JaJp => StreetName(JA_JP).fake(), ArSa => StreetName(AR_SA).fake(),
        TrTr => StreetName(TR_TR).fake(), FaIr => StreetName(FA_IR).fake(),
    }
}

/// Calls the faker `fake::faker::address::raw::ZipCode` of a locale: a postal code.
/// Which one comes out is chance.
#[verifier::external_body]
pub(crate) fn zip_code(locale: Locale) -> (r: String)
    ensures
        fills_some_plate(zip_templates(locale), r@),
{
    match locale {
        En => ZipCode(EN).fake(), FrFr => ZipCode(FR_FR).fake(),
        DeDe => ZipCode(DE_DE).fake(), ItIt => ZipCode(IT_IT).fake(),
        NlNl => ZipCode(NL_NL).fake(), PtBr => ZipCode(PT_BR).fake(),
        PtPt => ZipCode(PT_PT).fake(), CyGb => ZipCode(CY_GB).fake(),
        ZhCn => ZipCode(ZH_CN).fake(), ZhTw => ZipCode(ZH_TW).fake(),
        JaJp => ZipCode(JA_JP).fake(), ArSa => ZipCode(AR_SA).fake(),
        TrTr => ZipCode(TR_TR).fake(), FaIr => ZipCode(FA_IR).fake(),
    }
}

/// Calls the faker `fake::faker::address::raw::StateAbbr` of a locale: the abbreviation of a state.
/// Which one comes out is chance.
#[verifier::external_body]
pub(crate) fn state_abbr(locale: Locale) -> (r: String)
    ensures
        state_abbrs(locale).contains(r@),
{
    match locale {
        En => StateAbbr(EN).fake(), FrFr => StateAbbr(FR_FR).fake(),
        DeDe => StateAbbr(DE_DE).fake(), ItIt => StateAbbr(IT_IT).fake(),
        NlNl => StateAbbr(NL_NL).fake(), PtBr => StateAbbr(PT_BR).fake(),
        PtPt => StateAbbr(PT_PT).fake(), CyGb => StateAbbr(CY_GB).fake(),
        ZhCn => StateAbbr(ZH_CN).fake(), ZhTw => StateAbbr(ZH_TW).fake(),
        JaJp => StateAbbr(JA_JP).fake(), ArSa => StateAbbr(AR_SA).fake(),
        TrTr => StateAbbr(TR_TR).fake(), FaIr => StateAbbr(FA_IR).fake(),
    }
}

/// Calls the faker `fake::faker::phone_number::raw::PhoneNumber` of a locale: a phone number.
/// Which one comes out is chance.
#[verifier::external_body]
pub(crate) fn phone_number(locale: Locale) -> (r: String)
    ensures
        fills_some_template(phone_templates(locale), r@),
{
    match locale {
        En => PhoneNumber(EN).fake(), FrFr => PhoneNumber(FR_FR).fake(),
        DeDe => PhoneNumber(DE_DE).fake(), ItIt => PhoneNumber(IT_IT).fake(),
        NlNl => PhoneNumber(NL_NL).fake(), PtBr => PhoneNumber(PT_BR).fake(),
        PtPt => PhoneNumber(PT_PT).fake(), CyGb => PhoneNumber(CY_GB).fake(),
        ZhCn => PhoneNumber(ZH_CN).fake(), ZhTw => PhoneNumber(ZH_TW).fake(),
        JaJp => PhoneNumber(JA_JP).fake(), ArSa => PhoneNumber(AR_SA).fake(),
        TrTr => PhoneNumber(TR_TR).fake(), FaIr => PhoneNumber(FA_IR).fake(),
    }
}

/// Calls the faker `fake::faker::lorem::raw::Sentence` of a locale: so many words, at least
/// `min` and fewer than `max`, with spaces between them and a full stop behind them. It panics on
/// an empty range, and on a count that a list cannot hold. Which words come out is chance.
#[verifier::external_body]
pub(crate) fn sentence(locale: Locale, min: usize, max: usize) -> (r: String)
    requires
        min < max,
        max <= most_parts(),
    ensures
        is_sentence(locale, r@, min as int, max as int),
{
    let r = min..max;
    match locale {
        En => Sentence(EN, r).fake(), FrFr => Sentence(FR_FR, r).fake(),
        DeDe => Sentence(DE_DE, r).fake(), ItIt => Sentence(IT_IT, r).fake(),
        NlNl => Sentence(NL_NL, r).fake(), PtBr => Sentence(PT_BR, r).fake(),
        PtPt => Sentence(PT_PT, r).fake(), CyGb => Sentence(CY_GB, r).fake(),
        ZhCn => Sentence(ZH_CN, r).fake(), ZhTw => Sentence(ZH_TW, r).fake(),
        JaJp => Sentence(JA_JP, r).fake(), ArSa => Sentence(AR_SA, r).fake(),
        TrTr => Sentence(TR_TR, r).fake(), FaIr => Sentence(FA_IR, r).fake(),
    }
}

/// Calls the faker `fake::faker::lorem::raw::Paragraph` of a locale: so many sentences of four
/// to nine words, at least `min` and fewer than `max`, on lines of their own. It panics on an empty
/// range, and on a count that a list cannot hold. Which words come out is chance.
#[verifier::external_body]
pub(crate) fn paragraph(locale: Locale, min: usize, max: usize) -> (r: String)
    requires
        min < max,
        max <= most_parts(),
    ensures
        is_paragraph(locale, r@, min as int, max as int),
{
    let r = min..max;
    match locale {
        En => Paragraph(EN, r).fake(), FrFr => Paragraph(FR_FR, r).fake(),
        DeDe => Paragraph(DE_DE, r).fake(), ItIt => Paragraph(IT_IT, r).fake(),
        NlNl => Paragraph(NL_NL, r).fake(), PtBr => Paragraph(PT_BR, r).fake(),
        PtPt => Paragraph(PT_PT, r).fake(), CyGb => Paragraph(CY_GB, r).fake(),
        ZhCn => Paragraph(ZH_CN, r).fake(), ZhTw => Paragraph(ZH_TW, r).fake(),
        JaJp => Paragraph(JA_JP, r).fake(), ArSa => Paragraph(AR_SA, r).fake(),
        TrTr => Paragraph(TR_TR, r).fake(), FaIr => Paragraph(FA_IR, r).fake(),
    }
}

/// Calls the faker `fake::faker::lorem::raw::Words` of a locale: so many words, at least `min` and
/// fewer than `max`. It panics on an empty range, and on a count that a list cannot hold. Which
/// words come out is chance.
#[verifier::external_body]
pub(crate) fn words(locale: Locale, min: usize, max: usize) -> (r: Vec<String>)
    requires
        min < max,
        max <= most_parts(),
    ensures
        min <= r.len() < max,
        forall|i: int| 0 <= i < r.len() ==> lorem_words(locale).contains(#[trigger] r[i]@),
{
    let r = min..max;
    match locale {
        En => Words(EN, r).fake(), FrFr => Words(FR_FR, r).fake(),
        DeDe => Words(DE_DE, r).fake(), ItIt => Words(IT_IT, r).fake(),
        NlNl => Words(NL_NL, r).fake(), PtBr => Words(PT_BR, r).fake(),
        PtPt => Words(PT_PT, r).fake(), CyGb => Words(CY_GB, r).fake(),
        ZhCn => Words(ZH_CN, r).fake(), ZhTw => Words(ZH_TW, r).fake(),
        JaJp => Words(JA_JP, r).fake(), ArSa => Words(AR_SA, r).fake(),
        TrTr => Words(TR_TR, r).fake(), FaIr => Words(FA_IR, r).fake(),
    }
}

/// Calls the faker `fake::faker::lorem::raw::Sentences` of a locale: so many sentences, at
/// least `min` and fewer than `max`, each of four to nine words. It panics on an empty range, and
/// on a count that a list cannot hold. Which words come out is chance.
#[verifier::external_body]
pub(crate) fn sentences(locale: Locale, min: usize, max: usize) -> (r: Vec<String>)
    requires
        min < max,
        max <= most_parts(),
    ensures
        min <= r.len() < max,
        forall|i: int| 0 <= i < r.len() ==> is_sentence(locale, #[trigger] r[i]@, 4, 10),
{
    let r = min..max;
    match locale {
        En => Sentences(EN, r).fake(), FrFr => Sentences(FR_FR, r).fake(),
        DeDe => Sentences(DE_DE, r).fake(), ItIt => Sentences(IT_IT, r).fake(),
        NlNl => Sentences(NL_NL, r).fake(), PtBr => Sentences(PT_BR, r).fake(),
        PtPt => Sentences(PT_PT, r).fake(), CyGb => Sentences(CY_GB, r).fake(),
        ZhCn => Sentences(ZH_CN, r).fake(), ZhTw => Sentences(ZH_TW, r).fake(),
        JaJp => Sentences(JA_JP, r).fake(), ArSa => Sentences(AR_SA, r).fake(),
        TrTr => Sentences(TR_TR, r).fake(), FaIr => Sentences(FA_IR, r).fake(),
    }
}

/// Calls the faker `fake::faker::lorem::raw::Paragraphs` of a locale: so many paragraphs, at
/// least `min` and fewer than `max`, each of four to six sentences. It panics on an empty range,
/// and on a count that a list cannot hold. Which words come out is chance.
#[verifier::external_body]
pub(crate) fn paragraphs(locale: Locale, min: usize, max: usize) -> (r: Vec<String>)
    requires
        min < max,
        max <= most_parts(),
    ensures
        min <= r.len() < max,
        forall|i: int| 0 <= i < r.len() ==> is_paragraph(locale, #[trigger] r[i]@, 4, 7),
{
    let r = min..max;
    match locale {
        En => Paragraphs(EN, r).fake(), FrFr => Paragraphs(FR_FR, r).fake(),
        DeDe => Paragraphs(DE_DE, r).fake(), ItIt => Paragraphs(IT_IT, r).fake(),
        NlNl => Paragraphs(NL_NL, r).fake(), PtBr => Paragraphs(PT_BR, r).fake(),
        PtPt => Paragraphs(PT_PT, r).fake(), CyGb => Paragraphs(CY_GB, r).fake(),
        ZhCn => Paragraphs(ZH_CN, r).fake(), ZhTw => Paragraphs(ZH_TW, r).fake(),
        JaJp => Paragraphs(JA_JP, r).fake(), ArSa => Paragraphs(AR_SA, r).fake(),
        TrTr => Paragraphs(TR_TR, r).fake(), FaIr => Paragraphs(FA_IR, r).fake(),
    }
}

/// Calls the faker `fake::faker::internet::en::FreeEmail`: an address at a free mail provider.
/// Which one comes out is chance.
#[verifier::external_body]
pub(crate) fn email() -> (r: String)
    ensures
        free_emails(Locale::En).contains(r@),
{
    internet::en::FreeEmail().fake()
}

/// Calls the faker `fake::faker::internet::en::Username`: a user name.
/// Which one comes out is chance.
#[verifier::external_body]
pub(crate) fn username() -> (r: String)
    ensures
        usernames(Locale::En).contains(r@),
{
    internet::en::Username().fake()
}

/// Calls the faker `fake::faker::internet::en::IPv4`: an IPv4 address.
/// Which one comes out is chance.
#[verifier::external_body]
pub(crate) fn ipv4() -> (r: String)
    ensures
        is_ipv4(r@),
{
    internet::en::IPv4().fake()
}

/// Calls the faker `fake::faker::internet::en::IPv6`: an IPv6 address.
/// Which one comes out is chance.
#[verifier::external_body]
pub(crate) fn ipv6() -> (r: String)
    ensures
        is_ipv6(r@),
{
    internet::en::IPv6().fake()
}

/// Calls the faker `fake::faker::internet::en::MACAddress`: a MAC address.
/// Which one comes out is chance.
#[verifier::external_body]
pub(crate) fn mac_address() -> (r: String)
    ensures
        is_mac_address(r@),
{
    internet::en::MACAddress().fake()
}

/// Calls the faker `fake::faker::internet::en::UserAgent`: the identification of a browser.
/// Which one comes out is chance.
#[verifier::external_body]
pub(crate) fn user_agent() -> (r: String)
    ensures
        user_agents(Locale::En).contains(r@),
{
    internet::en::UserAgent().fake()
}

/// Calls the faker `fake::faker::address::en::CountryCode`: the code of a country.
/// Which one comes out is chance.
#[verifier::external_body]
pub(crate) fn country_code() -> (r: String)
    ensures
        country_codes(Locale::En).contains(r@),
{
    address::en::CountryCode().fake()
}

/// Calls the faker `fake::faker::address::en::TimeZone`: the name of a time zone.
/// Which one comes out is chance.
#[verifier::external_body]
pub(crate) fn time_zone() -> (r: String)
    ensures
        time_zones(Locale::En).contains(r@),
{
    address::en::TimeZone().fake()
}

/// Calls the faker `fake::faker::address::en::Latitude`: a latitude.
/// Which one comes out is chance.
#[verifier::external_body]
pub(crate) fn latitude() -> (r: String)
    ensures
        latitudes(Locale::En).contains(r@),
{
    address::en::Latitude().fake()
}

/// Calls the faker `fake::faker::address::en::Longitude`: a longitude.
/// Which one comes out is chance.
#[verifier::external_body]
pub(crate) fn longitude() -> (r: String)
    ensures
        longitudes(Locale::En).contains(r@),
{
    address::en::Longitude().fake()
}

/// Calls the faker `fake::faker::creditcard::en::CreditCardNumber`: the number of a credit card.
/// Which one comes out is chance.
#[verifier::external_body]
pub(crate) fn credit_card_number() -> (r: String)
    ensures
        is_card_number(r@),
{
    creditcard::en::CreditCardNumber().fake()
}

/// Calls the faker `fake::faker::finance::en::Bic`: the code of a bank.
/// Which one comes out is chance.
#[verifier::external_body]
pub(crate) fn bic() -> (r: String)
    ensures
        is_bic(r@),
{
    finance::en::Bic().fake()
}

/// Calls the faker `fake::faker::finance::en::Isin`: the number of a security.
/// Which one comes out is chance.
#[verifier::external_body]
pub(crate) fn isin() -> (r: String)
    ensures
        is_isin(r@),
{
    finance::en::Isin().fake()
}

/// Calls the faker `fake::faker::currency::en::CurrencyCode`: the code of a currency.
/// Which one comes out is chance.
#[verifier::external_body]
pub(crate) fn currency_code() -> (r: String)
    ensures
        currency_codes(Locale::En).contains(r@),
{
    currency::en::CurrencyCode().fake()
}

/// Calls the faker `fake::faker::currency::en::CurrencyName`: the name of a currency.
/// Which one comes out is chance.
#[verifier::external_body]
pub(crate) fn currency_name() -> (r: String)
    ensures
        currency_names(Locale::En).contains(r@),
{
    currency::en::CurrencyName().fake()
}

/// Calls the faker `fake::faker::currency::en::CurrencySymbol`: the symbol of a currency.
/// Which one comes out is chance.
#[verifier::external_body]
pub(crate) fn currency_symbol() -> (r: String)
    ensures
        currency_symbols(Locale::En).contains(r@),
{
    currency::en::CurrencySymbol().fake()
}

/// Calls the faker `fake::faker::barcode::en::Isbn`: the number of a book.
/// Which one comes out is chance.
#[verifier::external_body]
pub(crate) fn isbn() -> (r: String)
    ensures
        is_isbn(r@),
{
    barcode::en::Isbn().fake()
}

/// Calls the faker `fake::faker::automotive::fr_fr::LicencePlate`: a licence plate.
/// Which one comes out is chance.
#[verifier::external_body]
pub(crate) fn licence_plate_fr_fr() -> (r: String)
    ensures
        fills_plate("$$-###-$$"@, r@),
{
    automotive::fr_fr::LicencePlate().fake()
}

/// Calls the faker `fake::faker::automotive::it_it::LicencePlate`: a licence plate.
/// Which one comes out is chance.
#[verifier::external_body]
pub(crate) fn licence_plate_it_it() -> (r: String)
    ensures
        fills_plate("$$-###-$$"@, r@),
{
    automotive::it_it::LicencePlate().fake()
}

/// Calls the faker `fake::faker::automotive::nl_nl::LicencePlate`: a licence plate.
/// Which one comes out is chance.
#[verifier::external_body]
pub(crate) fn licence_plate_nl_nl() -> (r: String)
    ensures
        fills_plate("$$-###-$"@, r@) || fills_plate("$-###-$$"@, r@) || fills_plate(
            "$$$-##-$"@,
            r@,
        ),
{
    automotive::nl_nl::LicencePlate().fake()
}

/// Calls the faker `fake::faker::internet::en::Password`: a password of at least `min` and fewer
/// than `max` letters and digits. It panics on an empty range, and on a count that a text cannot
/// hold. Which characters come out is chance.
#[verifier::external_body]
pub(crate) fn password(min: usize, max: usize) -> (r: String)
    requires
        min < max,
        max <= most_parts(),
    ensures
        is_password(r@, min as int, max as int),
{
    internet::en::Password(min..max).fake()
}

/// Calls the faker `fake::faker::address::en::Geohash`: so many characters of the geohash alphabet,
/// none of them twice, and all of them where more are asked for. Which ones come out is chance.
#[verifier::external_body]
pub(crate) fn geohash(precision: u8) -> (r: String)
    ensures
        is_geohash(r@, precision as int),
{
    address::en::Geohash(precision).fake()
}

/// What a digit template becomes when every `#` is replaced by a digit and every `^` by a digit
/// above zero.
pub open spec fn fills_template(template: Seq<char>, text: Seq<char>) -> bool {
    &&& text.len() == template.len()
    &&& forall|i: int|
        #![trigger text[i]]
        0 <= i < text.len() ==> if template[i] == '#' {
            '0' <= text[i] <= '9'
        } else if template[i] == '^' {
            '1' <= text[i] <= '9'
        } else {
            text[i] == template[i]
        }
}

/// Calls the faker `fake::faker::number::en::NumberWithFormat`: the template with random digits in
/// place of its marks.
#[verifier::external_body]
pub(crate) fn number_with_format(template: &str) -> (r: String)
    ensures
        fills_template(template@, r@),
{
    number::en::NumberWithFormat(template).fake()
}

/// Calls `fake::Faker` for a string: any text.
/// Which one comes out is chance.
#[verifier::external_body]
pub(crate) fn any_text() -> (r: String)
    ensures
        is_any_text(r@),
{
    Faker.fake::<String>()
}

/// Calls `fake::Faker` for a `uuid::Uuid`, and writes it out.
/// Which one comes out is chance.
#[verifier::external_body]
pub(crate) fn any_uuid() -> (r: String)
    ensures
        is_uuid(r@),
{
    Faker.fake::<uuid::Uuid>().to_string()
}

/// Calls `fake::Faker` for a `semver::Version`, and writes it out.
/// Which one comes out is chance.
#[verifier::external_body]
pub(crate) fn any_version() -> (r: String)
    ensures
        is_version(r@),
{
    Faker.fake::<semver::Version>().to_string()
}

/// Calls `fake::Faker` for a truth value.
#[verifier::external_body]
pub(crate) fn any_flag() -> (r: bool)
{
    Faker.fake::<bool>()
}

/// Calls the faker `fake::faker::boolean::en::Boolean`: true in `percent` of a hundred cases, so
/// never for zero and always for a hundred.
#[verifier::external_body]
pub(crate) fn flag_with_chance(percent: u8) -> (r: bool)
    ensures
        percent == 0 ==> !r,
        percent >= 100 ==> r,
{
    fake::faker::boolean::en::Boolean(percent).fake()
}

} // verus!
