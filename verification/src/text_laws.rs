//! What generated texts promise: which lists they are taken from, what they are made of and how
//! they look.
use vstd::prelude::*;

use crate::fakers::{
    buzzwords, city_names, company_names, company_suffixes, country_codes, country_names,
    currency_codes, currency_names, currency_symbols, family_names, free_emails, given_names,
    glued, industries, latitudes, longitudes, lorem_words, most_parts, phone_templates,
    professions, state_abbrs, street_names, time_zones, titles, user_agents, usernames,
    zip_templates,
};
use crate::generator::{
    comes_from, default_range, first_arg, law_arguments_are_read, source_of, TextDraw,
};
use crate::models::{ArgEntryModel, Generator, Locale, YamlModel};

verus! {

/// A digit.
pub open spec fn digit(c: char) -> bool {
    c == '0' || c == '1' || c == '2' || c == '3' || c == '4' || c == '5' || c == '6' || c == '7'
        || c == '8' || c == '9'
}

/// The text may be drawn of the generator without arguments.
pub open spec fn may_draw(g: Generator, locale: Option<Locale>, t: String) -> bool {
    comes_from(source_of(Some(g), locale, None), TextDraw::Text(t))
}

/// A generator that takes its texts from a list takes them from its own, in the declared locale.
pub proof fn law_texts_come_from_their_list(g: Generator, l: Locale, t: String)
    requires
        may_draw(g, Some(l), t),
    ensures
        g == Generator::FirstName ==> given_names(l).contains(t@),
        g == Generator::LastName ==> family_names(l).contains(t@),
        g == Generator::Word ==> lorem_words(l).contains(t@),
        g == Generator::CompanyName ==> company_names(l).contains(t@),
        g == Generator::CompanySuffix ==> company_suffixes(l).contains(t@),
        g == Generator::Industry ==> industries(l).contains(t@),
        g == Generator::Profession ==> professions(l).contains(t@),
        g == Generator::Buzzword ==> buzzwords(l).contains(t@),
        g == Generator::CityName ==> city_names(l).contains(t@),
        g == Generator::CountryName ==> country_names(l).contains(t@),
        g == Generator::StreetName ==> street_names(l).contains(t@),
        g == Generator::StateAbbr ==> state_abbrs(l).contains(t@),
        g == Generator::Email ==> free_emails(Locale::En).contains(t@),
        g == Generator::Username ==> usernames(Locale::En).contains(t@),
        g == Generator::UserAgent ==> user_agents(Locale::En).contains(t@),
        g == Generator::CountryCode ==> country_codes(Locale::En).contains(t@),
        g == Generator::TimeZone ==> time_zones(Locale::En).contains(t@),
        g == Generator::CurrencyCode ==> currency_codes(Locale::En).contains(t@),
        g == Generator::CurrencyName ==> currency_names(Locale::En).contains(t@),
        g == Generator::CurrencySymbol ==> currency_symbols(Locale::En).contains(t@),
        g == Generator::Latitude ==> latitudes(Locale::En).contains(t@),
        g == Generator::Longitude ==> longitudes(Locale::En).contains(t@),
{
}

/// Without a locale a text is the English one.
pub proof fn law_english_is_the_default(g: Generator, t: String)
    ensures
        may_draw(g, None, t) <==> may_draw(g, Some(Locale::En), t),
{
}

/// A name is a given and a family name that could be drawn alone, in the order of the locale:
/// family first, without a space, in Chinese, family first in Japanese, given first elsewhere.
pub proof fn law_names_are_made_of_their_parts(l: Locale, t: String)
    requires
        may_draw(Generator::Name, Some(l), t),
    ensures
        exists|given: Seq<char>, family: Seq<char>|
            #![trigger given_names(l).contains(given), family_names(l).contains(family)]
            given_names(l).contains(given) && family_names(l).contains(family) && t@ == if l
                == Locale::ZhCn || l == Locale::ZhTw {
                family + given
            } else if l == Locale::JaJp {
                family + " "@ + given
            } else {
                given + " "@ + family
            },
{
    let (given, family) = choose|given: Seq<char>, family: Seq<char>|
        {
            &&& given_names(l).contains(given)
            &&& family_names(l).contains(family)
            &&& t@ == #[trigger] crate::fakers::written_name(l, given, family)
        };
    assert(given_names(l).contains(given) && family_names(l).contains(family));
}

/// A name with a title is a title and a name, the title last in Chinese and Japanese.
pub proof fn law_titled_names_are_made_of_their_parts(l: Locale, t: String)
    requires
        may_draw(Generator::NameWithTitle, Some(l), t),
    ensures
        exists|title: Seq<char>, given: Seq<char>, family: Seq<char>|
            #![trigger titles(l).contains(title), given_names(l).contains(given), family_names(
                l,
            ).contains(family)]
            titles(l).contains(title) && given_names(l).contains(given) && family_names(l).contains(
                family,
            ) && t@ == if l == Locale::ZhCn || l == Locale::ZhTw || l == Locale::JaJp {
                family + given + title
            } else {
                title + " "@ + given + " "@ + family
            },
{
    let (title, given, family) = choose|title: Seq<char>, given: Seq<char>, family: Seq<char>|
        {
            &&& titles(l).contains(title)
            &&& given_names(l).contains(given)
            &&& family_names(l).contains(family)
            &&& t@ == #[trigger] crate::fakers::written_title(l, title, given, family)
        };
    assert(titles(l).contains(title) && given_names(l).contains(given) && family_names(
        l,
    ).contains(family));
}

/// A telephone number and a postal code follow a template of the locale: as long as it, and equal
/// to it where the template asks for neither a digit nor a letter.
pub proof fn law_numbers_follow_a_template(g: Generator, l: Locale, t: String)
    requires
        may_draw(g, Some(l), t),
    ensures
        g == Generator::PhoneNumber ==> exists|p: Seq<char>|
            #[trigger] phone_templates(l).contains(p) && p.len() == t@.len() && forall|i: int|
                0 <= i < p.len() ==> if p[i] == '#' || p[i] == '^' {
                    digit(#[trigger] t@[i])
                } else {
                    t@[i] == p[i]
                },
        g == Generator::ZipCode ==> exists|p: Seq<char>|
            #[trigger] zip_templates(l).contains(p) && p.len() == t@.len() && forall|i: int|
                0 <= i < p.len() ==> if p[i] == '#' {
                    digit(#[trigger] t@[i])
                } else if p[i] == '$' {
                    'A' <= t@[i] <= 'Z'
                } else {
                    t@[i] == p[i]
                },
{
    if g == Generator::PhoneNumber {
        let p = choose|p: Seq<char>| #[trigger]
            phone_templates(l).contains(p) && crate::fakers::fills_template(p, t@);
        assert(phone_templates(l).contains(p));
        assert forall|i: int| 0 <= i < p.len() implies if p[i] == '#' || p[i] == '^' {
            digit(#[trigger] t@[i])
        } else {
            t@[i] == p[i]
        } by {
            lemma_digit(t@[i]);
        }
    }
    if g == Generator::ZipCode {
        let p = choose|p: Seq<char>| #[trigger]
            zip_templates(l).contains(p) && crate::fakers::fills_plate(p, t@);
        assert(zip_templates(l).contains(p));
        assert forall|i: int| 0 <= i < p.len() implies if p[i] == '#' {
            digit(#[trigger] t@[i])
        } else if p[i] == '$' {
            'A' <= t@[i] <= 'Z'
        } else {
            t@[i] == p[i]
        } by {
            lemma_digit(t@[i]);
        }
    }
}

proof fn lemma_digit(c: char)
    ensures
        '0' <= c <= '9' <==> digit(c),
{
}

/// A licence plate is that of the country of the locale: two letters, three digits and two letters
/// in Italy and in France, whose plates serve everywhere else; six signs in three parts in the
/// Netherlands.
pub proof fn law_plates_belong_to_a_country(l: Locale, t: String)
    requires
        may_draw(Generator::LicencePlate, Some(l), t),
    ensures
        l != Locale::NlNl ==> t@.len() == 9 && t@[2] == '-' && t@[6] == '-' && digit(t@[3])
            && digit(t@[4]) && digit(t@[5]) && 'A' <= t@[0] <= 'Z' && 'A' <= t@[8] <= 'Z',
        l == Locale::NlNl ==> t@.len() == 8,
{
    reveal_strlit("$$-###-$$");
    reveal_strlit("$$-###-$");
    reveal_strlit("$-###-$$");
    reveal_strlit("$$$-##-$");
    if l != Locale::NlNl {
        assert(crate::fakers::fills_plate("$$-###-$$"@, t@));
        lemma_digit(t@[3]);
        lemma_digit(t@[4]);
        lemma_digit(t@[5]);
        assert(t@[2] == '-' && t@[6] == '-');
        assert('A' <= t@[0] && 'A' <= t@[8]);
    }
}

/// Texts of a fixed form have it: identifiers, addresses, card and bank numbers, dates.
pub proof fn law_texts_have_their_form(g: Generator, l: Option<Locale>, t: String)
    requires
        may_draw(g, l, t),
    ensures
        g == Generator::Uuid ==> t@.len() == 36 && t@[8] == '-' && t@[13] == '-' && t@[18] == '-'
            && t@[23] == '-',
        g == Generator::MacAddress ==> t@.len() == 17 && t@[2] == ':' && t@[14] == ':',
        g == Generator::IPv4 ==> exists|a: u8, b: u8, c: u8, d: u8|
            t@ == #[trigger] crate::fakers::dotted(a, b, c, d),
        g == Generator::IPv6 ==> exists|p: Seq<Seq<char>>|
            p.len() == 8 && t@ == #[trigger] glued(p, ":"@, 8),
        g == Generator::CreditCardNumber ==> (t@.len() == 13 || t@.len() == 15 || t@.len() == 16)
            && digit(t@[0]),
        g == Generator::Bic ==> t@.len() == 8 || t@.len() == 11,
        g == Generator::Isin ==> t@.len() == 12 && digit(t@[11]) && 'A' <= t@[0] <= 'Z',
        g == Generator::Isbn ==> t@.len() == 13 || t@.len() == 17,
        g == Generator::Date ==> t@.len() == 10 && t@[4] == '-' && t@[7] == '-' && digit(t@[0]),
        g == Generator::DateTime ==> t@.len() >= 25 && t@[10] == 'T' && t@[13] == ':',
        g == Generator::Semver ==> exists|major: nat, minor: nat, patch: nat|
            major < 9 && minor < 20 && patch < 20 && #[trigger] crate::fakers::release(
                major,
                minor,
                patch,
            ).is_prefix_of(t@),
        g == Generator::Geohash ==> t@.len() == 6,
        g == Generator::NumberWithFormat ==> t@.len() == 3 && digit(t@[0]) && digit(t@[1])
            && digit(t@[2]),
{
    if g == Generator::Uuid {
        assert(t@[8] == '-' && t@[13] == '-' && t@[18] == '-' && t@[23] == '-');
    }
    if g == Generator::MacAddress {
        assert(t@[2] == ':' && t@[14] == ':');
    }
    if g == Generator::IPv6 {
        let p = choose|p: Seq<Seq<char>>|
            {
                &&& p.len() == 8
                &&& forall|i: int| 0 <= i < 8 ==> crate::fakers::is_hex_group(#[trigger] p[i])
                &&& t@ == #[trigger] glued(p, ":"@, 8)
            };
        assert(t@ == glued(p, ":"@, 8));
    }
    if g == Generator::CreditCardNumber {
        lemma_digit(t@[0]);
    }
    if g == Generator::Isin {
        lemma_digit(t@[11]);
    }
    if g == Generator::Date {
        reveal_strlit("####-##-##");
        lemma_digit(t@[0]);
        assert(t@[4] == '-' && t@[7] == '-');
    }
    if g == Generator::DateTime {
        reveal_strlit("####-##-##T##:##:##+00:00");
        reveal_strlit("####-##-##T##:##:##.###+00:00");
        reveal_strlit("####-##-##T##:##:##.######+00:00");
        reveal_strlit("####-##-##T##:##:##.#########+00:00");
        assert(t@[10] == 'T' && t@[13] == ':');
    }
    if g == Generator::Semver {
        lemma_version(t@);
    }
    if g == Generator::NumberWithFormat {
        reveal_strlit("###");
        lemma_digit(t@[0]);
        lemma_digit(t@[1]);
        lemma_digit(t@[2]);
    }
}

proof fn lemma_version(t: Seq<char>)
    requires
        crate::fakers::is_version(t),
    ensures
        exists|major: nat, minor: nat, patch: nat|
            major < 9 && minor < 20 && patch < 20 && #[trigger] crate::fakers::release(
                major,
                minor,
                patch,
            ).is_prefix_of(t),
{
    let (a, b, c) = choose|major: nat, minor: nat, patch: nat|
        {
            &&& major < 9
            &&& minor < 20
            &&& patch < 20
            &&& {
                ||| t == #[trigger] crate::fakers::release(major, minor, patch)
                ||| crate::fakers::is_early(t, crate::fakers::release(major, minor, patch))
            }
        };
    let r = crate::fakers::release(a, b, c);
    if t == r {
        assert(r.is_prefix_of(t));
    } else {
        let n = choose|n: nat|
            {
                let number = #[trigger] crate::text::decimal_text(n);
                &&& n < 9
                &&& {
                    ||| t == r + "-alpha."@ + number
                    ||| t == r + "-beta."@ + number
                    ||| t == r + "-rc."@ + number
                }
            };
        assert(t.subrange(0, r.len() as int) =~= r);
        assert(r.is_prefix_of(t));
    }
}

/// A text of words has as many as the bounds allow, all of them words of the locale; a sentence
/// has a full stop behind them.
pub proof fn law_texts_have_as_many_words_as_asked_for(
    g: Generator,
    l: Locale,
    args: Seq<ArgEntryModel>,
    i: int,
    j: int,
    t: String,
)
    requires
        g == Generator::Words || g == Generator::Sentence,
        first_arg(args, i),
        first_arg(args, j),
        args[i].key == "min"@,
        args[j].key == "max"@,
        args[i].value.count() is Some,
        args[j].value.count() is Some,
        args[i].value.count()->0 < args[j].value.count()->0 <= most_parts(),
        comes_from(source_of(Some(g), Some(l), Some(args)), TextDraw::Text(t)),
    ensures
        exists|words: Seq<Seq<char>>|
            args[i].value.count()->0 <= words.len() < args[j].value.count()->0 && (forall|k: int|
                0 <= k < words.len() ==> lorem_words(l).contains(#[trigger] words[k])) && t@ == (
            if g == Generator::Words {
                #[trigger] glued(words, " "@, words.len() as int)
            } else {
                glued(words, " "@, words.len() as int).push('.')
            }),
{
    crate::generator::law_texts_follow_their_arguments(g, Some(l), args, i, j);
    let min = args[i].value.count()->0 as int;
    let max = args[j].value.count()->0 as int;
    if g == Generator::Words {
        let words = choose|words: Seq<Seq<char>>|
            {
                &&& min <= words.len() < max
                &&& crate::fakers::all_lorem(l, words)
                &&& t@ == #[trigger] glued(words, " "@, words.len() as int)
            };
        assert(t@ == glued(words, " "@, words.len() as int));
    } else {
        let words = choose|words: Seq<Seq<char>>|
            {
                &&& min <= words.len() < max
                &&& crate::fakers::all_lorem(l, words)
                &&& t@ == (#[trigger] glued(words, " "@, words.len() as int)).push('.')
            };
        assert(t@ == glued(words, " "@, words.len() as int).push('.'));
    }
}

/// A password is as long as the bounds allow; without bounds it has from eight to nineteen
/// characters.
pub proof fn law_passwords_are_as_long_as_asked_for(
    args: Seq<ArgEntryModel>,
    i: int,
    j: int,
    t: String,
)
    ensures
        may_draw(Generator::Password, None, t) ==> 8 <= t@.len() < 20,
        first_arg(args, i) && first_arg(args, j) && args[i].key == "min"@ && args[j].key == "max"@
            && args[i].value.count() is Some && args[j].value.count() is Some
            && args[i].value.count()->0 < args[j].value.count()->0 <= most_parts() && comes_from(
            source_of(Some(Generator::Password), None, Some(args)),
            TextDraw::Text(t),
        ) ==> args[i].value.count()->0 <= t@.len() < args[j].value.count()->0,
{
    if first_arg(args, i) && first_arg(args, j) && args[i].key == "min"@ && args[j].key == "max"@
        && args[i].value.count() is Some && args[j].value.count() is Some
        && args[i].value.count()->0 < args[j].value.count()->0 <= most_parts() {
        crate::generator::law_texts_follow_their_arguments(
            Generator::Password,
            None,
            args,
            i,
            j,
        );
    }
}

/// A geohash has the declared precision, and a formatted number the form of the declared template.
pub proof fn law_texts_have_the_declared_form(
    args: Seq<ArgEntryModel>,
    i: int,
    n: u64,
    template: Seq<char>,
    t: String,
)
    requires
        first_arg(args, i),
    ensures
        args[i].key == "precision"@ && args[i].value.count() == Some(n) && n <= 32 && comes_from(
            source_of(Some(Generator::Geohash), None, Some(args)),
            TextDraw::Text(t),
        ) ==> t@.len() == n && t@.no_duplicates(),
        args[i].key == "format"@ && args[i].value == YamlModel::Text(template) && comes_from(
            source_of(Some(Generator::NumberWithFormat), None, Some(args)),
            TextDraw::Text(t),
        ) ==> t@.len() == template.len() && forall|k: int|
            0 <= k < template.len() ==> if template[k] == '#' {
                digit(#[trigger] t@[k])
            } else if template[k] == '^' {
                digit(t@[k]) && t@[k] != '0'
            } else {
                t@[k] == template[k]
            },
{
    law_arguments_are_read(args, i, args[i].key, 0);
    if args[i].key == "format"@ && args[i].value == YamlModel::Text(template) && comes_from(
        source_of(Some(Generator::NumberWithFormat), None, Some(args)),
        TextDraw::Text(t),
    ) {
        assert(crate::fakers::fills_template(template, t@));
        assert forall|k: int| 0 <= k < template.len() implies if template[k] == '#' {
            digit(#[trigger] t@[k])
        } else if template[k] == '^' {
            digit(t@[k]) && t@[k] != '0'
        } else {
            t@[k] == template[k]
        } by {
            lemma_digit(t@[k]);
        }
    }
}

/// A decimal is never drawn as anything else, and keeps its sign unless a positive one is asked
/// for.
pub proof fn law_decimals_keep_their_sign(l: Option<Locale>, args: Option<Seq<ArgEntryModel>>, r: TextDraw)
    ensures
        comes_from(source_of(Some(Generator::Decimal), l, args), r) <==> r == (TextDraw::Decimal {
            positive: false,
        }),
        comes_from(source_of(Some(Generator::PositiveDecimal), l, args), r) <==> r == (
        TextDraw::Decimal { positive: true }),
{
}

/// Counts that leave nothing to draw are told, and never answered with a text.
pub proof fn law_empty_counts_are_told(
    g: Generator,
    l: Option<Locale>,
    args: Seq<ArgEntryModel>,
    i: int,
    j: int,
    r: TextDraw,
)
    requires
        default_range(g) is Some,
        first_arg(args, i),
        first_arg(args, j),
        args[i].key == "min"@,
        args[j].key == "max"@,
        args[i].value.count() is Some,
        args[j].value.count() is Some,
        args[j].value.count()->0 <= args[i].value.count()->0 <= usize::MAX,
    ensures
        comes_from(source_of(Some(g), l, Some(args)), r) <==> r is NoCount,
{
    let bounds = default_range(g)->0;
    law_arguments_are_read(args, i, "min"@, bounds.0);
    law_arguments_are_read(args, j, "max"@, bounds.1);
}

/// A flag with a chance of nothing is never true and one with a chance of a hundred never false;
/// without a chance it may be either.
pub proof fn law_flags_follow_their_chance(args: Seq<ArgEntryModel>, i: int, flag: bool)
    ensures
        crate::generator::flag_fits(None, flag),
        first_arg(args, i) && args[i].key == "ratio"@ && args[i].value.count() == Some(0u64)
            ==> (crate::generator::flag_fits(Some(args), flag) <==> !flag),
        first_arg(args, i) && args[i].key == "ratio"@ && args[i].value.count() == Some(100u64)
            ==> (crate::generator::flag_fits(Some(args), flag) <==> flag),
{
    if first_arg(args, i) {
        law_arguments_are_read(args, i, args[i].key, 0);
    }
}

/// Values that are given stay, and only what is missing behind them is generated.
pub proof fn law_given_rows_are_not_generated_again(rows: int, given: int)
    requires
        0 <= given,
        0 <= rows,
    ensures
        given <= rows ==> given + crate::generator::fresh_of(rows, given) == rows,
        given >= rows ==> crate::generator::fresh_of(rows, given) == 0,
{
}

} // verus!
