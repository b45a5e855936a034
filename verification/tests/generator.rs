//! Recipes of generated columns.
use std::sync::Arc;

use arrow::array::{Array, ArrayRef, Float64Array, StringArray, UnionArray};
use arrow::buffer::ScalarBuffer;
use arrow::datatypes::{DataType, Field as ArrowField, UnionFields};
use fake::Fake;
use fakeset::generator::{
    build_same_type_variant_column, constant_column, draw_categorical, draw_text, fake_flag,
    fake_flags, fake_string, fake_strings, fresh_rows, generate_column, generate_column_raw, sample_count, scatter,
    text_source, ColumnPart, ColumnRecipe, Constant, TextDraw, TextSource,
};
use fakeset::models::{
    ArgEntry, CountSpec, Field, FieldType, FieldVariant, Generator, Locale, Num, ParquetConfig,
    ParquetDatatype, Range, UnionCase, YamlValue,
};
use fakeset::schema::{field_to_arrow, ColumnType};

fn num(x: f64) -> Num {
    Num::from_bits(x.to_bits())
}

/// Two heterogeneous cases: a static-string case ("x") and a number case (0..10),
/// 50/50.
fn union_field() -> Field {
    Field {
        field_type: Some(FieldType::Union),
        union_cases: vec![
            UnionCase {
                field: Field {
                    field_type: Some(FieldType::String),
                    value: Some(YamlValue::Text("x".into())),
                    ..Default::default()
                },
                ratio: Some(num(0.5)),
            },
            UnionCase {
                field: Field {
                    field_type: Some(FieldType::Number),
                    range: Some(Range {
                        min: Some(num(0.0)),
                        max: Some(num(10.0)),
                    }),
                    ..Default::default()
                },
                ratio: Some(num(0.5)),
            },
        ],
        ..Default::default()
    }
}

#[test]
fn generates_denseunion_with_expected_case_split() {
    // Per-row categorical sampling over two 0.5 cases — assert the split is in a
    // sane band (not exact, since each row is drawn independently).
    let field = union_field();
    assert!(matches!(generate_column_raw(&field, 4, &vec![]).unwrap().recipe, ColumnRecipe::Union));
    let draws: Vec<Num> = (0..1000).map(|_| num((0.0..1.0).fake::<f64>())).collect();
    let (cases, counts) = draw_categorical(&vec![num(0.5), num(1.0)], &draws);
    let strings: ArrayRef = Arc::new(StringArray::from(vec!["x"; counts[0]]));
    let numbers: ArrayRef = Arc::new(Float64Array::from(vec![5.0; counts[1]]));
    let fields: UnionFields = [
        (0_i8, Arc::new(ArrowField::new("item", DataType::Utf8, true))),
        (1_i8, Arc::new(ArrowField::new("item", DataType::Float64, true))),
    ]
    .into_iter()
    .collect();
    let ids: ScalarBuffer<i8> = cases.iter().map(|&c| c as i8).collect();
    let offsets: ScalarBuffer<i32> = scatter(&cases, 2).iter().map(|&o| o as i32).collect();
    let u = UnionArray::try_new(fields, ids, Some(offsets), vec![strings, numbers]).unwrap();
    assert_eq!(u.type_ids().len(), 1000);
    let mut hist = std::collections::BTreeMap::new();
    for &t in u.type_ids().iter() {
        *hist.entry(t).or_insert(0) += 1;
    }
    assert!(
        (400..=600).contains(hist.get(&0).unwrap_or(&0)),
        "string case ≈ 500"
    );
    assert!(
        (400..=600).contains(hist.get(&1).unwrap_or(&0)),
        "number case ≈ 500"
    );
}

#[test]
fn field_to_arrow_is_dense_union() {
    match field_to_arrow(&union_field()).kind {
        ColumnType::Union(fields) => assert_eq!(fields.len(), 2),
        other => panic!("expected a Union datatype, got {other:?}"),
    }
}

#[test]
fn draws_pick_the_first_share_above_them() {
    let shares = vec![num(0.2), num(0.5), num(1.0)];
    let draws = vec![num(0.0), num(0.2), num(0.49), num(0.5), num(0.99), num(1.5)];
    let (cases, counts) = draw_categorical(&shares, &draws);
    assert_eq!(cases, vec![0, 1, 1, 2, 2, 2]);
    assert_eq!(counts, vec![1, 2, 3]);
    assert_eq!(scatter(&cases, 3), vec![0, 0, 1, 0, 1, 2]);
}

#[test]
fn constants_take_the_type_of_their_field() {
    let text = YamlValue::Text("1970-01-02".into());
    assert!(matches!(constant_column(&FieldType::Date, &text), Ok(Constant::Day(1))));
    assert!(matches!(constant_column(&FieldType::String, &text), Ok(Constant::Text(_))));
    assert!(constant_column(&FieldType::Number, &text).is_err());
    let when = YamlValue::Text("1970-01-01T00:00:01Z".into());
    match constant_column(&FieldType::DateTime, &when) {
        Ok(Constant::Instant(t)) => assert_eq!((t.secs, t.nanos), (1, 0)),
        other => panic!("unexpected constant {other:?}"),
    }
}

fn arg(key: &str, value: YamlValue) -> ArgEntry {
    ArgEntry { key: key.into(), value }
}

fn whole(n: i64) -> YamlValue {
    YamlValue::Int { value: n as i128, num: num(n as f64) }
}

#[test]
fn texts_follow_their_arguments() {
    let args = Some(vec![arg("format", YamlValue::Text("##-A".into()))]);
    match fake_string(Some(Generator::NumberWithFormat), None, &args) {
        TextDraw::Text(s) => {
            assert_eq!(s.len(), 4);
            assert!(s.ends_with("-A") && s[..2].chars().all(|c| c.is_ascii_digit()));
        }
        other => panic!("unexpected draw {other:?}"),
    }
    let none = Some(vec![arg("min", whole(5)), arg("max", whole(5))]);
    assert!(matches!(fake_string(Some(Generator::Words), None, &none), TextDraw::NoCount));
    match fake_string(Some(Generator::FirstName), Some(Locale::FrFr), &None) {
        TextDraw::Text(s) => assert!(!s.is_empty()),
        other => panic!("unexpected draw {other:?}"),
    }
}

fn drawn(g: Generator, locale: Option<Locale>, args: &Option<Vec<ArgEntry>>) -> String {
    match fake_string(Some(g), locale, args) {
        TextDraw::Text(s) => s,
        other => panic!("unexpected draw {other:?}"),
    }
}

#[test]
fn texts_have_the_parts_asked_for() {
    let three = Some(vec![arg("min", whole(3)), arg("max", whole(4))]);
    let sentence = drawn(Generator::Sentence, None, &three);
    assert!(sentence.ends_with('.'));
    assert_eq!(sentence.split(' ').count(), 3);
    let paragraph = drawn(Generator::Paragraph, None, &three);
    assert_eq!(paragraph.lines().filter(|l| l.ends_with('.')).count(), 3);
    assert_eq!(drawn(Generator::Words, None, &three).split(' ').count(), 3);
    assert_eq!(drawn(Generator::Sentences, None, &three).matches('.').count(), 3);
    assert_eq!(drawn(Generator::Paragraphs, None, &three).split("\n\n").count(), 3);
    let password = drawn(Generator::Password, None, &three);
    assert!(password.len() == 3 && password.chars().all(|c| c.is_ascii_alphanumeric()));
}

#[test]
fn geohashes_have_their_precision() {
    let alphabet = "0123456789bcdefghjkmnpqrstuvwxyz";
    assert_eq!(drawn(Generator::Geohash, None, &None).len(), 6);
    let nine = Some(vec![arg("precision", whole(9))]);
    let hash = drawn(Generator::Geohash, None, &nine);
    assert!(hash.len() == 9 && hash.chars().all(|c| alphabet.contains(c)));
    let most = Some(vec![arg("precision", whole(200))]);
    assert_eq!(drawn(Generator::Geohash, None, &most).len(), 32);
}

fn plain(g: Generator) -> String {
    drawn(g, None, &None)
}

/// Digits for `#`, capital letters for `$`, and the pattern's own characters elsewhere.
fn matches_pattern(text: &str, pattern: &str) -> bool {
    text.chars().count() == pattern.chars().count()
        && text.chars().zip(pattern.chars()).all(|(c, p)| match p {
            '#' => c.is_ascii_digit(),
            '$' => c.is_ascii_uppercase(),
            _ => c == p,
        })
}

#[test]
fn addresses_have_their_shapes() {
    for _ in 0..50 {
        let ip = plain(Generator::IPv4);
        assert_eq!(ip.split('.').filter(|n| n.parse::<u8>().is_ok()).count(), 4, "{ip}");
        let ip = plain(Generator::IPv6);
        assert_eq!(ip.split(':').count(), 8, "{ip}");
        assert!(ip.split(':').all(|g| u16::from_str_radix(g, 16).is_ok()), "{ip}");
        let mac = plain(Generator::MacAddress);
        assert_eq!(mac.len(), 17);
        assert!(mac.split(':').all(|g| g.len() == 2 && u8::from_str_radix(g, 16).is_ok()));
        assert!(plain(Generator::Email).contains('@'));
        assert!(!plain(Generator::Username).is_empty());
        assert!(!plain(Generator::UserAgent).is_empty());
    }
}

#[test]
fn codes_have_their_shapes() {
    for _ in 0..50 {
        let uuid = plain(Generator::Uuid);
        assert_eq!(uuid.len(), 36);
        assert_eq!(uuid.split('-').map(str::len).collect::<Vec<_>>(), vec![8, 4, 4, 4, 12]);
        let card = plain(Generator::CreditCardNumber);
        assert!(card.chars().all(|c| c.is_ascii_digit()) && [13, 15, 16].contains(&card.len()));
        let bic = plain(Generator::Bic);
        assert!(matches_pattern(&bic[..8], "$$$$$$$1") && [8, 11].contains(&bic.len()), "{bic}");
        let isin = plain(Generator::Isin);
        assert!(isin.len() == 12 && isin.ends_with(|c: char| c.is_ascii_digit()), "{isin}");
        let isbn = plain(Generator::Isbn);
        assert!([4, 5].contains(&isbn.split('-').count()), "{isbn}");
        assert!([13, 17].contains(&isbn.len()), "{isbn}");
        let version = plain(Generator::Semver);
        let release = version.split('-').next().unwrap();
        assert_eq!(release.split('.').filter(|n| n.parse::<u64>().is_ok()).count(), 3, "{version}");
        assert!(matches_pattern(&plain(Generator::Date), "####-##-##"));
        let time = plain(Generator::DateTime);
        assert!(matches_pattern(&time[..19], "####-##-##T##:##:##") && time.ends_with("+00:00"));
        assert_eq!(plain(Generator::CurrencyCode).len(), 3);
        assert_eq!(plain(Generator::CountryCode).len(), 2);
        assert!(plain(Generator::TimeZone).contains('/'));
        assert!(plain(Generator::Latitude).parse::<f64>().is_ok());
        assert!(plain(Generator::Longitude).parse::<f64>().is_ok());
        assert!(!plain(Generator::CurrencyName).is_empty());
        assert!(!plain(Generator::CurrencySymbol).is_empty());
    }
    match fake_string(None, None, &None) {
        TextDraw::Text(s) => {
            assert!((5..20).contains(&s.len()) && s.chars().all(|c| c.is_ascii_alphanumeric()))
        }
        other => panic!("unexpected draw {other:?}"),
    }
}

#[test]
fn texts_follow_their_locale() {
    let local = |g: Generator, l: Locale| drawn(g, Some(l), &None);
    for _ in 0..50 {
        assert!(matches_pattern(&local(Generator::LicencePlate, Locale::FrFr), "$$-###-$$"));
        assert!(matches_pattern(&local(Generator::LicencePlate, Locale::ItIt), "$$-###-$$"));
        let dutch = local(Generator::LicencePlate, Locale::NlNl);
        let patterns = ["$$-###-$", "$-###-$$", "$$$-##-$"];
        assert!(patterns.iter().any(|p| matches_pattern(&dutch, p)), "{dutch}");
        assert!(matches_pattern(&local(Generator::ZipCode, Locale::NlNl), "#### $$"));
        assert!(matches_pattern(&local(Generator::ZipCode, Locale::DeDe), "#####"));
        assert!(matches_pattern(&local(Generator::PhoneNumber, Locale::NlNl), "+31 ## ########"));
        let name = local(Generator::Name, Locale::En);
        assert!(name.is_ascii() && name.contains(' '), "{name}");
        assert!(!local(Generator::Name, Locale::ZhCn).contains(' '));
        assert!(!local(Generator::FirstName, Locale::JaJp).is_ascii());
        assert!(!local(Generator::LastName, Locale::ZhTw).is_ascii());
        assert!(local(Generator::NameWithTitle, Locale::En).split(' ').count() >= 3);
    }
    for g in [
        Generator::Word,
        Generator::CompanyName,
        Generator::CompanySuffix,
        Generator::Industry,
        Generator::Profession,
        Generator::Buzzword,
        Generator::CityName,
        Generator::CountryName,
        Generator::StreetName,
        Generator::StateAbbr,
    ] {
        assert!(!local(g, Locale::En).is_empty());
    }
}

#[test]
fn sources_follow_generator_locale_and_arguments() {
    assert!(matches!(text_source(None, None, &None), TextSource::Anything));
    assert!(matches!(
        text_source(Some(Generator::LastName), None, &None),
        TextSource::Local { generator: Generator::LastName, locale: Locale::En }
    ));
    assert!(matches!(
        text_source(Some(Generator::LicencePlate), Some(Locale::NlNl), &None),
        TextSource::Local { generator: Generator::LicencePlate, locale: Locale::NlNl }
    ));
    assert!(matches!(
        text_source(Some(Generator::LicencePlate), Some(Locale::JaJp), &None),
        TextSource::Local { generator: Generator::LicencePlate, locale: Locale::FrFr }
    ));
    assert!(matches!(
        text_source(Some(Generator::Words), Some(Locale::ZhCn), &None),
        TextSource::Counted { generator: Generator::Words, locale: Locale::ZhCn, min: 3, max: 8 }
    ));
    assert!(matches!(
        text_source(Some(Generator::Bic), Some(Locale::FrFr), &None),
        TextSource::Plain { generator: Generator::Bic }
    ));
    assert!(matches!(
        text_source(Some(Generator::PositiveDecimal), None, &None),
        TextSource::Decimal { positive: true }
    ));
    match text_source(Some(Generator::NumberWithFormat), None, &None) {
        TextSource::Template { template } => assert_eq!(template, "###"),
        other => panic!("unexpected source {other:?}"),
    }
    let many = Some(vec![arg("max", whole(i64::MAX))]);
    assert!(matches!(text_source(Some(Generator::Password), None, &many), TextSource::NoCount));
    assert!(matches!(draw_text(&TextSource::NoCount), TextDraw::NoCount));
}

#[test]
fn flags_follow_their_ratio() {
    let sure = Some(vec![arg("ratio", whole(100))]);
    let never = Some(vec![arg("ratio", whole(0))]);
    assert!((0..50).all(|_| fake_flag(&sure)));
    assert!((0..50).all(|_| !fake_flag(&never)));
}

#[test]
fn counts_follow_their_declaration() {
    assert_eq!(sample_count(&CountSpec::Fixed(3), 9), 3);
    assert_eq!(sample_count(&CountSpec::Normal { mean: num(1.0), std_dev: num(1.0) }, -2), 0);
    assert_eq!(sample_count(&CountSpec::Normal { mean: num(1.0), std_dev: num(1.0) }, 4), 4);
    let n = sample_count(&CountSpec::Uniform { min: 2, max: 4 }, 0);
    assert!((2..=4).contains(&n));
    assert_eq!(fresh_rows(10, 4), 6);
    assert_eq!(fresh_rows(4, 10), 0);
}

#[test]
fn a_set_of_values_restricts_the_cases() {
    let case = |v: &str| FieldVariant {
        field_type: Some(FieldType::String),
        value: Some(YamlValue::Text(v.into())),
        ..Default::default()
    };
    let mut f = Field {
        name: "tier".into(),
        field_type: Some(FieldType::String),
        variants: vec![case("a"), case("b")],
        one_of: Some(vec![YamlValue::Text("b".into())]),
        ..Default::default()
    };
    let plan = build_same_type_variant_column(&f).unwrap();
    assert_eq!(plan.fields.len(), 1);
    f.one_of = Some(vec![YamlValue::Text("z".into())]);
    assert!(build_same_type_variant_column(&f).is_err());
}

#[test]
fn given_values_come_first() {
    let f = Field { field_type: Some(FieldType::Boolean), ..Default::default() };
    let c = generate_column_raw(&f, 10, &vec![3, 0, 2]).unwrap();
    assert!(matches!(c.recipe, ColumnRecipe::Flags));
    let given = [ColumnPart::Given(0), ColumnPart::Given(1), ColumnPart::Given(2)];
    assert_eq!(c.parts[..3], given);
    assert_eq!(c.parts[3..], [ColumnPart::Fresh(5)]);
    let c = generate_column_raw(&f, 4, &vec![3, 3]).unwrap();
    assert_eq!(c.parts, vec![ColumnPart::Given(0), ColumnPart::Given(1), ColumnPart::Fresh(0)]);
    let c = generate_column_raw(&f, 4, &vec![]).unwrap();
    assert_eq!(c.parts, vec![ColumnPart::Fresh(4)]);
}

#[test]
fn only_numbers_are_rounded() {
    let mut f = Field {
        field_type: Some(FieldType::Number),
        precision: Some(2),
        parquet: Some(ParquetConfig { datatype: ParquetDatatype::Int32 }),
        ..Default::default()
    };
    let c = generate_column(&f, 3, &vec![]).unwrap();
    assert!(matches!(c.recipe, ColumnRecipe::Numbers { .. }));
    assert_eq!(c.round, Some(2));
    assert_eq!(c.stored, Some(ParquetDatatype::Int32));
    f.field_type = Some(FieldType::Boolean);
    f.parquet = None;
    let c = generate_column(&f, 3, &vec![]).unwrap();
    assert_eq!(c.round, None);
    assert_eq!(c.stored, None);
}

#[test]
fn columns_draw_every_row_on_its_own() {
    let digits = Some(vec![arg("format", YamlValue::Text("A-##".into()))]);
    let texts = fake_strings(Some(Generator::NumberWithFormat), None, &digits, 200);
    assert_eq!(texts.len(), 200);
    let mut seen = Vec::new();
    for t in &texts {
        let TextDraw::Text(s) = t else { panic!("no text: {t:?}") };
        assert!(matches_pattern(s, "A-##"), "{s}");
        seen.push(s.clone());
    }
    seen.sort();
    seen.dedup();
    assert!(seen.len() > 1);
    assert!(fake_strings(None, None, &None, 0).is_empty());
    let decimals = fake_strings(Some(Generator::PositiveDecimal), None, &None, 3);
    assert!(decimals.iter().all(|d| matches!(d, TextDraw::Decimal { positive: true })));
    assert_eq!(fake_flags(&Some(vec![arg("ratio", whole(100))]), 50), vec![true; 50]);
    assert_eq!(fake_flags(&Some(vec![arg("ratio", whole(0))]), 50), vec![false; 50]);
    let even = fake_flags(&None, 400);
    assert!(even.contains(&true) && even.contains(&false));
}
