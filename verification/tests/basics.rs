//! Texts, paths, orders, dates and the small types.
use fakeset::cover::internal_path;
use fakeset::dates::{
    constant_day, constant_instant, draw_day, fake_date, fake_dates, fake_datetime, fake_datetimes,
    Instant,
};
use fakeset::expand_variants::merge_delta_into;
use fakeset::import::detect_format;
use fakeset::models::{
    split_ref, Field, FieldType, Format, Generator, ListContent, Num,
};
use fakeset::order::sorted_order;
use fakeset::paths::{
    file_extension, file_name, file_stem, is_absolute, is_yaml, parent_dir, place_for,
    resolve_include,
};
use fakeset::text::{decimal, strip_prefix, text_less};

fn num(x: f64) -> Num {
    Num::from_bits(x.to_bits())
}

#[test]
fn numbers_keep_their_bits_and_their_order() {
    let ascending = [f64::NEG_INFINITY, -2.5, -1.0, 0.0, 1e-300, 0.5, 1.0, 7.25, f64::INFINITY];
    for w in ascending.windows(2) {
        assert!(num(w[0]).lt(num(w[1])));
        assert!(!num(w[1]).lt(num(w[0])));
    }
    for x in ascending {
        assert_eq!(f64::from_bits(num(x).to_bits()), x);
    }
    assert_eq!(num(2.0).max(num(-3.0)), num(2.0));
    assert_eq!(num(2.0).min(num(-3.0)), num(-3.0));
}

#[test]
fn decimals_are_the_usual_ones() {
    assert_eq!(decimal(0), "0");
    assert_eq!(decimal(10), "10");
    assert_eq!(decimal(u64::MAX), "18446744073709551615");
}

#[test]
fn texts_compare_as_str_does() {
    let texts = ["", "Z", "a", "ab", "b", "é", "日本"];
    for a in texts {
        for b in texts {
            assert_eq!(text_less(a, b), a < b);
        }
    }
    assert_eq!(strip_prefix("étage.x", "étage."), Some("x"));
    assert_eq!(strip_prefix("x", "xy"), None);
}

#[test]
fn formats_are_read_in_any_case() {
    assert!(matches!(Format::from_str("PARQUET"), Ok(Format::Parquet)));
    assert!(matches!(Format::from_str("Csv"), Ok(Format::Csv)));
    assert!(matches!(Format::from_str("json"), Ok(Format::Json)));
    assert!(matches!(Format::from_str("jsonL"), Ok(Format::Jsonl)));
    assert!(Format::from_str("xml").is_err());
}

#[test]
fn references_split_at_the_first_dot() {
    assert_eq!(split_ref("p.id"), Some(("p", "id")));
    assert_eq!(split_ref("p.a.b"), Some(("p", "a.b")));
    assert_eq!(split_ref("plain"), None);
}

#[test]
fn localised_generators_make_strings() {
    assert!(Generator::FirstName.supports_locale());
    assert!(Generator::FirstName.valid_for(&FieldType::String));
    assert!(!Generator::FirstName.valid_for(&FieldType::Number));
    assert!(!Generator::Uuid.supports_locale());
}

#[test]
fn paths_fall_into_parts() {
    assert_eq!((parent_dir("/a/b/c.yaml"), file_name("/a/b/c.yaml")), ("/a/b/", Some("c.yaml")));
    assert_eq!((parent_dir("c.yaml"), file_name("c.yaml")), ("", Some("c.yaml")));
    assert_eq!(file_stem("/a/b/c.tar.gz"), Some("c.tar"));
    assert_eq!(file_stem("/a/.hidden"), Some(".hidden"));
    assert_eq!(file_extension("/a/b/c.yaml"), Some("yaml"));
    assert_eq!(file_extension("/a/b.d/c"), None);
    assert!(is_absolute("/a"));
    assert!(!is_absolute("a/b"));
    assert_eq!(resolve_include("/a/b/c.yaml", "d.yaml"), "/a/b/d.yaml");
    assert_eq!(resolve_include("/a/b/c.yaml", "/x/d.yaml"), "/x/d.yaml");
    assert!(is_yaml("/a/b.yaml"));
    assert!(is_yaml("/a/b.yml"));
    assert!(!is_yaml("/a/b.json"));
}

#[test]
fn paths_agree_with_std() {
    let paths = [
        "", "/", ".", "..", "a", "a/", "a//", "a/.", "a/./", "a/..", "../a.csv", "./a.yaml", "/a.b/",
        "a.yaml/", "x.csv/.", "a/b//c.d", "a/./b", "..a", "a..", "a.", ".a", ".a.b", "/..", "//x",
        "a/b/..//", "a.b/c", "./.", "...", "x/.y/",
    ];
    for p in paths {
        let path = std::path::Path::new(p);
        assert_eq!(file_name(p), path.file_name().and_then(|s| s.to_str()), "{p}");
        assert_eq!(file_stem(p), path.file_stem().and_then(|s| s.to_str()), "{p}");
        assert_eq!(file_extension(p), path.extension().and_then(|s| s.to_str()), "{p}");
        let dir = path.parent().unwrap_or(std::path::Path::new("")).join("x.yaml");
        assert_eq!(std::path::Path::new(&resolve_include(p, "x.yaml")), dir, "{p}");
        assert_eq!(std::path::Path::new(&(place_for(p) + "x")), path.with_file_name("x"), "{p}");
    }
}

#[test]
fn final_separators_do_not_count() {
    assert!(is_yaml("a.yaml/"));
    assert!(!is_yaml(".."));
    assert_eq!(detect_format("x.csv/").unwrap(), Format::Csv);
    assert!(detect_format("x.CSV").is_err());
    assert_eq!(internal_path("a//b.yaml", "l"), "a/b___l.internal");
}

#[test]
fn an_order_puts_smaller_keys_first() {
    let keys = vec![vec![2, 0], vec![1, 5], vec![2], vec![], vec![1, 5, 0]];
    assert_eq!(sorted_order(&keys), vec![3, 1, 4, 2, 0]);
}

#[test]
fn days_are_counted_from_1970() {
    assert_eq!(constant_day("1970-01-01").unwrap(), 0);
    assert_eq!(constant_day("2024-02-29").unwrap(), 19782);
    assert_eq!(constant_day("1969-12-31").unwrap(), -1);
    assert!(constant_day("2023-02-29").is_err());
}

#[test]
fn instants_are_counted_from_1970() {
    let t = constant_instant("2024-01-01T00:00:00Z").unwrap();
    assert_eq!(t, Instant { secs: 1704067200, nanos: 0 });
    assert_eq!(t.micros(), 1_704_067_200_000_000);
    let shifted = constant_instant("2024-01-01T01:00:00.5+01:00").unwrap();
    assert_eq!(shifted, Instant { secs: 1704067200, nanos: 500_000_000 });
    assert!(constant_instant("yesterday").is_err());
}

#[test]
fn drawn_days_lie_within_their_bounds() {
    for _ in 0..200 {
        let d = fake_date(Some("2024-01-01"), Some("2024-01-31")).unwrap();
        assert!((19723..=19753).contains(&d));
        let e = draw_day(Some(5), Some(5));
        assert_eq!(e, 5);
    }
    assert!(fake_date(Some("2024-02-01"), Some("2024-01-01")).is_none());
    assert!(fake_date(Some("soon"), None).is_none());
    let day = fake_date(None, None).unwrap();
    assert!((-719_162..=376_199).contains(&day));
}

#[test]
fn drawn_instants_lie_within_their_bounds() {
    let a = constant_instant("2024-01-01T00:00:00Z").unwrap();
    let b = constant_instant("2024-01-02T00:00:00Z").unwrap();
    for _ in 0..200 {
        let t = fake_datetime(Some("2024-01-01T00:00:00Z"), Some("2024-01-02T00:00:00Z")).unwrap();
        assert!(a.micros() <= t.micros() && t.micros() <= b.micros());
        let u = fake_datetime(Some("2024-01-01T00:00:00Z"), None).unwrap();
        assert!(a.micros() <= u.micros());
        let v = fake_datetime(None, Some("2024-01-01T00:00:00Z")).unwrap();
        assert!(v.micros() <= a.micros());
    }
    assert!(fake_datetime(Some("never"), None).is_none());
}

#[test]
fn projections_name_a_column() {
    let content = |p: Option<&str>| ListContent {
        from: Some("l".into()),
        project: p.map(str::to_string),
        item: Field::default(),
    };
    assert!(content(Some("id")).is_bare_project());
    assert_eq!(content(Some("id")).project_col().as_deref(), Some("id"));
    assert!(!content(Some("l.id")).is_bare_project());
    assert_eq!(content(Some("l.id")).project_col().as_deref(), Some("id"));
    assert!(!content(None).is_bare_project());
    assert_eq!(content(None).project_col(), None);
}

#[test]
fn a_merged_field_takes_the_place_of_its_namesake() {
    let f = |name: &str, t: FieldType| Field {
        name: name.into(),
        field_type: Some(t),
        ..Default::default()
    };
    let mut schema = vec![f("a", FieldType::Number), f("b", FieldType::Number)];
    merge_delta_into(&mut schema, f("a", FieldType::String));
    merge_delta_into(&mut schema, f("c", FieldType::Date));
    let names: Vec<&str> = schema.iter().map(|f| f.name.as_str()).collect();
    assert_eq!(names, vec!["a", "b", "c"]);
    assert_eq!(schema[0].field_type, Some(FieldType::String));
}

#[test]
fn formats_read_back_their_names() {
    for f in [Format::Parquet, Format::Csv, Format::Json, Format::Jsonl] {
        assert_eq!(Format::from_str(f.as_str()).unwrap(), f);
        assert_eq!(Format::from_str(&f.as_str().to_uppercase()).unwrap(), f);
    }
    assert!(Format::from_str("xml").is_err());
}

#[test]
fn generators_have_names_of_their_own() {
    let some = [
        (Generator::FirstName, "first_name"),
        (Generator::IPv4, "ipv4"),
        (Generator::IPv6, "ipv6"),
        (Generator::Isin, "isin"),
        (Generator::Isbn, "isbn"),
        (Generator::DateTime, "date_time"),
    ];
    for (i, (g, name)) in some.iter().enumerate() {
        assert_eq!(g.as_str(), *name);
        assert!(some[i + 1..].iter().all(|(h, _)| h.as_str() != g.as_str()));
    }
}

#[test]
fn directories_end_in_one_separator() {
    assert_eq!(parent_dir("a//./b"), "a/");
    assert_eq!(parent_dir("//b"), "/");
}

#[test]
fn what_is_no_number_compares_with_nothing() {
    let (nan, one, two) = (num(f64::NAN), num(1.0), num(2.0));
    for x in [nan, one, num(f64::INFINITY), num(f64::NEG_INFINITY), num(-f64::NAN)] {
        assert!(!nan.lt(x) && !x.lt(nan) && !nan.le(x) && !x.le(nan));
    }
    assert!(one.lt(two) && one.le(two) && one.le(one) && !one.lt(one) && !two.le(one));
    assert!(num(f64::NEG_INFINITY).lt(num(f64::INFINITY)));
    assert!(nan.is_nan() && num(-f64::NAN).is_nan() && !num(f64::INFINITY).is_nan());
    assert_eq!((nan.max(one), one.max(nan), one.max(two)), (one, one, two));
    assert_eq!((nan.min(two), two.min(nan), one.min(two)), (two, two, one));
}

#[test]
fn columns_of_days_and_instants_lie_within_their_bounds() {
    let days = fake_dates(Some("2024-01-01"), Some("2024-01-31"), 300).unwrap();
    assert_eq!(days.len(), 300);
    assert!(days.iter().all(|d| (19723..=19753).contains(d)));
    assert!(days.iter().any(|d| *d != days[0]));
    assert!(fake_dates(Some("2024-02-01"), Some("2024-01-01"), 3).is_none());
    assert!(fake_dates(Some("soon"), None, 1).is_none());
    assert_eq!(fake_dates(Some("soon"), None, 0), Some(vec![]));
    let (from, to) = ("2024-01-01T00:00:00Z", "2024-01-02T00:00:00Z");
    let (a, b) = (constant_instant(from).unwrap(), constant_instant(to).unwrap());
    let times = fake_datetimes(Some(from), Some(to), 300).unwrap();
    assert_eq!(times.len(), 300);
    assert!(times.iter().all(|t| a.micros() <= t.micros() && t.micros() < b.micros()));
    assert!(fake_datetimes(Some(to), Some(from), 1).is_none());
    assert!(fake_datetimes(Some("never"), None, 2).is_none());
    assert_eq!(fake_datetimes(Some("never"), None, 0).unwrap().len(), 0);
}
