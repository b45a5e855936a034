//! The data model: dataset files as plain values, and the small questions asked of them.
//!
//! Every type that holds text or lists has a `model()`: the same content as mathematical
//! sequences. Contracts speak of models, so two values with the same content are the same.
use vstd::prelude::*;

use crate::text::{
    ascii_lowered, clone_opt_text, clone_texts, find_char, first_at, is_ascii, lemma_first_at,
    lowercase_text, opt_text, same_text, texts, to_lowercase,
};

verus! {

/// A number of a dataset file, ordered as the double it stands for.
///
/// `key` is the double's magnitude bits, negated for a negative double. Keys compare exactly as
/// the doubles do, and both zeros share the key `0`. A key beyond those of the infinities stands
/// for a double that is not a number: no comparison with it holds.
#[derive(Debug, Clone, Copy, PartialEq, Eq, Structural)]
pub struct Num {
    pub key: i64,
}

/// Key of the number one.
pub const ONE_KEY: i64 = 0x3FF0_0000_0000_0000;

/// Key of positive infinity.
pub const INF_KEY: i64 = 0x7FF0_0000_0000_0000;

impl Num {
    /// The number whose double has the given bit pattern.
    pub fn from_bits(bits: u64) -> (r: Self)
        ensures
            bits < 0x8000_0000_0000_0000 ==> r.key == bits,
            bits >= 0x8000_0000_0000_0000 ==> r.key == 0x8000_0000_0000_0000 - bits,
    {
        if bits < 0x8000_0000_0000_0000 {
            Num { key: bits as i64 }
        } else {
            let magnitude: u64 = bits - 0x8000_0000_0000_0000;
            Num { key: -(magnitude as i64) }
        }
    }

    /// The bit pattern of the double that this number stands for.
    pub fn to_bits(&self) -> (r: u64)
        requires
            self.key != i64::MIN,
        ensures
            self.key >= 0 ==> r == self.key,
            self.key < 0 ==> r == 0x8000_0000_0000_0000 - self.key,
    {
        if self.key >= 0 {
            self.key as u64
        } else {
            0x8000_0000_0000_0000 + ((-self.key) as u64)
        }
    }

    /// The number zero.
    pub open spec fn zero() -> Num {
        Num { key: 0 }
    }

    /// The number one.
    pub open spec fn one() -> Num {
        Num { key: ONE_KEY }
    }

    /// The double is not a number.
    pub open spec fn nan(self) -> bool {
        self.key > INF_KEY || self.key < -INF_KEY
    }

    /// `self < other` of the doubles.
    pub open spec fn below(self, other: Num) -> bool {
        !self.nan() && !other.nan() && self.key < other.key
    }

    /// `self <= other` of the doubles.
    pub open spec fn at_most(self, other: Num) -> bool {
        !self.nan() && !other.nan() && self.key <= other.key
    }

    /// The larger of two numbers; a double that is not a number gives way to one that is.
    pub open spec fn larger(self, other: Num) -> Num {
        if self.nan() != other.nan() {
            if self.nan() {
                other
            } else {
                self
            }
        } else if self.key < other.key {
            other
        } else {
            self
        }
    }

    /// The smaller of two numbers; a double that is not a number gives way to one that is.
    pub open spec fn smaller(self, other: Num) -> Num {
        if self.nan() != other.nan() {
            if self.nan() {
                other
            } else {
                self
            }
        } else if other.key < self.key {
            other
        } else {
            self
        }
    }

    /// True when the double is not a number.
    pub fn is_nan(&self) -> (r: bool)
        ensures
            r == self.nan(),
    {
        self.key > INF_KEY || self.key < -INF_KEY
    }

    /// True when this number is below `other`.
    pub fn lt(&self, other: Num) -> (r: bool)
        ensures
            r == self.below(other),
    {
        !self.is_nan() && !other.is_nan() && self.key < other.key
    }

    /// True when this number is at most `other`.
    pub fn le(&self, other: Num) -> (r: bool)
        ensures
            r == self.at_most(other),
    {
        !self.is_nan() && !other.is_nan() && self.key <= other.key
    }

    /// The larger of two numbers.
    pub fn max(&self, other: Num) -> (r: Num)
        ensures
            r == self.larger(other),
    {
        let missing = self.is_nan();
        if missing != other.is_nan() {
            if missing { other } else { *self }
        } else if self.key < other.key {
            other
        } else {
            *self
        }
    }

    /// The smaller of two numbers.
    pub fn min(&self, other: Num) -> (r: Num)
        ensures
            r == self.smaller(other),
    {
        let missing = self.is_nan();
        if missing != other.is_nan() {
            if missing { other } else { *self }
        } else if other.key < self.key {
            other
        } else {
            *self
        }
    }
}

/// The number read off a bit pattern gives the pattern back, for every pattern but that of
/// negative zero.
pub proof fn law_bits_round_trip(bits: u64, key: i64)
    requires
        bits != 0x8000_0000_0000_0000,
        key != i64::MIN,
        bits < 0x8000_0000_0000_0000 ==> key == bits,
        bits >= 0x8000_0000_0000_0000 ==> key == 0x8000_0000_0000_0000 - bits,
    ensures
        key >= 0 ==> bits == key,
        key < 0 ==> bits == 0x8000_0000_0000_0000 - key,
{
}

/// How many items to draw: a fixed number, a rounded normal draw, or a uniform range.
#[derive(Debug, Clone, Copy, PartialEq, Eq, Structural)]
pub enum CountSpec {
    Fixed(usize),
    Normal { mean: Num, std_dev: Num },
    Uniform { min: usize, max: usize },
}

/// File format of an output.
#[derive(Debug, Clone, Copy, PartialEq, Eq, Structural)]
pub enum Format {
    Parquet,
    Csv,
    Json,
    Jsonl,
}

impl Format {
    /// The name of this format in a dataset file.
    pub open spec fn label(self) -> Seq<char> {
        match self {
            Format::Parquet => "parquet"@,
            Format::Csv => "csv"@,
            Format::Json => "json"@,
            Format::Jsonl => "jsonl"@,
        }
    }

    /// The name of this format in a dataset file.
    pub fn as_str(&self) -> (r: &'static str)
        ensures
            r@ == self.label(),
    {
        match self {
            Format::Parquet => "parquet",
            Format::Csv => "csv",
            Format::Json => "json",
            Format::Jsonl => "jsonl",
        }
    }
}

/// The type of a field.
#[derive(Debug, Clone, Copy, PartialEq, Eq, Structural)]
pub enum FieldType {
    Number,
    Boolean,
    String,
    Object,
    List,
    Date,
    DateTime,
    /// A field whose value is drawn from one of several alternatives.
    Variant,
    /// A tagged union whose cases span more than one type; never written in a dataset file.
    Union,
}

impl FieldType {
    /// The name of this field type in a dataset file.
    pub open spec fn label(self) -> Seq<char> {
        match self {
            FieldType::Number => "number"@,
            FieldType::Boolean => "boolean"@,
            FieldType::String => "string"@,
            FieldType::Object => "object"@,
            FieldType::List => "list"@,
            FieldType::Date => "date"@,
            FieldType::DateTime => "date_time"@,
            FieldType::Variant => "variant"@,
            FieldType::Union => "union"@,
        }
    }

    /// The name of this field type in a dataset file.
    pub fn as_str(&self) -> (r: &'static str)
        ensures
            r@ == self.label(),
    {
        match self {
            FieldType::Number => "number",
            FieldType::Boolean => "boolean",
            FieldType::String => "string",
            FieldType::Object => "object",
            FieldType::List => "list",
            FieldType::Date => "date",
            FieldType::DateTime => "date_time",
            FieldType::Variant => "variant",
            FieldType::Union => "union",
        }
    }
}

/// Column datatype override.
#[derive(Debug, Clone, Copy, PartialEq, Eq, Structural)]
pub enum ParquetDatatype {
    Int8,
    Int16,
    Int32,
    Int64,
    UInt8,
    UInt16,
    UInt32,
    UInt64,
    Float32,
    Float64,
    Utf8,
    Boolean,
    Date32,
    TimestampMs,
    TimestampUs,
}

/// Column datatype override of one field.
#[derive(Debug, Clone, Copy, PartialEq, Eq, Structural)]
pub struct ParquetConfig {
    pub datatype: ParquetDatatype,
}

/// How the case fields of a flattened variant are laid out in a flat columnar output.
#[derive(Debug, Clone, Copy, PartialEq, Eq, Structural)]
pub enum FlattenStrategy {
    /// Case fields side by side; the populated set is the case tag.
    Superset,
    /// Each pulled-up field is named `<case>_<field>`.
    Prefixed,
    /// Side by side, plus a `<field>_case` column naming the active case.
    Discriminant,
}

impl Default for FlattenStrategy {
    fn default() -> (r: Self)
        ensures
            r == FlattenStrategy::Superset,
    {
        FlattenStrategy::Superset
    }
}

/// Whether a field's own default values replace or augment the built-in ones.
#[derive(Debug, Clone, Copy, PartialEq, Eq, Structural)]
pub enum DefaultsMode {
    Override,
    Extend,
}

/// Selects what drives the generation of a field's values.
#[derive(Debug, Clone, Copy, PartialEq, Eq, Structural)]
pub enum Generator {
    FirstName,
    LastName,
    Name,
    NameWithTitle,
    Word,
    Sentence,
    Paragraph,
    Words,
    Sentences,
    Paragraphs,
    CompanyName,
    CompanySuffix,
    Industry,
    Profession,
    Buzzword,
    Email,
    Username,
    Password,
    IPv4,
    IPv6,
    MacAddress,
    UserAgent,
    CityName,
    CountryName,
    CountryCode,
    StreetName,
    ZipCode,
    StateAbbr,
    TimeZone,
    PhoneNumber,
    CreditCardNumber,
    Bic,
    CurrencyCode,
    CurrencyName,
    CurrencySymbol,
    Latitude,
    Longitude,
    Geohash,
    PositiveDecimal,
    Decimal,
    NumberWithFormat,
    Uuid,
    Isin,
    LicencePlate,
    Isbn,
    Semver,
    Date,
    DateTime,
}

impl Generator {
    /// The name of this generator in a dataset file.
    pub open spec fn label(self) -> Seq<char> {
        match self {
            Generator::FirstName => "first_name"@,
            Generator::LastName => "last_name"@,
            Generator::Name => "name"@,
            Generator::NameWithTitle => "name_with_title"@,
            Generator::Word => "word"@,
            Generator::Sentence => "sentence"@,
            Generator::Paragraph => "paragraph"@,
            Generator::Words => "words"@,
            Generator::Sentences => "sentences"@,
            Generator::Paragraphs => "paragraphs"@,
            Generator::CompanyName => "company_name"@,
            Generator::CompanySuffix => "company_suffix"@,
            Generator::Industry => "industry"@,
            Generator::Profession => "profession"@,
            Generator::Buzzword => "buzzword"@,
            Generator::Email => "email"@,
            Generator::Username => "username"@,
            Generator::Password => "password"@,
            Generator::IPv4 => "ipv4"@,
            Generator::IPv6 => "ipv6"@,
            Generator::MacAddress => "mac_address"@,
            Generator::UserAgent => "user_agent"@,
            Generator::CityName => "city_name"@,
            Generator::CountryName => "country_name"@,
            Generator::CountryCode => "country_code"@,
            Generator::StreetName => "street_name"@,
            Generator::ZipCode => "zip_code"@,
            Generator::StateAbbr => "state_abbr"@,
            Generator::TimeZone => "time_zone"@,
            Generator::PhoneNumber => "phone_number"@,
            Generator::CreditCardNumber => "credit_card_number"@,
            Generator::Bic => "bic"@,
            Generator::CurrencyCode => "currency_code"@,
            Generator::CurrencyName => "currency_name"@,
            Generator::CurrencySymbol => "currency_symbol"@,
            Generator::Latitude => "latitude"@,
            Generator::Longitude => "longitude"@,
            Generator::Geohash => "geohash"@,
            Generator::PositiveDecimal => "positive_decimal"@,
            Generator::Decimal => "decimal"@,
            Generator::NumberWithFormat => "number_with_format"@,
            Generator::Uuid => "uuid"@,
            Generator::Isin => "isin"@,
            Generator::LicencePlate => "licence_plate"@,
            Generator::Isbn => "isbn"@,
            Generator::Semver => "semver"@,
            Generator::Date => "date"@,
            Generator::DateTime => "date_time"@,
        }
    }

    /// The name of this generator in a dataset file.
    pub fn as_str(&self) -> (r: &'static str)
        ensures
            r@ == self.label(),
    {
        match self {
            Generator::FirstName => "first_name",
            Generator::LastName => "last_name",
            Generator::Name => "name",
            Generator::NameWithTitle => "name_with_title",
            Generator::Word => "word",
            Generator::Sentence => "sentence",
            Generator::Paragraph => "paragraph",
            Generator::Words => "words",
            Generator::Sentences => "sentences",
            Generator::Paragraphs => "paragraphs",
            Generator::CompanyName => "company_name",
            Generator::CompanySuffix => "company_suffix",
            Generator::Industry => "industry",
            Generator::Profession => "profession",
            Generator::Buzzword => "buzzword",
            Generator::Email => "email",
            Generator::Username => "username",
            Generator::Password => "password",
            Generator::IPv4 => "ipv4",
            Generator::IPv6 => "ipv6",
            Generator::MacAddress => "mac_address",
            Generator::UserAgent => "user_agent",
            Generator::CityName => "city_name",
            Generator::CountryName => "country_name",
            Generator::CountryCode => "country_code",
            Generator::StreetName => "street_name",
            Generator::ZipCode => "zip_code",
            Generator::StateAbbr => "state_abbr",
            Generator::TimeZone => "time_zone",
            Generator::PhoneNumber => "phone_number",
            Generator::CreditCardNumber => "credit_card_number",
            Generator::Bic => "bic",
            Generator::CurrencyCode => "currency_code",
            Generator::CurrencyName => "currency_name",
            Generator::CurrencySymbol => "currency_symbol",
            Generator::Latitude => "latitude",
            Generator::Longitude => "longitude",
            Generator::Geohash => "geohash",
            Generator::PositiveDecimal => "positive_decimal",
            Generator::Decimal => "decimal",
            Generator::NumberWithFormat => "number_with_format",
            Generator::Uuid => "uuid",
            Generator::Isin => "isin",
            Generator::LicencePlate => "licence_plate",
            Generator::Isbn => "isbn",
            Generator::Semver => "semver",
            Generator::Date => "date",
            Generator::DateTime => "date_time",
        }
    }
}

/// Language and region of generated text.
#[derive(Debug, Clone, Copy, PartialEq, Eq, Structural)]
pub enum Locale {
    En,
    FrFr,
    DeDe,
    ItIt,
    NlNl,
    PtBr,
    PtPt,
    CyGb,
    ZhCn,
    ZhTw,
    JaJp,
    ArSa,
    TrTr,
    FaIr,
}

impl Locale {
    /// The name of this locale in a dataset file.
    pub open spec fn label(self) -> Seq<char> {
        match self {
            Locale::En => "en"@,
            Locale::FrFr => "fr_fr"@,
            Locale::DeDe => "de_de"@,
            Locale::ItIt => "it_it"@,
            Locale::NlNl => "nl_nl"@,
            Locale::PtBr => "pt_br"@,
            Locale::PtPt => "pt_pt"@,
            Locale::CyGb => "cy_gb"@,
            Locale::ZhCn => "zh_cn"@,
            Locale::ZhTw => "zh_tw"@,
            Locale::JaJp => "ja_jp"@,
            Locale::ArSa => "ar_sa"@,
            Locale::TrTr => "tr_tr"@,
            Locale::FaIr => "fa_ir"@,
        }
    }

    /// The name of this locale in a dataset file.
    pub fn as_str(&self) -> (r: &'static str)
        ensures
            r@ == self.label(),
    {
        match self {
            Locale::En => "en",
            Locale::FrFr => "fr_fr",
            Locale::DeDe => "de_de",
            Locale::ItIt => "it_it",
            Locale::NlNl => "nl_nl",
            Locale::PtBr => "pt_br",
            Locale::PtPt => "pt_pt",
            Locale::CyGb => "cy_gb",
            Locale::ZhCn => "zh_cn",
            Locale::ZhTw => "zh_tw",
            Locale::JaJp => "ja_jp",
            Locale::ArSa => "ar_sa",
            Locale::TrTr => "tr_tr",
            Locale::FaIr => "fa_ir",
        }
    }
}

/// How values are combined when several rows meet one row.
#[derive(Debug, Clone, Copy, PartialEq, Eq, Structural)]
pub enum Reducer {
    TakeOne,
    Sum,
    Max,
    Min,
    Collect,
}

/// Inclusive numeric bounds.
#[derive(Debug, Clone, Copy, PartialEq, Eq, Structural)]
pub struct Range {
    pub min: Option<Num>,
    pub max: Option<Num>,
}

impl Default for Range {
    fn default() -> (r: Self)
        ensures
            r == (Range { min: None, max: None }),
    {
        Range { min: None, max: None }
    }
}

/// Bounds of a slice of the import hash ring: rows whose hash lies in `[start, end)`.
#[derive(Debug, Clone, Copy, PartialEq, Eq, Structural)]
pub struct RingBounds {
    pub start: Num,
    pub end: Num,
}

/// Seeds of one run.
#[derive(Debug, Clone, Copy, PartialEq, Eq, Structural)]
pub struct SeedConfig {
    /// Seed of the import hash ring.
    pub ring: u64,
}

/// Corruption probabilities, each an independent per-cell rate.
#[derive(Debug, Clone, Copy, PartialEq, Eq, Structural)]
pub struct Corruptions {
    pub character_deletion: Option<Num>,
    pub character_insertion: Option<Num>,
    pub truncation: Option<Num>,
    pub encoding: Option<Num>,
    pub noise: Option<Num>,
    pub noise_scale: Num,
    pub day_shift: Option<Num>,
    pub day_shift_max: i64,
}

/// A value written in a dataset file.
///
/// Whole numbers and decimal numbers are different values, as `1` and `1.0` are. Lists and
/// mappings are held by a canonical text, equal exactly for equal values.
#[derive(Debug)]
pub enum YamlValue {
    Null,
    Bool(bool),
    /// A whole number, with the number nearest to it.
    Int { value: i128, num: Num },
    Float(Num),
    Text(String),
    Sequence { len: usize, text: String },
    Mapping { text: String },
}

/// What a [`YamlValue`] says, free of representation.
pub enum YamlModel {
    Null,
    Bool(bool),
    Int { value: i128, num: Num },
    Float(Num),
    Text(Seq<char>),
    Sequence { len: usize, text: Seq<char> },
    Mapping { text: Seq<char> },
}

pub type YamlValueModel = YamlModel;

impl YamlValue {
    /// The content of this value, free of representation.
    pub open spec fn model(self) -> YamlModel {
        match self {
            YamlValue::Null => YamlModel::Null,
            YamlValue::Bool(b) => YamlModel::Bool(b),
            YamlValue::Int { value, num } => YamlModel::Int { value, num },
            YamlValue::Float(n) => YamlModel::Float(n),
            YamlValue::Text(s) => YamlModel::Text(s@),
            YamlValue::Sequence { len, text } => YamlModel::Sequence { len, text: text@ },
            YamlValue::Mapping { text } => YamlModel::Mapping { text: text@ },
        }
    }

    /// True when the two values are equal.
    pub fn same(&self, other: &YamlValue) -> (r: bool)
        ensures
            r == (self.model() == other.model()),
    {
        match (self, other) {
            (YamlValue::Null, YamlValue::Null) => true,
            (YamlValue::Bool(a), YamlValue::Bool(b)) => *a == *b,
            (YamlValue::Int { value: a, num: m }, YamlValue::Int { value: b, num: n }) => *a == *b
                && m.key == n.key,
            (YamlValue::Float(a), YamlValue::Float(b)) => a.key == b.key,
            (YamlValue::Text(a), YamlValue::Text(b)) => same_text(a, b),
            (
                YamlValue::Sequence { len: m, text: a },
                YamlValue::Sequence { len: n, text: b },
            ) => *m == *n && same_text(a, b),
            (YamlValue::Mapping { text: a }, YamlValue::Mapping { text: b }) => same_text(a, b),
            _ => false,
        }
    }

    /// The numeric reading of this value, if it is a number.
    pub fn as_num(&self) -> (r: Option<Num>)
        ensures
            r == self.model().num(),
    {
        match self {
            YamlValue::Int { value: _, num } => Some(*num),
            YamlValue::Float(n) => Some(*n),
            _ => None,
        }
    }

    /// The text of this value, if it is text.
    pub fn as_str(&self) -> (r: Option<&str>)
        ensures
            self.model() matches YamlModel::Text(s) ==> r is Some && r->0@ == s,
            !(self.model() is Text) ==> r is None,
    {
        match self {
            YamlValue::Text(s) => Some(s.as_str()),
            _ => None,
        }
    }

    /// The truth value of this value, if it is one.
    pub fn as_bool(&self) -> (r: Option<bool>)
        ensures
            r == (match self.model() {
                YamlModel::Bool(b) => Some(b),
                _ => None,
            }),
    {
        match self {
            YamlValue::Bool(b) => Some(*b),
            _ => None,
        }
    }

    /// This value as a count, if it is a whole number that is not negative.
    pub fn as_u64(&self) -> (r: Option<u64>)
        ensures
            r == self.model().count(),
    {
        match self {
            YamlValue::Int { value, num: _ } => {
                if 0 <= *value && *value <= 0xFFFF_FFFF_FFFF_FFFF {
                    Some(*value as u64)
                } else {
                    None
                }
            },
            _ => None,
        }
    }
}

impl YamlModel {
    /// The numeric reading of a value: a number reads as itself, anything else as nothing.
    pub open spec fn num(self) -> Option<Num> {
        match self {
            YamlModel::Int { num, .. } => Some(num),
            YamlModel::Float(n) => Some(n),
            _ => None,
        }
    }

    /// The value as a count: a whole number that fits.
    pub open spec fn count(self) -> Option<u64> {
        match self {
            YamlModel::Int { value, .. } => if 0 <= value <= u64::MAX {
                Some(value as u64)
            } else {
                None
            },
            _ => None,
        }
    }
}

impl Clone for YamlValue {
    fn clone(&self) -> (r: Self)
        ensures
            r.model() == self.model(),
    {
        match self {
            YamlValue::Null => YamlValue::Null,
            YamlValue::Bool(b) => YamlValue::Bool(*b),
            YamlValue::Int { value, num } => YamlValue::Int { value: *value, num: *num },
            YamlValue::Float(n) => YamlValue::Float(*n),
            YamlValue::Text(s) => YamlValue::Text(s.clone()),
            YamlValue::Sequence { len, text } => YamlValue::Sequence {
                len: *len,
                text: text.clone(),
            },
            YamlValue::Mapping { text } => YamlValue::Mapping { text: text.clone() },
        }
    }
}

/// The models of a sequence of [`YamlValue`]s, in order.
pub open spec fn yaml_values_model(s: Seq<YamlValue>) -> Seq<YamlValueModel>
{
    Seq::new(s.len(), |i: int| s[i].model())
}

/// A copy of `v`, item by item.
pub fn clone_yaml_values(v: &Vec<YamlValue>) -> (r: Vec<YamlValue>)
    ensures
        yaml_values_model(r@) == yaml_values_model(v@),
        r.len() == v.len(),
        forall|i: int| 0 <= i < v.len() ==> (#[trigger] r[i]).model() == v[i].model(),
{
    let mut r: Vec<YamlValue> = Vec::new();
    let mut i: usize = 0;
    while i < v.len()
        invariant
            i <= v.len(),
            r.len() == i,
            forall|j: int| 0 <= j < i ==> (#[trigger] r[j]).model() == v[j].model(),
        decreases v.len() - i,
    {
        let item = v[i].clone();
        r.push(item);
        i += 1;
    }
    assert(yaml_values_model(r@) =~= yaml_values_model(v@));
    r
}

/// The model of an optional [`YamlValue`].
pub open spec fn opt_yaml_value_model(o: Option<YamlValue>) -> Option<YamlValueModel> {
    match o {
        Some(v) => Some(v.model()),
        None => None,
    }
}

/// A copy of an optional [`YamlValue`].
pub fn clone_opt_yaml_value(o: &Option<YamlValue>) -> (r: Option<YamlValue>)
    ensures
        opt_yaml_value_model(r) == opt_yaml_value_model(*o),
{
    match o {
        Some(v) => Some(v.clone()),
        None => None,
    }
}

/// The models of an optional list of [`YamlValue`]s.
pub open spec fn opt_yaml_values_model(o: Option<Vec<YamlValue>>) -> Option<Seq<YamlValueModel>> {
    match o {
        Some(v) => Some(yaml_values_model(v@)),
        None => None,
    }
}

/// A copy of an optional list of [`YamlValue`]s.
pub fn clone_opt_yaml_values(o: &Option<Vec<YamlValue>>) -> (r: Option<Vec<YamlValue>>)
    ensures
        opt_yaml_values_model(r) == opt_yaml_values_model(*o),
{
    match o {
        Some(v) => Some(clone_yaml_values(v)),
        None => None,
    }
}

/// One named argument of a generator.
#[derive(Debug)]
pub struct ArgEntry {
    pub key: String,
    pub value: YamlValue,
}

/// What a [`ArgEntry`] says, free of representation.
pub struct ArgEntryModel {
    pub key: Seq<char>,
    pub value: YamlValueModel,
}

impl ArgEntry {
    /// The content of this value, free of representation.
    pub open spec fn model(self) -> ArgEntryModel
    {
        ArgEntryModel {
            key: self.key@,
            value: self.value.model(),
        }
    }
}

impl Clone for ArgEntry {
    fn clone(&self) -> (r: Self)
        ensures
            r.model() == self.model(),
    {
        ArgEntry {
            key: self.key.clone(),
            value: self.value.clone(),
        }
    }
}

/// The models of a sequence of [`ArgEntry`]s, in order.
pub open spec fn arg_entries_model(s: Seq<ArgEntry>) -> Seq<ArgEntryModel>
{
    Seq::new(s.len(), |i: int| s[i].model())
}

/// A copy of `v`, item by item.
pub fn clone_arg_entries(v: &Vec<ArgEntry>) -> (r: Vec<ArgEntry>)
    ensures
        arg_entries_model(r@) == arg_entries_model(v@),
        r.len() == v.len(),
        forall|i: int| 0 <= i < v.len() ==> (#[trigger] r[i]).model() == v[i].model(),
{
    let mut r: Vec<ArgEntry> = Vec::new();
    let mut i: usize = 0;
    while i < v.len()
        invariant
            i <= v.len(),
            r.len() == i,
            forall|j: int| 0 <= j < i ==> (#[trigger] r[j]).model() == v[j].model(),
        decreases v.len() - i,
    {
        let item = v[i].clone();
        r.push(item);
        i += 1;
    }
    assert(arg_entries_model(r@) =~= arg_entries_model(v@));
    r
}

/// The models of an optional list of [`ArgEntry`]s.
pub open spec fn opt_arg_entries_model(o: Option<Vec<ArgEntry>>) -> Option<Seq<ArgEntryModel>> {
    match o {
        Some(v) => Some(arg_entries_model(v@)),
        None => None,
    }
}

/// A copy of an optional list of [`ArgEntry`]s.
pub fn clone_opt_arg_entries(o: &Option<Vec<ArgEntry>>) -> (r: Option<Vec<ArgEntry>>)
    ensures
        opt_arg_entries_model(r) == opt_arg_entries_model(*o),
{
    match o {
        Some(v) => Some(clone_arg_entries(v)),
        None => None,
    }
}

/// A specialisation of one named case of a referenced variant.
#[derive(Debug)]
pub struct CaseDelta {
    /// The case that is tightened.
    pub name: String,
    pub generator: Option<Generator>,
    pub value: Option<YamlValue>,
    pub range: Option<Range>,
}

/// What a [`CaseDelta`] says, free of representation.
pub struct CaseDeltaModel {
    pub name: Seq<char>,
    pub generator: Option<Generator>,
    pub value: Option<YamlValueModel>,
    pub range: Option<Range>,
}

impl CaseDelta {
    /// The content of this value, free of representation.
    pub open spec fn model(self) -> CaseDeltaModel
    {
        CaseDeltaModel {
            name: self.name@,
            generator: self.generator,
            value: opt_yaml_value_model(self.value),
            range: self.range,
        }
    }
}

impl Clone for CaseDelta {
    fn clone(&self) -> (r: Self)
        ensures
            r.model() == self.model(),
    {
        CaseDelta {
            name: self.name.clone(),
            generator: self.generator,
            value: clone_opt_yaml_value(&self.value),
            range: self.range,
        }
    }
}

/// The models of a sequence of [`CaseDelta`]s, in order.
pub open spec fn case_deltas_model(s: Seq<CaseDelta>) -> Seq<CaseDeltaModel>
{
    Seq::new(s.len(), |i: int| s[i].model())
}

/// A copy of `v`, item by item.
pub fn clone_case_deltas(v: &Vec<CaseDelta>) -> (r: Vec<CaseDelta>)
    ensures
        case_deltas_model(r@) == case_deltas_model(v@),
        r.len() == v.len(),
        forall|i: int| 0 <= i < v.len() ==> (#[trigger] r[i]).model() == v[i].model(),
{
    let mut r: Vec<CaseDelta> = Vec::new();
    let mut i: usize = 0;
    while i < v.len()
        invariant
            i <= v.len(),
            r.len() == i,
            forall|j: int| 0 <= j < i ==> (#[trigger] r[j]).model() == v[j].model(),
        decreases v.len() - i,
    {
        let item = v[i].clone();
        r.push(item);
        i += 1;
    }
    assert(case_deltas_model(r@) =~= case_deltas_model(v@));
    r
}

/// Degradation applied to an output after the clean batch is complete.
#[derive(Debug)]
pub struct DataQuality {
    pub duplication: Option<Num>,
    pub missing: Option<Num>,
    pub nulls: Option<Num>,
    pub default_rate: Option<Num>,
    pub corruptions: Option<Corruptions>,
    pub default_values: Option<Vec<YamlValue>>,
    pub defaults_mode: Option<DefaultsMode>,
}

/// What a [`DataQuality`] says, free of representation.
pub struct DataQualityModel {
    pub duplication: Option<Num>,
    pub missing: Option<Num>,
    pub nulls: Option<Num>,
    pub default_rate: Option<Num>,
    pub corruptions: Option<Corruptions>,
    pub default_values: Option<Seq<YamlValueModel>>,
    pub defaults_mode: Option<DefaultsMode>,
}

impl DataQuality {
    /// The content of this value, free of representation.
    pub open spec fn model(self) -> DataQualityModel
    {
        DataQualityModel {
            duplication: self.duplication,
            missing: self.missing,
            nulls: self.nulls,
            default_rate: self.default_rate,
            corruptions: self.corruptions,
            default_values: opt_yaml_values_model(self.default_values),
            defaults_mode: self.defaults_mode,
        }
    }
}

impl Clone for DataQuality {
    fn clone(&self) -> (r: Self)
        ensures
            r.model() == self.model(),
    {
        DataQuality {
            duplication: self.duplication,
            missing: self.missing,
            nulls: self.nulls,
            default_rate: self.default_rate,
            corruptions: self.corruptions,
            default_values: clone_opt_yaml_values(&self.default_values),
            defaults_mode: self.defaults_mode,
        }
    }
}

/// The model of an optional [`DataQuality`].
pub open spec fn opt_data_quality_model(o: Option<DataQuality>) -> Option<DataQualityModel> {
    match o {
        Some(v) => Some(v.model()),
        None => None,
    }
}

/// A copy of an optional [`DataQuality`].
pub fn clone_opt_data_quality(o: &Option<DataQuality>) -> (r: Option<DataQuality>)
    ensures
        opt_data_quality_model(r) == opt_data_quality_model(*o),
{
    match o {
        Some(v) => Some(v.clone()),
        None => None,
    }
}

/// One output file of a dataset.
#[derive(Debug)]
pub struct Output {
    pub file: String,
    pub quality: Option<DataQuality>,
}

/// What a [`Output`] says, free of representation.
pub struct OutputModel {
    pub file: Seq<char>,
    pub quality: Option<DataQualityModel>,
}

impl Output {
    /// The content of this value, free of representation.
    pub open spec fn model(self) -> OutputModel
    {
        OutputModel {
            file: self.file@,
            quality: opt_data_quality_model(self.quality),
        }
    }
}

impl Clone for Output {
    fn clone(&self) -> (r: Self)
        ensures
            r.model() == self.model(),
    {
        Output {
            file: self.file.clone(),
            quality: clone_opt_data_quality(&self.quality),
        }
    }
}

/// The models of a sequence of [`Output`]s, in order.
pub open spec fn outputs_model(s: Seq<Output>) -> Seq<OutputModel>
{
    Seq::new(s.len(), |i: int| s[i].model())
}

/// How an output is written in a dataset file: a plain path or a full block.
#[derive(Debug)]
pub enum OutputSpec {
    Shorthand(String),
    Block(Output),
}

/// What a [`OutputSpec`] says, free of representation.
pub enum OutputSpecModel {
    Shorthand(Seq<char>),
    Block(OutputModel),
}

impl OutputSpec {
    /// The content of this value, free of representation.
    pub open spec fn model(self) -> OutputSpecModel {
        match self {
            OutputSpec::Shorthand(x) => OutputSpecModel::Shorthand(x@),
            OutputSpec::Block(x) => OutputSpecModel::Block(x.model()),
        }
    }
}

impl Clone for OutputSpec {
    fn clone(&self) -> (r: Self)
        ensures
            r.model() == self.model(),
    {
        match self {
            OutputSpec::Shorthand(x) => OutputSpec::Shorthand(x.clone()),
            OutputSpec::Block(x) => OutputSpec::Block(x.clone()),
        }
    }
}

/// The models of a sequence of [`OutputSpec`]s, in order.
pub open spec fn output_specs_model(s: Seq<OutputSpec>) -> Seq<OutputSpecModel>
{
    Seq::new(s.len(), |i: int| s[i].model())
}

/// A copy of `v`, item by item.
pub fn clone_output_specs(v: &Vec<OutputSpec>) -> (r: Vec<OutputSpec>)
    ensures
        output_specs_model(r@) == output_specs_model(v@),
        r.len() == v.len(),
        forall|i: int| 0 <= i < v.len() ==> (#[trigger] r[i]).model() == v[i].model(),
{
    let mut r: Vec<OutputSpec> = Vec::new();
    let mut i: usize = 0;
    while i < v.len()
        invariant
            i <= v.len(),
            r.len() == i,
            forall|j: int| 0 <= j < i ==> (#[trigger] r[j]).model() == v[j].model(),
        decreases v.len() - i,
    {
        let item = v[i].clone();
        r.push(item);
        i += 1;
    }
    assert(output_specs_model(r@) =~= output_specs_model(v@));
    r
}

/// The model of an optional [`OutputSpec`].
pub open spec fn opt_output_spec_model(o: Option<OutputSpec>) -> Option<OutputSpecModel> {
    match o {
        Some(v) => Some(v.model()),
        None => None,
    }
}

/// A copy of an optional [`OutputSpec`].
pub fn clone_opt_output_spec(o: &Option<OutputSpec>) -> (r: Option<OutputSpec>)
    ensures
        opt_output_spec_model(r) == opt_output_spec_model(*o),
{
    match o {
        Some(v) => Some(v.clone()),
        None => None,
    }
}

/// Within-list normalisation: rescale a quantity so that each list sums to `total`.
#[derive(Debug)]
pub struct Normalize {
    pub total: Num,
    /// Numeric sub-field to rescale; absent for a bare list of numbers.
    pub field: Option<String>,
    /// Sub-field that receives the result; absent to overwrite `field`.
    pub into: Option<String>,
    /// `0` forces integers, a positive value forces floats.
    pub precision: Option<i32>,
}

/// What a [`Normalize`] says, free of representation.
pub struct NormalizeModel {
    pub total: Num,
    pub field: Option<Seq<char>>,
    pub into: Option<Seq<char>>,
    pub precision: Option<i32>,
}

impl Normalize {
    /// The content of this value, free of representation.
    pub open spec fn model(self) -> NormalizeModel
    {
        NormalizeModel {
            total: self.total,
            field: opt_text(self.field),
            into: opt_text(self.into),
            precision: self.precision,
        }
    }
}

impl Clone for Normalize {
    fn clone(&self) -> (r: Self)
        ensures
            r.model() == self.model(),
    {
        Normalize {
            total: self.total,
            field: clone_opt_text(&self.field),
            into: clone_opt_text(&self.into),
            precision: self.precision,
        }
    }
}

/// The model of an empty [`Normalize`].
pub open spec fn default_normalize_model() -> NormalizeModel {
    NormalizeModel {
        total: Num { key: 0 },
        field: None,
        into: None,
        precision: None,
    }
}

impl Default for Normalize {
    fn default() -> (r: Self)
        ensures
            r.model() == default_normalize_model(),
    {
        let r = Normalize {
            total: Num { key: 0 },
            field: None,
            into: None,
            precision: None,
        };
        r
    }
}

/// The model of an optional [`Normalize`].
pub open spec fn opt_normalize_model(o: Option<Normalize>) -> Option<NormalizeModel> {
    match o {
        Some(v) => Some(v.model()),
        None => None,
    }
}

/// A copy of an optional [`Normalize`].
pub fn clone_opt_normalize(o: &Option<Normalize>) -> (r: Option<Normalize>)
    ensures
        opt_normalize_model(r) == opt_normalize_model(*o),
{
    match o {
        Some(v) => Some(v.clone()),
        None => None,
    }
}

/// A rich reference: a type-sourcing target, a collect binding, or both.
#[derive(Debug)]
pub struct RefBinding {
    pub target: Option<String>,
    pub bind: Option<String>,
    pub reducer: Option<Reducer>,
}

/// What a [`RefBinding`] says, free of representation.
pub struct RefBindingModel {
    pub target: Option<Seq<char>>,
    pub bind: Option<Seq<char>>,
    pub reducer: Option<Reducer>,
}

impl RefBinding {
    /// The content of this value, free of representation.
    pub open spec fn model(self) -> RefBindingModel
    {
        RefBindingModel {
            target: opt_text(self.target),
            bind: opt_text(self.bind),
            reducer: self.reducer,
        }
    }
}

impl Clone for RefBinding {
    fn clone(&self) -> (r: Self)
        ensures
            r.model() == self.model(),
    {
        RefBinding {
            target: clone_opt_text(&self.target),
            bind: clone_opt_text(&self.bind),
            reducer: self.reducer,
        }
    }
}

/// One entry of a multi-reference list.
#[derive(Debug)]
pub enum RefEntry {
    Simple(String),
    Rich(RefBinding),
}

/// What a [`RefEntry`] says, free of representation.
pub enum RefEntryModel {
    Simple(Seq<char>),
    Rich(RefBindingModel),
}

impl RefEntry {
    /// The content of this value, free of representation.
    pub open spec fn model(self) -> RefEntryModel {
        match self {
            RefEntry::Simple(x) => RefEntryModel::Simple(x@),
            RefEntry::Rich(x) => RefEntryModel::Rich(x.model()),
        }
    }
}

impl Clone for RefEntry {
    fn clone(&self) -> (r: Self)
        ensures
            r.model() == self.model(),
    {
        match self {
            RefEntry::Simple(x) => RefEntry::Simple(x.clone()),
            RefEntry::Rich(x) => RefEntry::Rich(x.clone()),
        }
    }
}

/// The models of a sequence of [`RefEntry`]s, in order.
pub open spec fn ref_entries_model(s: Seq<RefEntry>) -> Seq<RefEntryModel>
{
    Seq::new(s.len(), |i: int| s[i].model())
}

/// A copy of `v`, item by item.
pub fn clone_ref_entries(v: &Vec<RefEntry>) -> (r: Vec<RefEntry>)
    ensures
        ref_entries_model(r@) == ref_entries_model(v@),
        r.len() == v.len(),
        forall|i: int| 0 <= i < v.len() ==> (#[trigger] r[i]).model() == v[i].model(),
{
    let mut r: Vec<RefEntry> = Vec::new();
    let mut i: usize = 0;
    while i < v.len()
        invariant
            i <= v.len(),
            r.len() == i,
            forall|j: int| 0 <= j < i ==> (#[trigger] r[j]).model() == v[j].model(),
        decreases v.len() - i,
    {
        let item = v[i].clone();
        r.push(item);
        i += 1;
    }
    assert(ref_entries_model(r@) =~= ref_entries_model(v@));
    r
}

/// The references of a field.
#[derive(Debug)]
pub enum RefsSpec {
    Single(String),
    Multi(Vec<RefEntry>),
}

/// What a [`RefsSpec`] says, free of representation.
pub enum RefsSpecModel {
    Single(Seq<char>),
    Multi(Seq<RefEntryModel>),
}

impl RefsSpec {
    /// The content of this value, free of representation.
    pub open spec fn model(self) -> RefsSpecModel {
        match self {
            RefsSpec::Single(x) => RefsSpecModel::Single(x@),
            RefsSpec::Multi(x) => RefsSpecModel::Multi(ref_entries_model(x@)),
        }
    }
}

impl Clone for RefsSpec {
    fn clone(&self) -> (r: Self)
        ensures
            r.model() == self.model(),
    {
        match self {
            RefsSpec::Single(x) => RefsSpec::Single(x.clone()),
            RefsSpec::Multi(x) => RefsSpec::Multi(clone_ref_entries(x)),
        }
    }
}

/// The model of an optional [`RefsSpec`].
pub open spec fn opt_refs_spec_model(o: Option<RefsSpec>) -> Option<RefsSpecModel> {
    match o {
        Some(v) => Some(v.model()),
        None => None,
    }
}

/// A copy of an optional [`RefsSpec`].
pub fn clone_opt_refs_spec(o: &Option<RefsSpec>) -> (r: Option<RefsSpec>)
    ensures
        opt_refs_spec_model(r) == opt_refs_spec_model(*o),
{
    match o {
        Some(v) => Some(v.clone()),
        None => None,
    }
}

/// One alternative of a variant field.
#[derive(Debug)]
pub struct FieldVariant {
    /// Case label.
    pub name: Option<String>,
    pub field_type: Option<FieldType>,
    pub generator: Option<Generator>,
    pub locale: Option<Locale>,
    pub range: Option<Range>,
    pub value: Option<YamlValue>,
    /// Nested fields of an object case.
    pub fields: Vec<Field>,
    pub parquet: Option<ParquetConfig>,
    /// Share of this alternative; free slots share the remainder.
    pub ratio: Option<Num>,
}

/// What a [`FieldVariant`] says, free of representation.
pub struct FieldVariantModel {
    pub name: Option<Seq<char>>,
    pub field_type: Option<FieldType>,
    pub generator: Option<Generator>,
    pub locale: Option<Locale>,
    pub range: Option<Range>,
    pub value: Option<YamlValueModel>,
    pub fields: Seq<FieldModel>,
    pub parquet: Option<ParquetConfig>,
    pub ratio: Option<Num>,
}

impl FieldVariant {
    /// The content of this value, free of representation.
    pub open spec fn model(self) -> FieldVariantModel
        decreases self,
    {
        FieldVariantModel {
            name: opt_text(self.name),
            field_type: self.field_type,
            generator: self.generator,
            locale: self.locale,
            range: self.range,
            value: opt_yaml_value_model(self.value),
            fields: fields_model(self.fields@),
            parquet: self.parquet,
            ratio: self.ratio,
        }
    }
}

impl Clone for FieldVariant {
    fn clone(&self) -> (r: Self)
        ensures
            r.model() == self.model(),
        decreases self,
    {
        FieldVariant {
            name: clone_opt_text(&self.name),
            field_type: self.field_type,
            generator: self.generator,
            locale: self.locale,
            range: self.range,
            value: clone_opt_yaml_value(&self.value),
            fields: clone_fields(&self.fields),
            parquet: self.parquet,
            ratio: self.ratio,
        }
    }
}

/// The model of an empty [`FieldVariant`].
pub open spec fn default_field_variant_model() -> FieldVariantModel {
    FieldVariantModel {
        name: None,
        field_type: None,
        generator: None,
        locale: None,
        range: None,
        value: None,
        fields: Seq::empty(),
        parquet: None,
        ratio: None,
    }
}

impl Default for FieldVariant {
    fn default() -> (r: Self)
        ensures
            r.model() == default_field_variant_model(),
    {
        let r = FieldVariant {
            name: None,
            field_type: None,
            generator: None,
            locale: None,
            range: None,
            value: None,
            fields: Vec::new(),
            parquet: None,
            ratio: None,
        };
        assert(fields_model(r.fields@) =~= Seq::empty());
        r
    }
}

/// The models of a sequence of [`FieldVariant`]s, in order.
pub open spec fn field_variants_model(s: Seq<FieldVariant>) -> Seq<FieldVariantModel>
    decreases s,
{
    Seq::new(s.len(), |i: int| if 0 <= i < s.len() { s[i].model() } else { arbitrary() })
}

/// A copy of `v`, item by item.
pub fn clone_field_variants(v: &Vec<FieldVariant>) -> (r: Vec<FieldVariant>)
    ensures
        field_variants_model(r@) == field_variants_model(v@),
        r.len() == v.len(),
        forall|i: int| 0 <= i < v.len() ==> (#[trigger] r[i]).model() == v[i].model(),
    decreases v,
{
    let mut r: Vec<FieldVariant> = Vec::new();
    let mut i: usize = 0;
    while i < v.len()
        invariant
            i <= v.len(),
            r.len() == i,
            forall|j: int| 0 <= j < i ==> (#[trigger] r[j]).model() == v[j].model(),
        decreases v.len() - i,
    {
        let item = v[i].clone();
        r.push(item);
        i += 1;
    }
    assert(field_variants_model(r@) =~= field_variants_model(v@));
    r
}

/// One case of a tagged union.
#[derive(Debug)]
pub struct UnionCase {
    pub field: Field,
    pub ratio: Option<Num>,
}

/// What a [`UnionCase`] says, free of representation.
pub struct UnionCaseModel {
    pub field: FieldModel,
    pub ratio: Option<Num>,
}

impl UnionCase {
    /// The content of this value, free of representation.
    pub open spec fn model(self) -> UnionCaseModel
        decreases self,
    {
        UnionCaseModel {
            field: self.field.model(),
            ratio: self.ratio,
        }
    }
}

impl Clone for UnionCase {
    fn clone(&self) -> (r: Self)
        ensures
            r.model() == self.model(),
        decreases self,
    {
        UnionCase {
            field: self.field.clone(),
            ratio: self.ratio,
        }
    }
}

/// The models of a sequence of [`UnionCase`]s, in order.
pub open spec fn union_cases_model(s: Seq<UnionCase>) -> Seq<UnionCaseModel>
    decreases s,
{
    Seq::new(s.len(), |i: int| if 0 <= i < s.len() { s[i].model() } else { arbitrary() })
}

/// A copy of `v`, item by item.
pub fn clone_union_cases(v: &Vec<UnionCase>) -> (r: Vec<UnionCase>)
    ensures
        union_cases_model(r@) == union_cases_model(v@),
        r.len() == v.len(),
        forall|i: int| 0 <= i < v.len() ==> (#[trigger] r[i]).model() == v[i].model(),
    decreases v,
{
    let mut r: Vec<UnionCase> = Vec::new();
    let mut i: usize = 0;
    while i < v.len()
        invariant
            i <= v.len(),
            r.len() == i,
            forall|j: int| 0 <= j < i ==> (#[trigger] r[j]).model() == v[j].model(),
        decreases v.len() - i,
    {
        let item = v[i].clone();
        r.push(item);
        i += 1;
    }
    assert(union_cases_model(r@) =~= union_cases_model(v@));
    r
}

/// What the items of a list field are made of.
#[derive(Debug)]
pub struct ListContent {
    /// Names the link from which items are drawn.
    pub from: Option<String>,
    /// Field projected out of each item.
    pub project: Option<String>,
    pub item: Field,
}

/// What a [`ListContent`] says, free of representation.
pub struct ListContentModel {
    pub from: Option<Seq<char>>,
    pub project: Option<Seq<char>>,
    pub item: FieldModel,
}

impl ListContent {
    /// The content of this value, free of representation.
    pub open spec fn model(self) -> ListContentModel
        decreases self,
    {
        ListContentModel {
            from: opt_text(self.from),
            project: opt_text(self.project),
            item: self.item.model(),
        }
    }
}

impl Clone for ListContent {
    fn clone(&self) -> (r: Self)
        ensures
            r.model() == self.model(),
        decreases self,
    {
        ListContent {
            from: clone_opt_text(&self.from),
            project: clone_opt_text(&self.project),
            item: self.item.clone(),
        }
    }
}

/// One field of a dataset.
#[derive(Debug)]
pub struct Field {
    pub name: String,
    /// Concrete type; absent while it still comes from a reference.
    pub field_type: Option<FieldType>,
    pub refs: Option<RefsSpec>,
    pub generator: Option<Generator>,
    pub locale: Option<Locale>,
    pub range: Option<Range>,
    /// Constant emitted for every row.
    pub value: Option<YamlValue>,
    /// Finite set from which each row draws.
    pub one_of: Option<Vec<YamlValue>>,
    pub preserve_marginal: bool,
    pub constrain_cases: Vec<CaseDelta>,
    /// Nested fields of an object.
    pub fields: Vec<Field>,
    pub content: Option<Box<ListContent>>,
    pub normalize: Option<Normalize>,
    pub variants: Vec<FieldVariant>,
    pub union_cases: Vec<UnionCase>,
    pub parquet: Option<ParquetConfig>,
    pub flatten: bool,
    pub flatten_strategy: Option<FlattenStrategy>,
    pub expression: Option<String>,
    /// Kept in the batch, left out of the output.
    pub hidden: bool,
    /// The column comes from an imported file.
    pub imported_taint: bool,
    pub constraint_bearing: bool,
    pub count: Option<CountSpec>,
    pub precision: Option<i32>,
    pub default: Option<YamlValue>,
    pub quality: Option<DataQuality>,
    pub after: Option<String>,
    pub before: Option<String>,
    /// Generator arguments, by name.
    pub args: Option<Vec<ArgEntry>>,
}

/// What a [`Field`] says, free of representation.
pub struct FieldModel {
    pub name: Seq<char>,
    pub field_type: Option<FieldType>,
    pub refs: Option<RefsSpecModel>,
    pub generator: Option<Generator>,
    pub locale: Option<Locale>,
    pub range: Option<Range>,
    pub value: Option<YamlValueModel>,
    pub one_of: Option<Seq<YamlValueModel>>,
    pub preserve_marginal: bool,
    pub constrain_cases: Seq<CaseDeltaModel>,
    pub fields: Seq<FieldModel>,
    pub content: Option<Box<ListContentModel>>,
    pub normalize: Option<NormalizeModel>,
    pub variants: Seq<FieldVariantModel>,
    pub union_cases: Seq<UnionCaseModel>,
    pub parquet: Option<ParquetConfig>,
    pub flatten: bool,
    pub flatten_strategy: Option<FlattenStrategy>,
    pub expression: Option<Seq<char>>,
    pub hidden: bool,
    pub imported_taint: bool,
    pub constraint_bearing: bool,
    pub count: Option<CountSpec>,
    pub precision: Option<i32>,
    pub default: Option<YamlValueModel>,
    pub quality: Option<DataQualityModel>,
    pub after: Option<Seq<char>>,
    pub before: Option<Seq<char>>,
    pub args: Option<Seq<ArgEntryModel>>,
}

impl Field {
    /// The content of this value, free of representation.
    pub open spec fn model(self) -> FieldModel
        decreases self,
    {
        FieldModel {
            name: self.name@,
            field_type: self.field_type,
            refs: opt_refs_spec_model(self.refs),
            generator: self.generator,
            locale: self.locale,
            range: self.range,
            value: opt_yaml_value_model(self.value),
            one_of: opt_yaml_values_model(self.one_of),
            preserve_marginal: self.preserve_marginal,
            constrain_cases: case_deltas_model(self.constrain_cases@),
            fields: fields_model(self.fields@),
            content: match self.content { Some(v) => Some(Box::new((*v).model())), None => None },
            normalize: opt_normalize_model(self.normalize),
            variants: field_variants_model(self.variants@),
            union_cases: union_cases_model(self.union_cases@),
            parquet: self.parquet,
            flatten: self.flatten,
            flatten_strategy: self.flatten_strategy,
            expression: opt_text(self.expression),
            hidden: self.hidden,
            imported_taint: self.imported_taint,
            constraint_bearing: self.constraint_bearing,
            count: self.count,
            precision: self.precision,
            default: opt_yaml_value_model(self.default),
            quality: opt_data_quality_model(self.quality),
            after: opt_text(self.after),
            before: opt_text(self.before),
            args: opt_arg_entries_model(self.args),
        }
    }
}

impl Clone for Field {
    fn clone(&self) -> (r: Self)
        ensures
            r.model() == self.model(),
        decreases self,
    {
        Field {
            name: self.name.clone(),
            field_type: self.field_type,
            refs: clone_opt_refs_spec(&self.refs),
            generator: self.generator,
            locale: self.locale,
            range: self.range,
            value: clone_opt_yaml_value(&self.value),
            one_of: clone_opt_yaml_values(&self.one_of),
            preserve_marginal: self.preserve_marginal,
            constrain_cases: clone_case_deltas(&self.constrain_cases),
            fields: clone_fields(&self.fields),
            content: match &self.content { Some(v) => Some(Box::new((&**v).clone())), None => None },
            normalize: clone_opt_normalize(&self.normalize),
            variants: clone_field_variants(&self.variants),
            union_cases: clone_union_cases(&self.union_cases),
            parquet: self.parquet,
            flatten: self.flatten,
            flatten_strategy: self.flatten_strategy,
            expression: clone_opt_text(&self.expression),
            hidden: self.hidden,
            imported_taint: self.imported_taint,
            constraint_bearing: self.constraint_bearing,
            count: self.count,
            precision: self.precision,
            default: clone_opt_yaml_value(&self.default),
            quality: clone_opt_data_quality(&self.quality),
            after: clone_opt_text(&self.after),
            before: clone_opt_text(&self.before),
            args: clone_opt_arg_entries(&self.args),
        }
    }
}

/// The model of an empty [`Field`].
pub open spec fn default_field_model() -> FieldModel {
    FieldModel {
        name: Seq::empty(),
        field_type: None,
        refs: None,
        generator: None,
        locale: None,
        range: None,
        value: None,
        one_of: None,
        preserve_marginal: false,
        constrain_cases: Seq::empty(),
        fields: Seq::empty(),
        content: None,
        normalize: None,
        variants: Seq::empty(),
        union_cases: Seq::empty(),
        parquet: None,
        flatten: false,
        flatten_strategy: None,
        expression: None,
        hidden: false,
        imported_taint: false,
        constraint_bearing: false,
        count: None,
        precision: None,
        default: None,
        quality: None,
        after: None,
        before: None,
        args: None,
    }
}

impl Default for Field {
    fn default() -> (r: Self)
        ensures
            r.model() == default_field_model(),
    {
        let r = Field {
            name: String::new(),
            field_type: None,
            refs: None,
            generator: None,
            locale: None,
            range: None,
            value: None,
            one_of: None,
            preserve_marginal: false,
            constrain_cases: Vec::new(),
            fields: Vec::new(),
            content: None,
            normalize: None,
            variants: Vec::new(),
            union_cases: Vec::new(),
            parquet: None,
            flatten: false,
            flatten_strategy: None,
            expression: None,
            hidden: false,
            imported_taint: false,
            constraint_bearing: false,
            count: None,
            precision: None,
            default: None,
            quality: None,
            after: None,
            before: None,
            args: None,
        };
        assert(case_deltas_model(r.constrain_cases@) =~= Seq::empty());
        assert(fields_model(r.fields@) =~= Seq::empty());
        assert(field_variants_model(r.variants@) =~= Seq::empty());
        assert(union_cases_model(r.union_cases@) =~= Seq::empty());
        r
    }
}

/// The models of a sequence of [`Field`]s, in order.
pub open spec fn fields_model(s: Seq<Field>) -> Seq<FieldModel>
    decreases s,
{
    Seq::new(s.len(), |i: int| if 0 <= i < s.len() { s[i].model() } else { arbitrary() })
}

/// A copy of `v`, item by item.
pub fn clone_fields(v: &Vec<Field>) -> (r: Vec<Field>)
    ensures
        fields_model(r@) == fields_model(v@),
        r.len() == v.len(),
        forall|i: int| 0 <= i < v.len() ==> (#[trigger] r[i]).model() == v[i].model(),
    decreases v,
{
    let mut r: Vec<Field> = Vec::new();
    let mut i: usize = 0;
    while i < v.len()
        invariant
            i <= v.len(),
            r.len() == i,
            forall|j: int| 0 <= j < i ==> (#[trigger] r[j]).model() == v[j].model(),
        decreases v.len() - i,
    {
        let item = v[i].clone();
        r.push(item);
        i += 1;
    }
    assert(fields_model(r@) =~= fields_model(v@));
    r
}

/// One concrete variant of a dataset.
#[derive(Debug)]
pub struct VariantSchema {
    pub data: Vec<Field>,
    pub locale: Option<Locale>,
    pub ratio: Option<Num>,
}

/// What a [`VariantSchema`] says, free of representation.
pub struct VariantSchemaModel {
    pub data: Seq<FieldModel>,
    pub locale: Option<Locale>,
    pub ratio: Option<Num>,
}

impl VariantSchema {
    /// The content of this value, free of representation.
    pub open spec fn model(self) -> VariantSchemaModel
        decreases self,
    {
        VariantSchemaModel {
            data: fields_model(self.data@),
            locale: self.locale,
            ratio: self.ratio,
        }
    }
}

impl Clone for VariantSchema {
    fn clone(&self) -> (r: Self)
        ensures
            r.model() == self.model(),
        decreases self,
    {
        VariantSchema {
            data: clone_fields(&self.data),
            locale: self.locale,
            ratio: self.ratio,
        }
    }
}

/// The models of a sequence of [`VariantSchema`]s, in order.
pub open spec fn variant_schemas_model(s: Seq<VariantSchema>) -> Seq<VariantSchemaModel>
    decreases s,
{
    Seq::new(s.len(), |i: int| if 0 <= i < s.len() { s[i].model() } else { arbitrary() })
}

/// A copy of `v`, item by item.
pub fn clone_variant_schemas(v: &Vec<VariantSchema>) -> (r: Vec<VariantSchema>)
    ensures
        variant_schemas_model(r@) == variant_schemas_model(v@),
        r.len() == v.len(),
        forall|i: int| 0 <= i < v.len() ==> (#[trigger] r[i]).model() == v[i].model(),
    decreases v,
{
    let mut r: Vec<VariantSchema> = Vec::new();
    let mut i: usize = 0;
    while i < v.len()
        invariant
            i <= v.len(),
            r.len() == i,
            forall|j: int| 0 <= j < i ==> (#[trigger] r[j]).model() == v[j].model(),
        decreases v.len() - i,
    {
        let item = v[i].clone();
        r.push(item);
        i += 1;
    }
    assert(variant_schemas_model(r@) =~= variant_schemas_model(v@));
    r
}

/// An external file whose rows become the rows of a dataset.
#[derive(Debug)]
pub struct ImportSpec {
    pub file: String,
    pub reference: String,
    pub fields: Vec<String>,
    pub exclude: Option<Vec<String>>,
    pub ring: Option<RingBounds>,
    pub total_rows: usize,
}

/// What a [`ImportSpec`] says, free of representation.
pub struct ImportSpecModel {
    pub file: Seq<char>,
    pub reference: Seq<char>,
    pub fields: Seq<Seq<char>>,
    pub exclude: Option<Seq<Seq<char>>>,
    pub ring: Option<RingBounds>,
    pub total_rows: usize,
}

impl ImportSpec {
    /// The content of this value, free of representation.
    pub open spec fn model(self) -> ImportSpecModel
    {
        ImportSpecModel {
            file: self.file@,
            reference: self.reference@,
            fields: texts(self.fields@),
            exclude: match self.exclude { Some(v) => Some(texts(v@)), None => None },
            ring: self.ring,
            total_rows: self.total_rows,
        }
    }
}

impl Clone for ImportSpec {
    fn clone(&self) -> (r: Self)
        ensures
            r.model() == self.model(),
    {
        ImportSpec {
            file: self.file.clone(),
            reference: self.reference.clone(),
            fields: clone_texts(&self.fields),
            exclude: match &self.exclude { Some(v) => Some(clone_texts(v)), None => None },
            ring: self.ring,
            total_rows: self.total_rows,
        }
    }
}

/// The model of an optional [`ImportSpec`].
pub open spec fn opt_import_spec_model(o: Option<ImportSpec>) -> Option<ImportSpecModel> {
    match o {
        Some(v) => Some(v.model()),
        None => None,
    }
}

/// A copy of an optional [`ImportSpec`].
pub fn clone_opt_import_spec(o: &Option<ImportSpec>) -> (r: Option<ImportSpec>)
    ensures
        opt_import_spec_model(r) == opt_import_spec_model(*o),
{
    match o {
        Some(v) => Some(v.clone()),
        None => None,
    }
}

/// A reference from one dataset to another.
#[derive(Debug)]
pub struct Include {
    pub file: String,
    /// Canonical path of `file`, when that file exists.
    pub resolved: Option<String>,
    pub reference: String,
    pub ratio: Option<Num>,
    pub cardinality: Option<CountSpec>,
    pub reinforcement: Option<Num>,
    pub overlap: Option<Num>,
    pub fields: Vec<String>,
    pub exclude: Option<Vec<String>>,
}

/// What a [`Include`] says, free of representation.
pub struct IncludeModel {
    pub file: Seq<char>,
    pub resolved: Option<Seq<char>>,
    pub reference: Seq<char>,
    pub ratio: Option<Num>,
    pub cardinality: Option<CountSpec>,
    pub reinforcement: Option<Num>,
    pub overlap: Option<Num>,
    pub fields: Seq<Seq<char>>,
    pub exclude: Option<Seq<Seq<char>>>,
}

impl Include {
    /// The content of this value, free of representation.
    pub open spec fn model(self) -> IncludeModel
    {
        IncludeModel {
            file: self.file@,
            resolved: opt_text(self.resolved),
            reference: self.reference@,
            ratio: self.ratio,
            cardinality: self.cardinality,
            reinforcement: self.reinforcement,
            overlap: self.overlap,
            fields: texts(self.fields@),
            exclude: match self.exclude { Some(v) => Some(texts(v@)), None => None },
        }
    }
}

impl Clone for Include {
    fn clone(&self) -> (r: Self)
        ensures
            r.model() == self.model(),
    {
        Include {
            file: self.file.clone(),
            resolved: clone_opt_text(&self.resolved),
            reference: self.reference.clone(),
            ratio: self.ratio,
            cardinality: self.cardinality,
            reinforcement: self.reinforcement,
            overlap: self.overlap,
            fields: clone_texts(&self.fields),
            exclude: match &self.exclude { Some(v) => Some(clone_texts(v)), None => None },
        }
    }
}

/// The models of a sequence of [`Include`]s, in order.
pub open spec fn includes_model(s: Seq<Include>) -> Seq<IncludeModel>
{
    Seq::new(s.len(), |i: int| s[i].model())
}

/// A copy of `v`, item by item.
pub fn clone_includes(v: &Vec<Include>) -> (r: Vec<Include>)
    ensures
        includes_model(r@) == includes_model(v@),
        r.len() == v.len(),
        forall|i: int| 0 <= i < v.len() ==> (#[trigger] r[i]).model() == v[i].model(),
{
    let mut r: Vec<Include> = Vec::new();
    let mut i: usize = 0;
    while i < v.len()
        invariant
            i <= v.len(),
            r.len() == i,
            forall|j: int| 0 <= j < i ==> (#[trigger] r[j]).model() == v[j].model(),
        decreases v.len() - i,
    {
        let item = v[i].clone();
        r.push(item);
        i += 1;
    }
    assert(includes_model(r@) =~= includes_model(v@));
    r
}

/// The model of an optional [`Include`].
pub open spec fn opt_include_model(o: Option<Include>) -> Option<IncludeModel> {
    match o {
        Some(v) => Some(v.model()),
        None => None,
    }
}

/// A copy of an optional [`Include`].
pub fn clone_opt_include(o: &Option<Include>) -> (r: Option<Include>)
    ensures
        opt_include_model(r) == opt_include_model(*o),
{
    match o {
        Some(v) => Some(v.clone()),
        None => None,
    }
}

/// One dataset.
#[derive(Debug)]
pub struct SyntheticDataset {
    pub name: String,
    pub format: Format,
    pub locale: Option<Locale>,
    pub rows: Option<usize>,
    pub output: Option<OutputSpec>,
    pub outputs: Vec<OutputSpec>,
    /// The dataset that this one is drawn from.
    pub include_spec: Option<Include>,
    pub import: Option<ImportSpec>,
    pub links: Vec<Include>,
    pub data: Vec<Field>,
    pub variants: Vec<VariantSchema>,
}

/// What a [`SyntheticDataset`] says, free of representation.
pub struct SyntheticDatasetModel {
    pub name: Seq<char>,
    pub format: Format,
    pub locale: Option<Locale>,
    pub rows: Option<usize>,
    pub output: Option<OutputSpecModel>,
    pub outputs: Seq<OutputSpecModel>,
    pub include_spec: Option<IncludeModel>,
    pub import: Option<ImportSpecModel>,
    pub links: Seq<IncludeModel>,
    pub data: Seq<FieldModel>,
    pub variants: Seq<VariantSchemaModel>,
}

impl SyntheticDataset {
    /// The content of this value, free of representation.
    pub open spec fn model(self) -> SyntheticDatasetModel
    {
        SyntheticDatasetModel {
            name: self.name@,
            format: self.format,
            locale: self.locale,
            rows: self.rows,
            output: opt_output_spec_model(self.output),
            outputs: output_specs_model(self.outputs@),
            include_spec: opt_include_model(self.include_spec),
            import: opt_import_spec_model(self.import),
            links: includes_model(self.links@),
            data: fields_model(self.data@),
            variants: variant_schemas_model(self.variants@),
        }
    }
}

impl Clone for SyntheticDataset {
    fn clone(&self) -> (r: Self)
        ensures
            r.model() == self.model(),
    {
        SyntheticDataset {
            name: self.name.clone(),
            format: self.format,
            locale: self.locale,
            rows: self.rows,
            output: clone_opt_output_spec(&self.output),
            outputs: clone_output_specs(&self.outputs),
            include_spec: clone_opt_include(&self.include_spec),
            import: clone_opt_import_spec(&self.import),
            links: clone_includes(&self.links),
            data: clone_fields(&self.data),
            variants: clone_variant_schemas(&self.variants),
        }
    }
}

/// Output column naming the active case of a flattened variant field.
pub fn discriminant_tag_column(union_field: &str) -> (r: String)
    ensures
        r@ == union_field@ + "_case"@,
{
    union_field.to_owned().concat("_case")
}

/// Default bound of the day-shift corruption, in days.
pub fn default_day_shift_max() -> (r: i64)
    ensures
        r == 30,
{
    30
}

/// The number of linked rows that may be drawn: all of them, or the rounded share `scaled`, but
/// at least one where there is a row at all.
pub open spec fn eligible_rows(linked_rows: nat, scaled: Option<nat>) -> nat {
    match scaled {
        Some(n) => if linked_rows == 0 {
            0
        } else if n == 0 {
            1
        } else if n > linked_rows {
            linked_rows
        } else {
            n
        },
        None => linked_rows,
    }
}

/// The number of linked rows that may be drawn, given the declared ratio times the row count,
/// rounded, where a ratio is declared.
pub fn eligible_linked_rows(linked_rows: usize, scaled: Option<usize>) -> (r: usize)
    ensures
        r == eligible_rows(
            linked_rows as nat,
            match scaled {
                Some(n) => Some(n as nat),
                None => None,
            },
        ),
{
    match scaled {
        Some(n) => {
            let at_least_one: usize = if n == 0 { 1 } else { n };
            if at_least_one > linked_rows {
                linked_rows
            } else {
                at_least_one
            }
        },
        None => linked_rows,
    }
}

impl Generator {
    /// The generators of numbers, which also render as text.
    pub open spec fn is_numeric(self) -> bool {
        self is Latitude || self is Longitude || self is PositiveDecimal || self is Decimal
    }

    /// The generator can fill a field of the given type: any generator fills text, the numeric
    /// ones numbers, and the temporal ones their own type.
    pub open spec fn fits(self, ft: FieldType) -> bool {
        ||| ft is String
        ||| (self.is_numeric() && ft is Number)
        ||| (self is Date && ft is Date)
        ||| (self is DateTime && ft is DateTime)
    }

    /// True when this generator can fill a field of type `ft`.
    pub fn valid_for(&self, ft: &FieldType) -> (r: bool)
        ensures
            r == self.fits(*ft),
    {
        match self {
            Generator::Latitude
            | Generator::Longitude
            | Generator::PositiveDecimal
            | Generator::Decimal => matches!(ft, FieldType::Number | FieldType::String),
            Generator::Date => matches!(ft, FieldType::Date | FieldType::String),
            Generator::DateTime => matches!(ft, FieldType::DateTime | FieldType::String),
            _ => matches!(ft, FieldType::String),
        }
    }

    /// The generators whose output depends on the locale.
    pub open spec fn is_localised(self) -> bool {
        match self {
            Generator::FirstName
            | Generator::LastName
            | Generator::Name
            | Generator::NameWithTitle
            | Generator::Word
            | Generator::Sentence
            | Generator::Paragraph
            | Generator::Words
            | Generator::Sentences
            | Generator::Paragraphs
            | Generator::CompanyName
            | Generator::CompanySuffix
            | Generator::Industry
            | Generator::Profession
            | Generator::Buzzword
            | Generator::CityName
            | Generator::CountryName
            | Generator::StreetName
            | Generator::ZipCode
            | Generator::StateAbbr
            | Generator::PhoneNumber
            | Generator::LicencePlate => true,
            _ => false,
        }
    }

    /// True when this generator's output depends on the locale.
    pub fn supports_locale(&self) -> (r: bool)
        ensures
            r == self.is_localised(),
    {
        match self {
            Generator::FirstName
            | Generator::LastName
            | Generator::Name
            | Generator::NameWithTitle
            | Generator::Word
            | Generator::Sentence
            | Generator::Paragraph
            | Generator::Words
            | Generator::Sentences
            | Generator::Paragraphs
            | Generator::CompanyName
            | Generator::CompanySuffix
            | Generator::Industry
            | Generator::Profession
            | Generator::Buzzword
            | Generator::CityName
            | Generator::CountryName
            | Generator::StreetName
            | Generator::ZipCode
            | Generator::StateAbbr
            | Generator::PhoneNumber
            | Generator::LicencePlate => true,
            _ => false,
        }
    }

    /// The argument names that this generator understands, if it takes arguments.
    pub open spec fn arg_names(self) -> Option<Seq<Seq<char>>> {
        match self {
            Generator::Sentence
            | Generator::Paragraph
            | Generator::Words
            | Generator::Sentences
            | Generator::Paragraphs
            | Generator::Password => Some(seq!["min"@, "max"@]),
            Generator::Geohash => Some(seq!["precision"@]),
            Generator::NumberWithFormat => Some(seq!["format"@]),
            _ => None,
        }
    }

    /// The argument names that this generator understands, or `None` if it takes none.
    pub fn valid_args(&self) -> (r: Option<Vec<&'static str>>)
        ensures
            match r {
                Some(v) => self.arg_names() == Some(str_views(v@)),
                None => self.arg_names() is None,
            },
    {
        let mut v: Vec<&'static str> = Vec::new();
        match self {
            Generator::Sentence
            | Generator::Paragraph
            | Generator::Words
            | Generator::Sentences
            | Generator::Paragraphs
            | Generator::Password => {
                v.push("min");
                v.push("max");
                assert(str_views(v@) =~= seq!["min"@, "max"@]);
                Some(v)
            },
            Generator::Geohash => {
                v.push("precision");
                assert(str_views(v@) =~= seq!["precision"@]);
                Some(v)
            },
            Generator::NumberWithFormat => {
                v.push("format");
                assert(str_views(v@) =~= seq!["format"@]);
                Some(v)
            },
            _ => None,
        }
    }
}

/// A generator that depends on the locale only ever fills text.
pub proof fn law_localised_generators_make_text(g: Generator, ft: FieldType)
    requires
        g.is_localised(),
        g.fits(ft),
    ensures
        ft is String,
{
}

/// The texts of a sequence of string slices.
pub open spec fn str_views(s: Seq<&'static str>) -> Seq<Seq<char>> {
    Seq::new(s.len(), |i: int| s[i]@)
}

impl Format {
    /// The format that a name in lower case stands for.
    pub open spec fn named(name: Seq<char>) -> Option<Format> {
        if name == "parquet"@ {
            Some(Format::Parquet)
        } else if name == "csv"@ {
            Some(Format::Csv)
        } else if name == "json"@ {
            Some(Format::Json)
        } else if name == "jsonl"@ {
            Some(Format::Jsonl)
        } else {
            None
        }
    }

    /// Reads a format name; upper and lower case are the same.
    pub fn from_str(s: &str) -> (r: Result<Format, String>)
        ensures
            match r {
                Ok(f) => Format::named(lowercase_text(s@)) == Some(f),
                Err(m) => Format::named(lowercase_text(s@)) is None && m@ == "unknown format '"@
                    + s@ + "'; expected one of: parquet, csv, json, jsonl"@,
            },
            is_ascii(s@) ==> match r {
                Ok(f) => Format::named(ascii_lowered(s@)) == Some(f),
                Err(_) => Format::named(ascii_lowered(s@)) is None,
            },
            forall|f: Format| s@ == #[trigger] f.label() ==> r == Ok::<Format, String>(f),
    {
        let lower = to_lowercase(s);
        proof {
            assert forall|f: Format| s@ == #[trigger] f.label() implies Format::named(lower@)
                == Some(f) by {
                law_format_names_read_back(f);
            }
        }
        if same_text(&lower, "parquet") {
            Ok(Format::Parquet)
        } else if same_text(&lower, "csv") {
            Ok(Format::Csv)
        } else if same_text(&lower, "json") {
            Ok(Format::Json)
        } else if same_text(&lower, "jsonl") {
            Ok(Format::Jsonl)
        } else {
            Err(
                "unknown format '".to_owned().concat(s).concat(
                    "'; expected one of: parquet, csv, json, jsonl",
                ),
            )
        }
    }
}

/// Reading the name of a format gives the format back.
pub proof fn law_format_names_read_back(f: Format)
    ensures
        Format::named(f.label()) == Some(f),
        is_ascii(f.label()),
        ascii_lowered(f.label()) == f.label(),
{
    reveal_strlit("parquet");
    reveal_strlit("csv");
    reveal_strlit("json");
    reveal_strlit("jsonl");
    assert(ascii_lowered(f.label()) =~= f.label());
}

/// A number that tells the names of generators apart: from the length and three characters.
spec fn name_mark(s: Seq<char>) -> int {
    ((s.len() * 128 + s[2] as int) * 128 + s[s.len() - 1] as int) * 128 + s[s.len() - 3] as int
}

spec fn generator_mark(g: Generator) -> int {
    match g {
        Generator::FirstName => 22852321,
        Generator::LastName => 20771553,
        Generator::Name => 10187489,
        Generator::NameWithTitle => 33256180,
        Generator::Word => 10269295,
        Generator::Sentence => 18592494,
        Generator::Paragraph => 20755553,
        Generator::Words => 12368370,
        Generator::Sentences => 20691427,
        Generator::Paragraphs => 22854128,
        Generator::CompanyName => 26964705,
        Generator::CompanySuffix => 31161446,
        Generator::Industry => 18431220,
        Generator::Profession => 22804329,
        Generator::Buzzword => 18788975,
        Generator::Email => 12088929,
        Generator::Username => 18445025,
        Generator::Password => 18674287,
        Generator::IPv4 => 10328688,
        Generator::IPv6 => 10328944,
        Generator::MacAddress => 24705509,
        Generator::UserAgent => 22641253,
        Generator::CityName => 20787937,
        Generator::CountryName => 27095777,
        Generator::CountryCode => 27095791,
        Generator::StreetName => 24949473,
        Generator::ZipCode => 18625263,
        Generator::StateAbbr => 22575458,
        Generator::TimeZone => 20673263,
        Generator::PhoneNumber => 26999138,
        Generator::CreditCardNumber => 39418210,
        Generator::Bic => 7926242,
        Generator::CurrencyCode => 29143791,
        Generator::CurrencyName => 29143777,
        Generator::CurrencySymbol => 33338978,
        Generator::Latitude => 18690805,
        Generator::Longitude => 20689653,
        Generator::Geohash => 16512097,
        Generator::PositiveDecimal => 35452525,
        Generator::Decimal => 16316013,
        Generator::NumberWithFormat => 39549549,
        Generator::Uuid => 10121845,
        Generator::Isin => 10123123,
        Generator::LicencePlate => 28898017,
        Generator::Isbn => 10008435,
        Generator::Semver => 14383478,
        Generator::Date => 10302177,
        Generator::DateTime => 20787945,
    }
}

proof fn lemma_generator_mark(g: Generator)
    ensures
        name_mark(g.label()) == generator_mark(g),
{
    match g {
        Generator::FirstName => reveal_strlit("first_name"),
        Generator::LastName => reveal_strlit("last_name"),
        Generator::Name => reveal_strlit("name"),
        Generator::NameWithTitle => reveal_strlit("name_with_title"),
        Generator::Word => reveal_strlit("word"),
        Generator::Sentence => reveal_strlit("sentence"),
        Generator::Paragraph => reveal_strlit("paragraph"),
        Generator::Words => reveal_strlit("words"),
        Generator::Sentences => reveal_strlit("sentences"),
        Generator::Paragraphs => reveal_strlit("paragraphs"),
        Generator::CompanyName => reveal_strlit("company_name"),
        Generator::CompanySuffix => reveal_strlit("company_suffix"),
        Generator::Industry => reveal_strlit("industry"),
        Generator::Profession => reveal_strlit("profession"),
        Generator::Buzzword => reveal_strlit("buzzword"),
        Generator::Email => reveal_strlit("email"),
        Generator::Username => reveal_strlit("username"),
        Generator::Password => reveal_strlit("password"),
        Generator::IPv4 => reveal_strlit("ipv4"),
        Generator::IPv6 => reveal_strlit("ipv6"),
        Generator::MacAddress => reveal_strlit("mac_address"),
        Generator::UserAgent => reveal_strlit("user_agent"),
        Generator::CityName => reveal_strlit("city_name"),
        Generator::CountryName => reveal_strlit("country_name"),
        Generator::CountryCode => reveal_strlit("country_code"),
        Generator::StreetName => reveal_strlit("street_name"),
        Generator::ZipCode => reveal_strlit("zip_code"),
        Generator::StateAbbr => reveal_strlit("state_abbr"),
        Generator::TimeZone => reveal_strlit("time_zone"),
        Generator::PhoneNumber => reveal_strlit("phone_number"),
        Generator::CreditCardNumber => reveal_strlit("credit_card_number"),
        Generator::Bic => reveal_strlit("bic"),
        Generator::CurrencyCode => reveal_strlit("currency_code"),
        Generator::CurrencyName => reveal_strlit("currency_name"),
        Generator::CurrencySymbol => reveal_strlit("currency_symbol"),
        Generator::Latitude => reveal_strlit("latitude"),
        Generator::Longitude => reveal_strlit("longitude"),
        Generator::Geohash => reveal_strlit("geohash"),
        Generator::PositiveDecimal => reveal_strlit("positive_decimal"),
        Generator::Decimal => reveal_strlit("decimal"),
        Generator::NumberWithFormat => reveal_strlit("number_with_format"),
        Generator::Uuid => reveal_strlit("uuid"),
        Generator::Isin => reveal_strlit("isin"),
        Generator::LicencePlate => reveal_strlit("licence_plate"),
        Generator::Isbn => reveal_strlit("isbn"),
        Generator::Semver => reveal_strlit("semver"),
        Generator::Date => reveal_strlit("date"),
        Generator::DateTime => reveal_strlit("date_time"),
    }
}

/// No two generators have the same name.
pub proof fn law_generator_names_differ(a: Generator, b: Generator)
    requires
        a.label() == b.label(),
    ensures
        a == b,
{
    lemma_generator_mark(a);
    lemma_generator_mark(b);
}

impl OutputSpecModel {
    /// The full block that an output specification stands for.
    pub open spec fn output(self) -> OutputModel {
        match self {
            OutputSpecModel::Shorthand(s) => OutputModel { file: s, quality: None },
            OutputSpecModel::Block(o) => o,
        }
    }
}

impl OutputSpec {
    /// The full block that this specification stands for.
    pub fn into_output(self) -> (r: Output)
        ensures
            r.model() == self.model().output(),
    {
        match self {
            OutputSpec::Shorthand(s) => Output { file: s, quality: None },
            OutputSpec::Block(o) => o,
        }
    }
}

impl SyntheticDatasetModel {
    /// The outputs of a dataset: its list, or its single output where the list is empty.
    pub open spec fn all_outputs(self) -> Seq<OutputModel> {
        if self.outputs.len() > 0 {
            self.outputs.map_values(|o: OutputSpecModel| o.output())
        } else {
            match self.output {
                Some(o) => seq![o.output()],
                None => Seq::empty(),
            }
        }
    }
}

impl SyntheticDataset {
    /// The outputs of this dataset: its list, or its single output where the list is empty.
    pub fn resolved_outputs(&self) -> (r: Vec<Output>)
        ensures
            outputs_model(r@) == self.model().all_outputs(),
    {
        let mut r: Vec<Output> = Vec::new();
        if self.outputs.len() > 0 {
            let mut i: usize = 0;
            while i < self.outputs.len()
                invariant
                    i <= self.outputs.len(),
                    r.len() == i,
                    forall|j: int|
                        0 <= j < i ==> (#[trigger] r[j]).model()
                            == self.outputs[j].model().output(),
                decreases self.outputs.len() - i,
            {
                r.push(self.outputs[i].clone().into_output());
                i += 1;
            }
            assert(outputs_model(r@) =~= self.model().all_outputs());
            return r;
        }
        if let Some(o) = &self.output {
            r.push(o.clone().into_output());
        }
        assert(outputs_model(r@) =~= self.model().all_outputs());
        r
    }
}

/// A reference cut at its first dot: what stands before it and what stands behind.
pub open spec fn ref_parts(s: Seq<char>) -> Option<(Seq<char>, Seq<char>)> {
    match first_at(s, '.', 0) {
        Some(i) => Some((s.subrange(0, i), s.subrange(i + 1, s.len() as int))),
        None => None,
    }
}

/// Cuts a reference at its first dot.
pub fn split_ref(s: &str) -> (r: Option<(&str, &str)>)
    ensures
        match r {
            Some((a, b)) => ref_parts(s@) == Some((a@, b@)),
            None => ref_parts(s@) is None,
        },
{
    match find_char(s, '.') {
        Some(i) => {
            let n: usize = s.unicode_len();
            Some((s.substring_char(0, i), s.substring_char(i + 1, n)))
        },
        None => None,
    }
}

/// Joining the parts of a reference with a dot gives the reference back, and the first part holds
/// no dot.
pub proof fn law_ref_parts_join(s: Seq<char>)
    ensures
        ref_parts(s) matches Some(p) ==> p.0 + seq!['.'] + p.1 == s && !p.0.contains('.'),
{
    lemma_first_at(s, '.', 0);
    if let Some(p) = ref_parts(s) {
        assert(p.0 + seq!['.'] + p.1 =~= s);
    }
}

/// A name without a dot, a dot and any column name make a reference with these two parts.
pub proof fn law_joined_ref_splits(name: Seq<char>, column: Seq<char>)
    requires
        !name.contains('.'),
    ensures
        ref_parts(name + seq!['.'] + column) == Some((name, column)),
{
    let s = name + seq!['.'] + column;
    lemma_first_at(s, '.', 0);
    assert(s[name.len() as int] == '.');
    let i = first_at(s, '.', 0)->0;
    assert(i == name.len()) by {
        if i < name.len() {
            assert(name[i] == s[i]);
        }
    }
    assert(s.subrange(0, i) =~= name);
    assert(s.subrange(i + 1, s.len() as int) =~= column);
}

/// The first target among the entries, from `i` on.
pub open spec fn first_target(entries: Seq<RefEntryModel>, i: int) -> Option<Seq<char>>
    decreases entries.len() - i,
{
    if i < 0 || i >= entries.len() {
        None
    } else {
        match entries[i] {
            RefEntryModel::Simple(s) => Some(s),
            RefEntryModel::Rich(b) => match b.target {
                Some(t) => Some(t),
                None => first_target(entries, i + 1),
            },
        }
    }
}

/// The bindings with a reducer among the first `n` entries.
pub open spec fn reducer_bindings(entries: Seq<RefEntryModel>, n: int) -> Seq<RefBindingModel>
    decreases n,
{
    if n <= 0 || n > entries.len() {
        Seq::empty()
    } else {
        let rest = reducer_bindings(entries, n - 1);
        match entries[n - 1] {
            RefEntryModel::Rich(b) => if b.reducer is Some {
                rest.push(b)
            } else {
                rest
            },
            RefEntryModel::Simple(_) => rest,
        }
    }
}

impl FieldModel {
    /// The items of the field are drawn from a linked dataset.
    pub open spec fn list_link(self) -> bool {
        self.content is Some && self.content->0.from is Some
    }

    /// The reference that the field takes its type from.
    pub open spec fn type_ref(self) -> Option<Seq<char>> {
        match self.refs {
            Some(RefsSpecModel::Single(s)) => Some(s),
            Some(RefsSpecModel::Multi(e)) => first_target(e, 0),
            None => None,
        }
    }

    /// The bindings of the field that carry a reducer.
    pub open spec fn collects(self) -> Seq<RefBindingModel> {
        match self.refs {
            Some(RefsSpecModel::Multi(e)) => reducer_bindings(e, e.len() as int),
            _ => Seq::empty(),
        }
    }

    /// A column that is generated directly: neither computed nor assembled from a link.
    pub open spec fn is_direct(self) -> bool {
        self.expression is None && !self.list_link()
    }
}

/// The models of a sequence of references to bindings.
pub open spec fn binding_refs_model(s: Seq<&RefBinding>) -> Seq<RefBindingModel> {
    Seq::new(s.len(), |i: int| s[i].model())
}

impl Field {
    /// True when the items of this field are drawn from a linked dataset.
    pub fn is_list_link(&self) -> (r: bool)
        ensures
            r == self.model().list_link(),
    {
        match &self.content {
            Some(c) => c.from.is_some(),
            None => false,
        }
    }

    /// True when the column is neither computed nor assembled from a link.
    pub fn is_direct(&self) -> (r: bool)
        ensures
            r == self.model().is_direct(),
    {
        self.expression.is_none() && !self.is_list_link()
    }

    /// The reference that this field takes its type from, if any.
    pub fn simple_ref(&self) -> (r: Option<&str>)
        ensures
            match r {
                Some(s) => self.model().type_ref() == Some(s@),
                None => self.model().type_ref() is None,
            },
    {
        match &self.refs {
            Some(RefsSpec::Single(s)) => Some(s.as_str()),
            Some(RefsSpec::Multi(entries)) => {
                let ghost em = ref_entries_model(entries@);
                let mut i: usize = 0;
                while i < entries.len()
                    invariant
                        i <= entries.len(),
                        em == ref_entries_model(entries@),
                        self.model().type_ref() == first_target(em, 0),
                        first_target(em, 0) == first_target(em, i as int),
                    decreases entries.len() - i,
                {
                    assert(em[i as int] == entries[i as int].model());
                    match &entries[i] {
                        RefEntry::Simple(s) => {
                            return Some(s.as_str());
                        },
                        RefEntry::Rich(b) => {
                            if let Some(t) = &b.target {
                                return Some(t.as_str());
                            }
                        },
                    }
                    i += 1;
                }
                None
            },
            None => None,
        }
    }

    /// The bindings of this field that carry a reducer, in order.
    pub fn collect_bindings(&self) -> (r: Vec<&RefBinding>)
        ensures
            binding_refs_model(r@) == self.model().collects(),
    {
        let mut r: Vec<&RefBinding> = Vec::new();
        assert(binding_refs_model(r@) =~= Seq::empty());
        if let Some(RefsSpec::Multi(entries)) = &self.refs {
            let ghost em = ref_entries_model(entries@);
            let mut i: usize = 0;
            while i < entries.len()
                invariant
                    i <= entries.len(),
                    em == ref_entries_model(entries@),
                    binding_refs_model(r@) == reducer_bindings(em, i as int),
                decreases entries.len() - i,
            {
                assert(em[i as int] == entries[i as int].model());
                if let RefEntry::Rich(b) = &entries[i] {
                    if b.reducer.is_some() {
                        let ghost prior = r@;
                        r.push(b);
                        assert(binding_refs_model(r@) =~= binding_refs_model(prior).push(
                            b.model(),
                        ));
                    }
                }
                i += 1;
            }
        }
        r
    }
}

impl ListContentModel {
    /// The projection names a field of the items rather than one of the linked dataset.
    pub open spec fn bare_project(self) -> bool {
        self.project is Some && ref_parts(self.project->0) is None
    }

    /// The column that is projected out of each item.
    pub open spec fn projected(self) -> Option<Seq<char>> {
        match self.project {
            Some(p) => match ref_parts(p) {
                Some((_, f)) => Some(f),
                None => Some(p),
            },
            None => None,
        }
    }
}

impl ListContent {
    /// True when the projection names a field of the items rather than one of the linked
    /// dataset.
    pub fn is_bare_project(&self) -> (r: bool)
        ensures
            r == self.model().bare_project(),
    {
        match &self.project {
            Some(p) => split_ref(p).is_none(),
            None => false,
        }
    }

    /// The column that is projected out of each item, if any.
    pub fn project_col(&self) -> (r: Option<String>)
        ensures
            opt_text(r) == self.model().projected(),
    {
        match &self.project {
            Some(p) => match split_ref(p) {
                Some((_, f)) => Some(f.to_owned()),
                None => Some(p.clone()),
            },
            None => None,
        }
    }
}

/// The position of the first link with the given reference, from `i` on.
pub open spec fn link_position(links: Seq<IncludeModel>, reference: Seq<char>, i: int) -> Option<int>
    decreases links.len() - i,
{
    if i < 0 || i >= links.len() {
        None
    } else if links[i].reference == reference {
        Some(i)
    } else {
        link_position(links, reference, i + 1)
    }
}

/// The position of the first link with the given reference, if there is one.
pub fn find_link(links: &Vec<Include>, reference: &str) -> (r: Option<usize>)
    ensures
        match r {
            Some(i) => i < links.len() && link_position(includes_model(links@), reference@, 0)
                == Some(i as int) && links[i as int].reference@ == reference@,
            None => link_position(includes_model(links@), reference@, 0) is None,
        },
{
    let ghost lm = includes_model(links@);
    let mut i: usize = 0;
    while i < links.len()
        invariant
            i <= links.len(),
            lm == includes_model(links@),
            link_position(lm, reference@, 0) == link_position(lm, reference@, i as int),
        decreases links.len() - i,
    {
        assert(lm[i as int] == links[i as int].model());
        if same_text(&links[i].reference, reference) {
            return Some(i);
        }
        i += 1;
    }
    None
}

/// The fields, at any depth, whose items are drawn from a declared link, each with the position
/// of its link, in reading order from `fields[i]` on.
pub open spec fn list_link_uses(links: Seq<IncludeModel>, fields: Seq<FieldModel>, i: int) -> Seq<
    (FieldModel, int),
>
    decreases fields, fields.len() - i,
{
    if i < 0 || i >= fields.len() {
        Seq::empty()
    } else {
        let f = fields[i];
        let here = match f.content {
            Some(c) => (match c.from {
                Some(from) => match link_position(links, from, 0) {
                    Some(l) => seq![(f, l)],
                    None => Seq::empty(),
                },
                None => Seq::empty(),
            }) + list_link_uses(links, c.item.fields, 0),
            None => Seq::empty(),
        };
        here + list_link_uses(links, f.fields, 0) + list_link_uses(links, fields, i + 1)
    }
}

/// The models of a list of link uses.
pub open spec fn uses_model(s: Seq<(&Field, usize)>) -> Seq<(FieldModel, int)> {
    Seq::new(s.len(), |i: int| (s[i].0.model(), s[i].1 as int))
}

/// The parts of the model of a list's content are the models of its parts.
pub proof fn lemma_content_model(f: Field)
    requires
        f.content is Some,
    ensures
        f.model().content == Some(Box::new(f.content->0.model())),
        f.content->0.model().item == f.content->0.item.model(),
        f.content->0.item.model().fields == fields_model(f.content->0.item.fields@),
        f.content->0.model().from == opt_text(f.content->0.from),
        f.content->0.model().project == opt_text(f.content->0.project),
{
}

/// The fields, at any depth, whose items are drawn from a declared link, each with the position
/// of its link.
pub fn for_each_list_link<'a>(links: &Vec<Include>, fields: &'a Vec<Field>) -> (r: Vec<
    (&'a Field, usize),
>)
    ensures
        uses_model(r@) == list_link_uses(includes_model(links@), fields_model(fields@), 0),
        forall|i: int| 0 <= i < r.len() ==> (#[trigger] r[i]).1 < links.len(),
    decreases fields,
{
    let ghost lm = includes_model(links@);
    let ghost fm = fields_model(fields@);
    let mut r: Vec<(&'a Field, usize)> = Vec::new();
    let mut i: usize = 0;
    assert(uses_model(r@) + list_link_uses(lm, fm, 0) =~= list_link_uses(lm, fm, 0));
    while i < fields.len()
        invariant
            i <= fields.len(),
            lm == includes_model(links@),
            fm == fields_model(fields@),
            uses_model(r@) + list_link_uses(lm, fm, i as int) == list_link_uses(lm, fm, 0),
            forall|k: int| 0 <= k < r.len() ==> (#[trigger] r[k]).1 < links.len(),
        decreases fields.len() - i,
    {
        let f = &fields[i];
        let ghost start = uses_model(r@);
        assert(fm[i as int] == f.model());
        let ghost mut here: Seq<(FieldModel, int)> = Seq::empty();
        if let Some(c) = &f.content {
            if let Some(from) = &c.from {
                if let Some(l) = find_link(links, from) {
                    let ghost prior = r@;
                    r.push((f, l));
                    assert(uses_model(r@) =~= uses_model(prior) + seq![(f.model(), l as int)]);
                    proof {
                        here = seq![(f.model(), l as int)];
                    }
                }
            }
            proof {
                lemma_content_model(*f);
            }
            let mut inner = for_each_list_link(links, &c.item.fields);
            let ghost prior = r@;
            let ghost added = inner@;
            r.append(&mut inner);
            assert(uses_model(r@) =~= uses_model(prior) + uses_model(added));
            proof {
                here = here + list_link_uses(lm, fields_model(c.item.fields@), 0);
            }
        }
        assert(uses_model(r@) =~= start + here);
        let mut nested = for_each_list_link(links, &f.fields);
        let ghost prior = r@;
        let ghost added = nested@;
        r.append(&mut nested);
        assert(uses_model(r@) =~= uses_model(prior) + uses_model(added));
        proof {
            let sub = list_link_uses(lm, fields_model(f.fields@), 0);
            let rest = list_link_uses(lm, fm, i + 1);
            assert(list_link_uses(lm, fm, i as int) =~= here + sub + rest);
            assert(uses_model(r@) + rest =~= start + list_link_uses(lm, fm, i as int));
        }
        i += 1;
    }
    assert(uses_model(r@) + list_link_uses(lm, fm, fields.len() as int) =~= uses_model(r@));
    r
}

/// True when some list field draws its items from the link with the given reference.
pub open spec fn feeds_list(fields: Seq<FieldModel>, reference: Seq<char>) -> bool {
    exists|i: int| 0 <= i < fields.len() && list_source(#[trigger] fields[i]) == Some(reference)
}

/// The link that the items of a field are drawn from.
pub open spec fn list_source(f: FieldModel) -> Option<Seq<char>> {
    match f.content {
        Some(c) => c.from,
        None => None,
    }
}

/// True when some field of `fields` draws its list items from the link called `reference`.
pub fn is_list_source(fields: &Vec<Field>, reference: &str) -> (r: bool)
    ensures
        r == feeds_list(fields_model(fields@), reference@),
{
    let ghost fm = fields_model(fields@);
    let mut i: usize = 0;
    while i < fields.len()
        invariant
            i <= fields.len(),
            fm == fields_model(fields@),
            forall|j: int| 0 <= j < i ==> list_source(#[trigger] fm[j]) != Some(reference@),
        decreases fields.len() - i,
    {
        assert(fm[i as int] == fields[i as int].model());
        if let Some(c) = &fields[i].content {
            if let Some(from) = &c.from {
                if same_text(from, reference) {
                    assert(list_source(fm[i as int]) == Some(reference@));
                    return true;
                }
            }
        }
        i += 1;
    }
    false
}

/// The position of the first field with the given name, from `i` on.
pub open spec fn field_position(fields: Seq<FieldModel>, name: Seq<char>, i: int) -> Option<int>
    decreases fields.len() - i,
{
    if i < 0 || i >= fields.len() {
        None
    } else if fields[i].name == name {
        Some(i)
    } else {
        field_position(fields, name, i + 1)
    }
}

/// The position of the first field with the given name, if there is one.
pub fn find_field(fields: &Vec<Field>, name: &str) -> (r: Option<usize>)
    ensures
        match r {
            Some(i) => i < fields.len() && field_position(fields_model(fields@), name@, 0)
                == Some(i as int) && fields[i as int].name@ == name@,
            None => field_position(fields_model(fields@), name@, 0) is None,
        },
{
    let ghost fm = fields_model(fields@);
    let mut i: usize = 0;
    while i < fields.len()
        invariant
            i <= fields.len(),
            fm == fields_model(fields@),
            field_position(fm, name@, 0) == field_position(fm, name@, i as int),
        decreases fields.len() - i,
    {
        assert(fm[i as int] == fields[i as int].model());
        if same_text(&fields[i].name, name) {
            return Some(i);
        }
        i += 1;
    }
    None
}

/// A dataset with the canonical path of its file.
#[derive(Debug)]
pub struct DatasetEntry {
    pub path: String,
    pub dataset: SyntheticDataset,
}

/// What a [`DatasetEntry`] says, free of representation.
pub struct DatasetEntryModel {
    pub path: Seq<char>,
    pub dataset: SyntheticDatasetModel,
}

impl DatasetEntry {
    /// The content of this entry, free of representation.
    pub open spec fn model(self) -> DatasetEntryModel {
        DatasetEntryModel { path: self.path@, dataset: self.dataset.model() }
    }
}

/// The models of a list of datasets.
pub open spec fn entries_model(s: Seq<DatasetEntry>) -> Seq<DatasetEntryModel> {
    Seq::new(s.len(), |i: int| s[i].model())
}

/// The position of the first dataset at `path`, from `i` on.
pub open spec fn dataset_position(all: Seq<DatasetEntryModel>, path: Seq<char>, i: int) -> Option<
    int,
>
    decreases all.len() - i,
{
    if i < 0 || i >= all.len() {
        None
    } else if all[i].path == path {
        Some(i)
    } else {
        dataset_position(all, path, i + 1)
    }
}

/// The position of the dataset at `path`, if there is one.
pub fn find_dataset(all: &Vec<DatasetEntry>, path: &str) -> (r: Option<usize>)
    ensures
        match r {
            Some(i) => i < all.len() && dataset_position(entries_model(all@), path@, 0) == Some(
                i as int,
            ) && all[i as int].path@ == path@,
            None => dataset_position(entries_model(all@), path@, 0) is None,
        },
{
    let ghost am = entries_model(all@);
    let mut i: usize = 0;
    while i < all.len()
        invariant
            i <= all.len(),
            am == entries_model(all@),
            dataset_position(am, path@, 0) == dataset_position(am, path@, i as int),
        decreases all.len() - i,
    {
        assert(am[i as int] == all[i as int].model());
        if same_text(&all[i].path, path) {
            return Some(i);
        }
        i += 1;
    }
    None
}

/// The dataset that an include resolves to.
pub open spec fn target_of(all: Seq<DatasetEntryModel>, inc: IncludeModel) -> Option<int> {
    match inc.resolved {
        Some(p) => dataset_position(all, p, 0),
        None => None,
    }
}

/// The position of the dataset that an include resolves to, if it is among `all`.
pub fn find_target(all: &Vec<DatasetEntry>, inc: &Include) -> (r: Option<usize>)
    ensures
        match r {
            Some(i) => i < all.len() && target_of(entries_model(all@), inc.model()) == Some(
                i as int,
            ),
            None => target_of(entries_model(all@), inc.model()) is None,
        },
{
    match &inc.resolved {
        Some(p) => find_dataset(all, p),
        None => None,
    }
}

/// A dataset with other fields.
pub open spec fn with_data(e: DatasetEntryModel, data: Seq<FieldModel>) -> DatasetEntryModel {
    DatasetEntryModel {
        path: e.path,
        dataset: SyntheticDatasetModel { data, ..e.dataset },
    }
}

/// The models of a list of field lists.
pub open spec fn schemas_model(s: Seq<Vec<Field>>) -> Seq<Seq<FieldModel>> {
    Seq::new(s.len(), |i: int| fields_model(s[i]@))
}

/// The datasets with the given fields in place of their own.
pub fn replace_data(datasets: &Vec<DatasetEntry>, data: &Vec<Vec<Field>>) -> (r: Vec<DatasetEntry>)
    requires
        data.len() == datasets.len(),
    ensures
        entries_model(r@) == Seq::new(
            datasets@.len(),
            |i: int| with_data(datasets@[i].model(), fields_model(data@[i]@)),
        ),
{
    let mut r: Vec<DatasetEntry> = Vec::new();
    let mut i: usize = 0;
    while i < datasets.len()
        invariant
            i <= datasets.len(),
            data.len() == datasets.len(),
            r.len() == i,
            forall|j: int|
                0 <= j < i ==> (#[trigger] r[j]).model() == with_data(
                    datasets[j].model(),
                    fields_model(data[j]@),
                ),
        decreases datasets.len() - i,
    {
        let mut ds = datasets[i].dataset.clone();
        ds.data = clone_fields(&data[i]);
        let e = DatasetEntry { path: datasets[i].path.clone(), dataset: ds };
        assert(e.model() == with_data(datasets[i as int].model(), fields_model(data[i as int]@)));
        r.push(e);
        i += 1;
    }
    assert(entries_model(r@) =~= Seq::new(
        datasets@.len(),
        |i: int| with_data(datasets@[i].model(), fields_model(data@[i]@)),
    ));
    r
}

} // verus!
