//! Field constraints: what a field pins down of its values, when two sets of constraints agree,
//! and what they narrow to.
use vstd::prelude::*;

use crate::message::{
    join3, numbered, numbered_problem, problem_of, Part, PartModel, Problem,
};
use crate::models::{
    case_deltas_model, clone_case_deltas, clone_opt_yaml_value, clone_opt_yaml_values,
    clone_yaml_values, opt_yaml_value_model, opt_yaml_values_model, yaml_values_model, CaseDelta,
    CaseDeltaModel, Field, FieldModel, Generator, Num, Range, YamlModel, YamlValue,
};

verus! {

/// A set of constraints that does not contradict itself.
pub trait Satisfiable {
    /// What it means for this set to be free of contradiction.
    spec fn is_satisfiable(&self) -> bool;

    /// True when the set is free of contradiction.
    fn satisfiable(&self) -> (r: bool)
        ensures
            r == self.is_satisfiable(),
    ;
}

/// Two constraint sets that can be narrowed into one.
pub trait Merge: Sized {
    /// `r` is what the two sets narrow to; `None` when they conflict.
    spec fn merges_to(&self, other: &Self, r: Option<Self>) -> bool;

    /// The set both narrow to, or `None` when they conflict.
    fn merge(&self, other: &Self) -> (r: Option<Self>)
        ensures
            self.merges_to(other, r),
    ;
}

/// A numeric interval; a missing bound is unbounded on that side.
#[derive(Debug, Clone, Copy, PartialEq, Eq, Structural)]
pub struct NumericInterval {
    pub min: Option<Num>,
    pub max: Option<Num>,
}

/// The generation constraints of a field.
///
/// `generator`, `one_of` and `value` form one spectrum of value sources, from loose to tight;
/// `min` and `max` are numeric bounds beside it. `computed` is the rigid support of a computed
/// column: it can be satisfied or contradicted, never narrowed.
#[derive(Debug)]
pub struct FieldConstraints {
    pub generator: Option<Generator>,
    pub min: Option<Num>,
    pub max: Option<Num>,
    pub value: Option<YamlValue>,
    pub one_of: Option<Vec<YamlValue>>,
    pub case_overrides: Vec<CaseDelta>,
    pub computed: Option<NumericInterval>,
}

/// What a [`FieldConstraints`] says, free of representation.
pub struct FieldConstraintsModel {
    pub generator: Option<Generator>,
    pub min: Option<Num>,
    pub max: Option<Num>,
    pub value: Option<YamlModel>,
    pub one_of: Option<Seq<YamlModel>>,
    pub case_overrides: Seq<CaseDeltaModel>,
    pub computed: Option<NumericInterval>,
}

impl FieldConstraints {
    /// The content of this set, free of representation.
    pub open spec fn model(self) -> FieldConstraintsModel {
        FieldConstraintsModel {
            generator: self.generator,
            min: self.min,
            max: self.max,
            value: opt_yaml_value_model(self.value),
            one_of: opt_yaml_values_model(self.one_of),
            case_overrides: case_deltas_model(self.case_overrides@),
            computed: self.computed,
        }
    }
}

impl Clone for FieldConstraints {
    fn clone(&self) -> (r: Self)
        ensures
            r.model() == self.model(),
    {
        FieldConstraints {
            generator: self.generator,
            min: self.min,
            max: self.max,
            value: clone_opt_yaml_value(&self.value),
            one_of: clone_opt_yaml_values(&self.one_of),
            case_overrides: clone_case_deltas(&self.case_overrides),
            computed: self.computed,
        }
    }
}

/// The constraint set that constrains nothing.
pub open spec fn no_constraints() -> FieldConstraintsModel {
    FieldConstraintsModel {
        generator: None,
        min: None,
        max: None,
        value: None,
        one_of: None,
        case_overrides: Seq::empty(),
        computed: None,
    }
}

impl Default for FieldConstraints {
    fn default() -> (r: Self)
        ensures
            r.model() == no_constraints(),
    {
        let r = FieldConstraints {
            generator: None,
            min: None,
            max: None,
            value: None,
            one_of: None,
            case_overrides: Vec::new(),
            computed: None,
        };
        assert(case_deltas_model(r.case_overrides@) =~= Seq::empty());
        r
    }
}

/// `n` lies within the bounds that are set.
pub open spec fn within(n: Num, lo: Option<Num>, hi: Option<Num>) -> bool {
    &&& lo matches Some(l) ==> !n.below(l)
    &&& hi matches Some(h) ==> !h.below(n)
}

/// The bounds do not cross.
pub open spec fn ordered(lo: Option<Num>, hi: Option<Num>) -> bool {
    (lo matches Some(l) && hi matches Some(h)) ==> !hi->0.below(lo->0)
}

impl FieldConstraintsModel {
    /// The numeric constant of the set, if it pins one.
    pub open spec fn pinned(self) -> Option<Num> {
        match self.value {
            Some(v) => v.num(),
            None => None,
        }
    }

    /// The bounds do not cross, a numeric constant lies within them, and a finite set is not
    /// empty.
    pub open spec fn consistent(self) -> bool {
        &&& ordered(self.min, self.max)
        &&& self.pinned() matches Some(n) ==> within(n, self.min, self.max)
        &&& self.one_of matches Some(s) ==> s.len() > 0
    }
}

impl Satisfiable for FieldConstraints {
    open spec fn is_satisfiable(&self) -> bool {
        self.model().consistent()
    }

    fn satisfiable(&self) -> (r: bool) {
        if let (Some(lo), Some(hi)) = (self.min, self.max) {
            if hi.lt(lo) {
                return false;
            }
        }
        if let Some(v) = &self.value {
            if let Some(n) = v.as_num() {
                if let Some(lo) = self.min {
                    if n.lt(lo) {
                        return false;
                    }
                }
                if let Some(hi) = self.max {
                    if hi.lt(n) {
                        return false;
                    }
                }
            }
        }
        if let Some(s) = &self.one_of {
            if s.len() == 0 {
                return false;
            }
        }
        true
    }
}

/// The constraints written on a field.
pub open spec fn constraints_of(f: FieldModel) -> FieldConstraintsModel {
    FieldConstraintsModel {
        generator: f.generator,
        min: match f.range {
            Some(r) => r.min,
            None => None,
        },
        max: match f.range {
            Some(r) => r.max,
            None => None,
        },
        value: f.value,
        one_of: f.one_of,
        case_overrides: f.constrain_cases,
        computed: None,
    }
}

impl FieldConstraints {
    /// The constraints written on `f`; a field carries no computed support.
    pub fn from(f: &Field) -> (r: Self)
        ensures
            r.model() == constraints_of(f.model()),
    {
        FieldConstraints {
            generator: f.generator,
            min: match f.range {
                Some(r) => r.min,
                None => None,
            },
            max: match f.range {
                Some(r) => r.max,
                None => None,
            },
            value: clone_opt_yaml_value(&f.value),
            one_of: clone_opt_yaml_values(&f.one_of),
            case_overrides: clone_case_deltas(&f.constrain_cases),
            computed: None,
        }
    }

    /// The numeric bounds as a range, if any bound is set.
    pub fn to_range(&self) -> (r: Option<Range>)
        ensures
            r == (if self.min is Some || self.max is Some {
                Some(Range { min: self.min, max: self.max })
            } else {
                None
            }),
    {
        if self.min.is_some() || self.max.is_some() {
            Some(Range { min: self.min, max: self.max })
        } else {
            None
        }
    }
}

/// The problem with the numeric constraints of a field: an inverted range, or a constant outside
/// the range.
pub open spec fn constraint_problem(path: Seq<char>, fc: FieldConstraintsModel) -> Option<
    Seq<PartModel>,
> {
    if !ordered(fc.min, fc.max) {
        Some(
            numbered(
                "field '"@ + path + "': `range.min` ("@,
                fc.min->0,
                ") must be less than or equal to `range.max` ("@,
                fc.max->0,
                ")"@,
            ),
        )
    } else if fc.pinned() is Some && !within(fc.pinned()->0, fc.min, None) {
        Some(
            numbered(
                "field '"@ + path + "': `value` ("@,
                fc.pinned()->0,
                ") is below `range.min` ("@,
                fc.min->0,
                ")"@,
            ),
        )
    } else if fc.pinned() is Some && !within(fc.pinned()->0, None, fc.max) {
        Some(
            numbered(
                "field '"@ + path + "': `value` ("@,
                fc.pinned()->0,
                ") is above `range.max` ("@,
                fc.max->0,
                ")"@,
            ),
        )
    } else {
        None
    }
}

/// Checks the numeric constraints of a field at `path`.
pub fn validate_field_constraints(path: &str, field: &Field) -> (r: Result<(), Problem>)
    ensures
        problem_of(r) == constraint_problem(path@, constraints_of(field.model())),
{
    let fc = FieldConstraints::from(field);
    if let (Some(lo), Some(hi)) = (fc.min, fc.max) {
        if hi.lt(lo) {
            return Err(
                numbered_problem(
                    join3("field '", path, "': `range.min` ("),
                    lo,
                    ") must be less than or equal to `range.max` (",
                    hi,
                    ")",
                ),
            );
        }
    }
    if let Some(v) = &fc.value {
        if let Some(n) = v.as_num() {
            if let Some(lo) = fc.min {
                if n.lt(lo) {
                    return Err(
                        numbered_problem(
                            join3("field '", path, "': `value` ("),
                            n,
                            ") is below `range.min` (",
                            lo,
                            ")",
                        ),
                    );
                }
            }
            if let Some(hi) = fc.max {
                if hi.lt(n) {
                    return Err(
                        numbered_problem(
                            join3("field '", path, "': `value` ("),
                            n,
                            ") is above `range.max` (",
                            hi,
                            ")",
                        ),
                    );
                }
            }
        }
    }
    Ok(())
}

/// The tightest value source of a constraint set.
#[derive(Debug)]
pub enum Source {
    Value(YamlValue),
    OneOf(Vec<YamlValue>),
    Gen(Generator),
    Unset,
}

/// What a [`Source`] says, free of representation.
pub enum SourceModel {
    Value(YamlModel),
    OneOf(Seq<YamlModel>),
    Gen(Generator),
    Unset,
}

impl Source {
    /// The content of this source, free of representation.
    pub open spec fn model(self) -> SourceModel {
        match self {
            Source::Value(v) => SourceModel::Value(v.model()),
            Source::OneOf(s) => SourceModel::OneOf(yaml_values_model(s@)),
            Source::Gen(g) => SourceModel::Gen(g),
            Source::Unset => SourceModel::Unset,
        }
    }
}

impl SourceModel {
    /// How much of the domain a source leaves open: the looser the source, the higher.
    pub open spec fn looseness(self) -> int {
        match self {
            SourceModel::Value(_) => 0,
            SourceModel::OneOf(_) => 1,
            SourceModel::Gen(_) => 2,
            SourceModel::Unset => 3,
        }
    }

    /// A source that a set with this tightest source may draw `v` from: a constant draws itself,
    /// a finite set its members, a generator or nothing anything.
    pub open spec fn admits(self, v: YamlModel) -> bool {
        match self {
            SourceModel::Value(c) => v == c,
            SourceModel::OneOf(s) => s.contains(v),
            SourceModel::Gen(_) => true,
            SourceModel::Unset => true,
        }
    }
}

impl FieldConstraintsModel {
    /// The tightest source that the set names.
    pub open spec fn source(self) -> SourceModel {
        if self.value is Some {
            SourceModel::Value(self.value->0)
        } else if self.one_of is Some {
            SourceModel::OneOf(self.one_of->0)
        } else if self.generator is Some {
            SourceModel::Gen(self.generator->0)
        } else {
            SourceModel::Unset
        }
    }
}

/// The items of `a` that also occur in `b`, in the order of `a`.
pub open spec fn common(a: Seq<YamlModel>, b: Seq<YamlModel>) -> Seq<YamlModel> {
    a.filter(|x: YamlModel| b.contains(x))
}

/// The tightest source compatible with both: the tighter one wins, equal kinds must agree, and
/// finite sets intersect. `None` on a conflict.
pub open spec fn merged_source(a: SourceModel, b: SourceModel) -> Option<SourceModel> {
    match (a, b) {
        (SourceModel::Unset, x) => Some(x),
        (x, SourceModel::Unset) => Some(x),
        (SourceModel::Gen(g), SourceModel::Gen(h)) => if g == h {
            Some(a)
        } else {
            None
        },
        (SourceModel::Gen(_), x) => Some(x),
        (x, SourceModel::Gen(_)) => Some(x),
        (SourceModel::OneOf(s), SourceModel::OneOf(t)) => if common(s, t).len() > 0 {
            Some(SourceModel::OneOf(common(s, t)))
        } else {
            None
        },
        (SourceModel::OneOf(s), SourceModel::Value(v)) => if s.contains(v) {
            Some(b)
        } else {
            None
        },
        (SourceModel::Value(v), SourceModel::OneOf(s)) => if s.contains(v) {
            Some(a)
        } else {
            None
        },
        (SourceModel::Value(v), SourceModel::Value(w)) => if v == w {
            Some(a)
        } else {
            None
        },
    }
}

/// True when `v` is one of `set`.
pub fn holds_value(set: &Vec<YamlValue>, v: &YamlValue) -> (r: bool)
    ensures
        r == yaml_values_model(set@).contains(v.model()),
{
    let mut i: usize = 0;
    while i < set.len()
        invariant
            i <= set.len(),
            forall|j: int| 0 <= j < i ==> (#[trigger] set[j]).model() != v.model(),
        decreases set.len() - i,
    {
        if set[i].same(v) {
            assert(yaml_values_model(set@)[i as int] == v.model());
            return true;
        }
        i += 1;
    }
    assert forall|j: int| 0 <= j < yaml_values_model(set@).len() implies #[trigger] yaml_values_model(
        set@,
    )[j] != v.model() by {
        assert(set@[j].model() != v.model());
    }
    false
}

fn intersect(a: &Vec<YamlValue>, b: &Vec<YamlValue>) -> (r: Vec<YamlValue>)
    ensures
        yaml_values_model(r@) == common(yaml_values_model(a@), yaml_values_model(b@)),
{
    let ghost am = yaml_values_model(a@);
    let ghost bm = yaml_values_model(b@);
    let ghost keep = |x: YamlModel| bm.contains(x);
    let mut r: Vec<YamlValue> = Vec::new();
    let mut i: usize = 0;
    assert(am.subrange(0, 0).filter(keep) =~= Seq::empty()) by {
        reveal(Seq::filter);
    }
    assert(yaml_values_model(r@) =~= Seq::empty());
    while i < a.len()
        invariant
            i <= a.len(),
            am == yaml_values_model(a@),
            bm == yaml_values_model(b@),
            keep == (|x: YamlModel| bm.contains(x)),
            yaml_values_model(r@) == am.subrange(0, i as int).filter(keep),
        decreases a.len() - i,
    {
        proof {
            let before = am.subrange(0, i as int);
            let after = am.subrange(0, i + 1);
            assert(after =~= before.push(am[i as int]));
            assert(after.drop_last() =~= before);
            reveal(Seq::filter);
        }
        if holds_value(b, &a[i]) {
            let v = a[i].clone();
            let ghost prior = r@;
            r.push(v);
            assert(yaml_values_model(r@) =~= yaml_values_model(prior).push(v.model()));
        }
        i += 1;
    }
    assert(am.subrange(0, a.len() as int) =~= am);
    r
}

fn source(fc: &FieldConstraints) -> (r: Source)
    ensures
        r.model() == fc.model().source(),
{
    if let Some(v) = &fc.value {
        Source::Value(v.clone())
    } else if let Some(s) = &fc.one_of {
        Source::OneOf(clone_yaml_values(s))
    } else if let Some(g) = &fc.generator {
        Source::Gen(*g)
    } else {
        Source::Unset
    }
}

fn merge_source(a: Source, b: Source) -> (r: Option<Source>)
    ensures
        match r {
            Some(s) => merged_source(a.model(), b.model()) == Some(s.model()),
            None => merged_source(a.model(), b.model()) is None,
        },
{
    match (a, b) {
        (Source::Unset, x) => Some(x),
        (x, Source::Unset) => Some(x),
        (Source::Gen(g), Source::Gen(h)) => {
            if g == h {
                Some(Source::Gen(g))
            } else {
                None
            }
        },
        (Source::Gen(_), x) => Some(x),
        (x, Source::Gen(_)) => Some(x),
        (Source::OneOf(s), Source::OneOf(t)) => {
            let inter = intersect(&s, &t);
            if inter.len() == 0 {
                None
            } else {
                Some(Source::OneOf(inter))
            }
        },
        (Source::OneOf(s), Source::Value(v)) => {
            if holds_value(&s, &v) {
                Some(Source::Value(v))
            } else {
                None
            }
        },
        (Source::Value(v), Source::OneOf(s)) => {
            if holds_value(&s, &v) {
                Some(Source::Value(v))
            } else {
                None
            }
        },
        (Source::Value(v), Source::Value(w)) => {
            if v.same(&w) {
                Some(Source::Value(v))
            } else {
                None
            }
        },
    }
}

/// The tighter of two lower bounds.
pub open spec fn tighter_min(a: Option<Num>, b: Option<Num>) -> Option<Num> {
    match (a, b) {
        (Some(x), Some(y)) => Some(x.larger(y)),
        (Some(x), None) => Some(x),
        (None, y) => y,
    }
}

/// The tighter of two upper bounds.
pub open spec fn tighter_max(a: Option<Num>, b: Option<Num>) -> Option<Num> {
    match (a, b) {
        (Some(x), Some(y)) => Some(x.smaller(y)),
        (Some(x), None) => Some(x),
        (None, y) => y,
    }
}

/// The set that both narrow to, before it is checked for contradiction.
pub open spec fn narrowed(
    a: FieldConstraintsModel,
    b: FieldConstraintsModel,
    s: SourceModel,
) -> FieldConstraintsModel {
    FieldConstraintsModel {
        generator: match s {
            SourceModel::Gen(g) => Some(g),
            _ => None,
        },
        min: tighter_min(a.min, b.min),
        max: tighter_max(a.max, b.max),
        value: match s {
            SourceModel::Value(v) => Some(v),
            _ => None,
        },
        one_of: match s {
            SourceModel::OneOf(o) => Some(o),
            _ => None,
        },
        case_overrides: a.case_overrides + b.case_overrides,
        computed: if a.computed is Some {
            a.computed
        } else {
            b.computed
        },
    }
}

/// What two constraint sets narrow to: the tightest compatible source, the tighter bounds, the
/// case specialisations of both. `None` when the sources conflict or the result contradicts
/// itself.
pub open spec fn merged(a: FieldConstraintsModel, b: FieldConstraintsModel) -> Option<
    FieldConstraintsModel,
> {
    match merged_source(a.source(), b.source()) {
        Some(s) => if narrowed(a, b, s).consistent() {
            Some(narrowed(a, b, s))
        } else {
            None
        },
        None => None,
    }
}

/// The model of an optional constraint set.
pub open spec fn opt_constraints_model(o: Option<FieldConstraints>) -> Option<
    FieldConstraintsModel,
> {
    match o {
        Some(c) => Some(c.model()),
        None => None,
    }
}

impl Merge for FieldConstraints {
    open spec fn merges_to(&self, other: &Self, r: Option<Self>) -> bool {
        opt_constraints_model(r) == merged(self.model(), other.model())
    }

    fn merge(&self, other: &Self) -> (r: Option<Self>) {
        let s = match merge_source(source(self), source(other)) {
            Some(s) => s,
            None => {
                return None;
            },
        };
        let ghost sm = s.model();
        let (value, one_of, generator) = match s {
            Source::Value(v) => (Some(v), None, None),
            Source::OneOf(o) => (None, Some(o), None),
            Source::Gen(g) => (None, None, Some(g)),
            Source::Unset => (None, None, None),
        };
        let min = match (self.min, other.min) {
            (Some(x), Some(y)) => Some(x.max(y)),
            (Some(x), None) => Some(x),
            (None, y) => y,
        };
        let max = match (self.max, other.max) {
            (Some(x), Some(y)) => Some(x.min(y)),
            (Some(x), None) => Some(x),
            (None, y) => y,
        };
        let mut case_overrides = clone_case_deltas(&self.case_overrides);
        let mut extra = clone_case_deltas(&other.case_overrides);
        let ghost first = case_overrides@;
        let ghost second = extra@;
        case_overrides.append(&mut extra);
        assert(case_deltas_model(case_overrides@) =~= case_deltas_model(first)
            + case_deltas_model(second));
        let narrow = FieldConstraints {
            generator,
            min,
            max,
            value,
            one_of,
            case_overrides,
            computed: if self.computed.is_some() {
                self.computed
            } else {
                other.computed
            },
        };
        assert(narrow.model() == narrowed(self.model(), other.model(), sm));
        if narrow.satisfiable() {
            Some(narrow)
        } else {
            None
        }
    }
}

/// The outcome of reconciling two constraint sets of which one may be a computed column.
#[derive(Debug)]
pub enum Reconciled {
    /// Compatible: keep this set.
    Feasible(FieldConstraints),
    /// Contradictory: the combination has no rows.
    Infeasible,
    /// The restriction would have to narrow a computed column, or cannot be checked against it.
    Unsound(Problem),
}

/// What a [`Reconciled`] says, free of representation.
pub enum ReconciledModel {
    Feasible(FieldConstraintsModel),
    Infeasible,
    Unsound(Seq<PartModel>),
}

impl Reconciled {
    /// The content of this outcome, free of representation.
    pub open spec fn model(self) -> ReconciledModel {
        match self {
            Reconciled::Feasible(c) => ReconciledModel::Feasible(c.model()),
            Reconciled::Infeasible => ReconciledModel::Infeasible,
            Reconciled::Unsound(p) => ReconciledModel::Unsound(p.model()),
        }
    }
}

/// A bound as a piece of a message: its number, or the name of the missing bound.
pub open spec fn bound_part(b: Option<Num>, missing: Seq<char>) -> PartModel {
    match b {
        Some(n) => PartModel::Number(n),
        None => PartModel::Text(missing),
    }
}

/// The message of a restriction that overlaps a computed interval without containing it.
pub open spec fn overlap_message(q: NumericInterval, rigid: NumericInterval) -> Seq<PartModel> {
    seq![
        PartModel::Text("a range restriction ["@),
        bound_part(q.min, "-∞"@),
        PartModel::Text(", "@),
        bound_part(q.max, "+∞"@),
        PartModel::Text("] only partially overlaps the computed column's derived interval ["@),
        bound_part(rigid.min, "-∞"@),
        PartModel::Text(", "@),
        bound_part(rigid.max, "+∞"@),
        PartModel::Text("] — a computed column cannot be narrowed to satisfy it"@),
    ]
}

/// The interval that a restriction asks for: its bounds, tightened by a numeric constant.
pub open spec fn restriction(fc: FieldConstraintsModel) -> NumericInterval {
    match fc.pinned() {
        Some(v) => NumericInterval {
            min: tighter_min(fc.min, Some(v)),
            max: tighter_max(fc.max, Some(v)),
        },
        None => NumericInterval { min: fc.min, max: fc.max },
    }
}

/// The set that carries a computed support and nothing else.
pub open spec fn computed_only(rigid: NumericInterval) -> FieldConstraintsModel {
    FieldConstraintsModel { computed: Some(rigid), ..no_constraints() }
}

/// The two intervals have no point in common, as far as their bounds show.
pub open spec fn disjoint(r: NumericInterval, q: NumericInterval) -> bool {
    ||| (r.max is Some && q.min is Some && r.max->0.below(q.min->0))
    ||| (r.min is Some && q.max is Some && q.max->0.below(r.min->0))
}

/// Every point of `r` lies in `q`.
pub open spec fn contained(r: NumericInterval, q: NumericInterval) -> bool {
    &&& q.min is Some ==> r.min is Some && q.min->0.at_most(r.min->0)
    &&& q.max is Some ==> r.max is Some && r.max->0.at_most(q.max->0)
}

/// Holding a computed interval against a restriction: contained is feasible, disjoint is
/// infeasible, and what is neither, or cannot be told, is unsound.
pub open spec fn reconciled_rigid(rigid: NumericInterval, fc: FieldConstraintsModel) -> ReconciledModel {
    let q = restriction(fc);
    if fc.one_of is Some {
        ReconciledModel::Unsound(
            seq![
                PartModel::Text(
                    "a `one_of` finite-set restriction cannot be reconciled with a computed column"@,
                ),
            ],
        )
    } else if (q.min is Some && rigid.min is None) || (q.max is Some && rigid.max is None) {
        ReconciledModel::Unsound(
            seq![
                PartModel::Text(
                    "computed column bounds are not statically determinable on a side constrained by a range — cannot verify the restriction (expression output bounds not derivable)"@,
                ),
            ],
        )
    } else if disjoint(rigid, q) {
        ReconciledModel::Infeasible
    } else if contained(rigid, q) {
        ReconciledModel::Feasible(computed_only(rigid))
    } else {
        ReconciledModel::Unsound(overlap_message(q, rigid))
    }
}

/// Reconciling two sets: the plain merge when neither is computed, the rigid check when one is,
/// unsound when both are.
pub open spec fn reconciled(a: FieldConstraintsModel, b: FieldConstraintsModel) -> ReconciledModel {
    match (a.computed, b.computed) {
        (None, None) => match merged(a, b) {
            Some(m) => ReconciledModel::Feasible(m),
            None => ReconciledModel::Infeasible,
        },
        (Some(rigid), None) => reconciled_rigid(rigid, b),
        (None, Some(rigid)) => reconciled_rigid(rigid, a),
        (Some(_), Some(_)) => ReconciledModel::Unsound(
            seq![
                PartModel::Text("two expression-authored value-sources for one shared column"@),
            ],
        ),
    }
}

fn unsound(text: &str) -> (r: Reconciled)
    ensures
        r.model() == ReconciledModel::Unsound(seq![PartModel::Text(text@)]),
{
    Reconciled::Unsound(crate::message::problem(text.to_owned()))
}

fn bound_piece(b: Option<Num>, missing: &str) -> (r: Part)
    ensures
        r.model() == bound_part(b, missing@),
{
    match b {
        Some(n) => Part::Number(n),
        None => Part::Text(missing.to_owned()),
    }
}

fn overlap_problem(q: NumericInterval, rigid: NumericInterval) -> (r: Problem)
    ensures
        r.model() == overlap_message(q, rigid),
{
    let mut parts: Vec<Part> = Vec::new();
    parts.push(Part::Text("a range restriction [".to_owned()));
    parts.push(bound_piece(q.min, "-∞"));
    parts.push(Part::Text(", ".to_owned()));
    parts.push(bound_piece(q.max, "+∞"));
    parts.push(
        Part::Text("] only partially overlaps the computed column's derived interval [".to_owned()),
    );
    parts.push(bound_piece(rigid.min, "-∞"));
    parts.push(Part::Text(", ".to_owned()));
    parts.push(bound_piece(rigid.max, "+∞"));
    parts.push(
        Part::Text("] — a computed column cannot be narrowed to satisfy it".to_owned()),
    );
    let r = Problem { parts };
    assert(r.model() =~= overlap_message(q, rigid));
    r
}

fn computed_constraints(rigid: NumericInterval) -> (r: FieldConstraints)
    ensures
        r.model() == computed_only(rigid),
{
    let mut r = FieldConstraints::default();
    r.computed = Some(rigid);
    r
}

/// Holds a computed interval against a restriction.
pub fn reconcile_rigid(rigid: NumericInterval, fc: &FieldConstraints) -> (r: Reconciled)
    ensures
        r.model() == reconciled_rigid(rigid, fc.model()),
{
    if fc.one_of.is_some() {
        return unsound(
            "a `one_of` finite-set restriction cannot be reconciled with a computed column",
        );
    }
    let pinned: Option<Num> = match &fc.value {
        Some(v) => v.as_num(),
        None => None,
    };
    let q = match pinned {
        Some(v) => NumericInterval {
            min: match fc.min {
                Some(m) => Some(m.max(v)),
                None => Some(v),
            },
            max: match fc.max {
                Some(m) => Some(m.min(v)),
                None => Some(v),
            },
        },
        None => NumericInterval { min: fc.min, max: fc.max },
    };
    if (q.min.is_some() && rigid.min.is_none()) || (q.max.is_some() && rigid.max.is_none()) {
        return unsound(
            "computed column bounds are not statically determinable on a side constrained by a range — cannot verify the restriction (expression output bounds not derivable)",
        );
    }
    if let (Some(rh), Some(ql)) = (rigid.max, q.min) {
        if rh.lt(ql) {
            return Reconciled::Infeasible;
        }
    }
    if let (Some(rl), Some(qh)) = (rigid.min, q.max) {
        if qh.lt(rl) {
            return Reconciled::Infeasible;
        }
    }
    let lo_ok = match (q.min, rigid.min) {
        (Some(ql), Some(rl)) => ql.le(rl),
        (Some(_), None) => false,
        (None, _) => true,
    };
    let hi_ok = match (q.max, rigid.max) {
        (Some(qh), Some(rh)) => rh.le(qh),
        (Some(_), None) => false,
        (None, _) => true,
    };
    if lo_ok && hi_ok {
        Reconciled::Feasible(computed_constraints(rigid))
    } else {
        Reconciled::Unsound(overlap_problem(q, rigid))
    }
}

impl FieldConstraints {
    /// Reconciles two constraint sets, one of which may be a computed column.
    pub fn reconcile(&self, other: &Self) -> (r: Reconciled)
        ensures
            r.model() == reconciled(self.model(), other.model()),
    {
        match (self.computed, other.computed) {
            (None, None) => match self.merge(other) {
                Some(m) => Reconciled::Feasible(m),
                None => Reconciled::Infeasible,
            },
            (Some(rigid), None) => reconcile_rigid(rigid, other),
            (None, Some(rigid)) => reconcile_rigid(rigid, self),
            (Some(_), Some(_)) => unsound(
                "two expression-authored value-sources for one shared column",
            ),
        }
    }
}

/// The result of a merge never contradicts itself.
pub proof fn law_merge_is_consistent(a: FieldConstraintsModel, b: FieldConstraintsModel)
    ensures
        merged(a, b) matches Some(m) ==> m.consistent(),
{
}

/// Merging never loosens: the result's source is at least as tight as either side's, and its
/// bounds lie within both sides' bounds.
pub proof fn law_merge_narrows(a: FieldConstraintsModel, b: FieldConstraintsModel, n: Num)
    requires
        merged(a, b) is Some,
    ensures
        merged(a, b)->0.source().looseness() <= a.source().looseness(),
        merged(a, b)->0.source().looseness() <= b.source().looseness(),
        within(n, merged(a, b)->0.min, merged(a, b)->0.max) <==> within(n, a.min, a.max) && within(
            n,
            b.min,
            b.max,
        ),
{
}

/// The result of a merge admits exactly the values that both sides admit.
pub proof fn law_merge_intersects_supports(
    a: FieldConstraintsModel,
    b: FieldConstraintsModel,
    v: YamlModel,
)
    requires
        merged(a, b) is Some,
    ensures
        merged(a, b)->0.source().admits(v) <==> a.source().admits(v) && b.source().admits(v),
{
    if let (SourceModel::OneOf(s), SourceModel::OneOf(t)) = (a.source(), b.source()) {
        lemma_common_contains(s, t, v);
    }
}

/// Whether two sets conflict does not depend on their order, and neither do the bounds and the
/// values that their merge admits.
pub proof fn law_merge_is_symmetric(
    a: FieldConstraintsModel,
    b: FieldConstraintsModel,
    v: YamlModel,
)
    ensures
        merged(a, b) is Some <==> merged(b, a) is Some,
        merged(a, b) is Some ==> {
            &&& merged(a, b)->0.min == merged(b, a)->0.min
            &&& merged(a, b)->0.max == merged(b, a)->0.max
            &&& merged(a, b)->0.value == merged(b, a)->0.value
            &&& merged(a, b)->0.generator == merged(b, a)->0.generator
            &&& merged(a, b)->0.source().admits(v) == merged(b, a)->0.source().admits(v)
        },
{
    if let (SourceModel::OneOf(s), SourceModel::OneOf(t)) = (a.source(), b.source()) {
        lemma_common_nonempty(s, t);
        lemma_common_nonempty(t, s);
    }
    if merged(a, b) is Some && merged(b, a) is Some {
        law_merge_intersects_supports(a, b, v);
        law_merge_intersects_supports(b, a, v);
    }
}

proof fn lemma_common_contains(s: Seq<YamlModel>, t: Seq<YamlModel>, v: YamlModel)
    ensures
        common(s, t).contains(v) <==> s.contains(v) && t.contains(v),
{
    broadcast use vstd::seq_lib::group_filter_ensures;

    let keep = |x: YamlModel| t.contains(x);
    if common(s, t).contains(v) {
        s.lemma_filter_contains_rev(keep, v);
        let i = choose|i: int| 0 <= i < common(s, t).len() && common(s, t)[i] == v;
        assert(keep(s.filter(keep)[i]));
    }
    if s.contains(v) && t.contains(v) {
        let i = choose|i: int| 0 <= i < s.len() && s[i] == v;
        assert(keep(s[i]));
        assert(s.filter(keep).contains(s[i]));
    }
}

proof fn lemma_common_nonempty(s: Seq<YamlModel>, t: Seq<YamlModel>)
    ensures
        common(s, t).len() > 0 <==> exists|v: YamlModel| #[trigger]
            s.contains(v) && t.contains(v),
{
    if common(s, t).len() > 0 {
        let v = common(s, t)[0];
        assert(common(s, t).contains(v));
        lemma_common_contains(s, t, v);
        assert(s.contains(v));
    }
    if exists|v: YamlModel| #[trigger] s.contains(v) && t.contains(v) {
        let v = choose|v: YamlModel| #[trigger] s.contains(v) && t.contains(v);
        lemma_common_contains(s, t, v);
        let i = choose|i: int| 0 <= i < common(s, t).len() && common(s, t)[i] == v;
        assert(0 <= i < common(s, t).len());
    }
}

/// Constraining nothing is neutral: a consistent set whose source is its only one merges with it
/// to itself.
pub proof fn law_unconstrained_is_neutral(a: FieldConstraintsModel)
    requires
        a.consistent(),
        a.value is Some ==> a.one_of is None && a.generator is None,
        a.one_of is Some ==> a.generator is None,
    ensures
        merged(a, no_constraints()) == Some(a),
        merged(no_constraints(), a) == Some(a),
{
    assert(a.case_overrides + Seq::<CaseDeltaModel>::empty() =~= a.case_overrides);
    assert(Seq::<CaseDeltaModel>::empty() + a.case_overrides =~= a.case_overrides);
}

/// Reconciling a computed column with a plain restriction gives the same outcome in either order.
pub proof fn law_reconcile_rigid_is_symmetric(a: FieldConstraintsModel, b: FieldConstraintsModel)
    requires
        a.computed is Some != b.computed is Some,
    ensures
        reconciled(a, b) == reconciled(b, a),
{
}

/// A computed column is never narrowed: whatever is feasible keeps its derived interval.
pub proof fn law_reconcile_keeps_computed(a: FieldConstraintsModel, b: FieldConstraintsModel)
    requires
        a.computed is Some,
    ensures
        reconciled(a, b) matches ReconciledModel::Feasible(m) ==> m.computed == a.computed,
{
}

// ---------------------------------------------------------------------------
// Which values a set leaves possible
// ---------------------------------------------------------------------------

impl FieldConstraintsModel {
    /// A value that the set leaves possible: its constant if it has one, a member of its finite
    /// set, and within its bounds where it is a number.
    pub open spec fn allows(self, v: YamlModel) -> bool {
        &&& self.value matches Some(c) ==> v == c
        &&& self.one_of matches Some(s) ==> s.contains(v)
        &&& v.num() matches Some(n) ==> within(n, self.min, self.max)
    }

    /// A value that the set names: its constant, else a member of its finite set.
    pub open spec fn lists(self, v: YamlModel) -> bool {
        match self.value {
            Some(c) => v == c,
            None => self.one_of is Some && self.one_of->0.contains(v),
        }
    }

    /// A constant beside a finite set is a member of it.
    pub open spec fn coherent(self) -> bool {
        (self.value is Some && self.one_of is Some) ==> self.one_of->0.contains(self.value->0)
    }
}

/// A value that a field leaves possible as it is written: its `value`, `one_of` and `range`.
pub open spec fn field_allows(f: FieldModel, v: YamlModel) -> bool {
    &&& f.value matches Some(c) ==> v == c
    &&& f.one_of matches Some(s) ==> s.contains(v)
    &&& (f.range is Some && v.num() is Some) ==> within(v.num()->0, f.range->0.min, f.range->0.max)
}

/// A number lies within bounds exactly when it is neither below the lower nor above the upper one;
/// a bound that is not set excludes nothing, and a larger lower bound excludes more.
pub proof fn law_within_bounds(n: Num, lo: Option<Num>, hi: Option<Num>)
    ensures
        within(n, None, None),
        lo is Some && n.key < lo->0.key && !n.nan() && !lo->0.nan() ==> !within(n, lo, hi),
        hi is Some && hi->0.key < n.key && !n.nan() && !hi->0.nan() ==> !within(n, lo, hi),
        (lo is Some ==> lo->0.key <= n.key) && (hi is Some ==> n.key <= hi->0.key) ==> within(
            n,
            lo,
            hi,
        ),
{
}

/// The constraints of a field leave possible exactly the values that are written on it, keep its
/// generator and its specialised cases, and are never those of a computed column.
pub proof fn law_constraints_are_those_written(f: FieldModel, v: YamlModel)
    ensures
        constraints_of(f).allows(v) <==> field_allows(f, v),
        constraints_of(f).generator == f.generator,
        constraints_of(f).case_overrides == f.constrain_cases,
        constraints_of(f).value == f.value,
        constraints_of(f).one_of == f.one_of,
        f.range is None ==> constraints_of(f).min is None && constraints_of(f).max is None,
        f.range is Some ==> constraints_of(f).min == f.range->0.min && constraints_of(f).max
            == f.range->0.max,
        constraints_of(f).computed is None,
{
}

/// A merge leaves possible exactly the values that both sides leave possible, and keeps the
/// specialised cases of both.
pub proof fn law_merge_allows_what_both_allow(
    a: FieldConstraintsModel,
    b: FieldConstraintsModel,
    v: YamlModel,
)
    requires
        merged(a, b) is Some,
        a.coherent(),
        b.coherent(),
    ensures
        merged(a, b)->0.allows(v) <==> a.allows(v) && b.allows(v),
        merged(a, b)->0.coherent(),
        forall|i: int|
            0 <= i < a.case_overrides.len() ==> merged(a, b)->0.case_overrides.contains(
                #[trigger] a.case_overrides[i],
            ),
        forall|i: int|
            0 <= i < b.case_overrides.len() ==> merged(a, b)->0.case_overrides.contains(
                #[trigger] b.case_overrides[i],
            ),
{
    let m = merged(a, b)->0;
    if let (SourceModel::OneOf(s), SourceModel::OneOf(t)) = (a.source(), b.source()) {
        lemma_common_contains(s, t, v);
    }
    law_merge_narrows(a, b, v.num()->0);
    assert forall|i: int| 0 <= i < a.case_overrides.len() implies m.case_overrides.contains(
        #[trigger] a.case_overrides[i],
    ) by {
        assert(m.case_overrides[i] == a.case_overrides[i]);
    }
    assert forall|i: int| 0 <= i < b.case_overrides.len() implies m.case_overrides.contains(
        #[trigger] b.case_overrides[i],
    ) by {
        assert(m.case_overrides[a.case_overrides.len() + i] == b.case_overrides[i]);
    }
}

/// Two sets only conflict for a reason: no value is left possible by both, or their bounds cross,
/// or each names a generator of its own and they differ.
pub proof fn law_conflicts_have_a_reason(a: FieldConstraintsModel, b: FieldConstraintsModel, v: YamlModel)
    requires
        merged(a, b) is None,
        a.generator is None || b.generator is None || a.generator == b.generator,
        ordered(tighter_min(a.min, b.min), tighter_max(a.max, b.max)),
    ensures
        !(a.allows(v) && b.allows(v)),
{
    if let (SourceModel::OneOf(s), SourceModel::OneOf(t)) = (a.source(), b.source()) {
        lemma_common_contains(s, t, v);
        lemma_common_nonempty(s, t);
    }
}

/// Two sets that each list their values, as a constant or a finite set, conflict where they list
/// none in common.
pub proof fn law_disjoint_sets_conflict(a: FieldConstraintsModel, b: FieldConstraintsModel)
    requires
        a.value is Some || a.one_of is Some,
        b.value is Some || b.one_of is Some,
        forall|v: YamlModel| #[trigger] a.lists(v) ==> !b.lists(v),
    ensures
        merged(a, b) is None,
        merged(b, a) is None,
{
    match (a.source(), b.source()) {
        (SourceModel::OneOf(s), SourceModel::OneOf(t)) => {
            lemma_common_nonempty(s, t);
            lemma_common_nonempty(t, s);
            if exists|v: YamlModel| #[trigger] s.contains(v) && t.contains(v) {
                let v = choose|v: YamlModel| #[trigger] s.contains(v) && t.contains(v);
                assert(a.lists(v));
            }
            if exists|v: YamlModel| #[trigger] t.contains(v) && s.contains(v) {
                let v = choose|v: YamlModel| #[trigger] t.contains(v) && s.contains(v);
                assert(a.lists(v));
            }
        },
        (SourceModel::Value(c), _) => {
            assert(a.lists(c));
        },
        (_, SourceModel::Value(c)) => {
            assert(!a.lists(c));
        },
        _ => {},
    }
}

/// Bounds that cross conflict, whatever else is set.
pub proof fn law_crossing_bounds_conflict(a: FieldConstraintsModel, b: FieldConstraintsModel)
    requires
        a.max is Some,
        b.min is Some,
        a.max->0.below(b.min->0),
    ensures
        merged(a, b) is None,
        merged(b, a) is None,
{
}

/// A computed column stands beside a restriction only where every number of its interval is one
/// that the restriction leaves possible, and is only dropped where none is.
pub proof fn law_computed_columns_satisfy_restrictions(
    rigid: NumericInterval,
    fc: FieldConstraintsModel,
    n: Num,
)
    requires
        fc.consistent(),
        !n.nan(),
        rigid.min is Some ==> !rigid.min->0.nan(),
        rigid.max is Some ==> !rigid.max->0.nan(),
        within(n, rigid.min, rigid.max),
    ensures
        reconciled_rigid(rigid, fc) is Feasible ==> within(n, fc.min, fc.max) && fc.one_of is None
            && reconciled_rigid(rigid, fc)->Feasible_0.computed == Some(rigid),
        reconciled_rigid(rigid, fc) is Infeasible ==> !within(n, fc.min, fc.max) || (fc.pinned()
            is Some && fc.pinned()->0 != n),
{
}

/// Without a computed column, sets are reconciled exactly where they merge; two computed columns
/// never are.
pub proof fn law_plain_sets_are_reconciled_by_merging(
    a: FieldConstraintsModel,
    b: FieldConstraintsModel,
)
    ensures
        a.computed is None && b.computed is None && merged(a, b) is Some ==> reconciled(a, b)
            == ReconciledModel::Feasible(merged(a, b)->0),
        a.computed is None && b.computed is None && merged(a, b) is None ==> reconciled(a, b)
            is Infeasible,
        a.computed is Some && b.computed is Some ==> reconciled(a, b) is Unsound,
        a.computed is Some && b.computed is None ==> reconciled(a, b) == reconciled_rigid(
            a.computed->0,
            b,
        ),
{
}

/// A computed column with known bounds inside a restriction without a finite set stands beside it,
/// and one wholly outside drops out.
pub proof fn law_computed_columns_are_judged_by_their_bounds(
    rigid: NumericInterval,
    fc: FieldConstraintsModel,
)
    requires
        fc.value is None,
        fc.one_of is None,
        rigid.min is Some && !rigid.min->0.nan(),
        rigid.max is Some && !rigid.max->0.nan(),
        fc.min is Some ==> !fc.min->0.nan(),
        fc.max is Some ==> !fc.max->0.nan(),
        rigid.min->0.key <= rigid.max->0.key,
        fc.min is Some && fc.max is Some ==> fc.min->0.key <= fc.max->0.key,
    ensures
        reconciled_rigid(rigid, fc) is Feasible <==> (fc.min is Some ==> fc.min->0.key
            <= rigid.min->0.key) && (fc.max is Some ==> rigid.max->0.key <= fc.max->0.key),
        reconciled_rigid(rigid, fc) is Infeasible <==> (fc.min is Some && rigid.max->0.key
            < fc.min->0.key) || (fc.max is Some && fc.max->0.key < rigid.min->0.key),
{
}

} // verus!
