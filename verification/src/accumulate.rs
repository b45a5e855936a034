//! Gathering values of one dataset in a column of another: which aggregate belongs to which row,
//! and how repeated gathering combines.
use vstd::prelude::*;

use crate::columns::{column_at, find_column};
use crate::message::{join3, problem, said, PartModel, Problem};
use crate::models::{Num, Reducer, YamlModel, YamlValue};
use crate::text::{clone_opt_text, holds_text, opt_text, text_less, text_lt, texts};

verus! {

// ---------------------------------------------------------------------------
// Aggregates and rows
// ---------------------------------------------------------------------------

/// The last of the first `n` aggregates that belongs to a row.
pub open spec fn aggregate_of(groups: Seq<u32>, row: int, n: int) -> Option<int>
    decreases n,
{
    if n <= 0 {
        None
    } else if groups[n - 1] == row {
        Some(n - 1)
    } else {
        aggregate_of(groups, row, n - 1)
    }
}

/// The aggregate of every row, if it has one.
pub open spec fn aggregates(groups: Seq<u32>, linked_n: nat) -> Seq<Option<usize>> {
    Seq::new(
        linked_n,
        |i: int|
            match aggregate_of(groups, i, groups.len() as int) {
                Some(k) => Some(k as usize),
                None => None,
            },
    )
}

proof fn lemma_aggregate_bound(groups: Seq<u32>, row: int, n: int)
    requires
        0 <= n <= groups.len(),
    ensures
        match aggregate_of(groups, row, n) {
            Some(k) => 0 <= k < n && groups[k] == row,
            None => forall|k: int| 0 <= k < n ==> #[trigger] groups[k] != row,
        },
    decreases n,
{
    if n > 0 {
        lemma_aggregate_bound(groups, row, n - 1);
    }
}

/// The aggregate of every row, given the row that each aggregate belongs to.
pub fn aggregate_rows(groups: &Vec<u32>, linked_n: usize) -> (r: Vec<Option<usize>>)
    ensures
        r@ == aggregates(groups@, linked_n as nat),
        forall|i: int|
            0 <= i < r.len() && (#[trigger] r[i]) is Some ==> r[i]->0 < groups.len(),
{
    let mut r: Vec<Option<usize>> = Vec::new();
    let mut i: usize = 0;
    while i < linked_n
        invariant
            i <= linked_n,
            r.len() == i,
            forall|j: int| 0 <= j < i ==> (#[trigger] r[j]) is None,
        decreases linked_n - i,
    {
        r.push(None);
        i += 1;
    }
    let mut k: usize = 0;
    while k < groups.len()
        invariant
            k <= groups.len(),
            r.len() == linked_n,
            forall|j: int|
                0 <= j < linked_n ==> #[trigger] r[j] == match aggregate_of(groups@, j, k as int) {
                    Some(k) => Some(k as usize),
                    None => None,
                },
        decreases groups.len() - k,
    {
        let g: u32 = groups[k];
        if (g as usize) < linked_n {
            r.set(g as usize, Some(k));
        }
        k += 1;
    }
    assert(r@ =~= aggregates(groups@, linked_n as nat));
    proof {
        assert forall|i: int| 0 <= i < r.len() && (#[trigger] r[i]) is Some implies r[i]->0
            < groups.len() by {
            lemma_aggregate_bound(groups@, i, groups.len() as int);
        }
    }
    r
}

/// Where every row finds its value, when the aggregates stand before one default for each row.
pub open spec fn value_positions(groups: Seq<u32>, linked_n: nat) -> Seq<u32> {
    Seq::new(
        linked_n,
        |i: int|
            match aggregate_of(groups, i, groups.len() as int) {
                Some(k) => k as u32,
                None => (groups.len() + i) as u32,
            },
    )
}

/// Where every row finds its value: at its aggregate, else at its default behind all aggregates.
pub fn take_positions(groups: &Vec<u32>, linked_n: usize) -> (r: Vec<u32>)
    requires
        groups.len() + linked_n <= u32::MAX,
    ensures
        r@ == value_positions(groups@, linked_n as nat),
{
    let rows = aggregate_rows(groups, linked_n);
    let mut r: Vec<u32> = Vec::new();
    let mut i: usize = 0;
    while i < linked_n
        invariant
            i <= linked_n,
            groups.len() + linked_n <= u32::MAX,
            rows@ == aggregates(groups@, linked_n as nat),
            rows.len() == linked_n,
            forall|i: int|
                0 <= i < rows.len() && (#[trigger] rows[i]) is Some ==> rows[i]->0 < groups.len(),
            r.len() == i,
            forall|j: int|
                0 <= j < i ==> #[trigger] r[j] == value_positions(groups@, linked_n as nat)[j],
        decreases linked_n - i,
    {
        proof {
            lemma_aggregate_bound(groups@, i as int, groups.len() as int);
        }
        let at: u32 = match rows[i] {
            Some(k) => k as u32,
            None => (groups.len() + i) as u32,
        };
        r.push(at);
        i += 1;
    }
    assert(r@ =~= value_positions(groups@, linked_n as nat));
    r
}

// ---------------------------------------------------------------------------
// Lists
// ---------------------------------------------------------------------------

/// Where a part of a gathered list comes from.
#[derive(Debug, Clone, Copy, PartialEq, Eq, Structural)]
pub enum Piece {
    /// What the row had gathered before.
    Existing(usize),
    /// The aggregate at this position.
    Gathered(usize),
}

/// What is known of the lists to combine.
pub struct Lists {
    pub groups: Seq<u32>,
    /// Lengths of the lists that the rows have gathered before, unless this is the first time.
    pub existing: Option<Seq<usize>>,
    /// Lengths of the aggregates.
    pub gathered: Seq<usize>,
}

impl Lists {
    /// The parts of the list of one row.
    pub open spec fn row_pieces(self, row: int) -> Seq<Piece> {
        (if self.existing is Some {
            seq![Piece::Existing(row as usize)]
        } else {
            Seq::empty()
        }) + match aggregate_of(self.groups, row, self.groups.len() as int) {
            Some(k) => seq![Piece::Gathered(k as usize)],
            None => Seq::empty(),
        }
    }

    /// The length of the list of one row.
    pub open spec fn row_len(self, row: int) -> int {
        (match self.existing {
            Some(e) => e[row] as int,
            None => 0,
        }) + match aggregate_of(self.groups, row, self.groups.len() as int) {
            Some(k) => self.gathered[k] as int,
            None => 0,
        }
    }

    /// The parts of the lists of the first `n` rows.
    pub open spec fn pieces(self, n: int) -> Seq<Piece>
        decreases n,
    {
        if n <= 0 {
            Seq::empty()
        } else {
            self.pieces(n - 1) + self.row_pieces(n - 1)
        }
    }

    /// Where the list of row `n` begins.
    pub open spec fn offset(self, n: int) -> int
        decreases n,
    {
        if n <= 0 {
            0
        } else {
            self.offset(n - 1) + self.row_len(n - 1)
        }
    }
}

proof fn lemma_offset_grows(l: Lists, m: int, n: int)
    requires
        0 <= m <= n,
    ensures
        0 <= l.offset(m) <= l.offset(n),
    decreases n,
{
    if m < n {
        lemma_offset_grows(l, m, n - 1);
    } else if n > 0 {
        lemma_offset_grows(l, n - 1, n - 1);
    }
}

/// What is known of the lists to combine, free of representation.
pub open spec fn lists_of(
    groups: Seq<u32>,
    existing: Option<&Vec<usize>>,
    gathered: Seq<usize>,
) -> Lists {
    Lists {
        groups,
        existing: match existing {
            Some(e) => Some(e@),
            None => None,
        },
        gathered,
    }
}

/// The gathered list of every row: the parts to put together, and where each row's list begins.
pub fn gather_lists(
    groups: &Vec<u32>,
    existing: Option<&Vec<usize>>,
    gathered: &Vec<usize>,
    linked_n: usize,
) -> (r: (Vec<i32>, Vec<Piece>))
    requires
        gathered.len() == groups.len(),
        existing matches Some(e) ==> e.len() == linked_n,
        lists_of(groups@, existing, gathered@).offset(linked_n as int) <= i32::MAX,
        linked_n < usize::MAX,
    ensures
        ({
            let l = lists_of(groups@, existing, gathered@);
            &&& r.0.len() == linked_n + 1
            &&& forall|i: int| 0 <= i <= linked_n ==> #[trigger] r.0[i] == l.offset(i)
            &&& r.1@ == l.pieces(linked_n as int)
        }),
{
    let ghost l = lists_of(groups@, existing, gathered@);
    let rows = aggregate_rows(groups, linked_n);
    let mut offsets: Vec<i32> = Vec::new();
    let mut pieces: Vec<Piece> = Vec::new();
    let mut at: i32 = 0;
    offsets.push(0);
    let mut i: usize = 0;
    while i < linked_n
        invariant
            i <= linked_n,
            l == lists_of(groups@, existing, gathered@),
            gathered.len() == groups.len(),
            existing matches Some(e) ==> e.len() == linked_n,
            l.offset(linked_n as int) <= i32::MAX,
            rows@ == aggregates(groups@, linked_n as nat),
            rows.len() == linked_n,
            forall|i: int|
                0 <= i < rows.len() && (#[trigger] rows[i]) is Some ==> rows[i]->0 < groups.len(),
            offsets.len() == i + 1,
            at == l.offset(i as int),
            forall|j: int| 0 <= j <= i ==> #[trigger] offsets[j] == l.offset(j),
            pieces@ == l.pieces(i as int),
        decreases linked_n - i,
    {
        proof {
            lemma_aggregate_bound(groups@, i as int, groups.len() as int);
            lemma_offset_grows(l, i as int, i as int);
            lemma_offset_grows(l, i + 1, linked_n as int);
            assert(l.offset(i + 1) == l.offset(i as int) + l.row_len(i as int));
        }
        let ghost before = pieces@;
        if let Some(e) = existing {
            at = at + e[i] as i32;
            pieces.push(Piece::Existing(i));
        }
        if let Some(k) = rows[i] {
            at = at + gathered[k] as i32;
            pieces.push(Piece::Gathered(k));
        }
        assert(pieces@ =~= before + l.row_pieces(i as int));
        offsets.push(at);
        i += 1;
    }
    (offsets, pieces)
}

// ---------------------------------------------------------------------------
// Single values
// ---------------------------------------------------------------------------

/// How the new column of a gathering step comes about.
#[derive(Debug, Clone, Copy, PartialEq, Eq, Structural)]
pub enum NewColumn {
    /// Lists of gathered values.
    Lists,
    /// The aggregates, with a default where there is none.
    Take,
    /// The values that are there stay.
    Keep,
    /// The values that are there, combined with the aggregates.
    Combine,
}

/// How the new column comes about, by reducer and by whether the column gathers for the first
/// time.
pub open spec fn column_for(reducer: Reducer, first: bool) -> NewColumn {
    if reducer is Collect {
        NewColumn::Lists
    } else if first {
        NewColumn::Take
    } else if reducer is TakeOne {
        NewColumn::Keep
    } else {
        NewColumn::Combine
    }
}

/// How the new column of a gathering step comes about.
pub fn new_column(reducer: &Reducer, first: bool) -> (r: NewColumn)
    ensures
        r == column_for(*reducer, first),
{
    match *reducer {
        Reducer::Collect => NewColumn::Lists,
        Reducer::TakeOne => if first {
            NewColumn::Take
        } else {
            NewColumn::Keep
        },
        _ => if first {
            NewColumn::Take
        } else {
            NewColumn::Combine
        },
    }
}

/// Two numbers combined, given their sum.
pub open spec fn combined_number(reducer: Reducer, old_value: Num, new_value: Num, sum: Num) -> Num {
    match reducer {
        Reducer::Sum => sum,
        Reducer::Max => old_value.larger(new_value),
        Reducer::Min => old_value.smaller(new_value),
        _ => old_value,
    }
}

/// A number, or zero.
pub open spec fn number_or_zero(n: Option<Num>) -> Num {
    match n {
        Some(x) => x,
        None => Num { key: 0 },
    }
}

fn or_zero(n: Option<Num>) -> (r: Num)
    ensures
        r == number_or_zero(n),
{
    match n {
        Some(x) => x,
        None => Num { key: 0 },
    }
}

/// The number of a row after new aggregates: what is missing counts as zero where there is an
/// aggregate, and a row without one keeps what it has. `sums` holds, for each row, the sum of its
/// number and its aggregate.
pub open spec fn accumulated_number(
    reducer: Reducer,
    existing: Seq<Option<Num>>,
    gathered: Seq<Option<Num>>,
    sums: Seq<Num>,
    groups: Seq<u32>,
    i: int,
) -> Option<Num> {
    match aggregate_of(groups, i, groups.len() as int) {
        Some(k) => Some(
            combined_number(
                reducer,
                number_or_zero(existing[i]),
                number_or_zero(gathered[k]),
                sums[i],
            ),
        ),
        None => existing[i],
    }
}

/// Combines the numbers of a column with new aggregates: a row without aggregate stays as it is,
/// and what is missing counts as zero where there is one. `sums` holds, for each row, the sum of
/// its number and its aggregate.
pub fn accumulate_numbers(
    reducer: &Reducer,
    existing: &Vec<Option<Num>>,
    gathered: &Vec<Option<Num>>,
    sums: &Vec<Num>,
    groups: &Vec<u32>,
) -> (r: Vec<Option<Num>>)
    requires
        gathered.len() == groups.len(),
        sums.len() == existing.len(),
    ensures
        r@ == Seq::new(
            existing@.len(),
            |i: int| accumulated_number(*reducer, existing@, gathered@, sums@, groups@, i),
        ),
        forall|i: int|
            0 <= i < existing.len() && aggregate_of(groups@, i, groups.len() as int) is None
                ==> #[trigger] r@[i] == existing@[i],
{
    let n: usize = existing.len();
    let rows = aggregate_rows(groups, n);
    let mut r: Vec<Option<Num>> = Vec::new();
    let mut i: usize = 0;
    while i < n
        invariant
            i <= n,
            n == existing.len(),
            gathered.len() == groups.len(),
            sums.len() == n,
            rows@ == aggregates(groups@, n as nat),
            rows.len() == n,
            forall|i: int|
                0 <= i < rows.len() && (#[trigger] rows[i]) is Some ==> rows[i]->0 < groups.len(),
            r.len() == i,
            forall|j: int|
                0 <= j < i ==> #[trigger] r[j] == accumulated_number(
                    *reducer,
                    existing@,
                    gathered@,
                    sums@,
                    groups@,
                    j,
                ),
        decreases n - i,
    {
        proof {
            lemma_aggregate_bound(groups@, i as int, groups.len() as int);
        }
        let value = match rows[i] {
            None => existing[i],
            Some(k) => {
                let old_value = or_zero(existing[i]);
                let new_value = or_zero(gathered[k]);
                Some(
                    match *reducer {
                        Reducer::Sum => sums[i],
                        Reducer::Max => old_value.max(new_value),
                        Reducer::Min => old_value.min(new_value),
                        _ => old_value,
                    },
                )
            },
        };
        r.push(value);
        i += 1;
    }
    r
}

/// A text, or the empty one.
pub open spec fn text_or_empty(t: Option<Seq<char>>) -> Seq<char> {
    match t {
        Some(s) => s,
        None => Seq::empty(),
    }
}

/// Two texts combined.
pub open spec fn combined_text(reducer: Reducer, old_text: Seq<char>, new_text: Seq<char>) -> Seq<char> {
    match reducer {
        Reducer::Max => if text_lt(old_text, new_text) {
            new_text
        } else {
            old_text
        },
        Reducer::Min => if text_lt(new_text, old_text) {
            new_text
        } else {
            old_text
        },
        _ => old_text,
    }
}

fn copy_or_empty(t: &Option<String>) -> (r: String)
    ensures
        r@ == text_or_empty(opt_text(*t)),
{
    match t {
        Some(s) => s.clone(),
        None => String::new(),
    }
}

/// The text of a row after new aggregates: what is missing counts as empty where there is an
/// aggregate, and a row without one keeps what it has.
pub open spec fn accumulated_text(
    reducer: Reducer,
    existing: Seq<Option<String>>,
    gathered: Seq<Option<String>>,
    groups: Seq<u32>,
    i: int,
) -> Option<Seq<char>> {
    match aggregate_of(groups, i, groups.len() as int) {
        Some(k) => Some(
            combined_text(
                reducer,
                text_or_empty(opt_text(existing[i])),
                text_or_empty(opt_text(gathered[k])),
            ),
        ),
        None => opt_text(existing[i]),
    }
}

/// Combines the texts of a column with new aggregates: a row without aggregate stays as it is, and
/// what is missing counts as empty where there is one.
pub fn accumulate_texts(
    reducer: &Reducer,
    existing: &Vec<Option<String>>,
    gathered: &Vec<Option<String>>,
    groups: &Vec<u32>,
) -> (r: Vec<Option<String>>)
    requires
        gathered.len() == groups.len(),
    ensures
        r.len() == existing.len(),
        forall|i: int|
            0 <= i < r.len() ==> opt_text(#[trigger] r[i]) == accumulated_text(
                *reducer,
                existing@,
                gathered@,
                groups@,
                i,
            ),
        forall|i: int|
            0 <= i < r.len() && aggregate_of(groups@, i, groups.len() as int) is None ==> opt_text(
                #[trigger] r[i],
            ) == opt_text(existing@[i]),
{
    let n: usize = existing.len();
    let rows = aggregate_rows(groups, n);
    let mut r: Vec<Option<String>> = Vec::new();
    let mut i: usize = 0;
    while i < n
        invariant
            i <= n,
            n == existing.len(),
            gathered.len() == groups.len(),
            rows@ == aggregates(groups@, n as nat),
            rows.len() == n,
            forall|i: int|
                0 <= i < rows.len() && (#[trigger] rows[i]) is Some ==> rows[i]->0 < groups.len(),
            r.len() == i,
            forall|j: int|
                0 <= j < i ==> opt_text(#[trigger] r[j]) == accumulated_text(
                    *reducer,
                    existing@,
                    gathered@,
                    groups@,
                    j,
                ),
        decreases n - i,
    {
        proof {
            lemma_aggregate_bound(groups@, i as int, groups.len() as int);
        }
        let text = match rows[i] {
            None => clone_opt_text(&existing[i]),
            Some(k) => {
                let old_text = copy_or_empty(&existing[i]);
                let new_text = copy_or_empty(&gathered[k]);
                Some(
                    match *reducer {
                        Reducer::Max => if text_less(&old_text, &new_text) {
                            new_text
                        } else {
                            old_text
                        },
                        Reducer::Min => if text_less(&new_text, &old_text) {
                            new_text
                        } else {
                            old_text
                        },
                        _ => old_text,
                    },
                )
            },
        };
        assert(opt_text(text) == accumulated_text(
            *reducer,
            existing@,
            gathered@,
            groups@,
            i as int,
        ));
        r.push(text);
        i += 1;
    }
    r
}

/// What fills the rows of a column that have no aggregate.
#[derive(Debug)]
pub enum DefaultFill {
    Number(Num),
    Text(String),
    Nulls,
}

/// The kind of a column, as far as defaults tell columns apart.
#[derive(Debug, Clone, Copy, PartialEq, Eq, Structural)]
pub enum ColumnKind {
    Number,
    Text,
    Other,
}

/// The declared default as a value of the column: a number for a number column, a text for a text
/// column, zero or the empty text where the default is of another kind, and nothing else.
pub fn default_fill(value: &YamlValue, kind: ColumnKind) -> (r: DefaultFill)
    ensures
        match kind {
            ColumnKind::Number => r matches DefaultFill::Number(n) && n == number_or_zero(
                value.model().num(),
            ),
            ColumnKind::Text => r matches DefaultFill::Text(s) && s@ == match value.model() {
                YamlModel::Text(t) => t,
                _ => Seq::<char>::empty(),
            },
            ColumnKind::Other => r is Nulls,
        },
{
    match kind {
        ColumnKind::Number => DefaultFill::Number(or_zero(value.as_num())),
        ColumnKind::Text => DefaultFill::Text(
            match value.as_str() {
                Some(s) => s.to_owned(),
                None => String::new(),
            },
        ),
        ColumnKind::Other => DefaultFill::Nulls,
    }
}

/// The column of drawn rows that lists the slots of each.
pub open spec fn slots_column() -> Seq<char> {
    "_staging_refs"@
}

/// How values are gathered in a column.
#[derive(Debug)]
pub struct GatherPlan {
    /// The source lists the slots of each of its rows, and is unnested first: one row for every
    /// slot.
    pub unnest: bool,
    /// The column that the values are gathered in.
    pub column: usize,
    pub how: NewColumn,
}

/// Why values cannot be gathered: the column is missing, or aggregates cannot be combined with
/// what it holds.
pub open spec fn gather_problem(
    linked: Seq<Seq<char>>,
    field: Seq<char>,
    reducer: Reducer,
    first: bool,
    kind: ColumnKind,
    shown: Seq<char>,
) -> Option<Seq<PartModel>> {
    if column_at(linked, field, 0) is None {
        Some(said("AccumulateToLinked: field '"@ + field + "' not found in linked batch"@))
    } else if column_for(reducer, first) is Combine && kind is Other {
        Some(
            said(
                "accumulate_scalar_cumulative: unsupported data type "@ + shown + " for reducer"@,
            ),
        )
    } else {
        None
    }
}

/// How values are gathered in a column of the linked rows. `kind` and `shown` tell its type.
pub fn plan_accumulation(
    source: &Vec<String>,
    linked: &Vec<String>,
    field: &str,
    reducer: &Reducer,
    first: bool,
    kind: ColumnKind,
    shown: &str,
) -> (r: Result<GatherPlan, Problem>)
    ensures
        match gather_problem(texts(linked@), field@, *reducer, first, kind, shown@) {
            Some(m) => r matches Err(p) && p.model() == m,
            None => r matches Ok(g) && {
                &&& g.unnest == texts(source@).contains(slots_column())
                &&& Some(g.column as int) == column_at(texts(linked@), field@, 0)
                &&& g.column < linked.len()
                &&& g.how == column_for(*reducer, first)
            },
        },
{
    let unnest = holds_text(source, "_staging_refs");
    match find_column(linked, field) {
        None => Err(
            problem(join3("AccumulateToLinked: field '", field, "' not found in linked batch")),
        ),
        Some(column) => {
            let how = new_column(reducer, first);
            let combines = match how {
                NewColumn::Combine => true,
                _ => false,
            };
            let other = match kind {
                ColumnKind::Other => true,
                _ => false,
            };
            if combines && other {
                Err(
                    problem(
                        join3(
                            "accumulate_scalar_cumulative: unsupported data type ",
                            shown,
                            " for reducer",
                        ),
                    ),
                )
            } else {
                Ok(GatherPlan { unnest, column, how })
            }
        },
    }
}

/// A text of a row without aggregate stays, missing or not, whatever the reducer and however often
/// values are gathered.
pub proof fn law_texts_without_aggregate_stay(
    reducer: Reducer,
    existing: Seq<Option<String>>,
    gathered: Seq<Option<String>>,
    groups: Seq<u32>,
    i: int,
)
    requires
        0 <= i < existing.len(),
        forall|k: int| 0 <= k < groups.len() ==> #[trigger] groups[k] != i,
    ensures
        accumulated_text(reducer, existing, gathered, groups, i) == opt_text(existing[i]),
{
    lemma_aggregate_bound(groups, i, groups.len() as int);
}

/// A number of a row without aggregate stays, missing or not, whatever the reducer and however
/// often values are gathered.
pub proof fn law_numbers_without_aggregate_stay(
    reducer: Reducer,
    existing: Seq<Option<Num>>,
    gathered: Seq<Option<Num>>,
    sums: Seq<Num>,
    groups: Seq<u32>,
    i: int,
)
    requires
        0 <= i < existing.len(),
        forall|k: int| 0 <= k < groups.len() ==> #[trigger] groups[k] != i,
    ensures
        accumulated_number(reducer, existing, gathered, sums, groups, i) == existing[i],
{
    lemma_aggregate_bound(groups, i, groups.len() as int);
}

/// A number of a row with an aggregate is combined with it, once, whatever was gathered before: the
/// sum of both for sums, the larger or the smaller one for bounds.
pub proof fn law_numbers_with_aggregate_combine(
    reducer: Reducer,
    existing: Seq<Option<Num>>,
    gathered: Seq<Option<Num>>,
    sums: Seq<Num>,
    groups: Seq<u32>,
    i: int,
    k: int,
)
    requires
        0 <= i < existing.len(),
        0 <= k < groups.len(),
        groups[k] == i,
        forall|l: int| 0 <= l < groups.len() && l != k ==> #[trigger] groups[l] != i,
        existing[i] is Some,
        gathered[k] is Some,
    ensures
        accumulated_number(reducer, existing, gathered, sums, groups, i) == Some(
            match reducer {
                Reducer::Sum => sums[i],
                Reducer::Max => existing[i]->0.larger(gathered[k]->0),
                Reducer::Min => existing[i]->0.smaller(gathered[k]->0),
                _ => existing[i]->0,
            },
        ),
{
    lemma_only_aggregate(groups, i, k, groups.len() as int);
}

/// The sum that is handed in for row `i` is `plus` of its number and its aggregate.
pub open spec fn adds_up(
    plus: spec_fn(Num, Num) -> Num,
    existing: Seq<Option<Num>>,
    gathered: Seq<Option<Num>>,
    sums: Seq<Num>,
    groups: Seq<u32>,
    i: int,
) -> bool {
    aggregate_of(groups, i, groups.len() as int) matches Some(k) ==> sums[i] == plus(
        number_or_zero(existing[i]),
        number_or_zero(gathered[k]),
    )
}

/// A number and, one after the other, all aggregates that the first `n` gatherings have for row
/// `i`, added up by `plus`.
pub open spec fn running_sum(
    plus: spec_fn(Num, Num) -> Num,
    start: Option<Num>,
    gathered: Seq<Seq<Option<Num>>>,
    groups: Seq<Seq<u32>>,
    i: int,
    n: int,
) -> Option<Num>
    decreases n,
{
    if n <= 0 {
        start
    } else {
        let before = running_sum(plus, start, gathered, groups, i, n - 1);
        match aggregate_of(groups[n - 1], i, groups[n - 1].len() as int) {
            Some(k) => Some(
                plus(number_or_zero(before), number_or_zero(gathered[n - 1][k])),
            ),
            None => before,
        }
    }
}

/// Gathering sums again and again adds each aggregate of a row to what the row held before, once
/// and in the order of the gatherings, and leaves the row alone where there is none. `rows[n]`
/// holds the numbers after `n` gatherings, and `plus` is any addition.
pub proof fn law_repeated_sums_add_up(
    plus: spec_fn(Num, Num) -> Num,
    rows: Seq<Seq<Option<Num>>>,
    gathered: Seq<Seq<Option<Num>>>,
    sums: Seq<Seq<Num>>,
    groups: Seq<Seq<u32>>,
    i: int,
    n: int,
)
    requires
        0 <= n < rows.len(),
        forall|s: int|
            0 <= s < n ==> adds_up(plus, rows[s], gathered[s], sums[s], #[trigger] groups[s], i),
        forall|s: int|
            0 <= s < n ==> rows[s + 1][i] == accumulated_number(
                Reducer::Sum,
                rows[s],
                gathered[s],
                sums[s],
                #[trigger] groups[s],
                i,
            ),
    ensures
        rows[n][i] == running_sum(plus, rows[0][i], gathered, groups, i, n),
    decreases n,
{
    if n > 0 {
        law_repeated_sums_add_up(plus, rows, gathered, sums, groups, i, n - 1);
        assert(adds_up(plus, rows[n - 1], gathered[n - 1], sums[n - 1], groups[n - 1], i));
        assert(rows[n - 1 + 1][i] == rows[n][i]);
    }
}

proof fn lemma_only_aggregate(groups: Seq<u32>, i: int, k: int, n: int)
    requires
        0 <= k < n <= groups.len(),
        groups[k] == i,
        forall|l: int| 0 <= l < groups.len() && l != k ==> #[trigger] groups[l] != i,
    ensures
        aggregate_of(groups, i, n) == Some(k),
    decreases n,
{
    if n - 1 != k {
        lemma_only_aggregate(groups, i, k, n - 1);
    }
}

/// Gathering never drops a list entry: the parts of the first `n` rows add up to the last offset.
pub proof fn law_gathered_lists_are_whole(l: Lists, n: int)
    requires
        0 <= n <= usize::MAX,
        l.groups.len() <= usize::MAX,
    ensures
        l.offset(n) == pieces_len(l, n),
    decreases n,
{
    if n > 0 {
        law_gathered_lists_are_whole(l, n - 1);
        lemma_aggregate_bound(l.groups, n - 1, l.groups.len() as int);
        reveal_with_fuel(part_lens, 3);
    }
}

/// The lengths of the parts of the first `n` rows, added up.
pub open spec fn pieces_len(l: Lists, n: int) -> int
    decreases n,
{
    if n <= 0 {
        0
    } else {
        pieces_len(l, n - 1) + part_lens(l, l.row_pieces(n - 1), l.row_pieces(n - 1).len() as int)
    }
}

/// The length of one part.
pub open spec fn part_len(l: Lists, p: Piece) -> int {
    match p {
        Piece::Existing(row) => match l.existing {
            Some(e) => e[row as int] as int,
            None => 0,
        },
        Piece::Gathered(k) => l.gathered[k as int] as int,
    }
}

/// The lengths of the first `n` parts, added up.
pub open spec fn part_lens(l: Lists, s: Seq<Piece>, n: int) -> int
    decreases n,
{
    if n <= 0 {
        0
    } else {
        part_lens(l, s, n - 1) + part_len(l, s[n - 1])
    }
}

} // verus!
