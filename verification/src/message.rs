//! Problems reported to the author of a dataset file.
use vstd::prelude::*;

use crate::models::Num;

verus! {

/// One piece of a message: literal text, or a number still to be written out.
#[derive(Debug)]
pub enum Part {
    Text(String),
    Number(Num),
}

/// What a [`Part`] says, free of representation.
pub enum PartModel {
    Text(Seq<char>),
    Number(Num),
}

impl Part {
    /// The content of this piece, free of representation.
    pub open spec fn model(self) -> PartModel {
        match self {
            Part::Text(s) => PartModel::Text(s@),
            Part::Number(n) => PartModel::Number(n),
        }
    }
}

/// A problem, as the pieces of its message in reading order.
#[derive(Debug)]
pub struct Problem {
    pub parts: Vec<Part>,
}

impl Problem {
    /// The pieces of the message.
    pub open spec fn model(self) -> Seq<PartModel> {
        Seq::new(self.parts@.len(), |i: int| self.parts@[i].model())
    }
}

/// The message made of one piece of text.
pub open spec fn said(text: Seq<char>) -> Seq<PartModel> {
    seq![PartModel::Text(text)]
}

/// The problem of a result, if it has one.
pub open spec fn problem_of<T>(r: Result<T, Problem>) -> Option<Seq<PartModel>> {
    match r {
        Ok(_) => None,
        Err(p) => Some(p.model()),
    }
}

/// The problem whose message is one piece of text.
pub open spec fn says(text: Seq<char>) -> Option<Seq<PartModel>> {
    Some(said(text))
}

/// The first of two problems, if there is any.
pub open spec fn first_of(a: Option<Seq<PartModel>>, b: Option<Seq<PartModel>>) -> Option<
    Seq<PartModel>,
> {
    if a is Some {
        a
    } else {
        b
    }
}

/// The message made of a piece of text and a number.
pub open spec fn measured(a: Seq<char>, x: Num) -> Seq<PartModel> {
    seq![PartModel::Text(a), PartModel::Number(x)]
}

/// The failure whose message is `text`.
pub fn fail(text: String) -> (r: Result<(), Problem>)
    ensures
        problem_of(r) == says(text@),
{
    Err(problem(text))
}

/// The failure whose message is `a` and a number.
pub fn fail_measured(a: String, x: Num) -> (r: Result<(), Problem>)
    ensures
        problem_of(r) == Some(measured(a@, x)),
{
    let mut parts: Vec<Part> = Vec::new();
    parts.push(Part::Text(a));
    parts.push(Part::Number(x));
    let p = Problem { parts };
    assert(p.model() =~= measured(a@, x));
    Err(p)
}

/// The problem whose message is `text`.
pub fn problem(text: String) -> (r: Problem)
    ensures
        r.model() == said(text@),
{
    let mut parts: Vec<Part> = Vec::new();
    parts.push(Part::Text(text));
    let r = Problem { parts };
    assert(r.model() =~= said(text@));
    r
}

/// Two texts, one after the other.
pub fn join2(a: &str, b: &str) -> (r: String)
    ensures
        r@ == a@ + b@,
{
    a.to_owned().concat(b)
}

/// Three texts, one after the other.
pub fn join3(a: &str, b: &str, c: &str) -> (r: String)
    ensures
        r@ == a@ + b@ + c@,
{
    a.to_owned().concat(b).concat(c)
}

/// Four texts, one after the other.
pub fn join4(a: &str, b: &str, c: &str, d: &str) -> (r: String)
    ensures
        r@ == a@ + b@ + c@ + d@,
{
    a.to_owned().concat(b).concat(c).concat(d)
}

/// Five texts, one after the other.
pub fn join5(a: &str, b: &str, c: &str, d: &str, e: &str) -> (r: String)
    ensures
        r@ == a@ + b@ + c@ + d@ + e@,
{
    a.to_owned().concat(b).concat(c).concat(d).concat(e)
}

/// Six texts, one after the other.
pub fn join6(a: &str, b: &str, c: &str, d: &str, e: &str, f: &str) -> (r: String)
    ensures
        r@ == a@ + b@ + c@ + d@ + e@ + f@,
{
    a.to_owned().concat(b).concat(c).concat(d).concat(e).concat(f)
}

/// Seven texts, one after the other.
pub fn join7(a: &str, b: &str, c: &str, d: &str, e: &str, f: &str, g: &str) -> (r: String)
    ensures
        r@ == a@ + b@ + c@ + d@ + e@ + f@ + g@,
{
    a.to_owned().concat(b).concat(c).concat(d).concat(e).concat(f).concat(g)
}

/// The problem whose message is `a`, a number, `b`, a number and `c`.
pub fn numbered_problem(a: String, x: Num, b: &str, y: Num, c: &str) -> (r: Problem)
    ensures
        r.model() == numbered(a@, x, b@, y, c@),
{
    let mut parts: Vec<Part> = Vec::new();
    parts.push(Part::Text(a));
    parts.push(Part::Number(x));
    parts.push(Part::Text(b.to_owned()));
    parts.push(Part::Number(y));
    parts.push(Part::Text(c.to_owned()));
    let r = Problem { parts };
    assert(r.model() =~= numbered(a@, x, b@, y, c@));
    r
}

/// The message made of `a`, a number, `b`, a number and `c`.
pub open spec fn numbered(a: Seq<char>, x: Num, b: Seq<char>, y: Num, c: Seq<char>) -> Seq<
    PartModel,
> {
    seq![
        PartModel::Text(a),
        PartModel::Number(x),
        PartModel::Text(b),
        PartModel::Number(y),
        PartModel::Text(c),
    ]
}

} // verus!
