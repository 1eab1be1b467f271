//! The JSON answers of the AUR and of the forges, as far as the logic reads
//! them: serde_json parses, and hands each value over by its kind.

use vstd::prelude::*;
use serde_json::Value;

verus! {

/// A JSON value by its kind: strings and numbers in full (a number as
/// serde_json writes it), the rest by kind alone.
#[derive(Debug)]
pub enum Leaf {
    /// Nothing at that place.
    Absent,
    Null,
    Number(String),
    Text(String),
    /// A boolean, an array or an object.
    Other,
}

pub enum LeafView {
    Absent,
    Null,
    Number(Seq<char>),
    Text(Seq<char>),
    Other,
}

impl View for Leaf {
    type V = LeafView;

    open spec fn view(&self) -> LeafView {
        match self {
            Leaf::Absent => LeafView::Absent,
            Leaf::Null => LeafView::Null,
            Leaf::Number(n) => LeafView::Number(n@),
            Leaf::Text(t) => LeafView::Text(t@),
            Leaf::Other => LeafView::Other,
        }
    }
}

pub open spec fn leaf_views(v: Seq<Leaf>) -> Seq<LeafView> {
    v.map_values(|x: Leaf| x@)
}

pub open spec fn opt_leaf(r: Option<Leaf>) -> Option<LeafView> {
    match r {
        Some(x) => Some(x@),
        None => None,
    }
}

pub open spec fn opt_column(r: Option<Option<Vec<Leaf>>>) -> Option<Option<Seq<LeafView>>> {
    match r {
        Some(Some(v)) => Some(Some(leaf_views(v@))),
        Some(None) => Some(None),
        None => None,
    }
}

/// What serde_json finds in `body` at the JSON pointer `pointer`: `None`
/// when `body` is not JSON.
pub uninterp spec fn json_leaf(body: Seq<char>, pointer: Seq<char>) -> Option<LeafView>;

/// What serde_json finds in `body` under key `field` of each element of the
/// array at `pointer`, in order: `None` when `body` is not JSON, `Some(None)`
/// when there is no array there.
pub uninterp spec fn json_column(body: Seq<char>, pointer: Seq<char>, field: Seq<char>) -> Option<Option<Seq<LeafView>>>;

/// `serde_json::from_str`, then `Value::pointer`. The result is named: it
/// depends on the two texts alone.
#[verifier::external_body]
pub(crate) fn leaf_at(body: &str, pointer: &str) -> (r: Option<Leaf>)
    ensures
        opt_leaf(r) == json_leaf(body@, pointer@),
{
    let v: Value = serde_json::from_str(body).ok()?;
    Some(match v.pointer(pointer) {
        None => Leaf::Absent,
        Some(Value::Null) => Leaf::Null,
        Some(Value::Number(n)) => Leaf::Number(n.to_string()),
        Some(Value::String(s)) => Leaf::Text(s.clone()),
        Some(_) => Leaf::Other,
    })
}

/// `serde_json::from_str`, `Value::pointer`, then `Value::get` on each element
/// of the array found there. The result is named: it depends on the three
/// texts alone.
#[verifier::external_body]
pub(crate) fn column_at(body: &str, pointer: &str, field: &str) -> (r: Option<Option<Vec<Leaf>>>)
    ensures
        opt_column(r) == json_column(body@, pointer@, field@),
{
    let v: Value = serde_json::from_str(body).ok()?;
    let Some(Value::Array(items)) = v.pointer(pointer) else { return Some(None) };
    Some(Some(items.iter().map(|i| match i.get(field) {
        None => Leaf::Absent,
        Some(Value::Null) => Leaf::Null,
        Some(Value::Number(n)) => Leaf::Number(n.to_string()),
        Some(Value::String(s)) => Leaf::Text(s.clone()),
        Some(_) => Leaf::Other,
    }).collect()))
}

/// The value at `i` of a column, `Absent` past its end.
pub open spec fn cell(c: Seq<LeafView>, i: int) -> LeafView {
    if 0 <= i < c.len() {
        c[i]
    } else {
        LeafView::Absent
    }
}

pub fn cell_at(c: &Vec<Leaf>, i: usize) -> (r: Leaf)
    ensures
        r@ == cell(leaf_views(c@), i as int),
{
    if i < c.len() {
        match &c[i] {
            Leaf::Absent => Leaf::Absent,
            Leaf::Null => Leaf::Null,
            Leaf::Number(n) => Leaf::Number(n.clone()),
            Leaf::Text(t) => Leaf::Text(t.clone()),
            Leaf::Other => Leaf::Other,
        }
    } else {
        Leaf::Absent
    }
}

} // verus!
