//! Demo mode: a paru-like session replayed without installing anything, with
//! the plan that matches it, so that the totals on screen mean something.

use vstd::prelude::*;
use crate::plan::{Plan, PlanRow, PlanView, RowView, Kind, row_views};
use crate::text::owned;

verus! {

pub open spec fn demo_row(name: Seq<char>, from: Seq<char>, to: Seq<char>, dl: int, kind: Kind) -> RowView {
    RowView {
        name,
        repo: "extra"@,
        from_version: from,
        to_version: to,
        dl: Some(dl),
        net: Some(dl / 4),
        aur: false,
        kind,
        is_downgrade: false,
    }
}

/// The plan the demo script replays: two upgrades and one new dependency.
/// Without it the download block compares against a zero denominator.
pub open spec fn demo_plan() -> PlanView {
    PlanView {
        rows: seq![
            demo_row("fastfetch"@, "2.66.0-1"@, "2.67.1-1"@, 653_824, Kind::Upgrade),
            demo_row("bat"@, "0.26.1-1"@, "0.26.1-2"@, 2_516_582, Kind::Upgrade),
            demo_row("libfoo"@, ""@, "1.4.2-1"@, 245_760, Kind::New),
        ],
        total_dl: 3_416_166,
        total_installed: 0,
        net: 854_041,
        aur_count: 0,
        unknown: 0,
    }
}

fn row(name: &str, from: &str, to: &str, dl: i64, kind: Kind) -> (r: PlanRow)
    requires
        0 <= dl,
    ensures
        r@ == demo_row(name@, from@, to@, dl as int, kind),
{
    PlanRow {
        name: owned(name),
        repo: owned("extra"),
        from_version: owned(from),
        to_version: owned(to),
        dl: Some(dl),
        net: Some(dl / 4),
        aur: false,
        kind,
        is_downgrade: false,
    }
}

pub fn plan() -> (p: Plan)
    ensures
        p@ == demo_plan(),
{
    let mut rows: Vec<PlanRow> = Vec::new();
    rows.push(row("fastfetch", "2.66.0-1", "2.67.1-1", 653_824, Kind::Upgrade));
    rows.push(row("bat", "0.26.1-1", "0.26.1-2", 2_516_582, Kind::Upgrade));
    rows.push(row("libfoo", "", "1.4.2-1", 245_760, Kind::New));
    let p = Plan { rows, total_dl: 3_416_166, total_installed: 0, net: 854_041, aur_count: 0, unknown: 0 };
    assert(p@.rows =~= demo_plan().rows);
    p
}

} // verus!
