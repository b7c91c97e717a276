//! The rows of the status report, in name order.

use vstd::prelude::*;

use crate::config;
use crate::config::{BlurConfig, Resolved};
use crate::proto;
use crate::proto::{BlurStatus, OutputStatus, Source};
use crate::text;
use crate::text::str_precedes;

verus! {

// ------------------------------------------------------------------- model

/// The blur part of a report.
pub open spec fn blur_report(blur: BlurConfig, overview_open: bool) -> BlurStatus {
    BlurStatus {
        enable: blur.enable,
        radius: blur.radius,
        dim_bits: blur.dim_bits,
        active: overview_open && blur.enable,
    }
}

/// The row of a slot that no output shows.
pub open spec fn idle_row(
    name: Seq<char>,
    resolved: config::ResolvedSpec,
    overridden: bool,
) -> proto::RowSpec {
    proto::RowSpec {
        name,
        logical: None,
        source: proto::source_of(resolved.path),
        mode: resolved.mode,
        color: resolved.color,
        overridden,
        loaded: false,
        error: None,
    }
}

/// `rows` with `row` put in behind every row whose name does not come after its
/// own.
pub open spec fn inserted(rows: Seq<proto::RowSpec>, row: proto::RowSpec) -> Seq<proto::RowSpec>
    decreases rows.len(),
{
    if rows.len() == 0 || !text::precedes(row.name, rows.last().name) {
        rows.push(row)
    } else {
        inserted(rows.drop_last(), row).push(rows.last())
    }
}

/// `rows` sorted by name, rows of one name in the order in which they came.
pub open spec fn by_name(rows: Seq<proto::RowSpec>) -> Seq<proto::RowSpec>
    decreases rows.len(),
{
    if rows.len() == 0 {
        rows
    } else {
        inserted(by_name(rows.drop_last()), rows.last())
    }
}

/// No row comes after one that its name precedes.
pub open spec fn in_name_order(rows: Seq<proto::RowSpec>) -> bool {
    forall|i: int, j: int|
        0 <= i < j < rows.len() ==> !text::precedes(
            (#[trigger] rows[j]).name,
            (#[trigger] rows[i]).name,
        )
}

// -------------------------------------------------------------------- code

/// The blur part of a report.
pub fn blur_status(blur: &BlurConfig, overview_open: bool) -> (r: BlurStatus)
    ensures
        r == blur_report(*blur, overview_open),
        r.enable == blur.enable,
        r.radius == blur.radius,
        r.dim_bits == blur.dim_bits,
        r.active == (overview_open && blur.enable),
{
    BlurStatus {
        enable: blur.enable,
        radius: blur.radius,
        dim_bits: blur.dim_bits,
        active: overview_open && blur.enable,
    }
}

/// The row of a slot that no output shows.
pub fn idle_status(name: &str, resolved: &Resolved, overridden: bool) -> (r: OutputStatus)
    ensures
        r@ == idle_row(name@, resolved@, overridden),
        r.name@ == name@,
        r.mode == resolved.mode,
        r.color == resolved.color,
        r.overridden == overridden,
        r.logical is None && !r.loaded && r.error is None,
{
    OutputStatus {
        name: name.to_string(),
        logical: None,
        source: Source::of(&resolved.path),
        mode: resolved.mode,
        color: resolved.color,
        overridden,
        loaded: false,
        error: None,
    }
}

/// Put `row` where its name belongs.
pub fn insert_row(rows: &mut Vec<OutputStatus>, row: OutputStatus)
    ensures
        proto::rows(final(rows)@) == inserted(proto::rows(old(rows)@), row@),
{
    let ghost all = proto::rows(rows@);
    let mut k: usize = rows.len();
    assert(all.take(k as int) =~= all);
    assert(inserted(all, row@) + all.skip(k as int) =~= inserted(all, row@));
    while k > 0 && str_precedes(row.name.as_str(), rows[k - 1].name.as_str())
        invariant
            k <= rows@.len(),
            all == proto::rows(rows@),
            inserted(all.take(k as int), row@) + all.skip(k as int) == inserted(all, row@),
        decreases k,
    {
        proof {
            let head = all.take(k as int);
            assert(head.last() == rows@[k - 1]@);
            assert(head.drop_last() =~= all.take(k - 1));
            assert(inserted(all.take(k - 1), row@).push(head.last()) + all.skip(k as int)
                =~= inserted(all.take(k - 1), row@) + all.skip(k - 1));
        }
        k -= 1;
    }
    let ghost row_view = row@;
    proof {
        let head = all.take(k as int);
        if k > 0 {
            assert(head.last() == rows@[k - 1]@);
        }
        assert(inserted(head, row@) == head.push(row@));
        assert(head.push(row@) + all.skip(k as int) =~= all.insert(k as int, row@));
    }
    rows.insert(k, row);
    assert(proto::rows(rows@) =~= all.insert(k as int, row_view));
}

// -------------------------------------------------------------------- laws

proof fn lemma_inserted(rows: Seq<proto::RowSpec>, row: proto::RowSpec)
    requires
        in_name_order(rows),
    ensures
        in_name_order(inserted(rows, row)),
        inserted(rows, row).to_multiset() == rows.to_multiset().insert(row),
        inserted(rows, row).len() == rows.len() + 1,
        forall|i: int|
            0 <= i < rows.len() + 1 ==> #[trigger] inserted(rows, row)[i] == row || rows.contains(
                inserted(rows, row)[i],
            ),
    decreases rows.len(),
{
    broadcast use vstd::seq_lib::group_to_multiset_ensures;

    let out = inserted(rows, row);
    if rows.len() == 0 || !text::precedes(row.name, rows.last().name) {
        assert forall|i: int, j: int| 0 <= i < j < out.len() implies !text::precedes(
            (#[trigger] out[j]).name,
            (#[trigger] out[i]).name,
        ) by {
            if j == rows.len() && text::precedes(row.name, rows[i].name) {
                let last = rows.last();
                text::lemma_precedes_total(last.name, row.name);
                if i < rows.len() - 1 {
                    assert(!text::precedes(last.name, rows[i].name));
                    if text::precedes(last.name, row.name) {
                        text::lemma_precedes_transitive(last.name, row.name, rows[i].name);
                    }
                }
            }
        }
        assert forall|i: int| 0 <= i < rows.len() + 1 implies #[trigger] out[i] == row
            || rows.contains(out[i]) by {
            if i < rows.len() {
                assert(out[i] == rows[i]);
            }
        }
    } else {
        let head = rows.drop_last();
        let last = rows.last();
        lemma_inserted(head, row);
        let sub = inserted(head, row);
        assert(rows =~= head.push(last));
        assert(out.to_multiset() =~= rows.to_multiset().insert(row));
        assert forall|i: int| 0 <= i < rows.len() + 1 implies #[trigger] out[i] == row
            || rows.contains(out[i]) by {
            if i < sub.len() {
                assert(sub[i] == row || head.contains(sub[i]));
                if head.contains(sub[i]) {
                    let k = head.index_of(sub[i]);
                    assert(rows[k] == sub[i]);
                }
            } else {
                assert(out[i] == rows[rows.len() - 1]);
            }
        }
        assert forall|i: int, j: int| 0 <= i < j < out.len() implies !text::precedes(
            (#[trigger] out[j]).name,
            (#[trigger] out[i]).name,
        ) by {
            if j == out.len() - 1 {
                assert(sub[i] == row || head.contains(sub[i]));
                if sub[i] == row {
                    if text::precedes(last.name, row.name) {
                        text::lemma_precedes_transitive(row.name, last.name, row.name);
                        text::lemma_precedes_irreflexive(row.name);
                    }
                } else {
                    let k = head.index_of(sub[i]);
                    assert(rows[k] == sub[i]);
                }
            } else {
                assert(!text::precedes(sub[j].name, sub[i].name));
            }
        }
    }
}

/// A sorted report holds exactly the rows that went into it, in name order.
pub proof fn law_report_is_sorted_and_complete(rows: Seq<proto::RowSpec>)
    ensures
        in_name_order(by_name(rows)),
        by_name(rows).to_multiset() == rows.to_multiset(),
        by_name(rows).len() == rows.len(),
    decreases rows.len(),
{
    broadcast use vstd::seq_lib::group_to_multiset_ensures;

    if rows.len() > 0 {
        law_report_is_sorted_and_complete(rows.drop_last());
        lemma_inserted(by_name(rows.drop_last()), rows.last());
        assert(rows =~= rows.drop_last().push(rows.last()));
    }
}

proof fn lemma_inserted_keeps_order(
    rows: Seq<proto::RowSpec>,
    row: proto::RowSpec,
    i: int,
    j: int,
) -> (at: (int, int))
    requires
        0 <= i < j < rows.len(),
    ensures
        0 <= at.0 < at.1 < inserted(rows, row).len(),
        inserted(rows, row)[at.0] == rows[i],
        inserted(rows, row)[at.1] == rows[j],
    decreases rows.len(),
{
    if !text::precedes(row.name, rows.last().name) {
        (i, j)
    } else {
        let head = rows.drop_last();
        if j < head.len() {
            lemma_inserted_keeps_order(head, row, i, j)
        } else {
            let at = lemma_inserted_holds(head, row, i);
            (at, inserted(head, row).len() as int)
        }
    }
}

proof fn lemma_inserted_holds(rows: Seq<proto::RowSpec>, row: proto::RowSpec, i: int) -> (at: int)
    requires
        0 <= i < rows.len(),
    ensures
        0 <= at < inserted(rows, row).len(),
        inserted(rows, row)[at] == rows[i],
    decreases rows.len(),
{
    if !text::precedes(row.name, rows.last().name) || i == rows.len() - 1 {
        if !text::precedes(row.name, rows.last().name) {
            i
        } else {
            inserted(rows.drop_last(), row).len() as int
        }
    } else {
        lemma_inserted_holds(rows.drop_last(), row, i)
    }
}

/// Putting a row in moves no two others past each other.
pub proof fn law_inserting_keeps_the_order(
    rows: Seq<proto::RowSpec>,
    row: proto::RowSpec,
    i: int,
    j: int,
)
    requires
        0 <= i < j < rows.len(),
    ensures
        exists|a: int, b: int|
            0 <= a < b < inserted(rows, row).len() && #[trigger] inserted(rows, row)[a] == rows[i]
                && #[trigger] inserted(rows, row)[b] == rows[j],
{
    let at = lemma_inserted_keeps_order(rows, row, i, j);
    assert(inserted(rows, row)[at.0] == rows[i] && inserted(rows, row)[at.1] == rows[j]);
}

/// The blur part of a report repeats the settings, and blur is active exactly
/// while the overview is open and blur enabled.
pub proof fn law_blur_is_reported_as_set(blur: BlurConfig, overview_open: bool)
    ensures
        blur_report(blur, overview_open).enable == blur.enable,
        blur_report(blur, overview_open).radius == blur.radius,
        blur_report(blur, overview_open).dim_bits == blur.dim_bits,
        blur_report(blur, overview_open).active <==> overview_open && blur.enable,
{
}

/// The row of a slot that no output shows tells the wallpaper it would have, and
/// nothing of a screen.
pub proof fn law_idle_row_tells_the_wallpaper(
    name: Seq<char>,
    w: config::ResolvedSpec,
    overridden: bool,
)
    ensures
        ({
            let row = idle_row(name, w, overridden);
            &&& row.name == name && row.mode == w.mode && row.color == w.color
            &&& row.overridden == overridden
            &&& match w.path {
                Some(p) => row.source == (proto::SourceSpec::Image { path: p }),
                None => row.source is Color,
            }
            &&& row.logical is None && !row.loaded && row.error is None
        }),
{
}

} // verus!
