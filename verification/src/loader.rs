//! Seeding the watchlist from a spreadsheet: the row-selection rules.
//! Opening the workbook and rendering its cells to plain values happens
//! outside the library; the rules that decide which rows become records
//! are verified here.

use vstd::prelude::*;
use crate::text;

verus! {

/// One spreadsheet cell as the library reads it: empty, a text cell, or
/// any other kind of cell with its rendered form.
pub enum CellValue {
    Empty,
    Text(String),
    Other(String),
}

/// One row to be loaded into the watchlist.
pub struct Item {
    pub name: String,
    pub embedding: Vec<i64>,
    pub status: String,
    pub is_removed: bool,
}

/// The rendered form of a cell.
pub open spec fn render(c: CellValue) -> Seq<char> {
    match c {
        CellValue::Empty => Seq::empty(),
        CellValue::Text(s) => s@,
        CellValue::Other(s) => s@,
    }
}

/// Blank means ASCII whitespace only; exotic Unicode spaces count as
/// content.
pub open spec fn is_blank(s: Seq<char>) -> bool {
    forall|i: int| 0 <= i < s.len() ==> text::is_space(#[trigger] s[i])
}

/// The removed flag of the marker cell: an empty cell or a blank text cell
/// means not removed; anything else means removed.
pub open spec fn cell_removed(c: CellValue) -> bool {
    match c {
        CellValue::Empty => false,
        CellValue::Text(s) => !is_blank(s@),
        CellValue::Other(_) => true,
    }
}

/// The name of a row: the second column's rendered form.
pub open spec fn row_name(row: Seq<CellValue>) -> Seq<char> {
    if row.len() > 1 {
        render(row[1])
    } else {
        Seq::empty()
    }
}

/// The removed flag of a row: the fifth column's marker.
pub open spec fn row_removed(row: Seq<CellValue>) -> bool {
    if row.len() > 4 {
        cell_removed(row[4])
    } else {
        false
    }
}

/// A row becomes an item when it has at least five columns and is not
/// entirely empty (no name and not marked removed).
pub open spec fn row_kept(row: Seq<CellValue>) -> bool {
    row.len() >= 5 && !(row_name(row).len() == 0 && !row_removed(row))
}

/// Indices at or past `from` whose rows are kept, in order.
pub open spec fn kept_idx(rows: Seq<Vec<CellValue>>, from: int) -> Seq<int>
    decreases rows.len(),
{
    if rows.len() == 0 || rows.len() <= from {
        Seq::empty()
    } else {
        let rest = kept_idx(rows.drop_last(), from);
        if row_kept(rows.last()@) {
            rest.push(rows.len() - 1)
        } else {
            rest
        }
    }
}

pub open spec fn item_matches(it: Item, row: Seq<CellValue>, status: Seq<char>) -> bool {
    &&& it.name@ == row_name(row)
    &&& it.embedding@ == Seq::<i64>::empty()
    &&& it.status@ == status
    &&& it.is_removed == row_removed(row)
}

fn is_blank_exec(s: &str) -> (r: bool)
    ensures
        r == is_blank(s@),
{
    let v = text::to_char_vec(s);
    let mut i: usize = 0;
    while i < v.len()
        invariant
            0 <= i <= v@.len(),
            v@ == s@,
            forall|j: int| 0 <= j < i ==> text::is_space(#[trigger] v@[j]),
        decreases v@.len() - i,
    {
        if !text::is_space_exec(v[i]) {
            return false;
        }
        i = i + 1;
    }
    true
}

/// Applies the loading rules to rendered rows: nothing is loaded from a
/// sheet with no rows, fewer than four rows, or fewer than ten columns;
/// otherwise the rows after the three header rows that pass `row_kept`
/// become items in order, with the given status and an empty embedding.
pub fn load_rows(rows: &Vec<Vec<CellValue>>, width: usize, status: &str) -> (r: Vec<Item>)
    ensures
        (rows@.len() < 4 || width < 10) ==> r@.len() == 0,
        (rows@.len() >= 4 && width >= 10) ==> ({
            let ks = kept_idx(rows@, 3);
            &&& r@.len() == ks.len()
            &&& forall|j: int|
                0 <= j < r@.len() ==> 0 <= #[trigger] ks[j] < rows@.len() && item_matches(
                    r@[j],
                    rows@[ks[j]]@,
                    status@,
                )
        }),
{
    let mut r: Vec<Item> = Vec::new();
    if rows.len() < 4 || width < 10 {
        return r;
    }
    proof {
        lemma_kept_idx_props(rows@, 3);
        assert(kept_idx(rows@.take(3), 3) =~= Seq::<int>::empty());
    }
    let mut i: usize = 3;
    while i < rows.len()
        invariant
            3 <= i <= rows@.len(),
            status@.len() >= 0,
            ({
                let ks = kept_idx(rows@.take(i as int), 3);
                &&& r@.len() == ks.len()
                &&& forall|j: int|
                    0 <= j < r@.len() ==> 0 <= #[trigger] ks[j] < rows@.len() && item_matches(
                        r@[j],
                        rows@[ks[j]]@,
                        status@,
                    )
            }),
        decreases rows@.len() - i,
    {
        proof {
            assert(rows@.take(i + 1).drop_last() =~= rows@.take(i as int));
            assert(rows@.take(i + 1).last() == rows@[i as int]);
        }
        let row = &rows[i];
        if row.len() < 5 {
            i = i + 1;
            continue;
        }
        let name: String = match &row[1] {
            CellValue::Empty => String::new(),
            CellValue::Text(s) => s.clone(),
            CellValue::Other(s) => s.clone(),
        };
        let is_removed: bool = match &row[4] {
            CellValue::Empty => false,
            CellValue::Text(s) => !is_blank_exec(s.as_str()),
            CellValue::Other(_) => true,
        };
        if name.as_str().is_empty() && !is_removed {
            i = i + 1;
            continue;
        }
        let ghost old_r = r@;
        r.push(
            Item {
                name,
                embedding: Vec::new(),
                status: String::from_str(status),
                is_removed,
            },
        );
        proof {
            let ks1 = kept_idx(rows@.take(i + 1), 3);
            let ks0 = kept_idx(rows@.take(i as int), 3);
            assert(ks1 =~= ks0.push(i as int));
            assert forall|j: int| 0 <= j < r@.len() implies 0 <= #[trigger] ks1[j] < rows@.len()
                && item_matches(r@[j], rows@[ks1[j]]@, status@) by {
                if j < r@.len() - 1 {
                    assert(r@[j] == old_r[j]);
                    assert(ks1[j] == ks0[j]);
                } else {
                    assert(ks1[j] == i as int);
                    assert(r@[j] == r@.last());
                }
            }
        }
        i = i + 1;
    }
    proof {
        assert(rows@.take(rows@.len() as int) =~= rows@);
    }
    r
}

proof fn lemma_kept_idx_props(rows: Seq<Vec<CellValue>>, from: int)
    ensures
        forall|j: int|
            0 <= j < kept_idx(rows, from).len() ==> from <= #[trigger] kept_idx(rows, from)[j]
                < rows.len(),
    decreases rows.len(),
{
    if rows.len() > 0 && rows.len() > from {
        lemma_kept_idx_props(rows.drop_last(), from);
        let rest = kept_idx(rows.drop_last(), from);
        assert forall|j: int| 0 <= j < kept_idx(rows, from).len() implies from
            <= #[trigger] kept_idx(rows, from)[j] < rows.len() by {
            if j < rest.len() {
                assert(kept_idx(rows, from)[j] == rest[j]);
            }
        }
    }
}

} // verus!
