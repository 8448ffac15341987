//! The stored lines of an uploaded deck.

use vstd::prelude::*;
use crate::csv_parser::{rows_view, CsvRow};

verus! {

/// The store binds at most this many values in one statement.
pub const BIND_LIMIT: usize = 65535;

/// A deck line as stored: its row order (from 1) and its six fields, each
/// present only if the line has that column.
#[derive(Debug)]
pub struct SubtitleRow {
    pub row_order: u32,
    pub tag: Option<String>,
    pub sq_marker: Option<String>,
    pub audio: Option<String>,
    pub picture: Option<String>,
    pub tl_subs: Option<String>,
    pub nl_subs: Option<String>,
}

/// The text held by an optional string.
pub open spec fn opt_view(o: Option<String>) -> Option<Seq<char>> {
    match o {
        Some(s) => Some(s@),
        None => None,
    }
}

/// Field `k` of a row, if the row has it.
pub open spec fn column_of(row: Seq<Seq<char>>, k: int) -> Option<Seq<char>> {
    if 0 <= k < row.len() {
        Some(row[k])
    } else {
        None
    }
}

/// The abstract content of a stored line.
pub open spec fn subtitle_row_view(r: SubtitleRow) -> (u32, Seq<Option<Seq<char>>>) {
    (
        r.row_order,
        seq![
            opt_view(r.tag),
            opt_view(r.sq_marker),
            opt_view(r.audio),
            opt_view(r.picture),
            opt_view(r.tl_subs),
            opt_view(r.nl_subs),
        ],
    )
}

/// How many lines of a deck of `n` lines are stored: eight values are bound
/// per line, within the bind limit.
pub open spec fn stored_count(n: int) -> int {
    if n < (BIND_LIMIT / 8) as int {
        n
    } else {
        (BIND_LIMIT / 8) as int
    }
}

fn copy_field(row: &CsvRow, k: usize) -> (r: Option<String>)
    ensures
        opt_view(r) == column_of(row@, k as int),
{
    match row.field(k) {
        Some(v) => Some(v.clone()),
        None => None,
    }
}

/// The lines stored for a deck: the first lines up to the bind limit,
/// numbered from 1, with the fields they have.
pub fn subtitle_rows(data: &Vec<CsvRow>) -> (r: Vec<SubtitleRow>)
    ensures
        r@.len() == stored_count(data@.len() as int),
        forall|i: int|
            0 <= i < r@.len() ==> subtitle_row_view(#[trigger] r@[i]) == (
                (i + 1) as u32,
                Seq::new(6, |k: int| column_of(rows_view(data@)[i], k)),
            ),
{
    let limit = BIND_LIMIT / 8;
    let mut r: Vec<SubtitleRow> = Vec::new();
    let mut i: usize = 0;
    while i < data.len() && i < limit
        invariant
            i <= data.len(),
            i <= limit,
            limit == BIND_LIMIT / 8,
            r@.len() == i,
            forall|j: int|
                0 <= j < i ==> subtitle_row_view(#[trigger] r@[j]) == (
                    (j + 1) as u32,
                    Seq::new(6, |k: int| column_of(rows_view(data@)[j], k)),
                ),
        decreases data.len() - i,
    {
        let row = &data[i];
        assert(rows_view(data@)[i as int] == row@);
        let sub = SubtitleRow {
            row_order: (i + 1) as u32,
            tag: copy_field(row, 0),
            sq_marker: copy_field(row, 1),
            audio: copy_field(row, 2),
            picture: copy_field(row, 3),
            tl_subs: copy_field(row, 4),
            nl_subs: copy_field(row, 5),
        };
        assert(subtitle_row_view(sub).1 =~= Seq::new(6, |k: int| column_of(rows_view(data@)[i as int], k)));
        r.push(sub);
        i = i + 1;
    }
    r
}

} // verus!
