//! Tab-separated sentence decks: each line holds a tag, a sequence marker,
//! an audio reference, a picture reference, the target-language subtitle and
//! the native-language subtitle; a cursor walks the lines.

use vstd::prelude::*;
use crate::text::{chars_eq, chars_of, string_of};

verus! {

#[verifier::external_type_specification]
#[verifier::external_body]
pub struct ExCsvError(csv::Error);

/// The records that `csv` reads from `data` with no header line and a tab
/// delimiter (each record as its fields), or `None` when it reports an error.
pub uninterp spec fn tsv_records(data: Seq<char>) -> Option<Seq<Seq<Seq<char>>>>;

/// The character sequences of a vector of records.
pub open spec fn record_views(v: Seq<Vec<String>>) -> Seq<Seq<Seq<char>>> {
    v.map_values(|r: Vec<String>| r@.map_values(|s: String| s@))
}

/// Reads every record of `data` with `csv::ReaderBuilder` (`has_headers(false)`,
/// `delimiter(b'\t')`), stopping at the first error. The contract claims that
/// the result is `Ok` exactly when `tsv_records` has a value, and then holds
/// those records; what `csv` accepts as a record is not stated here.
#[verifier::external_body]
fn read_tsv(data: &str) -> (r: Result<Vec<Vec<String>>, csv::Error>)
    ensures
        r is Ok <==> tsv_records(data@) is Some,
        r matches Ok(v) ==> record_views(v@) == tsv_records(data@)->0,
{
    csv::ReaderBuilder::new().has_headers(false).delimiter(b'\t').from_reader(
        data.as_bytes(),
    ).into_records().map(|rec| rec.map(|rec| rec.iter().map(String::from).collect())).collect()
}

/// Why a deck could not be read.
#[derive(Debug)]
pub enum CsvError {
    /// The `csv` reader rejected a record.
    Malformed(csv::Error),
}

/// The column names, in column order.
pub open spec fn column_name(i: int) -> Seq<char> {
    if i == 0 {
        seq!['t', 'a', 'g']
    } else if i == 1 {
        seq!['s', 'q', '_', 'm', 'a', 'r', 'k', 'e', 'r']
    } else if i == 2 {
        seq!['a', 'u', 'd', 'i', 'o']
    } else if i == 3 {
        seq!['p', 'i', 'c', 't', 'u', 'r', 'e']
    } else if i == 4 {
        seq!['t', 'l', '_', 's', 'u', 'b', 's']
    } else {
        seq!['n', 'l', '_', 's', 'u', 'b', 's']
    }
}

/// Number of named columns.
pub open spec fn column_count() -> int {
    6
}

/// The fields of a record that get a column name: `zip` of the names with
/// the record keeps the first six fields.
pub open spec fn row_of(record: Seq<Seq<char>>) -> Seq<Seq<char>> {
    if record.len() <= column_count() {
        record
    } else {
        record.take(column_count())
    }
}

/// A row as a map from column name to field, as `HashMap::from_iter(zip(names, record))`.
pub open spec fn row_map(row: Seq<Seq<char>>) -> Map<Seq<char>, Seq<char>> {
    Map::new(
        |k: Seq<char>| exists|i: int| 0 <= i < row.len() && i < column_count() && k == column_name(i),
        |k: Seq<char>| row[choose|i: int| 0 <= i < row.len() && i < column_count() && k == column_name(i)],
    )
}

fn column_name_chars(i: usize) -> (v: Vec<char>)
    requires
        i < 6,
    ensures
        v@ == column_name(i as int),
{
    let v = if i == 0 {
        vec!['t', 'a', 'g']
    } else if i == 1 {
        vec!['s', 'q', '_', 'm', 'a', 'r', 'k', 'e', 'r']
    } else if i == 2 {
        vec!['a', 'u', 'd', 'i', 'o']
    } else if i == 3 {
        vec!['p', 'i', 'c', 't', 'u', 'r', 'e']
    } else if i == 4 {
        vec!['t', 'l', '_', 's', 'u', 'b', 's']
    } else {
        vec!['n', 'l', '_', 's', 'u', 'b', 's']
    };
    assert(v@ =~= column_name(i as int));
    v
}

proof fn lemma_names_distinct()
    ensures
        forall|i: int, j: int|
            0 <= i < 6 && 0 <= j < 6 && i != j ==> #[trigger] column_name(i) != #[trigger] column_name(
                j,
            ),
{
    assert forall|i: int, j: int|
        0 <= i < 6 && 0 <= j < 6 && i != j implies #[trigger] column_name(i) != #[trigger] column_name(
            j,
        ) by {
        if column_name(i) == column_name(j) {
            assert(column_name(i).len() == column_name(j).len());
            assert(column_name(i)[0] == column_name(j)[0]);
        }
    }
}

/// One line of a deck: its fields under the column names
/// `tag`, `sq_marker`, `audio`, `picture`, `tl_subs`, `nl_subs`.
#[derive(Debug, PartialEq, Eq)]
pub struct CsvRow {
    fields: Vec<String>,
}

impl View for CsvRow {
    type V = Seq<Seq<char>>;

    closed spec fn view(&self) -> Seq<Seq<char>> {
        self.fields@.map_values(|s: String| s@)
    }
}

impl CsvRow {
    /// The row that a record gives: its first six fields under the column names.
    pub fn from_record(record: Vec<String>) -> (r: CsvRow)
        ensures
            r@ == row_of(record@.map_values(|s: String| s@)),
    {
        let mut fields = record;
        if fields.len() > 6 {
            fields.truncate(6);
        }
        let r = CsvRow { fields };
        assert(r@ =~= row_of(record@.map_values(|s: String| s@)));
        r
    }

    #[verifier::type_invariant]
    spec fn bounded(self) -> bool {
        self.fields.len() <= 6
    }

    /// The number of named fields (at most six).
    pub fn len(&self) -> (n: usize)
        ensures
            n == self@.len(),
            n <= 6,
    {
        proof {
            use_type_invariant(self);
        }
        self.fields.len()
    }

    /// The field of column `i` (in the order `tag`, `sq_marker`, `audio`,
    /// `picture`, `tl_subs`, `nl_subs`), if the row has it.
    pub fn field(&self, i: usize) -> (r: Option<&String>)
        ensures
            r is Some <==> i < self@.len(),
            r matches Some(v) ==> v@ == self@[i as int],
    {
        if i < self.fields.len() {
            Some(&self.fields[i])
        } else {
            None
        }
    }

    /// The field under `key`, as `HashMap::get` on the row's map.
    pub fn get(&self, key: &str) -> (r: Option<&String>)
        ensures
            match r {
                Some(v) => row_map(self@).contains_key(key@) && v@ == row_map(self@)[key@],
                None => !row_map(self@).contains_key(key@),
            },
    {
        let k = chars_of(key);
        let mut i: usize = 0;
        while i < self.fields.len() && i < 6
            invariant
                forall|j: int| 0 <= j < i ==> column_name(j) != key@,
                k@ == key@,
            decreases 6 - i,
        {
            let name = column_name_chars(i);
            if chars_eq(&name, &k) {
                proof {
                    lemma_names_distinct();
                    let row = self@;
                    assert(row_map(row).contains_key(key@));
                    let c = choose|j: int| 0 <= j < row.len() && j < column_count() && key@ == column_name(j);
                    assert(c == i);
                }
                return Some(&self.fields[i]);
            }
            i = i + 1;
        }
        proof {
            lemma_names_distinct();
        }
        None
    }

    /// The row's `(column name, field)` pairs in column order.
    pub fn pairs(&self) -> (r: Vec<(String, String)>)
        ensures
            r@.len() == self@.len(),
            forall|i: int|
                0 <= i < r@.len() ==> (#[trigger] r@[i]).0@ == column_name(i) && r@[i].1@
                    == self@[i],
    {
        let mut r: Vec<(String, String)> = Vec::new();
        let mut i: usize = 0;
        while i < self.fields.len() && i < 6
            invariant
                i <= self.fields.len(),
                r@.len() == i,
                forall|j: int|
                    0 <= j < i ==> (#[trigger] r@[j]).0@ == column_name(j) && r@[j].1@ == self@[j],
            decreases 6 - i,
        {
            let name = string_of(&column_name_chars(i));
            r.push((name, self.fields[i].clone()));
            i = i + 1;
        }
        proof {
            use_type_invariant(self);
        }
        r
    }

    /// A copy of the row with the same fields.
    pub fn duplicate(&self) -> (r: CsvRow)
        ensures
            r@ == self@,
    {
        proof {
            use_type_invariant(self);
        }
        let mut fields: Vec<String> = Vec::new();
        let mut i: usize = 0;
        while i < self.fields.len()
            invariant
                self.fields.len() <= 6,
                i <= self.fields.len(),
                fields@.len() == i,
                forall|j: int| 0 <= j < i ==> fields@[j]@ == self.fields@[j]@,
            decreases self.fields.len() - i,
        {
            fields.push(self.fields[i].clone());
            i = i + 1;
        }
        let r = CsvRow { fields };
        assert(r@ =~= self@);
        r
    }
}


/// The rows of a deck, as their fields.
pub open spec fn rows_view(data: Seq<CsvRow>) -> Seq<Seq<Seq<char>>> {
    data.map_values(|r: CsvRow| r@)
}

/// A deck with a cursor. The cursor starts on the first row; `next_val`
/// moves it forward until the last row and `prev_val` moves it back while
/// moving back is enabled.
#[derive(Debug)]
pub struct CsvData {
    pub data: Vec<CsvRow>,
    pub index: usize,
    pub size: usize,
    pub next_state: bool,
    pub prev_state: bool,
}

/// What `next_val` does: with moving forward enabled, the cursor moves one
/// row forward, the row there is returned, and moving forward stays enabled
/// unless the cursor is now on the last row; otherwise nothing changes and
/// `None` is returned. The rows and moving back are untouched.
pub open spec fn next_step(before: CsvData, after: CsvData, r: Option<CsvRow>) -> bool {
    &&& after.sized()
    &&& before.wf() ==> after.wf()
    &&& after.rows() == before.rows()
    &&& after.prev_enabled() == before.prev_enabled()
    &&& !before.next_enabled() ==> r is None && after.cursor() == before.cursor()
        && !after.next_enabled()
    &&& before.next_enabled() ==> {
        &&& after.cursor() == before.cursor() + 1
        &&& after.next_enabled() == (after.cursor() + 1 != before.rows().len())
        &&& r matches Some(row) && row@ == before.rows()[after.cursor()]
    }
}

/// What `prev_val` does: with moving back enabled, the cursor moves one row
/// back, the row there is returned, and moving back stays enabled unless
/// the cursor is now on the first row; otherwise nothing changes and `None`
/// is returned. The rows and moving forward are untouched.
pub open spec fn prev_step(before: CsvData, after: CsvData, r: Option<CsvRow>) -> bool {
    &&& after.wf()
    &&& after.rows() == before.rows()
    &&& after.next_enabled() == before.next_enabled()
    &&& !before.prev_enabled() ==> r is None && after.cursor() == before.cursor()
        && !after.prev_enabled()
    &&& before.prev_enabled() ==> {
        &&& after.cursor() == before.cursor() - 1
        &&& after.prev_enabled() == (after.cursor() != 0)
        &&& r matches Some(row) && row@ == before.rows()[after.cursor()]
    }
}

impl CsvData {
    /// The rows of the deck.
    pub open spec fn rows(&self) -> Seq<Seq<Seq<char>>> {
        rows_view(self.data@)
    }

    /// The position of the cursor.
    pub open spec fn cursor(&self) -> int {
        self.index as int
    }

    /// Whether `next_val` moves the cursor.
    pub open spec fn next_enabled(&self) -> bool {
        self.next_state
    }

    /// Whether `prev_val` moves the cursor.
    pub open spec fn prev_enabled(&self) -> bool {
        self.prev_state
    }

    /// The recorded size is the number of rows.
    pub open spec fn sized(&self) -> bool {
        self.size == self.data@.len()
    }

    /// The bookkeeping agrees with the rows: the recorded size is the number
    /// of rows and moving back is only enabled away from the first row.
    pub open spec fn wf(&self) -> bool {
        &&& self.sized()
        &&& self.prev_state ==> 0 < self.index < self.size
    }

    /// `next_val` reads a row that exists when it moves the cursor.
    pub open spec fn next_ready(&self) -> bool {
        self.next_enabled() ==> self.cursor() + 1 < self.rows().len()
    }

    /// A deck on `data`, with the cursor on the first row, moving forward
    /// enabled and moving back disabled.
    pub fn new(data: Vec<CsvRow>) -> (r: CsvData)
        ensures
            r.rows() == rows_view(data@),
            r.cursor() == 0,
            r.next_enabled(),
            !r.prev_enabled(),
            r.wf(),
    {
        let size = data.len();
        CsvData { data, index: 0, size, next_state: true, prev_state: false }
    }

    /// Moves the cursor to the next row and returns that row; once the
    /// cursor has reached the last row, returns `None` and changes nothing.
    pub fn next_val(&mut self) -> (r: Option<CsvRow>)
        requires
            old(self).sized(),
            old(self).next_ready(),
        ensures
            next_step(*old(self), *final(self), r),
    {
        if !self.next_state {
            return None;
        }
        self.index += 1;
        if (self.index + 1) == self.size {
            self.next_state = false;
        }
        Some(self.data[self.index].duplicate())
    }

    /// Moves the cursor to the previous row and returns that row, while
    /// moving back is enabled (it becomes disabled on the first row);
    /// otherwise returns `None` and changes nothing.
    pub fn prev_val(&mut self) -> (r: Option<CsvRow>)
        requires
            old(self).wf(),
        ensures
            prev_step(*old(self), *final(self), r),
    {
        if !self.prev_state {
            return None;
        }
        self.index -= 1;
        if self.index == 0 {
            self.prev_state = false;
        }
        Some(self.data[self.index].duplicate())
    }

    /// The row under the cursor.
    pub fn current_val(&mut self) -> (r: CsvRow)
        requires
            old(self).cursor() < old(self).rows().len(),
        ensures
            *final(self) == *old(self),
            r@ == old(self).rows()[old(self).cursor()],
    {
        self.data[self.index].duplicate()
    }
}

/// Reads a deck from tab-separated text with no header line: one row per
/// record, the cursor on the first row.
pub fn csv_parse(stream_data: &str) -> (r: Result<CsvData, CsvError>)
    ensures
        r is Ok <==> tsv_records(stream_data@) is Some,
        r matches Ok(d) ==> {
            &&& d.rows() == tsv_records(stream_data@)->0.map_values(
                |rec: Seq<Seq<char>>| row_of(rec),
            )
            &&& d.cursor() == 0
            &&& d.next_enabled()
            &&& !d.prev_enabled()
            &&& d.wf()
        },
{
    let records = match read_tsv(stream_data) {
        Ok(v) => v,
        Err(e) => {
            return Err(CsvError::Malformed(e));
        },
    };
    let ghost recs = record_views(records@);
    let mut csv_res: Vec<CsvRow> = Vec::new();
    let mut i: usize = 0;
    while i < records.len()
        invariant
            i <= records.len(),
            recs == record_views(records@),
            rows_view(csv_res@) == recs.take(i as int).map_values(
                |rec: Seq<Seq<char>>| row_of(rec),
            ),
        decreases records.len() - i,
    {
        let rec = records[i].clone();
        let row = CsvRow::from_record(rec);
        let ghost before = csv_res@;
        csv_res.push(row);
        assert(rows_view(csv_res@) =~= rows_view(before).push(row@));
        assert(recs.take(i + 1) =~= recs.take(i as int).push(recs[i as int]));
        assert(rows_view(csv_res@) =~= recs.take(i + 1).map_values(
            |rec: Seq<Seq<char>>| row_of(rec),
        ));
        i = i + 1;
    }
    assert(recs.take(records.len() as int) =~= recs);
    Ok(CsvData::new(csv_res))
}


/// A fresh deck of at least two rows can move forward: `next_val` may be
/// called on it.
pub proof fn lemma_fresh_deck_ready(d: CsvData)
    requires
        d.cursor() == 0,
        d.rows().len() >= 2,
    ensures
        d.next_ready(),
{
}

/// Moving forward keeps the deck ready for the next `next_val`: from a ready
/// deck, `next_val` may be called again and again.
pub proof fn lemma_next_keeps_ready(before: CsvData, after: CsvData, r: Option<CsvRow>)
    requires
        before.wf(),
        before.next_ready(),
        next_step(before, after, r),
    ensures
        after.next_ready(),
{
}

/// The k-th move forward from a fresh deck of `n >= 2` rows returns row `k`
/// for `k < n`, and moving forward is disabled exactly when row `n - 1` has
/// been reached.
pub proof fn lemma_walk_forward(before: CsvData, after: CsvData, r: Option<CsvRow>, k: int)
    requires
        before.wf(),
        before.rows().len() >= 2,
        0 <= k,
        k + 1 < before.rows().len(),
        before.cursor() == k,
        before.next_enabled(),
        next_step(before, after, r),
    ensures
        r matches Some(row) && row@ == before.rows()[k + 1],
        after.cursor() == k + 1,
        after.next_enabled() <==> k + 2 < before.rows().len(),
{
}

/// Moving back never becomes enabled again: once disabled (as on a fresh
/// deck), neither `next_val` nor `prev_val` enables it, so `prev_val`
/// keeps returning `None`.
pub proof fn lemma_back_stays_disabled(
    before: CsvData,
    after_next: CsvData,
    r1: Option<CsvRow>,
    after_prev: CsvData,
    r2: Option<CsvRow>,
)
    requires
        !before.prev_enabled(),
        next_step(before, after_next, r1),
        prev_step(before, after_prev, r2),
    ensures
        !after_next.prev_enabled(),
        !after_prev.prev_enabled(),
        r2 is None,
        after_prev.cursor() == before.cursor(),
{
}


/// Where the cursor of a fresh deck stands after `i` moves forward.
pub open spec fn walked(d: CsvData, first: CsvData, i: int) -> bool {
    let n = first.rows().len() as int;
    &&& d.wf()
    &&& d.rows() == first.rows()
    &&& !d.prev_enabled()
    &&& d.cursor() == if i < n - 1 { i } else { n - 1 }
    &&& d.next_enabled() == (i < n - 1)
}

proof fn lemma_walk_state(states: Seq<CsvData>, results: Seq<Option<CsvRow>>, i: int)
    requires
        states.len() == results.len() + 1,
        states[0].wf(),
        states[0].cursor() == 0,
        states[0].next_enabled(),
        !states[0].prev_enabled(),
        states[0].rows().len() >= 2,
        forall|j: int| 0 <= j < results.len() ==> next_step(#[trigger] states[j], states[j + 1], results[j]),
        0 <= i < states.len(),
    ensures
        walked(states[i], states[0], i),
    decreases i,
{
    if i > 0 {
        lemma_walk_state(states, results, i - 1);
        assert(next_step(states[i - 1], states[i], results[i - 1]));
    }
}

/// Calling `next_val` again and again on a fresh deck of `n >= 2` rows
/// (`states[k]` is the deck after `k` calls, `results[k - 1]` what call `k`
/// returned): every call may be made (the deck stays ready and moving back
/// stays disabled), call `k` returns row `k` for `k < n`, and every call from
/// the `n`-th on returns `None` and leaves the cursor and the rows as they are.
pub proof fn lemma_walk_all(states: Seq<CsvData>, results: Seq<Option<CsvRow>>)
    requires
        states.len() == results.len() + 1,
        states[0].wf(),
        states[0].cursor() == 0,
        states[0].next_enabled(),
        !states[0].prev_enabled(),
        states[0].rows().len() >= 2,
        forall|j: int| 0 <= j < results.len() ==> next_step(#[trigger] states[j], states[j + 1], results[j]),
    ensures
        forall|k: int|
            0 <= k < states.len() ==> (#[trigger] states[k]).wf() && states[k].next_ready()
                && states[k].rows() == states[0].rows() && !states[k].prev_enabled(),
        forall|k: int|
            1 <= k <= results.len() && k < states[0].rows().len() ==> (#[trigger] results[k - 1] matches Some(
                row,
            ) && row@ == states[0].rows()[k]),
        forall|k: int|
            1 <= k <= results.len() && k >= states[0].rows().len() ==> (#[trigger] results[k - 1] is None
                && states[k].cursor() == states[k - 1].cursor() && states[k].rows()
                == states[k - 1].rows() && states[k].next_enabled() == states[k - 1].next_enabled()
                && states[k].prev_enabled() == states[k - 1].prev_enabled()),
{
    assert forall|k: int| 0 <= k < states.len() implies (#[trigger] states[k]).wf()
        && states[k].next_ready() && states[k].rows() == states[0].rows()
        && !states[k].prev_enabled() by {
        lemma_walk_state(states, results, k);
    }
    assert forall|k: int| 1 <= k <= results.len() && k < states[0].rows().len() implies (
    #[trigger] results[k - 1] matches Some(row) && row@ == states[0].rows()[k]) by {
        lemma_walk_state(states, results, k - 1);
        assert(next_step(states[k - 1], states[k], results[k - 1]));
    }
    assert forall|k: int| 1 <= k <= results.len() && k >= states[0].rows().len() implies (
    #[trigger] results[k - 1] is None && states[k].cursor() == states[k - 1].cursor()
        && states[k].rows() == states[k - 1].rows() && states[k].next_enabled()
        == states[k - 1].next_enabled() && states[k].prev_enabled()
        == states[k - 1].prev_enabled()) by {
        lemma_walk_state(states, results, k - 1);
        lemma_walk_state(states, results, k);
        assert(next_step(states[k - 1], states[k], results[k - 1]));
    }
}

} // verus!
