//! The accumulate-and-rewrite pipeline: one pass over an in-memory table that
//! copies every row through, optionally normalized, sums the durations of one
//! target column, and appends a summary row holding the formatted total.

use vstd::prelude::*;
use vstd::string::StringExecFns;
use crate::duration::{spec_parse_duration, DurationParser};
use crate::text::{
    dec_rep,
    format_total,
    lemma_trim_idempotent,
    spec_format_total,
    spec_trim,
    str_eq,
    trim_cell,
};

verus! {

/// Index of the first header cell at or after k whose trimmed name equals
/// column; header.len() when there is none.
pub open spec fn col_index_from(header: Seq<Seq<char>>, column: Seq<char>, k: int) -> int
    decreases header.len() - k,
{
    if k >= header.len() {
        header.len() as int
    } else if spec_trim(header[k]) == column {
        k
    } else {
        col_index_from(header, column, k + 1)
    }
}

/// Index of the first header cell whose trimmed name equals column.
pub fn find_column(header: &Vec<String>, column: &str) -> (r: Option<usize>)
    ensures
        match r {
            Some(i) => i == col_index_from(header.deep_view(), column@, 0) && i < header@.len(),
            None => col_index_from(header.deep_view(), column@, 0) == header@.len(),
        },
{
    let n = header.len();
    let mut i: usize = 0;
    while i < n
        invariant
            0 <= i <= n,
            n == header@.len(),
            col_index_from(header.deep_view(), column@, 0) == col_index_from(
                header.deep_view(),
                column@,
                i as int,
            ),
        decreases n - i,
    {
        let t = trim_cell(header[i].as_str());
        if str_eq(t.as_str(), column) {
            return Some(i);
        }
        i = i + 1;
    }
    None
}

/// A row with every cell's surrounding whitespace removed.
pub open spec fn spec_normalize_row(row: Seq<Seq<char>>) -> Seq<Seq<char>> {
    Seq::new(row.len(), |i: int| spec_trim(row[i]))
}

/// A table with every cell's surrounding whitespace removed.
pub open spec fn spec_normalize_table(rows: Seq<Seq<Seq<char>>>) -> Seq<Seq<Seq<char>>> {
    Seq::new(rows.len(), |i: int| spec_normalize_row(rows[i]))
}

fn copy_row(row: &Vec<String>) -> (r: Vec<String>)
    ensures
        r@ == row@,
{
    let mut r: Vec<String> = Vec::new();
    let mut i: usize = 0;
    proof {
        assert(r@ =~= row@.subrange(0, 0));
    }
    while i < row.len()
        invariant
            0 <= i <= row@.len(),
            r@ == row@.subrange(0, i as int),
        decreases row@.len() - i,
    {
        r.push(row[i].clone());
        i = i + 1;
        proof {
            assert(r@ =~= row@.subrange(0, i as int));
        }
    }
    proof {
        assert(r@ =~= row@);
    }
    r
}

/// Every cell of the row with surrounding whitespace removed.
pub fn normalize_row(row: &Vec<String>) -> (r: Vec<String>)
    ensures
        r.deep_view() == spec_normalize_row(row.deep_view()),
{
    let mut r: Vec<String> = Vec::new();
    let mut i: usize = 0;
    while i < row.len()
        invariant
            0 <= i <= row@.len(),
            r@.len() == i,
            forall|j: int| 0 <= j < i ==> r@[j]@ == spec_trim(row@[j]@),
        decreases row@.len() - i,
    {
        r.push(trim_cell(row[i].as_str()));
        i = i + 1;
    }
    proof {
        assert(r.deep_view() =~= spec_normalize_row(row.deep_view()));
    }
    r
}

/// The (trimmed) value of the target column in a record: the cell under the
/// first header whose trimmed name equals column, or the fallback where the
/// header lacks such a name or the record is too short to reach it.
pub open spec fn spec_extract_column(
    header: Seq<Seq<char>>,
    record: Seq<Seq<char>>,
    column: Seq<char>,
    fallback: Seq<char>,
) -> Seq<char> {
    let i = col_index_from(header, column, 0);
    if i < header.len() && i < record.len() {
        spec_trim(record[i])
    } else {
        fallback
    }
}

/// What an unparseable duration cell in the target column does: abort the
/// pass with a parsing error, or contribute zero and continue.
#[derive(Clone, Copy, Debug)]
pub enum OnParseError {
    Abort,
    TreatAsZero,
}

/// How one accumulate-and-rewrite pass behaves: whether every cell's
/// surrounding whitespace is removed on the way through, and what an
/// unparseable duration cell does.
#[derive(Clone, Copy, Debug)]
pub struct Config {
    pub normalize_cells: bool,
    pub on_parse_error: OnParseError,
}

/// Minutes a single cell contributes: its parsed duration in minutes, and
/// zero where no duration can be read.
pub open spec fn duration_minutes(cell: Seq<char>) -> nat {
    match spec_parse_duration(cell) {
        Some(hm) => 60 * hm.0 + hm.1,
        None => 0,
    }
}

/// Minutes a sequence of cells contributes in total.
pub open spec fn total_minutes(cells: Seq<Seq<char>>) -> nat
    decreases cells.len(),
{
    if cells.len() == 0 {
        0
    } else {
        total_minutes(cells.drop_last()) + duration_minutes(cells.last())
    }
}

/// A total as the accumulator holds it: capped at the machine word, since
/// the accumulator saturates instead of wrapping.
pub open spec fn sat_cap(n: nat) -> nat {
    if n > usize::MAX {
        usize::MAX as nat
    } else {
        n
    }
}

/// acc plus one duration of h hours and m minutes, saturating at the machine
/// word.
fn add_minutes(acc: usize, h: usize, m: usize) -> (r: usize)
    ensures
        r == sat_cap((acc + 60 * h + m) as nat),
{
    let hm = match h.checked_mul(60) {
        Some(v) => match v.checked_add(m) {
            Some(w) => w,
            None => usize::MAX,
        },
        None => usize::MAX,
    };
    acc.saturating_add(hm)
}

/// Sum of the durations parsed from the given cells, formatted as hours and
/// a two-digit rest of minutes. A cell holding no duration contributes zero;
/// the running total saturates at the machine word.
pub fn sum_durations(durations: &Vec<String>) -> (r: String)
    ensures
        r@ == spec_format_total(sat_cap(total_minutes(durations.deep_view()))),
{
    let parser = DurationParser::new();
    let mut acc: usize = 0;
    let mut i: usize = 0;
    proof {
        assert(durations.deep_view().subrange(0, 0) =~= Seq::<Seq<char>>::empty());
    }
    while i < durations.len()
        invariant
            0 <= i <= durations@.len(),
            acc == sat_cap(total_minutes(durations.deep_view().subrange(0, i as int))),
        decreases durations@.len() - i,
    {
        proof {
            let dv = durations.deep_view();
            assert(dv.subrange(0, i as int + 1).drop_last() =~= dv.subrange(0, i as int));
            assert(dv.subrange(0, i as int + 1).last() == dv[i as int]);
        }
        match parser.parse_duration(durations[i].as_str()) {
            Some((h, m)) => {
                acc = add_minutes(acc, h, m);
            },
            None => {},
        }
        i = i + 1;
    }
    proof {
        assert(durations.deep_view().subrange(0, durations@.len() as int) =~= durations.deep_view());
    }
    format_total(acc)
}

/// Minutes one data row contributes: the parsed duration of its target
/// column cell, and zero where the header lacks the column.
pub open spec fn row_minutes(header: Seq<Seq<char>>, row: Seq<Seq<char>>, column: Seq<char>) -> nat {
    let i = col_index_from(header, column, 0);
    if i < header.len() && i < row.len() {
        duration_minutes(spec_trim(row[i]))
    } else {
        0
    }
}

/// The target column's cell of this row holds a duration, where the row has
/// such a cell at all.
pub open spec fn row_parses(header: Seq<Seq<char>>, row: Seq<Seq<char>>, column: Seq<char>) -> bool {
    let i = col_index_from(header, column, 0);
    (i < header.len() && i < row.len()) ==> spec_parse_duration(spec_trim(row[i])).is_some()
}

/// Minutes a table's data rows contribute in total.
pub open spec fn table_minutes(
    header: Seq<Seq<char>>,
    rows: Seq<Seq<Seq<char>>>,
    column: Seq<char>,
) -> nat
    decreases rows.len(),
{
    if rows.len() == 0 {
        0
    } else {
        table_minutes(header, rows.drop_last(), column) + row_minutes(header, rows.last(), column)
    }
}

/// Every data row's target cell holds a duration.
pub open spec fn all_rows_parse(
    header: Seq<Seq<char>>,
    rows: Seq<Seq<Seq<char>>>,
    column: Seq<char>,
) -> bool {
    forall|i: int| 0 <= i < rows.len() ==> row_parses(header, rows[i], column)
}

/// Index of the first data row at or after k whose target cell holds no
/// duration; rows.len() when every row's does.
pub open spec fn first_bad_from(
    header: Seq<Seq<char>>,
    rows: Seq<Seq<Seq<char>>>,
    column: Seq<char>,
    k: int,
) -> int
    decreases rows.len() - k,
{
    if k >= rows.len() {
        rows.len() as int
    } else if !row_parses(header, rows[k], column) {
        k
    } else {
        first_bad_from(header, rows, column, k + 1)
    }
}

proof fn lemma_first_bad_reaches(
    header: Seq<Seq<char>>,
    rows: Seq<Seq<Seq<char>>>,
    column: Seq<char>,
    k: int,
    i: int,
)
    requires
        0 <= k <= i < rows.len(),
        !row_parses(header, rows[i], column),
        forall|j: int| k <= j < i ==> row_parses(header, rows[j], column),
    ensures
        first_bad_from(header, rows, column, k) == i,
    decreases i - k,
{
    if k < i {
        lemma_first_bad_reaches(header, rows, column, k + 1, i);
    }
}

/// The summary row: every cell blank except the target column's cells, which
/// hold the given total.
pub open spec fn spec_summary_row(
    header: Seq<Seq<char>>,
    column: Seq<char>,
    total_cell: Seq<char>,
) -> Seq<Seq<char>> {
    Seq::new(
        header.len(),
        |i: int|
            if spec_trim(header[i]) == column {
                total_cell
            } else {
                Seq::<char>::empty()
            },
    )
}

fn build_summary_row(header: &Vec<String>, column: &str, total_cell: &String) -> (r: Vec<String>)
    ensures
        r.deep_view() == spec_summary_row(header.deep_view(), column@, total_cell@),
{
    let mut r: Vec<String> = Vec::new();
    let mut i: usize = 0;
    while i < header.len()
        invariant
            0 <= i <= header@.len(),
            r@.len() == i,
            forall|j: int|
                0 <= j < i ==> r@[j]@ == (if spec_trim(header@[j]@) == column@ {
                    total_cell@
                } else {
                    Seq::<char>::empty()
                }),
        decreases header@.len() - i,
    {
        let t = trim_cell(header[i].as_str());
        if str_eq(t.as_str(), column) {
            r.push(total_cell.clone());
        } else {
            r.push(String::new());
        }
        i = i + 1;
    }
    proof {
        assert(r.deep_view() =~= spec_summary_row(header.deep_view(), column@, total_cell@));
    }
    r
}

/// Looks the target column up in one record, with a fallback value. Column
/// names are taken to be unique: the first header cell whose trimmed name
/// equals column decides the position.
pub fn extract_column(column: &str, fallback: &str, header: &Vec<String>, record: &Vec<
    String,
>) -> (r: String)
    ensures
        r@ == spec_extract_column(header.deep_view(), record.deep_view(), column@, fallback@),
{
    match find_column(header, column) {
        Some(i) => {
            if i < record.len() {
                trim_cell(record[i].as_str())
            } else {
                String::from_str(fallback)
            }
        },
        None => String::from_str(fallback),
    }
}

proof fn lemma_col_index_in_range(header: Seq<Seq<char>>, column: Seq<char>, k: int)
    requires
        0 <= k <= header.len(),
    ensures
        k <= col_index_from(header, column, k) <= header.len(),
    decreases header.len() - k,
{
    if k < header.len() && spec_trim(header[k]) != column {
        lemma_col_index_in_range(header, column, k + 1);
    }
}

proof fn lemma_col_index_normalize(header: Seq<Seq<char>>, column: Seq<char>, k: int)
    requires
        0 <= k <= header.len(),
    ensures
        col_index_from(spec_normalize_row(header), column, k) == col_index_from(header, column, k),
    decreases header.len() - k,
{
    if k < header.len() {
        lemma_trim_idempotent(header[k]);
        if spec_trim(header[k]) != column {
            lemma_col_index_normalize(header, column, k + 1);
        }
    }
}

proof fn lemma_row_minutes_normalize(header: Seq<Seq<char>>, row: Seq<Seq<char>>, column: Seq<
    char,
>)
    ensures
        row_minutes(spec_normalize_row(header), spec_normalize_row(row), column) == row_minutes(
            header,
            row,
            column,
        ),
{
    lemma_col_index_in_range(header, column, 0);
    lemma_col_index_normalize(header, column, 0);
    let i = col_index_from(header, column, 0);
    if 0 <= i < header.len() && i < row.len() {
        lemma_trim_idempotent(row[i]);
    }
}

/// Summing is idempotent over the pipeline's rewriting: the data rows one
/// pass writes out (its summary row excluded) contribute the same total as
/// the rows it read, so summing them again over the same column yields the
/// same total.
pub proof fn lemma_sum_idempotent(
    header: Seq<Seq<char>>,
    rows: Seq<Seq<Seq<char>>>,
    column: Seq<char>,
)
    ensures
        table_minutes(spec_normalize_row(header), spec_normalize_table(rows), column)
            == table_minutes(header, rows, column),
    decreases rows.len(),
{
    if rows.len() == 0 {
        assert(spec_normalize_table(rows).len() == 0);
    } else {
        lemma_sum_idempotent(header, rows.drop_last(), column);
        assert(spec_normalize_table(rows).drop_last() =~= spec_normalize_table(rows.drop_last()));
        assert(spec_normalize_table(rows).last() == spec_normalize_row(rows.last()));
        lemma_row_minutes_normalize(header, rows.last(), column);
    }
}

/// A table with a header and zero data rows still yields a summary: the
/// total is zero, zero formats as "0:00", and the summary row holds "0:00"
/// in the target column's cells and nothing anywhere else.
pub proof fn lemma_empty_table_summary(header: Seq<Seq<char>>, column: Seq<char>)
    ensures
        table_minutes(header, Seq::<Seq<Seq<char>>>::empty(), column) == 0,
        spec_format_total(sat_cap(0)) == "0:00"@,
        forall|i: int|
            0 <= i < header.len() ==> spec_summary_row(header, column, "0:00"@)[i] == (
            if spec_trim(header[i]) == column {
                "0:00"@
            } else {
                Seq::<char>::empty()
            }),
{
    reveal_strlit("0:00");
    assert(dec_rep(0) =~= seq!['0']);
    assert(spec_format_total(0) =~= "0:00"@);
}

/// One rewriting pass with no aggregation: every row is copied through in
/// order, each cell optionally stripped of surrounding whitespace. With
/// normalization disabled the table is reproduced unchanged.
pub fn rewrite(header: &Vec<String>, rows: &Vec<Vec<String>>, normalize_cells: bool) -> (r: (
    Vec<String>,
    Vec<Vec<String>>,
))
    ensures
        r.0.deep_view() == (if normalize_cells {
            spec_normalize_row(header.deep_view())
        } else {
            header.deep_view()
        }),
        r.1.deep_view() == (if normalize_cells {
            spec_normalize_table(rows.deep_view())
        } else {
            rows.deep_view()
        }),
{
    let out_header = if normalize_cells {
        normalize_row(header)
    } else {
        copy_row(header)
    };
    let mut out_rows: Vec<Vec<String>> = Vec::new();
    let mut idx: usize = 0;
    while idx < rows.len()
        invariant
            0 <= idx <= rows@.len(),
            out_rows@.len() == idx,
            forall|i: int|
                0 <= i < idx ==> out_rows@[i].deep_view() == (if normalize_cells {
                    spec_normalize_row(rows.deep_view()[i])
                } else {
                    rows.deep_view()[i]
                }),
        decreases rows@.len() - idx,
    {
        let out_row = if normalize_cells {
            normalize_row(&rows[idx])
        } else {
            copy_row(&rows[idx])
        };
        proof {
            assert(out_row.deep_view() =~= (if normalize_cells {
                spec_normalize_row(rows.deep_view()[idx as int])
            } else {
                rows.deep_view()[idx as int]
            }));
        }
        out_rows.push(out_row);
        idx = idx + 1;
    }
    proof {
        assert forall|i: int| 0 <= i < out_rows.deep_view().len() implies out_rows.deep_view()[i]
            == (if normalize_cells {
            spec_normalize_row(rows.deep_view()[i])
        } else {
            rows.deep_view()[i]
        }) by {
            assert(out_rows.deep_view()[i] == out_rows@[i].deep_view());
        }
        if normalize_cells {
            assert(out_rows.deep_view() =~= spec_normalize_table(rows.deep_view()));
        } else {
            assert(out_rows.deep_view() =~= rows.deep_view());
        }
    }
    (out_header, out_rows)
}

/// One accumulate-and-rewrite pass: every data row is copied through in
/// order, each cell optionally stripped of surrounding whitespace, the
/// durations of the target column are summed, and a summary row holding the
/// formatted total under the target column is appended. A header without the
/// target column is no error: every row is copied through and the total
/// stays zero. An unparseable target cell aborts the pass or contributes
/// zero, as the configuration says.
pub fn rewrite_with_accumulator(
    header: &Vec<String>,
    rows: &Vec<Vec<String>>,
    column: &str,
    config: Config,
) -> (r: Result<(Vec<String>, Vec<Vec<String>>), crate::ProcessingError>)
    requires
        forall|i: int|
            0 <= i < rows.deep_view().len() ==> rows.deep_view()[i].len()
                == header.deep_view().len(),
    ensures
        r.is_ok() <==> (config.on_parse_error is TreatAsZero || all_rows_parse(
            header.deep_view(),
            rows.deep_view(),
            column@,
        )),
        r matches Ok(out) ==> {
            &&& out.0.deep_view() == (if config.normalize_cells {
                spec_normalize_row(header.deep_view())
            } else {
                header.deep_view()
            })
            &&& out.1.deep_view().len() == rows.deep_view().len() + 1
            &&& forall|i: int|
                0 <= i < rows.deep_view().len() ==> out.1.deep_view()[i] == (
                if config.normalize_cells {
                    spec_normalize_row(rows.deep_view()[i])
                } else {
                    rows.deep_view()[i]
                })
            &&& out.1.deep_view().last() == spec_summary_row(
                header.deep_view(),
                column@,
                spec_format_total(
                    sat_cap(table_minutes(header.deep_view(), rows.deep_view(), column@)),
                ),
            )
        },
        r matches Err(e) ==> {
            &&& config.on_parse_error is Abort
            &&& !all_rows_parse(header.deep_view(), rows.deep_view(), column@)
            &&& e matches crate::ProcessingError::Parsing { cause } && cause@ == spec_trim(
                rows.deep_view()[first_bad_from(header.deep_view(), rows.deep_view(), column@, 0)][col_index_from(
                    header.deep_view(),
                    column@,
                    0,
                )],
            )
        },
{
    let ci = find_column(header, column);
    let out_header = if config.normalize_cells {
        normalize_row(header)
    } else {
        copy_row(header)
    };
    let parser = DurationParser::new();
    let mut out_rows: Vec<Vec<String>> = Vec::new();
    let mut acc: usize = 0;
    let mut idx: usize = 0;
    proof {
        assert(rows.deep_view().subrange(0, 0) =~= Seq::<Seq<Seq<char>>>::empty());
    }
    while idx < rows.len()
        invariant
            0 <= idx <= rows@.len(),
            rows.deep_view().len() == rows@.len(),
            forall|i: int|
                0 <= i < rows.deep_view().len() ==> rows.deep_view()[i].len()
                    == header.deep_view().len(),
            match ci {
                Some(i) => i == col_index_from(header.deep_view(), column@, 0) && i
                    < header@.len(),
                None => col_index_from(header.deep_view(), column@, 0) == header@.len(),
            },
            out_rows@.len() == idx,
            forall|i: int|
                0 <= i < idx ==> out_rows@[i].deep_view() == (if config.normalize_cells {
                    spec_normalize_row(rows.deep_view()[i])
                } else {
                    rows.deep_view()[i]
                }),
            acc == sat_cap(
                table_minutes(
                    header.deep_view(),
                    rows.deep_view().subrange(0, idx as int),
                    column@,
                ),
            ),
            config.on_parse_error is Abort ==> forall|i: int|
                0 <= i < idx ==> row_parses(header.deep_view(), rows.deep_view()[i], column@),
        decreases rows@.len() - idx,
    {
        proof {
            let rdv = rows.deep_view();
            assert(rdv.subrange(0, idx as int + 1).drop_last() =~= rdv.subrange(0, idx as int));
            assert(rdv.subrange(0, idx as int + 1).last() == rdv[idx as int]);
        }
        match ci {
            Some(c) => {
                proof {
                    assert(rows.deep_view()[idx as int].len() == rows@[idx as int]@.len());
                }
                let cell = trim_cell(rows[idx][c].as_str());
                match parser.parse_duration(cell.as_str()) {
                    Some((h, m)) => {
                        acc = add_minutes(acc, h, m);
                    },
                    None => {
                        match config.on_parse_error {
                            OnParseError::Abort => {
                                proof {
                                    lemma_first_bad_reaches(
                                        header.deep_view(),
                                        rows.deep_view(),
                                        column@,
                                        0,
                                        idx as int,
                                    );
                                }
                                return Err(crate::ProcessingError::Parsing { cause: cell });
                            },
                            OnParseError::TreatAsZero => {},
                        }
                    },
                }
            },
            None => {},
        }
        let out_row = if config.normalize_cells {
            normalize_row(&rows[idx])
        } else {
            copy_row(&rows[idx])
        };
        proof {
            assert(out_row.deep_view() =~= (if config.normalize_cells {
                spec_normalize_row(rows.deep_view()[idx as int])
            } else {
                rows.deep_view()[idx as int]
            }));
        }
        out_rows.push(out_row);
        idx = idx + 1;
    }
    proof {
        assert(rows.deep_view().subrange(0, rows@.len() as int) =~= rows.deep_view());
    }
    let total_cell = format_total(acc);
    let summary = build_summary_row(header, column, &total_cell);
    out_rows.push(summary);
    proof {
        assert forall|i: int| 0 <= i < rows.deep_view().len() implies out_rows.deep_view()[i] == (
        if config.normalize_cells {
            spec_normalize_row(rows.deep_view()[i])
        } else {
            rows.deep_view()[i]
        }) by {
            assert(out_rows.deep_view()[i] == out_rows@[i].deep_view());
        }
        assert(out_rows.deep_view().last() == out_rows@[rows@.len() as int].deep_view());
    }
    Ok((out_header, out_rows))
}

} // verus!
