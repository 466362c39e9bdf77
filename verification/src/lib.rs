//! A small tool for delimited text tables: rewrite a table with its cells
//! normalized, or sum the durations of one column and append a summary row.

pub mod duration;
pub mod table;
pub mod text;

use vstd::prelude::*;
use vstd::string::StringExecFns;

verus! {

/// What can go wrong while processing a table.
#[derive(Debug)]
pub enum ProcessingError {
    /// The input or output path cannot be opened.
    FileAccess { path: String },
    /// Under the abort policy, a target-column cell holds no duration.
    Parsing { cause: String },
    /// The delimited text itself cannot be processed.
    CsvError,
}

impl ProcessingError {
    /// Describes the error, with the offending path or cell value.
    pub fn message(&self) -> (r: String)
        ensures
            self matches ProcessingError::FileAccess { path } ==> r@ == "unable to access file "@
                + path@,
            self matches ProcessingError::Parsing { cause } ==> r@ == cause@,
            self is CsvError ==> r@ == "unable to process CSV file"@,
    {
        match self {
            ProcessingError::FileAccess { path } => {
                let mut r = String::from_str("unable to access file ");
                r.append(path.as_str());
                r
            },
            ProcessingError::Parsing { cause } => cause.clone(),
            ProcessingError::CsvError => String::from_str("unable to process CSV file"),
        }
    }
}

/// Relies on csv::Reader: from_path opens the file (an error there is a
/// failure to access the path); headers yields the first record; records
/// yields the remaining ones, and with the reader's default strict record
/// checking every yielded record has as many fields as the header, else the
/// iteration errors.
#[verifier::external_body]
fn read_table(path: &str) -> (r: Result<(Vec<String>, Vec<Vec<String>>), ProcessingError>)
    ensures
        r matches Ok(t) ==> forall|i: int|
            0 <= i < t.1.deep_view().len() ==> t.1.deep_view()[i].len() == t.0.deep_view().len(),
        r matches Err(e) ==> (e matches ProcessingError::FileAccess { path: p } && p@ == path@)
            || e is CsvError,
{
    let mut rdr = csv::Reader::from_path(path).map_err(
        |_| ProcessingError::FileAccess { path: path.to_string() },
    )?;
    let header: Vec<String> =
        rdr.headers().map_err(|_| ProcessingError::CsvError)?.iter().map(|s| s.to_string()).collect();
    let mut rows: Vec<Vec<String>> = Vec::new();
    for record in rdr.records() {
        let rec = record.map_err(|_| ProcessingError::CsvError)?;
        rows.push(rec.iter().map(|s| s.to_string()).collect());
    }
    Ok((header, rows))
}

/// Relies on csv::Writer: from_path creates the file (an error there is a
/// failure to access the path); write_record writes one row; flush forces
/// the buffered output out.
#[verifier::external_body]
fn write_table(path: &str, header: &Vec<String>, rows: &Vec<Vec<String>>) -> (r: Result<
    (),
    ProcessingError,
>)
    ensures
        r matches Err(e) ==> (e matches ProcessingError::FileAccess { path: p } && p@ == path@)
            || e is CsvError,
{
    let mut wtr = csv::Writer::from_path(path).map_err(
        |_| ProcessingError::FileAccess { path: path.to_string() },
    )?;
    wtr.write_record(header.iter()).map_err(|_| ProcessingError::CsvError)?;
    for row in rows {
        wtr.write_record(row.iter()).map_err(|_| ProcessingError::CsvError)?;
    }
    wtr.flush().map_err(|_| ProcessingError::CsvError)?;
    Ok(())
}

/// A unit of work for the tool: one pass over a delimited text table.
#[derive(Debug)]
pub enum Task {
    /// Sum the durations of one column of the table at infile, writing the
    /// rewritten table with its summary row to outfile.
    SumDuration { column: String, infile: String, outfile: String },
    /// Copy the table at infile to outfile, normalizing every cell.
    Rewrite { infile: String, outfile: String },
}

impl Task {
    /// Runs the task: reads the input table, rewrites it in one pass, and
    /// writes the result. Cells are normalized, and an unparseable duration
    /// cell contributes zero to the total rather than aborting the pass, as
    /// the tool has always behaved; so every error is a failure to access a
    /// path or to process the delimited text, never a parsing failure.
    pub fn execute(&self) -> (r: Result<(), ProcessingError>)
        ensures
            r matches Err(e) ==> (e is FileAccess || e is CsvError),
    {
        match self {
            Task::Rewrite { infile, outfile } => {
                match read_table(infile.as_str()) {
                    Err(e) => Err(e),
                    Ok((header, rows)) => {
                        let (out_header, out_rows) = table::rewrite(&header, &rows, true);
                        write_table(outfile.as_str(), &out_header, &out_rows)
                    },
                }
            },
            Task::SumDuration { column, infile, outfile } => {
                match read_table(infile.as_str()) {
                    Err(e) => Err(e),
                    Ok((header, rows)) => {
                        let config = table::Config {
                            normalize_cells: true,
                            on_parse_error: table::OnParseError::TreatAsZero,
                        };
                        match table::rewrite_with_accumulator(
                            &header,
                            &rows,
                            column.as_str(),
                            config,
                        ) {
                            Err(e) => Err(e),
                            Ok((out_header, out_rows)) => write_table(
                                outfile.as_str(),
                                &out_header,
                                &out_rows,
                            ),
                        }
                    },
                }
            },
        }
    }
}

} // verus!
