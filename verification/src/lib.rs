//! Which named patterns fit the columns of a delimited text table.
//!
//! A type is a name for a pattern. This library reads a table from text,
//! turns it on its side, and then either finds for every column the types of
//! a registry of which every value of the column is ([`get_types`]), or holds
//! every column against the one type expected of it and reports the cells
//! that are not of it ([`assert_columns_match`]).
//!
//! The columns are dealt out over workers, each of which goes through its
//! columns one after the other. The functions of this library let one worker
//! work after the other. A caller with threads hands each share to a thread
//! of its own and puts the answers together with [`executor::gather`]; what
//! comes out is the same.
//!
//! - [`parse`]: from text to rows of cells.
//! - [`types`]: types, the registry, and which types fit a column.
//! - [`vec`]: from rows to columns, and from columns to the shares of the
//!   workers.
//! - [`matching_types`]: the types that fit each column of a table.
//! - [`assert_matching_rows`]: the cells of a table that are not of the type
//!   expected of their column.
//! - [`executor`]: the answers of the workers, put together.
//! - [`config`]: the built-in types and those of a configuration file.
//! - [`expected_types`]: the expected types, from their names.
//! - [`print_result`]: the results as lines of text.
//! - [`pattern`], [`text`]: what is taken from elsewhere without proof.
//! - [`sequences`]: facts about sequences that the proofs share.

use vstd::prelude::*;
use vstd::string::*;

pub mod assert_matching_rows;
pub mod config;
pub mod executor;
pub mod expected_types;
pub mod matching_types;
pub mod parse;
pub mod pattern;
pub mod print_result;
pub mod sequences;
pub mod text;
pub mod types;
pub mod vec;

use crate::assert_matching_rows::{assert_matching_rows, cells_of, failures, grouped_by_runs};
use crate::matching_types::{column_types, get_matching_types};
use crate::parse::{parse_text, tokenized};
use crate::types::{Type, TypeList};
use crate::vec::{columns, csv_to_vec};

verus! {

/// A table to work on.
pub enum CsvInput<'a> {
    /// Text, with `,` between the cells.
    Csv(&'a str),
    /// Text, with the given separator between the cells.
    Separated(&'a str, char),
    /// Rows of cells.
    Rows(Vec<Vec<String>>),
}

impl<'a> CsvInput<'a> {
    /// The rows of the table.
    pub open spec fn document(self) -> Seq<Seq<Seq<char>>> {
        match self {
            CsvInput::Csv(text) => tokenized(text@, ','),
            CsvInput::Separated(text, separator) => tokenized(text@, separator),
            CsvInput::Rows(rows) => rows.deep_view(),
        }
    }
}

/// How a table is to be read and worked on.
pub struct Options {
    /// Whether the first row holds the names of the columns.
    pub has_headers: bool,
    /// Over how many workers the columns are dealt out; one where none is
    /// given.
    pub max_threads: Option<usize>,
}

impl Options {
    /// The number of workers asked for.
    pub open spec fn workers(self) -> int {
        match self.max_threads {
            Some(threads) => threads as int,
            None => 1,
        }
    }

    /// The number of workers asked for.
    ///
    /// Fails with [`Error::ThreadCount`] where it is 0, and only then.
    pub fn worker_count(&self) -> (count: Result<usize, Error>)
        ensures
            match count {
                Ok(threads) => threads >= 1 && threads == self.workers(),
                Err(e) => self.workers() == 0 && e == Error::ThreadCount,
            },
    {
        match self.max_threads {
            Some(threads) => if threads < 1 {
                Err(Error::ThreadCount)
            } else {
                Ok(threads)
            },
            None => Ok(1),
        }
    }
}

/// The first row of `document`, where it counts as the header row.
pub open spec fn headers_of(document: Seq<Seq<Seq<char>>>, has_headers: bool) -> Seq<Seq<char>> {
    if has_headers && document.len() > 0 {
        document[0]
    } else {
        Seq::empty()
    }
}

/// The rows of `document` that hold values: all but a header row.
pub open spec fn body_of(document: Seq<Seq<Seq<char>>>, has_headers: bool) -> Seq<Seq<Seq<char>>> {
    if has_headers && document.len() > 0 {
        document.skip(1)
    } else {
        document
    }
}

/// Why a call could not be answered.
#[derive(Debug, PartialEq, Eq, Structural, Clone, Copy)]
pub enum Error {
    /// A worker did not come back.
    Join,
    /// Fewer than one worker was asked for.
    ThreadCount,
    /// There are not as many expected types as the table has columns.
    ColumnCountNotMatching,
    /// A pattern does not compile.
    Compile,
    /// A type was asked for by a name that the registry does not hold.
    UndefinedType,
}

impl Error {
    /// What went wrong, in words.
    pub open spec fn words(self) -> Seq<char> {
        match self {
            Error::Join => "Could not join threads"@,
            Error::ThreadCount => "Thread smaller then one"@,
            Error::ColumnCountNotMatching => "Column count not matching"@,
            Error::Compile => "Pattern does not compile"@,
            Error::UndefinedType => "Type not defined"@,
        }
    }

    /// What went wrong, in words.
    pub fn message(&self) -> (message: String)
        ensures
            message@ == self.words(),
    {
        match self {
            Error::Join => String::from_str("Could not join threads"),
            Error::ThreadCount => String::from_str("Thread smaller then one"),
            Error::ColumnCountNotMatching => String::from_str("Column count not matching"),
            Error::Compile => String::from_str("Pattern does not compile"),
            Error::UndefinedType => String::from_str("Type not defined"),
        }
    }
}

/// The table written in `csv`, with `,` between the cells.
pub fn parse_csv(csv: &str) -> (table: Vec<Vec<String>>)
    ensures
        table.deep_view() == tokenized(csv@, ','),
{
    parse_text(csv, ',')
}

/// Takes the first row out of `csv` and returns it.
pub fn get_header(csv: &mut Vec<Vec<String>>) -> (headers: Vec<String>)
    requires
        old(csv).len() > 0,
    ensures
        headers.deep_view() == old(csv).deep_view()[0],
        final(csv).deep_view() == old(csv).deep_view().skip(1),
{
    let headers = csv.remove(0);
    headers
}

/// Splits a table into its header row, if it is said to have one, and the
/// rows that hold values. A table without rows has no header row.
pub fn split_header(csv: Vec<Vec<String>>, has_headers: bool) -> (parts: (Vec<String>, Vec<Vec<String>>))
    ensures
        parts.0.deep_view() == headers_of(csv.deep_view(), has_headers),
        parts.1.deep_view() == body_of(csv.deep_view(), has_headers),
{
    let mut csv = csv;
    if has_headers && csv.len() > 0 {
        let headers = get_header(&mut csv);
        (headers, csv)
    } else {
        let headers: Vec<String> = Vec::new();
        (headers, csv)
    }
}

/// For every column of the table `csv`, the types of `type_list` that fit
/// it, in the order of the registry, and with them the header row, which is
/// empty where the table is said to have none.
///
/// Fails with [`Error::ThreadCount`] where `options` ask for no worker at
/// all, and only then; the table is not read in that case.
pub fn get_types(csv: CsvInput, type_list: TypeList, options: Options) -> (found: Result<
    (Vec<String>, Vec<Vec<Type>>),
    Error,
>)
    ensures
        match found {
            Ok((headers, types)) => {
                &&& options.workers() >= 1
                &&& headers.deep_view() == headers_of(csv.document(), options.has_headers)
                &&& types.deep_view() == column_types(
                    columns(body_of(csv.document(), options.has_headers)),
                    type_list@,
                )
            },
            Err(e) => options.workers() == 0 && e == Error::ThreadCount,
        },
{
    let max_threads = match options.worker_count() {
        Ok(threads) => threads,
        Err(e) => {
            return Err(e);
        },
    };
    let (headers, rows) = split_header(csv_to_vec(csv), options.has_headers);
    match get_matching_types(rows, type_list, max_threads) {
        Ok(types) => Ok((headers, types)),
        Err(e) => Err(e),
    }
}

/// Holds every column of the table `csv` against its expected type, after
/// the header row is set aside where the table is said to have one, and
/// reports the cells that fail as [`assert_matching_rows`] does.
///
/// Fails with [`Error::ThreadCount`] where `options` ask for no worker at
/// all; the table is not read in that case. Fails otherwise with
/// [`Error::ColumnCountNotMatching`] where there are not as many expected
/// types as the table has columns.
pub fn assert_columns_match(csv: CsvInput, expected_types: Vec<Type>, options: Options) -> (checked:
    Result<Vec<(usize, Vec<usize>)>, Error>)
    ensures
        match checked {
            Ok(records) => {
                let table = columns(body_of(csv.document(), options.has_headers));
                &&& options.workers() >= 1
                &&& table.len() == expected_types.len()
                &&& cells_of(records.deep_view()) == failures(table, expected_types.deep_view(), 0)
                &&& grouped_by_runs(records.deep_view())
            },
            Err(e) => if options.workers() == 0 {
                e == Error::ThreadCount
            } else {
                columns(body_of(csv.document(), options.has_headers)).len() != expected_types.len()
                    && e == Error::ColumnCountNotMatching
            },
        },
{
    let max_threads = match options.worker_count() {
        Ok(threads) => threads,
        Err(e) => {
            return Err(e);
        },
    };
    let (_, rows) = split_header(csv_to_vec(csv), options.has_headers);
    assert_matching_rows(rows, expected_types.as_slice(), max_threads)
}

} // verus!
