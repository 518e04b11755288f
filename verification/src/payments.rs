//! The whole run: from the bytes of a transaction log in CSV to the bytes of
//! the report.

use crate::books::Books;
use crate::processor::Processor;
use crate::report::report_text;
use crate::table::{csv_table, decode_table, log_of_table, read_table, ProcessError};
use vstd::prelude::*;

verus! {

/// The report that the rows of `table` lead to: the log they hold is
/// replayed from the empty state, and the accounts that result are reported.
/// Where the table holds no log, the error says why, and there is no report.
pub open spec fn output_of_table(table: Seq<Seq<Seq<u8>>>) -> Result<Seq<u8>, ProcessError> {
    match log_of_table(table) {
        Ok(log) => Ok(report_text(Books::empty().run(log).accounts)),
        Err(error) => Err(error),
    }
}

/// Decodes the rows that the CSV reader gave, replays the log and writes the
/// report.
pub fn process_table(rows: &Vec<Vec<Vec<u8>>>) -> (output: Result<Vec<u8>, ProcessError>)
    ensures
        match output {
            Ok(report) => output_of_table(rows.deep_view()) == Ok::<Seq<u8>, ProcessError>(
                report@,
            ),
            Err(error) => output_of_table(rows.deep_view()) == Err::<Seq<u8>, ProcessError>(
                error,
            ),
        },
{
    let log = match decode_table(rows) {
        Ok(log) => log,
        Err(error) => { return Err(error); },
    };
    let mut processor = Processor::new();
    processor.replay(&log);
    Ok(processor.report())
}

/// Processes a transaction log given as the bytes of a CSV file and gives
/// the bytes of the report. The reader's error is returned where, and only
/// where, the CSV reader refuses the input; otherwise the result is that of
/// the rows it read.
pub fn processpayments(input: &[u8]) -> (output: Result<Vec<u8>, ProcessError>)
    ensures
        match csv_table(input@) {
            Some(table) => match output {
                Ok(report) => output_of_table(table) == Ok::<Seq<u8>, ProcessError>(report@),
                Err(error) => output_of_table(table) == Err::<Seq<u8>, ProcessError>(error),
            },
            None => output matches Err(ProcessError::Csv(_)),
        },
        (output matches Err(ProcessError::Csv(_))) <==> csv_table(input@).is_none(),
{
    match read_table(input) {
        Ok(rows) => process_table(&rows),
        Err(error) => Err(ProcessError::Csv(error)),
    }
}

} // verus!
