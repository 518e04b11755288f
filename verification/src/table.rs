//! The transaction log as a table of text: the CSV reader splits the input
//! into rows of trimmed fields, and the rows are decoded into records.

use crate::decimal::{amount, amount_of_field, client_of_text, parse_client, parse_tx, tx_of_text};
use crate::record::{Record, TransactionType};
use vstd::prelude::*;

verus! {

/// The error type of the CSV reader.
#[verifier::external_type_specification]
#[verifier::external_body]
pub struct ExCsvError(csv::Error);

/// Why an input could not be processed.
#[derive(Debug)]
pub enum ProcessError {
    /// The CSV reader refused the input.
    Csv(csv::Error),
    /// The input has data rows, and its header row does not name each of the
    /// columns `type`, `client`, `tx` and `amount` exactly once.
    Header,
    /// The row of this index, counted from the header row as zero, lacks one
    /// of the four fields or holds a client, tx or amount that does not parse.
    Row(usize),
}

/// What the CSV reader makes of `input`: its rows, the header row first, each
/// a sequence of fields; or nothing where the reader refuses the input.
pub uninterp spec fn csv_table(input: Seq<u8>) -> Option<Seq<Seq<Seq<u8>>>>;

/// Splits `input` into rows of fields with `csv::Reader`, built by
/// `csv::ReaderBuilder` with all fields trimmed and with the first row handed
/// out like the others. The reader's result is a function of the input; it is
/// named `csv_table` and nothing more is claimed of it. The rows are those
/// that `Reader::records` yields, up to its first error, which is returned.
#[verifier::external_body]
pub(crate) fn read_table(input: &[u8]) -> (table: Result<Vec<Vec<Vec<u8>>>, csv::Error>)
    ensures
        match table {
            Ok(rows) => csv_table(input@) == Some(rows.deep_view()),
            Err(_) => csv_table(input@).is_none(),
        },
{
    let mut builder = csv::ReaderBuilder::new();
    let mut reader = builder.trim(csv::Trim::All).has_headers(false).from_reader(input);
    let mut rows = Vec::new();
    for row in reader.records() {
        rows.push(row?.iter().map(|field| field.as_bytes().to_vec()).collect());
    }
    Ok(rows)
}

} // verus!

verus! {

/// The column name `type`.
pub open spec fn type_word() -> Seq<u8> {
    seq!['t' as u8, 'y' as u8, 'p' as u8, 'e' as u8]
}

/// The column name `client`.
pub open spec fn client_word() -> Seq<u8> {
    seq!['c' as u8, 'l' as u8, 'i' as u8, 'e' as u8, 'n' as u8, 't' as u8]
}

/// The column name `tx`.
pub open spec fn tx_word() -> Seq<u8> {
    seq!['t' as u8, 'x' as u8]
}

/// The column name `amount`.
pub open spec fn amount_word() -> Seq<u8> {
    seq!['a' as u8, 'm' as u8, 'o' as u8, 'u' as u8, 'n' as u8, 't' as u8]
}

/// The type name `deposit`.
pub open spec fn deposit_word() -> Seq<u8> {
    seq!['d' as u8, 'e' as u8, 'p' as u8, 'o' as u8, 's' as u8, 'i' as u8, 't' as u8]
}

/// The type name `withdrawal`.
pub open spec fn withdrawal_word() -> Seq<u8> {
    seq![
        'w' as u8,
        'i' as u8,
        't' as u8,
        'h' as u8,
        'd' as u8,
        'r' as u8,
        'a' as u8,
        'w' as u8,
        'a' as u8,
        'l' as u8,
    ]
}

/// The type name `dispute`.
pub open spec fn dispute_word() -> Seq<u8> {
    seq!['d' as u8, 'i' as u8, 's' as u8, 'p' as u8, 'u' as u8, 't' as u8, 'e' as u8]
}

/// The type name `resolve`.
pub open spec fn resolve_word() -> Seq<u8> {
    seq!['r' as u8, 'e' as u8, 's' as u8, 'o' as u8, 'l' as u8, 'v' as u8, 'e' as u8]
}

/// The type name `chargeback`.
pub open spec fn chargeback_word() -> Seq<u8> {
    seq![
        'c' as u8,
        'h' as u8,
        'a' as u8,
        'r' as u8,
        'g' as u8,
        'e' as u8,
        'b' as u8,
        'a' as u8,
        'c' as u8,
        'k' as u8,
    ]
}

/// The kind of transaction that `text` names; names are case-sensitive.
pub open spec fn type_of_text(text: Seq<u8>) -> TransactionType {
    if text == deposit_word() {
        TransactionType::Deposit
    } else if text == withdrawal_word() {
        TransactionType::Withdrawal
    } else if text == dispute_word() {
        TransactionType::Dispute
    } else if text == resolve_word() {
        TransactionType::Resolve
    } else if text == chargeback_word() {
        TransactionType::Chargeback
    } else {
        TransactionType::Unknown
    }
}

/// Whether two texts hold the same bytes.
pub fn same_bytes(a: &[u8], b: &[u8]) -> (same: bool)
    ensures
        same == (a@ == b@),
{
    if a.len() != b.len() {
        return false;
    }
    let mut i: usize = 0;
    while i < a.len()
        invariant
            a.len() == b.len(),
            i <= a.len(),
            forall|j: int| 0 <= j < i ==> a@[j] == b@[j],
        decreases a.len() - i,
    {
        if a[i] != b[i] {
            return false;
        }
        i += 1;
    }
    assert(a@ =~= b@);
    true
}

/// The kind of transaction that `text` names.
pub fn transaction_type(text: &[u8]) -> (kind: TransactionType)
    ensures
        kind == type_of_text(text@),
{
    let deposit = ['d' as u8, 'e' as u8, 'p' as u8, 'o' as u8, 's' as u8, 'i' as u8, 't' as u8];
    let withdrawal = [
        'w' as u8,
        'i' as u8,
        't' as u8,
        'h' as u8,
        'd' as u8,
        'r' as u8,
        'a' as u8,
        'w' as u8,
        'a' as u8,
        'l' as u8,
    ];
    let dispute = ['d' as u8, 'i' as u8, 's' as u8, 'p' as u8, 'u' as u8, 't' as u8, 'e' as u8];
    let resolve = ['r' as u8, 'e' as u8, 's' as u8, 'o' as u8, 'l' as u8, 'v' as u8, 'e' as u8];
    let chargeback = [
        'c' as u8,
        'h' as u8,
        'a' as u8,
        'r' as u8,
        'g' as u8,
        'e' as u8,
        'b' as u8,
        'a' as u8,
        'c' as u8,
        'k' as u8,
    ];
    assert(deposit@ =~= deposit_word());
    assert(withdrawal@ =~= withdrawal_word());
    assert(dispute@ =~= dispute_word());
    assert(resolve@ =~= resolve_word());
    assert(chargeback@ =~= chargeback_word());
    if same_bytes(text, &deposit) {
        TransactionType::Deposit
    } else if same_bytes(text, &withdrawal) {
        TransactionType::Withdrawal
    } else if same_bytes(text, &dispute) {
        TransactionType::Dispute
    } else if same_bytes(text, &resolve) {
        TransactionType::Resolve
    } else if same_bytes(text, &chargeback) {
        TransactionType::Chargeback
    } else {
        TransactionType::Unknown
    }
}

} // verus!

verus! {

/// Whether field `i` of `header` is the only one that holds `name`.
pub open spec fn names_once(header: Seq<Seq<u8>>, name: Seq<u8>, i: int) -> bool {
    &&& 0 <= i < header.len()
    &&& header[i] == name
    &&& forall|j: int| 0 <= j < header.len() && #[trigger] header[j] == name ==> j == i
}

/// The index of the one field of `header` that holds `name`, if `name`
/// occurs exactly once.
pub open spec fn column_of(header: Seq<Seq<u8>>, name: Seq<u8>) -> Option<int> {
    if exists|i: int| names_once(header, name, i) {
        Some(choose|i: int| names_once(header, name, i))
    } else {
        None
    }
}

/// Where each of the four columns stands in a row.
#[derive(Clone, Copy, Debug, PartialEq, Eq, Structural)]
pub struct Columns {
    pub transaction_type: usize,
    pub client: usize,
    pub tx: usize,
    pub amount: usize,
}

/// The places of the four columns, if `header` names each exactly once.
pub open spec fn columns_of(header: Seq<Seq<u8>>) -> Option<Columns> {
    if column_of(header, type_word()).is_some() && column_of(header, client_word()).is_some()
        && column_of(header, tx_word()).is_some() && column_of(header, amount_word()).is_some() {
        Some(
            Columns {
                transaction_type: column_of(header, type_word()).unwrap() as usize,
                client: column_of(header, client_word()).unwrap() as usize,
                tx: column_of(header, tx_word()).unwrap() as usize,
                amount: column_of(header, amount_word()).unwrap() as usize,
            },
        )
    } else {
        None
    }
}

/// The record that `row` holds under `columns`, if the row has all four
/// fields and its client, tx and amount parse.
pub open spec fn record_of_row(columns: Columns, row: Seq<Seq<u8>>) -> Option<Record> {
    if columns.transaction_type < row.len() && columns.client < row.len() && columns.tx
        < row.len() && columns.amount < row.len() && client_of_text(
        row[columns.client as int],
    ).is_some() && tx_of_text(row[columns.tx as int]).is_some() && amount_of_field(
        row[columns.amount as int],
    ).is_some() {
        Some(
            Record {
                transaction_type: type_of_text(row[columns.transaction_type as int]),
                client: client_of_text(row[columns.client as int]).unwrap(),
                tx: tx_of_text(row[columns.tx as int]).unwrap(),
                amount: amount_of_field(row[columns.amount as int]).unwrap(),
            },
        )
    } else {
        None
    }
}

/// The index of the first row of `table`, from row `from` on, that holds no
/// record under `columns`.
pub open spec fn first_bad_row(columns: Columns, table: Seq<Seq<Seq<u8>>>, from: int) -> Option<
    int,
>
    decreases table.len() - from,
{
    if from >= table.len() {
        None
    } else if record_of_row(columns, table[from]).is_none() {
        Some(from)
    } else {
        first_bad_row(columns, table, from + 1)
    }
}

/// The log that `table` holds. A table without data rows holds the empty
/// log, whatever its header. Otherwise the header must name the four columns
/// and every data row must hold a record; the log has the records in order.
pub open spec fn log_of_table(table: Seq<Seq<Seq<u8>>>) -> Result<Seq<Record>, ProcessError> {
    if table.len() <= 1 {
        Ok(Seq::empty())
    } else {
        match columns_of(table[0]) {
            None => Err(ProcessError::Header),
            Some(columns) => match first_bad_row(columns, table, 1) {
                Some(i) => Err(ProcessError::Row(i as usize)),
                None => Ok(
                    Seq::new(
                        (table.len() - 1) as nat,
                        |i: int| record_of_row(columns, table[i + 1]).unwrap(),
                    ),
                ),
            },
        }
    }
}

/// Finds the one field of `header` that holds `name`.
pub fn find_column(header: &Vec<Vec<u8>>, name: &[u8]) -> (column: Option<usize>)
    ensures
        match column {
            Some(i) => column_of(header.deep_view(), name@) == Some(i as int),
            None => column_of(header.deep_view(), name@).is_none(),
        },
{
    let ghost fields = header.deep_view();
    let mut found: Option<usize> = None;
    let mut twice = false;
    let mut i: usize = 0;
    while i < header.len()
        invariant
            i <= header.len(),
            fields == header.deep_view(),
            fields.len() == header.len(),
            found matches Some(f) ==> f < i && fields[f as int] == name@,
            found.is_none() ==> !twice && forall|j: int| 0 <= j < i ==> fields[j] != name@,
            !twice ==> forall|j: int|
                0 <= j < i && fields[j] == name@ ==> found == Some(j as usize),
            twice ==> exists|a: int, b: int|
                0 <= a < b < i && fields[a] == name@ && fields[b] == name@,
        decreases header.len() - i,
    {
        assert(fields[i as int] == header@[i as int]@);
        if same_bytes(header[i].as_slice(), name) {
            if found.is_some() {
                twice = true;
                assert(fields[found.unwrap() as int] == name@ && fields[i as int] == name@);
            } else {
                found = Some(i);
            }
        }
        i += 1;
    }
    proof {
        if twice {
            let (a, b) = choose|a: int, b: int|
                0 <= a < b < i && fields[a] == name@ && fields[b] == name@;
            assert forall|c: int| !names_once(fields, name@, c) by {
                if names_once(fields, name@, c) {
                    assert(fields[a] == name@);
                    assert(fields[b] == name@);
                }
            }
        } else if let Some(f) = found {
            assert(names_once(fields, name@, f as int));
            let chosen = choose|c: int| names_once(fields, name@, c);
            assert(names_once(fields, name@, chosen));
        }
    }
    if twice {
        None
    } else {
        found
    }
}

/// Finds the four columns in the header row.
pub fn find_columns(header: &Vec<Vec<u8>>) -> (columns: Option<Columns>)
    ensures
        columns == columns_of(header.deep_view()),
{
    let kind_column = ['t' as u8, 'y' as u8, 'p' as u8, 'e' as u8];
    let client_column = ['c' as u8, 'l' as u8, 'i' as u8, 'e' as u8, 'n' as u8, 't' as u8];
    let tx_column = ['t' as u8, 'x' as u8];
    let amount_column = ['a' as u8, 'm' as u8, 'o' as u8, 'u' as u8, 'n' as u8, 't' as u8];
    assert(kind_column@ =~= type_word());
    assert(client_column@ =~= client_word());
    assert(tx_column@ =~= tx_word());
    assert(amount_column@ =~= amount_word());
    let transaction_type = match find_column(header, &kind_column) {
        Some(i) => i,
        None => { return None; },
    };
    let client = match find_column(header, &client_column) {
        Some(i) => i,
        None => { return None; },
    };
    let tx = match find_column(header, &tx_column) {
        Some(i) => i,
        None => { return None; },
    };
    let amount = match find_column(header, &amount_column) {
        Some(i) => i,
        None => { return None; },
    };
    Some(Columns { transaction_type, client, tx, amount })
}

/// Decodes one data row into a record.
pub fn decode_row(columns: &Columns, row: &Vec<Vec<u8>>) -> (record: Option<Record>)
    ensures
        record == record_of_row(*columns, row.deep_view()),
{
    let n = row.len();
    if columns.transaction_type >= n || columns.client >= n || columns.tx >= n || columns.amount
        >= n {
        return None;
    }
    proof {
        let fields = row.deep_view();
        assert(fields[columns.transaction_type as int] == row@[columns.transaction_type as int]@);
        assert(fields[columns.client as int] == row@[columns.client as int]@);
        assert(fields[columns.tx as int] == row@[columns.tx as int]@);
        assert(fields[columns.amount as int] == row@[columns.amount as int]@);
    }
    let client = match parse_client(row[columns.client].as_slice()) {
        Some(client) => client,
        None => { return None; },
    };
    let tx = match parse_tx(row[columns.tx].as_slice()) {
        Some(tx) => tx,
        None => { return None; },
    };
    let amount = match amount(row[columns.amount].as_slice()) {
        Some(amount) => amount,
        None => { return None; },
    };
    Some(
        Record {
            transaction_type: transaction_type(row[columns.transaction_type].as_slice()),
            client,
            tx,
            amount,
        },
    )
}

} // verus!

verus! {

/// Decodes the rows that the CSV reader gave into the log they hold.
pub fn decode_table(rows: &Vec<Vec<Vec<u8>>>) -> (log: Result<Vec<Record>, ProcessError>)
    ensures
        match log {
            Ok(records) => log_of_table(rows.deep_view()) == Ok::<Seq<Record>, ProcessError>(
                records@,
            ),
            Err(error) => log_of_table(rows.deep_view()) == Err::<Seq<Record>, ProcessError>(
                error,
            ),
        },
{
    let ghost table = rows.deep_view();
    let mut records: Vec<Record> = Vec::new();
    if rows.len() <= 1 {
        assert(records@ =~= Seq::empty());
        return Ok(records);
    }
    assert(table[0] == rows@[0].deep_view());
    let columns = match find_columns(&rows[0]) {
        Some(columns) => columns,
        None => { return Err(ProcessError::Header); },
    };
    let mut i: usize = 1;
    while i < rows.len()
        invariant
            1 <= i <= rows.len(),
            table == rows.deep_view(),
            table.len() == rows.len(),
            columns_of(table[0]) == Some(columns),
            first_bad_row(columns, table, 1) == first_bad_row(columns, table, i as int),
            records@.len() == i - 1,
            forall|j: int|
                0 <= j < i - 1 ==> record_of_row(columns, table[j + 1]) == Some(
                    #[trigger] records@[j],
                ),
        decreases rows.len() - i,
    {
        assert(table[i as int] == rows@[i as int].deep_view());
        match decode_row(&columns, &rows[i]) {
            Some(record) => {
                records.push(record);
            },
            None => {
                assert(first_bad_row(columns, table, i as int) == Some(i as int));
                return Err(ProcessError::Row(i));
            },
        }
        assert(first_bad_row(columns, table, i as int) == first_bad_row(
            columns,
            table,
            i + 1,
        ));
        i += 1;
    }
    assert(records@ =~= Seq::new(
        (table.len() - 1) as nat,
        |j: int| record_of_row(columns, table[j + 1]).unwrap(),
    ));
    Ok(records)
}

} // verus!
