use payments_engine::payments::{process_table, processpayments};
use payments_engine::record::{Record, TransactionType};
use payments_engine::report::{push_account_line, push_bytes, render_report};
use payments_engine::client::Client;
use payments_engine::store::AccountStore;
use payments_engine::table::{
    decode_row, decode_table, find_column, find_columns, same_bytes, transaction_type, Columns,
    ProcessError,
};

fn text(output: Result<Vec<u8>, ProcessError>) -> String {
    match output {
        Ok(bytes) => String::from_utf8(bytes).unwrap(),
        Err(error) => panic!("no report: {:?}", error),
    }
}

fn row(fields: &[&str]) -> Vec<Vec<u8>> {
    fields.iter().map(|f| f.as_bytes().to_vec()).collect()
}

const HEADER: &str = "client,available,held,total,locked\n";

#[test]
fn single_deposit() {
    let out = text(processpayments(b"type,client,tx,amount\ndeposit,1,1,10.0\n"));
    assert_eq!(out, format!("{}1,10,0,10,false\n", HEADER));
}

#[test]
fn rejected_withdrawal_leaves_the_account() {
    let out = text(processpayments(
        b"type,client,tx,amount\ndeposit,1,1,10.0\nwithdrawal,1,2,15.0\n",
    ));
    assert_eq!(out, format!("{}1,10,0,10,false\n", HEADER));
}

#[test]
fn dispute_then_resolve() {
    let disputed = text(processpayments(
        b"type,client,tx,amount\ndeposit,1,1,10.0\ndispute,1,1,\n",
    ));
    assert_eq!(disputed, format!("{}1,0,10,10,false\n", HEADER));
    let resolved = text(processpayments(
        b"type,client,tx,amount\ndeposit,1,1,10.0\ndispute,1,1,\nresolve,1,1,\n",
    ));
    assert_eq!(resolved, format!("{}1,10,0,10,false\n", HEADER));
}

#[test]
fn dispute_then_chargeback() {
    let out = text(processpayments(
        b"type,client,tx,amount\ndeposit,1,1,10.0\ndispute,1,1,\nchargeback,1,1,\n",
    ));
    assert_eq!(out, format!("{}1,0,0,0,true\n", HEADER));
}

#[test]
fn fields_are_trimmed_and_accounts_sorted() {
    let input = b"type, client, tx, amount\n\
        deposit,   300, 1, 1.5\n\
        deposit, 2 , 2,  2.25 \n\
        withdrawal, 2, 3, 0.75\n\
        deposit, 1, 4, 0.0001\n";
    let out = text(processpayments(input));
    assert_eq!(
        out,
        format!("{}1,0.0001,0,0.0001,false\n2,1.5,0,1.5,false\n300,1.5,0,1.5,false\n", HEADER)
    );
}

#[test]
fn columns_in_another_order_and_more_columns() {
    let input = b"note,amount,tx,client,type\nhello,3.5,9,4,deposit\n,1,10,4,withdrawal\n";
    let out = text(processpayments(input));
    assert_eq!(out, format!("{}4,2.5,0,2.5,false\n", HEADER));
}

#[test]
fn unknown_type_and_upper_case_are_ignored() {
    let input = b"type,client,tx,amount\ndeposit,1,1,1\nDeposit,1,2,1\nrefund,1,3,1\n";
    let out = text(processpayments(input));
    assert_eq!(out, format!("{}1,1,0,1,false\n", HEADER));
}

#[test]
fn empty_input_and_header_alone_give_the_header_line() {
    assert_eq!(text(processpayments(b"")), HEADER);
    assert_eq!(text(processpayments(b"type,client,tx,amount\n")), HEADER);
    assert_eq!(text(processpayments(b"some,other,header\n")), HEADER);
}

#[test]
fn rows_of_unequal_length_are_a_reader_error() {
    let out = processpayments(b"type,client,tx,amount\ndeposit,1,1\n");
    assert!(matches!(out, Err(ProcessError::Csv(_))));
}

#[test]
fn invalid_utf8_is_a_reader_error() {
    let out = processpayments(b"type,client,tx,amount\ndeposit,1,1,\xff\n");
    assert!(matches!(out, Err(ProcessError::Csv(_))));
}

#[test]
fn missing_or_repeated_column_is_a_header_error() {
    let out = processpayments(b"type,client,tx\ndeposit,1,1\n");
    assert!(matches!(out, Err(ProcessError::Header)));
    let out = processpayments(b"type,client,tx,amount,tx\ndeposit,1,1,1,1\n");
    assert!(matches!(out, Err(ProcessError::Header)));
    let out = processpayments(b"Type,client,tx,amount\ndeposit,1,1,1\n");
    assert!(matches!(out, Err(ProcessError::Header)));
}

#[test]
fn bad_field_is_a_row_error_with_the_row_index() {
    let out = processpayments(b"type,client,tx,amount\ndeposit,1,1,1\ndeposit,x,2,1\n");
    assert!(matches!(out, Err(ProcessError::Row(2))));
    let out = processpayments(b"type,client,tx,amount\ndeposit,1,-1,1\n");
    assert!(matches!(out, Err(ProcessError::Row(1))));
    let out = processpayments(b"type,client,tx,amount\ndeposit,1,1,ten\ndeposit,x,2,1\n");
    assert!(matches!(out, Err(ProcessError::Row(1))));
    let out = processpayments(b"type,client,tx,amount\ndeposit,70000,1,1\n");
    assert!(matches!(out, Err(ProcessError::Row(1))));
}

#[test]
fn quoted_fields_are_read_by_the_reader() {
    let out = text(processpayments(b"\"type\",client,tx,amount\n\"deposit\",\"1\",1,\" 2.5 \"\n"));
    assert_eq!(out, format!("{}1,2.5,0,2.5,false\n", HEADER));
}

#[test]
fn table_given_as_rows() {
    let rows = vec![
        row(&["type", "client", "tx", "amount"]),
        row(&["deposit", "1", "1", "10.0"]),
        row(&["dispute", "1", "1", ""]),
    ];
    assert_eq!(text(process_table(&rows)), format!("{}1,0,10,10,false\n", HEADER));
    let ragged = vec![row(&["type", "client", "tx", "amount"]), row(&["deposit", "1", "1"])];
    assert!(matches!(process_table(&ragged), Err(ProcessError::Row(1))));
    assert_eq!(text(process_table(&Vec::new())), HEADER);
}

#[test]
fn decoding_a_table() {
    let rows = vec![
        row(&["tx", "type", "amount", "client"]),
        row(&["7", "withdrawal", "1.5", "3"]),
        row(&["8", "chargeback", "", "3"]),
    ];
    let log = decode_table(&rows).unwrap();
    assert_eq!(
        log,
        vec![
            Record { transaction_type: TransactionType::Withdrawal, client: 3, tx: 7, amount: 15_000 },
            Record { transaction_type: TransactionType::Chargeback, client: 3, tx: 8, amount: 0 },
        ]
    );
}

#[test]
fn finding_columns() {
    let header = row(&["a", "tx", "b", "a"]);
    assert_eq!(find_column(&header, b"tx"), Some(1));
    assert_eq!(find_column(&header, b"b"), Some(2));
    assert_eq!(find_column(&header, b"a"), None);
    assert_eq!(find_column(&header, b"c"), None);
    assert_eq!(
        find_columns(&row(&["client", "type", "x", "amount", "tx"])),
        Some(Columns { transaction_type: 1, client: 0, tx: 4, amount: 3 })
    );
    assert_eq!(find_columns(&row(&["client", "type", "amount"])), None);
}

#[test]
fn decoding_a_row() {
    let columns = Columns { transaction_type: 0, client: 1, tx: 2, amount: 3 };
    assert_eq!(
        decode_row(&columns, &row(&["deposit", "2", "5", "0.5"])),
        Some(Record { transaction_type: TransactionType::Deposit, client: 2, tx: 5, amount: 5_000 })
    );
    assert_eq!(
        decode_row(&columns, &row(&["what", "2", "5", ""])),
        Some(Record { transaction_type: TransactionType::Unknown, client: 2, tx: 5, amount: 0 })
    );
    assert_eq!(decode_row(&columns, &row(&["deposit", "2", "5"])), None);
    assert_eq!(decode_row(&columns, &row(&["deposit", "", "5", "1"])), None);
}

#[test]
fn names_of_the_types() {
    assert_eq!(transaction_type(b"deposit"), TransactionType::Deposit);
    assert_eq!(transaction_type(b"withdrawal"), TransactionType::Withdrawal);
    assert_eq!(transaction_type(b"dispute"), TransactionType::Dispute);
    assert_eq!(transaction_type(b"resolve"), TransactionType::Resolve);
    assert_eq!(transaction_type(b"chargeback"), TransactionType::Chargeback);
    assert_eq!(transaction_type(b"Deposit"), TransactionType::Unknown);
    assert_eq!(transaction_type(b"deposit "), TransactionType::Unknown);
    assert_eq!(transaction_type(b""), TransactionType::Unknown);
    assert!(same_bytes(b"abc", b"abc"));
    assert!(!same_bytes(b"abc", b"abd"));
    assert!(!same_bytes(b"abc", b"ab"));
}

#[test]
fn report_of_a_store() {
    let mut store = AccountStore::new();
    store.upsert(Client { id: 65535, available: -5, held: 15_000, total: 14_995, locked: true });
    store.upsert(Client { id: 0, available: 1, held: 0, total: 1, locked: false });
    let report = String::from_utf8(render_report(&store)).unwrap();
    assert_eq!(
        report,
        format!("{}0,0.0001,0,0.0001,false\n65535,-0.0005,1.5,1.4995,true\n", HEADER)
    );
    let mut line = Vec::new();
    push_bytes(&mut line, b"> ");
    push_account_line(
        &mut line,
        &Client { id: 12, available: 30_000, held: 0, total: 30_000, locked: false },
    );
    assert_eq!(line, b"> 12,3,0,3,false\n".to_vec());
}
