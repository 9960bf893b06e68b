use bank_record_converter::{
    AppError, BankRecord, CsvParseError, CsvYPBankRecord, Message, StatusTransaction,
    TypeTransaction,
};

const EXAMPLE: &str = "TX_ID,TX_TYPE,FROM_USER_ID,TO_USER_ID,AMOUNT,TIMESTAMP,STATUS,DESCRIPTION
1000000000000000,DEPOSIT,0,9223372036854775807,100,1633036860000,FAILURE,\"Record number 1\"
1000000000000001,TRANSFER,9223372036854775807,9223372036854775807,200,1633036920000,PENDING,\"Record number 2\"
1000000000000002,WITHDRAWAL,599094029349995112,0,300,1633036980000,SUCCESS,\"Record, number 3\"
";

const HEADER: &str = "TX_ID,TX_TYPE,FROM_USER_ID,TO_USER_ID,AMOUNT,TIMESTAMP,STATUS,DESCRIPTION\n";

fn record(tx_id: u64, description: &str) -> Message {
    Message {
        tx_id,
        tx_type: TypeTransaction::Withdrawal,
        from_user_id: 1,
        to_user_id: 2,
        amount: 3,
        timestamp: 4,
        status: StatusTransaction::Success,
        description: description.to_string(),
    }
}

fn row(fields: &[&str]) -> Vec<String> {
    fields.iter().map(|f| f.to_string()).collect()
}

fn header_row() -> Vec<String> {
    row(&[
        "TX_ID", "TX_TYPE", "FROM_USER_ID", "TO_USER_ID", "AMOUNT", "TIMESTAMP", "STATUS",
        "DESCRIPTION",
    ])
}

#[test]
fn csv_format_test_read() {
    let data = CsvYPBankRecord::from_read(EXAMPLE.as_bytes()).unwrap();
    assert!(data.len() > 0);
}

#[test]
fn csv_format_test_write() {
    let data = CsvYPBankRecord::from_read(EXAMPLE.as_bytes()).unwrap();

    let mut written = Vec::new();
    assert!(data.write_to(&mut written).is_ok());

    let wr_data = CsvYPBankRecord::from_read(&written).unwrap();
    assert_eq!(data, wr_data);
}

#[test]
fn csv_reads_rows_in_order() {
    let data = CsvYPBankRecord::from_read(EXAMPLE.as_bytes()).unwrap();
    let all: Vec<&Message> = data.iter().collect();
    assert_eq!(all.len(), 3);
    assert_eq!(
        *all[0],
        Message {
            tx_id: 1000000000000000,
            tx_type: TypeTransaction::Deposit,
            from_user_id: 0,
            to_user_id: 9223372036854775807,
            amount: 100,
            timestamp: 1633036860000,
            status: StatusTransaction::Failure,
            description: "Record number 1".to_string(),
        }
    );
    assert_eq!(all[1].tx_type, TypeTransaction::Transfer);
    assert_eq!(all[1].status, StatusTransaction::Pending);
    assert_eq!(all[2].description, "Record, number 3");
}

#[test]
fn csv_write_quotes_only_where_needed() {
    let mut data = CsvYPBankRecord::new();
    data.push(record(1, "plain"));
    data.push(record(2, "with, comma"));
    data.push(record(3, "with \"quotes\""));
    data.push(record(4, ""));
    let mut out = Vec::new();
    data.write_to(&mut out).unwrap();
    let expected = format!(
        "{}{}{}{}{}",
        HEADER,
        "1,WITHDRAWAL,1,2,3,4,SUCCESS,plain\n",
        "2,WITHDRAWAL,1,2,3,4,SUCCESS,\"with, comma\"\n",
        "3,WITHDRAWAL,1,2,3,4,SUCCESS,\"with \"\"quotes\"\"\"\n",
        "4,WITHDRAWAL,1,2,3,4,SUCCESS,\n"
    );
    assert_eq!(String::from_utf8(out.clone()).unwrap(), expected);
    assert_eq!(CsvYPBankRecord::from_read(&out).unwrap(), data);
}

#[test]
fn csv_no_record_is_no_text() {
    let data = CsvYPBankRecord::new();
    let mut out = vec![7u8];
    data.write_to(&mut out).unwrap();
    assert_eq!(out, vec![7u8]);
    assert!(data.to_rows().is_empty());
    assert_eq!(CsvYPBankRecord::from_read(b"").unwrap().len(), 0);
    assert_eq!(CsvYPBankRecord::from_read(HEADER.as_bytes()).unwrap().len(), 0);
    assert_eq!(CsvYPBankRecord::from_rows(Vec::new()).unwrap().len(), 0);
}

#[test]
fn csv_rows_of_records() {
    let mut data = CsvYPBankRecord::new();
    data.push(record(18446744073709551615, "d"));
    let rows = data.to_rows();
    assert_eq!(rows.len(), 2);
    assert_eq!(rows[0], header_row());
    assert_eq!(
        rows[1],
        row(&["18446744073709551615", "WITHDRAWAL", "1", "2", "3", "4", "SUCCESS", "d"])
    );
    assert_eq!(CsvYPBankRecord::from_rows(rows).unwrap(), data);
}

#[test]
fn csv_unequal_rows_are_an_error_of_the_table() {
    let text = format!("{}1,DEPOSIT,0,1,2,3,SUCCESS\n", HEADER);
    match CsvYPBankRecord::from_read(text.as_bytes()) {
        Err(AppError::CsvParseError(CsvParseError::TableError(e))) => {
            assert!(matches!(e.kind(), csv::ErrorKind::UnequalLengths { .. }))
        }
        other => panic!("unexpected outcome {:?}", other),
    }
    let mut bytes = format!("{}1,DEPOSIT,0,1,2,3,SUCCESS,", HEADER).into_bytes();
    bytes.extend_from_slice(&[0xFF, b'\n']);
    assert!(matches!(
        CsvYPBankRecord::from_read(&bytes),
        Err(AppError::CsvParseError(CsvParseError::TableError(_)))
    ));
}

#[test]
fn csv_header_must_be_the_eight_columns() {
    let text = "TX_TYPE,TX_ID,FROM_USER_ID,TO_USER_ID,AMOUNT,TIMESTAMP,STATUS,DESCRIPTION\n";
    match CsvYPBankRecord::from_read(text.as_bytes()) {
        Err(AppError::CsvParseError(CsvParseError::ColumnError(row))) => assert_eq!(
            row,
            "TX_TYPE,TX_ID,FROM_USER_ID,TO_USER_ID,AMOUNT,TIMESTAMP,STATUS,DESCRIPTION"
        ),
        other => panic!("unexpected outcome {:?}", other),
    }
    match CsvYPBankRecord::from_read(b"1,DEPOSIT,0,1,2,3,SUCCESS,first row\n") {
        Err(AppError::CsvParseError(CsvParseError::ColumnError(row))) => {
            assert_eq!(row, "1,DEPOSIT,0,1,2,3,SUCCESS,first row")
        }
        other => panic!("unexpected outcome {:?}", other),
    }
    match CsvYPBankRecord::from_read(b"a,b\n1,2\n") {
        Err(AppError::CsvParseError(CsvParseError::ColumnError(row))) => assert_eq!(row, "a,b"),
        other => panic!("unexpected outcome {:?}", other),
    }
}

#[test]
fn csv_row_must_have_eight_fields() {
    let rows = vec![header_row(), row(&["1", "DEPOSIT", "0"])];
    match CsvYPBankRecord::from_rows(rows) {
        Err(AppError::CsvParseError(CsvParseError::ColumnError(r))) => {
            assert_eq!(r, "1,DEPOSIT,0")
        }
        other => panic!("unexpected outcome {:?}", other),
    }
    let rows = vec![header_row(), Vec::new()];
    match CsvYPBankRecord::from_rows(rows) {
        Err(AppError::CsvParseError(CsvParseError::ColumnError(r))) => assert_eq!(r, ""),
        other => panic!("unexpected outcome {:?}", other),
    }
}

#[test]
fn csv_first_bad_field_is_the_error() {
    let cases = [
        ("x1,NOPE,0,1,2,3,SUCCESS,d", "x1"),
        ("1,Deposit,zero,1,2,3,SUCCESS,d", "Deposit"),
        ("1,DEPOSIT,-0,1,2,3,SUCCESS,d", "-0"),
        ("1,DEPOSIT,0,,2,3,SUCCESS,d", ""),
        ("1,DEPOSIT,0,1,2.0,3,SUCCESS,d", "2.0"),
        ("1,DEPOSIT,0,1,2,18446744073709551616,SUCCESS,d", "18446744073709551616"),
        ("1,DEPOSIT,0,1,2,3,success,d", "success"),
    ];
    for (line, field) in cases {
        let text = format!("{}7,DEPOSIT,0,1,2,3,SUCCESS,fine\n{}\nbad,row,,,,,,\n", HEADER, line);
        match CsvYPBankRecord::from_read(text.as_bytes()) {
            Err(AppError::CsvParseError(CsvParseError::FieldError(f))) => assert_eq!(f, field),
            other => panic!("unexpected outcome {:?} for {:?}", other, line),
        }
    }
}

#[test]
fn csv_push_pop_len() {
    let mut data = CsvYPBankRecord::new();
    assert!(data.is_empty());
    assert_eq!(data.pop(), None);
    data.push(record(1, "a"));
    data.push(record(2, "b"));
    assert_eq!(data.len(), 2);
    assert_eq!(data.pop(), Some(record(2, "b")));
    assert!(!data.is_empty());
}
