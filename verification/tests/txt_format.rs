use bank_record_converter::text::{chars_of, is_blank_line, split_lines, string_of};
use bank_record_converter::{
    AppError, BankRecord, Message, StatusTransaction, TxtYPBankRecord, TypeTransaction,
};

const EXAMPLE: &str = "# Record 1 (DEPOSIT)
TX_TYPE: DEPOSIT
TO_USER_ID: 9223372036854775807
FROM_USER_ID: 0
TIMESTAMP: 1633036860000
DESCRIPTION: \"Record number 1\"
TX_ID: 1000000000000000
AMOUNT: 100
STATUS: FAILURE

# Record 2 (TRANSFER)
DESCRIPTION: \"Record number 2\"
TIMESTAMP: 1633036920000
STATUS: PENDING
AMOUNT: 200
TX_ID: 1000000000000001
TX_TYPE: TRANSFER
FROM_USER_ID: 9223372036854775807
TO_USER_ID: 9223372036854775807

";

fn record_one() -> Message {
    Message {
        tx_id: 1000000000000000,
        tx_type: TypeTransaction::Deposit,
        from_user_id: 0,
        to_user_id: 9223372036854775807,
        amount: 100,
        timestamp: 1633036860000,
        status: StatusTransaction::Failure,
        description: "\"Record number 1\"".to_string(),
    }
}

fn lines(block: &[&str]) -> Vec<String> {
    block.iter().map(|l| l.to_string()).collect()
}

fn defaults() -> Message {
    Message {
        tx_id: 0,
        tx_type: TypeTransaction::Transfer,
        from_user_id: 0,
        to_user_id: 0,
        amount: 0,
        timestamp: 0,
        status: StatusTransaction::Failure,
        description: String::new(),
    }
}

#[test]
fn txt_format_test_read() {
    let data = TxtYPBankRecord::from_read(EXAMPLE.as_bytes()).unwrap();
    assert!(data.len() > 0);
}

#[test]
fn txt_format_test_write() {
    let data = TxtYPBankRecord::from_read(EXAMPLE.as_bytes()).unwrap();

    let mut written = Vec::new();
    assert!(data.write_to(&mut written).is_ok());

    let wr_data = TxtYPBankRecord::from_read(&written).unwrap();
    assert_eq!(data, wr_data);
}

#[test]
fn txt_reads_fields_in_any_order() {
    let data = TxtYPBankRecord::from_read(EXAMPLE.as_bytes()).unwrap();
    assert_eq!(data.len(), 2);
    let all: Vec<&Message> = data.iter().collect();
    assert_eq!(*all[0], record_one());
    assert_eq!(all[1].tx_id, 1000000000000001);
    assert_eq!(all[1].tx_type, TypeTransaction::Transfer);
    assert_eq!(all[1].status, StatusTransaction::Pending);
    assert_eq!(all[1].description, "\"Record number 2\"");
}

#[test]
fn txt_defaulting() {
    let data = TxtYPBankRecord::from_read(b"TX_ID: 7\n\n").unwrap();
    assert_eq!(data.len(), 1);
    let expected = Message { tx_id: 7, ..defaults() };
    assert_eq!(data.iter().next(), Some(&expected));
    assert_eq!(Message::from_str(lines(&["TX_ID: 7"])).unwrap(), expected);
    assert_eq!(Message::from_str(Vec::new()).unwrap(), defaults());
}

#[test]
fn txt_comment_and_unknown_lines_are_passed_over() {
    let text = "# note\nGARBAGE LINE\nTX_ID: 5\nAMOUNT: 12\n  STATUS: nothing\n\n";
    let data = TxtYPBankRecord::from_read(text.as_bytes()).unwrap();
    assert_eq!(data.len(), 1);
    let expected = Message { tx_id: 5, amount: 12, ..defaults() };
    assert_eq!(data.iter().next(), Some(&expected));
}

#[test]
fn txt_last_block_needs_no_blank_line() {
    let data = TxtYPBankRecord::from_read(b"TX_ID: 1\n\nTX_ID: 2").unwrap();
    let ids: Vec<u64> = data.iter().map(|m| m.tx_id).collect();
    assert_eq!(ids, vec![1, 2]);
    let data = TxtYPBankRecord::from_read(b"TX_ID: 3\nAMOUNT: 4\n").unwrap();
    assert_eq!(data.len(), 1);
}

#[test]
fn txt_blank_lines_separate_records() {
    let text = "\n\nTX_ID: 1\n\n \t\n\r\n\nTX_ID: 2\n\u{00A0}\nTX_ID: 3\n\n\n";
    let data = TxtYPBankRecord::from_read(text.as_bytes()).unwrap();
    let ids: Vec<u64> = data.iter().map(|m| m.tx_id).collect();
    assert_eq!(ids, vec![1, 2, 3]);
    assert_eq!(TxtYPBankRecord::from_read(b"").unwrap().len(), 0);
    assert_eq!(TxtYPBankRecord::from_read(b"\n\n\n").unwrap().len(), 0);
}

#[test]
fn txt_carriage_returns_end_lines_too() {
    let text = "TX_ID: 9\r\nDESCRIPTION: hello\r\n\r\nTX_ID: 10\r\n";
    let data = TxtYPBankRecord::from_read(text.as_bytes()).unwrap();
    let all: Vec<&Message> = data.iter().collect();
    assert_eq!(all.len(), 2);
    assert_eq!(all[0].tx_id, 9);
    assert_eq!(all[0].description, "hello");
    assert_eq!(all[1].tx_id, 10);
}

#[test]
fn txt_bad_value_names_the_line() {
    for line in [
        "TX_ID: abc",
        "TX_ID 5",
        "TX_ID: ",
        "TX_ID: -1",
        "TX_ID: 18446744073709551616",
        "TX_TYPE: deposit",
        "TX_TYPE:DEPOSIT",
        "FROM_USER_ID: 1.5",
        "TO_USER_ID: 1 ",
        "AMOUNT:  7",
        "TIMESTAMP: 0x10",
        "STATUS: DONE",
        "DESCRIPTION",
    ] {
        let text = format!("TX_ID: 1\n{}\nAMOUNT: x\n\n", line);
        match TxtYPBankRecord::from_read(text.as_bytes()) {
            Err(AppError::TxtParseError(l)) => assert_eq!(l, line),
            other => panic!("unexpected outcome {:?} for {:?}", other, line),
        }
        match Message::from_str(lines(&["# first", line])) {
            Err(AppError::TxtParseError(l)) => assert_eq!(l, line),
            other => panic!("unexpected outcome {:?} for {:?}", other, line),
        }
    }
}

#[test]
fn txt_first_bad_block_is_the_error() {
    let text = "TX_ID: 1\n\nSTATUS: NO\n\nTX_ID: zz\n";
    match TxtYPBankRecord::from_read(text.as_bytes()) {
        Err(AppError::TxtParseError(l)) => assert_eq!(l, "STATUS: NO"),
        other => panic!("unexpected outcome {:?}", other),
    }
}

#[test]
fn txt_numbers_as_the_standard_library_reads_them() {
    let block = lines(&["TX_ID: +42", "AMOUNT: 007", "TIMESTAMP: 18446744073709551615"]);
    let m = Message::from_str(block).unwrap();
    assert_eq!(m.tx_id, 42);
    assert_eq!(m.amount, 7);
    assert_eq!(m.timestamp, u64::MAX);
}

#[test]
fn txt_value_is_what_stands_between_separators() {
    let m = Message::from_str(lines(&["DESCRIPTION: a: b", "TX_ID: 3: 4", "AMOUNT: 5: x"]))
        .unwrap();
    assert_eq!(m.description, "a");
    assert_eq!(m.tx_id, 3);
    assert_eq!(m.amount, 5);
    let m = Message::from_str(lines(&["DESCRIPTION:  two  spaces "])).unwrap();
    assert_eq!(m.description, " two  spaces ");
    let m = Message::from_str(lines(&["DESCRIPTION: "])).unwrap();
    assert_eq!(m.description, "");
}

#[test]
fn txt_later_lines_win_and_keys_are_prefixes() {
    let m = Message::from_str(lines(&["TX_ID: 1", "TX_ID: 2", "TX_IDENTIFIER: 3"])).unwrap();
    assert_eq!(m.tx_id, 3);
    let m = Message::from_str(lines(&["#TX_ID: x", "STATUS: SUCCESS", "TX_TYPE: WITHDRAWAL"]))
        .unwrap();
    assert_eq!(m.status, StatusTransaction::Success);
    assert_eq!(m.tx_type, TypeTransaction::Withdrawal);
}

#[test]
fn txt_description_that_ends_with_a_carriage_return_loses_it() {
    let data = TxtYPBankRecord::from_read(b"DESCRIPTION: a\r\r\n").unwrap();
    assert_eq!(data.iter().next().unwrap().description, "a\r");
    let mut out = Vec::new();
    data.write_to(&mut out).unwrap();
    let again = TxtYPBankRecord::from_read(&out).unwrap();
    assert_eq!(again.iter().next().unwrap().description, "a");
    let inner = TxtYPBankRecord::from_read(b"DESCRIPTION: a\rb\n").unwrap();
    let mut out = Vec::new();
    inner.write_to(&mut out).unwrap();
    assert_eq!(TxtYPBankRecord::from_read(&out).unwrap(), inner);
}

#[test]
fn txt_not_utf8() {
    assert!(matches!(
        TxtYPBankRecord::from_read(&[b'T', b'X', 0xFF, b'\n']),
        Err(AppError::BinUtf8Error(_))
    ));
}

#[test]
fn txt_record_text() {
    let text = record_one().to_string();
    assert_eq!(
        text,
        "TX_ID: 1000000000000000\nTX_TYPE: DEPOSIT\nFROM_USER_ID: 0\n\
         TO_USER_ID: 9223372036854775807\nAMOUNT: 100\nTIMESTAMP: 1633036860000\n\
         STATUS: FAILURE\nDESCRIPTION: \"Record number 1\"\n\n"
    );
}

#[test]
fn txt_write_is_the_texts_in_order() {
    let mut data = TxtYPBankRecord::new();
    data.push(record_one());
    data.push(Message { description: "Grüße".to_string(), ..defaults() });
    let mut out = b"head\n".to_vec();
    data.write_to(&mut out).unwrap();
    let expected = format!(
        "head\n{}{}",
        record_one().to_string(),
        Message { description: "Grüße".to_string(), ..defaults() }.to_string()
    );
    assert_eq!(String::from_utf8(out).unwrap(), expected);
}

#[test]
fn txt_default_and_new_are_empty() {
    assert_eq!(TxtYPBankRecord::default(), TxtYPBankRecord::new());
    assert!(TxtYPBankRecord::default().is_empty());
}

#[test]
fn txt_push_pop_len() {
    let mut data = TxtYPBankRecord::new();
    assert_eq!(data.pop(), None);
    data.push(record_one());
    data.push(defaults());
    assert_eq!(data.len(), 2);
    assert_eq!(data.pop(), Some(defaults()));
    assert_eq!(data.pop(), Some(record_one()));
    assert!(data.is_empty());
}

#[test]
fn text_lines() {
    let split = |t: &str| -> Vec<String> {
        split_lines(&chars_of(t)).iter().map(|l| string_of(l)).collect()
    };
    assert_eq!(split(""), Vec::<String>::new());
    assert_eq!(split("a"), vec!["a"]);
    assert_eq!(split("a\n"), vec!["a"]);
    assert_eq!(split("a\n\nb"), vec!["a", "", "b"]);
    assert_eq!(split("\n"), vec![""]);
    assert_eq!(split("a\r\nb\r"), vec!["a", "b\r"]);
    assert_eq!(split("a\r\r\n"), vec!["a\r"]);
    for t in ["", "a", "a\n", "x\r\n\r\ny\rz\n\n", "\n\n", "é\nü\r\n"] {
        let std_lines: Vec<String> = t.lines().map(|l| l.to_string()).collect();
        let mut expected = std_lines.clone();
        if t.ends_with('\r') {
            let last = expected.last_mut().unwrap();
            last.push('\r');
        }
        assert_eq!(split(t), expected);
    }
}

#[test]
fn text_blank_and_conversion() {
    assert!(is_blank_line(&chars_of("")));
    assert!(is_blank_line(&chars_of(" \t\r\u{000B}\u{000C}\u{0085}\u{00A0}\u{1680}\u{2003}\u{3000}")));
    assert!(!is_blank_line(&chars_of(" a ")));
    assert!(!is_blank_line(&chars_of("\u{200B}")));
    for c in (0u32..0x3100).filter_map(char::from_u32) {
        assert_eq!(is_blank_line(&[c]), c.is_whitespace());
    }
    assert_eq!(chars_of("añ€"), vec!['a', 'ñ', '€']);
    assert_eq!(string_of(&['a', 'ñ', '€']), "añ€");
}
