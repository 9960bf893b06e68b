use bank_record_converter::convertor::bin_format::{
    MAGIC_NUMBER, MAX_SIZE_MESSAGE, MIN_SIZE_MESSAGE,
};
use bank_record_converter::{
    AppError, BankRecord, BinParseError, BinYPBankRecord, Message, StatusTransaction,
    TypeTransaction,
};

fn sample(tx_id: u64, description: &str) -> Message {
    Message {
        tx_id,
        tx_type: TypeTransaction::Transfer,
        from_user_id: 10,
        to_user_id: 20,
        amount: 500,
        timestamp: 1633036860000,
        status: StatusTransaction::Pending,
        description: description.to_string(),
    }
}

/// One frame with a body of the fixed fields and then `extra`, declared
/// `size` bytes long.
fn frame(size: u32, tx_type: u8, status: u8, desc_len: u32, extra: &[u8]) -> Vec<u8> {
    let mut bytes = vec![0x59, 0x50, 0x42, 0x4E];
    bytes.extend_from_slice(&size.to_be_bytes());
    bytes.extend_from_slice(&1u64.to_be_bytes());
    bytes.push(tx_type);
    bytes.extend_from_slice(&10u64.to_be_bytes());
    bytes.extend_from_slice(&20u64.to_be_bytes());
    bytes.extend_from_slice(&500u64.to_be_bytes());
    bytes.extend_from_slice(&1000u64.to_be_bytes());
    bytes.push(status);
    bytes.extend_from_slice(&desc_len.to_be_bytes());
    bytes.extend_from_slice(extra);
    bytes
}

fn example_bytes() -> Vec<u8> {
    let mut data = BinYPBankRecord::new();
    data.push(sample(1, "\"Record number 1\""));
    data.push(sample(2, ""));
    data.push(sample(u64::MAX, "\"Überweisung\""));
    let mut bytes = Vec::new();
    data.write_to(&mut bytes).unwrap();
    bytes
}

#[test]
fn bin_format_test_read() {
    let bytes = example_bytes();
    let data = BinYPBankRecord::from_read(&bytes).unwrap();
    assert!(data.len() > 0);
}

#[test]
fn bin_format_test_write() {
    let bytes = example_bytes();
    let data = BinYPBankRecord::from_read(&bytes).unwrap();

    let mut written = Vec::new();
    assert!(data.write_to(&mut written).is_ok());

    let wr_data = BinYPBankRecord::from_read(&written).unwrap();
    assert_eq!(data, wr_data);
    assert_eq!(written, bytes);
}

#[test]
fn bin_constants() {
    assert_eq!(MAGIC_NUMBER, *b"YPBN");
    assert_eq!(MIN_SIZE_MESSAGE, 46);
    assert_eq!(MAX_SIZE_MESSAGE, 1024);
}

#[test]
fn bin_reads_records_in_order() {
    let data = BinYPBankRecord::from_read(&example_bytes()).unwrap();
    let ids: Vec<u64> = data.iter().map(|m| m.tx_id).collect();
    assert_eq!(ids, vec![1, 2, u64::MAX]);
    let last = data.iter().last().unwrap();
    assert_eq!(*last, sample(u64::MAX, "\"Überweisung\""));
}

#[test]
fn bin_empty_input_is_no_record() {
    let data = BinYPBankRecord::from_read(&[]).unwrap();
    assert_eq!(data.len(), 0);
    assert!(data.is_empty());
    let mut out = Vec::new();
    data.write_to(&mut out).unwrap();
    assert!(out.is_empty());
}

#[test]
fn bin_example_end_to_end() {
    let bytes = frame(0x2E, 0, 0, 0, &[]);
    assert_eq!(bytes.len(), 54);
    assert_eq!(&bytes[..8], &[0x59, 0x50, 0x42, 0x4E, 0x00, 0x00, 0x00, 0x2E]);
    let data = BinYPBankRecord::from_read(&bytes).unwrap();
    assert_eq!(data.len(), 1);
    let expected = Message {
        tx_id: 1,
        tx_type: TypeTransaction::Deposit,
        from_user_id: 10,
        to_user_id: 20,
        amount: 500,
        timestamp: 1000,
        status: StatusTransaction::Success,
        description: String::new(),
    };
    assert_eq!(data.iter().next(), Some(&expected));
    let mut out = Vec::new();
    data.write_to(&mut out).unwrap();
    assert_eq!(out, bytes);
}

#[test]
fn bin_body_layout() {
    let body = sample(0x0102030405060708, "é").to_bin().unwrap();
    let mut expected = vec![1, 2, 3, 4, 5, 6, 7, 8, 1];
    expected.extend_from_slice(&10u64.to_be_bytes());
    expected.extend_from_slice(&20u64.to_be_bytes());
    expected.extend_from_slice(&500u64.to_be_bytes());
    expected.extend_from_slice(&1633036860000u64.to_be_bytes());
    expected.push(2);
    expected.extend_from_slice(&[0, 0, 0, 2, 0xC3, 0xA9]);
    assert_eq!(body, expected);
    assert_eq!(Message::parse_from_bin(&body).unwrap(), sample(0x0102030405060708, "é"));
}

#[test]
fn bin_lengths_count_bytes_not_characters() {
    let mut data = BinYPBankRecord::new();
    data.push(sample(7, "öö"));
    let mut out = Vec::new();
    data.write_to(&mut out).unwrap();
    assert_eq!(&out[4..8], &[0, 0, 0, 50]);
    assert_eq!(&out[50..54], &[0, 0, 0, 4]);
    assert_eq!(out.len(), 58);
}

#[test]
fn bin_truncated_body_is_io_error() {
    let mut bytes = frame(46, 0, 0, 0, &[]);
    bytes.pop();
    let err = BinYPBankRecord::from_read(&bytes).unwrap_err();
    match err {
        AppError::IOError(e) => assert_eq!(e.kind(), std::io::ErrorKind::UnexpectedEof),
        other => panic!("unexpected error {:?}", other),
    }
}

#[test]
fn bin_truncated_second_frame_is_io_error() {
    let mut bytes = frame(46, 0, 0, 0, &[]);
    bytes.extend_from_slice(&frame(46, 1, 1, 0, &[])[..30]);
    assert!(matches!(BinYPBankRecord::from_read(&bytes), Err(AppError::IOError(_))));
}

#[test]
fn bin_truncated_header_is_io_error() {
    assert!(matches!(
        BinYPBankRecord::from_read(&[0x59, 0x50, 0x42, 0x4E, 0, 0]),
        Err(AppError::IOError(_))
    ));
    assert!(matches!(BinYPBankRecord::from_read(&[0x59, 0x50]), Err(AppError::IOError(_))));
}

#[test]
fn bin_every_cut_of_the_last_frame_is_io_error() {
    let bytes = example_bytes();
    let data = BinYPBankRecord::from_read(&bytes).unwrap();
    let last = data.iter().last().unwrap().to_bin().unwrap().len() + 8;
    for cut in 1..last {
        let short = &bytes[..bytes.len() - cut];
        assert!(matches!(BinYPBankRecord::from_read(short), Err(AppError::IOError(_))));
    }
    assert_eq!(BinYPBankRecord::from_read(&bytes[..bytes.len() - last]).unwrap().len(), 2);
}

#[test]
fn bin_size_bounds() {
    let too_small = frame(45, 0, 0, 0, &[]);
    match BinYPBankRecord::from_read(&too_small).unwrap_err() {
        AppError::BinParseError(BinParseError::MessageSizeError(m)) => {
            assert_eq!(m, "Message size is less than 46 bytes: 45")
        }
        other => panic!("unexpected error {:?}", other),
    }
    let too_large = frame(1025, 0, 0, 0, &[0u8; 979]);
    match BinYPBankRecord::from_read(&too_large).unwrap_err() {
        AppError::BinParseError(BinParseError::MessageSizeError(m)) => {
            assert_eq!(m, "Message size is more than 1024 bytes: 1025")
        }
        other => panic!("unexpected error {:?}", other),
    }
    let least = frame(46, 0, 0, 0, &[]);
    assert_eq!(BinYPBankRecord::from_read(&least).unwrap().len(), 1);
    let most = frame(1024, 0, 0, 978, &[b'a'; 978]);
    let data = BinYPBankRecord::from_read(&most).unwrap();
    assert_eq!(data.iter().next().unwrap().description.len(), 978);
}

#[test]
fn bin_enum_domain() {
    match BinYPBankRecord::from_read(&frame(46, 3, 0, 0, &[])).unwrap_err() {
        AppError::BinParseError(BinParseError::TransactionError(m)) => {
            assert_eq!(m, "Invalid transaction type")
        }
        other => panic!("unexpected error {:?}", other),
    }
    match BinYPBankRecord::from_read(&frame(46, 0, 5, 0, &[])).unwrap_err() {
        AppError::BinParseError(BinParseError::TransactionError(m)) => {
            assert_eq!(m, "Invalid transaction status")
        }
        other => panic!("unexpected error {:?}", other),
    }
    let ok = BinYPBankRecord::from_read(&frame(46, 2, 2, 0, &[])).unwrap();
    let m = ok.iter().next().unwrap();
    assert_eq!(m.tx_type, TypeTransaction::Withdrawal);
    assert_eq!(m.status, StatusTransaction::Pending);
}

#[test]
fn bin_enum_codes() {
    for code in 0u8..=2 {
        assert_eq!(TypeTransaction::from_u8(code).unwrap().to_u8(), code);
        assert_eq!(StatusTransaction::from_u8(code).unwrap().to_u8(), code);
    }
    assert_eq!(TypeTransaction::from_u8(1).unwrap(), TypeTransaction::Transfer);
    assert_eq!(StatusTransaction::from_u8(1).unwrap(), StatusTransaction::Failure);
    assert!(TypeTransaction::from_u8(3).is_err());
    assert!(StatusTransaction::from_u8(255).is_err());
}

#[test]
fn bin_bad_magic() {
    let mut bytes = frame(46, 0, 0, 0, &[]);
    bytes[3] = 0x4D;
    match BinYPBankRecord::from_read(&bytes).unwrap_err() {
        AppError::BinParseError(BinParseError::MagicNumberError(m)) => assert_eq!(
            m,
            "Invalid magic number: [89, 80, 66, 77], expected: [89, 80, 66, 78]"
        ),
        other => panic!("unexpected error {:?}", other),
    }
}

#[test]
fn bin_description_past_body() {
    let bytes = frame(48, 0, 0, 3, &[b'a', b'b']);
    match BinYPBankRecord::from_read(&bytes).unwrap_err() {
        AppError::BinParseError(BinParseError::DescriptionError(m)) => {
            assert_eq!(m, "Description length is greater than buffer length")
        }
        other => panic!("unexpected error {:?}", other),
    }
}

#[test]
fn bin_description_not_utf8() {
    let bytes = frame(48, 0, 0, 2, &[0xC3, 0x28]);
    assert!(matches!(BinYPBankRecord::from_read(&bytes), Err(AppError::BinUtf8Error(_))));
}

#[test]
fn bin_bytes_after_description_are_ignored() {
    let bytes = frame(50, 0, 0, 2, &[b'o', b'k', 0xFF, 0xFF]);
    let data = BinYPBankRecord::from_read(&bytes).unwrap();
    assert_eq!(data.iter().next().unwrap().description, "ok");
}

#[test]
fn bin_short_body_alone() {
    match Message::parse_from_bin(&[0u8; 45]).unwrap_err() {
        AppError::BinParseError(BinParseError::MessageSizeError(m)) => {
            assert_eq!(m, "Message size is less than 46 bytes: 45")
        }
        other => panic!("unexpected error {:?}", other),
    }
}

#[test]
fn bin_write_appends_and_keeps_what_was_there() {
    let mut data = BinYPBankRecord::new();
    data.push(sample(3, "x"));
    let mut out = vec![1u8, 2, 3];
    data.write_to(&mut out).unwrap();
    assert_eq!(&out[..3], &[1, 2, 3]);
    assert_eq!(BinYPBankRecord::from_read(&out[3..]).unwrap(), data);
}

#[test]
fn bin_push_pop_len() {
    let mut data = BinYPBankRecord::new();
    assert!(data.is_empty());
    assert_eq!(data.pop(), None);
    data.push(sample(1, "a"));
    data.push(sample(2, "b"));
    assert_eq!(data.len(), 2);
    assert_eq!(data.pop(), Some(sample(2, "b")));
    assert_eq!(data.len(), 1);
    assert!(!data.is_empty());
}
