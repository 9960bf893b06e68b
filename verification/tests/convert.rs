use bank_record_converter::{
    AppError, BankRecordConvertor, BinYPBankRecord, CsvYPBankRecord, DataFormat, Message, Remap,
    StatusTransaction, TxtYPBankRecord, TypeTransaction,
};

const TXT: &str = "TX_ID: 1000000000000000
TX_TYPE: DEPOSIT
FROM_USER_ID: 0
TO_USER_ID: 9223372036854775807
AMOUNT: 100
TIMESTAMP: 1633036860000
STATUS: FAILURE
DESCRIPTION: \"Record number 1\"

TX_ID: 1000000000000001
TX_TYPE: TRANSFER
FROM_USER_ID: 9223372036854775807
TO_USER_ID: 9223372036854775807
AMOUNT: 200
TIMESTAMP: 1633036920000
STATUS: PENDING
DESCRIPTION: \"Record number 2\"

";

const CSV: &str = "TX_ID,TX_TYPE,FROM_USER_ID,TO_USER_ID,AMOUNT,TIMESTAMP,STATUS,DESCRIPTION
1000000000000000,DEPOSIT,0,9223372036854775807,100,1633036860000,FAILURE,\"Record number 1\"
1000000000000001,TRANSFER,9223372036854775807,9223372036854775807,200,1633036920000,PENDING,\"Record number 2\"
";

fn records(quotes: bool) -> Vec<Message> {
    let describe = |n: u32| {
        if quotes {
            format!("\"Record number {}\"", n)
        } else {
            format!("Record number {}", n)
        }
    };
    vec![
        Message {
            tx_id: 1000000000000000,
            tx_type: TypeTransaction::Deposit,
            from_user_id: 0,
            to_user_id: 9223372036854775807,
            amount: 100,
            timestamp: 1633036860000,
            status: StatusTransaction::Failure,
            description: describe(1),
        },
        Message {
            tx_id: 1000000000000001,
            tx_type: TypeTransaction::Transfer,
            from_user_id: 9223372036854775807,
            to_user_id: 9223372036854775807,
            amount: 200,
            timestamp: 1633036920000,
            status: StatusTransaction::Pending,
            description: describe(2),
        },
    ]
}

fn bin_bytes() -> Vec<u8> {
    let mut data = BankRecordConvertor::BIN(BinYPBankRecord::new());
    for m in records(true) {
        data.push(m);
    }
    let mut out = Vec::new();
    data.write_to(&mut out).unwrap();
    out
}

fn source(format: DataFormat) -> Vec<u8> {
    match format {
        DataFormat::TXT => TXT.as_bytes().to_vec(),
        DataFormat::BIN => bin_bytes(),
        DataFormat::CSV => CSV.as_bytes().to_vec(),
    }
}

fn check_convert(input_format: DataFormat, target_format: DataFormat) {
    let new_data = BankRecordConvertor::from_read(&source(input_format), &input_format)
        .unwrap()
        .convert_to(&target_format);
    let test_data =
        BankRecordConvertor::from_read(&source(target_format), &target_format).unwrap();
    assert_eq!(new_data, test_data);
}

#[test]
fn test_convert() {
    for input_format in [DataFormat::TXT, DataFormat::BIN, DataFormat::CSV] {
        for target_format in [DataFormat::TXT, DataFormat::BIN, DataFormat::CSV] {
            check_convert(input_format, target_format);
        }
    }
}

#[test]
fn test_enum_convert() {
    for format in [DataFormat::TXT, DataFormat::BIN, DataFormat::CSV] {
        let recorder = BankRecordConvertor::from_read(&source(format), &format).unwrap();
        match recorder {
            BankRecordConvertor::TXT(_) => assert_eq!(format, DataFormat::TXT),
            BankRecordConvertor::BIN(_) => assert_eq!(format, DataFormat::BIN),
            BankRecordConvertor::CSV(_) => assert_eq!(format, DataFormat::CSV),
        }
        assert!(recorder.len() > 0);
        assert_eq!(recorder.data_format(), format);
    }
}

#[test]
fn convert_cross_format_equivalence() {
    for target in [DataFormat::TXT, DataFormat::BIN, DataFormat::CSV] {
        let expected = records(target != DataFormat::CSV);
        for input in [DataFormat::TXT, DataFormat::BIN, DataFormat::CSV] {
            let converted = BankRecordConvertor::from_read(&source(input), &input)
                .unwrap()
                .convert_to(&target);
            let got: Vec<Message> = converted.iter().cloned().collect();
            assert_eq!(got, expected);
            assert_eq!(converted.data_format(), target);
        }
    }
}

#[test]
fn convert_to_own_format_is_identity() {
    for format in [DataFormat::TXT, DataFormat::BIN, DataFormat::CSV] {
        let data = BankRecordConvertor::from_read(&source(format), &format).unwrap();
        let same = data.clone().convert_to(&format);
        assert_eq!(same, data);
    }
    let mut odd = BankRecordConvertor::CSV(CsvYPBankRecord::new());
    odd.push(Message { description: "has \"quotes\"".to_string(), ..records(true).remove(0) });
    assert_eq!(odd.clone().convert_to(&DataFormat::CSV), odd);
}

#[test]
fn convert_remaps_only_the_description() {
    let mut csv = BankRecordConvertor::CSV(CsvYPBankRecord::new());
    csv.push(records(false).remove(1));
    let bin = csv.clone().convert_to(&DataFormat::BIN);
    assert_eq!(bin.iter().next(), Some(&records(true)[1]));
    let txt = csv.clone().convert_to(&DataFormat::TXT);
    assert_eq!(txt.iter().next(), Some(&records(true)[1]));
    assert_eq!(txt.clone().convert_to(&DataFormat::BIN).iter().next(), Some(&records(true)[1]));
    assert_eq!(bin.clone().convert_to(&DataFormat::TXT).iter().next(), Some(&records(true)[1]));
    assert_eq!(bin.convert_to(&DataFormat::CSV), csv);
    assert_eq!(txt.convert_to(&DataFormat::CSV), csv);
}

#[test]
fn convert_quotes_inside_a_description_are_lost() {
    let mut csv = BankRecordConvertor::CSV(CsvYPBankRecord::new());
    csv.push(Message { description: "say \"hi\" now".to_string(), ..records(false).remove(0) });
    let bin = csv.convert_to(&DataFormat::BIN);
    assert_eq!(bin.iter().next().unwrap().description, "\"say \"hi\" now\"");
    let back = bin.convert_to(&DataFormat::CSV);
    assert_eq!(back.iter().next().unwrap().description, "say hi now");
}

#[test]
fn convert_from_impls() {
    let mut csv = CsvYPBankRecord::new();
    let mut txt = TxtYPBankRecord::new();
    let mut bin = BinYPBankRecord::new();
    for (bare, wrapped) in records(false).into_iter().zip(records(true)) {
        bank_record_converter::BankRecord::push(&mut csv, bare);
        bank_record_converter::BankRecord::push(&mut txt, wrapped.clone());
        bank_record_converter::BankRecord::push(&mut bin, wrapped);
    }
    assert_eq!(BinYPBankRecord::from(csv.clone()), bin);
    assert_eq!(BinYPBankRecord::from(txt.clone()), bin);
    assert_eq!(TxtYPBankRecord::from(csv.clone()), txt);
    assert_eq!(TxtYPBankRecord::from(bin.clone()), txt);
    assert_eq!(CsvYPBankRecord::from(bin), csv);
    assert_eq!(CsvYPBankRecord::from(txt), csv);
}

#[test]
fn remap_descriptions() {
    let d = "a \"b\" c".to_string();
    assert_eq!(Remap::Keep.describe(&d), "a \"b\" c");
    assert_eq!(Remap::Quote.describe(&d), "\"a \"b\" c\"");
    assert_eq!(Remap::Unquote.describe(&d), "a b c");
    assert_eq!(Remap::Quote.describe(&String::new()), "\"\"");
    assert_eq!(Remap::Unquote.describe(&"\"\"".to_string()), "");
    let rebuilt = Remap::Quote.rebuild(records(false).iter());
    assert_eq!(rebuilt, records(true));
}

#[test]
fn convertor_forwards_to_its_collection() {
    let mut data = BankRecordConvertor::TXT(TxtYPBankRecord::new());
    assert!(data.is_empty());
    assert_eq!(data.pop(), None);
    for m in records(true) {
        data.push(m);
    }
    assert_eq!(data.len(), 2);
    assert_eq!(data.pop(), Some(records(true).remove(1)));
    assert_eq!(data.len(), 1);
    let mut out = Vec::new();
    data.write_to(&mut out).unwrap();
    assert_eq!(String::from_utf8(out).unwrap(), records(true)[0].to_string());
}

#[test]
fn convertor_read_errors_come_through() {
    assert!(matches!(
        BankRecordConvertor::from_read(b"TX_ID: x\n", &DataFormat::TXT),
        Err(AppError::TxtParseError(_))
    ));
    assert!(matches!(
        BankRecordConvertor::from_read(b"TX_ID: 1\n", &DataFormat::BIN),
        Err(AppError::BinParseError(_))
    ));
    assert!(matches!(
        BankRecordConvertor::from_read(b"TX_ID: 1\n", &DataFormat::CSV),
        Err(AppError::CsvParseError(_))
    ));
}

#[test]
fn names_of_formats_and_enums() {
    assert_eq!(DataFormat::TXT.to_string(), "TXT");
    assert_eq!(DataFormat::BIN.to_string(), "BIN");
    assert_eq!(DataFormat::CSV.to_string(), "CSV");
    assert_eq!(DataFormat::CSV.to_string().to_lowercase(), "csv");
    assert_eq!(BankRecordConvertor::BIN(BinYPBankRecord::new()).to_string(), "BIN");
    assert_eq!(TypeTransaction::Deposit.to_string(), "DEPOSIT");
    assert_eq!(TypeTransaction::Transfer.to_string(), "TRANSFER");
    assert_eq!(TypeTransaction::Withdrawal.to_string(), "WITHDRAWAL");
    assert_eq!(StatusTransaction::Success.to_string(), "SUCCESS");
    assert_eq!(StatusTransaction::Failure.to_string(), "FAILURE");
    assert_eq!(StatusTransaction::Pending.to_string(), "PENDING");
    for t in [TypeTransaction::Deposit, TypeTransaction::Transfer, TypeTransaction::Withdrawal] {
        let name: Vec<char> = t.to_string().chars().collect();
        assert_eq!(TypeTransaction::from_name(&name), Some(t));
    }
    for s in [StatusTransaction::Success, StatusTransaction::Failure, StatusTransaction::Pending] {
        let name: Vec<char> = s.to_string().chars().collect();
        assert_eq!(StatusTransaction::from_name(&name), Some(s));
    }
    assert_eq!(TypeTransaction::from_name(&['X']), None);
    assert_eq!(StatusTransaction::from_name(&[]), None);
}
