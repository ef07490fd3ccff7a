use quadrs::args::{no_duplicates, parse, read_just_args};
use quadrs::error::ErrorKind;
use quadrs::format::{guess_from_extension, FileDetails, FileFormat};
use quadrs::names::{details_from_guess, guess_details, guess_format_from_name, guess_from_name_parts};
use quadrs::pipeline::{Command, Operation};
use quadrs::si::{
    find_multiplication_suffix, parse_bool, parse_decimal, parse_si_decimal, parse_si_i64,
    parse_si_u64, Decimal,
};

fn strings(v: &[&str]) -> Vec<String> {
    v.iter().map(|s| s.to_string()).collect()
}

#[test]
fn args_mega() {
    assert_eq!(123, parse_si_u64("123").unwrap());
    assert_eq!(1_000, parse_si_u64("1k").unwrap());
    assert_eq!(47_000, parse_si_u64("47k").unwrap());
    assert_eq!(0, parse_si_u64("0M").unwrap());
}

#[test]
fn si_numbers() {
    assert_eq!(parse_si_u64("2G"), Ok(2_000_000_000));
    assert_eq!(parse_si_u64("+5"), Ok(5));
    assert_eq!(parse_si_u64("18446744073709551615"), Ok(u64::MAX));
    assert_eq!(parse_si_u64("18446744073709551616"), Err(ErrorKind::OutOfRange));
    assert_eq!(parse_si_u64("x"), Err(ErrorKind::InvalidNumber));
    assert_eq!(parse_si_u64(""), Err(ErrorKind::InvalidNumber));
    assert_eq!(parse_si_u64("-1"), Err(ErrorKind::InvalidNumber));
    assert_eq!(parse_si_u64("20000000000G"), Err(ErrorKind::OutOfRange));
    assert_eq!(parse_si_u64("99999999999999999999"), Err(ErrorKind::OutOfRange));
    assert_eq!(parse_si_i64("-1000"), Ok(-1000));
    assert_eq!(parse_si_i64("-1k"), Ok(-1000));
    assert_eq!(parse_si_i64("-9223372036854775808"), Ok(i64::MIN));
    assert_eq!(parse_si_i64("9223372036854775808"), Err(ErrorKind::OutOfRange));
    assert_eq!(find_multiplication_suffix("12M"), ("12", 1_000_000));
    assert_eq!(find_multiplication_suffix("12"), ("12", 1));
}

#[test]
fn decimals() {
    assert_eq!(
        parse_si_decimal("0.25"),
        Ok(Decimal { negative: false, mantissa: 25, scale: 2 })
    );
    assert_eq!(
        parse_si_decimal("1.5k"),
        Ok(Decimal { negative: false, mantissa: 15000, scale: 1 })
    );
    assert_eq!(
        parse_decimal("-.5"),
        Ok(Decimal { negative: true, mantissa: 5, scale: 1 })
    );
    assert_eq!(parse_decimal("1k"), Err(ErrorKind::InvalidNumber));
    assert_eq!(parse_decimal("1.2.3"), Err(ErrorKind::InvalidNumber));
    assert_eq!(parse_decimal("."), Err(ErrorKind::InvalidNumber));
}

#[test]
fn booleans() {
    assert_eq!(parse_bool("yes"), Ok(true));
    assert_eq!(parse_bool("false"), Ok(false));
    assert_eq!(parse_bool("n"), Ok(false));
    assert_eq!(parse_bool("maybe"), Err(ErrorKind::InvalidBool));
}

#[test]
fn extensions() {
    assert_eq!(guess_from_extension("fc32"), Some(FileFormat::ComplexFloat32));
    assert_eq!(guess_from_extension("c8"), Some(FileFormat::ComplexInt8));
    assert_eq!(guess_from_extension("su8"), Some(FileFormat::ComplexUint8));
    assert_eq!(guess_from_extension("cs16"), Some(FileFormat::ComplexInt16));
    assert_eq!(guess_from_extension("raw"), None);
}

#[test]
fn guess_gqrx_name() {
    let d = guess_details("gqrx_20240101_000000_868000000_2000000_fc.raw", None, None).unwrap();
    assert_eq!(
        d,
        FileDetails { format: FileFormat::ComplexFloat32, sample_rate: 2_000_000 }
    );
}

#[test]
fn guess_sr_marker_and_extension() {
    let d = guess_details("capture.sr48k.cs8", None, None).unwrap();
    assert_eq!(d, FileDetails { format: FileFormat::ComplexInt8, sample_rate: 48_000 });
    let (rate, format) = guess_format_from_name("capture.sr2M.cu8");
    assert_eq!(rate.as_deref(), Some("2M"));
    assert_eq!(format, Some(FileFormat::ComplexUint8));
}

#[test]
fn guess_rtl433_name() {
    let d = guess_details("g001_433.92M_250k.cu8", None, None).unwrap();
    assert_eq!(d, FileDetails { format: FileFormat::ComplexUint8, sample_rate: 250_000 });
}

#[test]
fn guess_overrides_and_failures() {
    let d = guess_details("x.cf32", Some("1k".to_string()), Some("cs16".to_string())).unwrap();
    assert_eq!(d, FileDetails { format: FileFormat::ComplexInt16, sample_rate: 1000 });
    assert_eq!(guess_details("x.cf32", None, None), Err(ErrorKind::UnknownSampleRate));
    assert_eq!(
        guess_details("x.sr1k.raw", None, None),
        Err(ErrorKind::UnknownFormat)
    );
    assert_eq!(
        guess_details("x.sr1k.raw", None, Some("wav".to_string())),
        Err(ErrorKind::UnknownExtension)
    );
}

#[test]
fn name_parts_combine() {
    let (rate, format) = guess_from_name_parts(
        "a_fc.raw",
        Some("5".to_string()),
        Some("7".to_string()),
        None,
    );
    assert_eq!(rate.as_deref(), Some("7"));
    assert_eq!(format, Some(FileFormat::ComplexFloat32));
    let d = details_from_guess((Some("3k".to_string()), None), None, Some("cf32".to_string()));
    assert_eq!(d, Ok(FileDetails { format: FileFormat::ComplexFloat32, sample_rate: 3000 }));
}

#[test]
fn flags_are_read() {
    let args = strings(&["-width", "64", "-1000", "x"]);
    let (flags, end) = read_just_args(&args, 0).unwrap();
    assert_eq!(flags, vec![("width".to_string(), "64".to_string())]);
    assert_eq!(end, 2);
    assert_eq!(
        read_just_args(&strings(&["-width"]), 0),
        Err(ErrorKind::MissingValue)
    );
    let dup = vec![
        ("a".to_string(), "1".to_string()),
        ("a".to_string(), "2".to_string()),
    ];
    assert_eq!(no_duplicates(dup), Err(ErrorKind::DuplicateFlag));
}

#[test]
fn parse_gen_pipeline() {
    let args = strings(&["gen", "-cos", "1000", "-len", "1", "48k", "shift", "-1000", "sparkfft", "-width", "16"]);
    let cmds = parse(&args).unwrap();
    assert_eq!(cmds.len(), 3);
    match &cmds[0] {
        Command::Octagon(Operation::Gen { seconds, sample_rate, cos }) => {
            assert_eq!(*sample_rate, 48_000);
            assert_eq!(cos, &vec![1000]);
            assert_eq!(*seconds, Decimal { negative: false, mantissa: 1, scale: 0 });
        }
        _ => panic!("expected gen"),
    }
    match &cmds[1] {
        Command::Octagon(Operation::Shift { frequency }) => assert_eq!(*frequency, -1000),
        _ => panic!("expected shift"),
    }
    match &cmds[2] {
        Command::Octagon(Operation::SparkFft { width, stride, min, max }) => {
            assert_eq!(*width, 16);
            assert_eq!(*stride, 16);
            assert!(min.is_none() && max.is_none());
        }
        _ => panic!("expected sparkfft"),
    }
}

#[test]
fn parse_other_commands() {
    let args = strings(&[
        "lowpass", "-power", "10", "1k", "bucket", "-by", "freq", "-width", "64", "2", "write",
        "-overwrite", "yes", "out",
    ]);
    let cmds = parse(&args).unwrap();
    match &cmds[0] {
        Command::Octagon(Operation::LowPass { size, decimate, frequency }) => {
            assert_eq!((*size, *decimate, *frequency), (20, 8, 1000));
        }
        _ => panic!("expected lowpass"),
    }
    match &cmds[1] {
        Command::Octagon(Operation::Bucket { fft_width, stride, levels }) => {
            assert_eq!((*fft_width, *stride, *levels), (64, 64, 2));
        }
        _ => panic!("expected bucket"),
    }
    match &cmds[2] {
        Command::Octagon(Operation::Write { overwrite, prefix }) => {
            assert!(*overwrite);
            assert_eq!(prefix, "out");
        }
        _ => panic!("expected write"),
    }
}

#[test]
fn parse_range_and_viewers() {
    let cmds = parse(&strings(&["sparkfft", "-range", "0.1:2", "eui", "f.cf32", "ui"])).unwrap();
    match &cmds[0] {
        Command::Octagon(Operation::SparkFft { min, max, .. }) => {
            assert_eq!(*min, Some(Decimal { negative: false, mantissa: 1, scale: 1 }));
            assert_eq!(*max, Some(Decimal { negative: false, mantissa: 2, scale: 0 }));
        }
        _ => panic!("expected sparkfft"),
    }
    assert!(matches!(&cmds[1], Command::Eui { filename: Some(f) } if f == "f.cf32"));
    assert!(matches!(&cmds[2], Command::Ui));
}

#[test]
fn parse_errors() {
    assert_eq!(parse(&strings(&["frobnicate"])).err(), Some(ErrorKind::UnknownCommand));
    assert_eq!(parse(&strings(&["shift"])).err(), Some(ErrorKind::MissingArgument));
    assert_eq!(parse(&strings(&["shift", "-x", "1", "5"])).err(), Some(ErrorKind::InvalidFlags));
    assert_eq!(
        parse(&strings(&["lowpass", "-width", "1", "-width", "2", "5"])).err(),
        Some(ErrorKind::DuplicateFlag)
    );
    assert_eq!(parse(&strings(&["gen", "48k"])).err(), Some(ErrorKind::MissingArgument));
    assert_eq!(
        parse(&strings(&["gen", "-cos", "1", "-len", "1", "-len", "2", "48k"])).err(),
        Some(ErrorKind::DuplicateFlag)
    );
    assert_eq!(
        parse(&strings(&["bucket", "-by", "time", "2"])).err(),
        Some(ErrorKind::InvalidFlags)
    );
    assert_eq!(
        parse(&strings(&["write", "-overwrite", "perhaps", "x"])).err(),
        Some(ErrorKind::InvalidBool)
    );
    assert_eq!(parse(&strings(&[])).unwrap().len(), 0);
}
