use quadrs::analysis::{
    bucket_level, bucket_offsets, fft_rows, is_power_of_two, rotate_halves, spark_glyph, spark_offsets,
    spark_row, Levels,
};
use quadrs::error::ErrorKind;
use quadrs::format::{
    byte_window, decode_pairs, encode_cf32, file_samples, output_filename, FileFormat, RawValue,
};
use quadrs::pipeline::Operation;
use quadrs::si::Decimal;
use quadrs::stages::{write_step, Gen, LowPass, Shift};

fn secs(mantissa: u64, scale: u32) -> Decimal {
    Decimal { negative: false, mantissa, scale }
}

#[test]
fn gen_one_second_at_48k() {
    let g = Gen::new(vec![1000], 48_000, secs(1, 0)).unwrap();
    assert_eq!(g.len(), 48_000);
    assert_eq!(g.sample_rate(), 48_000);
}

#[test]
fn gen_quarter_second_and_refusals() {
    let g = Gen::new(vec![1000, 3000], 48_000, secs(25, 2)).unwrap();
    assert_eq!(g.len(), 12_000);
    assert_eq!(Gen::new(vec![], 48_000, secs(1, 0)).err(), Some(ErrorKind::Configuration));
    assert_eq!(Gen::new(vec![1], 0, secs(1, 0)).err(), Some(ErrorKind::Configuration));
    assert_eq!(
        Gen::new(vec![1], 10, Decimal { negative: true, mantissa: 1, scale: 0 }).err(),
        Some(ErrorKind::Configuration)
    );
    let tiny = Gen::new(vec![1], 3, secs(1, 40)).unwrap();
    assert_eq!(tiny.len(), 0);
}

#[test]
fn write_out_file_name_and_size() {
    let g = Gen::new(vec![1000], 48_000, secs(1, 0)).unwrap();
    let name = output_filename("out", g.sample_rate()).unwrap();
    assert_eq!(name, "out.sr48000.cf32");
    assert_eq!(g.len() * FileFormat::ComplexFloat32.pair_bytes(), 384_000);
    assert_eq!(output_filename("-", 1).err(), Some(ErrorKind::Unsupported));
}

#[test]
fn bucket_window_count() {
    let g = Gen::new(vec![1000, 3000], 48_000, secs(25, 2)).unwrap();
    let offs = bucket_offsets(g.len(), 64, 64, 2).unwrap();
    assert_eq!(offs.len(), 186);
    assert_eq!(offs[1], 64);
    assert_eq!(bucket_offsets(1000, 64, 64, 3).err(), Some(ErrorKind::Unsupported));
    assert_eq!(bucket_offsets(1000, 48, 64, 2).err(), Some(ErrorKind::Configuration));
    let line = Levels { vals: vec![bucket_level(true), bucket_level(false), 1] }.to_line();
    assert_eq!(line, "011");
}

#[test]
fn lowpass_reads_every_sample_to_the_end() {
    // input of exactly one kernel: one output, and a read at 0 returns it
    let l = LowPass::new((), 5, 1000, 3, 48_000, 5).unwrap();
    assert_eq!(l.len(), 1);
    let (at, want) = l.input_window(0, 4).unwrap();
    let valid = want.min((5 - at) as usize);
    assert_eq!(l.output_count(4, valid), 1);
    // longer input: every offset below len gets min(n, len - off)
    let l = LowPass::new((), 100, 1000, 4, 48_000, 8).unwrap();
    let len = l.len();
    assert_eq!(len, 24);
    for off in 0..len {
        for n in 0..30usize {
            let (at, want) = l.input_window(off, n).unwrap();
            let valid = want.min((100 - at) as usize);
            let expect = (n as u64).min(len - off) as usize;
            assert_eq!(l.output_count(n, valid), expect);
        }
    }
}

#[test]
fn gen_reads_stop_at_length() {
    let g = Gen::new(vec![1000], 48_000, secs(1, 0)).unwrap();
    assert_eq!(g.read_count(0, 4096), 4096);
    assert_eq!(g.read_count(47_104, 4096), 896);
    assert_eq!(g.read_count(48_000, 4096), 0);
    // what the writer emits in 4096-sample blocks: exactly 48000 samples
    let mut off = 0u64;
    let mut written = 0u64;
    while off < g.len() {
        let read = g.read_count(off, 4096);
        written += read as u64;
        off = write_step(off, read, g.len()).unwrap();
    }
    assert_eq!(written * 8, 384_000);
}

#[test]
fn shift_nyquist() {
    // odd rate: 2 * 2 < 5, so a shift of 2 is allowed
    assert!(Shift::new((), 2, 5).is_ok());
    assert!(Shift::new((), -2, 5).is_ok());
    assert!(Shift::new((), -1000, 48_000).is_ok());
    assert_eq!(Shift::new((), 24_000, 48_000).err(), Some(ErrorKind::Configuration));
    assert_eq!(Shift::new((), -24_000, 48_000).err(), Some(ErrorKind::Configuration));
    assert_eq!(Shift::new((), 0, 0).err(), Some(ErrorKind::Configuration));
    let s = Shift::new(7u8, 100, 1000).unwrap();
    assert_eq!((*s.inner(), s.frequency(), s.sample_rate()), (7, 100, 1000));
}

#[test]
fn lowpass_geometry() {
    // 13 inputs, 5 taps, decimate 3: 1 + (13 - 5) / 3 = 3 outputs
    let l = LowPass::new((), 13, 1000, 3, 48_000, 5).unwrap();
    assert_eq!(l.len(), 3);
    assert_eq!(l.sample_rate(), 16_000);
    assert_eq!(l.input_window(2, 4), Some((6, 17)));
    // 13 inputs fit the kernel at 0, 3, 6: three outputs, capped by the buffer
    assert_eq!(l.output_count(4, 13), 3);
    assert_eq!(l.output_count(2, 13), 2);
    assert_eq!(l.output_count(4, 4), 0);
    assert_eq!(l.tap_index(13, 1), 5);
    assert_eq!(l.tap_index(13, 2), 8);
    assert_eq!(LowPass::new((), 4, 1, 3, 1, 5).err(), Some(ErrorKind::Configuration));
    assert_eq!(LowPass::new((), 40, 1, 0, 1, 5).err(), Some(ErrorKind::Configuration));
}

#[test]
fn fft_row_planning() {
    let rows = fft_rows(1000, Some((100, 200)), 16, 3).unwrap();
    // 100 + round(i * 100 / 3)
    assert_eq!(rows, vec![100, 133, 167]);
    let whole = fft_rows(100, None, 16, 4).unwrap();
    assert_eq!(whole, vec![0, 21, 42, 63]);
    assert_eq!(fft_rows(1000, Some((200, 100)), 16, 3).err(), Some(ErrorKind::Configuration));
    assert_eq!(fft_rows(150, Some((100, 200)), 16, 3).err(), Some(ErrorKind::Configuration));
    assert_eq!(fft_rows(1000, Some((100, 102)), 16, 3).err(), Some(ErrorKind::Configuration));
}

#[test]
fn spark_planning_and_rendering() {
    assert_eq!(spark_offsets(48_000, 16, 16).unwrap().len(), 2999);
    assert_eq!(spark_offsets(40, 16, 10).unwrap(), vec![0, 10, 20]);
    assert_eq!(spark_offsets(40, 12, 10).err(), Some(ErrorKind::Configuration));
    assert_eq!(spark_offsets(40, 16, 0).err(), Some(ErrorKind::Configuration));
    assert!(is_power_of_two(64) && !is_power_of_two(0) && !is_power_of_two(48));
    assert_eq!(spark_glyph(0), ' ');
    assert_eq!(spark_glyph(3), '▃');
    assert_eq!(spark_glyph(9), '█');
    assert_eq!(spark_row(&[0, 1, 8]), "│ ▁█│");
    assert_eq!(rotate_halves(&[0, 1, 2, 3]), vec![2, 3, 0, 1]);
    assert_eq!(rotate_halves(&[0, 1, 2]), vec![1, 2, 0]);
}

#[test]
fn file_decoding() {
    assert_eq!(file_samples(FileFormat::ComplexInt16, 9), 2);
    assert_eq!(byte_window(FileFormat::ComplexFloat32, 3, 2), Some((24, 16)));
    assert_eq!(byte_window(FileFormat::ComplexFloat32, u64::MAX, 2), None);
    let pairs = decode_pairs(FileFormat::ComplexInt16, &[0x01, 0x80, 0xff, 0x7f, 5]);
    assert_eq!(pairs, vec![(RawValue::Int16(-32767), RawValue::Int16(32767))]);
    let pairs = decode_pairs(FileFormat::ComplexInt8, &[0xff, 0x01]);
    assert_eq!(pairs, vec![(RawValue::Int8(-1), RawValue::Int8(1))]);
    let pairs = decode_pairs(FileFormat::ComplexUint8, &[200, 3]);
    assert_eq!(pairs, vec![(RawValue::Uint8(200), RawValue::Uint8(3))]);
}

#[test]
fn cf32_round_trip() {
    let samples = vec![(1.0f32.to_bits(), 0.0f32.to_bits()), ((-2.5f32).to_bits(), 7.25f32.to_bits())];
    let bytes = encode_cf32(&samples);
    assert_eq!(bytes.len(), 16);
    assert_eq!(&bytes[0..4], &1.0f32.to_le_bytes());
    let back = decode_pairs(FileFormat::ComplexFloat32, &bytes);
    let bits: Vec<(u32, u32)> = back
        .iter()
        .map(|p| match p {
            (RawValue::Float32(a), RawValue::Float32(b)) => (*a, *b),
            _ => panic!("not float"),
        })
        .collect();
    assert_eq!(bits, samples);
}

#[test]
fn cf32_blocks_concatenate() {
    let a = vec![(1u32, 2u32), (3, 4)];
    let b = vec![(0xdead_beefu32, 7u32)];
    let mut both = a.clone();
    both.extend(b.iter().cloned());
    let mut joined = encode_cf32(&a);
    joined.extend(encode_cf32(&b));
    assert_eq!(joined, encode_cf32(&both));
}

#[test]
fn reads_compose() {
    let bytes: Vec<u8> = (0..20u8).collect();
    let a = decode_pairs(FileFormat::ComplexInt8, &bytes[0..6]);
    let b = decode_pairs(FileFormat::ComplexInt8, &bytes[6..20]);
    let whole = decode_pairs(FileFormat::ComplexInt8, &bytes);
    let mut joined = a.clone();
    joined.extend(b);
    assert_eq!(joined, whole);
    assert_eq!(decode_pairs(FileFormat::ComplexInt8, &bytes), whole);
}

#[test]
fn writer_steps() {
    assert_eq!(write_step(0, 4096, 48_000), Ok(4096));
    assert_eq!(write_step(10, 0, 48_000), Err(ErrorKind::ShortRead));
}

#[test]
fn stages_need_input() {
    let op = Operation::Shift { frequency: 5 };
    assert_eq!(op.check_input(false), Err(ErrorKind::NoInput));
    assert_eq!(op.check_input(true), Ok(()));
    let g = Operation::Gen { seconds: secs(1, 0), sample_rate: 1, cos: vec![1] };
    assert_eq!(g.check_input(false), Ok(()));
}
