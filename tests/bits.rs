use quadrs::bits::{decode, fmt, run_of, scan, Scale};
use quadrs::hexbits::{hex_bits, printables, to_byte, unambiguous};

fn parse(s: &str) -> Vec<bool> {
    s.chars()
        .flat_map(|x| match x {
            '0' => Some(false),
            '1' => Some(true),
            x if x.is_whitespace() => None,
            _ => panic!("invalid"),
        })
        .collect()
}

#[test]
fn bits_run() {
    assert_eq!(4, run_of(&parse("0000"), 2, false), "runs a whole buffer");
    assert_eq!(
        8,
        run_of(&parse("00001000111"), 2, false),
        "doesn't trip over a single bit flip at 2"
    );
}

#[test]
fn de_run() {
    // 1100000110010100110000011111110100101100011101010001000001000001
    let inp = parse(
        r#"11
             010000000111110000011111000001111100001111100000111110000011111000001111100001
             111100000111110000011111000001111100000111100000111110000011111000001111100000
             111110000111110000011111000001111100000111110000111110000011111000001111100000
             111110000111110000011111000001111100000111110000011110000011111000001111100000
             11111000001111111110000000000000000000000001111111111000000000111110000011111
             000000000011111111110000000000000000000000001111111111111111111111111111111111
             000001111100000000001111100001111111111000000000000000111111111111111000011111
             000001111100000000000000011111000000000000000000000000111110000000000000000000
             00000111111110101"#,
    );

    let (_err, val) = scan(&inp, Scale { num: 24, den: 5 });
    println!("{}", fmt(&val));
    for off in 0..8 {
        println!("{:?}", decode(&val[off..]));
    }

    let inv: Vec<bool> = val.iter().map(|&x| !x).collect();
    for off in 0..8 {
        println!("{:?}", decode(&inv[off..]));
    }
}

#[test]
fn scan_three_runs_at_scale_ten() {
    let mut data = vec![false; 20];
    data.extend(vec![true; 20]);
    data.extend(vec![false; 20]);
    let (err, bits) = scan(&data, Scale { num: 10, den: 1 });
    assert_eq!(err, 0);
    assert_eq!(bits, vec![false, false, true, true, false, false]);
}

#[test]
fn scan_square_wave_reads_back_symbol_counts() {
    // scale 2.5: runs of 5, 10 and 5 samples are 2, 4 and 2 symbols
    let mut data = vec![false; 5];
    data.extend(vec![true; 10]);
    data.extend(vec![false; 5]);
    let (err, bits) = scan(&data, Scale { num: 5, den: 2 });
    assert_eq!(err, 0);
    assert_eq!(bits, vec![false, false, true, true, true, true, false, false]);
}

#[test]
fn scan_tolerates_single_flip() {
    let mut data = vec![false; 20];
    data[7] = true;
    data.extend(vec![true; 20]);
    let (err, bits) = scan(&data, Scale { num: 10, den: 1 });
    assert_eq!(err, 0);
    assert_eq!(bits, vec![false, false, true, true]);
}

#[test]
fn scan_counts_misfit() {
    // a run of 13 at scale 10 is 1.3 symbols: one bit, misfit 0.3 = 3/10
    let data = vec![false; 13];
    let (err, bits) = scan(&data, Scale { num: 10, den: 1 });
    assert_eq!(bits, vec![false]);
    assert_eq!(err, 3);
}

#[test]
fn scan_skips_leading_wrong_polarity() {
    // looking for zeros, the scan steps over the ones one position at a
    // time until only five (the tolerance) remain ahead of the zeros; that
    // run of 15 is 1.5 symbols, rounded up to two, misfit 5/10
    let mut data = vec![true; 12];
    data.extend(vec![false; 10]);
    let (err, bits) = scan(&data, Scale { num: 10, den: 1 });
    assert_eq!(err, 5);
    assert_eq!(bits, vec![false, false]);
}

#[test]
fn scan_empty() {
    let (err, bits) = scan(&[], Scale { num: 3, den: 1 });
    assert_eq!(err, 0);
    assert!(bits.is_empty());
}

#[test]
fn decode_packs_msb_first() {
    let bits = parse("01000001 01100010 101");
    assert_eq!(decode(&bits), "Ab");
}

#[test]
fn fmt_draws_bits() {
    assert_eq!(fmt(&parse("1001")), "X..X");
}

#[test]
fn hex_line_to_bits() {
    assert_eq!(hex_bits("a1").unwrap(), vec![1, 0, 1, 0, 0, 0, 0, 1]);
    assert_eq!(hex_bits("F").unwrap(), vec![1, 1, 1, 1]);
    assert!(hex_bits("g").is_err());
}

#[test]
fn bits_to_byte() {
    assert_eq!(to_byte(&[0, 1, 0, 0, 0, 0, 0, 1]), 65);
    assert_eq!(to_byte(&[1, 1, 1, 1, 1, 1, 1, 1]), 255);
}

#[test]
fn byte_renderings() {
    assert_eq!(printables(&[72, 0, 7, 126]), "H .~");
    assert_eq!(unambiguous(&[72, 5, 105]), "H\\d{5}i");
}
