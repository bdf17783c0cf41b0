use roman_numerals::{
    checked_shape, digit_runs_fit, number_to_roman_numeral, process_digits, shape,
    string_to_glyphs, Glyph,
};

fn plain(codepoint: u32, cluster: u32) -> Glyph {
    Glyph { codepoint, cluster, x_advance: 0, y_advance: 0, x_offset: 0, y_offset: 0, flags: 0 }
}

/// Text as it comes from the buffer: one glyph for each character, its
/// position as cluster, and metrics and flags that tell the glyphs apart.
fn text(s: &str) -> Vec<Glyph> {
    s.chars()
        .enumerate()
        .map(|(i, c)| Glyph {
            codepoint: c as u32,
            cluster: i as u32,
            x_advance: 500 + i as i32,
            y_advance: -(i as i32),
            x_offset: 7,
            y_offset: 3,
            flags: 0x10 + i as u32,
        })
        .collect()
}

fn numeral(number: u64) -> Vec<Glyph> {
    string_to_glyphs(&number_to_roman_numeral(number))
}

#[test]
fn a_number_within_text_becomes_its_numeral() {
    let input = text("abc123def");
    assert_eq!(input[3].codepoint, 0x31);
    assert_eq!(input[4].codepoint, 0x32);
    assert_eq!(input[5].codepoint, 0x33);
    let out = shape(&input);
    let expected = vec![
        input[0],
        input[1],
        input[2],
        plain('C' as u32, 0),
        plain('X' as u32, 1),
        plain('X' as u32, 2),
        plain('I' as u32, 3),
        plain('I' as u32, 4),
        plain('I' as u32, 5),
        input[6],
        input[7],
        input[8],
    ];
    assert_eq!(out, expected);
    assert_eq!(out[0].codepoint, 'a' as u32);
    assert_eq!(out[1].codepoint, 'b' as u32);
    assert_eq!(out[2].codepoint, 'c' as u32);
    assert_eq!(out[9].codepoint, 'd' as u32);
    assert_eq!(out[10].codepoint, 'e' as u32);
    assert_eq!(out[11].codepoint, 'f' as u32);
    assert_eq!(out[9].cluster, 6);
    let clusters: Vec<u32> = out[3..9].iter().map(|g| g.cluster).collect();
    assert_eq!(clusters, vec![0, 1, 2, 3, 4, 5]);
}

#[test]
fn a_number_at_the_end_is_not_dropped() {
    let input = text("x9");
    let out = shape(&input);
    assert_eq!(out, vec![input[0], plain('I' as u32, 0), plain('X' as u32, 1)]);
}

#[test]
fn text_without_digits_passes_through() {
    for s in ["", "a", "hello, world", "MMXXIV", "_X", "\u{305}", "/:", "٣٤", "１２３"] {
        let input = text(s);
        assert_eq!(shape(&input), input);
        assert_eq!(checked_shape(&input), Some(input.clone()));
        assert!(digit_runs_fit(&input));
    }
}

#[test]
fn digits_alone_become_one_numeral() {
    assert_eq!(shape(&text("7")), numeral(7));
    assert_eq!(shape(&text("2024")), numeral(2024));
    assert_eq!(shape(&text("12321")), numeral(12321));
    assert_eq!(shape(&text("12321")), string_to_glyphs("_XMMCCCXXI"));
}

#[test]
fn a_number_at_the_start_is_replaced() {
    let input = text("14 days");
    let mut expected = numeral(14);
    expected.extend_from_slice(&input[2..]);
    assert_eq!(shape(&input), expected);
}

#[test]
fn every_run_is_a_number_of_its_own() {
    let input = text("12a34");
    let mut expected = numeral(12);
    expected.push(input[2]);
    expected.extend(numeral(34));
    assert_eq!(shape(&input), expected);

    let input = text("1.5");
    let mut expected = numeral(1);
    expected.push(input[1]);
    expected.extend(numeral(5));
    assert_eq!(shape(&input), expected);
}

#[test]
fn a_run_is_read_as_a_whole() {
    // Not as 1, 2 and 3, and not as 12 and 3.
    let out = shape(&text("123"));
    assert_eq!(out, numeral(123));
    let mut one_by_one = numeral(1);
    one_by_one.extend(numeral(2));
    one_by_one.extend(numeral(3));
    assert_ne!(out, one_by_one);
    let mut in_two = numeral(12);
    in_two.extend(numeral(3));
    assert_ne!(out, in_two);
}

#[test]
fn zero_leaves_nothing() {
    let input = text("a0b");
    assert_eq!(shape(&input), vec![input[0], input[2]]);
    assert_eq!(shape(&text("000")), Vec::<Glyph>::new());
}

#[test]
fn leading_zeros_are_swallowed() {
    assert_eq!(shape(&text("007")), numeral(7));
}

#[test]
fn numeral_clusters_start_again_in_every_run() {
    let out = shape(&text("zz3 8"));
    let clusters: Vec<u32> = out.iter().map(|g| g.cluster).collect();
    // z z I I I ' ' V I I I
    assert_eq!(clusters, vec![0, 1, 0, 1, 2, 3, 0, 1, 2, 3]);
}

#[test]
fn a_digit_is_known_by_its_codepoint_alone() {
    let mut input = text("4");
    input[0].cluster = 99;
    input[0].flags = 0xffff_ffff;
    input[0].x_advance = i32::MIN;
    assert_eq!(shape(&input), vec![plain('I' as u32, 0), plain('V' as u32, 1)]);
}

#[test]
fn the_largest_run_that_fits() {
    // 4999 needs the longest numeral below five thousand.
    let out = shape(&text("4999"));
    assert_eq!(out, string_to_glyphs("_I_VCMXCIX"));
    let input = text("1000000");
    assert!(digit_runs_fit(&input));
    assert_eq!(shape(&input), vec![plain(0x305, 1), plain('M' as u32, 1)]);
}

#[test]
fn runs_beyond_64_bits_are_told_apart() {
    let fits = text("a18446744073709551615");
    assert!(digit_runs_fit(&fits));
    let too_long = text("a18446744073709551616b");
    assert!(!digit_runs_fit(&too_long));
    assert_eq!(checked_shape(&too_long), None);
    let too_long_at_end = text("12 999999999999999999999");
    assert!(!digit_runs_fit(&too_long_at_end));
    assert_eq!(checked_shape(&too_long_at_end), None);
    let many_short = text("12345678901234567 12345678901234567 12345678901234567");
    assert!(digit_runs_fit(&many_short));
    let zeros = text("000000000000000000000000000000001");
    assert!(digit_runs_fit(&zeros));
    assert_eq!(checked_shape(&zeros), Some(numeral(1)));
}

#[test]
fn checked_shaping_agrees_with_shaping() {
    for s in ["abc123def", "x9", "", "12a34", "a0b", "3999 4000", "no digits"] {
        let input = text(s);
        assert_eq!(checked_shape(&input), Some(shape(&input)));
    }
}

#[test]
fn an_empty_run_puts_out_nothing() {
    let mut digits: Vec<u8> = Vec::new();
    let mut out = text("ab");
    process_digits(&mut digits, &mut out);
    assert_eq!(out, text("ab"));
    assert!(digits.is_empty());
}

#[test]
fn a_run_is_put_out_and_cleared() {
    let mut digits: Vec<u8> = vec![1, 2, 3];
    let mut out = text("ab");
    process_digits(&mut digits, &mut out);
    let mut expected = text("ab");
    expected.extend(string_to_glyphs("CXXIII"));
    assert_eq!(out, expected);
    assert!(digits.is_empty());

    // The next run starts from nothing.
    digits.push(9);
    process_digits(&mut digits, &mut out);
    expected.extend(string_to_glyphs("IX"));
    assert_eq!(out, expected);
    assert!(digits.is_empty());
}

#[test]
fn a_run_of_zero_is_cleared_too() {
    let mut digits: Vec<u8> = vec![0, 0];
    let mut out: Vec<Glyph> = Vec::new();
    process_digits(&mut digits, &mut out);
    assert!(out.is_empty());
    assert!(digits.is_empty());
}

#[test]
fn shaping_goes_part_by_part_between_runs() {
    let whole = text("ab12 cd345e6");
    for cut in [0usize, 1, 2, 4, 5, 7, 10, 11, 12] {
        let mut parts = shape(&whole[..cut]);
        parts.extend(shape(&whole[cut..]));
        assert_eq!(parts, shape(&whole), "cut at {cut}");
    }
    // A cut within a run makes two numbers of one.
    let mut parts = shape(&whole[..3]);
    parts.extend(shape(&whole[3..]));
    assert_ne!(parts, shape(&whole));
}
