use sonic_csv::kernel::Kernel;
use sonic_csv::markers::{COMMA, NEWLINE, RETURN_CARRIAGE};
use sonic_csv::simd_read::{
    lanes_eq, lanes_or, load, match_mask, movemask, search_basic_3, search_char, search_simd_3,
    splat, LANES,
};

#[test]
fn search_char_test() {
    let data = "00000000,00000000";
    assert_eq!(search_char(data.as_bytes()), Some(8));
}

#[test]
fn search_char_test_2() {
    let data = "00000000000000000,";
    assert_eq!(search_char(data.as_bytes()), Some(17));
}

#[test]
fn search_char_test_3() {
    let data = "00000,";
    assert_eq!(search_char(data.as_bytes()), Some(5));
}

#[test]
fn marker_bytes() {
    assert_eq!(COMMA, b',');
    assert_eq!(NEWLINE, b'\n');
    assert_eq!(RETURN_CARRIAGE, b'\r');
    assert_eq!(LANES, 16);
}

#[test]
fn search_char_finds_each_marker() {
    assert_eq!(search_char(b"abc\ndef"), Some(3));
    assert_eq!(search_char(b"abc\r\ndef"), Some(3));
    assert_eq!(search_char(b"ab,c\ndef"), Some(2));
    assert_eq!(search_char(b","), Some(0));
    assert_eq!(search_char(b"0123456789abcdefghij\rk"), Some(20));
}

#[test]
fn search_char_without_marker() {
    assert_eq!(search_char(b""), None);
    assert_eq!(search_char(b"abc"), None);
    assert_eq!(search_char(b"0123456789abcdef"), None);
    assert_eq!(search_char(b"0123456789abcdef0123456789abcdefxyz"), None);
}

#[test]
fn search_basic_3_returns_the_first_needle() {
    assert_eq!(search_basic_3(b'x', b'y', b'z', b"abczyx"), Some(3));
    assert_eq!(search_basic_3(b'x', b'y', b'z', b"x"), Some(0));
    assert_eq!(search_basic_3(b'x', b'y', b'z', b"abcy"), Some(3));
    assert_eq!(search_basic_3(b'x', b'y', b'z', b"abc"), None);
    assert_eq!(search_basic_3(b'x', b'y', b'z', b""), None);
    assert_eq!(search_basic_3(b'a', b'a', b'a', b"bbab"), Some(2));
}

#[test]
fn search_simd_3_around_chunk_borders() {
    for len in 0..50usize {
        for at in 0..len {
            let mut data = vec![b'0'; len];
            data[at] = b';';
            assert_eq!(search_simd_3(b';', b'#', b'!', &data), Some(at));
            assert_eq!(search_simd_3(b'#', b';', b'!', &data), Some(at));
            assert_eq!(search_simd_3(b'#', b'!', b';', &data), Some(at));
            assert_eq!(search_simd_3(b'#', b'!', b'?', &data), None);
        }
    }
}

#[test]
fn search_simd_3_takes_the_first_of_many() {
    let mut data = vec![b'0'; 40];
    data[37] = b'a';
    data[21] = b'b';
    data[33] = b'c';
    assert_eq!(search_simd_3(b'a', b'b', b'c', &data), Some(21));
    data[15] = b'c';
    assert_eq!(search_simd_3(b'a', b'b', b'c', &data), Some(15));
    data[16] = b'a';
    assert_eq!(search_simd_3(b'a', b'b', b'c', &data), Some(15));
    data[0] = b'a';
    assert_eq!(search_simd_3(b'a', b'b', b'c', &data), Some(0));
}

#[test]
fn search_simd_3_with_high_bytes() {
    let mut data = vec![0xFFu8; 35];
    data[34] = 0x80;
    assert_eq!(search_simd_3(0x80, 0x7F, 0x00, &data), Some(34));
    data[17] = 0x00;
    assert_eq!(search_simd_3(0x80, 0x7F, 0x00, &data), Some(17));
    assert_eq!(search_simd_3(0xFF, 0x7F, 0x00, &data), Some(0));
}

#[test]
fn splat_fills_every_lane() {
    assert_eq!(splat(b','), [b','; 16]);
    assert_eq!(splat(0), [0u8; 16]);
    assert_eq!(splat(0xFF), [0xFFu8; 16]);
}

#[test]
fn load_copies_sixteen_bytes() {
    let data = b"0123456789abcdefghijklmnopqrstuv";
    assert_eq!(&load(data, 0), b"0123456789abcdef");
    assert_eq!(&load(data, 5), b"56789abcdefghijk");
    assert_eq!(&load(data, 16), b"ghijklmnopqrstuv");
}

#[test]
fn lanes_eq_marks_equal_lanes() {
    let a = *b"0123456789abcdef";
    let b = *b"0x2x4x6x8xaxcxex";
    let m = lanes_eq(&a, &b);
    for i in 0..16 {
        assert_eq!(m[i], if i % 2 == 0 { 0xFF } else { 0x00 });
    }
    assert_eq!(lanes_eq(&a, &a), [0xFFu8; 16]);
}

#[test]
fn lanes_or_joins_lane_by_lane() {
    let mut a = [0u8; 16];
    let mut b = [0u8; 16];
    a[1] = 0xFF;
    b[2] = 0xFF;
    a[3] = 0x0F;
    b[3] = 0xF0;
    let m = lanes_or(&a, &b);
    let mut expected = [0u8; 16];
    expected[1] = 0xFF;
    expected[2] = 0xFF;
    expected[3] = 0xFF;
    assert_eq!(m, expected);
}

#[test]
fn movemask_gathers_the_top_bits() {
    assert_eq!(movemask(&[0u8; 16]), 0);
    assert_eq!(movemask(&[0xFFu8; 16]), 0xFFFF);
    assert_eq!(movemask(&[0x7Fu8; 16]), 0);
    let mut v = [0u8; 16];
    v[0] = 0x80;
    assert_eq!(movemask(&v), 0b1);
    v[15] = 0xFF;
    assert_eq!(movemask(&v), 0b1000_0000_0000_0001);
    v[4] = 0x81;
    v[5] = 0x7F;
    assert_eq!(movemask(&v), 0b1000_0000_0001_0001);
}

#[test]
fn match_mask_has_one_bit_per_needle() {
    let chunk = *b"ab,cd\nef\r\ngh,,ij";
    let mask = match_mask(&chunk, &splat(COMMA), &splat(NEWLINE), &splat(RETURN_CARRIAGE));
    assert_eq!(mask, 0b0011_0011_0010_0100);
    assert_eq!(mask.trailing_zeros(), 2);
    let none = match_mask(&[b'x'; 16], &splat(COMMA), &splat(NEWLINE), &splat(RETURN_CARRIAGE));
    assert_eq!(none, 0);
}

#[test]
fn select_follows_the_capability() {
    assert_eq!(Kernel::select(true), Kernel::Simd);
    assert_eq!(Kernel::select(false), Kernel::Scalar);
}

#[test]
fn every_kernel_finds_the_first_marker() {
    for kernel in [Kernel::Scalar, Kernel::Vectorized, Kernel::Simd] {
        assert_eq!(kernel.search(b"the quick, brown\nfox"), Some(9));
        assert_eq!(kernel.search(b"the quick brown\r\nfox"), Some(15));
        assert_eq!(kernel.search(b"the quick brown fox\n"), Some(19));
        assert_eq!(kernel.search(b"the quick brown fox"), None);
        assert_eq!(kernel.search(b""), None);
    }
}

#[test]
fn vectorized_kernel_searches_for_the_three_markers_only() {
    assert_eq!(Kernel::Vectorized.search(b"a;b\tc d"), None);
    assert_eq!(Kernel::Vectorized.search(b"a;b\tc d,"), Some(7));
    assert_eq!(Kernel::Vectorized.search(b"\r"), Some(0));
    assert_eq!(Kernel::Vectorized.search(b"x\n"), Some(1));
}

#[test]
fn kernels_agree_on_every_short_buffer() {
    let alphabet = [b'a', b',', b'\n', b'\r'];
    for len in 0..7usize {
        let mut count = 1usize;
        for _ in 0..len {
            count *= alphabet.len();
        }
        for code in 0..count {
            let mut data = Vec::new();
            let mut rest = code;
            for _ in 0..len {
                data.push(alphabet[rest % alphabet.len()]);
                rest /= alphabet.len();
            }
            let expected = data.iter().position(|&b| b == b',' || b == b'\n' || b == b'\r');
            assert_eq!(Kernel::Scalar.search(&data), expected);
            assert_eq!(Kernel::Vectorized.search(&data), expected);
            assert_eq!(Kernel::Simd.search(&data), expected);
        }
    }
}
