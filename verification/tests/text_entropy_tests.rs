use webhound::text::is_probably_text;
use webhound::entropy::shannon_entropy;

#[test]
fn empty_buffer_is_not_text() {
    assert!(!is_probably_text(b""));
}

#[test]
fn ascii_buffer_is_text() {
    assert!(is_probably_text(b"hello world\nthis is fine\t"));
}

#[test]
fn noisy_buffer_is_not_text() {
    // one fifth of the sample is outside the printable range
    let mut data = vec![b'a'; 80];
    data.extend(vec![0xffu8; 20]);
    assert!(!is_probably_text(&data));
}

#[test]
fn sniff_samples_only_first_2048_bytes() {
    // noise beyond the sample window is invisible to the sniff
    let mut data = vec![b'a'; 2048];
    data.extend(vec![0u8; 4096]);
    assert!(is_probably_text(&data));
}

#[test]
fn text_sniff_boundary() {
    // exactly 10% weird: 10 * weird == len is not strictly below the bound
    let mut data = vec![b'a'; 9];
    data.push(0u8);
    assert!(!is_probably_text(&data));
    // just under: 1 weird in 11
    let mut data2 = vec![b'a'; 10];
    data2.push(0u8);
    assert!(is_probably_text(&data2));
}

#[test]
fn entropy_of_empty_is_zero() {
    assert_eq!(shannon_entropy(b""), (0, 0, 0));
}

#[test]
fn entropy_of_constant_buffer_is_zero() {
    let (h, total, len) = shannon_entropy(b"aaaaaaaa");
    assert_eq!(h, 0);
    assert_eq!(total, 0);
    assert_eq!(len, 8);
}

#[test]
fn entropy_of_two_symbols_is_one_bit() {
    let (h, total, len) = shannon_entropy(b"ab");
    assert_eq!(h, 100);
    assert_eq!(total, 200);
    assert_eq!(len, 2);
}

#[test]
fn entropy_of_uniform_bytes_is_eight_bits() {
    let data: Vec<u8> = (0u16..256).map(|b| b as u8).collect();
    let (h, total, len) = shannon_entropy(&data);
    assert_eq!(h, 800);
    assert_eq!(total, 800 * 256);
    assert_eq!(len, 256);
}

#[test]
fn entropy_is_positive_on_mixed_buffers() {
    let (h, total, len) = shannon_entropy(b"abbbbbbb");
    assert!(1 <= h && h <= 800);
    assert_eq!(total, h as u128 * len as u128);
}

#[test]
fn entropy_within_bounds_always() {
    let samples: Vec<&[u8]> = vec![b"", b"x", b"xy", b"hello", b"\x00\x01\x02\x03"];
    for s in samples {
        let (h, total, len) = shannon_entropy(s);
        assert!(h <= 800);
        assert_eq!(total, h as u128 * len as u128);
        assert_eq!(len, s.len());
    }
}
