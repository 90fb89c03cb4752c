use dynamic_preauth::error::AppError;
use dynamic_preauth::executable::{placeholder, Executable, PLACEHOLDER_LEN};
use dynamic_preauth::search::search;
use dynamic_preauth::text::{decimal_text, parse_trimmed_decimal};

fn template(prefix: &[u8], suffix: &[u8]) -> Vec<u8> {
    let mut data = prefix.to_vec();
    data.extend(std::iter::repeat(b'a').take(1024));
    data.extend_from_slice(suffix);
    data
}

fn load(data: Vec<u8>) -> Executable {
    Executable::from_template(
        data,
        "demo.exe".to_string(),
        "demo".to_string(),
        "exe".to_string(),
    )
    .unwrap()
}

#[test]
fn search_finds_first_match_at_or_after_start() {
    let buf = b"abcabcabc";
    assert_eq!(search(buf, b"abc", 0), Some(0));
    assert_eq!(search(buf, b"abc", 1), Some(3));
    assert_eq!(search(buf, b"cab", 0), Some(2));
    assert_eq!(search(buf, b"abc", 7), None);
    assert_eq!(search(buf, b"xyz", 0), None);
}

#[test]
fn search_rejects_degenerate_inputs() {
    assert_eq!(search(b"abc", b"", 0), None);
    assert_eq!(search(b"abc", b"abcd", 0), None);
    assert_eq!(search(b"abc", b"a", 3), None);
    assert_eq!(search(b"", b"a", 0), None);
    assert_eq!(Executable::search_pattern(b"xxab", b"ab", 0), Some(2));
}

#[test]
fn search_match_at_the_very_end() {
    assert_eq!(search(b"xxxxab", b"ab", 0), Some(4));
    assert_eq!(search(b"ab", b"ab", 0), Some(0));
}

#[test]
fn template_locates_placeholder() {
    let exe = load(template(b"XX", b"YY"));
    assert_eq!(exe.key_start, 2);
    assert_eq!(exe.key_end, 2 + PLACEHOLDER_LEN);
    assert_eq!(placeholder().len(), 1024);
}

#[test]
fn template_without_placeholder_is_rejected() {
    let r = Executable::from_template(
        b"no sentinel here".to_vec(),
        "demo.exe".to_string(),
        "demo".to_string(),
        "exe".to_string(),
    );
    assert_eq!(
        r.unwrap_err(),
        AppError::KeyPatternNotFound { name: "demo.exe".to_string() }
    );
}

#[test]
fn stamp_concrete_scenario() {
    let exe = load(template(b"XX", b"YY"));
    let out = exe.with_key(b"12345").unwrap();
    let mut expected = b"XX12345".to_vec();
    expected.extend(std::iter::repeat(b' ').take(1019));
    expected.extend_from_slice(b"YY");
    assert_eq!(out.len(), exe.data.len());
    assert_eq!(out, expected);
}

#[test]
fn stamp_keeps_bytes_outside_span() {
    let exe = load(template(b"head\x00\x01", b"\xfftail"));
    let out = exe.with_key(b"987").unwrap();
    let (s, e) = (exe.key_start, exe.key_end);
    assert_eq!(&out[..s], &exe.data[..s]);
    assert_eq!(&out[e..], &exe.data[e..]);
    assert_eq!(&out[s..s + 3], b"987");
    assert!(out[s + 3..e].iter().all(|b| *b == b' '));
}

#[test]
fn stamp_full_span_leaves_no_fill() {
    let exe = load(template(b"", b""));
    let value = vec![b'7'; 1024];
    let out = exe.with_key(&value).unwrap();
    assert_eq!(out, value);
}

#[test]
fn stamp_value_too_long_is_an_error() {
    let exe = load(template(b"XX", b"YY"));
    let value = vec![b'1'; 1025];
    assert_eq!(
        exe.with_key(&value),
        Err(AppError::ValueTooLong { length: 1025, capacity: 1024 })
    );
}

#[test]
fn stamped_token_reads_back() {
    let exe = load(template(b"XX", b"YY"));
    for token in [0u32, 7, 12345, 4_000_000_000, u32::MAX] {
        let out = exe.with_key(&decimal_text(token)).unwrap();
        let region = &out[exe.key_start..exe.key_end];
        let text = std::str::from_utf8(region).unwrap();
        assert_eq!(text.trim().parse::<u32>(), Ok(token));
        assert_eq!(parse_trimmed_decimal(region), Some(token));
    }
}
