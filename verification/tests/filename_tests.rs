use spider::filename::derive_filename;

#[test]
fn percent_decodes_and_strips_query() {
    let name = derive_filename(b"http://x/path/name%20one.png?v=2").unwrap();
    assert_eq!(name, b"name one.png".to_vec());
}

#[test]
fn long_name_truncated_to_limit_preserving_extension() {
    let mut url: Vec<u8> = b"http://x/".to_vec();
    url.extend(std::iter::repeat(b'a').take(296));
    url.extend_from_slice(b".png");
    let name = derive_filename(&url).unwrap();
    assert_eq!(name.len(), 200);
    assert!(name.ends_with(b".png"));
    assert!(name[..196].iter().all(|&b| b == b'a'));
}

#[test]
fn long_name_without_dot_hard_truncated() {
    let mut url: Vec<u8> = b"http://x/".to_vec();
    url.extend(std::iter::repeat(b'z').take(300));
    let name = derive_filename(&url).unwrap();
    assert_eq!(name.len(), 200);
    assert!(name.iter().all(|&b| b == b'z'));
}

#[test]
fn truncation_backs_off_to_a_character_boundary() {
    // The raw cut at 196 bytes would split the two-byte character; the
    // cut backs off one byte, and the name stays valid UTF-8.
    let mut url: Vec<u8> = b"http://x/".to_vec();
    url.extend(std::iter::repeat(b'a').take(195));
    url.extend_from_slice(b"%C3%A9"); // one two-byte character
    url.extend(std::iter::repeat(b'b').take(10));
    url.extend_from_slice(b".png");
    let name = derive_filename(&url).unwrap();
    let mut expected: Vec<u8> = std::iter::repeat(b'a').take(195).collect();
    expected.extend_from_slice(b".png");
    assert_eq!(name, expected);
    assert!(String::from_utf8(name).is_ok());
}

#[test]
fn short_name_kept_as_is() {
    let name = derive_filename(b"http://x/images/photo.jpeg").unwrap();
    assert_eq!(name, b"photo.jpeg".to_vec());
}

#[test]
fn query_may_hide_the_segment_separator() {
    // The final segment is taken from the whole URL string, query
    // included, and only then cut at the first question mark.
    let name = derive_filename(b"http://x/a.png?v=1/2").unwrap();
    assert_eq!(name, b"2".to_vec());
}

#[test]
fn trailing_slash_gives_empty_name() {
    let name = derive_filename(b"http://x/dir/").unwrap();
    assert_eq!(name, Vec::<u8>::new());
}

#[test]
fn decoding_to_invalid_utf8_fails() {
    assert_eq!(derive_filename(b"http://x/bad%FFname.png"), None);
}

#[test]
fn stray_percent_is_kept_literally() {
    let name = derive_filename(b"http://x/50%25off.png").unwrap();
    assert_eq!(name, b"50%off.png".to_vec());
    let name = derive_filename(b"http://x/odd%zq.png").unwrap();
    assert_eq!(name, b"odd%zq.png".to_vec());
}
