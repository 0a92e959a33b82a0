use spider::validate::is_valid_image;

#[test]
fn accepts_uppercase_extension_with_query() {
    assert!(is_valid_image(b"http://x/a.JPG?size=big"));
}

#[test]
fn rejects_svg() {
    assert!(!is_valid_image(b"http://x/a.svg"));
}

#[test]
fn rejects_svg_substring_even_with_png_suffix() {
    // The `.svg` substring rule overrides extension-suffix matching.
    assert!(!is_valid_image(b"http://x/icon.svg.png"));
}

#[test]
fn rejects_url_without_extension() {
    assert!(!is_valid_image(b"http://x/noext"));
}

#[test]
fn accepts_each_recognized_extension() {
    assert!(is_valid_image(b"http://x/a.jpg"));
    assert!(is_valid_image(b"http://x/a.jpeg"));
    assert!(is_valid_image(b"http://x/a.png"));
    assert!(is_valid_image(b"http://x/a.gif"));
    assert!(is_valid_image(b"http://x/a.bmp"));
}

#[test]
fn lowercases_whole_url_before_judging() {
    assert!(is_valid_image(b"HTTP://X/A.PNG"));
    assert!(!is_valid_image(b"http://x/A.SVG"));
}

#[test]
fn query_string_is_stripped_before_suffix_check() {
    assert!(is_valid_image(b"http://x/a.png?ignore=.txt"));
    assert!(!is_valid_image(b"http://x/a.txt?fake=.png"));
}

#[test]
fn extension_must_be_a_suffix_of_the_path() {
    assert!(!is_valid_image(b"http://x/a.png.txt"));
    assert!(!is_valid_image(b"http://x/apng"));
}
