use subsetter::{
    classify, compute_font_face, extension, file_name_extension, file_name_stem, file_stem, font_face,
    font_family_value, font_src, format_range, fingerprint_of_digest, hash, inline_src, is_inlined,
    sort_characters, unicodes, url_src, FontBytes, FontFaceParameters, FontFormat, SubsetError,
};

fn params(family: &str, text: &str, paths: &[&str], base: Option<&str>) -> FontFaceParameters {
    let paths: Vec<String> = paths.iter().map(|p| p.to_string()).collect();
    FontFaceParameters::new(family, 400, text, &paths, base).unwrap()
}

fn all_bytes() -> FontBytes {
    FontBytes { woff2: Some(vec![0, 1, 2]), woff: Some(vec![3, 4, 5]), ttf: Some(vec![6, 7, 8]) }
}

#[test]
fn hash_generates_expected_result_for_valid_input() {
    let text = "Halloa!";
    let result = hash(text);
    assert_eq!(result, String::from("69178b77"));
}

#[test]
fn hash_is_deterministic() {
    assert_eq!(hash("Some text, twice."), hash("Some text, twice."));
    assert_eq!(hash(""), hash(""));
}

#[test]
fn hash_ignores_order_and_repetition() {
    assert_eq!(hash("ab"), hash("ba"));
    assert_eq!(hash("ab"), hash("aabb"));
    assert_eq!(hash("Halloa!"), hash("!aloHla"));
    assert_ne!(hash("ab"), hash("abc"));
}

#[test]
fn fingerprint_keeps_upper_bits_in_lower_hex() {
    assert_eq!(fingerprint_of_digest(0x6917_8b77_1234_5678), "69178b77");
    assert_eq!(fingerprint_of_digest(0xABCD_0000_FFFF_FFFF), "abcd0000");
    assert_eq!(fingerprint_of_digest(0x0000_0001_FFFF_FFFF), "1");
    assert_eq!(fingerprint_of_digest(0), "0");
}

#[test]
fn sort_characters_sorts_and_dedups() {
    assert_eq!(sort_characters("banana"), vec!['a', 'b', 'n']);
    assert_eq!(sort_characters("Zz aZ"), vec![' ', 'Z', 'a', 'z']);
    assert_eq!(sort_characters(""), Vec::<char>::new());
}

#[test]
fn format_range_by_span() {
    assert_eq!(format_range(0x41, 0x41), "");
    assert_eq!(format_range(0x41, 0x42), "U+41");
    assert_eq!(format_range(0x41, 0x43), "U+41, U+42");
    assert_eq!(format_range(0x41, 0x44), "U+41-43");
    assert_eq!(format_range(0x1F600, 0x1F610), "U+1F600-1F60F");
}

#[test]
fn unicodes_single_character() {
    assert_eq!(unicodes("A"), Ok(String::from("U+41")));
}

#[test]
fn unicodes_two_adjacent_characters_are_discrete() {
    assert_eq!(unicodes("AB"), Ok(String::from("U+41, U+42")));
    assert_eq!(unicodes("BABA"), Ok(String::from("U+41, U+42")));
}

#[test]
fn unicodes_three_consecutive_characters_are_dashed() {
    assert_eq!(unicodes("ABC"), Ok(String::from("U+41-43")));
    assert_eq!(unicodes("CAB"), Ok(String::from("U+41-43")));
}

#[test]
fn unicodes_isolated_characters() {
    assert_eq!(unicodes("ACE"), Ok(String::from("U+41, U+43, U+45")));
}

#[test]
fn unicodes_mixed_runs() {
    assert_eq!(unicodes("abcxyé!"), Ok(String::from("U+21, U+61-63, U+78, U+79, U+E9")));
    assert_eq!(unicodes("\u{0}"), Ok(String::from("U+0")));
}

#[test]
fn unicodes_of_empty_text_fails() {
    assert_eq!(unicodes(""), Err(SubsetError::EmptyCharacterSet));
}

#[test]
fn classify_by_extension() {
    assert_eq!(classify("fonts/a.woff2"), Some(FontFormat::Woff2));
    assert_eq!(classify("a.woff"), Some(FontFormat::Woff));
    assert_eq!(classify("/x/y.tar.ttf"), Some(FontFormat::Ttf));
    assert_eq!(classify("a.otf"), None);
    assert_eq!(classify("ttf"), None);
    assert_eq!(classify(".ttf"), None);
    assert_eq!(classify("a.TTF"), None);
}

#[test]
fn new_rejects_missing_font_files() {
    let none: Vec<String> = Vec::new();
    assert!(matches!(
        FontFaceParameters::new("A", 400, "x", &none, None),
        Err(SubsetError::InvalidParameters)
    ));
    let unknown = vec![String::from("a.otf"), String::from("b.txt")];
    assert!(matches!(
        FontFaceParameters::new("A", 400, "x", &unknown, None),
        Err(SubsetError::InvalidParameters)
    ));
}

#[test]
fn new_classifies_paths_later_ones_winning() {
    let p = params("A", "x", &["a.ttf", "b.otf", "c.woff", "d.ttf"], Some("/fonts/"));
    assert_eq!(p.ttf_input_path, Some(String::from("d.ttf")));
    assert_eq!(p.woff_input_path, Some(String::from("c.woff")));
    assert_eq!(p.woff2_input_path, None);
    assert_eq!(p.output_base_url, Some(String::from("/fonts/")));
    assert_eq!(p.font_family, "A");
    assert_eq!(p.font_weight, 400);
    assert_eq!(p.text, "x");
}

#[test]
fn family_name_quoting() {
    assert_eq!(font_family_value("Open Sans"), "\"Open Sans__subset\"");
    assert_eq!(font_family_value("Inter"), "Inter__subset");
}

#[test]
fn font_src_inline_and_url() {
    let bytes = vec![0u8, 1, 2];
    assert_eq!(
        font_src(FontFormat::Woff, "dir/a.woff", None, false, Some(&bytes)),
        Ok(String::from("url('data:font/woff;base64, AAEC') format('woff')"))
    );
    assert_eq!(
        font_src(FontFormat::Woff, "dir/a.woff", Some("/fonts/"), true, Some(&bytes)),
        Ok(String::from("url('data:font/woff;base64, AAEC') format('woff')"))
    );
    assert_eq!(
        font_src(FontFormat::Ttf, "dir/a.b.ttf", Some("/fonts/"), false, None),
        Ok(String::from("url('/fonts/a.b.ttf') format('ttf')"))
    );
    assert_eq!(
        font_src(FontFormat::Woff2, "dir/a.woff2", None, true, None),
        Err(SubsetError::FileUnreadable(String::from("dir/a.woff2")))
    );
}

#[test]
fn font_face_full_declaration() {
    let p = params("Open Sans", "ACE", &["f/a.woff2", "f/a.woff", "f/a.ttf"], Some("/fonts/"));
    let expected = "@font-face {
    font-display: swap;
    font-family: \"Open Sans__subset\";
    font-stretch: normal;
    font-style: normal;
    font-weight: 400;
    src:
        url('data:font/woff2;base64, AAEC') format('woff2'),
        url('/fonts/a.woff') format('woff'),
        url('/fonts/a.ttf') format('ttf');
    unicode-range: U+41, U+43, U+45;
  }";
    assert_eq!(font_face(&p, &all_bytes()), Ok(String::from(expected)));
}

#[test]
fn font_face_structure() {
    let p = params("Inter", "Hello", &["a.woff2", "a.woff", "a.ttf"], None);
    let css = font_face(&p, &all_bytes()).unwrap();
    assert_eq!(css.matches("font-family:").count(), 1);
    assert_eq!(css.matches("font-weight:").count(), 1);
    assert_eq!(css.matches("unicode-range:").count(), 1);
    assert_eq!(css.matches("format('").count(), 3);
    assert!(css.contains("font-family: Inter__subset;"));
    assert!(css.contains("url('data:font/ttf;base64, BgcI') format('ttf')"));

    let p = params("Inter", "Hello", &["a.woff"], None);
    let css = font_face(&p, &all_bytes()).unwrap();
    assert_eq!(css.matches("format('").count(), 1);
}

#[test]
fn font_face_lone_woff_is_inlined_despite_base_url() {
    let p = params("Inter", "A", &["f/a.woff"], Some("/fonts/"));
    assert!(is_inlined(&p, FontFormat::Woff));
    let css = font_face(&p, &all_bytes()).unwrap();
    assert!(css.contains("url('data:font/woff;base64, AwQF') format('woff')"));
    assert!(!css.contains("/fonts/"));
}

#[test]
fn font_face_without_woff2_inlines_only_the_first() {
    let p = params("Inter", "A", &["f/a.woff", "f/a.ttf"], Some("/fonts/"));
    assert!(is_inlined(&p, FontFormat::Woff));
    assert!(!is_inlined(&p, FontFormat::Ttf));
    let bytes = FontBytes { woff2: None, woff: Some(vec![3, 4, 5]), ttf: None };
    let css = font_face(&p, &bytes).unwrap();
    assert!(css.contains("url('data:font/woff;base64, AwQF') format('woff'),\n        url('/fonts/a.ttf') format('ttf');"));
}

#[test]
fn font_face_of_empty_text_fails() {
    let p = params("Inter", "", &["a.woff2"], None);
    assert_eq!(font_face(&p, &all_bytes()), Err(SubsetError::EmptyCharacterSet));
}

#[test]
fn font_face_reports_missing_inline_file() {
    let p = params("Inter", "A", &["a.woff2", "b.woff"], None);
    let bytes = FontBytes { woff2: Some(vec![1]), woff: None, ttf: None };
    assert_eq!(font_face(&p, &bytes), Err(SubsetError::FileUnreadable(String::from("b.woff"))));
}

#[test]
fn file_name_splitting() {
    assert_eq!(file_name_extension("a.tar.gz"), Some(String::from("gz")));
    assert_eq!(file_name_extension(".hidden"), None);
    assert_eq!(file_name_extension("plain"), None);
    assert_eq!(file_name_extension("a."), Some(String::new()));
    assert_eq!(file_name_stem("a.tar.gz"), "a.tar");
    assert_eq!(file_name_stem(".hidden"), ".hidden");
    assert_eq!(file_name_stem("plain"), "plain");
}

#[test]
fn path_extension_and_stem() {
    assert_eq!(extension("dir.d/a.woff"), Some(String::from("woff")));
    assert_eq!(extension("dir.d/a"), None);
    assert_eq!(extension("a.ttf/.."), None);
    assert_eq!(file_stem("fonts/x/inter.woff2"), Some(String::from("inter")));
    assert_eq!(file_stem("fonts/x/"), Some(String::from("x")));
    assert_eq!(file_stem("/"), None);
}

#[test]
fn entry_texts() {
    assert_eq!(inline_src(FontFormat::Woff2, "QUJD"), "url('data:font/woff2;base64, QUJD') format('woff2')");
    assert_eq!(url_src(FontFormat::Ttf, "https://x.org/f/", "inter"), "url('https://x.org/f/inter.ttf') format('ttf')");
    assert_eq!(FontFormat::Woff.tag(), "woff");
}

#[test]
fn woff2_is_inlined_even_with_base_url() {
    let p = params("Inter", "A", &["a.woff2", "a.woff", "a.ttf"], Some("/fonts/"));
    assert!(is_inlined(&p, FontFormat::Woff2));
    assert!(!is_inlined(&p, FontFormat::Woff));
    assert!(!is_inlined(&p, FontFormat::Ttf));
    let q = params("Inter", "A", &["a.woff", "a.ttf"], None);
    assert!(is_inlined(&q, FontFormat::Woff));
    assert!(is_inlined(&q, FontFormat::Ttf));
    assert!(!is_inlined(&q, FontFormat::Woff2));
}

#[test]
fn compute_font_face_from_paths() {
    let paths = vec![String::from("f/a.woff2"), String::from("f/a.ttf"), String::from("notes.txt")];
    let css = compute_font_face("Inter", 700, "AB", &paths, Some("/fonts/"), &all_bytes()).unwrap();
    assert!(css.contains("font-weight: 700;"));
    assert!(css.contains("url('data:font/woff2;base64, AAEC') format('woff2'),\n        url('/fonts/a.ttf') format('ttf');"));
    assert!(css.contains("unicode-range: U+41, U+42;"));
    let none: Vec<String> = Vec::new();
    assert_eq!(
        compute_font_face("Inter", 700, "AB", &none, None, &all_bytes()),
        Err(SubsetError::InvalidParameters)
    );
    assert_eq!(
        compute_font_face("Inter", 700, "", &paths, None, &all_bytes()),
        Err(SubsetError::EmptyCharacterSet)
    );
}

#[test]
fn font_face_empty_text_wins_over_missing_file() {
    let p = params("Inter", "", &["a.woff2", "b.woff"], None);
    let bytes = FontBytes { woff2: None, woff: None, ttf: None };
    assert_eq!(font_face(&p, &bytes), Err(SubsetError::EmptyCharacterSet));
    let paths = vec![String::from("a.woff2")];
    assert_eq!(
        compute_font_face("Inter", 400, "", &paths, None, &bytes),
        Err(SubsetError::EmptyCharacterSet)
    );
}

#[test]
fn font_face_family_lines() {
    let p = params("Open Sans", "A", &["a.woff2"], None);
    let css = font_face(&p, &all_bytes()).unwrap();
    assert!(css.contains("\n    font-family: \"Open Sans__subset\";\n"));
    let p = params("Inter", "A", &["a.woff2"], None);
    let css = font_face(&p, &all_bytes()).unwrap();
    assert!(css.contains("\n    font-family: Inter__subset;\n"));
    assert_eq!(css.matches('"').count(), 0);
}
