use auralux::os_paths::{
    extension as byte_extension, file_name as byte_file_name, file_stem as byte_file_stem,
    is_absolute, join_path, paths_equal,
};
use auralux::paths::{extension, file_name, file_stem};
use auralux::text::{chars_of, collapse_whitespace, parse_i64, split_lines, to_ascii_lowercase};

fn s(v: Option<String>) -> Option<String> {
    v
}

#[test]
fn file_names_follow_std_path() {
    for p in ["a/b.txt", "/x/y/", "foo.txt/.", "foo.txt/.//", "..", "/", "", ".", "a/..", "./a",
        "dir//name", ".bashrc", "a.", "a..b", "/.hidden.tar.gz"]
    {
        let std_path = std::path::Path::new(p);
        let want_name = std_path.file_name().map(|n| n.to_str().unwrap().to_string());
        let want_stem = std_path.file_stem().map(|n| n.to_str().unwrap().to_string());
        let want_ext = std_path.extension().map(|n| n.to_str().unwrap().to_string());
        assert_eq!(s(file_name(p)), want_name, "file_name of {p:?}");
        assert_eq!(s(file_stem(p)), want_stem, "file_stem of {p:?}");
        assert_eq!(s(extension(p)), want_ext, "extension of {p:?}");
        let bytes = p.as_bytes().to_vec();
        let as_bytes = |o: Option<String>| o.map(|t| t.into_bytes());
        assert_eq!(byte_file_name(&bytes), as_bytes(want_name.clone()), "file_name of {p:?}");
        assert_eq!(byte_file_stem(&bytes), as_bytes(want_stem.clone()), "file_stem of {p:?}");
        assert_eq!(byte_extension(&bytes), as_bytes(want_ext.clone()), "extension of {p:?}");
        assert_eq!(is_absolute(&bytes), std_path.is_absolute(), "is_absolute of {p:?}");
    }
}

#[test]
fn joins_follow_std_path() {
    for (base, name) in [("/a", "b"), ("/a/", "b"), ("", "b"), ("a", "/abs"), ("a", ""), ("a//", "c.d")] {
        let want = std::path::Path::new(base).join(name).to_str().unwrap().to_string();
        let joined = join_path(&base.as_bytes().to_vec(), &name.as_bytes().to_vec());
        assert_eq!(joined, want.into_bytes(), "join of {base:?} and {name:?}");
    }
}

#[test]
fn parses_i64_like_std() {
    for t in ["0", "42", "-42", "+7", "", "-", "+", "12a", " 1", "9223372036854775807",
        "9223372036854775808", "-9223372036854775808", "-9223372036854775809",
        "000123", "99999999999999999999999"]
    {
        assert_eq!(parse_i64(&chars_of(t)), t.parse::<i64>().ok(), "parse of {t:?}");
    }
}

#[test]
fn lines_and_words() {
    let text = "first\r\nsecond\n\nthird\r";
    let lines: Vec<String> = split_lines(&chars_of(text)).iter().map(|l| l.iter().collect()).collect();
    let want: Vec<String> = text.lines().map(str::to_string).collect();
    assert_eq!(lines, want);
    assert!(split_lines(&chars_of("")).is_empty());
    let collapsed: String = collapse_whitespace(&chars_of("  a \u{3000} b\tc  ")).iter().collect();
    assert_eq!(collapsed, "a b c");
    assert_eq!(to_ascii_lowercase("MP3.Ünï"), "mp3.Ünï");
}

#[test]
fn byte_paths_compare_by_components() {
    let b = |s: &str| s.as_bytes().to_vec();
    assert!(paths_equal(&b("/a//b/"), &b("/a/b")));
    assert!(paths_equal(&b("/a/./b"), &b("/a/b")));
    assert!(!paths_equal(&b("./a"), &b("a")));
    assert!(!paths_equal(&b("/a"), &b("a")));
    assert!(!paths_equal(&b("/a/../b"), &b("/b")));
    assert!(paths_equal(&b"/\xff".to_vec(), &b"//\xff/.".to_vec()));
    assert!(!paths_equal(&b(""), &b(".")));
}
