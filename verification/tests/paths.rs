use std::path::Path;

use koharu::paths::{
    extension, file_name, has_any_extension, has_extension, join, parent, PathStyle,
};

const PATHS: [&str; 26] = [
    "",
    "/",
    "//",
    ".",
    "..",
    "a",
    "a/",
    "a//",
    "a/.",
    "a/./",
    "a/..",
    "./a",
    "../a",
    "/a",
    "/a/b",
    "a/b.c",
    "a/b.c.d",
    "a/.b",
    "a/.b.c",
    "a/b.",
    "a//b.cbz",
    "a/./b.cbz",
    "/.",
    "./.",
    "Manga/Chapter 1.cbz",
    "本/第1章.CBZ",
];

#[test]
fn takes_paths_apart_like_the_standard_library() {
    for text in PATHS {
        let path = Path::new(text);
        let name = path.file_name().map(|name| name.to_str().unwrap().to_owned());
        assert_eq!(file_name(PathStyle::Slashes, text), name, "file name of {text:?}");
        let ending = path.extension().map(|name| name.to_str().unwrap().to_owned());
        assert_eq!(extension(PathStyle::Slashes, text), ending, "extension of {text:?}");
        let above = path.parent().map(|path| path.to_str().unwrap().to_owned());
        assert_eq!(parent(PathStyle::Slashes, text), above, "parent of {text:?}");
    }
}

#[test]
fn joins_paths_like_the_standard_library() {
    for directory in PATHS {
        for name in PATHS {
            let expected = Path::new(directory).join(name);
            assert_eq!(join(PathStyle::Slashes, directory, name), expected.to_str().unwrap(), "{directory:?} {name:?}");
        }
    }
}

#[test]
fn recognises_extensions_in_any_case() {
    assert!(has_extension(PathStyle::Slashes, "a/Chapter.CbZ", "cbz"));
    assert!(!has_extension(PathStyle::Slashes, "a/cbz", "cbz"));
    assert!(!has_extension(PathStyle::Slashes, ".cbz", "cbz"));
    assert!(has_any_extension(PathStyle::Slashes, "x.JPEG", &["png", "jpeg"]));
    assert!(!has_any_extension(PathStyle::Slashes, "x.gif", &["png", "jpeg"]));
}

#[test]
fn takes_paths_of_windows_apart() {
    let cases: [(&str, Option<&str>, Option<&str>); 32] = [
        ("", None, None),
        ("a", Some("a"), Some("")),
        ("a\\b.png", Some("b.png"), Some("a")),
        ("a/b\\c.png", Some("c.png"), Some("a/b")),
        ("a\\\\b\\.\\", Some("b"), Some("a")),
        ("\\a", Some("a"), Some("\\")),
        ("\\", None, None),
        ("C:", None, None),
        ("C:\\", None, None),
        ("C:a.cbz", Some("a.cbz"), Some("C:")),
        ("C:\\a.cbz", Some("a.cbz"), Some("C:\\")),
        ("c:/a/b.cbz", Some("b.cbz"), Some("c:/a")),
        ("C:.", None, Some("C:")),
        ("1:p.png", Some("1:p.png"), Some("")),
        ("//a/b.png", None, None),
        ("\\\\a\\b.png", None, None),
        ("\\\\a\\b\\c.png", Some("c.png"), Some("\\\\a\\b\\")),
        ("//a/b/c/d.png", Some("d.png"), Some("//a/b/c")),
        ("\\\\a", Some("a"), Some("\\")),
        ("\\\\\\a\\b", Some("b"), Some("\\\\\\a")),
        ("\\\\.\\COM1", None, None),
        ("\\\\.\\COM1\\x.png", Some("x.png"), Some("\\\\.\\COM1\\")),
        ("//./COM1/x.png", Some("x.png"), Some("//./COM1/")),
        ("\\\\?\\C:\\a.png", Some("a.png"), Some("\\\\?\\C:\\")),
        ("\\\\?\\C:\\a/b.png", Some("a/b.png"), Some("\\\\?\\C:\\")),
        ("\\\\?\\C:\\a\\.", None, Some("\\\\?\\C:\\a")),
        ("\\\\?\\C:", None, None),
        ("\\\\?\\C:a.png", None, None),
        ("\\\\?\\pictures\\a.png", Some("a.png"), Some("\\\\?\\pictures\\")),
        ("\\\\?\\UNC\\a\\b\\c.png", Some("c.png"), Some("\\\\?\\UNC\\a\\b\\")),
        ("\\\\?\\UNC\\a\\b.png", None, None),
        ("//?/a/b.png", Some("b.png"), Some("//?/a/")),
    ];
    for (text, name, above) in cases {
        assert_eq!(file_name(PathStyle::Windows, text).as_deref(), name, "file name of {text:?}");
        assert_eq!(parent(PathStyle::Windows, text).as_deref(), above, "parent of {text:?}");
    }
    assert_eq!(file_name(PathStyle::Slashes, "C:\\a\\b.png").as_deref(), Some("C:\\a\\b.png"));
    assert_eq!(extension(PathStyle::Windows, "C:\\a.b\\c.D").as_deref(), Some("D"));
    assert_eq!(extension(PathStyle::Windows, "C:\\a.b\\c"), None);
}

#[test]
fn joins_paths_of_windows() {
    let cases = [
        ("", "a", "a"),
        ("C:", "a", "C:a"),
        ("C:\\", "a", "C:\\a"),
        ("C:/x", "a", "C:/x\\a"),
        ("x/", "a", "x/a"),
        ("C:\\x", "\\a", "C:\\a"),
        ("C:\\x", "D:a", "D:a"),
        ("C:\\x", "\\\\s\\t\\a", "\\\\s\\t\\a"),
        ("\\\\s\\t", "a", "\\\\s\\t\\a"),
        ("\\\\?\\C:\\x/", "a", "\\\\?\\C:\\x/\\a"),
    ];
    for (directory, name, path) in cases {
        assert_eq!(join(PathStyle::Windows, directory, name), path, "{directory:?} {name:?}");
    }
}

#[test]
fn a_joined_file_keeps_its_name() {
    for directory in ["", "/", "a", "a/", "a/."] {
        for name in ["x", "...", ".x", "a b.cbz"] {
            let path = join(PathStyle::Slashes, directory, name);
            assert_eq!(file_name(PathStyle::Slashes, &path).as_deref(), Some(name));
        }
    }
    for directory in ["", "\\", "a", "a/", "C:", "D:\\x", "\\\\s\\t", "\\\\?\\C:\\x/"] {
        for name in ["x", "...", ".x", "a b.cbz"] {
            let path = join(PathStyle::Windows, directory, name);
            assert_eq!(file_name(PathStyle::Windows, &path).as_deref(), Some(name));
        }
    }
}
