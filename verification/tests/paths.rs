use std::path::Path;
use ygrep_core::path::{path_extension, relative_path};

const PATHS: [&str; 24] = [
    "a.rs", "/w/a.rs", "a", ".gitignore", "x/.gitignore", "a.tar.gz", "a.", "..", "a/..", "a.b/c", "a.rs/", "a.rs/.",
    "./a.rs", ".", "", "/", "//w//a.rs", "..b", "a..b", ".a.b", "/w/./x/y.txt", "x.RS", "...", "w/ a .b c",
];

#[test]
fn extensions_are_those_of_std() {
    for path in PATHS {
        let expected = Path::new(path).extension().map(|e| e.to_string_lossy().into_owned());
        assert_eq!(path_extension(path), expected, "{:?}", path);
    }
}

#[test]
fn relative_paths_are_those_of_std() {
    let more = [
        "/w", "/w/", "/w/x", "/w/x/", "/w/x/.", "/w//x//y", "/w/./x/./y/.", "/wx/y", "/", "/w/..", "/w/../x", "w/x",
        "/w/src/main.rs", "/W/x", "/w/.", "//w/x", "./w/x", "./w/./x/", "w", "w//x/.", "../x", "./.", "a/../b",
    ];
    for root in ["/w", "/w/", "/", "//w", "/w/src", "/w/./src", "w", ".", "./w", "./", "..", "a", "a/..", "./a.rs"] {
        for path in more.iter().chain(PATHS.iter()) {
            let p = Path::new(path);
            let expected = p.strip_prefix(Path::new(root)).unwrap_or(p).to_string_lossy().into_owned();
            assert_eq!(relative_path(root, path), expected, "{:?} {:?}", root, path);
        }
    }
}

#[test]
fn joined_path_is_found_again() {
    assert_eq!(relative_path("/home/me/work", "/home/me/work/src/lib.rs"), "src/lib.rs");
    assert_eq!(relative_path("/home/me/work", "/elsewhere/lib.rs"), "/elsewhere/lib.rs");
}
