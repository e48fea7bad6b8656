//! The library's readings of text and paths, held against std's own.

use bridgent::path::components_of;
use bridgent::project::{join, lexical_normalize, parent};
use bridgent::text::{chars_of, is_whitespace, lines_of, trim_end_chars};
use std::path::{Component, Path, PathBuf};

fn std_normalize(p: &Path) -> PathBuf {
    let mut out: Vec<Component> = Vec::new();
    for c in p.components() {
        match c {
            Component::CurDir => {}
            Component::ParentDir => match out.last() {
                Some(Component::RootDir) => {}
                Some(l) if *l != Component::ParentDir => {
                    out.pop();
                }
                _ => out.push(c),
            },
            other => out.push(other),
        }
    }
    out.iter().collect()
}

const SAMPLES: [&str; 24] = [
    "", ".", "..", "/", "//", "/a", "a", "a/", "./a", "../a", "a/./b", "a//b", "/a/../..",
    "/../x", "a/b/../../..", "./", ".//x/.", "x/..", "/a/b/c/", "..../x", ".pi/..x/.y",
    "~/x", "a/b/./../c/./d/..", "/.git/../.git/info",
];

#[test]
fn whitespace_matches_std() {
    for u in 0u32..=0x10ffff {
        if let Some(c) = char::from_u32(u) {
            assert_eq!(is_whitespace(c), c.is_whitespace(), "{:#x}", u);
        }
    }
}

#[test]
fn lines_and_trim_match_std() {
    let texts = [
        "", "\n", "a", "a\n", "a\r\n", "a\r", "a\n\nb", "a\r\r\nb\r", "\r\n\r\n", "x  \t\n y \u{3000}",
        "é\u{2028}\n\u{85}",
    ];
    for t in texts {
        let got: Vec<String> = lines_of(&chars_of(t)).iter().map(|l| l.iter().collect()).collect();
        let want: Vec<String> = t.lines().map(|l| l.to_string()).collect();
        assert_eq!(got, want, "{:?}", t);
        let trimmed: String = trim_end_chars(&chars_of(t)).iter().collect();
        assert_eq!(trimmed, t.trim_end(), "{:?}", t);
    }
}

#[test]
fn components_match_std() {
    for p in SAMPLES {
        let got: Vec<String> = components_of(&chars_of(p)).iter().map(|c| c.iter().collect()).collect();
        let want: Vec<String> = Path::new(p)
            .components()
            .map(|c| c.as_os_str().to_string_lossy().into_owned())
            .collect();
        assert_eq!(got, want, "{:?}", p);
    }
}

#[test]
fn normalization_matches_std() {
    for p in SAMPLES {
        let want = std_normalize(Path::new(p)).to_string_lossy().into_owned();
        assert_eq!(lexical_normalize(p), want, "{:?}", p);
    }
}

#[test]
fn join_matches_std() {
    for a in SAMPLES {
        for b in ["x", "/y", "", "./z", "../w"] {
            let want = Path::new(a).join(b).to_string_lossy().into_owned();
            assert_eq!(join(a, b), want, "{:?} {:?}", a, b);
        }
    }
}

#[test]
fn parent_matches_std_by_components() {
    for p in SAMPLES {
        let got = parent(p, "/root-fallback");
        let want = Path::new(p).parent().unwrap_or(Path::new("/root-fallback"));
        assert_eq!(Path::new(&got).components().collect::<Vec<_>>(), want.components().collect::<Vec<_>>(), "{:?}", p);
    }
}
