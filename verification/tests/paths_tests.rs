use std::path::Path;

use evfs::paths::{
    extension, file_ext, file_name, file_name_opt, file_stem, get_child_dir, get_subdirectory_from_path, is_entry_in_current_dir,
    parent_str,
};

const SAMPLES: &[&str] = &[
    "", "a", "a.txt", "dir/a.txt", "dir/sub/a.tar.gz", ".bashrc", "dir/.hidden", "a.", "dir/", "/", "/a", "/a/b",
    "./a", "a/./b", "a/..", "..", ".", "a//b", "a/b/", "dir/.a.b", "ü/é.TXT",
];

#[test]
fn file_name_agrees_with_std_path() {
    for s in SAMPLES {
        let std_name = Path::new(s).file_name().map(|n| n.to_str().unwrap());
        assert_eq!(file_name_opt(s), std_name, "{:?}", s);
        assert_eq!(file_name(s), std_name.unwrap_or(s), "{:?}", s);
    }
}

#[test]
fn extension_and_stem_agree_with_std_path() {
    for s in SAMPLES {
        let p = Path::new(s);
        assert_eq!(extension(s), p.extension().map(|e| e.to_str().unwrap()), "{:?}", s);
        assert_eq!(file_stem(s), p.file_stem().map(|e| e.to_str().unwrap()), "{:?}", s);
        assert_eq!(file_ext(s), p.extension().and_then(|e| e.to_str()).unwrap_or("(none)"), "{:?}", s);
    }
}

#[test]
fn parent_agrees_with_std_path() {
    for s in SAMPLES {
        let expected = Path::new(s).parent().map(|p| p.to_string_lossy().into_owned()).unwrap_or_default();
        assert_eq!(parent_str(s), expected, "{:?}", s);
    }
}

fn std_in_dir(dir: &str, path: &Path) -> bool {
    if dir.is_empty() {
        path.parent() == Some(Path::new(""))
    } else {
        path.starts_with(dir) && path.parent() == Some(Path::new(dir))
    }
}

fn std_subdir(dir: &str, path: &Path) -> Option<String> {
    if dir.is_empty() {
        if path.components().count() > 1 {
            return path.components().next().map(|c| c.as_os_str().to_string_lossy().into_owned());
        }
        return None;
    }
    let prefix = format!("{}/", dir);
    if path.starts_with(&prefix) {
        if let Ok(rel) = path.strip_prefix(dir) {
            let mut comps = rel.components();
            if let Some(first) = comps.next() {
                if comps.next().is_some() {
                    return Some(first.as_os_str().to_string_lossy().into_owned());
                }
            }
        }
    }
    None
}

#[test]
fn directory_membership_agrees_with_std_path() {
    let dirs = ["", "dir", "dir/sub", "a", "/", "dir/"];
    for d in dirs {
        for s in SAMPLES {
            assert_eq!(is_entry_in_current_dir(d, s), std_in_dir(d, Path::new(s)), "{:?} in {:?}", s, d);
            assert_eq!(get_subdirectory_from_path(d, s), std_subdir(d, Path::new(s)), "{:?} below {:?}", s, d);
        }
    }
}

#[test]
fn child_dir_examples() {
    assert_eq!(get_child_dir("", "a/b/c"), Some("a".to_string()));
    assert_eq!(get_child_dir("", ""), Some(String::new()));
    assert_eq!(get_child_dir("a", "a/b/c"), Some("b".to_string()));
    assert_eq!(get_child_dir("a", "a"), None);
    assert_eq!(get_child_dir("a", "ab/c"), None);
    assert_eq!(get_child_dir("a/b", "a/b/c"), Some("c".to_string()));
}
