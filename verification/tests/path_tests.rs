use winuxsh::builtins::paths::{
    is_filesystem_root, parent_preserving_relative_path, path_components, PathComponent,
};
use winuxsh::runtime::{join_path, resolve_path};
use winuxsh::winpath::{windows_absolute, windows_prefix, PrefixKind};

fn chars(s: &str) -> Vec<char> {
    s.chars().collect()
}

#[test]
fn unc_path_is_absolute_and_kept() {
    assert_eq!(resolve_path("C:\\x", "\\\\server\\share\\f", true), "\\\\server\\share\\f");
    assert_eq!(resolve_path("C:\\x", "\\\\server\\share", true), "\\\\server\\share");
}

#[test]
fn verbatim_and_device_paths_are_kept() {
    assert_eq!(resolve_path("C:\\x", "\\\\?\\D:\\y", true), "\\\\?\\D:\\y");
    assert_eq!(resolve_path("C:\\x", "\\\\?\\UNC\\srv\\sh\\f", true), "\\\\?\\UNC\\srv\\sh\\f");
    assert_eq!(resolve_path("C:\\x", "\\\\.\\COM1", true), "\\\\.\\COM1");
}

#[test]
fn drive_relative_and_rooted_paths() {
    assert_eq!(resolve_path("C:\\x", "D:b", true), "D:b");
    assert_eq!(resolve_path("C:\\x", "\\top", true), "C:\\top");
    assert_eq!(resolve_path("\\\\server\\share\\dir", "\\f", true), "\\\\server\\share\\f");
    assert_eq!(join_path("C:", "x", true), "C:x");
    assert_eq!(join_path("\\\\server\\share", "f", true), "\\\\server\\share\\f");
    assert_eq!(join_path("C:\\a\\", "b", true), "C:\\a\\b");
    assert_eq!(join_path("", "b", true), "b");
}

#[test]
fn verbatim_directory_resolves_dots() {
    assert_eq!(join_path("\\\\?\\C:\\a", "..\\b", true), "\\\\?\\C:\\b");
    assert_eq!(join_path("\\\\?\\C:\\a", ".\\b/c", true), "\\\\?\\C:\\a\\b\\c");
    assert_eq!(join_path("\\\\?\\C:\\a", "\\z", true), "\\\\?\\C:\\z");
}

#[test]
fn unix_joining() {
    assert_eq!(join_path("/a", "b", false), "/a/b");
    assert_eq!(join_path("/a/", "b", false), "/a/b");
    assert_eq!(join_path("/a", "/b", false), "/b");
    assert_eq!(join_path("", "b", false), "b");
    assert_eq!(resolve_path("/home", "C:\\x", false), "/home/C:\\x");
}

#[test]
fn prefixes_are_recognised() {
    assert_eq!(windows_prefix(&chars("\\\\server\\share\\f")), Some((PrefixKind::Unc, 14)));
    assert_eq!(windows_prefix(&chars("//server/share")), Some((PrefixKind::Unc, 14)));
    assert_eq!(windows_prefix(&chars("\\\\?\\UNC\\srv\\sh\\f")), Some((PrefixKind::VerbatimUnc, 14)));
    assert_eq!(windows_prefix(&chars("\\\\?\\C:\\x")), Some((PrefixKind::VerbatimDisk, 6)));
    assert_eq!(windows_prefix(&chars("\\\\?\\pipe\\x")), Some((PrefixKind::Verbatim, 8)));
    assert_eq!(windows_prefix(&chars("\\\\.\\COM1")), Some((PrefixKind::DeviceNs, 8)));
    assert_eq!(windows_prefix(&chars("C:x")), Some((PrefixKind::Disk, 2)));
    assert_eq!(windows_prefix(&chars("\\\\server")), None);
    assert_eq!(windows_prefix(&chars("\\x")), None);
    assert!(windows_absolute(&chars("\\\\server\\share")));
    assert!(windows_absolute(&chars("C:\\")));
    assert!(!windows_absolute(&chars("C:x")));
    assert!(!windows_absolute(&chars("\\x")));
}

#[test]
fn windows_components() {
    assert_eq!(
        path_components("\\\\server\\share\\a", true),
        vec![
            PathComponent::Prefix("\\\\server\\share".to_string()),
            PathComponent::RootDir,
            PathComponent::Normal("a".to_string()),
        ]
    );
    assert_eq!(
        path_components("\\\\?\\C:\\a\\.\\b/c", true),
        vec![
            PathComponent::Prefix("\\\\?\\C:".to_string()),
            PathComponent::RootDir,
            PathComponent::Normal("a".to_string()),
            PathComponent::CurDir,
            PathComponent::Normal("b/c".to_string()),
        ]
    );
    assert_eq!(
        path_components("C:.\\x", true),
        vec![
            PathComponent::Prefix("C:".to_string()),
            PathComponent::CurDir,
            PathComponent::Normal("x".to_string()),
        ]
    );
    assert!(is_filesystem_root("\\\\server\\share", true));
    assert!(is_filesystem_root("\\\\server\\share\\", true));
    assert!(!is_filesystem_root("\\\\server\\share\\a", true));
}

#[test]
fn parents_keep_unc_prefix() {
    assert_eq!(
        parent_preserving_relative_path("\\\\server\\share\\a\\b.txt", true),
        vec!["\\\\server\\share".to_string(), "a".to_string(), "b.txt".to_string()]
    );
    assert_eq!(
        parent_preserving_relative_path("C:\\a\\b.txt", true),
        vec!["C".to_string(), "a".to_string(), "b.txt".to_string()]
    );
}
