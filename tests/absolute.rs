use checked_paths::absolute::{AbsolutePath, AbsolutePathBuf};
use checked_paths::errors::{
    AbsoluteJoinError, AbsolutePathBufNewError, AbsolutePathNewError, JoinedAbsolute,
    NormalizationFailed, NotAbsolute, WasNotNormalized,
};
use std::path::{Path, PathBuf};

const CWD: &str = "/home/user/project";

fn cwd() -> PathBuf {
    PathBuf::from(CWD)
}

fn text(p: &Path) -> String {
    p.display().to_string()
}

#[test]
fn absolute_path_try_new() {
    let cwd = cwd();
    let foo_txt = text(&cwd.join("foo.txt"));
    assert_eq!(
        cwd.join("foo.txt").as_path(),
        Path::new(AbsolutePath::try_new(&foo_txt).unwrap().as_path())
    );

    assert_eq!(
        AbsolutePathNewError::NotAbsolute(NotAbsolute(String::from("foo.txt"))),
        AbsolutePath::try_new("foo.txt").unwrap_err()
    );
    let up = text(&cwd.join("foo/../../bar.txt"));
    assert_eq!(
        AbsolutePathNewError::WasNotNormalized(WasNotNormalized(up.clone())),
        AbsolutePath::try_new(&up).unwrap_err()
    );
}

#[test]
fn absolute_path_join() {
    let cwd = cwd();
    let foo_bar = text(&cwd.join("foo/bar"));

    let base = AbsolutePath::try_new(&foo_bar).unwrap();
    assert_eq!(
        cwd.join("foo/bar/baz").as_path(),
        Path::new(base.join("baz").unwrap().as_path())
    );
    assert_eq!(
        cwd.join("foo/baz").as_path(),
        Path::new(base.join("../baz").unwrap().as_path())
    );
    assert_eq!(
        cwd.join("foo/bar/baz").as_path(),
        Path::new(base.join("./baz").unwrap().as_path())
    );
    assert_eq!(
        AbsoluteJoinError::JoinedAbsolute(JoinedAbsolute(
            base.as_path().to_string(),
            CWD.to_string()
        )),
        base.join(CWD).unwrap_err()
    );

    // collapsing to exactly the root leaves no segment, which a normalizing
    // join refuses
    let back_to_root = "../".repeat(cwd.components().count() + 1);
    assert_eq!(
        AbsoluteJoinError::NormalizationFailed(NormalizationFailed(text(
            &cwd.join("foo/bar").join(&back_to_root)
        ))),
        base.join(&back_to_root).unwrap_err()
    );

    let back_past_root = "../".repeat(cwd.components().count() + 2);
    assert_eq!(
        AbsoluteJoinError::NormalizationFailed(NormalizationFailed(text(
            &cwd.join("foo/bar").join(&back_past_root)
        ))),
        base.join(&back_past_root).unwrap_err()
    );
}

#[test]
fn path_parent() {
    let cwd = cwd();
    let root = Path::new("/");
    let abs_root_buf = AbsolutePathBuf::try_new("/").unwrap();

    let abs_cwd = AbsolutePath::try_new(CWD).unwrap();
    let abs_root = AbsolutePath::try_new(abs_root_buf.as_path()).unwrap();

    assert!(cwd.parent().is_some());
    let parent_text = text(cwd.parent().unwrap());
    assert_eq!(
        AbsolutePath::try_new(&parent_text).unwrap(),
        abs_cwd.parent().unwrap()
    );
    assert!(root.parent().is_none());
    assert!(abs_root.parent().is_none());
}

#[test]
fn absolute_path_buf_try_new() {
    let cwd = cwd();
    assert_eq!(
        cwd.join("foo.txt").as_path(),
        Path::new(
            AbsolutePathBuf::try_new(&text(&cwd.join("foo.txt")))
                .unwrap()
                .as_path()
        )
    );
    assert_eq!(
        cwd.join("foo/bar/quz.txt").as_path(),
        Path::new(
            AbsolutePathBuf::try_new(&text(&cwd.join("foo/bar/baz/../quz.txt")))
                .unwrap()
                .as_path()
        )
    );
    assert_eq!(
        cwd.join("foo/bar/baz/quz.txt").as_path(),
        Path::new(
            AbsolutePathBuf::try_new(&text(&cwd.join("./foo/bar/baz/./quz.txt")))
                .unwrap()
                .as_path()
        )
    );

    assert_eq!(
        AbsolutePathBufNewError::NotAbsolute(NotAbsolute(String::from("foo.txt"))),
        AbsolutePathBuf::try_new("foo.txt").unwrap_err()
    );

    let parent_dirs = "../".repeat(cwd.components().count());
    let past_root_path = text(&cwd.join("foo").join(parent_dirs).join("../../bar.txt"));
    assert_eq!(
        AbsolutePathBufNewError::NormalizationFailed(NormalizationFailed(past_root_path.clone())),
        AbsolutePathBuf::try_new(&past_root_path).unwrap_err()
    );
}

#[test]
fn path_buf_join() {
    let cwd = cwd();
    let foo_bar = text(&cwd.join("foo/bar"));

    let base = AbsolutePathBuf::try_new(&foo_bar).unwrap();
    assert_eq!(
        cwd.join("foo/bar/baz").as_path(),
        Path::new(base.join("baz").unwrap().as_path())
    );
    assert_eq!(
        cwd.join("foo/baz").as_path(),
        Path::new(base.join("../baz").unwrap().as_path())
    );
    assert_eq!(
        cwd.join("foo/bar/baz").as_path(),
        Path::new(base.join("./baz").unwrap().as_path())
    );
    assert_eq!(
        AbsoluteJoinError::JoinedAbsolute(JoinedAbsolute(
            base.as_absolute_path().as_path().to_string(),
            CWD.to_string()
        )),
        base.join(CWD).unwrap_err()
    );

    // collapsing to exactly the root leaves no segment, which a normalizing
    // join refuses
    let back_to_root = "../".repeat(cwd.components().count() + 1);
    assert_eq!(
        AbsoluteJoinError::NormalizationFailed(NormalizationFailed(text(
            &cwd.join("foo/bar").join(&back_to_root)
        ))),
        base.join(&back_to_root).unwrap_err()
    );

    let back_past_root = "../".repeat(cwd.components().count() + 2);
    assert_eq!(
        AbsoluteJoinError::NormalizationFailed(NormalizationFailed(text(
            &cwd.join("foo/bar").join(&back_past_root)
        ))),
        base.join(&back_past_root).unwrap_err()
    );
}

#[test]
fn path_buf_parent() {
    let cwd = cwd();
    let root = Path::new("/");

    let abs_cwd = AbsolutePathBuf::try_new(CWD).unwrap();
    let abs_root = AbsolutePathBuf::try_new("/").unwrap();

    assert!(cwd.parent().is_some());
    let parent_text = text(cwd.parent().unwrap());
    assert_eq!(
        AbsolutePath::try_new(&parent_text).unwrap(),
        abs_cwd.parent().unwrap()
    );
    assert!(root.parent().is_none());
    assert!(abs_root.parent().is_none());
}

#[test]
fn buf_keeps_canonical_text() {
    let p = AbsolutePathBuf::try_new("//a///b/").unwrap();
    assert_eq!("/a/b", p.as_path());
    let root = AbsolutePathBuf::try_new("/").unwrap();
    assert_eq!("/", root.as_path());
    let borrowed = AbsolutePath::try_new("/a//b/").unwrap();
    assert_eq!("/a//b/", borrowed.as_path());
    assert_eq!("/a/b", borrowed.to_path_buf().as_path());
}

#[test]
fn parent_of_nested_and_top_level() {
    let p = AbsolutePath::try_new("/a/b/c").unwrap();
    assert_eq!("/a/b", p.parent().unwrap().as_path());
    let top = AbsolutePath::try_new("/a").unwrap();
    assert_eq!("/", top.parent().unwrap().as_path());
    let slashes = AbsolutePath::try_new("/a//b//").unwrap();
    assert_eq!(Path::new("/a"), Path::new(slashes.parent().unwrap().as_path()));
    let buf = AbsolutePathBuf::try_new("/x/y").unwrap();
    assert_eq!("/x", buf.parent().unwrap().as_path());
}

#[test]
fn borrowed_form_refuses_current_dir_marker() {
    assert_eq!(
        AbsolutePathNewError::WasNotNormalized(WasNotNormalized("/a/./b".to_string())),
        AbsolutePath::try_new("/a/./b").unwrap_err()
    );
    assert!(AbsolutePath::try_new("/a/b").is_ok());
}

#[test]
fn owned_form_refuses_collapse_to_root() {
    assert_eq!(
        AbsolutePathBufNewError::NormalizationFailed(NormalizationFailed("/a/..".to_string())),
        AbsolutePathBuf::try_new("/a/..").unwrap_err()
    );
    assert_eq!(
        AbsolutePathBufNewError::NormalizationFailed(NormalizationFailed("/..".to_string())),
        AbsolutePathBuf::try_new("/..").unwrap_err()
    );
    assert_eq!(
        AbsolutePathBufNewError::NormalizationFailed(NormalizationFailed("/../a".to_string())),
        AbsolutePathBuf::try_new("/../a").unwrap_err()
    );
}

#[test]
fn join_relative_and_empty_join() {
    let base = AbsolutePathBuf::try_new("/a/b").unwrap();
    let rel = checked_paths::relative::RelativePath::try_new("../c/./d").unwrap();
    assert_eq!("/a/c/d", base.join_relative(&rel).unwrap().as_path());
    assert_eq!("/a/b", base.join("").unwrap().as_path());
    let root = AbsolutePathBuf::try_new("/").unwrap();
    assert_eq!("/x", root.join("x").unwrap().as_path());
    assert_eq!(
        NormalizationFailed("/a/b/../../..".to_string()),
        base.join_relative(&checked_paths::relative::RelativePath::try_new("../../..").unwrap())
            .unwrap_err()
    );
}

#[test]
fn from_str_parses_and_normalizes() {
    let p: AbsolutePathBuf = "/a/./b/../c".parse().unwrap();
    assert_eq!("/a/c", p.as_path());
    let e = "a".parse::<AbsolutePathBuf>().unwrap_err();
    assert_eq!(AbsolutePathBufNewError::NotAbsolute(NotAbsolute("a".to_string())), e);
}

#[test]
fn clone_keeps_the_path() {
    let p = AbsolutePathBuf::try_new("/a/b").unwrap();
    let q = p.clone();
    assert_eq!(p, q);
    assert_eq!("/a/b", q.as_path());
}
