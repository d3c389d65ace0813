use checked_paths::absolute::{AbsolutePath, AbsolutePathBuf};
use checked_paths::errors::{JoinedAbsolute, NormalizationFailed, NotRelative};
use checked_paths::relative::{RelativePath, RelativePathBuf};
use std::path::{Path, PathBuf};

const CWD: &str = "/home/user/project";

fn cwd() -> PathBuf {
    PathBuf::from(CWD)
}

fn text(p: &Path) -> String {
    p.display().to_string()
}

#[test]
fn relative_path_try_new() {
    let cwd = cwd();

    assert_eq!(
        Path::new("foo.txt"),
        Path::new(RelativePath::try_new("foo.txt").unwrap().as_path())
    );
    assert_eq!(
        Path::new("foo/../bar/../../baz/./quz.txt"),
        Path::new(
            RelativePath::try_new("foo/../bar/../../baz/./quz.txt")
                .unwrap()
                .as_path()
        )
    );

    let abs = text(&cwd.join("foo.txt"));
    assert_eq!(Err(NotRelative(abs.clone())), RelativePath::try_new(&abs));
}

#[test]
fn relative_path_join() {
    let cwd = cwd();

    assert_eq!(
        Path::new("foo/bar"),
        Path::new(RelativePath::try_new("foo").unwrap().join("bar").unwrap().as_path())
    );
    assert_eq!(
        Path::new("../baz/quz.txt"),
        Path::new(
            RelativePath::try_new("foo")
                .unwrap()
                .join("../bar/../../baz/./quz.txt")
                .unwrap()
                .as_path()
        )
    );

    let abs = text(&cwd.join("foo.txt"));
    assert_eq!(
        Err(JoinedAbsolute("foo".to_owned(), abs.clone())),
        RelativePath::try_new("foo").unwrap().join(&abs)
    );
}

#[test]
fn relative_path_try_into_absolute() {
    let cwd = cwd();
    let foo_bar = text(&cwd.join("foo/bar"));

    let base = AbsolutePath::try_new(&foo_bar).unwrap();

    assert_eq!(
        cwd.join("foo/bar/baz").as_path(),
        Path::new(
            RelativePath::try_new("baz")
                .unwrap()
                .try_into_absolute(&base)
                .unwrap()
                .as_path()
        )
    );
    assert_eq!(
        cwd.join("foo").as_path(),
        Path::new(
            RelativePath::try_new("../")
                .unwrap()
                .try_into_absolute(&base)
                .unwrap()
                .as_path()
        )
    );
    assert_eq!(
        cwd.join("foo/bar/baz/quz").as_path(),
        Path::new(
            RelativePath::try_new("baz/./quz")
                .unwrap()
                .try_into_absolute(&base)
                .unwrap()
                .as_path()
        )
    );
}

#[test]
fn relative_path_buf_try_new() {
    let cwd = cwd();
    assert_eq!(
        Path::new("foo.txt"),
        Path::new(RelativePathBuf::try_new("foo.txt").unwrap().as_path())
    );
    assert_eq!(
        Path::new("../baz/quz.txt"),
        Path::new(
            RelativePathBuf::try_new("foo/../bar/../../baz/./quz.txt")
                .unwrap()
                .as_path()
        )
    );

    let abs = text(&cwd.join("foo.txt"));
    assert_eq!(Err(NotRelative(abs.clone())), RelativePathBuf::try_new(&abs));
}

#[test]
fn relative_path_buf_try_into_absolute() {
    let cwd = cwd();

    let base = AbsolutePathBuf::try_new(&text(&cwd.join("foo/bar"))).unwrap();

    assert_eq!(
        cwd.join("foo/bar/baz").as_path(),
        Path::new(
            RelativePathBuf::try_new("baz")
                .unwrap()
                .try_into_absolute(&base.as_absolute_path())
                .unwrap()
                .as_path()
        )
    );
    assert_eq!(
        cwd.join("foo").as_path(),
        Path::new(
            RelativePathBuf::try_new("../")
                .unwrap()
                .try_into_absolute(&base.as_absolute_path())
                .unwrap()
                .as_path()
        )
    );
    assert_eq!(
        cwd.join("foo/bar/baz/quz").as_path(),
        Path::new(
            RelativePathBuf::try_new("baz/./quz")
                .unwrap()
                .try_into_absolute(&base.as_absolute_path())
                .unwrap()
                .as_path()
        )
    );
}

#[test]
fn buf_keeps_leading_parent_markers() {
    assert_eq!("../..", RelativePathBuf::try_new("../..").unwrap().as_path());
    assert_eq!("../../x", RelativePathBuf::try_new("a/../../../x").unwrap().as_path());
    assert_eq!("", RelativePathBuf::try_new("a/..").unwrap().as_path());
    assert_eq!("", RelativePathBuf::try_new("").unwrap().as_path());
    assert_eq!("a/b", RelativePathBuf::try_new("./a//b/").unwrap().as_path());
}

#[test]
fn buf_join_collapses() {
    let base = RelativePathBuf::try_new("a/b").unwrap();
    assert_eq!("a/c", base.join("../c").unwrap().as_path());
    assert_eq!("..", base.join("../../..").unwrap().as_path());
    assert_eq!(
        Err(JoinedAbsolute("a/b".to_string(), "/x".to_string())),
        base.join("/x")
    );
    let empty = RelativePathBuf::try_new("").unwrap();
    assert_eq!("x", empty.join("x").unwrap().as_path());
}

#[test]
fn as_relative_path_and_to_path_buf() {
    let buf = RelativePathBuf::try_new("a/./b").unwrap();
    let borrowed = buf.as_relative_path();
    assert_eq!("a/b", borrowed.as_path());
    let again = RelativePath::try_new("x/../y").unwrap().to_path_buf();
    assert_eq!("y", again.as_path());
    assert_eq!(again.clone(), again);
}

#[test]
fn try_into_absolute_past_root_fails() {
    let base = AbsolutePath::try_new("/a").unwrap();
    assert_eq!(
        Err(NormalizationFailed("/a/../..".to_string())),
        RelativePath::try_new("../..").unwrap().try_into_absolute(&base)
    );
}
