use checked_paths::absolute::{AbsolutePath, AbsolutePathBuf};
use checked_paths::errors::{
    AbsoluteJoinError, AbsolutePathNewError, CombinedJoinError, JoinedAbsolute,
    NormalizationFailed, NotAbsolute, NotRelative, WasNotNormalized,
};
use checked_paths::relative::{RelativePath, RelativePathBuf};

#[test]
fn join_plain_segment() {
    let base = AbsolutePathBuf::try_new("/a/b").unwrap();
    assert_eq!("/a/b/c", base.join("c").unwrap().as_path());
}

#[test]
fn join_parent_marker() {
    let base = AbsolutePathBuf::try_new("/a/b").unwrap();
    assert_eq!("/a/c", base.join("../c").unwrap().as_path());
}

#[test]
fn join_current_marker() {
    let base = AbsolutePathBuf::try_new("/a/b").unwrap();
    assert_eq!("/a/b/c", base.join("./c").unwrap().as_path());
}

#[test]
fn join_absolute_candidate_fails() {
    let base = AbsolutePathBuf::try_new("/a/b").unwrap();
    assert_eq!(
        AbsoluteJoinError::JoinedAbsolute(JoinedAbsolute("/a/b".to_string(), "/x".to_string())),
        base.join("/x").unwrap_err()
    );
}

#[test]
fn join_past_root_fails() {
    let base = AbsolutePathBuf::try_new("/a/b").unwrap();
    assert_eq!(
        AbsoluteJoinError::NormalizationFailed(NormalizationFailed(
            "/a/b/../../../".to_string()
        )),
        base.join("../../../").unwrap_err()
    );
}

#[test]
fn owned_constructor_normalizes() {
    let p = AbsolutePathBuf::try_new("/a/./b/../c").unwrap();
    assert_eq!("/a/c", p.as_path());
}

#[test]
fn normalizing_twice_changes_nothing() {
    let once = AbsolutePathBuf::try_new("/a/./b/../c//d/").unwrap();
    let twice = AbsolutePathBuf::try_new(once.as_path()).unwrap();
    assert_eq!(once, twice);
    assert_eq!("/a/c/d", twice.as_path());
}

#[test]
fn rendering_round_trips() {
    let a = AbsolutePathBuf::try_new("/x/../y/z").unwrap();
    assert_eq!(a, AbsolutePathBuf::try_new(a.as_path()).unwrap());
    let b = AbsolutePath::try_new("/p//q").unwrap();
    assert_eq!(b, AbsolutePath::try_new(b.as_path()).unwrap());
    let r = RelativePathBuf::try_new("../a/./b/..").unwrap();
    assert_eq!("../a", r.as_path());
    assert_eq!(r, RelativePathBuf::try_new(r.as_path()).unwrap());
    let s = RelativePath::try_new("a/../b").unwrap();
    assert_eq!(s, RelativePath::try_new(s.as_path()).unwrap());
}

#[test]
fn joins_stay_absolute() {
    let base = AbsolutePathBuf::try_new("/a/b").unwrap();
    for rel in ["c", "../c", "./c/./d", "..", "c/../..", "x/y/../../.."] {
        match base.join(rel) {
            Ok(p) => {
                assert!(p.as_path().starts_with('/'));
                assert!(!p.as_path().split('/').any(|s| s == "." || s == ".."));
            }
            Err(e) => assert!(matches!(e, AbsoluteJoinError::NormalizationFailed(_))),
        }
    }
}

#[test]
fn join_then_join_is_one_join() {
    let base = AbsolutePathBuf::try_new("/a/b").unwrap();
    let pairs = [("c", "d"), ("../c", "./d"), ("x/y", "../../z"), ("..", "q")];
    for (r1, r2) in pairs {
        let two_steps = base.join(r1).unwrap().join(r2).unwrap();
        let one_step = base.join(&format!("{}/{}", r1, r2)).unwrap();
        assert_eq!(two_steps, one_step);
    }
}

#[test]
fn rejection_is_exact() {
    assert_eq!(
        AbsolutePathNewError::NotAbsolute(NotAbsolute("a/b".to_string())),
        AbsolutePath::try_new("a/b").unwrap_err()
    );
    assert_eq!(
        AbsolutePathNewError::WasNotNormalized(WasNotNormalized("/a/../b".to_string())),
        AbsolutePath::try_new("/a/../b").unwrap_err()
    );
    assert!(AbsolutePath::try_new("/a/b").is_ok());
    assert!(AbsolutePath::try_new("/").is_ok());
    assert!(AbsolutePath::try_new("/a/..b/c.").is_ok());
    assert_eq!(Err(NotRelative("/a".to_string())), RelativePath::try_new("/a"));
    assert!(RelativePath::try_new("../a/./b").is_ok());
    assert!(RelativePath::try_new("").is_ok());
}

#[test]
fn join_errors_convert() {
    let e = AbsoluteJoinError::JoinedAbsolute(JoinedAbsolute("/a".to_string(), "/b".to_string()));
    assert_eq!(
        CombinedJoinError::JoinedAbsolute(JoinedAbsolute("/a".to_string(), "/b".to_string())),
        CombinedJoinError::from(e)
    );
    let n = AbsoluteJoinError::from(NormalizationFailed("/..".to_string()));
    assert_eq!(
        CombinedJoinError::NormalizationFailed(NormalizationFailed("/..".to_string())),
        CombinedJoinError::from(n)
    );
}
