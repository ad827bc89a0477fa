use workingcopy::matcher::DirectoryMatch;
use workingcopy::status::StatusMatchers;
use workingcopy::matcher::Matcher;
use workingcopy::RepoPathBuf;

fn path(s: &str) -> RepoPathBuf {
    RepoPathBuf::from_bytes(s.as_bytes().to_vec()).unwrap()
}

fn paths(names: &[&str]) -> Vec<RepoPathBuf> {
    names.iter().map(|n| path(n)).collect()
}

#[test]
fn union_with_always_matches_everything() {
    let a = Matcher::Exact(paths(&["a/b.txt"]));
    let m = Matcher::Union(Box::new(a), Box::new(Matcher::Always));
    for sample in ["a/b.txt", "x.rs", "deep/under/dir.c"] {
        assert!(m.matches_file(&path(sample)));
        assert!(Matcher::Always.matches_file(&path(sample)));
    }
}

#[test]
fn intersect_with_always_matches_like_the_matcher() {
    let samples = ["a/b.txt", "x.rs", "deep/under/dir.c"];
    for sample in samples {
        let a = Matcher::Exact(paths(&["a/b.txt", "x.rs"]));
        let m = Matcher::Intersect(Box::new(a.dup()), Box::new(Matcher::Always));
        assert_eq!(m.matches_file(&path(sample)), a.matches_file(&path(sample)));
    }
}

#[test]
fn difference_with_itself_matches_nothing() {
    let a = Matcher::DirPrefix(paths(&["src", "build"]));
    let m = Matcher::Difference(Box::new(a.dup()), Box::new(a));
    for sample in ["src/lib.rs", "build/out.o", "other.txt"] {
        assert!(!m.matches_file(&path(sample)));
    }
}

#[test]
fn exact_matcher_matches_only_members() {
    let m = Matcher::Exact(paths(&["a/b.txt", "c.txt"]));
    assert!(m.matches_file(&path("a/b.txt")));
    assert!(m.matches_file(&path("c.txt")));
    assert!(!m.matches_file(&path("a/b")));
    assert!(!m.matches_file(&path("a/b.txt.bak")));
}

#[test]
fn dir_prefix_matcher_matches_below_the_directory() {
    let m = Matcher::DirPrefix(paths(&["build"]));
    assert!(m.matches_file(&path("build/out.o")));
    assert!(m.matches_file(&path("build/deep/out.o")));
    assert!(!m.matches_file(&path("build")));
    assert!(!m.matches_file(&path("builder/out.o")));
}

#[test]
fn directory_answers_are_sound() {
    let m = Matcher::DirPrefix(paths(&["build"]));
    assert_eq!(m.matches_directory(&path("build")), DirectoryMatch::Everything);
    assert_eq!(m.matches_directory(&path("build/sub")), DirectoryMatch::Everything);
    assert_eq!(m.matches_directory(&path("src")), DirectoryMatch::Nothing);

    let e = Matcher::Exact(paths(&["a/b.txt"]));
    assert_eq!(e.matches_directory(&path("a")), DirectoryMatch::ShouldTraverse);
    assert_eq!(e.matches_directory(&path("b")), DirectoryMatch::Nothing);

    let never = Matcher::Never;
    assert_eq!(never.matches_directory(&path("a")), DirectoryMatch::Nothing);
    assert_eq!(Matcher::Always.matches_directory(&path("a")), DirectoryMatch::Everything);
}

#[test]
fn composite_directory_answers() {
    let build = Matcher::DirPrefix(paths(&["build"]));
    let src = Matcher::DirPrefix(paths(&["src"]));
    let u = Matcher::Union(Box::new(build.dup()), Box::new(src.dup()));
    assert_eq!(u.matches_directory(&path("build")), DirectoryMatch::Everything);
    assert_eq!(u.matches_directory(&path("docs")), DirectoryMatch::Nothing);

    let d = Matcher::Difference(Box::new(Matcher::Always), Box::new(build.dup()));
    assert_eq!(d.matches_directory(&path("build")), DirectoryMatch::Nothing);
    assert_eq!(d.matches_directory(&path("src")), DirectoryMatch::Everything);

    let i = Matcher::Intersect(Box::new(build), Box::new(src));
    assert_eq!(i.matches_directory(&path("build")), DirectoryMatch::Nothing);
}

#[test]
fn invalid_paths_are_refused() {
    assert!(RepoPathBuf::from_bytes(b"".to_vec()).is_err());
    assert!(RepoPathBuf::from_bytes(b"/lead".to_vec()).is_err());
    assert!(RepoPathBuf::from_bytes(b"trail/".to_vec()).is_err());
    assert!(RepoPathBuf::from_bytes(b"a//b".to_vec()).is_err());
    assert!(RepoPathBuf::from_bytes(b"a/b".to_vec()).is_ok());
}

#[test]
fn final_predicate_combines_the_three_parts() {
    let m = StatusMatchers {
        user_sparse: Matcher::Always,
        ignore: Matcher::DirPrefix(paths(&["build"])),
        tracked_or_added: Matcher::Exact(paths(&["build/gen.rs"])),
    };
    assert!(m.matches_final(&path("src/lib.rs")));
    assert!(!m.matches_final(&path("build/out.o")));
    assert!(m.matches_final(&path("build/gen.rs")));
}
