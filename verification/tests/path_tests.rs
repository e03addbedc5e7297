use cerf::path::{
    executable_candidates, expand_home, expand_home_with, first_file, normalize_path,
};
use cerf::redirect::resolve_redirects;
use cerf::ast::{Redirect, RedirectKind};

#[test]
fn normalize_resolves_dots() {
    assert_eq!(normalize_path("/a/b/../c/./d"), "/a/c/d");
    assert_eq!(normalize_path("a/./b//c/"), "a/b/c");
    assert_eq!(normalize_path("./a"), "a");
    assert_eq!(normalize_path(""), ".");
    assert_eq!(normalize_path("."), ".");
    assert_eq!(normalize_path("/"), "/");
    assert_eq!(normalize_path("//"), "/");
}

#[test]
fn normalize_keeps_leading_parents_and_stops_at_the_root() {
    assert_eq!(normalize_path("../a"), "../a");
    assert_eq!(normalize_path("../../a/.."), "../..");
    assert_eq!(normalize_path("a/../.."), "..");
    assert_eq!(normalize_path("/.."), "/");
    assert_eq!(normalize_path("/../a/../.."), "/");
    assert_eq!(normalize_path("a/.."), ".");
}

#[test]
fn normalize_agrees_with_the_standard_components() {
    for p in ["/usr//local/./bin/../lib", "x/y/../../z", "..", "a/b/c/../../..", "/a/./"] {
        let mut want = std::path::PathBuf::new();
        for c in std::path::Path::new(p).components() {
            match c {
                std::path::Component::CurDir => {}
                std::path::Component::ParentDir => match want.components().next_back() {
                    Some(std::path::Component::Normal(_)) => {
                        want.pop();
                    }
                    Some(std::path::Component::RootDir) => {}
                    _ => want.push(".."),
                },
                other => want.push(other),
            }
        }
        if want.as_os_str().is_empty() {
            want.push(".");
        }
        assert_eq!(normalize_path(p), want.to_string_lossy());
    }
}

#[test]
fn home_is_expanded_at_the_start_only() {
    assert_eq!(expand_home_with("~", Some("/home/al")), "/home/al");
    assert_eq!(expand_home_with("~/x/../y", Some("/home/al")), "/home/al/y");
    assert_eq!(expand_home_with("~\\x", Some("/home/al")), "/home/al/x");
    assert_eq!(expand_home_with("~/", Some("/home/al/")), "/home/al");
    assert_eq!(expand_home_with("a/~/b", Some("/home/al")), "a/~/b");
    assert_eq!(expand_home_with("~user/x", Some("/home/al")), "~user/x");
    assert_eq!(expand_home_with("~//etc", Some("/home/al")), "/etc");
}

#[test]
fn without_home_the_tilde_is_a_name() {
    assert_eq!(expand_home_with("~", None), "~");
    assert_eq!(expand_home_with("~/x", None), "~/x");
    assert_eq!(expand_home_with("/a/../b", None), "/b");
}

#[test]
fn expand_home_uses_the_home_of_the_user() {
    let home = dirs::home_dir().map(|h| h.to_string_lossy().into_owned());
    assert_eq!(expand_home("~/a/../b"), expand_home_with("~/a/../b", home.as_deref()));
    assert_eq!(expand_home("/x/./y"), "/x/y");
}

#[test]
fn candidates_follow_the_search_path() {
    assert_eq!(
        executable_candidates("ls", Some("/bin:/usr/bin/::rel"), None),
        vec!["/bin/ls", "/usr/bin/ls", "ls", "rel/ls"]
    );
    assert_eq!(executable_candidates("ls", Some(""), None), vec!["ls"]);
    assert!(executable_candidates("ls", None, None).is_empty());
    assert_eq!(executable_candidates("./a/../ls", Some("/bin"), None), vec!["ls"]);
    assert_eq!(executable_candidates("~/bin/x", Some("/bin"), Some("/h")), vec!["/h/bin/x"]);
}

#[test]
fn first_file_is_the_first_hit() {
    assert_eq!(first_file(&vec![false, true, true]), Some(1));
    assert_eq!(first_file(&vec![false, false]), None);
    assert_eq!(first_file(&vec![]), None);
}

fn redirect(kind: RedirectKind, file: &str) -> Redirect {
    Redirect { kind, file: file.to_string() }
}

#[test]
fn last_redirect_of_each_direction_wins() {
    let rs = vec![
        redirect(RedirectKind::StdoutOverwrite, "a"),
        redirect(RedirectKind::StdinFrom, "b"),
        redirect(RedirectKind::StdoutAppend, "c"),
        redirect(RedirectKind::StdinFrom, "d"),
    ];
    let (input, output) = resolve_redirects(&rs);
    assert_eq!(input, Some(&rs[3]));
    assert_eq!(output, Some(&rs[2]));
    let (input, output) = resolve_redirects(&rs[..1]);
    assert_eq!(input, None);
    assert_eq!(output, Some(&rs[0]));
    let (input, output) = resolve_redirects(&[]);
    assert_eq!(input, None);
    assert_eq!(output, None);
}
