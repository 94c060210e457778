use genuine::router::{decide, first_match, normalize, Admission, MAX_BODY_SIZE};
use genuine::{Match, Middleware, Param, Path, RouterError};

fn compile(pattern: &str) -> Path {
    Path::new(pattern.to_string()).unwrap()
}

#[test]
fn normalize_takes_one_trailing_slash() {
    assert_eq!(normalize("/a/"), "/a");
    assert_eq!(normalize("/a/b/"), "/a/b");
    assert_eq!(normalize("/a//"), "/a/");
    assert_eq!(normalize("//"), "/");
}

#[test]
fn normalize_keeps_the_rest() {
    assert_eq!(normalize("/"), "/");
    assert_eq!(normalize(""), "");
    assert_eq!(normalize("/a"), "/a");
    assert_eq!(normalize("/caf\u{e9}"), "/caf\u{e9}");
    assert_eq!(normalize("/caf\u{e9}/"), "/caf\u{e9}");
}

#[test]
fn first_match_takes_the_first() {
    let patterns = vec![compile("/a/{x}"), compile("/a/b"), compile("/{y}/b")];
    assert_eq!(
        first_match(&patterns, "/a/b"),
        Some((0, vec![Match { name: "x".to_string(), value: "b".to_string() }]))
    );
    assert_eq!(
        first_match(&patterns, "/c/b"),
        Some((2, vec![Match { name: "y".to_string(), value: "c".to_string() }]))
    );
    assert_eq!(first_match(&patterns[1..], "/a/b"), Some((0, vec![])));
}

#[test]
fn first_match_may_find_none() {
    let patterns = vec![compile("/a/{x}"), compile("/")];
    assert_eq!(first_match(&patterns, "/zzz/q"), None);
    assert_eq!(first_match(&patterns, "/a/b/"), None);
    assert_eq!(first_match(&patterns, normalize("/a/b/")).map(|found| found.0), Some(0));
    assert_eq!(first_match(&patterns, "/"), Some((1, vec![])));
    assert_eq!(first_match(&[], "/"), None);
}

#[test]
fn param_wraps_a_value() {
    let param = Param::new(7u32);
    assert_eq!(*param, 7);
    assert_eq!(param.into_inner(), 7);
    let mut text = Param::new(String::from("a"));
    text.push('b');
    assert_eq!(text.len(), 2);
    assert_eq!(text.into_inner(), "ab");
}

struct Quiet;

impl Middleware for Quiet {}

#[test]
fn middleware_is_a_marker() {
    let hooks: Vec<Box<dyn Middleware>> = vec![Box::new(Quiet)];
    assert_eq!(hooks.len(), 1);
}

#[test]
fn router_error_names_itself() {
    assert_eq!(format!("{:?}", RouterError::InvalidBody), "InvalidBody");
}

#[test]
fn unrouted_requests_are_not_found() {
    assert_eq!(decide(false, Some(0)), Admission::NotFound);
    assert_eq!(decide(false, None), Admission::NotFound);
    assert_eq!(decide(false, Some(u64::MAX)), Admission::NotFound);
}

#[test]
fn bodies_up_to_the_limit_are_handled() {
    assert_eq!(MAX_BODY_SIZE, 64 * 1024);
    assert_eq!(decide(true, Some(0)), Admission::Handle);
    assert_eq!(decide(true, Some(65536)), Admission::Handle);
    assert_eq!(decide(true, Some(65537)), Admission::TooLarge);
    assert_eq!(decide(true, None), Admission::TooLarge);
}
