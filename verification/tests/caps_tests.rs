use rcan_testing::capset::duration_text_within_limit;
use rcan_testing::caps::Cap;
use rcan_testing::text::Order;
use rcan_testing::capset::{issue_caps, issue_duration, issue_plan, plan_with_duration, CapSet, Caps, IssueError};

fn path(p: &str) -> Cap {
    Cap::PathTest { path: p.to_string() }
}

fn is_path(c: &Cap, p: &str) -> bool {
    matches!(c, Cap::PathTest { path } if path == p)
}

#[test]
fn all_permits_every_cap() {
    for other in [Cap::All, Cap::Info, Cap::Issue, Cap::Revoke, Cap::Status, path("/x"), path("nope")] {
        assert!(Cap::All.permits(&other));
    }
}

#[test]
fn simple_caps_permit_only_themselves() {
    assert!(Cap::Info.permits(&Cap::Info));
    assert!(Cap::Issue.permits(&Cap::Issue));
    assert!(Cap::Revoke.permits(&Cap::Revoke));
    assert!(Cap::Status.permits(&Cap::Status));
    assert!(!Cap::Info.permits(&Cap::Issue));
    assert!(!Cap::Status.permits(&Cap::All));
    assert!(!Cap::Revoke.permits(&path("/a")));
    assert!(!path("/").permits(&Cap::Info));
}

#[test]
fn path_check_needs_absolute_prefix() {
    let c = Cap::All;
    assert!(c.path_check(&"/hello".to_string(), &"/hello/world".to_string()));
    assert!(c.path_check(&"/hello".to_string(), &"/hello".to_string()));
    assert!(c.path_check(&"/".to_string(), &"/anything".to_string()));
    assert!(!c.path_check(&"/hello/world".to_string(), &"/hello".to_string()));
    assert!(!c.path_check(&"hello".to_string(), &"hello/world".to_string()));
    assert!(!c.path_check(&"/hello".to_string(), &"hello".to_string()));
    assert!(!c.path_check(&"/a".to_string(), &"/b".to_string()));
    // a plain string prefix, not a path component
    assert!(c.path_check(&"/hell".to_string(), &"/hello".to_string()));
    assert!(path("/hello").permits(&path("/hello/x")));
    assert!(!path("/hello").permits(&path("/other")));
}

#[test]
fn cap_set_is_sorted_without_repeats() {
    let set = CapSet::new(vec![Cap::Status, path("/b"), Cap::Info, path("/a"), Cap::Info, Cap::All, path("/b")]);
    let members = set.iter();
    assert_eq!(members.len(), 5);
    assert!(matches!(members[0], Cap::All));
    assert!(matches!(members[1], Cap::Info));
    assert!(matches!(members[2], Cap::Status));
    assert!(is_path(&members[3], "/a"));
    assert!(is_path(&members[4], "/b"));
}

#[test]
fn default_cap_set_is_empty() {
    let set = CapSet::default();
    assert_eq!(set.iter().len(), 0);
    assert!(Caps::new(vec![]).permits(&Caps::new(vec![])));
    assert!(!Caps::new(vec![]).permits(&Caps::info()));
}

#[test]
fn fixed_cap_sets() {
    assert!(matches!(Caps::all().cap_set().iter(), [Cap::All]));
    assert!(matches!(Caps::info().cap_set().iter(), [Cap::Info]));
    assert!(matches!(Caps::status().cap_set().iter(), [Cap::Status]));
    assert!(matches!(Caps::sign().cap_set().iter(), [Cap::Issue]));
    let issue = Caps::issue();
    let m = issue.cap_set().iter();
    assert_eq!(m.len(), 3);
    assert!(matches!(m[0], Cap::Info));
    assert!(matches!(m[1], Cap::Issue));
    assert!(is_path(&m[2], "/hello"));
}

#[test]
fn caps_permissions() {
    assert!(Caps::all().permits(&Caps::issue()));
    assert!(Caps::all().permits(&Caps::status()));
    assert!(Caps::issue().permits(&Caps::info()));
    assert!(Caps::issue().permits(&Caps::new(vec![Cap::Info, path("/hello/sub")])));
    assert!(!Caps::issue().permits(&Caps::new(vec![Cap::Info, path("/other")])));
    assert!(!Caps::info().permits(&Caps::issue()));
    assert!(!Caps::status().permits(&Caps::info()));
    assert!(!Caps::info().permits(&Caps::all()));
}

#[test]
fn permission_is_transitive_on_examples() {
    let a = Caps::new(vec![path("/")]);
    let b = Caps::new(vec![path("/srv")]);
    let c = Caps::new(vec![path("/srv/data")]);
    assert!(a.permits(&b));
    assert!(b.permits(&c));
    assert!(a.permits(&c));
}

#[test]
fn duplicate_keeps_members() {
    let c = Caps::issue().duplicate();
    assert!(c.permits(&Caps::issue()));
    assert!(Caps::issue().permits(&c));
}

#[test]
fn issue_caps_by_flags() {
    assert!(matches!(issue_caps(true, true).cap_set().iter(), [Cap::Status]));
    assert!(matches!(issue_caps(true, false).cap_set().iter(), [Cap::Status]));
    assert!(matches!(issue_caps(false, true).cap_set().iter(), [Cap::Info]));
    assert_eq!(issue_caps(false, false).cap_set().iter().len(), 3);
}

#[test]
fn issue_duration_defaults_to_an_hour() {
    assert_eq!(issue_duration(None), Ok((3600, 0)));
    assert_eq!(issue_duration(Some("2d".to_string())), Ok((172800, 0)));
    assert_eq!(issue_duration(Some("2h 37min".to_string())), Ok((9420, 0)));
    assert_eq!(issue_duration(Some("32ms".to_string())), Ok((0, 32_000_000)));
    assert_eq!(issue_duration(Some("0".to_string())), Ok((0, 0)));
    assert_eq!(issue_duration(Some("soon".to_string())), Err(IssueError::BadDuration));
    assert_eq!(issue_duration(Some("".to_string())), Err(IssueError::BadDuration));
}

#[test]
fn issue_plan_combines_caps_and_duration() {
    let p = issue_plan(false, false, Some("1h".to_string())).unwrap();
    assert_eq!((p.secs, p.nanos), (3600, 0));
    assert_eq!(p.caps.cap_set().iter().len(), 3);
    let p = issue_plan(true, false, None).unwrap();
    assert_eq!((p.secs, p.nanos), (3600, 0));
    assert!(matches!(p.caps.cap_set().iter(), [Cap::Status]));
    assert!(matches!(issue_plan(false, true, Some("later".to_string())), Err(IssueError::BadDuration)));
    assert!(matches!(plan_with_duration(false, false, Err(IssueError::BadDuration)), Err(IssueError::BadDuration)));
    let p = plan_with_duration(false, true, Ok((5, 7))).unwrap();
    assert_eq!((p.secs, p.nanos), (5, 7));
    assert!(matches!(p.caps.cap_set().iter(), [Cap::Info]));
}

#[test]
fn cap_set_depends_only_on_members() {
    let a = CapSet::new(vec![Cap::Issue, path("/p"), Cap::Info]);
    let b = CapSet::new(vec![Cap::Info, Cap::Info, path("/p"), Cap::Issue, path("/p")]);
    assert_eq!(a, b);
    assert_eq!(a.clone(), b);
    assert_ne!(a, CapSet::new(vec![Cap::Info]));
    assert_eq!(Caps::new(vec![Cap::Info, Cap::Issue, path("/hello")]), Caps::issue());
}

#[test]
fn cap_order_matches_declaration_then_path() {
    assert_eq!(Cap::All.order(&Cap::Info), Order::Less);
    assert_eq!(Cap::Status.order(&path("/")), Order::Less);
    assert_eq!(path("/b").order(&path("/a")), Order::Greater);
    assert_eq!(path("/a").order(&path("/a")), Order::Equal);
    assert!(Cap::All < Cap::Info && Cap::Status < path("/") && path("/a") < path("/b"));
}

#[test]
fn self_permission_needs_absolute_paths() {
    assert!(Caps::issue().permits(&Caps::issue()));
    assert!(!Caps::new(vec![path("relative")]).permits(&Caps::new(vec![path("relative")])));
    assert!(!path("relative").permits(&path("relative")));
}

#[test]
fn more_caps_never_permit_less() {
    let small = Caps::new(vec![Cap::Info]);
    let bigger = Caps::new(vec![Cap::Info, Cap::Status, path("/x")]);
    let wanted = Caps::info();
    assert!(small.permits(&wanted));
    assert!(bigger.permits(&wanted));
    assert!(bigger.permits(&small));
}

#[test]
fn duration_limit() {
    assert!(duration_text_within_limit("2d"));
    assert!(duration_text_within_limit("2h 37min"));
    assert!(duration_text_within_limit("soon"));
    assert!(duration_text_within_limit(""));
    assert!(duration_text_within_limit("584542046089y"));
    assert!(!duration_text_within_limit("584542046090y"));
    assert!(!duration_text_within_limit("18446744073709551615s 1000000000ns"));
    // digits joined across whitespace count as one number, as the parser reads them
    assert!(!duration_text_within_limit("1844674407370955161 5s"));
    assert!(duration_text_within_limit("1h 1m 1s"));
    // each span is weighed in its own unit
    assert!(duration_text_within_limit("1000000000000ns"));
    assert!(duration_text_within_limit("600000000000ms"));
    assert!(duration_text_within_limit("584542046091s"));
    assert!(duration_text_within_limit("18446744073709551614s"));
    assert!(!duration_text_within_limit("18446744073709551615s"));
    assert!(duration_text_within_limit("18446744073709551614000000000ns"));
    assert!(!duration_text_within_limit("18446744073709551614s 1000000000ns"));
    // a number that does not fit stops the parse with an error, not a panic
    assert!(duration_text_within_limit("18446744073709551616s"));
    // names that are no unit add nothing
    assert!(duration_text_within_limit("18446744073709551615parsecs"));
    assert!(duration_text_within_limit("3\u{b5}s 2.5h"));
}

#[test]
fn issue_duration_in_small_units() {
    assert_eq!(issue_duration(Some("1000000000000ns".to_string())), Ok((1000, 0)));
    assert_eq!(issue_duration(Some("600000000000ms".to_string())), Ok((600000000, 0)));
    assert_eq!(issue_duration(Some("584542046091s".to_string())), Ok((584542046091, 0)));
    assert_eq!(issue_duration(Some("1.5h".to_string())), Ok((5400, 0)));
    assert_eq!(issue_duration(Some("3\u{b5}s".to_string())), Ok((0, 3000)));
    assert_eq!(issue_duration(Some("18446744073709551616s".to_string())), Err(IssueError::BadDuration));
}
