//! The watcher of `.git/HEAD`.

use git_warp::watcher::{
    event_touches_head, parse_head, remaining_window, FileEvent, HeadError, HeadState,
    WatchAction, WatchEvent, WatchPhase, Watcher,
};

fn event(path: &str) -> FileEvent {
    FileEvent {
        paths: vec![path.to_string()],
    }
}

fn read(content: &str) -> WatchEvent {
    WatchEvent::HeadRead(Some(content.to_string()))
}

const SHA: &str = "a1b2c3d4e5f6a1b2c3d4e5f6a1b2c3d4e5f6a1b2";

#[test]
fn parse_branch_ref() {
    let state = parse_head("ref: refs/heads/main\n").unwrap();
    assert_eq!(state, HeadState::Branch("main".into()));
}

#[test]
fn parse_nested_branch() {
    let state = parse_head("ref: refs/heads/feature/auth/oauth2\n").unwrap();
    assert_eq!(state, HeadState::Branch("feature/auth/oauth2".into()));
}

#[test]
fn parse_detached_sha1() {
    let state = parse_head(&format!("{}\n", SHA)).unwrap();
    assert_eq!(state, HeadState::Detached(SHA.into()));
}

#[test]
fn parse_empty_head_fails() {
    assert!(parse_head("").is_err());
    assert_eq!(parse_head(" \n"), Err(HeadError::Empty));
}

#[test]
fn parse_garbage_fails() {
    assert!(parse_head("not a valid ref\n").is_err());
    assert_eq!(
        parse_head("not a valid ref\n"),
        Err(HeadError::Unrecognized("not a valid ref".into()))
    );
}

#[test]
fn parse_head_edges() {
    assert_eq!(
        parse_head("ref: refs/heads/\n"),
        Err(HeadError::EmptyRef("ref: refs/heads/".into()))
    );
    assert_eq!(
        parse_head("ref: refs/remotes/origin/main"),
        Ok(HeadState::Branch("refs/remotes/origin/main".into()))
    );
    assert_eq!(
        parse_head("ref: "),
        Err(HeadError::Unrecognized("ref:".into()))
    );
    // 40 or 64 digits are a commit, no other number is, and case does not matter.
    for n in [1, 39, 41, 63, 65, 128] {
        let digits = "a".repeat(n);
        assert_eq!(
            parse_head(&format!("{}\n", digits)),
            Err(HeadError::Unrecognized(digits))
        );
    }
    let long = "ABCDEF01".repeat(8);
    assert_eq!(parse_head(&long), Ok(HeadState::Detached(long.clone())));
    let bad = format!("{}g", SHA);
    assert!(parse_head(&bad).is_err());
    assert_eq!(
        parse_head("\u{2003}ref: refs/heads/a b \t"),
        Ok(HeadState::Branch("a b".into()))
    );
}

#[test]
fn watcher_and_proxy_agree() {
    for content in ["ref: refs/heads/main\n", " ref: refs/heads/a/b "] {
        let name = git_warp::branch::detect_branch(content);
        assert_eq!(parse_head(content), Ok(HeadState::Branch(name)));
    }
}

#[test]
fn display_branch_state() {
    let state = HeadState::Branch("develop".into());
    assert_eq!(state.display(), "branch:develop");
}

#[test]
fn display_detached_state() {
    let state = HeadState::Detached(SHA.into());
    assert_eq!(state.display(), "detached:a1b2c3d4");
    assert_eq!(HeadState::Detached("abc".into()).display(), "detached:abc");
}

#[test]
fn states_are_compared_by_kind_and_name() {
    let a = HeadState::Branch("main".into());
    assert!(a.same(&a.clone()));
    assert!(!a.same(&HeadState::Branch("main2".into())));
    assert!(!a.same(&HeadState::Detached("main".into())));
    assert_eq!(a.clone(), a);
}

#[test]
fn event_filter_matches_head() {
    assert!(event_touches_head(&event("/repo/.git/HEAD")));
}

#[test]
fn event_filter_matches_head_lock() {
    assert!(event_touches_head(&event("/repo/.git/HEAD.lock")));
}

#[test]
fn event_filter_ignores_index() {
    assert!(!event_touches_head(&event("/repo/.git/index")));
}

#[test]
fn event_filter_goes_by_the_file_name() {
    for path in [
        "/repo/.git/HEAD",
        "HEAD",
        "./HEAD",
        "/repo/.git/HEAD/",
        "/repo/.git/HEAD/.",
        "/repo//HEAD",
        "/HEAD/..",
        "/",
        "",
        ".",
        "..",
        "/repo/ORIG_HEAD",
        "/repo/HEAD.lock.x",
        "/HEAD/index",
        "/repo/.git/head",
    ] {
        let expected = std::path::Path::new(path)
            .file_name()
            .map(|n| n == "HEAD" || n == "HEAD.lock")
            .unwrap_or(false);
        assert_eq!(event_touches_head(&event(path)), expected, "{}", path);
    }
    assert!(!event_touches_head(&FileEvent { paths: vec![] }));
    assert!(event_touches_head(&FileEvent {
        paths: vec!["/repo/.git/index".into(), "/repo/.git/HEAD".into()],
    }));
}

#[test]
fn window_closes_after_fifty_milliseconds() {
    assert_eq!(remaining_window(0), Some(50_000_000));
    assert_eq!(remaining_window(49_999_999), Some(1));
    assert_eq!(remaining_window(50_000_000), None);
    assert_eq!(remaining_window(u64::MAX), None);
}

#[test]
fn burst_is_read_once() {
    let mut w = Watcher::new("ref: refs/heads/main\n").unwrap();
    for _ in 0..4 {
        assert!(matches!(w.step(WatchEvent::Touched), WatchAction::AwaitMore));
    }
    assert!(matches!(w.step(WatchEvent::WindowClosed), WatchAction::ReadHead));
    match w.step(read("ref: refs/heads/feature\n")) {
        WatchAction::Report { from, to } => {
            assert_eq!(from, HeadState::Branch("main".into()));
            assert_eq!(to, HeadState::Branch("feature".into()));
        }
        other => panic!("{:?}", other),
    }
    assert_eq!(w.current, HeadState::Branch("feature".into()));
    assert_eq!(w.phase, WatchPhase::Idle);
}

#[test]
fn same_state_is_not_reported() {
    let mut w = Watcher::new("ref: refs/heads/main\n").unwrap();
    w.step(WatchEvent::Touched);
    w.step(WatchEvent::WindowClosed);
    assert!(matches!(
        w.step(read(" ref: refs/heads/main ")),
        WatchAction::Unchanged
    ));
    assert_eq!(w.current, HeadState::Branch("main".into()));
}

#[test]
fn bad_head_is_survived() {
    let mut w = Watcher::new("ref: refs/heads/main\n").unwrap();
    let cases = [
        (WatchEvent::HeadRead(None), None),
        (read(""), Some(HeadError::Empty)),
        (
            read("ref: refs/heads/\n"),
            Some(HeadError::EmptyRef("ref: refs/heads/".into())),
        ),
        (read("garbage"), Some(HeadError::Unrecognized("garbage".into()))),
    ];
    for (bad, reason) in cases {
        w.step(WatchEvent::Touched);
        w.step(WatchEvent::WindowClosed);
        match w.step(bad) {
            WatchAction::BadHead(why) => assert_eq!(why, reason),
            other => panic!("unexpected action: {:?}", other),
        }
        assert_eq!(w.current, HeadState::Branch("main".into()));
        assert_eq!(w.phase, WatchPhase::Idle);
    }
    w.step(WatchEvent::Touched);
    w.step(WatchEvent::WindowClosed);
    assert!(matches!(w.step(read(SHA)), WatchAction::Report { .. }));
}

#[test]
fn changes_form_a_chain() {
    let mut w = Watcher::new("ref: refs/heads/a").unwrap();
    let mut last = HeadState::Branch("a".into());
    for name in ["b", "b", "c", "a", "a"] {
        w.step(WatchEvent::Touched);
        w.step(WatchEvent::WindowClosed);
        if let WatchAction::Report { from, to } = w.step(read(&format!("ref: refs/heads/{}", name)))
        {
            assert_eq!(from, last);
            assert_ne!(from, to);
            last = to;
        }
    }
    assert_eq!(w.current, last);
    assert_eq!(last, HeadState::Branch("a".into()));
}

#[test]
fn closed_source_stops_the_watcher() {
    let mut w = Watcher::new("ref: refs/heads/a").unwrap();
    assert!(matches!(w.step(WatchEvent::SourceClosed), WatchAction::Stop));
    assert!(matches!(w.step(WatchEvent::Touched), WatchAction::Stop));

    let mut w = Watcher::new("ref: refs/heads/a").unwrap();
    w.step(WatchEvent::Touched);
    assert!(matches!(w.step(WatchEvent::SourceClosed), WatchAction::Stop));
    assert_eq!(w.phase, WatchPhase::Stopped);
}

#[test]
fn events_out_of_turn_change_nothing() {
    let mut w = Watcher::new("ref: refs/heads/a").unwrap();
    assert!(matches!(w.step(WatchEvent::WindowClosed), WatchAction::AwaitEvent));
    assert!(matches!(w.step(read("ref: refs/heads/b")), WatchAction::AwaitEvent));
    w.step(WatchEvent::Touched);
    assert!(matches!(w.step(read("ref: refs/heads/b")), WatchAction::AwaitMore));
    w.step(WatchEvent::WindowClosed);
    assert!(matches!(w.step(WatchEvent::Touched), WatchAction::ReadHead));
    assert_eq!(w.current, HeadState::Branch("a".into()));
    assert!(Watcher::new("").is_err());
}
