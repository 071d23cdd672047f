//! What the view commands decide and say.
use ix::commands::anchor::{
    anchor_refs, status_lines, Action, AnchorEndpointKind, AnchorRun, Event,
};
use ix::commands::config::{AnchorIds, ViewConfig};
use ix::commands::github::{github_repo, pull_request_url};
use ix::commands::push::{Found, Line, ViewsPushArgs};
use ix::commands::pushing::{chosen_branch, PushAction, PushEvent, PushFlow};
use ix::commands::status::{
    detail, headline, report_lines, Freshness, Position, Survey, ViewStatus, ViewsStatusArgs,
};

#[test]
fn recognizes_the_three_github_remote_spellings() {
    assert_eq!(
        github_repo("git@github.com:owner/repo.git"),
        Some("owner/repo".to_owned())
    );
    assert_eq!(
        github_repo("ssh://git@github.com/owner/repo"),
        Some("owner/repo".to_owned())
    );
    assert_eq!(
        github_repo("https://github.com/owner/repo.git"),
        Some("owner/repo".to_owned())
    );
}

#[test]
fn declines_to_guess_at_anything_else() {
    assert_eq!(github_repo("git@gitlab.com:owner/repo.git"), None);
    assert_eq!(github_repo("https://github.com/owner"), None);
    assert_eq!(github_repo("https://github.com/owner/repo/tree/main"), None);
    assert_eq!(github_repo("/srv/git/repo.git"), None);
}

#[test]
fn offers_no_pull_request_from_the_base_to_itself() {
    assert_eq!(
        pull_request_url("git@github.com:indexable-inc/ix.git", "main", "main"),
        None
    );
}

#[test]
fn builds_a_compare_url_against_the_views_own_default_branch() {
    assert_eq!(
        pull_request_url(
            "git@github.com:indexable-inc/ix.git",
            "main",
            "push-qpvuntsm"
        ),
        Some(
            "https://github.com/indexable-inc/ix/compare/main...push-qpvuntsm?expand=1"
                .to_owned()
        )
    );
}

fn view(name: &str) -> ViewConfig {
    ViewConfig {
        name: name.to_owned(),
        path: format!("vendor/{name}"),
        remote: format!("git@github.com:owner/{name}.git"),
        branch: "main".to_owned(),
        upstream: None,
        anchor: None,
        root_anchor: false,
    }
}

fn push_args() -> ViewsPushArgs {
    ViewsPushArgs {
        views: vec![],
        revision: "@".to_owned(),
        branch: None,
        allow_default_branch: false,
        allow_empty_description: false,
        dry_run: false,
    }
}

fn texts(lines: Vec<Line>) -> Vec<String> {
    lines
        .into_iter()
        .map(|l| match l {
            Line::Status(s) => s,
            Line::Warning(s) => format!("warning: {s}"),
            Line::PullRequest { name, url } => format!("{name} -> {url:?}"),
        })
        .collect()
}

/// A commit object with this message.
fn raw(message: &str) -> Vec<u8> {
    let who = "A U Thor <author@example.com> 1112912173 -0700";
    format!(
        "tree 4b825dc642cb6eb9a060e54bf8d69288fbee4904\nauthor {who}\ncommitter {who}\n\n{message}\n"
    )
    .into_bytes()
}

/// Plans every view with a tip of its own.
fn planned(args: ViewsPushArgs, names: &[&str]) -> (PushFlow, PushAction) {
    let views = names.iter().map(|n| view(n)).collect();
    let (mut flow, first) = PushFlow::start(args, "topic".to_owned(), views);
    assert!(matches!(first, PushAction::CheckBranch));
    assert!(matches!(flow.step(PushEvent::Done), PushAction::ValidateViews));
    let mut action = flow.step(PushEvent::Done);
    for name in names {
        assert!(matches!(action, PushAction::LookUp));
        assert!(matches!(flow.step(PushEvent::Published(false)), PushAction::Derive));
        let found = Found::Derived { tip: Some(format!("tip-{name}")) };
        assert!(matches!(flow.step(PushEvent::Found(found)), PushAction::ReadTip(_)));
        let tip = PushEvent::Tip(raw("says something"), false);
        assert!(matches!(flow.step(tip), PushAction::Record(_)));
        action = flow.step(PushEvent::Done);
    }
    (flow, action)
}

#[test]
fn what_landed_is_a_prefix() {
    let (mut flow, action) = planned(push_args(), &["a", "b", "c", "d"]);
    assert!(matches!(action, PushAction::Observe(0)));
    let current = PushEvent::Observed(Ok(Some("tip-a".to_owned())));
    assert!(matches!(flow.step(current), PushAction::Observe(1)));
    assert!(matches!(flow.step(PushEvent::Observed(Ok(None))), PushAction::Send(1)));
    assert!(matches!(flow.step(PushEvent::Sent(Ok(()))), PushAction::Observe(2)));
    let elsewhere = PushEvent::Observed(Ok(Some("old".to_owned())));
    assert!(matches!(flow.step(elsewhere), PushAction::Send(2)));
    let failed = PushEvent::Sent(Err("! [rejected]\r\nfetch first\n".to_owned()));
    let PushAction::Finish { lines, verdict } = flow.step(failed) else {
        panic!("expected the report");
    };
    let url = |n: &str| {
        format!("Some(\"https://github.com/owner/{n}/compare/main...topic?expand=1\")")
    };
    assert_eq!(
        texts(lines),
        vec![
            "a: git@github.com:owner/a.git already has topic at tip-a".to_owned(),
            format!("a -> {}", url("a")),
            "b: pushed tip-b to git@github.com:owner/b.git as topic".to_owned(),
            format!("b -> {}", url("b")),
            "warning: c: could not push to git@github.com:owner/c.git".to_owned(),
            "  ! [rejected]".to_owned(),
            "  fetch first".to_owned(),
            "d: not attempted.".to_owned(),
        ]
    );
    let verdict = verdict.unwrap();
    assert_eq!(verdict.message, "Not every view was pushed");
}

#[test]
fn an_unreadable_remote_fails_its_view() {
    let (mut flow, _) = planned(push_args(), &["a", "b"]);
    let PushAction::Finish { lines, verdict } =
        flow.step(PushEvent::Observed(Err("offline".to_owned())))
    else {
        panic!("expected the report");
    };
    assert_eq!(
        texts(lines),
        vec![
            "warning: a: could not push to git@github.com:owner/a.git",
            "  offline",
            "b: not attempted."
        ]
    );
    assert!(verdict.is_some());
}

#[test]
fn a_dry_run_sends_nothing() {
    let mut args = push_args();
    args.dry_run = true;
    let (_, action) = planned(args, &["a"]);
    let PushAction::Finish { lines, verdict } = action else {
        panic!("expected the plan");
    };
    assert_eq!(
        texts(lines),
        vec![
            "a: would push tip-a to git@github.com:owner/a.git as topic",
            "Dry-run requested, not pushing."
        ]
    );
    assert!(verdict.is_none());
}

#[test]
fn a_view_that_adds_nothing_is_not_sent() {
    let (mut flow, _) = PushFlow::start(push_args(), "topic".to_owned(), vec![view("a")]);
    flow.step(PushEvent::Done);
    flow.step(PushEvent::Done);
    assert!(matches!(flow.step(PushEvent::Published(true)), PushAction::Survey));
    let found = Found::Surveyed {
        derived: Some("tip".to_owned()),
        position: Position::Current,
        upstream: "pub".to_owned(),
    };
    flow.step(PushEvent::Found(found));
    flow.step(PushEvent::Tip(raw("m"), false));
    let PushAction::Finish { lines, verdict } = flow.step(PushEvent::Done) else {
        panic!("expected the report");
    };
    assert_eq!(texts(lines), vec!["a: no content beyond main at pub; nothing pushed."]);
    assert!(verdict.is_none());
}

fn refusal(action: PushAction) -> (String, Option<String>) {
    match action {
        PushAction::Refuse { message, hint } => (message, hint),
        _ => panic!("expected a refusal"),
    }
}

#[test]
fn a_push_is_refused_before_anything_is_sent() {
    let (mut flow, _) = PushFlow::start(push_args(), "main".to_owned(), vec![view("a")]);
    let (message, hint) = refusal(flow.step(PushEvent::Done));
    assert_eq!(
        message,
        "Refusing to push to main, the default branch of the a view at git@github.com:owner/a.git"
    );
    assert!(hint.unwrap().starts_with("Pass --allow-default-branch"));
    let mut args = push_args();
    args.allow_default_branch = true;
    let (mut flow, _) = PushFlow::start(args, "main".to_owned(), vec![view("a")]);
    assert!(matches!(flow.step(PushEvent::Done), PushAction::ValidateViews));
    flow.step(PushEvent::Done);
    flow.step(PushEvent::Published(false));
    let (message, hint) = refusal(flow.step(PushEvent::Found(Found::Derived { tip: None })));
    assert_eq!(
        message,
        "Nothing under vendor/a anywhere in the ancestry of @, so the a view has no history to push"
    );
    assert_eq!(hint, None);
    let (mut flow, _) = PushFlow::start(push_args(), "topic".to_owned(), vec![view("a")]);
    flow.step(PushEvent::Done);
    flow.step(PushEvent::Done);
    flow.step(PushEvent::Published(false));
    flow.step(PushEvent::Found(Found::Derived { tip: Some("0123456789abcdef".to_owned()) }));
    let (message, _) = refusal(flow.step(PushEvent::Tip(raw(" \t\n"), false)));
    assert_eq!(message, "Won't push the a view: its tip 0123456789ab has no description");
    let (mut flow, _) = PushFlow::start(push_args(), "topic".to_owned(), vec![view("a")]);
    flow.step(PushEvent::Done);
    flow.step(PushEvent::Done);
    flow.step(PushEvent::Published(false));
    flow.step(PushEvent::Found(Found::Derived { tip: Some("abc".to_owned()) }));
    let (message, _) = refusal(flow.step(PushEvent::Tip(b"no commit".to_vec(), false)));
    assert_eq!(message, "Could not read the commit abc");
    // Where descriptions do not matter the tip is not read.
    let mut args = push_args();
    args.allow_empty_description = true;
    let (mut flow, _) = PushFlow::start(args, "topic".to_owned(), vec![view("a")]);
    flow.step(PushEvent::Done);
    flow.step(PushEvent::Done);
    flow.step(PushEvent::Published(false));
    let found = Found::Derived { tip: Some("abc".to_owned()) };
    assert!(matches!(flow.step(PushEvent::Found(found)), PushAction::Record(_)));
}

#[test]
fn branches_are_chosen_or_generated() {
    let mut args = push_args();
    assert_eq!(chosen_branch(&args, "push-x"), Ok("push-x".to_owned()));
    assert_eq!(chosen_branch(&args, ""), Err("Empty branch name generated".to_owned()));
    args.branch = Some("mine".to_owned());
    assert_eq!(chosen_branch(&args, ""), Ok("mine".to_owned()));
}

// -- anchors -----------------------------------------------------------------

fn anchored(name: &str, upstream: bool, root: bool) -> ViewConfig {
    ViewConfig {
        upstream: if upstream { Some("up.git".to_owned()) } else { None },
        anchor: Some(AnchorIds { source: "src".to_owned(), view: "pub".to_owned() }),
        root_anchor: root,
        ..view(name)
    }
}

fn start(views: Vec<ViewConfig>) -> (AnchorRun, Action) {
    AnchorRun::start(views, "rev".to_owned(), vec!["rev".to_owned(), "src".to_owned()])
}

#[test]
fn an_anchor_is_fetched_from_the_endpoint_that_has_it() {
    let (mut run, first) = start(vec![anchored("a", true, false)]);
    assert!(matches!(first, Action::FindAnchor));
    assert!(matches!(run.step(Event::Present(false)), Action::CountHosts));
    let Action::Fetch(e) = run.step(Event::Count(4)) else {
        panic!("expected a fetch");
    };
    assert_eq!((e.kind, e.depth), (AnchorEndpointKind::Published, 5));
    assert_eq!(e.selector, "refs/heads/main");
    let Action::Fetch(e) = run.step(Event::Fetched(Err("gone".to_owned()))) else {
        panic!("expected another fetch");
    };
    assert_eq!((e.kind, e.depth), (AnchorEndpointKind::Upstream, 1));
    assert_eq!((e.remote.as_str(), e.selector.as_str()), ("up.git", "pub"));
    let fetched = Event::Fetched(Ok("pub".to_owned()));
    assert!(matches!(run.step(fetched), Action::ValidateFetched));
    assert!(matches!(run.step(Event::Done), Action::Install));
    assert!(matches!(run.step(Event::Done), Action::Record));
    assert!(matches!(run.step(Event::Done), Action::Finish));
    assert_eq!(
        status_lines(&run.statuses[0]),
        vec![
            "a: published branch refs/heads/main at git@github.com:owner/a.git failed: gone",
            "a: anchor src -> pub is valid from read-only upstream; fetched 1 commit and its tree matches."
        ]
    );
    assert_eq!(run.statuses[0].endpoint.name(), "upstream");
}

#[test]
fn local_and_root_anchors_are_not_fetched() {
    let (mut run, first) = start(vec![anchored("a", false, true), anchored("b", false, false)]);
    assert!(matches!(first, Action::CreateRoot));
    assert!(matches!(run.step(Event::Done), Action::Record));
    assert!(matches!(run.step(Event::Done), Action::FindAnchor));
    assert!(matches!(run.step(Event::Present(true)), Action::Seed));
    assert!(matches!(run.step(Event::Done), Action::Record));
    assert!(matches!(run.step(Event::Done), Action::Finish));
    assert_eq!(run.statuses.len(), 2);
    assert_eq!(
        status_lines(&run.statuses[1]),
        vec!["b: anchor src -> pub is valid from local object store; fetched 0 commits and its tree matches."]
    );
}

fn refused(action: Action) -> (String, Option<String>) {
    match action {
        Action::Refuse { message, cause } => (message, cause),
        _ => panic!("expected a refusal"),
    }
}

#[test]
fn anchors_that_do_not_hold_are_refused() {
    let (_, first) = start(vec![view("a")]);
    assert_eq!(refused(first).0, "The a view has no anchor in .jj-views.toml");
    let (_, first) = AnchorRun::start(vec![anchored("a", false, false)], "rev".to_owned(), vec![]);
    assert_eq!(refused(first).0, "The a view anchor source src is not an ancestor of rev");
    let (mut run, _) = start(vec![anchored("a", false, false)]);
    run.step(Event::Present(false));
    let (message, cause) = refused(run.step(Event::Count(usize::MAX)));
    assert_eq!((message.as_str(), cause), ("The a view's fetch depth overflowed", None));
    let (mut run, _) = start(vec![anchored("a", false, false)]);
    run.step(Event::Present(false));
    run.step(Event::Count(0));
    let (message, cause) = refused(run.step(Event::Fetched(Err("no".to_owned()))));
    assert_eq!(message, "Could not fetch the a view anchor pub");
    assert_eq!(
        cause.unwrap(),
        "anchor pub was not available; published branch refs/heads/main at git@github.com:owner/a.git failed: no"
    );
    for (tip, why) in [
        (None, "host commit rev produced no published view commit"),
        (Some("other".to_owned()), "published tip is tip; derived host tip is other"),
    ] {
        let (mut run, _) = start(vec![anchored("a", false, false)]);
        run.step(Event::Present(false));
        run.step(Event::Count(0));
        run.step(Event::Fetched(Ok("tip".to_owned())));
        assert!(matches!(run.step(Event::Done), Action::DeriveTip));
        let (message, cause) = refused(run.step(Event::Tip(tip)));
        assert_eq!(message, "Could not verify the a published anchor history");
        assert_eq!(cause.unwrap(), why);
    }
}

#[test]
fn anchor_references_are_written_in_order() {
    let ids = AnchorIds { source: "s".to_owned(), view: "v".to_owned() };
    let refs = anchor_refs(("refs/a/", "refs/b/", "refs/c/"), "x", &ids, "r");
    let pair = |a: &str, b: &str| (a.to_owned(), b.to_owned());
    assert_eq!(
        refs,
        vec![pair("refs/a/x", "v"), pair("refs/b/x", "s"), pair("refs/c/x", "r")]
    );
}

// -- status ------------------------------------------------------------------

fn survey(position: Position) -> Survey {
    Survey {
        view: anchored("a", false, false),
        remote: "origin".to_owned(),
        branch: "main".to_owned(),
        derived: Some("d00d".to_owned()),
        upstream: "beef".to_owned(),
        ahead: 1,
        incoming: 3,
        elided: 0,
        position,
    }
}

#[test]
fn a_report_says_where_a_view_is() {
    assert_eq!(headline(&survey(Position::Current)), "up to date.");
    assert_eq!(
        headline(&survey(Position::LocalAhead)),
        "1 commit ahead of origin; run `jj views push`."
    );
    assert_eq!(
        headline(&survey(Position::FastForward)),
        "3 commits behind origin; run `jj views fetch`."
    );
    assert!(headline(&survey(Position::Diverged)).starts_with("diverged from origin; run"));
    assert_eq!(
        report_lines(&survey(Position::LocalAhead), "unused"),
        vec![
            "a: 1 commit ahead of origin; run `jj views push`.",
            "  here: d00d (from vendor/a)",
            "  origin: beef (main)"
        ]
    );
    let mut s = survey(Position::Diverged);
    s.derived = None;
    s.elided = 2;
    assert_eq!(
        detail(&s, "note"),
        vec![
            "here: nothing under vendor/a yet, so a fetch would import the whole history.",
            "origin: beef (main)",
            "1 commit here not published yet.",
            "note"
        ]
    );
}

#[test]
fn a_report_entry_carries_the_survey() {
    let entry = ViewStatus::from_survey(&survey(Position::FastForward));
    assert_eq!(entry.state.as_str(), "fast_forward");
    assert_eq!((entry.ahead, entry.behind, entry.elided), (1, 3, 0));
    assert_eq!(entry.anchor_source.as_deref(), Some("src"));
    assert_eq!(entry.anchor_tree_matches, Some(true));
    assert_eq!(entry.local_commit.as_deref(), Some("d00d"));
    let mut s = survey(Position::Current);
    s.view.anchor = None;
    let entry = ViewStatus::from_survey(&s);
    assert_eq!(entry.anchor_tree_matches, None);
    assert_eq!(entry.state.as_str(), "up_to_date");
}

#[test]
fn one_view_is_compared_with_its_upstream() {
    let mut args = ViewsStatusArgs {
        views: vec!["a".to_owned(), "b".to_owned()],
        upstream: None,
        bookmark: "main".to_owned(),
        no_fetch: false,
        json: false,
    };
    assert_eq!(args.selected_names(), vec!["a", "b"]);
    assert_eq!(args.freshness(), Freshness::Fetch);
    args.upstream = Some("c".to_owned());
    args.no_fetch = true;
    assert_eq!(args.selected_names(), vec!["c"]);
    assert_eq!(args.freshness(), Freshness::AsOfLastFetch);
}
