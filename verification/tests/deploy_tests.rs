use confman::config::LinkMode;
use confman::deploy::{apply, clean, decide_action, Action, CleanAction, DestState};
use confman::resolve::Mapping;

fn s(x: &str) -> String {
    x.to_string()
}

fn record(path: &str, dest: &str, link: bool) -> Mapping {
    Mapping { module_name: s("m"), source_path: s(path), dest: s(dest), link }
}

fn state_after(a: Action, st: DestState) -> DestState {
    match a {
        Action::Link => DestState::LinkToSource,
        Action::Copy => DestState::CopyOfSource,
        _ => st,
    }
}

#[test]
fn second_apply_is_a_noop() {
    let mapping = vec![
        record("a.txt", "/home/u/a.txt", true),
        record("b.txt", "/home/u/b.txt", true),
        record("c.txt", "/home/u/c.txt", false),
    ];
    let states = vec![DestState::Absent, DestState::Absent, DestState::Absent];
    let first = apply(&mapping, LinkMode::Always, &states, true, false);
    assert_eq!(first.actions, vec![Action::Link, Action::Link, Action::SkipUnlinked]);
    assert_eq!(first.mutating_actions(), 2);

    let after: Vec<DestState> = first
        .actions
        .iter()
        .zip(states.iter())
        .map(|(a, st)| state_after(*a, *st))
        .collect();
    let second = apply(&mapping, LinkMode::Always, &after, true, false);
    assert_eq!(
        second.actions,
        vec![Action::AlreadyDone, Action::AlreadyDone, Action::SkipUnlinked]
    );
    assert_eq!(second.mutating_actions(), 0);
}

#[test]
fn link_modes_pick_the_artifact() {
    // Always demands a link and reports when the platform cannot make one
    assert_eq!(decide_action(LinkMode::Always, true, DestState::Absent, true, false), Action::Link);
    assert_eq!(
        decide_action(LinkMode::Always, true, DestState::Absent, false, false),
        Action::LinkUnsupported
    );
    // Prefer falls back to a copy
    assert_eq!(decide_action(LinkMode::Prefer, true, DestState::Absent, true, false), Action::Link);
    assert_eq!(decide_action(LinkMode::Prefer, true, DestState::Absent, false, false), Action::Copy);
    // Never always copies
    assert_eq!(decide_action(LinkMode::Never, true, DestState::Absent, true, false), Action::Copy);
}

#[test]
fn conflicts_are_reported_not_overwritten() {
    assert_eq!(
        decide_action(LinkMode::Always, true, DestState::Other, true, false),
        Action::Conflict
    );
    // a copy where a link is wanted is a conflict, and the other way round
    assert_eq!(
        decide_action(LinkMode::Always, true, DestState::CopyOfSource, true, false),
        Action::Conflict
    );
    assert_eq!(
        decide_action(LinkMode::Never, true, DestState::LinkToSource, true, false),
        Action::Conflict
    );
    // force overwrites
    assert_eq!(decide_action(LinkMode::Always, true, DestState::Other, true, true), Action::Link);
}

#[test]
fn correct_artifacts_are_noops() {
    assert_eq!(
        decide_action(LinkMode::Always, true, DestState::LinkToSource, true, false),
        Action::AlreadyDone
    );
    assert_eq!(
        decide_action(LinkMode::Never, true, DestState::CopyOfSource, true, false),
        Action::AlreadyDone
    );
    assert_eq!(
        decide_action(LinkMode::Prefer, true, DestState::CopyOfSource, false, false),
        Action::AlreadyDone
    );
}

#[test]
fn clean_removes_only_what_the_engine_created() {
    let mapping = vec![
        record("a", "/d/a", true),
        record("b", "/d/b", true),
        record("c", "/d/c", true),
        record("d", "/d/d", false),
    ];
    let states = vec![
        DestState::LinkToSource,
        DestState::Other,
        DestState::Absent,
        DestState::CopyOfSource,
    ];
    let got = clean(&mapping, LinkMode::Always, &states, true);
    assert_eq!(
        got,
        vec![
            CleanAction::Remove,
            CleanAction::SkippedConflict,
            CleanAction::AbsentAlready,
            CleanAction::SkipUnlinked,
        ]
    );
    // under a copy policy a correct copy is the engine's own artifact
    let got = clean(&mapping, LinkMode::Never, &vec![DestState::CopyOfSource; 4], true);
    assert_eq!(
        got,
        vec![
            CleanAction::Remove,
            CleanAction::Remove,
            CleanAction::Remove,
            CleanAction::SkipUnlinked,
        ]
    );
}
