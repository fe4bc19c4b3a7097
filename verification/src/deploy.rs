//! The deployment executor's decision logic: for each resolved record and
//! the observed state of its destination, the action to take under a
//! link-mode policy. Decisions are pure; performing them (and observing the
//! filesystem in the first place) is the caller's concern, so re-running a
//! deployment is planned from fresh observations every time.

use vstd::prelude::*;

use crate::config::LinkMode;
use crate::resolve::Mapping;

verus! {

/// What the caller observed at one destination path, relative to the record
/// that maps to it: nothing, the very link this engine would create, a
/// byte-for-byte copy of the source, or something else.
#[derive(Debug, Clone, Copy, PartialEq, Eq, Structural)]
pub enum DestState {
    Absent,
    LinkToSource,
    CopyOfSource,
    Other,
}

/// The planned action for one record.
#[derive(Debug, Clone, Copy, PartialEq, Eq, Structural)]
pub enum Action {
    /// Create a symbolic link at the destination.
    Link,
    /// Copy the source to the destination byte for byte.
    Copy,
    /// The destination already holds what this run would create: no-op.
    AlreadyDone,
    /// The record is not deployed (`link: false`): no-op.
    SkipUnlinked,
    /// The destination holds something else and `force` is off: reported,
    /// not overwritten.
    Conflict,
    /// The policy demands a link but the platform cannot create one:
    /// reported, not silently downgraded.
    LinkUnsupported,
}

/// Whether the policy would create a link (rather than a copy) when
/// `symlinks_ok` says the platform can.
pub open spec fn wants_link(mode: LinkMode, symlinks_ok: bool) -> bool {
    mode == LinkMode::Always || (mode == LinkMode::Prefer && symlinks_ok)
}

/// The action for one record: unlinked records are skipped; a destination
/// already holding this run's artifact is a no-op; anything else present is
/// a conflict unless forced; otherwise the policy's artifact is created,
/// with `Always` reporting rather than downgrading when links are
/// unsupported.
pub open spec fn decide(
    mode: LinkMode,
    link_flag: bool,
    st: DestState,
    symlinks_ok: bool,
    force: bool,
) -> Action {
    if !link_flag {
        Action::SkipUnlinked
    } else if wants_link(mode, symlinks_ok) && st == DestState::LinkToSource {
        Action::AlreadyDone
    } else if !wants_link(mode, symlinks_ok) && st == DestState::CopyOfSource {
        Action::AlreadyDone
    } else if st != DestState::Absent && !force {
        Action::Conflict
    } else if wants_link(mode, symlinks_ok) {
        if symlinks_ok {
            Action::Link
        } else {
            Action::LinkUnsupported
        }
    } else {
        Action::Copy
    }
}

/// Whether an action writes to the filesystem.
pub open spec fn is_mutating(a: Action) -> bool {
    a == Action::Link || a == Action::Copy
}

/// The destination state after an action is performed: only the two
/// mutating actions change it.
pub open spec fn state_after(a: Action, st: DestState) -> DestState {
    match a {
        Action::Link => DestState::LinkToSource,
        Action::Copy => DestState::CopyOfSource,
        _ => st,
    }
}

/// The action for one record (see [`decide`]).
pub fn decide_action(
    mode: LinkMode,
    link_flag: bool,
    st: DestState,
    symlinks_ok: bool,
    force: bool,
) -> (r: Action)
    ensures
        r == decide(mode, link_flag, st, symlinks_ok, force),
{
    let want = matches!(mode, LinkMode::Always) || (matches!(mode, LinkMode::Prefer)
        && symlinks_ok);
    if !link_flag {
        Action::SkipUnlinked
    } else if want && matches!(st, DestState::LinkToSource) {
        Action::AlreadyDone
    } else if !want && matches!(st, DestState::CopyOfSource) {
        Action::AlreadyDone
    } else if !matches!(st, DestState::Absent) && !force {
        Action::Conflict
    } else if want {
        if symlinks_ok {
            Action::Link
        } else {
            Action::LinkUnsupported
        }
    } else {
        Action::Copy
    }
}

/// The number of mutating actions in a plan.
pub open spec fn count_mutating(actions: Seq<Action>) -> int
    decreases actions.len(),
{
    if actions.len() == 0 {
        0int
    } else {
        (if is_mutating(actions[0]) {
            1int
        } else {
            0int
        }) + count_mutating(actions.skip(1))
    }
}

/// A plan with no mutating action counts zero.
pub proof fn lemma_count_mutating_zero(actions: Seq<Action>)
    requires
        forall|i: int| 0 <= i < actions.len() ==> !is_mutating(#[trigger] actions[i]),
    ensures
        count_mutating(actions) == 0,
    decreases actions.len(),
{
    if actions.len() > 0 {
        assert(forall|i: int|
            0 <= i < actions.skip(1).len() ==> actions.skip(1)[i] == actions[i + 1]);
        lemma_count_mutating_zero(actions.skip(1));
    }
}

/// The plan of one run: one action per record, in record order.
pub struct DeploymentReport {
    pub actions: Vec<Action>,
}

impl DeploymentReport {
    /// How many of the planned actions write to the filesystem.
    pub fn mutating_actions(&self) -> (r: usize)
        ensures
            r == count_mutating(self.actions@),
    {
        let n = self.actions.len();
        let mut count: usize = 0;
        let mut i: usize = 0;
        proof {
            assert(self.actions@.skip(0) =~= self.actions@);
        }
        while i < n
            invariant
                i <= n,
                n == self.actions@.len(),
                count <= i,
                count + count_mutating(self.actions@.skip(i as int)) == count_mutating(
                    self.actions@,
                ),
            decreases n - i,
        {
            let ghost rem = self.actions@.skip(i as int);
            proof {
                assert(rem[0] == self.actions@[i as int]);
                assert(rem.skip(1) =~= self.actions@.skip(i + 1));
                lemma_count_mutating_bounds(rem);
            }
            let a = self.actions[i];
            if matches!(a, Action::Link) || matches!(a, Action::Copy) {
                count += 1;
            }
            i += 1;
        }
        proof {
            assert(self.actions@.skip(n as int) =~= Seq::<Action>::empty());
        }
        count
    }
}

/// `count_mutating` is never negative and never exceeds the length.
proof fn lemma_count_mutating_bounds(actions: Seq<Action>)
    ensures
        0 <= count_mutating(actions) <= actions.len(),
    decreases actions.len(),
{
    if actions.len() > 0 {
        lemma_count_mutating_bounds(actions.skip(1));
    }
}

/// Plan one run: for each record, the action its destination's observed
/// state calls for under `mode`. Nothing is performed here.
pub fn apply(
    mapping: &Vec<Mapping>,
    mode: LinkMode,
    states: &Vec<DestState>,
    symlinks_ok: bool,
    force: bool,
) -> (r: DeploymentReport)
    requires
        states@.len() == mapping@.len(),
    ensures
        r.actions@.len() == mapping@.len(),
        forall|i: int|
            0 <= i < mapping@.len() ==> r.actions@[i] == decide(
                mode,
                (#[trigger] mapping@[i])@.link,
                states@[i],
                symlinks_ok,
                force,
            ),
{
    let n = mapping.len();
    let mut actions: Vec<Action> = Vec::new();
    let mut i: usize = 0;
    while i < n
        invariant
            i <= n,
            n == mapping@.len() == states@.len(),
            actions@.len() == i,
            forall|j: int|
                0 <= j < i ==> actions@[j] == decide(
                    mode,
                    (#[trigger] mapping@[j])@.link,
                    states@[j],
                    symlinks_ok,
                    force,
                ),
        decreases n - i,
    {
        actions.push(decide_action(mode, mapping[i].link, states[i], symlinks_ok, force));
        i += 1;
    }
    DeploymentReport { actions }
}

/// Law: deployment is idempotent. Whatever one run planned for a record,
/// performing it leaves the destination in a state for which a second run
/// under the same policy plans no mutating action.
pub proof fn lemma_reapply_not_mutating(
    mode: LinkMode,
    link_flag: bool,
    st: DestState,
    symlinks_ok: bool,
    force: bool,
)
    ensures
        !is_mutating(
            decide(
                mode,
                link_flag,
                state_after(decide(mode, link_flag, st, symlinks_ok, force), st),
                symlinks_ok,
                force,
            ),
        ),
{
}

/// Law: re-running `apply` over the states a first run left behind plans
/// zero mutating actions.
pub proof fn lemma_reapply_zero_mutations(
    mode: LinkMode,
    links: Seq<bool>,
    states: Seq<DestState>,
    symlinks_ok: bool,
    force: bool,
)
    requires
        states.len() == links.len(),
    ensures
        count_mutating(
            Seq::new(
                links.len(),
                |i: int|
                    decide(
                        mode,
                        links[i],
                        state_after(decide(mode, links[i], states[i], symlinks_ok, force), states[i]),
                        symlinks_ok,
                        force,
                    ),
            ),
        ) == 0,
{
    let second = Seq::new(
        links.len(),
        |i: int|
            decide(
                mode,
                links[i],
                state_after(decide(mode, links[i], states[i], symlinks_ok, force), states[i]),
                symlinks_ok,
                force,
            ),
    );
    assert forall|i: int| 0 <= i < second.len() implies !is_mutating(#[trigger] second[i]) by {
        lemma_reapply_not_mutating(mode, links[i], states[i], symlinks_ok, force);
    }
    lemma_count_mutating_zero(second);
}

/// The planned removal for one previously-deployed record.
#[derive(Debug, Clone, Copy, PartialEq, Eq, Structural)]
pub enum CleanAction {
    /// The destination holds exactly what this engine would have created:
    /// remove it.
    Remove,
    /// Nothing is there: nothing to remove.
    AbsentAlready,
    /// The record was never deployed (`link: false`): no-op.
    SkipUnlinked,
    /// The destination holds something this engine did not create: left
    /// untouched and reported.
    SkippedConflict,
}

/// The removal decision for one record: only the artifact this engine would
/// have created under `mode` is removed; anything else is left untouched.
pub open spec fn decide_clean(
    mode: LinkMode,
    link_flag: bool,
    st: DestState,
    symlinks_ok: bool,
) -> CleanAction {
    if !link_flag {
        CleanAction::SkipUnlinked
    } else if st == DestState::Absent {
        CleanAction::AbsentAlready
    } else if wants_link(mode, symlinks_ok) && st == DestState::LinkToSource {
        CleanAction::Remove
    } else if !wants_link(mode, symlinks_ok) && st == DestState::CopyOfSource {
        CleanAction::Remove
    } else {
        CleanAction::SkippedConflict
    }
}

/// Plan the structural inverse of a deployment: remove each destination only
/// if it is exactly the link or copy this engine would have created.
pub fn clean(
    mapping: &Vec<Mapping>,
    mode: LinkMode,
    states: &Vec<DestState>,
    symlinks_ok: bool,
) -> (r: Vec<CleanAction>)
    requires
        states@.len() == mapping@.len(),
    ensures
        r@.len() == mapping@.len(),
        forall|i: int|
            0 <= i < mapping@.len() ==> r@[i] == decide_clean(
                mode,
                (#[trigger] mapping@[i])@.link,
                states@[i],
                symlinks_ok,
            ),
{
    let n = mapping.len();
    let mut actions: Vec<CleanAction> = Vec::new();
    let mut i: usize = 0;
    while i < n
        invariant
            i <= n,
            n == mapping@.len() == states@.len(),
            actions@.len() == i,
            forall|j: int|
                0 <= j < i ==> actions@[j] == decide_clean(
                    mode,
                    (#[trigger] mapping@[j])@.link,
                    states@[j],
                    symlinks_ok,
                ),
        decreases n - i,
    {
        let want = matches!(mode, LinkMode::Always) || (matches!(mode, LinkMode::Prefer)
            && symlinks_ok);
        let a = if !mapping[i].link {
            CleanAction::SkipUnlinked
        } else if matches!(states[i], DestState::Absent) {
            CleanAction::AbsentAlready
        } else if want && matches!(states[i], DestState::LinkToSource) {
            CleanAction::Remove
        } else if !want && matches!(states[i], DestState::CopyOfSource) {
            CleanAction::Remove
        } else {
            CleanAction::SkippedConflict
        };
        actions.push(a);
        i += 1;
    }
    actions
}

} // verus!
