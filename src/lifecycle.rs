use crate::vector::{Vec3, ONE};
use crate::GameState;
use vstd::prelude::*;

verus! {

/// Load status of a pending asset, as the host reports it.
#[derive(Clone, Copy, Debug, PartialEq, Eq, Structural)]
pub enum LoadStatus {
    NotLoaded,
    Loading,
    Loaded,
    Failed,
}

/// How many of the statuses are `which`.
pub open spec fn status_count(s: Seq<LoadStatus>, which: LoadStatus) -> nat
    decreases s.len(),
{
    if s.len() == 0 {
        0
    } else {
        status_count(s.drop_last(), which) + if s.last() == which {
            1nat
        } else {
            0nat
        }
    }
}

/// How many of the statuses are still `Loading`.
pub open spec fn loading_count(s: Seq<LoadStatus>) -> nat {
    status_count(s, LoadStatus::Loading)
}

/// The state after one frame's transition check: `Load` moves to `Main` once no
/// pending asset is still loading (a failed load counts as not loading); `Main` stays.
pub open spec fn next_state(state: GameState, statuses: Seq<LoadStatus>) -> GameState {
    match state {
        GameState::Load => if loading_count(statuses) == 0 {
            GameState::Main
        } else {
            GameState::Load
        },
        GameState::Main => GameState::Main,
    }
}

/// Whether a frame enters `Main`, so that the world setup runs.
pub open spec fn enters_main(state: GameState, statuses: Seq<LoadStatus>) -> bool {
    state == GameState::Load && next_state(state, statuses) == GameState::Main
}

/// How many times the world setup runs over a run of frames, each given by the
/// statuses of the pending assets.
pub open spec fn setup_runs(state: GameState, frames: Seq<Seq<LoadStatus>>) -> nat
    decreases frames.len(),
{
    if frames.len() == 0 {
        0
    } else {
        (if enters_main(state, frames[0]) {
            1nat
        } else {
            0nat
        }) + setup_runs(next_state(state, frames[0]), frames.drop_first())
    }
}

/// The state after a run of frames.
pub open spec fn state_after(state: GameState, frames: Seq<Seq<LoadStatus>>) -> GameState
    decreases frames.len(),
{
    if frames.len() == 0 {
        state
    } else {
        state_after(next_state(state, frames[0]), frames.drop_first())
    }
}

/// The number of statuses equal to `which`.
pub fn count_status(statuses: &Vec<LoadStatus>, which: LoadStatus) -> (n: usize)
    ensures
        n == status_count(statuses@, which),
{
    let mut n: usize = 0;
    let mut i: usize = 0;
    while i < statuses.len()
        invariant
            i <= statuses@.len(),
            n <= i,
            n == status_count(statuses@.subrange(0, i as int), which),
        decreases statuses@.len() - i,
    {
        assert(statuses@.subrange(0, i + 1).drop_last() =~= statuses@.subrange(0, i as int));
        if statuses[i] == which {
            n = n + 1;
        }
        i = i + 1;
    }
    assert(statuses@.subrange(0, i as int) =~= statuses@);
    n
}

/// The number of statuses that are `Loading`.
pub fn count_loading(statuses: &Vec<LoadStatus>) -> (n: usize)
    ensures
        n == loading_count(statuses@),
{
    count_status(statuses, LoadStatus::Loading)
}

/// The number of pending assets whose load failed. A failed load does not hold
/// back the move to `Main`; this count is how it gets reported.
pub fn count_failed(statuses: &Vec<LoadStatus>) -> (n: usize)
    ensures
        n == status_count(statuses@, LoadStatus::Failed),
{
    count_status(statuses, LoadStatus::Failed)
}

/// The transition check for one frame.
pub fn transition(state: GameState, statuses: &Vec<LoadStatus>) -> (r: GameState)
    ensures
        r == next_state(state, statuses@),
{
    match state {
        GameState::Load => if count_loading(statuses) == 0 {
            GameState::Main
        } else {
            GameState::Load
        },
        GameState::Main => GameState::Main,
    }
}

/// Where the controllable actor is spawned when `Main` is entered.
pub fn spawn_position() -> (r: Vec3)
    ensures
        r == (Vec3 { x: 0, y: 0, z: 2_000_000 }),
{
    Vec3 { x: 0, y: 0, z: 2 * ONE }
}

/// The process-wide lifecycle: the current state and the handles of the assets
/// that gate the move to `Main`.
pub struct Lifecycle {
    pub state: GameState,
    pub pending: Vec<u64>,
}

impl Lifecycle {
    /// Start in `Load` with no pending asset.
    pub fn new() -> (r: Lifecycle)
        ensures
            r.state == GameState::Load,
            r.pending@ == Seq::<u64>::empty(),
    {
        Lifecycle { state: GameState::Load, pending: Vec::new() }
    }

    /// On entering `Load`: register the handle of the requested scene.
    pub fn init_load(&mut self, scene: u64)
        ensures
            final(self).state == old(self).state,
            final(self).pending@ == old(self).pending@.push(scene),
    {
        self.pending.push(scene);
    }

    /// One frame, given the statuses of the pending assets (the status at `i`
    /// belongs to the handle at `i`). Returns whether the state entered `Main` on
    /// this frame, which is when the world setup runs.
    pub fn tick(&mut self, statuses: &Vec<LoadStatus>) -> (setup: bool)
        requires
            statuses@.len() == old(self).pending@.len(),
        ensures
            final(self).state == next_state(old(self).state, statuses@),
            setup == enters_main(old(self).state, statuses@),
            final(self).pending@ == old(self).pending@,
    {
        let before = self.state;
        self.state = transition(before, statuses);
        before == GameState::Load && self.state == GameState::Main
    }

    /// Take back a move to `Main` that the host could not carry out, so that the
    /// transition check runs again on the next frame.
    pub fn retry_transition(&mut self)
        ensures
            final(self).state == GameState::Load,
            final(self).pending@ == old(self).pending@,
    {
        self.state = GameState::Load;
    }
}

/// Once in `Main`, the state stays `Main` and the setup never runs again; from
/// any state, the setup runs at most once over any run of frames, and exactly
/// once from `Load` if the run ends in `Main`.
pub proof fn lemma_setup_runs_once(state: GameState, frames: Seq<Seq<LoadStatus>>)
    ensures
        state == GameState::Main ==> setup_runs(state, frames) == 0 && state_after(state, frames)
            == GameState::Main,
        setup_runs(state, frames) <= 1,
        state == GameState::Load ==> (setup_runs(state, frames) == 1 <==> state_after(state, frames)
            == GameState::Main),
    decreases frames.len(),
{
    if frames.len() > 0 {
        lemma_setup_runs_once(next_state(state, frames[0]), frames.drop_first());
    }
}

/// A frame in which some pending asset is still loading keeps `Load`; a frame in
/// which none is moves to `Main`.
pub proof fn lemma_load_gate(statuses: Seq<LoadStatus>)
    ensures
        loading_count(statuses) > 0 ==> next_state(GameState::Load, statuses) == GameState::Load,
        loading_count(statuses) == 0 ==> next_state(GameState::Load, statuses) == GameState::Main
            && enters_main(GameState::Load, statuses),
{
}

} // verus!
