//! The application's coarse game states and the transition markers that
//! drive them.

use vstd::prelude::*;

verus! {

/// The coarse phases the application moves through.
#[derive(Clone, Copy, PartialEq, Eq, Structural, Debug, Hash)]
pub enum MyState {
    LoadAssets,
    InitApp,
    GameStart,
    MainLoop,
}

impl Default for MyState {
    /// The application starts by loading its assets.
    fn default() -> (r: MyState)
        ensures
            r == MyState::LoadAssets,
    {
        MyState::LoadAssets
    }
}

/// Something that names the state to move to next.
pub trait GotoState {
    /// The state this marker leads to.
    spec fn next_spec(&self) -> MyState;

    /// Reads the state this marker leads to.
    fn next(&self) -> (r: MyState)
        ensures
            r == self.next_spec(),
    ;
}

/// Marker for the unconditional jump into the main loop.
pub struct MainLoop;

impl Default for MainLoop {
    fn default() -> (r: MainLoop) {
        MainLoop
    }
}

/// Names the state to enter once asset loading is done.
pub struct AfterLoadAssetsTo(pub MyState);

/// Names the state to enter once application setup is done.
pub struct AfterInitAppTo(pub MyState);

impl GotoState for MainLoop {
    open spec fn next_spec(&self) -> MyState {
        MyState::MainLoop
    }

    fn next(&self) -> (r: MyState) {
        MyState::MainLoop
    }
}

impl GotoState for AfterLoadAssetsTo {
    open spec fn next_spec(&self) -> MyState {
        self.0
    }

    fn next(&self) -> (r: MyState) {
        self.0
    }
}

impl GotoState for AfterInitAppTo {
    open spec fn next_spec(&self) -> MyState {
        self.0
    }

    fn next(&self) -> (r: MyState) {
        self.0
    }
}

/// The unconditional state transition: the marker decides the target.
pub fn change_state<T: GotoState>(state: &T) -> (r: MyState)
    ensures
        r == state.next_spec(),
{
    state.next()
}

/// The transition whose marker may be absent: with no marker there is no
/// transition.
pub fn change_state_with_res<T: GotoState>(o_state: Option<&T>) -> (r: Option<MyState>)
    ensures
        r == match o_state {
            Option::Some(s) => Option::Some(s.next_spec()),
            Option::None => Option::None::<MyState>,
        },
{
    match o_state {
        Some(s) => Some(s.next()),
        None => None,
    }
}

/// Marks the engine-side entity that parents all maze geometry.
pub struct MapZeroEntity;

/// Marks the default 3D camera spawned before the player cameras exist.
pub struct AppDefault3dCamera;

} // verus!
