use vstd::prelude::*;

verus! {

/// The phase of the application around a game.
#[derive(Debug, Clone, Copy, PartialEq, Eq, Hash, Structural)]
pub enum AppState {
    InGame,
    Out,
    Pause,
    Reseting,
}

/// A transition requested of the application's state stack.
#[derive(Debug, Clone, Copy, PartialEq, Eq, Structural)]
pub enum StateChange {
    /// Replace the current state.
    Replace(AppState),
    /// Put a state on top of the current one.
    Push(AppState),
    /// Return to the state below the current one.
    Pop,
}

/// The clear key ends a running game.
pub open spec fn on_clear(current: AppState) -> Seq<StateChange> {
    if current == AppState::InGame {
        seq![StateChange::Replace(AppState::Out)]
    } else {
        seq![]
    }
}

/// The generate key starts a game, or ends the running one.
pub open spec fn on_generate(current: AppState) -> Seq<StateChange> {
    if current != AppState::InGame {
        seq![StateChange::Replace(AppState::InGame)]
    } else {
        seq![StateChange::Replace(AppState::Out)]
    }
}

/// The escape key pauses a running game and resumes a paused one.
pub open spec fn on_escape(current: AppState) -> Seq<StateChange> {
    if current == AppState::InGame {
        seq![StateChange::Push(AppState::Pause)]
    } else if current == AppState::Pause {
        seq![StateChange::Pop]
    } else {
        seq![]
    }
}

/// The transitions asked for in one frame, in the order clear, generate,
/// escape, each judged against the state current at the start of the frame.
pub fn state_handler(current: AppState, clear: bool, generate: bool, escape: bool) -> (r: Vec<
    StateChange,
>)
    ensures
        r@ == (if clear {
            on_clear(current)
        } else {
            seq![]
        }) + (if generate {
            on_generate(current)
        } else {
            seq![]
        }) + (if escape {
            on_escape(current)
        } else {
            seq![]
        }),
{
    let mut r: Vec<StateChange> = Vec::new();
    if clear && current == AppState::InGame {
        r.push(StateChange::Replace(AppState::Out));
    }
    if generate {
        if current != AppState::InGame {
            r.push(StateChange::Replace(AppState::InGame));
        } else {
            r.push(StateChange::Replace(AppState::Out));
        }
    }
    if escape {
        if current == AppState::InGame {
            r.push(StateChange::Push(AppState::Pause));
        } else if current == AppState::Pause {
            r.push(StateChange::Pop);
        }
    }
    proof {
        let a: Seq<StateChange> = if clear { on_clear(current) } else { seq![] };
        let b: Seq<StateChange> = if generate { on_generate(current) } else { seq![] };
        let c: Seq<StateChange> = if escape { on_escape(current) } else { seq![] };
        assert(r@ =~= a + b + c);
    }
    r
}

} // verus!
