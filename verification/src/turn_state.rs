//! The turn scheduler: whose turn it is, and how one phase follows another.
//!
//! The phase is a plain value. Whoever runs the game hands the scheduler
//! the phase and what has happened, and gets the next phase back.

use vstd::prelude::*;

verus! {

/// The phase the game is in.
#[derive(Copy, Clone, Debug, PartialEq, Eq, Hash, Structural)]
pub enum TurnState {
    Loading,
    NewGame,
    AwaitingInput,
    PlayerTurn,
    MonsterTurn,
    Victory,
    Defeat,
    Pause,
}

/// What can move the game from one phase to another.
#[derive(Copy, Clone, Debug, PartialEq, Eq, Hash, Structural)]
pub enum TurnEvent {
    /// The assets of the game have been loaded.
    AssetsReady,
    /// The player has moved or has chosen to wait.
    PlayerActed,
    /// The player has asked for a pause.
    PauseRequested,
    /// The work of the phase is done. `goal_carried` says whether the goal
    /// item is carried now, `player_dead` whether the player's health has
    /// reached zero.
    PhaseComplete { goal_carried: bool, player_dead: bool },
    /// The player has asked to go on with a paused game.
    ResumeRequested,
    /// The player has asked for a new game.
    RestartRequested,
}

/// The buttons of the menu.
#[derive(Copy, Clone, Debug, PartialEq, Eq, Hash, Structural)]
pub enum ButtonAction {
    ResumeGame,
    RestartGame,
}

/// What is on the screen besides the level: the heads-up display while the
/// game is played, the menu while it is not.
#[derive(Copy, Clone, Debug, PartialEq, Eq, Hash, Structural)]
pub enum UiState {
    Hud,
    Menu,
}

impl TurnState {
    /// The phase that follows `self` on `event`. Where the phase has no
    /// use for the event the game stays in it.
    ///
    /// A phase of turns that ends with the goal item carried ends in
    /// victory, whatever else has happened; a turn of the monsters that
    /// leaves the player dead ends in defeat.
    pub open spec fn spec_after(self, event: TurnEvent) -> TurnState {
        match (self, event) {
            (TurnState::Loading, TurnEvent::AssetsReady) => TurnState::NewGame,
            (TurnState::NewGame, TurnEvent::PhaseComplete { .. }) => TurnState::AwaitingInput,
            (TurnState::AwaitingInput, TurnEvent::PlayerActed) => TurnState::PlayerTurn,
            (TurnState::AwaitingInput, TurnEvent::PauseRequested) => TurnState::Pause,
            (TurnState::PlayerTurn, TurnEvent::PhaseComplete { goal_carried, .. }) => if goal_carried {
                TurnState::Victory
            } else {
                TurnState::MonsterTurn
            },
            (TurnState::MonsterTurn, TurnEvent::PhaseComplete { goal_carried, player_dead }) => if goal_carried {
                TurnState::Victory
            } else if player_dead {
                TurnState::Defeat
            } else {
                TurnState::AwaitingInput
            },
            (TurnState::Pause, TurnEvent::ResumeRequested) => TurnState::AwaitingInput,
            (TurnState::Pause, TurnEvent::RestartRequested) => TurnState::NewGame,
            (TurnState::Victory, TurnEvent::RestartRequested) => TurnState::NewGame,
            (TurnState::Defeat, TurnEvent::RestartRequested) => TurnState::NewGame,
            _ => self,
        }
    }

    /// The phase that follows `self` on `event`.
    pub fn after(self, event: TurnEvent) -> (next: TurnState)
        ensures
            next == self.spec_after(event),
    {
        match (self, event) {
            (TurnState::Loading, TurnEvent::AssetsReady) => TurnState::NewGame,
            (TurnState::NewGame, TurnEvent::PhaseComplete { .. }) => TurnState::AwaitingInput,
            (TurnState::AwaitingInput, TurnEvent::PlayerActed) => TurnState::PlayerTurn,
            (TurnState::AwaitingInput, TurnEvent::PauseRequested) => TurnState::Pause,
            (TurnState::PlayerTurn, TurnEvent::PhaseComplete { goal_carried, .. }) => {
                if goal_carried {
                    TurnState::Victory
                } else {
                    TurnState::MonsterTurn
                }
            },
            (TurnState::MonsterTurn, TurnEvent::PhaseComplete { goal_carried, player_dead }) => {
                if goal_carried {
                    TurnState::Victory
                } else if player_dead {
                    TurnState::Defeat
                } else {
                    TurnState::AwaitingInput
                }
            },
            (TurnState::Pause, TurnEvent::ResumeRequested) => TurnState::AwaitingInput,
            (TurnState::Pause, TurnEvent::RestartRequested) => TurnState::NewGame,
            (TurnState::Victory, TurnEvent::RestartRequested) => TurnState::NewGame,
            (TurnState::Defeat, TurnEvent::RestartRequested) => TurnState::NewGame,
            (state, _) => state,
        }
    }

    /// The phase checks, when its work is done, whether the goal item is
    /// carried.
    pub open spec fn checks_goal(self) -> bool {
        self == TurnState::PlayerTurn || self == TurnState::MonsterTurn
    }

    /// The phase ends by itself when its work is done; the others wait for
    /// the player or for the assets.
    pub open spec fn advances(self) -> bool {
        self == TurnState::NewGame || self == TurnState::PlayerTurn || self
            == TurnState::MonsterTurn
    }

    pub open spec fn spec_ui_state(self) -> UiState {
        match self {
            TurnState::NewGame
            | TurnState::AwaitingInput
            | TurnState::PlayerTurn
            | TurnState::MonsterTurn => UiState::Hud,
            TurnState::Loading | TurnState::Victory | TurnState::Defeat | TurnState::Pause => UiState::Menu,
        }
    }

    /// What is on the screen in this phase.
    pub fn ui_state(self) -> (ui: UiState)
        ensures
            ui == self.spec_ui_state(),
    {
        match self {
            TurnState::NewGame
            | TurnState::AwaitingInput
            | TurnState::PlayerTurn
            | TurnState::MonsterTurn => UiState::Hud,
            TurnState::Loading | TurnState::Victory | TurnState::Defeat | TurnState::Pause => UiState::Menu,
        }
    }
}

/// Ends the phase `current`, its work being done. `None` in a phase that
/// does not end by itself, which the game then stays in; else the phase
/// that follows.
pub fn end_turn(current: TurnState, amulet_carried: bool, player_dead: bool) -> (next: Option<
    TurnState,
>)
    ensures
        next.is_some() <==> current.advances(),
        next matches Some(state) ==> state == current.spec_after(
            (TurnEvent::PhaseComplete { goal_carried: amulet_carried, player_dead }),
        ),
        current.checks_goal() && amulet_carried ==> next == Some(TurnState::Victory),
{
    match current {
        TurnState::NewGame | TurnState::PlayerTurn | TurnState::MonsterTurn => Some(
            current.after(TurnEvent::PhaseComplete { goal_carried: amulet_carried, player_dead }),
        ),
        _ => None,
    }
}

/// What a button of the menu asks of the scheduler.
pub fn button_event(action: ButtonAction) -> (event: TurnEvent)
    ensures
        event == (match action {
            ButtonAction::ResumeGame => TurnEvent::ResumeRequested,
            ButtonAction::RestartGame => TurnEvent::RestartRequested,
        }),
{
    match action {
        ButtonAction::ResumeGame => TurnEvent::ResumeRequested,
        ButtonAction::RestartGame => TurnEvent::RestartRequested,
    }
}

/// What the scheduler needs from what is on the screen: a change where the
/// phase asks for the other of the two, none where it asks for what is
/// there.
pub fn sync_ui_state(ui_state: UiState, turn_state: TurnState) -> (next: Option<UiState>)
    ensures
        next == (if ui_state == turn_state.spec_ui_state() {
            None
        } else {
            Some(turn_state.spec_ui_state())
        }),
{
    let supposed = turn_state.ui_state();
    if ui_state == supposed {
        None
    } else {
        Some(supposed)
    }
}

/// A round of the game without goal capture and without the player's death
/// takes three steps, and passes through no other phase: from awaiting
/// input to the player's turn, on to the monsters' turn, and back.
pub proof fn lemma_round_trip()
    ensures
        TurnState::AwaitingInput.spec_after(TurnEvent::PlayerActed) == TurnState::PlayerTurn,
        TurnState::PlayerTurn.spec_after(
            (TurnEvent::PhaseComplete { goal_carried: false, player_dead: false }),
        ) == TurnState::MonsterTurn,
        TurnState::MonsterTurn.spec_after(
            (TurnEvent::PhaseComplete { goal_carried: false, player_dead: false }),
        ) == TurnState::AwaitingInput,
{
}

/// In a phase that checks for the goal item, the item being carried when
/// the phase ends leads to victory, whatever else holds.
pub proof fn lemma_goal_wins(current: TurnState, player_dead: bool)
    requires
        current.checks_goal(),
    ensures
        current.spec_after((TurnEvent::PhaseComplete { goal_carried: true, player_dead }))
            == TurnState::Victory,
{
}

/// Pause is entered from awaiting input only.
pub proof fn lemma_pause_from_awaiting_input(current: TurnState, event: TurnEvent)
    requires
        current != TurnState::Pause,
        current.spec_after(event) == TurnState::Pause,
    ensures
        current == TurnState::AwaitingInput,
        event == TurnEvent::PauseRequested,
{
}

/// Victory and defeat are left by a restart only.
pub proof fn lemma_terminal_until_restart(current: TurnState, event: TurnEvent)
    requires
        current == TurnState::Victory || current == TurnState::Defeat,
        event != TurnEvent::RestartRequested,
    ensures
        current.spec_after(event) == current,
{
}

} // verus!
