use bevycraft::turn_state::{
    button_event, end_turn, sync_ui_state, ButtonAction, TurnEvent, TurnState, UiState,
};

const ALL: [TurnState; 8] = [
    TurnState::Loading,
    TurnState::NewGame,
    TurnState::AwaitingInput,
    TurnState::PlayerTurn,
    TurnState::MonsterTurn,
    TurnState::Victory,
    TurnState::Defeat,
    TurnState::Pause,
];

fn done(goal_carried: bool, player_dead: bool) -> TurnEvent {
    TurnEvent::PhaseComplete { goal_carried, player_dead }
}

#[test]
fn round_trip_takes_three_steps() {
    let start = TurnState::AwaitingInput;
    let first = start.after(TurnEvent::PlayerActed);
    assert_eq!(first, TurnState::PlayerTurn);
    let second = end_turn(first, false, false);
    assert_eq!(second, Some(TurnState::MonsterTurn));
    let third = end_turn(TurnState::MonsterTurn, false, false);
    assert_eq!(third, Some(TurnState::AwaitingInput));
}

#[test]
fn the_table_row_by_row() {
    assert_eq!(TurnState::Loading.after(TurnEvent::AssetsReady), TurnState::NewGame);
    assert_eq!(TurnState::NewGame.after(done(false, false)), TurnState::AwaitingInput);
    assert_eq!(TurnState::AwaitingInput.after(TurnEvent::PlayerActed), TurnState::PlayerTurn);
    assert_eq!(TurnState::AwaitingInput.after(TurnEvent::PauseRequested), TurnState::Pause);
    assert_eq!(TurnState::PlayerTurn.after(done(true, false)), TurnState::Victory);
    assert_eq!(TurnState::PlayerTurn.after(done(false, false)), TurnState::MonsterTurn);
    assert_eq!(TurnState::MonsterTurn.after(done(true, false)), TurnState::Victory);
    assert_eq!(TurnState::MonsterTurn.after(done(false, true)), TurnState::Defeat);
    assert_eq!(TurnState::MonsterTurn.after(done(false, false)), TurnState::AwaitingInput);
    assert_eq!(TurnState::Pause.after(TurnEvent::ResumeRequested), TurnState::AwaitingInput);
    assert_eq!(TurnState::Pause.after(TurnEvent::RestartRequested), TurnState::NewGame);
    assert_eq!(TurnState::Victory.after(TurnEvent::RestartRequested), TurnState::NewGame);
    assert_eq!(TurnState::Defeat.after(TurnEvent::RestartRequested), TurnState::NewGame);
}

#[test]
fn goal_capture_beats_everything() {
    for phase in [TurnState::PlayerTurn, TurnState::MonsterTurn] {
        for dead in [false, true] {
            assert_eq!(phase.after(done(true, dead)), TurnState::Victory);
            assert_eq!(end_turn(phase, true, dead), Some(TurnState::Victory));
        }
    }
}

#[test]
fn a_new_game_does_not_check_the_goal() {
    assert_eq!(end_turn(TurnState::NewGame, true, true), Some(TurnState::AwaitingInput));
}

#[test]
fn the_player_does_not_die_on_the_own_turn() {
    assert_eq!(end_turn(TurnState::PlayerTurn, false, true), Some(TurnState::MonsterTurn));
}

#[test]
fn phases_that_wait_do_not_end_by_themselves() {
    for phase in [
        TurnState::Loading,
        TurnState::AwaitingInput,
        TurnState::Victory,
        TurnState::Defeat,
        TurnState::Pause,
    ] {
        for goal in [false, true] {
            for dead in [false, true] {
                assert_eq!(end_turn(phase, goal, dead), None);
                assert_eq!(phase.after(done(goal, dead)), phase);
            }
        }
    }
}

#[test]
fn an_event_without_a_row_changes_nothing() {
    assert_eq!(TurnState::Loading.after(TurnEvent::PlayerActed), TurnState::Loading);
    assert_eq!(TurnState::PlayerTurn.after(TurnEvent::PauseRequested), TurnState::PlayerTurn);
    assert_eq!(TurnState::MonsterTurn.after(TurnEvent::PauseRequested), TurnState::MonsterTurn);
    assert_eq!(TurnState::Victory.after(TurnEvent::ResumeRequested), TurnState::Victory);
    assert_eq!(TurnState::Defeat.after(TurnEvent::PlayerActed), TurnState::Defeat);
    assert_eq!(TurnState::AwaitingInput.after(TurnEvent::RestartRequested), TurnState::AwaitingInput);
}

#[test]
fn pause_only_from_awaiting_input() {
    let events = [
        TurnEvent::AssetsReady,
        TurnEvent::PlayerActed,
        TurnEvent::PauseRequested,
        done(false, false),
        done(true, false),
        done(false, true),
        TurnEvent::ResumeRequested,
        TurnEvent::RestartRequested,
    ];
    for phase in ALL {
        for event in events {
            if phase != TurnState::Pause && phase.after(event) == TurnState::Pause {
                assert_eq!(phase, TurnState::AwaitingInput);
                assert_eq!(event, TurnEvent::PauseRequested);
            }
        }
    }
}

#[test]
fn buttons_of_the_menu() {
    assert_eq!(button_event(ButtonAction::ResumeGame), TurnEvent::ResumeRequested);
    assert_eq!(button_event(ButtonAction::RestartGame), TurnEvent::RestartRequested);
    assert_eq!(
        TurnState::Pause.after(button_event(ButtonAction::ResumeGame)),
        TurnState::AwaitingInput
    );
    assert_eq!(
        TurnState::Defeat.after(button_event(ButtonAction::RestartGame)),
        TurnState::NewGame
    );
}

#[test]
fn what_is_on_the_screen() {
    assert_eq!(TurnState::Loading.ui_state(), UiState::Menu);
    assert_eq!(TurnState::NewGame.ui_state(), UiState::Hud);
    assert_eq!(TurnState::AwaitingInput.ui_state(), UiState::Hud);
    assert_eq!(TurnState::PlayerTurn.ui_state(), UiState::Hud);
    assert_eq!(TurnState::MonsterTurn.ui_state(), UiState::Hud);
    assert_eq!(TurnState::Victory.ui_state(), UiState::Menu);
    assert_eq!(TurnState::Defeat.ui_state(), UiState::Menu);
    assert_eq!(TurnState::Pause.ui_state(), UiState::Menu);
    assert_eq!(sync_ui_state(UiState::Hud, TurnState::Pause), Some(UiState::Menu));
    assert_eq!(sync_ui_state(UiState::Menu, TurnState::Pause), None);
    assert_eq!(sync_ui_state(UiState::Menu, TurnState::PlayerTurn), Some(UiState::Hud));
    assert_eq!(sync_ui_state(UiState::Hud, TurnState::PlayerTurn), None);
}
