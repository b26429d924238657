use anthill::api::{
    parse_command, ApiCommand, ApiError, Incoming, Reaction, WsApiSession, CLIENT_TIMEOUT,
    HEARTBEAT_INTERVAL,
};
use anthill::team::{InvalidTeamState, Team, TeamState};

#[test]
fn team_state_codes_round_trip() {
    assert_eq!(TeamState::Active.to_code(), 1);
    assert_eq!(TeamState::Inactive.to_code(), 2);
    assert_eq!(TeamState::Deleted.to_code(), 3);
    for state in [TeamState::Active, TeamState::Inactive, TeamState::Deleted] {
        assert_eq!(TeamState::from_code(state.to_code()), Ok(state));
    }
    for code in [0i16, 4, -1, i16::MAX, i16::MIN] {
        assert_eq!(TeamState::from_code(code), Err(InvalidTeamState { id: code }));
    }
}

#[test]
fn only_active_teams_are_attacked() {
    let mut team = Team::new(5, None, TeamState::Active);
    assert_eq!(team.id, 5);
    assert!(team.should_attack());
    team.set_state(TeamState::Inactive);
    assert!(!team.should_attack());
    team.set_state(TeamState::Deleted);
    assert!(!team.should_attack());
    team.set_name("ants".to_string());
    assert_eq!(team.name.as_deref(), Some("ants"));
    assert_eq!(team.state, TeamState::Deleted);
    assert_eq!(team.id, 5);
}

#[test]
fn commands_are_told_apart() {
    assert_eq!(parse_command("teams"), ApiCommand::Teams);
    assert_eq!(parse_command("get_team"), ApiCommand::GetTeam);
    for name in ["", "team", "teams ", "Teams", "get_teams", "drop"] {
        assert_eq!(parse_command(name), ApiCommand::Unknown);
    }
    assert_eq!(ApiError::unknown_command("drop").error, "Unknown command: drop");
    assert_eq!(ApiError::unknown_command("").error, "Unknown command: ");
}

#[test]
fn session_tracks_the_heartbeat() {
    const SECOND: u64 = 1_000_000_000;
    assert_eq!(HEARTBEAT_INTERVAL, 5 * SECOND);
    assert_eq!(CLIENT_TIMEOUT, 10 * SECOND);
    let mut session = WsApiSession::new(100 * SECOND);
    assert!(!session.timed_out(100 * SECOND));
    assert!(!session.timed_out(110 * SECOND));
    assert!(session.timed_out(110 * SECOND + 1));
    assert!(session.timed_out(111 * SECOND));
    assert!(!session.timed_out(50 * SECOND));
    assert_eq!(session.handle(Incoming::Text, 108 * SECOND), Reaction::RunCommand);
    assert_eq!(session.hb, 100 * SECOND);
    assert_eq!(session.handle(Incoming::Ping, 109 * SECOND), Reaction::SendPong);
    assert_eq!(session.hb, 109 * SECOND);
    assert!(!session.timed_out(119 * SECOND));
    assert!(session.timed_out(120 * SECOND));
    assert_eq!(session.handle(Incoming::Pong, 115 * SECOND), Reaction::Nothing);
    assert_eq!(session.hb, 115 * SECOND);
    assert_eq!(session.handle(Incoming::Binary, 116 * SECOND), Reaction::ReportBinary);
    assert_eq!(session.handle(Incoming::Other, 116 * SECOND), Reaction::Nothing);
    assert_eq!(session.handle(Incoming::Close, 117 * SECOND), Reaction::CloseAndStop);
    assert_eq!(session.handle(Incoming::Broken, 118 * SECOND), Reaction::Stop);
    assert_eq!(session.hb, 115 * SECOND);
}
