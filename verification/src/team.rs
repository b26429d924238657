//! Teams of the event and the state that decides whether they are attacked.

use vstd::prelude::*;

verus! {

/// Whether a team takes part.
#[derive(Clone, Copy, Debug, PartialEq, Eq, Structural)]
pub enum TeamState {
    /// Can be attacked.
    Active,
    /// Registered but didn't show up/stopped, don't attack.
    Inactive,
    /// Erroneously created - hide, but keep for stats.
    Deleted,
}

/// A stored number that stands for no team state.
#[derive(Clone, Copy, Debug, PartialEq, Eq, Structural)]
pub struct InvalidTeamState {
    /// The number that was found.
    pub id: i16,
}

/// The number under which a team state is stored.
pub open spec fn state_code(state: TeamState) -> i16 {
    match state {
        TeamState::Active => 1,
        TeamState::Inactive => 2,
        TeamState::Deleted => 3,
    }
}

impl TeamState {
    /// The number under which this state is stored.
    pub fn to_code(&self) -> (code: i16)
        ensures
            code == state_code(*self),
    {
        match *self {
            TeamState::Active => 1,
            TeamState::Inactive => 2,
            TeamState::Deleted => 3,
        }
    }

    /// The state that is stored under `code`: the one whose number it is, or
    /// an error that carries the number if there is none.
    pub fn from_code(code: i16) -> (r: Result<TeamState, InvalidTeamState>)
        ensures
            match r {
                Ok(state) => state_code(state) == code,
                Err(e) => e.id == code && forall|s: TeamState| state_code(s) != code,
            },
    {
        match code {
            1 => Ok(TeamState::Active),
            2 => Ok(TeamState::Inactive),
            3 => Ok(TeamState::Deleted),
            id => Err(InvalidTeamState { id }),
        }
    }
}

/// A team of the event.
#[derive(Debug)]
pub struct Team {
    /// Team ID identifying the team in the CTF platform.
    pub id: i32,
    /// Team name for pretty printing.
    pub name: Option<String>,
    /// Should the team be attacked by default?
    pub state: TeamState,
}

/// Custom meta key/values which can be accessed in the template patterns.
#[derive(Debug)]
pub struct TeamMeta {
    pub team_id: i32,
    pub key: String,
    pub value: String,
}

impl Team {
    /// A team with the given platform id.
    pub fn new(id: i32, name: Option<String>, state: TeamState) -> (team: Team)
        ensures
            team.id == id,
            team.name == name,
            team.state == state,
    {
        Team { id, name, state }
    }

    /// Should this team be targetted by exploits by default?
    pub fn should_attack(&self) -> (r: bool)
        ensures
            r == (self.state == TeamState::Active),
    {
        self.state == TeamState::Active
    }

    /// Gives the team a name.
    pub fn set_name(&mut self, name: String)
        ensures
            final(self).name == Some(name),
            final(self).state == old(self).state,
            final(self).id == old(self).id,
    {
        self.name = Some(name);
    }

    /// Changes whether the team takes part.
    pub fn set_state(&mut self, state: TeamState)
        ensures
            final(self).state == state,
            final(self).name == old(self).name,
            final(self).id == old(self).id,
    {
        self.state = state;
    }
}

} // verus!
