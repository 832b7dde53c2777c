use vstd::prelude::*;

verus! {

use crate::events_reader::{base64_decoding, decode_events};

/// One player's entry in a match log, with the packed event stream still
/// base64-encoded.
#[derive(Debug, Clone)]
pub struct Player {
    pub auth: bool,
    pub name: String,
    pub flair: usize,
    pub degree: usize,
    pub score: isize,
    pub points: usize,
    pub team: usize,
    pub events: String,
}

/// One team's entry in a match log.
#[derive(Debug, Clone)]
pub struct Team {
    pub name: String,
    pub score: usize,
    pub splats: String,
}

/// One player's share of a match as the analysis core consumes it: the
/// name, the starting team code, and the decoded event bytes.
#[derive(Debug, Clone)]
pub struct PlayerLog {
    pub name: String,
    pub team: usize,
    pub events: Vec<u8>,
}

/// The team a match-log team code stands for; codes above two carry no
/// team and are mapped to none.
pub open spec fn spec_team_of_code(v: usize) -> crate::events_reader::Team {
    if v == 1 {
        crate::events_reader::Team::Red
    } else if v == 2 {
        crate::events_reader::Team::Blue
    } else {
        crate::events_reader::Team::Neutral
    }
}

/// The team a match-log team code stands for.
pub fn team_of_code(v: usize) -> (r: crate::events_reader::Team)
    ensures
        r == spec_team_of_code(v),
{
    match v {
        1 => crate::events_reader::Team::Red,
        2 => crate::events_reader::Team::Blue,
        _ => crate::events_reader::Team::Neutral,
    }
}

impl Player {
    /// This player's analyzable form: the event string decoded from
    /// base64; `None` when the string is not valid base64 or decodes to a
    /// buffer too large to address bit by bit.
    pub fn to_player_log(&self) -> (r: Option<PlayerLog>)
        ensures
            match r {
                Some(pl) => base64_decoding(self.events@) == Some(pl.events@) && pl.name
                    == self.name && pl.team == self.team && 8 * pl.events@.len() <= usize::MAX,
                None => base64_decoding(self.events@) is None || (base64_decoding(self.events@)
                    matches Some(d) && 8 * d.len() > usize::MAX),
            },
    {
        match decode_events(self.events.as_str()) {
            Some(bytes) => Some(
                PlayerLog { name: self.name.clone(), team: self.team, events: bytes },
            ),
            None => None,
        }
    }
}

} // verus!
