//! The errors of the controller and how they are answered.
use vstd::prelude::*;

use crate::text::{nat_to_dec, usize_to_string};

verus! {

/// What can go wrong when the controller is driven.
#[derive(Clone, Debug)]
pub enum Error {
    UnloadedDependency,
    IpNotFound(String),
    PlayerNotFound(String),
    UnableToParse,
    NoScoreFound { player: String, hole: usize },
    CardIndexNotFound(usize),
    TooManyHoles,
    HoleLengthNotFound(u8),
    HoleParNotFound(u8),
    NotEnoughHoles { holes: usize },
    InvalidDivision(String),
    PlayerInCardNotFound(usize),
    GroupNotFound,
    RoundNotInitialised,
}

impl Error {
    /// The HTTP status that answers the error: 424 when the coordinator (or the
    /// round) is not loaded, 400 for a request that names something that does
    /// not exist, 500 for the rest.
    pub open spec fn status(self) -> u16 {
        match self {
            Error::NoScoreFound { .. } | Error::PlayerNotFound(_) | Error::IpNotFound(_)
            | Error::UnableToParse | Error::HoleLengthNotFound(_) | Error::HoleParNotFound(_)
            | Error::NotEnoughHoles { .. } | Error::GroupNotFound => 500,
            Error::UnloadedDependency => 424,
            Error::CardIndexNotFound(_) | Error::TooManyHoles | Error::InvalidDivision(_)
            | Error::PlayerInCardNotFound(_) => 400,
            Error::RoundNotInitialised => 424,
        }
    }

    pub fn status_code(&self) -> (r: u16)
        ensures
            r == self.status(),
    {
        match self {
            Error::NoScoreFound { .. } | Error::PlayerNotFound(_) | Error::IpNotFound(_)
            | Error::UnableToParse | Error::HoleLengthNotFound(_) | Error::HoleParNotFound(_)
            | Error::NotEnoughHoles { .. } | Error::GroupNotFound => 500,
            Error::UnloadedDependency => 424,
            Error::CardIndexNotFound(_) | Error::TooManyHoles | Error::InvalidDivision(_)
            | Error::PlayerInCardNotFound(_) => 400,
            Error::RoundNotInitialised => 424,
        }
    }

    /// The human-readable text of the error.
    pub open spec fn message_text(self) -> Seq<char> {
        match self {
            Error::UnloadedDependency => "Coordinator has not been loaded yet"@,
            Error::IpNotFound(ip) => "IP: `"@ + ip@ + "` not found"@,
            Error::PlayerNotFound(p) => "Player: `"@ + p@ + "` not found"@,
            Error::UnableToParse => "Unable to parse"@,
            Error::NoScoreFound { player, hole } => "No score found on player: `"@ + player@
                + "` at hole `"@ + nat_to_dec(hole as nat) + "`"@,
            Error::CardIndexNotFound(i) => "Index `"@ + nat_to_dec(i as nat) + "` does not exist in current card"@,
            Error::TooManyHoles => "Too many holes"@,
            Error::HoleLengthNotFound(h) => "Length not found on the hole: "@ + nat_to_dec(h as nat),
            Error::HoleParNotFound(h) => "Par not found on the hole: "@ + nat_to_dec(h as nat),
            Error::NotEnoughHoles { holes } => "Not enough holes. Only "@ + nat_to_dec(holes as nat)
                + " found. Expected 18."@,
            Error::InvalidDivision(d) => "Invalid division: \""@ + d@ + "\""@,
            Error::PlayerInCardNotFound(i) => "Player index "@ + nat_to_dec(i as nat) + " not found in focused card"@,
            Error::GroupNotFound => "Group not found"@,
            Error::RoundNotInitialised => "Round not initialised"@,
        }
    }

    pub fn message(&self) -> (r: String)
        ensures
            r@ == self.message_text(),
    {
        match self {
            Error::UnloadedDependency => String::from_str("Coordinator has not been loaded yet"),
            Error::IpNotFound(ip) => {
                let mut s = String::from_str("IP: `");
                s.append(ip.as_str());
                s.append("` not found");
                s
            },
            Error::PlayerNotFound(p) => {
                let mut s = String::from_str("Player: `");
                s.append(p.as_str());
                s.append("` not found");
                s
            },
            Error::UnableToParse => String::from_str("Unable to parse"),
            Error::NoScoreFound { player, hole } => {
                let mut s = String::from_str("No score found on player: `");
                s.append(player.as_str());
                s.append("` at hole `");
                let h = usize_to_string(*hole);
                s.append(h.as_str());
                s.append("`");
                s
            },
            Error::CardIndexNotFound(i) => {
                let mut s = String::from_str("Index `");
                let n = usize_to_string(*i);
                s.append(n.as_str());
                s.append("` does not exist in current card");
                s
            },
            Error::TooManyHoles => String::from_str("Too many holes"),
            Error::HoleLengthNotFound(h) => {
                let mut s = String::from_str("Length not found on the hole: ");
                let n = usize_to_string(*h as usize);
                s.append(n.as_str());
                s
            },
            Error::HoleParNotFound(h) => {
                let mut s = String::from_str("Par not found on the hole: ");
                let n = usize_to_string(*h as usize);
                s.append(n.as_str());
                s
            },
            Error::NotEnoughHoles { holes } => {
                let mut s = String::from_str("Not enough holes. Only ");
                let n = usize_to_string(*holes);
                s.append(n.as_str());
                s.append(" found. Expected 18.");
                s
            },
            Error::InvalidDivision(d) => {
                let mut s = String::from_str("Invalid division: \"");
                s.append(d.as_str());
                s.append("\"");
                s
            },
            Error::PlayerInCardNotFound(i) => {
                let mut s = String::from_str("Player index ");
                let n = usize_to_string(*i);
                s.append(n.as_str());
                s.append(" not found in focused card");
                s
            },
            Error::GroupNotFound => String::from_str("Group not found"),
            Error::RoundNotInitialised => String::from_str("Round not initialised"),
        }
    }
}

} // verus!
