//! What a lobby decides before a match: how many players it is for, whether
//! it can be joined, and how many players are still missing.

use crate::spawn::MAX_PLAYERS;
use crate::text::{room_address, room_url};
use vstd::prelude::*;
use vstd::string::*;

verus! {

/// Smallest number of players in a match.
pub const MIN_PLAYERS: usize = 2;

/// The number of players that a button of the lobby stands for.
#[derive(Clone, Copy, Debug, PartialEq, Eq, Structural)]
pub enum PlayerChoice {
    Two,
    Three,
    Four,
    Five,
    Six,
}

impl PlayerChoice {
    pub open spec fn count_spec(self) -> usize {
        match self {
            PlayerChoice::Two => 2,
            PlayerChoice::Three => 3,
            PlayerChoice::Four => 4,
            PlayerChoice::Five => 5,
            PlayerChoice::Six => 6,
        }
    }

    /// The number of players chosen.
    pub fn count(self) -> (n: usize)
        ensures
            n == self.count_spec(),
            MIN_PLAYERS <= n <= MAX_PLAYERS,
    {
        match self {
            PlayerChoice::Two => 2,
            PlayerChoice::Three => 3,
            PlayerChoice::Four => 4,
            PlayerChoice::Five => 5,
            PlayerChoice::Six => 6,
        }
    }
}

/// What the lobby has been told so far.
pub struct LobbyConfig {
    /// Number of players the match is for; zero until one is chosen.
    pub players: usize,
    /// The signalling server.
    pub server: String,
    /// The room on that server.
    pub room: String,
}

impl LobbyConfig {
    /// Whether the lobby can be joined: the number of players is one that a
    /// match can have, and a server and a room are named.
    pub open spec fn joinable(&self) -> bool {
        &&& MIN_PLAYERS <= self.players <= MAX_PLAYERS
        &&& self.server@.len() > 0
        &&& self.room@.len() > 0
    }

    /// Players still missing while `connected_peers` others are connected:
    /// the match's number less the peers and the local player, or none
    /// where that many are there already.
    pub open spec fn missing(&self, connected_peers: usize) -> nat {
        if self.players > connected_peers + 1 {
            (self.players - connected_peers - 1) as nat
        } else {
            0
        }
    }

    /// A lobby that has been told nothing.
    pub fn new() -> (c: LobbyConfig)
        ensures
            c.players == 0,
            c.server@.len() == 0,
            c.room@.len() == 0,
            !c.joinable(),
    {
        LobbyConfig { players: 0, server: String::new(), room: String::new() }
    }

    /// Takes the number of players that a button stands for.
    pub fn select(&mut self, choice: PlayerChoice)
        ensures
            final(self).players == choice.count_spec(),
            final(self).server == old(self).server,
            final(self).room == old(self).room,
    {
        self.players = choice.count();
    }

    /// Tests whether the lobby can be joined.
    pub fn is_joinable(&self) -> (r: bool)
        ensures
            r == self.joinable(),
    {
        MIN_PLAYERS <= self.players && self.players <= MAX_PLAYERS
            && !self.server.as_str().is_empty() && !self.room.as_str().is_empty()
    }

    /// The address to connect to, where the lobby can be joined.
    pub fn address(&self) -> (r: Option<String>)
        ensures
            r is Some <==> self.joinable(),
            r matches Some(url) ==> url@ == room_address(
                self.server@,
                self.room@,
                self.players as nat,
            ),
    {
        if self.is_joinable() {
            Some(room_url(self.server.as_str(), self.room.as_str(), self.players))
        } else {
            None
        }
    }

    /// Counts the players still missing while `connected_peers` others are
    /// connected.
    pub fn players_missing(&self, connected_peers: usize) -> (r: usize)
        ensures
            r == self.missing(connected_peers),
    {
        if connected_peers < self.players {
            self.players - connected_peers - 1
        } else {
            0
        }
    }
}

} // verus!
