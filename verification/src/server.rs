//! The state of the server as a whole: the registry of players, the games, and the
//! router that carries the messages.
//!
//! The operations on it stand in `chat`, `challenge`, `play` and `session`. Each one
//! is a step of a state machine: its contract gives the state after it, and what is to
//! be written to the connection that asked, as functions of the state before it.

use crate::game::{Game, GameView, State};
use crate::registry::{PlayerView, Registry};
use crate::router::{QueueView, Router};
use crate::text::same_text;
use vstd::prelude::*;

verus! {

/// The server's state.
#[derive(Debug)]
pub struct Server {
    pub players: Registry,
    /// Every game that was ever begun, at the index by which players refer to it.
    pub games: Vec<Game>,
    pub router: Router,
}

/// The server's state as contracts see it.
pub struct ServerView {
    pub players: Seq<PlayerView>,
    pub games: Seq<GameView>,
    pub router: Seq<QueueView>,
}

/// The views of a sequence of games, in order.
pub open spec fn game_views(games: Seq<Game>) -> Seq<GameView> {
    Seq::new(games.len(), |i: int| games[i]@)
}

impl View for Server {
    type V = ServerView;

    open spec fn view(&self) -> ServerView {
        ServerView {
            players: self.players@,
            games: game_views(self.games@),
            router: self.router@,
        }
    }
}

impl ServerView {
    /// Whether game `game_index` exists and has no result yet.
    pub open spec fn is_open(self, game_index: usize) -> bool {
        game_index < self.games.len() && self.games[game_index as int].win == State::Open
    }

    /// Whether game `game_index` is one that a player named `name` plays in.
    pub open spec fn plays_in(self, name: Seq<char>, game_index: usize) -> bool {
        self.games[game_index as int].player1 == name || self.games[game_index as int].player2
            == name
    }

    /// What the server keeps to: every game keeps to the rules of a game, and a player
    /// who is in a game is in one that exists, has no result yet, and has a player of
    /// that name.
    pub open spec fn wf(self) -> bool {
        &&& forall|i: int| 0 <= i < self.games.len() ==> (#[trigger] self.games[i]).wf()
        &&& forall|i: int|
            0 <= i < self.players.len() ==> ((#[trigger] self.players[i]).game matches Some(g)
                ==> self.is_open(g) && self.plays_in(self.players[i].username, g))
    }
}

impl Server {
    /// Whether the server keeps to what every server keeps to.
    pub open spec fn wf(&self) -> bool {
        self@.wf()
    }

    /// Whether the server keeps to what every server keeps to, found out by looking.
    ///
    /// A server that is changed through its operations alone always does. This is for
    /// a caller that has no other way to know.
    pub fn is_well_formed(&self) -> (b: bool)
        ensures
            b == self.wf(),
    {
        let mut i: usize = 0;
        while i < self.games.len()
            invariant
                i <= self.games.len(),
                forall|j: int| 0 <= j < i ==> (#[trigger] self@.games[j]).wf(),
            decreases self.games.len() - i,
        {
            if !self.games[i].is_well_formed() {
                assert(!self@.games[i as int].wf());
                return false;
            }
            i = i + 1;
        }
        let mut k: usize = 0;
        while k < self.players.players.len()
            invariant
                k <= self.players.players.len(),
                forall|j: int|
                    0 <= j < k ==> ((#[trigger] self@.players[j]).game matches Some(g)
                        ==> self@.is_open(g) && self@.plays_in(self@.players[j].username, g)),
            decreases self.players.players.len() - k,
        {
            let player = &self.players.players[k];
            let ok = match player.game {
                None => true,
                Some(g) => g < self.games.len() && self.games[g].win == State::Open && (same_text(
                    self.games[g].player1.as_str(),
                    player.username.as_str(),
                ) || same_text(self.games[g].player2.as_str(), player.username.as_str())),
            };
            if !ok {
                assert(self@.players[k as int].game is Some);
                return false;
            }
            k = k + 1;
        }
        true
    }

    /// A server without players and without games.
    pub fn new() -> (s: Server)
        ensures
            s.wf(),
            s@.players == Seq::<PlayerView>::empty(),
            s@.games == Seq::<GameView>::empty(),
            s@.router == Seq::<QueueView>::empty(),
    {
        Server { players: Registry::new(), games: Vec::new(), router: Router::new() }
    }
}

} // verus!
