//! Moves and resignation, as the server takes them from a player who is in a game.
//!
//! Both name the game by its index. An index that names no game, or a game that has
//! its result, is a stale reference: nothing happens.

use crate::game::{GameView, State};
use crate::registry::released;
use crate::router::sent;
use crate::server::{Server, ServerView};
use crate::text::{parse_number, parsed, single, texts};
use vstd::prelude::*;
use vstd::string::StringExecFns;

verus! {

/// What the two players of a game are told when `username` resigns.
pub open spec fn resignation_notice(username: Seq<char>) -> Seq<char> {
    username + " resigned the game\n"@
}

/// What a player is answered whose move does not name a number.
pub open spec fn bad_move_reply(m: Seq<char>) -> Seq<char> {
    "\n"@ + m + " is not a legal move"@
}

impl ServerView {
    /// The state after `username` played square `square` in game `game_index`.
    ///
    /// An accepted move is made and a result looked for; where the game ends with it,
    /// everybody who was in the game is taken out of it. A refused move changes
    /// nothing but the queue of the player who is told.
    pub open spec fn played(
        self,
        username: Seq<char>,
        square: usize,
        game_index: usize,
    ) -> ServerView {
        let game = self.games[game_index as int];
        if !self.is_open(game_index) {
            self
        } else if game.accepts(username, square) {
            let after = game.played(square);
            ServerView {
                players: if after.is_over() {
                    released(self.players, game_index)
                } else {
                    self.players
                },
                games: self.games.update(game_index as int, after.settled()),
                router: after.announced(self.router),
            }
        } else {
            ServerView {
                router: sent(
                    self.router,
                    game.refusal_channel(username),
                    game.refusal_text(username, square),
                ),
                ..self
            }
        }
    }

    /// The state after `username` sent the move `m` for game `game_index`. A move
    /// that names no number changes nothing.
    pub open spec fn moved(
        self,
        username: Seq<char>,
        m: Seq<char>,
        game_index: usize,
    ) -> ServerView {
        match parsed(m) {
            Some(square) => self.played(username, square, game_index),
            None => self,
        }
    }

    /// What the player is answered: nothing, or that the move names no number.
    pub open spec fn move_replies(self, m: Seq<char>) -> Seq<Seq<char>> {
        match parsed(m) {
            Some(square) => Seq::empty(),
            None => seq![bad_move_reply(m)],
        }
    }

    /// The state after `username` resigned from game `game_index`: both players of the
    /// game are told, the first one first; the game is closed, with the result that
    /// stands for a game without a winner; and everybody who was in it is taken out.
    pub open spec fn resigned(self, username: Seq<char>, game_index: usize) -> ServerView {
        if self.is_open(game_index) {
            let game = self.games[game_index as int];
            ServerView {
                players: released(self.players, game_index),
                games: self.games.update(game_index as int, GameView { win: State::Draw, ..game }),
                router: sent(
                    sent(self.router, game.player1channel, resignation_notice(username)),
                    game.player2channel,
                    resignation_notice(username),
                ),
            }
        } else {
            self
        }
    }
}

impl Server {
    /// `username` sends the move `m` for game `game_index`.
    ///
    /// `m` is read as a number. Where it names none, the player is answered so, and
    /// nothing else happens. Else the move is put to the game, which accepts or
    /// refuses it; after an accepted move a result is looked for, and where the game
    /// is over everybody is taken out of it. The answers are for the player's
    /// connection.
    pub fn play_move(&mut self, username: &str, m: &str, game_index: usize) -> (replies: Vec<
        String,
    >)
        requires
            old(self).wf(),
        ensures
            final(self).wf(),
            final(self)@ == old(self)@.moved(username@, m@, game_index),
            texts(replies@) == old(self)@.move_replies(m@),
    {
        let square = match parse_number(m) {
            Some(square) => square,
            None => {
                let mut reply = String::from_str("\n");
                reply.append(m);
                reply.append(" is not a legal move");
                return single(reply);
            },
        };
        let replies: Vec<String> = Vec::new();
        if game_index >= self.games.len() || self.games[game_index].win != State::Open {
            return replies;
        }
        let ghost game = self@.games[game_index as int];
        let ok = self.games[game_index].play_move(username, square, &mut self.router);
        if !ok {
            assert(self@.games =~= old(self)@.games);
            return replies;
        }
        let over = self.games[game_index].check_for_result(&mut self.router);
        assert(self@.games =~= old(self)@.games.update(
            game_index as int,
            game.played(square).settled(),
        ));
        if over {
            self.players.release(game_index);
        }
        replies
    }

    /// `username` resigns from game `game_index`.
    ///
    /// Where the game exists and has no result yet, it is closed with the result
    /// `Draw`, both its players are told, and nobody is in it any more.
    pub fn resign(&mut self, username: &str, game_index: usize)
        requires
            old(self).wf(),
        ensures
            final(self).wf(),
            final(self)@ == old(self)@.resigned(username@, game_index),
            old(self)@.is_open(game_index) ==> final(self)@.games[game_index as int].win
                == State::Draw && forall|i: int|
                0 <= i < final(self)@.players.len() ==> (#[trigger] final(self)@.players[i]).game
                    != Some(game_index),
    {
        if game_index >= self.games.len() || self.games[game_index].win != State::Open {
            return ;
        }
        let mut notice = String::from_str(username);
        notice.append(" resigned the game\n");
        let game = &mut self.games[game_index];
        self.router.send(game.player1channel, notice.clone());
        self.router.send(game.player2channel, notice);
        game.win = State::Draw;
        assert(self@.games =~= old(self)@.games.update(
            game_index as int,
            GameView { win: State::Draw, ..old(self)@.games[game_index as int] },
        ));
        self.players.release(game_index);
    }
}

} // verus!
