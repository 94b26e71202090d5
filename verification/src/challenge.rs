//! The handshake that begins a game: one player challenges another, who accepts.

use crate::game::{fresh, Game, GameView};
use crate::list::lemma_without;
use crate::registry::{
    all_hold, assigned, challenged_by, first_named, last_named, lemma_first_named, named,
    unchallenged, PlayerView,
};
use crate::router::sent;
use crate::server::{Server, ServerView};
use crate::text::{same_text, single, split_whitespace, texts, words};
use vstd::prelude::*;
use vstd::string::StringExecFns;

verus! {

/// Whether a challenge to `target` reaches a player: somebody is named so, and the
/// first player of that name is in no game.
pub open spec fn reachable(ps: Seq<PlayerView>, target: Seq<char>) -> bool {
    first_named(ps, target) < ps.len() && ps[first_named(ps, target)].game is None
}

/// What a challenged player is told.
pub open spec fn challenge_notice(from: Seq<char>) -> Seq<char> {
    "challenge from "@ + from + "\nType: accept "@ + from + " to play"@
}

/// Whether `acceptor` can accept a challenge of `initiator`: the two names differ,
/// both are registered, and every player named `acceptor` holds a challenge from
/// `initiator`.
pub open spec fn can_accept(
    ps: Seq<PlayerView>,
    acceptor: Seq<char>,
    initiator: Seq<char>,
) -> bool {
    &&& acceptor != initiator
    &&& named(ps, acceptor)
    &&& named(ps, initiator)
    &&& all_hold(ps, acceptor, initiator)
}

/// What a challenger is told when the challenge was accepted.
pub open spec fn acceptance_notice(acceptor: Seq<char>) -> Seq<char> {
    acceptor + " has accepted your challange"@
}

/// The players after `acceptor` accepted the challenge of `initiator` and game
/// `game_index` began: every player of either name is in that game, and the players
/// named `acceptor` no longer hold the challenge of `initiator`.
pub open spec fn paired(
    ps: Seq<PlayerView>,
    acceptor: Seq<char>,
    initiator: Seq<char>,
    game_index: usize,
) -> Seq<PlayerView> {
    unchallenged(
        assigned(assigned(ps, acceptor, Some(game_index)), initiator, Some(game_index)),
        acceptor,
        initiator,
    )
}

impl ServerView {
    /// The state after `challenger` challenged `target`: where the challenge reaches a
    /// player, that player holds it and is told.
    pub open spec fn challenged(self, challenger: Seq<char>, target: Seq<char>) -> ServerView {
        if reachable(self.players, target) {
            ServerView {
                players: challenged_by(self.players, target, challenger),
                router: sent(
                    self.router,
                    self.players[first_named(self.players, target)].channel,
                    challenge_notice(challenger),
                ),
                ..self
            }
        } else {
            self
        }
    }

    /// What somebody who challenged `target` is answered.
    pub open spec fn challenge_reply(self, target: Seq<char>) -> Seq<char> {
        if !named(self.players, target) {
            target + " is not online, try again later... \n"@
        } else if !reachable(self.players, target) {
            target + " is in a game, try again later... \n"@
        } else {
            "challenge sent to "@ + target
        }
    }

    /// The state after `username` sent the command `message`, a challenge. A command
    /// that does not name one player changes nothing.
    pub open spec fn challenge_command(
        self,
        username: Seq<char>,
        message: Seq<char>,
    ) -> ServerView {
        if words(message).len() == 2 {
            self.challenged(username, words(message)[1])
        } else {
            self
        }
    }

    /// What the sender of the command `message`, a challenge, is answered.
    pub open spec fn challenge_command_reply(self, message: Seq<char>) -> Seq<char> {
        if words(message).len() == 2 {
            self.challenge_reply(words(message)[1])
        } else {
            "use format: challenge <user>"@
        }
    }

    /// The game that begins where `acceptor` accepts the challenge of `initiator`: the
    /// challenger is the first player. Of several players of one name the last one's
    /// channel is taken.
    pub open spec fn begun(self, acceptor: Seq<char>, initiator: Seq<char>) -> GameView {
        fresh(
            initiator,
            acceptor,
            self.players[last_named(self.players, initiator)].channel,
            self.players[last_named(self.players, acceptor)].channel,
        )
    }

    /// The state after `acceptor` accepted the challenge of `initiator`. Where the
    /// acceptance can be made, one game begins behind the games that exist, the first
    /// player named `initiator` is told, both players are sent the opening board, and
    /// the players are paired. Where it cannot, nothing changes.
    pub open spec fn accepted(self, acceptor: Seq<char>, initiator: Seq<char>) -> ServerView {
        if can_accept(self.players, acceptor, initiator) {
            let game = self.begun(acceptor, initiator);
            ServerView {
                players: paired(self.players, acceptor, initiator, self.games.len() as usize),
                games: self.games.push(game),
                router: game.updated(
                    sent(
                        self.router,
                        self.players[first_named(self.players, initiator)].channel,
                        acceptance_notice(acceptor),
                    ),
                ),
            }
        } else {
            self
        }
    }

    /// What somebody who accepted the challenge of `initiator` is answered: a
    /// confirmation, or nothing where the acceptance cannot be made.
    pub open spec fn accept_replies(self, acceptor: Seq<char>, initiator: Seq<char>) -> Seq<
        Seq<char>,
    > {
        if can_accept(self.players, acceptor, initiator) {
            seq!["accepted challege with "@ + initiator + "\n"@]
        } else {
            Seq::empty()
        }
    }

    /// The state after `username` sent the command `message`, an acceptance. A
    /// command that does not name one player changes nothing.
    pub open spec fn accept_command(self, username: Seq<char>, message: Seq<char>) -> ServerView {
        if words(message).len() == 2 {
            self.accepted(username, words(message)[1])
        } else {
            self
        }
    }

    /// What the sender of the command `message`, an acceptance, is answered.
    pub open spec fn accept_command_replies(self, username: Seq<char>, message: Seq<char>) -> Seq<
        Seq<char>,
    > {
        if words(message).len() == 2 {
            self.accept_replies(username, words(message)[1])
        } else {
            seq!["use format: accept <user>"@]
        }
    }
}

impl Server {
    /// `username` challenges `target`.
    ///
    /// The challenge goes to the first player named `target`, if that player is in no
    /// game: the player holds it from then on, and is told. The answer is for the
    /// challenger's connection.
    pub fn challenge_player(&mut self, username: &str, target: &str) -> (reply: String)
        requires
            old(self).wf(),
        ensures
            final(self).wf(),
            final(self)@ == old(self)@.challenged(username@, target@),
            reply@ == old(self)@.challenge_reply(target@),
    {
        let mut reply = String::new();
        match self.players.lookup(target) {
            None => {
                reply.append(target);
                reply.append(" is not online, try again later... \n");
            },
            Some(i) => {
                if self.players.players[i].game.is_some() {
                    reply.append(target);
                    reply.append(" is in a game, try again later... \n");
                } else {
                    let mut notice = String::from_str("challenge from ");
                    notice.append(username);
                    notice.append("\nType: accept ");
                    notice.append(username);
                    notice.append(" to play");
                    self.router.send(self.players.players[i].transmission_channel, notice);
                    self.players.add_pending_challenge(target, username);
                    reply.append("challenge sent to ");
                    reply.append(target);
                }
            },
        }
        reply
    }

    /// `username` sends the command `message`, a challenge: `challenge` and the name
    /// of the player who is challenged. The answer is for the challenger's connection.
    pub fn challenge(&mut self, username: &str, message: &str) -> (reply: String)
        requires
            old(self).wf(),
        ensures
            final(self).wf(),
            final(self)@ == old(self)@.challenge_command(username@, message@),
            reply@ == old(self)@.challenge_command_reply(message@),
    {
        let parts = split_whitespace(message);
        if parts.len() != 2 {
            return String::from_str("use format: challenge <user>");
        }
        self.challenge_player(username, parts[1].as_str())
    }

    /// `username` accepts the challenge of `initiator`.
    ///
    /// The acceptance can be made where the two names differ, both are registered, and
    /// every player named `username` holds a challenge from `initiator`. Then a game
    /// begins in which `initiator` is the first player. An acceptance that cannot be
    /// made changes nothing: no game begins, and nobody's game or challenges change.
    /// The answers are for the acceptor's connection.
    pub fn accept_challenge(&mut self, username: &str, initiator: &str) -> (replies: Vec<String>)
        requires
            old(self).wf(),
        ensures
            final(self).wf(),
            final(self)@ == old(self)@.accepted(username@, initiator@),
            texts(replies@) == old(self)@.accept_replies(username@, initiator@),
            !can_accept(old(self)@.players, username@, initiator@) ==> final(self)@ == old(self)@
                && replies@.len() == 0,
    {
        if same_text(username, initiator) || !self.players.all_hold(username, initiator) {
            let none: Vec<String> = Vec::new();
            return none;
        }
        let (channel1, channel2, first) = match (
            self.players.last_channel(initiator),
            self.players.last_channel(username),
            self.players.lookup(initiator),
        ) {
            (Some(channel1), Some(channel2), Some(first)) => (channel1, channel2, first),
            _ => {
                let none: Vec<String> = Vec::new();
                return none;
            },
        };
        let mut notice = String::from_str(username);
        notice.append(" has accepted your challange");
        self.router.send(self.players.players[first].transmission_channel, notice);
        let index = self.games.len();
        let game = Game::new(
            String::from_str(initiator),
            String::from_str(username),
            channel1,
            channel2,
        );
        game.send_update(&mut self.router);
        self.games.push(game);
        assert(self@.games =~= old(self)@.games.push(game@));
        self.players.set_game(username, Some(index));
        self.players.set_game(initiator, Some(index));
        self.players.clear_pending_challenge(username, initiator);
        let mut reply = String::from_str("accepted challege with ");
        reply.append(initiator);
        reply.append("\n");
        single(reply)
    }

    /// `username` sends the command `message`, an acceptance: `accept` and the name of
    /// the challenger. The answers are for the acceptor's connection.
    pub fn accept(&mut self, username: &str, message: &str) -> (replies: Vec<String>)
        requires
            old(self).wf(),
        ensures
            final(self).wf(),
            final(self)@ == old(self)@.accept_command(username@, message@),
            texts(replies@) == old(self)@.accept_command_replies(username@, message@),
    {
        let parts = split_whitespace(message);
        if parts.len() != 2 {
            return single(String::from_str("use format: accept <user>"));
        }
        self.accept_challenge(username, parts[1].as_str())
    }
}

/// A challenge makes its acceptance possible: where `a` and `b` are different names,
/// `a` is registered, the challenge of `a` reaches a player named `b`, and no other
/// player is named `b`, then after the challenge `b` can accept.
pub proof fn lemma_challenge_enables_accept(s: ServerView, a: Seq<char>, b: Seq<char>)
    requires
        a != b,
        named(s.players, a),
        reachable(s.players, b),
        forall|i: int|
            0 <= i < s.players.len() && (#[trigger] s.players[i]).username == b ==> i
                == first_named(s.players, b),
    ensures
        can_accept(s.challenged(a, b).players, b, a),
{
    let ps = s.players;
    let k = first_named(ps, b);
    let qs = s.challenged(a, b).players;
    lemma_first_named(ps, b);
    assert(qs[k].challenges[ps[k].challenges.len() as int] == a);
    let w = choose|i: int| 0 <= i < ps.len() && (#[trigger] ps[i]).username == a;
    assert(qs[w].username == a);
}

/// A challenge and its acceptance begin exactly one game. Let `a` challenge `b`, and
/// let `b` then accept the challenge of `a`, at a time when that acceptance can be
/// made. Then one game is added behind the games that were there, which stay as they
/// were: a fresh game in which `a` is the first player and `b` the second. Every
/// player named `a` or `b` is in that game, and nobody else's game changes. The
/// players named `b` no longer hold a challenge from `a`, and hold a challenge from
/// anybody else just where they held one before; everybody else's challenges are as
/// they were.
pub proof fn lemma_challenge_then_accept(s: ServerView, a: Seq<char>, b: Seq<char>)
    requires
        s.games.len() <= usize::MAX,
        can_accept(s.challenged(a, b).players, b, a),
    ensures
        ({
            let t = s.challenged(a, b).accepted(b, a);
            let n = s.games.len() as int;
            &&& t.games.len() == n + 1
            &&& forall|i: int| 0 <= i < n ==> #[trigger] t.games[i] == s.games[i]
            &&& t.games[n] == fresh(a, b, t.games[n].player1channel, t.games[n].player2channel)
            &&& t.games[n].player1 == a
            &&& t.games[n].player2 == b
            &&& t.players.len() == s.players.len()
            &&& forall|i: int|
                0 <= i < s.players.len() ==> {
                    let before = #[trigger] s.players[i];
                    let after = t.players[i];
                    &&& after.username == before.username
                    &&& after.channel == before.channel
                    &&& after.game == if before.username == a || before.username == b {
                        Some(n as usize)
                    } else {
                        before.game
                    }
                    &&& before.username == b ==> !after.challenges.contains(a)
                    &&& before.username == b ==> forall|other: Seq<char>|
                        other != a ==> (#[trigger] after.challenges.contains(other)
                            <==> before.challenges.contains(other))
                    &&& before.username != b ==> after.challenges == before.challenges
                }
        }),
{
    let ps = s.players;
    let mid = s.challenged(a, b);
    let qs = mid.players;
    let t = mid.accepted(b, a);
    let n = s.games.len() as int;
    lemma_first_named(ps, b);
    assert forall|i: int| 0 <= i < ps.len() implies {
        let before = #[trigger] ps[i];
        let after = t.players[i];
        &&& after.username == before.username
        &&& after.channel == before.channel
        &&& after.game == if before.username == a || before.username == b {
            Some(n as usize)
        } else {
            before.game
        }
        &&& before.username == b ==> !after.challenges.contains(a)
        &&& before.username == b ==> forall|other: Seq<char>|
            other != a ==> (#[trigger] after.challenges.contains(other)
                <==> before.challenges.contains(other))
        &&& before.username != b ==> after.challenges == before.challenges
    } by {
        let before = ps[i];
        let between = qs[i];
        let after = t.players[i];
        if before.username == b {
            lemma_without(between.challenges, a);
            assert forall|other: Seq<char>| other != a implies (
            #[trigger] after.challenges.contains(other) <==> before.challenges.contains(other)) by {
                if between.challenges != before.challenges {
                    let held = before.challenges;
                    if held.contains(other) {
                        let j = choose|j: int| 0 <= j < held.len() && held[j] == other;
                        assert(held.push(a)[j] == other);
                    }
                }
            }
        }
    }
}

} // verus!
