//! A connection's life as the server sees it: the login, which puts a player who was
//! in a game back into it; each line that the player sends, which is told apart as a
//! command and carried out; and the disconnection.

use crate::game::{
    lemma_legal_moves_shrink, lemma_move_tokens, GameView, State, TIC_TAC_TOE_MOVES,
};
use crate::play::resignation_notice;
use crate::registry::{game_of, leaving, lemma_first_named, online_list, Player, PlayerView};
use crate::router::{closed, opened, sent, Channel, QueueView};
use crate::server::{Server, ServerView};
use crate::text::{
    digit_of, digits_value, lemma_texts_push, parsed, same_text, single, starts_with, texts, trim,
    trimmed,
};
use vstd::prelude::*;
use vstd::string::StringExecFns;

verus! {

/// What a connection is greeted with before it has given a name.
pub const BANNER: &'static str = "Welcome to the Tic Tac Toe server\nType a username";

/// What a login hands to the connection.
#[derive(Debug)]
pub struct Session {
    /// The name under which the player is registered.
    pub username: String,
    /// The channel whose messages the connection's forwarding task writes out.
    pub channel: Channel,
    /// What is to be written to the connection at once, in order.
    pub replies: Vec<String>,
}

/// Whether a player named `name` can come back into `g`: the game has no result yet,
/// and one of its players is named so.
pub open spec fn recoverable(g: GameView, name: Seq<char>) -> bool {
    g.win == State::Open && (g.player1 == name || g.player2 == name)
}

/// The game after a player named `name` came back on channel `c`: the channel stands
/// in for that of the first player, where that one is named so, else for that of the
/// second.
pub open spec fn rewired(g: GameView, name: Seq<char>, c: Channel) -> GameView {
    if !recoverable(g, name) {
        g
    } else if g.player1 == name {
        GameView { player1channel: c, ..g }
    } else {
        GameView { player2channel: c, ..g }
    }
}

/// The games after a player named `name` came back on channel `c`.
pub open spec fn recovered(gs: Seq<GameView>, name: Seq<char>, c: Channel) -> Seq<GameView> {
    Seq::new(gs.len(), |i: int| rewired(gs[i], name, c))
}

/// The game that a player named `name` comes back into: the last one that can be
/// come back into.
pub open spec fn recovery(gs: Seq<GameView>, name: Seq<char>) -> Option<usize>
    decreases gs.len(),
{
    if gs.len() == 0 {
        None
    } else if recoverable(gs.last(), name) {
        Some((gs.len() - 1) as usize)
    } else {
        recovery(gs.drop_last(), name)
    }
}

/// How many games a player named `name` comes back into.
pub open spec fn recovery_count(gs: Seq<GameView>, name: Seq<char>) -> nat
    decreases gs.len(),
{
    if gs.len() == 0 {
        0
    } else if recoverable(gs.last(), name) {
        recovery_count(gs.drop_last(), name) + 1
    } else {
        recovery_count(gs.drop_last(), name)
    }
}

/// The queues after the players of every game that a player named `name` came back
/// into on channel `c` were sent an update, game by game.
pub open spec fn recovery_updates(
    gs: Seq<GameView>,
    name: Seq<char>,
    c: Channel,
    r: Seq<QueueView>,
) -> Seq<QueueView>
    decreases gs.len(),
{
    if gs.len() == 0 {
        r
    } else {
        let before = recovery_updates(gs.drop_last(), name, c, r);
        if recoverable(gs.last(), name) {
            rewired(gs.last(), name, c).updated(before)
        } else {
            before
        }
    }
}

/// Whether a player named `name` can come back into no game but game `i`.
pub open spec fn only_recoverable(gs: Seq<GameView>, name: Seq<char>, i: int) -> bool {
    forall|j: int| 0 <= j < gs.len() && j != i ==> !recoverable(#[trigger] gs[j], name)
}

/// The game that a player comes back into exists, has no result yet, and has a
/// player of that name.
pub proof fn lemma_recovery(gs: Seq<GameView>, name: Seq<char>)
    requires
        gs.len() <= usize::MAX,
    ensures
        recovery(gs, name) matches Some(g) ==> g < gs.len() && recoverable(gs[g as int], name),
        recovery(gs, name) is None ==> forall|i: int|
            0 <= i < gs.len() ==> !recoverable(#[trigger] gs[i], name),
    decreases gs.len(),
{
    if gs.len() > 0 && !recoverable(gs.last(), name) {
        lemma_recovery(gs.drop_last(), name);
        if recovery(gs, name) is None {
            assert forall|i: int| 0 <= i < gs.len() implies !recoverable(
                #[trigger] gs[i],
                name,
            ) by {
                if i < gs.len() - 1 {
                    assert(gs.drop_last()[i] == gs[i]);
                }
            }
        }
    }
}

/// Every player who stays after some leave was there before.
pub proof fn lemma_leaving(ps: Seq<PlayerView>, name: Seq<char>)
    ensures
        forall|i: int|
            0 <= i < leaving(ps, name).len() ==> ps.contains(#[trigger] leaving(ps, name)[i])
                && leaving(ps, name)[i].username != name,
    decreases ps.len(),
{
    if ps.len() > 0 {
        let front = ps.drop_last();
        lemma_leaving(front, name);
    }
}

/// Whether `message` is a move: one character, a digit from 1 to 9.
pub open spec fn is_move(message: Seq<char>) -> bool {
    message.len() == 1 && '1' <= message[0] <= '9'
}

impl ServerView {
    /// The state after a connection entered under the name `name`. The connection
    /// gets a new channel; every game without a result that has a player of that name
    /// takes the channel for that player, and its players are sent an update; and the
    /// player is registered, in the last of those games if there is one.
    pub open spec fn entered(self, name: Seq<char>) -> ServerView {
        let channel = Channel { id: self.router.len() as usize };
        ServerView {
            players: self.players.push(
                PlayerView {
                    username: name,
                    game: recovery(self.games, name),
                    challenges: Seq::empty(),
                    channel,
                },
            ),
            games: recovered(self.games, name, channel),
            router: recovery_updates(self.games, name, channel, opened(self.router)),
        }
    }

    /// What a connection that entered under the name `name` is answered: a greeting,
    /// and a note for each game that the player came back into.
    pub open spec fn entry_replies(self, name: Seq<char>) -> Seq<Seq<char>> {
        seq!["Welcome "@ + name + "!"@] + Seq::new(
            recovery_count(self.games, name),
            |i: int| "game successfully recovered"@,
        )
    }

    /// The state after the connection of `username` on `channel` was lost: every
    /// player of that name leaves the registry, and the channel is closed.
    pub open spec fn left(self, username: Seq<char>, channel: Channel) -> ServerView {
        ServerView {
            players: leaving(self.players, username),
            router: closed(self.router, channel),
            ..self
        }
    }

    /// The state after `username` sent the line `message`.
    ///
    /// A player who is in a game resigns with a line that begins with `resign`, moves
    /// with a digit from 1 to 9, and is not heard with anything else. A player who is
    /// in no game gives a command with a line that begins with `online`, `dm `,
    /// `challenge ` or `accept `, and says anything else to everybody.
    pub open spec fn handled(self, username: Seq<char>, message: Seq<char>) -> ServerView {
        match game_of(self.players, username) {
            Some(game) => if "resign"@.is_prefix_of(message) {
                self.resigned(username, game)
            } else if is_move(message) {
                self.moved(username, message, game)
            } else {
                self
            },
            None => if "online"@.is_prefix_of(message) {
                self
            } else if "dm "@.is_prefix_of(message) {
                self.whisper_command(username, message)
            } else if "challenge "@.is_prefix_of(message) {
                self.challenge_command(username, message)
            } else if "accept "@.is_prefix_of(message) {
                self.accept_command(username, message)
            } else {
                self.said(username, message)
            },
        }
    }

    /// What `username` is answered to the line `message`.
    pub open spec fn handle_replies(self, username: Seq<char>, message: Seq<char>) -> Seq<
        Seq<char>,
    > {
        match game_of(self.players, username) {
            Some(game) => if "resign"@.is_prefix_of(message) {
                Seq::empty()
            } else if is_move(message) {
                self.move_replies(message)
            } else {
                Seq::empty()
            },
            None => if "online"@.is_prefix_of(message) {
                online_list(self.players)
            } else if "dm "@.is_prefix_of(message) {
                self.whisper_command_replies(message)
            } else if "challenge "@.is_prefix_of(message) {
                seq![self.challenge_command_reply(message)]
            } else if "accept "@.is_prefix_of(message) {
                self.accept_command_replies(username, message)
            } else {
                Seq::empty()
            },
        }
    }
}

/// Whether `message` is a move: one of `TIC_TAC_TOE_MOVES`.
pub fn is_move_token(message: &str) -> (b: bool)
    ensures
        b == is_move(message@),
{
    let mut i: usize = 0;
    while i < 9
        invariant
            i <= 9,
            forall|j: int| 0 <= j < i ==> (#[trigger] TIC_TAC_TOE_MOVES[j])@ != message@,
        decreases 9 - i,
    {
        if same_text(TIC_TAC_TOE_MOVES[i], message) {
            proof {
                lemma_move_tokens();
            }
            return true;
        }
        i = i + 1;
    }
    proof {
        lemma_move_tokens();
        if is_move(message@) {
            let k = message@[0] as u32 - 49;
            assert(TIC_TAC_TOE_MOVES[k as int]@ =~= message@);
        }
    }
    false
}

impl Server {
    /// A connection logs in with the line `raw` as its name: it enters under the
    /// name that is left of the line without the white space around it.
    pub fn login(&mut self, raw: &str) -> (session: Session)
        requires
            old(self).wf(),
        ensures
            final(self).wf(),
            final(self)@ == old(self)@.entered(trimmed(raw@)),
            session.username@ == trimmed(raw@),
            session.channel.id == old(self)@.router.len(),
            texts(session.replies@) == old(self)@.entry_replies(trimmed(raw@)),
    {
        let username = trim(raw);
        self.enter(username.as_str())
    }

    /// A connection enters under the name `name`.
    ///
    /// A name that matches a player of a game without a result puts the connection
    /// back into that game: the game sends to the new channel from now on.
    pub fn enter(&mut self, name: &str) -> (session: Session)
        requires
            old(self).wf(),
        ensures
            final(self).wf(),
            final(self)@ == old(self)@.entered(name@),
            session.username@ == name@,
            session.channel.id == old(self)@.router.len(),
            texts(session.replies@) == old(self)@.entry_replies(name@),
    {
        let username = String::from_str(name);
        let mut greeting = String::from_str("Welcome ");
        greeting.append(username.as_str());
        greeting.append("!");
        let mut replies = single(greeting);
        let channel = self.router.open();
        let mut game: Option<usize> = None;
        let ghost gs = old(self)@.games;
        let ghost start = self@.router;
        let mut i: usize = 0;
        while i < self.games.len()
            invariant
                i <= self.games.len(),
                self@.players == old(self)@.players,
                self@.games.len() == gs.len(),
                gs == old(self)@.games,
                old(self)@.wf(),
                forall|j: int|
                    0 <= j < i ==> #[trigger] self@.games[j] == rewired(
                        gs[j],
                        username@,
                        channel,
                    ),
                forall|j: int| i <= j < gs.len() ==> #[trigger] self@.games[j] == gs[j],
                self@.router == recovery_updates(gs.take(i as int), username@, channel, start),
                game == recovery(gs.take(i as int), username@),
                replies@.len() == 1 + recovery_count(gs.take(i as int), username@),
                texts(replies@)[0] == "Welcome "@ + username@ + "!"@,
                forall|j: int|
                    1 <= j < replies@.len() ==> #[trigger] texts(replies@)[j]
                        == "game successfully recovered"@,
            decreases self.games.len() - i,
        {
            assert(gs.take(i + 1).drop_last() =~= gs.take(i as int));
            assert(self@.games[i as int] == gs[i as int]);
            let ghost prev = self@.games;
            let first = same_text(self.games[i].player1.as_str(), username.as_str());
            let second = same_text(self.games[i].player2.as_str(), username.as_str());
            if self.games[i].win == State::Open && (first || second) {
                game = Some(i);
                if first {
                    self.games[i].player1channel = channel;
                } else {
                    self.games[i].player2channel = channel;
                }
                let note = String::from_str("game successfully recovered");
                proof {
                    lemma_texts_push(replies@, note);
                }
                replies.push(note);
                self.games[i].send_update(&mut self.router);
            }
            assert forall|j: int| 0 <= j < self@.games.len() && j != i implies (
            #[trigger] self@.games[j]) == prev[j] by {}
            i = i + 1;
        }
        assert(gs.take(i as int) =~= gs);
        assert(self@.games =~= recovered(gs, username@, channel));
        proof {
            lemma_recovery(gs, username@);
        }
        self.players.register(
            Player {
                username: username.clone(),
                game,
                challenges: Vec::new(),
                transmission_channel: channel,
            },
        );
        assert(self@.players =~= old(self)@.entered(name@).players) by {
            assert(self@.players.last().challenges =~= Seq::<Seq<char>>::empty());
        }
        Session { username, channel, replies }
    }

    /// The connection of `username` on `channel` is lost.
    pub fn disconnect(&mut self, username: &str, channel: Channel)
        requires
            old(self).wf(),
        ensures
            final(self).wf(),
            final(self)@ == old(self)@.left(username@, channel),
    {
        self.players.remove(username);
        self.router.close(channel);
        assert(self@.games == old(self)@.games);
        proof {
            lemma_leaving(old(self)@.players, username@);
        }
    }

    /// `username` sends the line `message`. The answers are for the player's
    /// connection.
    pub fn handle_message(&mut self, username: &str, message: &str) -> (replies: Vec<String>)
        requires
            old(self).wf(),
        ensures
            final(self).wf(),
            final(self)@ == old(self)@.handled(username@, message@),
            texts(replies@) == old(self)@.handle_replies(username@, message@),
    {
        let silent: Vec<String> = Vec::new();
        match self.players.is_in_game(username) {
            Some(game) => {
                if starts_with(message, "resign") {
                    self.resign(username, game);
                    silent
                } else if is_move_token(message) {
                    self.play_move(username, message, game)
                } else {
                    silent
                }
            },
            None => {
                if starts_with(message, "online") {
                    self.who_is_online()
                } else if starts_with(message, "dm ") {
                    self.direct_message(username, message)
                } else if starts_with(message, "challenge ") {
                    single(self.challenge(username, message))
                } else if starts_with(message, "accept ") {
                    self.accept(username, message)
                } else {
                    self.global_message(username, message);
                    silent
                }
            },
        }
    }

    /// The game that `username` is in: that of the first player of that name.
    pub fn is_in_game(&self, username: &str) -> (game: Option<usize>)
        ensures
            game == game_of(self@.players, username@),
    {
        self.players.is_in_game(username)
    }
}

/// A line that is a move names a square of the board: the number that its one digit
/// writes. So a player's move always reaches the game, and is never answered as one
/// that names no number.
pub proof fn lemma_move_names_a_square(s: ServerView, username: Seq<char>, message: Seq<char>)
    requires
        is_move(message),
    ensures
        parsed(message) matches Some(square) && 1 <= square <= 9 && square == message[0] as u32
            - 48,
        game_of(s.players, username) is Some && !"resign"@.is_prefix_of(message) ==> {
            &&& s.handled(username, message) == s.played(
                username,
                parsed(message)->0,
                game_of(s.players, username)->0,
            )
            &&& s.handle_replies(username, message) == Seq::<Seq<char>>::empty()
        },
{
    assert(digits_value(message) == digits_value(message.drop_last()) * 10 + digit_of(
        message.last(),
    ));
}

/// A player who is in a game can resign from it, whoever is to move. Let a player who
/// is in game `g` send a line that begins with `resign`. Then `g` is a game of that
/// player and had no result; now its result is `Draw`, and nothing else about it has
/// changed; nobody is in it any more; and its two players, and nobody else, were told
/// who resigned.
pub proof fn lemma_resign_ends_the_game(s: ServerView, username: Seq<char>, message: Seq<char>)
    requires
        s.wf(),
        game_of(s.players, username) is Some,
        "resign"@.is_prefix_of(message),
    ensures
        ({
            let g = game_of(s.players, username)->0;
            let game = s.games[g as int];
            let t = s.handled(username, message);
            &&& s.is_open(g)
            &&& s.plays_in(username, g)
            &&& t.games == s.games.update(g as int, GameView { win: State::Draw, ..game })
            &&& t.players.len() == s.players.len()
            &&& forall|i: int|
                0 <= i < t.players.len() ==> (#[trigger] t.players[i]).game != Some(g)
            &&& t.router == sent(
                sent(s.router, game.player1channel, resignation_notice(username)),
                game.player2channel,
                resignation_notice(username),
            )
            &&& s.handle_replies(username, message) == Seq::<Seq<char>>::empty()
        }),
{
    lemma_first_named(s.players, username);
}

/// Games are never deleted, and a game that has its result never changes again.
/// Whatever line a player sends, every game that was there is still there, between the
/// same two players; one that had its result is as it was; and in one that goes on no
/// square has become legal that was not.
pub proof fn lemma_line_keeps_results(
    s: ServerView,
    username: Seq<char>,
    message: Seq<char>,
    i: int,
    m: usize,
)
    requires
        0 <= i < s.games.len(),
    ensures
        ({
            let before = s.games[i];
            let after = s.handled(username, message).games[i];
            &&& s.handled(username, message).games.len() >= s.games.len()
            &&& after.player1 == before.player1
            &&& after.player2 == before.player2
            &&& before.win != State::Open ==> after == before
            &&& after.legal_moves.contains(m) ==> before.legal_moves.contains(m)
        }),
{
    match game_of(s.players, username) {
        Some(g) => {
            if is_move(message) && !"resign"@.is_prefix_of(message) {
                match parsed(message) {
                    Some(square) => {
                        if s.is_open(g) && s.games[g as int].accepts(username, square) {
                            lemma_legal_moves_shrink(s.games[g as int], square, m);
                        }
                    },
                    None => {},
                }
            }
        },
        None => {},
    }
}

/// Whoever enters, and whoever is lost, the games are the same in number; one that
/// had its result is as it was, and one that goes on differs at most in the channel of
/// the player who came back.
pub proof fn lemma_entry_keeps_games(
    s: ServerView,
    name: Seq<char>,
    username: Seq<char>,
    channel: Channel,
    i: int,
)
    requires
        0 <= i < s.games.len(),
    ensures
        s.left(username, channel).games == s.games,
        s.entered(name).games.len() == s.games.len(),
        s.games[i].win != State::Open ==> s.entered(name).games[i] == s.games[i],
        s.entered(name).games[i] == (GameView {
            player1channel: s.entered(name).games[i].player1channel,
            player2channel: s.entered(name).games[i].player2channel,
            ..s.games[i]
        }),
{
}

/// A player who comes back is put into the game that waits, not into a new one. Let a
/// connection enter under the name of a player of game `i`, which has no result yet.
/// Then no game is added; game `i` sends to the new connection's channel in place of
/// that player's old one, and is otherwise as it was; and the player is registered as
/// being in a game that has a player of that name and no result. Where game `i` is
/// the only such game, the player is in game `i`, and the one thing sent is an update
/// on that game to its two players.
pub proof fn lemma_reconnect(s: ServerView, name: Seq<char>, i: int)
    requires
        s.games.len() <= usize::MAX,
        0 <= i < s.games.len(),
        recoverable(s.games[i], name),
    ensures
        ({
            let t = s.entered(name);
            let channel = Channel { id: s.router.len() as usize };
            let before = s.games[i];
            let after = t.games[i];
            let player = t.players.last();
            &&& t.games.len() == s.games.len()
            &&& after == if before.player1 == name {
                GameView { player1channel: channel, ..before }
            } else {
                GameView { player2channel: channel, ..before }
            }
            &&& t.players == s.players.push(player)
            &&& player.username == name
            &&& player.channel == channel
            &&& player.game matches Some(g) && g < s.games.len() && recoverable(
                s.games[g as int],
                name,
            )
            &&& only_recoverable(s.games, name, i) ==> {
                &&& player.game == Some(i as usize)
                &&& t.router == after.updated(opened(s.router))
            }
        }),
{
    let channel = Channel { id: s.router.len() as usize };
    lemma_recovery(s.games, name);
    if only_recoverable(s.games, name, i) {
        lemma_single_recovery(s.games, name, channel, opened(s.router), i);
    }
}

/// Where one game alone can be come back into, it is the one that is come back into,
/// and the one whose players are sent an update.
proof fn lemma_single_recovery(
    gs: Seq<GameView>,
    name: Seq<char>,
    c: Channel,
    r: Seq<QueueView>,
    i: int,
)
    requires
        gs.len() <= usize::MAX,
        only_recoverable(gs, name, i),
    ensures
        0 <= i < gs.len() && recoverable(gs[i], name) ==> recovery(gs, name) == Some(i as usize)
            && recovery_updates(gs, name, c, r) == rewired(gs[i], name, c).updated(r),
        !(0 <= i < gs.len()) ==> recovery_updates(gs, name, c, r) == r,
    decreases gs.len(),
{
    if gs.len() > 0 {
        let front = gs.drop_last();
        lemma_single_recovery(front, name, c, r, i);
    }
}

} // verus!
