//! The player registry: who is connected, under which name, in which game, challenged
//! by whom, and reached through which channel.
//!
//! Names are not checked to be unique: two connections may register the same name. Every
//! operation that goes by name says which of several players of that name it means.

use crate::list::{has_text, remove_text, without};
use crate::router::Channel;
use crate::text::{lemma_texts_push, same_text, texts};
use vstd::prelude::*;
use vstd::string::StringExecFns;

verus! {

/// One logged-in connection.
#[derive(Debug)]
pub struct Player {
    pub username: String,
    /// The index of the game that the player is in, if any.
    pub game: Option<usize>,
    /// The names of those who have challenged the player and were not yet accepted.
    pub challenges: Vec<String>,
    pub transmission_channel: Channel,
}

/// A player as contracts see one.
pub struct PlayerView {
    pub username: Seq<char>,
    pub game: Option<usize>,
    pub challenges: Seq<Seq<char>>,
    pub channel: Channel,
}

impl View for Player {
    type V = PlayerView;

    open spec fn view(&self) -> PlayerView {
        PlayerView {
            username: self.username@,
            game: self.game,
            challenges: texts(self.challenges@),
            channel: self.transmission_channel,
        }
    }
}

/// The connected players, in the order in which they registered.
#[derive(Debug)]
pub struct Registry {
    pub players: Vec<Player>,
}

impl View for Registry {
    type V = Seq<PlayerView>;

    open spec fn view(&self) -> Seq<PlayerView> {
        Seq::new(self.players@.len(), |i: int| self.players@[i]@)
    }
}

/// Whether a player named `name` is registered.
pub open spec fn named(ps: Seq<PlayerView>, name: Seq<char>) -> bool {
    exists|i: int| 0 <= i < ps.len() && (#[trigger] ps[i]).username == name
}

/// The place of the first player named `name`; the number of players where there is
/// none.
pub open spec fn first_named(ps: Seq<PlayerView>, name: Seq<char>) -> int
    decreases ps.len(),
{
    if ps.len() == 0 {
        0
    } else if ps[0].username == name {
        0
    } else {
        1 + first_named(ps.drop_first(), name)
    }
}

/// The place of the last player named `name`; -1 where there is none.
pub open spec fn last_named(ps: Seq<PlayerView>, name: Seq<char>) -> int
    decreases ps.len(),
{
    if ps.len() == 0 {
        -1
    } else if ps.last().username == name {
        ps.len() - 1
    } else {
        last_named(ps.drop_last(), name)
    }
}

/// The game that `name` is in: that of the first player of that name.
pub open spec fn game_of(ps: Seq<PlayerView>, name: Seq<char>) -> Option<usize> {
    if first_named(ps, name) < ps.len() {
        ps[first_named(ps, name)].game
    } else {
        None
    }
}

/// The players without those named `name`.
pub open spec fn leaving(ps: Seq<PlayerView>, name: Seq<char>) -> Seq<PlayerView>
    decreases ps.len(),
{
    if ps.len() == 0 {
        ps
    } else if ps.last().username == name {
        leaving(ps.drop_last(), name)
    } else {
        leaving(ps.drop_last(), name).push(ps.last())
    }
}

/// The players after every player named `name` was put into `game`.
pub open spec fn assigned(ps: Seq<PlayerView>, name: Seq<char>, game: Option<usize>) -> Seq<
    PlayerView,
> {
    Seq::new(
        ps.len(),
        |i: int|
            if ps[i].username == name {
                PlayerView { game, ..ps[i] }
            } else {
                ps[i]
            },
    )
}

/// The players after everyone in game `game_index` was taken out of it.
pub open spec fn released(ps: Seq<PlayerView>, game_index: usize) -> Seq<PlayerView> {
    Seq::new(
        ps.len(),
        |i: int|
            if ps[i].game == Some(game_index) {
                PlayerView { game: None, ..ps[i] }
            } else {
                ps[i]
            },
    )
}

/// The players after the first player named `target`, if there is one, was challenged
/// by `challenger`.
pub open spec fn challenged_by(
    ps: Seq<PlayerView>,
    target: Seq<char>,
    challenger: Seq<char>,
) -> Seq<PlayerView> {
    let k = first_named(ps, target);
    if k < ps.len() {
        ps.update(k, PlayerView { challenges: ps[k].challenges.push(challenger), ..ps[k] })
    } else {
        ps
    }
}

/// The players after the challenge of `challenger` was cleared from every player named
/// `target`. Their other challenges stay, and so do those of everyone else.
pub open spec fn unchallenged(
    ps: Seq<PlayerView>,
    target: Seq<char>,
    challenger: Seq<char>,
) -> Seq<PlayerView> {
    Seq::new(
        ps.len(),
        |i: int|
            if ps[i].username == target {
                PlayerView { challenges: without(ps[i].challenges, challenger), ..ps[i] }
            } else {
                ps[i]
            },
    )
}

/// Whether every player named `name` holds a challenge from `challenger`.
pub open spec fn all_hold(ps: Seq<PlayerView>, name: Seq<char>, challenger: Seq<char>) -> bool {
    forall|i: int|
        0 <= i < ps.len() && (#[trigger] ps[i]).username == name ==> ps[i].challenges.contains(
            challenger,
        )
}

/// The list of who is online: a heading, then each player's name, in order.
pub open spec fn online_list(ps: Seq<PlayerView>) -> Seq<Seq<char>> {
    seq!["Online players:\n"@] + Seq::new(ps.len(), |i: int| ps[i].username + "  "@)
}

/// The first player of a name is of that name, and nobody before is.
pub proof fn lemma_first_named(ps: Seq<PlayerView>, name: Seq<char>)
    ensures
        0 <= first_named(ps, name) <= ps.len(),
        first_named(ps, name) < ps.len() ==> ps[first_named(ps, name)].username == name,
        forall|j: int| 0 <= j < first_named(ps, name) ==> (#[trigger] ps[j]).username != name,
        named(ps, name) <==> first_named(ps, name) < ps.len(),
    decreases ps.len(),
{
    if ps.len() > 0 && ps[0].username != name {
        let rest = ps.drop_first();
        lemma_first_named(rest, name);
        let k = first_named(rest, name);
        assert forall|j: int| 0 <= j < k + 1 implies (#[trigger] ps[j]).username != name by {
            if j > 0 {
                assert(rest[j - 1] == ps[j]);
            }
        }
    }
}

/// The last player of a name is of that name, and nobody after is.
pub proof fn lemma_last_named(ps: Seq<PlayerView>, name: Seq<char>)
    ensures
        -1 <= last_named(ps, name) < ps.len(),
        last_named(ps, name) >= 0 ==> ps[last_named(ps, name)].username == name,
        forall|j: int|
            last_named(ps, name) < j < ps.len() ==> (#[trigger] ps[j]).username != name,
        named(ps, name) <==> last_named(ps, name) >= 0,
    decreases ps.len(),
{
    if ps.len() > 0 && ps.last().username != name {
        let front = ps.drop_last();
        lemma_last_named(front, name);
        let k = last_named(front, name);
        assert forall|j: int| k < j < ps.len() implies (#[trigger] ps[j]).username != name by {
            if j < front.len() {
                assert(front[j] == ps[j]);
            }
        }
    }
}

impl Registry {
    /// A registry without players.
    pub fn new() -> (r: Registry)
        ensures
            r@ == Seq::<PlayerView>::empty(),
    {
        Registry { players: Vec::new() }
    }

    /// Registers `player` behind those who are registered.
    pub fn register(&mut self, player: Player)
        ensures
            final(self)@ == old(self)@.push(player@),
    {
        self.players.push(player);
    }

    /// The place of the first player named `username`, if there is one.
    pub fn lookup(&self, username: &str) -> (found: Option<usize>)
        ensures
            found is Some <==> named(self@, username@),
            found is Some ==> found->0 == first_named(self@, username@) && found->0
                < self.players.len(),
            found is None ==> first_named(self@, username@) == self@.len(),
    {
        let mut i: usize = 0;
        while i < self.players.len()
            invariant
                i <= self.players.len(),
                forall|j: int| 0 <= j < i ==> (#[trigger] self@[j]).username != username@,
            decreases self.players.len() - i,
        {
            if same_text(self.players[i].username.as_str(), username) {
                proof {
                    assert(self@[i as int].username == username@);
                    lemma_first_named(self@, username@);
                }
                return Some(i);
            }
            i = i + 1;
        }
        proof {
            lemma_first_named(self@, username@);
        }
        None
    }

    /// The game that `username` is in: that of the first player of that name.
    pub fn is_in_game(&self, username: &str) -> (game: Option<usize>)
        ensures
            game == game_of(self@, username@),
    {
        match self.lookup(username) {
            Some(i) => self.players[i].game,
            None => None,
        }
    }

    /// The channel of the last player named `username`, if there is one.
    pub fn last_channel(&self, username: &str) -> (found: Option<Channel>)
        ensures
            found is Some <==> named(self@, username@),
            found is Some ==> found->0 == self@[last_named(self@, username@)].channel,
    {
        let mut i: usize = self.players.len();
        while i > 0
            invariant
                i <= self.players.len(),
                forall|j: int|
                    i <= j < self.players.len() ==> (#[trigger] self@[j]).username != username@,
            decreases i,
        {
            i = i - 1;
            if same_text(self.players[i].username.as_str(), username) {
                proof {
                    assert(self@[i as int].username == username@);
                    lemma_last_named(self@, username@);
                }
                return Some(self.players[i].transmission_channel);
            }
        }
        None
    }

    /// Whether every player named `username` holds a challenge from `challenger`.
    pub fn all_hold(&self, username: &str, challenger: &str) -> (b: bool)
        ensures
            b == all_hold(self@, username@, challenger@),
    {
        let mut i: usize = 0;
        while i < self.players.len()
            invariant
                i <= self.players.len(),
                forall|j: int|
                    0 <= j < i && (#[trigger] self@[j]).username == username@
                        ==> self@[j].challenges.contains(challenger@),
            decreases self.players.len() - i,
        {
            if same_text(self.players[i].username.as_str(), username) && !has_text(
                &self.players[i].challenges,
                challenger,
            ) {
                assert(self@[i as int].username == username@);
                return false;
            }
            i = i + 1;
        }
        true
    }

    /// Takes every player named `username` out of the registry.
    pub fn remove(&mut self, username: &str)
        ensures
            final(self)@ == leaving(old(self)@, username@),
    {
        let ghost all = self@;
        let ghost mut k: int = 0;
        let mut i: usize = 0;
        while i < self.players.len()
            invariant
                0 <= k <= all.len(),
                i == leaving(all.take(k), username@).len(),
                self.players.len() == i + (all.len() - k),
                self@ == leaving(all.take(k), username@) + all.skip(k),
            decreases all.len() - k,
        {
            let ghost kept = leaving(all.take(k), username@);
            assert(all.take(k + 1).drop_last() =~= all.take(k));
            assert(self@[i as int] == all.skip(k)[0]);
            let ghost prev = self@;
            if same_text(self.players[i].username.as_str(), username) {
                self.players.remove(i);
                assert(prev.remove(i as int) =~= kept + all.skip(k + 1));
            } else {
                i = i + 1;
            }
            proof {
                k = k + 1;
            }
        }
        assert(all.take(k) =~= all);
    }

    /// Puts every player named `username` into `game`.
    pub fn set_game(&mut self, username: &str, game: Option<usize>)
        ensures
            final(self)@ == assigned(old(self)@, username@, game),
    {
        let mut i: usize = 0;
        while i < self.players.len()
            invariant
                i <= self.players.len(),
                self@.len() == old(self)@.len(),
                forall|j: int|
                    0 <= j < i ==> #[trigger] self@[j] == assigned(old(self)@, username@, game)[j],
                forall|j: int| i <= j < self@.len() ==> #[trigger] self@[j] == old(self)@[j],
            decreases self.players.len() - i,
        {
            let ghost prev = self@;
            if same_text(self.players[i].username.as_str(), username) {
                self.players[i].game = game;
            }
            assert forall|j: int| 0 <= j < self@.len() && j != i implies #[trigger] self@[j]
                == prev[j] by {}
            assert(self@[i as int] == assigned(old(self)@, username@, game)[i as int]) by {
                assert(prev[i as int] == old(self)@[i as int]);
            }
            i = i + 1;
        }
    }

    /// Takes everyone who is in game `game_index` out of it.
    pub fn release(&mut self, game_index: usize)
        ensures
            final(self)@ == released(old(self)@, game_index),
    {
        let mut i: usize = 0;
        while i < self.players.len()
            invariant
                i <= self.players.len(),
                self@.len() == old(self)@.len(),
                forall|j: int|
                    0 <= j < i ==> #[trigger] self@[j] == released(old(self)@, game_index)[j],
                forall|j: int| i <= j < self@.len() ==> #[trigger] self@[j] == old(self)@[j],
            decreases self.players.len() - i,
        {
            let here = match self.players[i].game {
                Some(g) => g == game_index,
                None => false,
            };
            let ghost prev = self@;
            if here {
                self.players[i].game = None;
            }
            assert forall|j: int| 0 <= j < self@.len() && j != i implies #[trigger] self@[j]
                == prev[j] by {}
            assert(self@[i as int] == released(old(self)@, game_index)[i as int]) by {
                assert(prev[i as int] == old(self)@[i as int]);
            }
            i = i + 1;
        }
    }

    /// Notes that `challenger` has challenged the first player named `target`.
    /// Nothing changes where nobody is named so.
    pub fn add_pending_challenge(&mut self, target: &str, challenger: &str)
        ensures
            final(self)@ == challenged_by(old(self)@, target@, challenger@),
    {
        match self.lookup(target) {
            Some(i) => {
                self.players[i].challenges.push(String::from_str(challenger));
                assert(self@ =~= challenged_by(old(self)@, target@, challenger@)) by {
                    assert(self@[i as int].challenges =~= old(self)@[i as int].challenges.push(
                        challenger@,
                    ));
                }
            },
            None => {},
        }
    }

    /// Clears the challenge of `challenger` from every player named `target`.
    pub fn clear_pending_challenge(&mut self, target: &str, challenger: &str)
        ensures
            final(self)@ == unchallenged(old(self)@, target@, challenger@),
    {
        let mut i: usize = 0;
        while i < self.players.len()
            invariant
                i <= self.players.len(),
                self@.len() == old(self)@.len(),
                forall|j: int|
                    0 <= j < i ==> #[trigger] self@[j] == unchallenged(
                        old(self)@,
                        target@,
                        challenger@,
                    )[j],
                forall|j: int| i <= j < self@.len() ==> #[trigger] self@[j] == old(self)@[j],
            decreases self.players.len() - i,
        {
            let ghost prev = self@;
            if same_text(self.players[i].username.as_str(), target) {
                remove_text(&mut self.players[i].challenges, challenger);
            }
            assert forall|j: int| 0 <= j < self@.len() && j != i implies #[trigger] self@[j]
                == prev[j] by {}
            assert(self@[i as int] == unchallenged(old(self)@, target@, challenger@)[i as int])
                by {
                assert(prev[i as int] == old(self)@[i as int]);
            }
            i = i + 1;
        }
    }

    /// The list of who is online, each entry to be written on its own.
    pub fn who_is_online(&self) -> (list: Vec<String>)
        ensures
            texts(list@) == online_list(self@),
    {
        let mut list: Vec<String> = Vec::new();
        list.push(String::from_str("Online players:\n"));
        let mut i: usize = 0;
        while i < self.players.len()
            invariant
                i <= self.players.len(),
                list@.len() == i + 1,
                forall|j: int|
                    0 <= j < i + 1 ==> #[trigger] texts(list@)[j] == online_list(self@)[j],
            decreases self.players.len() - i,
        {
            let mut entry = self.players[i].username.clone();
            entry.append("  ");
            proof {
                lemma_texts_push(list@, entry);
            }
            list.push(entry);
            i = i + 1;
        }
        list
    }
}

} // verus!
