//! Chat: a line to everybody who is not in a game, a private message to one name, and
//! the list of who is online.

use crate::registry::{online_list, PlayerView};
use crate::router::{sent, QueueView};
use crate::server::{Server, ServerView};
use crate::text::{join_from, joined, same_text, single, split_whitespace, texts, words};
use vstd::prelude::*;
use vstd::string::StringExecFns;

verus! {

/// A line of chat as the others read it.
pub open spec fn chat_line(from: Seq<char>, message: Seq<char>) -> Seq<char> {
    from + ": "@ + message
}

/// The queues after `text` was sent to every player who is in no game and is not named
/// `from`, in the order of the registry.
pub open spec fn broadcast(
    ps: Seq<PlayerView>,
    r: Seq<QueueView>,
    from: Seq<char>,
    text: Seq<char>,
) -> Seq<QueueView>
    decreases ps.len(),
{
    if ps.len() == 0 {
        r
    } else {
        let before = broadcast(ps.drop_last(), r, from, text);
        if ps.last().game is None && ps.last().username != from {
            sent(before, ps.last().channel, text)
        } else {
            before
        }
    }
}

/// The queues after `text` was sent to every player named `name`, in the order of the
/// registry.
pub open spec fn sent_to_named(
    ps: Seq<PlayerView>,
    r: Seq<QueueView>,
    name: Seq<char>,
    text: Seq<char>,
) -> Seq<QueueView>
    decreases ps.len(),
{
    if ps.len() == 0 {
        r
    } else {
        let before = sent_to_named(ps.drop_last(), r, name, text);
        if ps.last().username == name {
            sent(before, ps.last().channel, text)
        } else {
            before
        }
    }
}

/// How many players are named `name`.
pub open spec fn count_named(ps: Seq<PlayerView>, name: Seq<char>) -> nat
    decreases ps.len(),
{
    if ps.len() == 0 {
        0
    } else if ps.last().username == name {
        count_named(ps.drop_last(), name) + 1
    } else {
        count_named(ps.drop_last(), name)
    }
}

/// A private message as its receiver reads it.
pub open spec fn private_line(from: Seq<char>, text: Seq<char>) -> Seq<char> {
    "dm from "@ + from + ": "@ + text
}

impl ServerView {
    /// The state after `username` said `message` to everybody.
    pub open spec fn said(self, username: Seq<char>, message: Seq<char>) -> ServerView {
        ServerView {
            router: broadcast(self.players, self.router, username, chat_line(username, message)),
            ..self
        }
    }

    /// The state after `username` sent `text` to `target` in private: it is sent to
    /// every player of that name.
    pub open spec fn whispered(
        self,
        username: Seq<char>,
        target: Seq<char>,
        text: Seq<char>,
    ) -> ServerView {
        ServerView {
            router: sent_to_named(self.players, self.router, target, private_line(username, text)),
            ..self
        }
    }

    /// What somebody who sent a private message to `target` is answered: one
    /// confirmation for each player who got it.
    pub open spec fn whisper_replies(self, target: Seq<char>) -> Seq<Seq<char>> {
        Seq::new(count_named(self.players, target), |i: int| "dm sent to "@ + target)
    }

    /// The state after `username` sent the command `message`, a private message: its
    /// second word names the receiver, and the words after that, with one space
    /// between each two, are the text. A command without a text changes nothing.
    pub open spec fn whisper_command(self, username: Seq<char>, message: Seq<char>) -> ServerView {
        if words(message).len() >= 3 {
            self.whispered(username, words(message)[1], joined(words(message).skip(2), " "@))
        } else {
            self
        }
    }

    /// What the sender of the command `message`, a private message, is answered.
    pub open spec fn whisper_command_replies(self, message: Seq<char>) -> Seq<Seq<char>> {
        if words(message).len() >= 3 {
            self.whisper_replies(words(message)[1])
        } else {
            seq!["use format: dm <user> <message>"@]
        }
    }
}

impl Server {
    /// `username` says `message` to everybody: it is sent to every player who is in no
    /// game, but not to players of the speaker's own name.
    pub fn global_message(&mut self, username: &str, message: &str)
        requires
            old(self).wf(),
        ensures
            final(self).wf(),
            final(self)@ == old(self)@.said(username@, message@),
    {
        let mut line = String::from_str(username);
        line.append(": ");
        line.append(message);
        let ghost ps = self@.players;
        let ghost start = self@.router;
        let mut i: usize = 0;
        while i < self.players.players.len()
            invariant
                i <= self.players.players.len(),
                line@ == chat_line(username@, message@),
                self@.players == ps,
                self@.games == old(self)@.games,
                self@.router == broadcast(ps.take(i as int), start, username@, line@),
            decreases self.players.players.len() - i,
        {
            assert(ps.take(i + 1).drop_last() =~= ps.take(i as int));
            let player = &self.players.players[i];
            if player.game.is_none() && !same_text(player.username.as_str(), username) {
                self.router.send(player.transmission_channel, line.clone());
            }
            i = i + 1;
        }
        assert(ps.take(i as int) =~= ps);
    }

    /// `username` sends `text` to `target` in private: it goes to every player of
    /// that name. The answers are for the sender's connection.
    pub fn send_private(&mut self, username: &str, target: &str, text: &str) -> (replies: Vec<
        String,
    >)
        requires
            old(self).wf(),
        ensures
            final(self).wf(),
            final(self)@ == old(self)@.whispered(username@, target@, text@),
            texts(replies@) == old(self)@.whisper_replies(target@),
    {
        let mut line = String::from_str("dm from ");
        line.append(username);
        line.append(": ");
        line.append(text);
        let mut replies: Vec<String> = Vec::new();
        let ghost ps = self@.players;
        let ghost start = self@.router;
        let mut i: usize = 0;
        while i < self.players.players.len()
            invariant
                i <= self.players.players.len(),
                line@ == private_line(username@, text@),
                self@.players == ps,
                self@.games == old(self)@.games,
                self@.router == sent_to_named(ps.take(i as int), start, target@, line@),
                replies@.len() == count_named(ps.take(i as int), target@),
                forall|j: int|
                    0 <= j < replies@.len() ==> (#[trigger] replies@[j])@ == "dm sent to "@
                        + target@,
            decreases self.players.players.len() - i,
        {
            assert(ps.take(i + 1).drop_last() =~= ps.take(i as int));
            let player = &self.players.players[i];
            if same_text(player.username.as_str(), target) {
                self.router.send(player.transmission_channel, line.clone());
                let mut reply = String::from_str("dm sent to ");
                reply.append(target);
                replies.push(reply);
            }
            i = i + 1;
        }
        assert(ps.take(i as int) =~= ps);
        replies
    }

    /// `username` sends the command `message`, a private message: `dm`, the receiver's
    /// name, and the text. The answers are for the sender's connection.
    pub fn direct_message(&mut self, username: &str, message: &str) -> (replies: Vec<String>)
        requires
            old(self).wf(),
        ensures
            final(self).wf(),
            final(self)@ == old(self)@.whisper_command(username@, message@),
            texts(replies@) == old(self)@.whisper_command_replies(message@),
    {
        let parts = split_whitespace(message);
        if parts.len() < 3 {
            return single(String::from_str("use format: dm <user> <message>"));
        }
        let text = join_from(&parts, 2, " ");
        self.send_private(username, parts[1].as_str(), text.as_str())
    }

    /// The list of who is online, each entry to be written on its own.
    pub fn who_is_online(&self) -> (list: Vec<String>)
        ensures
            texts(list@) == online_list(self@.players),
    {
        self.players.who_is_online()
    }
}

} // verus!
