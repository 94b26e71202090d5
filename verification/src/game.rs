//! The tic-tac-toe engine: one match between two named players.
//!
//! Squares are numbered 1 to 9, row by row. The first player moves first and plays X,
//! the second plays O. A game is never deleted; it only comes to a result.

use crate::list::{has_number, lemma_without, remove_number, without};
use crate::router::{sent, Channel, QueueView, Router};
use crate::text::{decimal, decimal_text, digit_char, same_text};
use vstd::prelude::*;
use vstd::string::StringExecFns;

verus! {

/// The lines that are moves.
pub const TIC_TAC_TOE_MOVES: [&'static str; 9] = ["1", "2", "3", "4", "5", "6", "7", "8", "9"];

/// The lines that are moves are the nine digits from 1 to 9, each on its own.
pub proof fn lemma_move_tokens()
    ensures
        forall|i: int|
            0 <= i < 9 ==> (#[trigger] TIC_TAC_TOE_MOVES[i])@ == seq![digit_char((i + 1) as nat)],
{
    reveal_strlit("1");
    reveal_strlit("2");
    reveal_strlit("3");
    reveal_strlit("4");
    reveal_strlit("5");
    reveal_strlit("6");
    reveal_strlit("7");
    reveal_strlit("8");
    reveal_strlit("9");
}

/// What a square holds, and how a game stands.
///
/// A square is `Open`, `X` or `O`. A result is `Open` while the game goes on, `X` or `O`
/// once that side has won, and `Draw` once the game is closed without a winner.
#[derive(Copy, Clone, Debug, PartialEq, Eq, Structural)]
pub enum State {
    Open,
    X,
    O,
    Draw,
}

/// How a state is written on a rendered board.
pub open spec fn symbol_text(s: State) -> Seq<char> {
    match s {
        State::Open => "_"@,
        State::X => "X"@,
        State::O => "O"@,
        State::Draw => "Draw"@,
    }
}

impl State {
    /// How the state is written on a rendered board.
    pub fn symbol(&self) -> (s: &'static str)
        ensures
            s@ == symbol_text(*self),
    {
        match self {
            State::Open => "_",
            State::X => "X",
            State::O => "O",
            State::Draw => "Draw",
        }
    }
}

/// One match.
#[derive(Debug, Clone)]
pub struct Game {
    pub board: [State; 9],
    pub player1: String,
    pub player2: String,
    pub player1channel: Channel,
    pub player2channel: Channel,
    pub turn: String,
    pub legal_moves: Vec<usize>,
    pub last_move: Option<usize>,
    pub win: State,
}

/// A game as contracts see it.
pub struct GameView {
    pub board: Seq<State>,
    pub player1: Seq<char>,
    pub player2: Seq<char>,
    pub player1channel: Channel,
    pub player2channel: Channel,
    pub turn: Seq<char>,
    pub legal_moves: Seq<usize>,
    pub last_move: Option<usize>,
    pub win: State,
}

impl View for Game {
    type V = GameView;

    open spec fn view(&self) -> GameView {
        GameView {
            board: self.board@,
            player1: self.player1@,
            player2: self.player2@,
            player1channel: self.player1channel,
            player2channel: self.player2channel,
            turn: self.turn@,
            legal_moves: self.legal_moves@,
            last_move: self.last_move,
            win: self.win,
        }
    }
}

/// The nine squares in their numbering.
pub open spec fn all_squares() -> Seq<usize> {
    seq![1usize, 2usize, 3usize, 4usize, 5usize, 6usize, 7usize, 8usize, 9usize]
}

/// The game that two players begin: an empty board, every square legal, the first
/// player to move.
pub open spec fn fresh(
    player1: Seq<char>,
    player2: Seq<char>,
    channel1: Channel,
    channel2: Channel,
) -> GameView {
    GameView {
        board: Seq::new(9, |i: int| State::Open),
        player1,
        player2,
        player1channel: channel1,
        player2channel: channel2,
        turn: player1,
        legal_moves: all_squares(),
        last_move: None,
        win: State::Open,
    }
}

impl GameView {
    /// What every game keeps to: the board has nine squares, none of them holds a
    /// result; a legal move names a square of the board that is still open, and none is
    /// listed twice; it is the turn of one of the two players.
    pub open spec fn wf(self) -> bool {
        &&& self.board.len() == 9
        &&& forall|i: int| 0 <= i < 9 ==> #[trigger] self.board[i] != State::Draw
        &&& forall|k: int|
            0 <= k < self.legal_moves.len() ==> 1 <= #[trigger] self.legal_moves[k] <= 9
                && self.board[self.legal_moves[k] - 1] == State::Open
        &&& self.legal_moves.no_duplicates()
        &&& (self.turn == self.player1 || self.turn == self.player2)
    }

    /// Whether the first player is to move.
    pub open spec fn first_to_move(self) -> bool {
        self.turn == self.player1
    }

    /// The mark of the player who is to move.
    pub open spec fn mark(self) -> State {
        if self.first_to_move() {
            State::X
        } else {
            State::O
        }
    }

    /// The channel of the player who is to move.
    pub open spec fn mover_channel(self) -> Channel {
        if self.first_to_move() {
            self.player1channel
        } else {
            self.player2channel
        }
    }

    /// The channel of the player who is not to move.
    pub open spec fn waiter_channel(self) -> Channel {
        if self.first_to_move() {
            self.player2channel
        } else {
            self.player1channel
        }
    }

    /// Whether `username` may now play `square`: the game has no result yet, it is
    /// that player's turn, and the square is a legal move.
    pub open spec fn accepts(self, username: Seq<char>, square: usize) -> bool {
        self.win == State::Open && self.turn == username && self.legal_moves.contains(square)
    }

    /// The game after the player who is to move has played `square`.
    pub open spec fn played(self, square: usize) -> GameView {
        GameView {
            board: self.board.update(square - 1, self.mark()),
            turn: if self.first_to_move() {
                self.player2
            } else {
                self.player1
            },
            legal_moves: without(self.legal_moves, square),
            last_move: Some(square),
            ..self
        }
    }

    /// Whom a refused move is reported to: the player who is not to move where the
    /// move came out of turn, else the player who is to move, who named a square that
    /// is no legal move or moved in a game that has its result.
    pub open spec fn refusal_channel(self, username: Seq<char>) -> Channel {
        if self.turn != username {
            self.waiter_channel()
        } else {
            self.mover_channel()
        }
    }

    /// What a refused move is answered with.
    pub open spec fn refusal_text(self, username: Seq<char>, square: usize) -> Seq<char> {
        if self.turn != username {
            "\nit is not your turn"@
        } else {
            "\n"@ + decimal(square as nat) + " is not a legal move"@
        }
    }

    /// Whether `who` holds the three squares of row `r`.
    pub open spec fn holds_row(self, who: State, r: int) -> bool {
        self.board[3 * r] == who && self.board[3 * r + 1] == who && self.board[3 * r + 2] == who
    }

    /// Whether `who` holds the three squares of column `c`.
    pub open spec fn holds_column(self, who: State, c: int) -> bool {
        self.board[c] == who && self.board[c + 3] == who && self.board[c + 6] == who
    }

    /// Whether `who` holds a whole row, a whole column or one of the two diagonals.
    pub open spec fn has_line(self, who: State) -> bool {
        ||| exists|r: int| 0 <= r < 3 && #[trigger] self.holds_row(who, r)
        ||| exists|c: int| 0 <= c < 3 && #[trigger] self.holds_column(who, c)
        ||| self.board[0] == who && self.board[4] == who && self.board[8] == who
        ||| self.board[2] == who && self.board[4] == who && self.board[6] == who
    }

    /// The side that holds a line, X before O; `Open` where neither does.
    pub open spec fn winner(self) -> State {
        if self.has_line(State::X) {
            State::X
        } else if self.has_line(State::O) {
            State::O
        } else {
            State::Open
        }
    }

    /// Whether the game is over once a result was looked for: it has its result
    /// already, or a side holds a line, or no move is left.
    pub open spec fn is_over(self) -> bool {
        self.win != State::Open || self.winner() != State::Open || self.legal_moves.len() == 0
    }

    /// The game after a result was looked for. A game that has its result stays as it
    /// is: a result is given once. Else the game is won by the side that holds a line,
    /// with no move left; else a draw where no move was left; else as it was.
    pub open spec fn settled(self) -> GameView {
        if self.win != State::Open {
            self
        } else if self.winner() != State::Open {
            GameView { win: self.winner(), legal_moves: Seq::empty(), ..self }
        } else if self.legal_moves.len() == 0 {
            GameView { win: State::Draw, ..self }
        } else {
            self
        }
    }

    /// One row of the rendered board.
    pub open spec fn row_text(self, r: int) -> Seq<char> {
        "\n"@ + symbol_text(self.board[3 * r]) + " "@ + symbol_text(self.board[3 * r + 1]) + " "@
            + symbol_text(self.board[3 * r + 2])
    }

    /// The rendered board: who plays which mark, then the three rows.
    pub open spec fn board_text(self) -> Seq<char> {
        "\nX: "@ + self.player1 + " O: "@ + self.player2 + self.row_text(0) + self.row_text(1)
            + self.row_text(2)
    }

    /// What the first player is sent as an update.
    pub open spec fn update_for_first(self) -> Seq<char> {
        if self.first_to_move() {
            self.board_text() + "\nYour turn: type 1-9 to play a move"@
        } else {
            self.board_text() + "\nWaiting for opponent..."@
        }
    }

    /// What the second player is sent as an update.
    pub open spec fn update_for_second(self) -> Seq<char> {
        if self.first_to_move() {
            self.board_text() + "\nWaiting for opponent..."@
        } else {
            self.board_text() + "\nYour turn: type 1-9 to play a move"@
        }
    }

    /// The queues after both players were sent the board and who is to move: the
    /// first player's message first.
    pub open spec fn updated(self, r: Seq<QueueView>) -> Seq<QueueView> {
        sent(
            sent(r, self.player1channel, self.update_for_first()),
            self.player2channel,
            self.update_for_second(),
        )
    }

    /// How a result is told: who wins, or that it is a draw.
    pub open spec fn outcome_text(self) -> Seq<char> {
        if self.win == State::Draw {
            "Draw!\n"@
        } else {
            symbol_text(self.win) + " Wins!\n"@
        }
    }

    /// The queues after both players were sent the final board, and then both the
    /// outcome: each time the first player's message first.
    pub open spec fn concluded(self, r: Seq<QueueView>) -> Seq<QueueView> {
        sent(
            sent(
                sent(
                    sent(r, self.player1channel, self.board_text()),
                    self.player2channel,
                    self.board_text(),
                ),
                self.player1channel,
                self.outcome_text(),
            ),
            self.player2channel,
            self.outcome_text(),
        )
    }

    /// The queues after a result was looked for: the outcome where the game ended, an
    /// update where it goes on.
    pub open spec fn announced(self, r: Seq<QueueView>) -> Seq<QueueView> {
        if self.is_over() {
            self.settled().concluded(r)
        } else {
            self.updated(r)
        }
    }
    /// The game after each of `squares` was played by the player whose turn it was, a
    /// result looked for after every move.
    pub open spec fn after_moves(self, squares: Seq<usize>) -> GameView
        decreases squares.len(),
    {
        if squares.len() == 0 {
            self
        } else {
            self.after_moves(squares.drop_last()).played(squares.last()).settled()
        }
    }

    /// Whether each of `squares` is a legal move when its turn comes.
    pub open spec fn all_legal(self, squares: Seq<usize>) -> bool {
        forall|k: int|
            0 <= k < squares.len() ==> (#[trigger] self.after_moves(
                squares.take(k),
            )).legal_moves.contains(squares[k])
    }

    /// The player who makes move number `k`, counted from 0, where the players
    /// alternate and the first player begins.
    pub open spec fn mover(self, k: int) -> Seq<char> {
        if k % 2 == 0 {
            self.player1
        } else {
            self.player2
        }
    }
}

/// The mark of move number `k`, counted from 0: X for the first player's moves, O for
/// the second player's.
pub open spec fn mark_of_move(k: int) -> State {
    if k % 2 == 0 {
        State::X
    } else {
        State::O
    }
}

/// A fresh game keeps to the rules of every game.
pub proof fn lemma_fresh_wf(
    player1: Seq<char>,
    player2: Seq<char>,
    channel1: Channel,
    channel2: Channel,
)
    ensures
        fresh(player1, player2, channel1, channel2).wf(),
{
}

/// A move that is accepted leaves a game that keeps to the rules.
pub proof fn lemma_played_wf(g: GameView, username: Seq<char>, square: usize)
    requires
        g.wf(),
        g.accepts(username, square),
    ensures
        1 <= square <= 9,
        g.board[square - 1] == State::Open,
        g.played(square).wf(),
{
    lemma_without(g.legal_moves, square);
    let h = g.played(square);
    assert forall|j: int| 0 <= j < h.legal_moves.len() implies 1 <= #[trigger] h.legal_moves[j]
        <= 9 && h.board[h.legal_moves[j] - 1] == State::Open by {
        let m = h.legal_moves[j];
        assert(h.legal_moves.contains(m));
    }
}

/// Looking for a result leaves a game that keeps to the rules.
pub proof fn lemma_settled_wf(g: GameView)
    requires
        g.wf(),
    ensures
        g.settled().wf(),
{
}

/// Legal moves only ever leave: neither a move nor a look for the result makes a
/// square legal that was not.
pub proof fn lemma_legal_moves_shrink(g: GameView, square: usize, m: usize)
    ensures
        g.played(square).legal_moves.contains(m) ==> g.legal_moves.contains(m) && m != square,
        g.settled().legal_moves.contains(m) ==> g.legal_moves.contains(m),
{
    lemma_without(g.legal_moves, square);
}

/// A result is given once and never changes. A look for the result leaves a game
/// over just where it gives or finds a result; and in a game that has its result, a
/// look for the result changes nothing, a move is accepted from nobody, and so the
/// game stays as it is whatever is tried.
pub proof fn lemma_result_is_final(g: GameView, username: Seq<char>, square: usize)
    ensures
        g.is_over() <==> g.settled().win != State::Open,
        g.win != State::Open ==> g.settled() == g,
        g.win != State::Open ==> !g.accepts(username, square),
        g.settled().settled() == g.settled(),
{
}

/// A board without an open square and without a line is a draw: the look for the
/// result ends the game with that outcome.
pub proof fn lemma_full_board_is_draw(g: GameView)
    requires
        g.wf(),
        g.win == State::Open,
        forall|i: int| 0 <= i < 9 ==> g.board[i] != State::Open,
        !g.has_line(State::X),
        !g.has_line(State::O),
    ensures
        g.is_over(),
        g.settled().win == State::Draw,
{
    if g.legal_moves.len() > 0 {
        let m = g.legal_moves[0];
        assert(g.board[m - 1] == State::Open);
    }
}

/// What holds after any number of legal moves from the start of a game between two
/// players of different names.
proof fn lemma_after_moves(g: GameView, squares: Seq<usize>)
    requires
        g.wf(),
        g.win == State::Open,
        g.player1 != g.player2,
        g.turn == g.player1,
        g.all_legal(squares),
    ensures
        g.after_moves(squares).wf(),
        g.after_moves(squares).win != State::Open ==> g.after_moves(squares).legal_moves.len()
            == 0,
        g.after_moves(squares).player1 == g.player1,
        g.after_moves(squares).player2 == g.player2,
        g.after_moves(squares).turn == g.mover(squares.len() as int),
        forall|j: int|
            0 <= j < squares.len() ==> 1 <= #[trigger] squares[j] <= 9 && g.after_moves(
                squares,
            ).board[squares[j] - 1] == mark_of_move(j) && !g.after_moves(
                squares,
            ).legal_moves.contains(squares[j]),
    decreases squares.len(),
{
    if squares.len() > 0 {
        let n = squares.len() as int;
        let front = squares.drop_last();
        let last = squares.last();
        assert(g.all_legal(front)) by {
            assert forall|k: int| 0 <= k < front.len() implies (#[trigger] g.after_moves(
                front.take(k),
            )).legal_moves.contains(front[k]) by {
                assert(front.take(k) =~= squares.take(k));
            }
        }
        lemma_after_moves(g, front);
        let before = g.after_moves(front);
        lemma_played_wf(before, before.turn, last);
        let moved = before.played(last);
        let after = moved.settled();
        assert forall|j: int| 0 <= j < squares.len() implies 1 <= #[trigger] squares[j] <= 9
            && after.board[squares[j] - 1] == mark_of_move(j) && !after.legal_moves.contains(
            squares[j],
        ) by {
            if j < n - 1 {
                assert(front[j] == squares[j]);
            }
        }
    }
}

/// Turns alternate. In a game between two players of different names, take any
/// sequence of moves, each legal when it is made, the players moving in turn and the
/// first player beginning. Then move number `k` (from 0) finds the game waiting for
/// just the player who makes it, and is accepted from that player and from nobody
/// else; it puts X on its square where the first player makes it and O where the
/// second does; and at the end every square still holds the mark it was given, and
/// the turn is with the player who would move next.
pub proof fn lemma_turns_alternate(
    player1: Seq<char>,
    player2: Seq<char>,
    channel1: Channel,
    channel2: Channel,
    squares: Seq<usize>,
    k: int,
)
    requires
        player1 != player2,
        fresh(player1, player2, channel1, channel2).all_legal(squares),
        0 <= k < squares.len(),
    ensures
        ({
            let start = fresh(player1, player2, channel1, channel2);
            let before = start.after_moves(squares.take(k));
            let end = start.after_moves(squares);
            &&& before.turn == start.mover(k)
            &&& before.accepts(start.mover(k), squares[k])
            &&& !before.accepts(start.mover(k + 1), squares[k])
            &&& before.played(squares[k]).board[squares[k] - 1] == mark_of_move(k)
            &&& before.played(squares[k]).turn == start.mover(k + 1)
            &&& end.board[squares[k] - 1] == mark_of_move(k)
            &&& end.turn == start.mover(squares.len() as int)
        }),
{
    let start = fresh(player1, player2, channel1, channel2);
    let front = squares.take(k);
    assert(start.all_legal(front)) by {
        assert forall|i: int| 0 <= i < front.len() implies (#[trigger] start.after_moves(
            front.take(i),
        )).legal_moves.contains(front[i]) by {
            assert(front.take(i) =~= squares.take(i));
        }
    }
    lemma_after_moves(start, front);
    lemma_after_moves(start, squares);
}

impl Game {
    /// Whether the game keeps to the rules of every game.
    pub open spec fn wf(&self) -> bool {
        self@.wf()
    }

    /// A new game between `player1`, who moves first and plays X, and `player2`, who
    /// plays O. Each player's messages go to that player's channel.
    pub fn new(player1: String, player2: String, channel1: Channel, channel2: Channel) -> (g: Game)
        ensures
            g@ == fresh(player1@, player2@, channel1, channel2),
            g.wf(),
    {
        let g = Game {
            board: [State::Open; 9],
            player1: player1.clone(),
            player2: player2,
            player1channel: channel1,
            player2channel: channel2,
            turn: player1,
            legal_moves: vec![1, 2, 3, 4, 5, 6, 7, 8, 9],
            last_move: None,
            win: State::Open,
        };
        assert(g@.board =~= Seq::new(9, |i: int| State::Open));
        g
    }

    /// Whether the game keeps to the rules of every game, found out by looking.
    pub fn is_well_formed(&self) -> (b: bool)
        ensures
            b == self.wf(),
    {
        let mut i: usize = 0;
        while i < 9
            invariant
                i <= 9,
                forall|j: int| 0 <= j < i ==> #[trigger] self@.board[j] != State::Draw,
            decreases 9 - i,
        {
            if self.board[i] == State::Draw {
                return false;
            }
            i = i + 1;
        }
        let moves = &self.legal_moves;
        let mut k: usize = 0;
        while k < moves.len()
            invariant
                k <= moves.len(),
                moves@ == self@.legal_moves,
                self@.board.len() == 9,
                forall|a: int|
                    0 <= a < k ==> 1 <= #[trigger] moves@[a] <= 9 && self@.board[moves@[a] - 1]
                        == State::Open,
                forall|a: int, b: int| 0 <= a < b < k ==> moves@[a] != moves@[b],
            decreases moves.len() - k,
        {
            let m = moves[k];
            if m < 1 || m > 9 || self.board[m - 1] != State::Open {
                return false;
            }
            let mut j: usize = 0;
            while j < k
                invariant
                    j <= k < moves.len(),
                    moves@ == self@.legal_moves,
                    m == moves@[k as int],
                    forall|a: int| 0 <= a < j ==> moves@[a] != m,
                decreases k - j,
            {
                if moves[j] == m {
                    return false;
                }
                j = j + 1;
            }
            k = k + 1;
        }
        same_text(self.turn.as_str(), self.player1.as_str()) || same_text(
            self.turn.as_str(),
            self.player2.as_str(),
        )
    }

    /// Whether the first player is to move.
    fn first_to_move(&self) -> (b: bool)
        ensures
            b == self@.first_to_move(),
    {
        same_text(self.turn.as_str(), self.player1.as_str())
    }

    /// `username` plays `square`.
    ///
    /// The move is accepted where the game has no result yet, it is that player's turn,
    /// and the square is a legal move: the square takes the player's mark and is no
    /// longer legal, and the turn passes to the other player. Any other move is
    /// refused: the game stays as it was, and the refusal is sent to one player. So a
    /// move out of turn is refused, and so is one to a square that is taken, and so is
    /// every move in a game that has its result.
    pub fn play_move(&mut self, username: &str, square: usize, router: &mut Router) -> (ok: bool)
        requires
            old(self).wf(),
        ensures
            final(self).wf(),
            ok == old(self)@.accepts(username@, square),
            ok ==> final(self)@ == old(self)@.played(square) && final(router)@ == old(router)@,
            !ok ==> final(self)@ == old(self)@ && final(router)@ == sent(
                old(router)@,
                old(self)@.refusal_channel(username@),
                old(self)@.refusal_text(username@, square),
            ),
            username@ != old(self)@.turn ==> !ok,
            1 <= square <= 9 && old(self)@.board[square - 1] != State::Open ==> !ok,
            old(self)@.win != State::Open ==> !ok,
    {
        let first = self.first_to_move();
        proof {
            if self@.accepts(self@.turn, square) {
                lemma_played_wf(self@, self@.turn, square);
            }
        }
        if !same_text(self.turn.as_str(), username) {
            let to = if first {
                self.player2channel
            } else {
                self.player1channel
            };
            router.send(to, String::from_str("\nit is not your turn"));
            return false;
        }
        if self.win == State::Open && has_number(&self.legal_moves, square) {
            self.last_move = Some(square);
            self.legal_moves = remove_number(&self.legal_moves, square);
            if first {
                self.board[square - 1] = State::X;
                self.turn = self.player2.clone();
            } else {
                self.board[square - 1] = State::O;
                self.turn = self.player1.clone();
            }
            true
        } else {
            let to = if first {
                self.player1channel
            } else {
                self.player2channel
            };
            let mut text = String::from_str("\n");
            text.append(decimal_text(square).as_str());
            text.append(" is not a legal move");
            router.send(to, text);
            false
        }
    }

    /// Whether `who` holds a whole row, a whole column or one of the two diagonals.
    fn holds_line(&self, who: State) -> (b: bool)
        ensures
            b == self@.has_line(who),
    {
        let b = &self.board;
        let rows = b[0] == who && b[1] == who && b[2] == who || b[3] == who && b[4] == who && b[5]
            == who || b[6] == who && b[7] == who && b[8] == who;
        let columns = b[0] == who && b[3] == who && b[6] == who || b[1] == who && b[4] == who
            && b[7] == who || b[2] == who && b[5] == who && b[8] == who;
        let diagonals = b[0] == who && b[4] == who && b[8] == who || b[2] == who && b[4] == who
            && b[6] == who;
        proof {
            let g = self@;
            assert(rows == (g.holds_row(who, 0) || g.holds_row(who, 1) || g.holds_row(who, 2)));
            assert(columns == (g.holds_column(who, 0) || g.holds_column(who, 1) || g.holds_column(
                who,
                2,
            )));
        }
        rows || columns || diagonals
    }

    /// One row of the rendered board.
    fn row_text(&self, r: usize) -> (out: String)
        requires
            r < 3,
        ensures
            out@ == self@.row_text(r as int),
    {
        let mut out = String::from_str("\n");
        out.append(self.board[3 * r].symbol());
        out.append(" ");
        out.append(self.board[3 * r + 1].symbol());
        out.append(" ");
        out.append(self.board[3 * r + 2].symbol());
        out
    }

    /// The rendered board: who plays which mark, then the three rows.
    pub fn board_text(&self) -> (out: String)
        ensures
            out@ == self@.board_text(),
    {
        let mut out = String::from_str("\nX: ");
        out.append(self.player1.as_str());
        out.append(" O: ");
        out.append(self.player2.as_str());
        out.append(self.row_text(0).as_str());
        out.append(self.row_text(1).as_str());
        out.append(self.row_text(2).as_str());
        out
    }

    /// Sends both players the final board and then the outcome.
    fn conclude(&self, router: &mut Router)
        ensures
            final(router)@ == self@.concluded(old(router)@),
    {
        router.send(self.player1channel, self.board_text());
        router.send(self.player2channel, self.board_text());
        if self.win == State::Draw {
            router.send(self.player1channel, String::from_str("Draw!\n"));
            router.send(self.player2channel, String::from_str("Draw!\n"));
        } else {
            let mut outcome = String::from_str(self.win.symbol());
            outcome.append(" Wins!\n");
            router.send(self.player1channel, outcome.clone());
            router.send(self.player2channel, outcome);
        }
    }

    /// Looks for a result after a move, and tells both players how the game stands.
    ///
    /// A game that has its result keeps it, and stays as it is. In a game without a
    /// result, where a side holds a line, X looked for first, that side has won and no
    /// move is left; else, where no move is left, the game is a draw. In all these
    /// cases the game is over: the players are sent the final board and the outcome,
    /// and the answer is `true`. Else the game goes on as it was, the players are sent
    /// an update, and the answer is `false`.
    pub fn check_for_result(&mut self, router: &mut Router) -> (over: bool)
        requires
            old(self).wf(),
        ensures
            final(self).wf(),
            over == old(self)@.is_over(),
            final(self)@ == old(self)@.settled(),
            final(router)@ == old(self)@.announced(old(router)@),
            old(self)@.win != State::Open ==> final(self)@ == old(self)@,
    {
        if self.win == State::Open {
            if self.holds_line(State::X) {
                self.win = State::X;
                self.legal_moves = Vec::new();
            } else if self.holds_line(State::O) {
                self.win = State::O;
                self.legal_moves = Vec::new();
            } else if self.legal_moves.len() == 0 {
                self.win = State::Draw;
            } else {
                self.send_update(router);
                return false;
            }
        }
        self.conclude(router);
        true
    }

    /// Sends both players the board, and each whether it is that player's turn.
    pub fn send_update(&self, router: &mut Router)
        requires
            self.wf(),
        ensures
            final(router)@ == self@.updated(old(router)@),
    {
        let mut own = self.board_text();
        own.append("\nYour turn: type 1-9 to play a move");
        let mut other = self.board_text();
        other.append("\nWaiting for opponent...");
        if self.first_to_move() {
            router.send(self.player1channel, own);
            router.send(self.player2channel, other);
        } else {
            router.send(self.player1channel, other);
            router.send(self.player2channel, own);
        }
    }
}

} // verus!
