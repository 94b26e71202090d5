use tictactoe_server::game::{Game, State};
use tictactoe_server::router::{Channel, Delivery, Router};

const OWN_TURN: &str = "\nYour turn: type 1-9 to play a move";
const WAITING: &str = "\nWaiting for opponent...";

fn text(d: Delivery) -> Option<String> {
    match d {
        Delivery::Message(s) => Some(s),
        _ => None,
    }
}

/// A game between alice (channel 0) and bob (channel 1).
fn start() -> (Game, Router, Channel, Channel) {
    let mut router = Router::new();
    let a = router.open();
    let b = router.open();
    let g = Game::new("alice".to_string(), "bob".to_string(), a, b);
    (g, router, a, b)
}

/// Plays the squares in turn, alice first, each move accepted.
fn play(g: &mut Game, router: &mut Router, squares: &[usize]) {
    for (k, square) in squares.iter().enumerate() {
        let who = if k % 2 == 0 { "alice" } else { "bob" };
        assert!(g.play_move(who, *square, router), "move {} to {}", k, square);
    }
}

fn drain(router: &mut Router, c: Channel) -> Vec<String> {
    let mut out = Vec::new();
    while let Some(s) = text(router.recv(c)) {
        out.push(s);
    }
    out
}

#[test]
fn new_game_is_empty_and_first_player_moves() {
    let (g, mut router, a, b) = start();
    assert_eq!(g.board, [State::Open; 9]);
    assert_eq!(g.player1, "alice");
    assert_eq!(g.player2, "bob");
    assert_eq!(g.player1channel, a);
    assert_eq!(g.player2channel, b);
    assert_eq!(g.turn, "alice");
    assert_eq!(g.legal_moves, vec![1, 2, 3, 4, 5, 6, 7, 8, 9]);
    assert_eq!(g.win, State::Open);
    assert_eq!(g.last_move, None);
    assert!(drain(&mut router, a).is_empty());
    assert!(drain(&mut router, b).is_empty());
}

#[test]
fn accepted_move_marks_square_and_passes_turn() {
    let (mut g, mut router, a, b) = start();
    assert!(g.play_move("alice", 5, &mut router));
    let mut board = [State::Open; 9];
    board[4] = State::X;
    assert_eq!(g.board, board);
    assert_eq!(g.turn, "bob");
    assert_eq!(g.legal_moves, vec![1, 2, 3, 4, 6, 7, 8, 9]);
    assert_eq!(g.last_move, Some(5));
    assert_eq!(g.win, State::Open);
    // an accepted move sends nothing by itself
    assert!(drain(&mut router, a).is_empty());
    assert!(drain(&mut router, b).is_empty());
}

#[test]
fn turns_alternate_x_then_o() {
    let (mut g, mut router, _, _) = start();
    let squares = [7usize, 2, 9, 4, 5];
    for (k, square) in squares.iter().enumerate() {
        let (mover, other) = if k % 2 == 0 { ("alice", "bob") } else { ("bob", "alice") };
        assert_eq!(g.turn, mover);
        assert!(g.play_move(mover, *square, &mut router));
        assert_eq!(g.board[square - 1], if k % 2 == 0 { State::X } else { State::O });
        assert_eq!(g.turn, other);
        assert!(!g.check_for_result(&mut router));
    }
    assert_eq!(
        g.board,
        [
            State::Open,
            State::O,
            State::Open,
            State::O,
            State::X,
            State::Open,
            State::X,
            State::Open,
            State::X
        ]
    );
    assert_eq!(g.legal_moves, vec![1, 3, 6, 8]);
}

#[test]
fn move_out_of_turn_is_rejected_and_changes_nothing() {
    let (mut g, mut router, a, b) = start();
    assert!(!g.play_move("bob", 1, &mut router));
    assert_eq!(g.board, [State::Open; 9]);
    assert_eq!(g.turn, "alice");
    assert_eq!(g.legal_moves, vec![1, 2, 3, 4, 5, 6, 7, 8, 9]);
    assert_eq!(g.last_move, None);
    // the side that is not to move is told
    assert_eq!(drain(&mut router, b), vec!["\nit is not your turn".to_string()]);
    assert!(drain(&mut router, a).is_empty());

    assert!(g.play_move("alice", 1, &mut router));
    assert!(!g.play_move("alice", 2, &mut router));
    assert_eq!(g.turn, "bob");
    assert_eq!(g.legal_moves, vec![2, 3, 4, 5, 6, 7, 8, 9]);
    assert_eq!(g.board[1], State::Open);
    assert_eq!(drain(&mut router, a), vec!["\nit is not your turn".to_string()]);
    assert!(drain(&mut router, b).is_empty());
}

#[test]
fn stranger_is_rejected_as_out_of_turn() {
    let (mut g, mut router, a, b) = start();
    assert!(!g.play_move("carol", 1, &mut router));
    assert_eq!(g.board, [State::Open; 9]);
    assert_eq!(drain(&mut router, b), vec!["\nit is not your turn".to_string()]);
    assert!(drain(&mut router, a).is_empty());
}

#[test]
fn move_to_occupied_square_is_rejected_and_changes_nothing() {
    let (mut g, mut router, a, b) = start();
    assert!(g.play_move("alice", 3, &mut router));
    let board = g.board;
    assert!(!g.play_move("bob", 3, &mut router));
    assert_eq!(g.board, board);
    assert_eq!(g.turn, "bob");
    assert_eq!(g.legal_moves, vec![1, 2, 4, 5, 6, 7, 8, 9]);
    assert_eq!(g.last_move, Some(3));
    // the side that is to move is told
    assert_eq!(drain(&mut router, b), vec!["\n3 is not a legal move".to_string()]);
    assert!(drain(&mut router, a).is_empty());
}

#[test]
fn move_off_the_board_is_rejected() {
    let (mut g, mut router, a, _) = start();
    assert!(!g.play_move("alice", 0, &mut router));
    assert!(!g.play_move("alice", 10, &mut router));
    assert!(!g.play_move("alice", usize::MAX, &mut router));
    assert_eq!(g.board, [State::Open; 9]);
    assert_eq!(g.legal_moves, vec![1, 2, 3, 4, 5, 6, 7, 8, 9]);
    assert_eq!(
        drain(&mut router, a),
        vec![
            "\n0 is not a legal move".to_string(),
            "\n10 is not a legal move".to_string(),
            format!("\n{} is not a legal move", usize::MAX),
        ]
    );
}

#[test]
fn top_row_of_x_wins() {
    let (mut g, mut router, a, b) = start();
    play(&mut g, &mut router, &[1, 4, 2, 5, 3]);
    assert_eq!(
        g.board,
        [
            State::X,
            State::X,
            State::X,
            State::O,
            State::O,
            State::Open,
            State::Open,
            State::Open,
            State::Open
        ]
    );
    assert!(g.check_for_result(&mut router));
    assert_eq!(g.win, State::X);
    assert!(g.legal_moves.is_empty());
    let board = "\nX: alice O: bob\nX X X\nO O _\n_ _ _".to_string();
    assert_eq!(drain(&mut router, a), vec![board.clone(), "X Wins!\n".to_string()]);
    assert_eq!(drain(&mut router, b), vec![board, "X Wins!\n".to_string()]);
}

#[test]
fn o_wins_on_a_column() {
    let (mut g, mut router, a, _) = start();
    play(&mut g, &mut router, &[1, 2, 3, 5, 4, 8]);
    assert!(g.check_for_result(&mut router));
    assert_eq!(g.win, State::O);
    assert!(g.legal_moves.is_empty());
    assert_eq!(
        drain(&mut router, a),
        vec!["\nX: alice O: bob\nX O X\nX O _\n_ O _".to_string(), "O Wins!\n".to_string()]
    );
}

#[test]
fn every_line_wins() {
    let lines: [[usize; 3]; 8] = [
        [1, 2, 3],
        [4, 5, 6],
        [7, 8, 9],
        [1, 4, 7],
        [2, 5, 8],
        [3, 6, 9],
        [1, 5, 9],
        [3, 5, 7],
    ];
    for line in lines.iter() {
        // O takes two squares off the line
        let others: Vec<usize> = (1..=9).filter(|s| !line.contains(s)).collect();
        let (mut g, mut router, _, _) = start();
        play(&mut g, &mut router, &[line[0], others[0], line[1], others[1], line[2]]);
        assert!(g.check_for_result(&mut router), "line {:?}", line);
        assert_eq!(g.win, State::X, "line {:?}", line);
    }
}

#[test]
fn two_in_a_row_is_no_result() {
    let (mut g, mut router, _, _) = start();
    play(&mut g, &mut router, &[1, 4, 2]);
    assert!(!g.check_for_result(&mut router));
    assert_eq!(g.win, State::Open);
    assert_eq!(g.legal_moves, vec![3, 5, 6, 7, 8, 9]);
}

#[test]
fn full_board_without_line_is_draw() {
    let (mut g, mut router, a, b) = start();
    // X O X
    // X O O
    // O X X
    play(&mut g, &mut router, &[1, 2, 3, 5, 4, 6, 8, 7, 9]);
    assert!(g.legal_moves.is_empty());
    assert!(g.board.iter().all(|s| *s != State::Open));
    assert!(g.check_for_result(&mut router));
    assert_eq!(g.win, State::Draw);
    let board = "\nX: alice O: bob\nX O X\nX O O\nO X X".to_string();
    assert_eq!(drain(&mut router, a), vec![board.clone(), "Draw!\n".to_string()]);
    assert_eq!(drain(&mut router, b), vec![board, "Draw!\n".to_string()]);
}

#[test]
fn last_square_that_completes_a_line_wins_rather_than_draws() {
    let (mut g, mut router, _, _) = start();
    // X O X
    // O O X
    // O X X   the last move, to 9, completes the right column
    play(&mut g, &mut router, &[1, 2, 3, 4, 6, 5, 8, 7, 9]);
    assert!(g.legal_moves.is_empty());
    assert!(g.check_for_result(&mut router));
    assert_eq!(g.win, State::X);
}

#[test]
fn game_that_goes_on_sends_an_update() {
    let (mut g, mut router, a, b) = start();
    assert!(g.play_move("alice", 5, &mut router));
    assert!(!g.check_for_result(&mut router));
    let board = "\nX: alice O: bob\n_ _ _\n_ X _\n_ _ _";
    assert_eq!(drain(&mut router, a), vec![format!("{}{}", board, WAITING)]);
    assert_eq!(drain(&mut router, b), vec![format!("{}{}", board, OWN_TURN)]);
}

#[test]
fn send_update_tells_each_side_whose_turn_it_is() {
    let (g, mut router, a, b) = start();
    g.send_update(&mut router);
    let board = "\nX: alice O: bob\n_ _ _\n_ _ _\n_ _ _";
    assert_eq!(drain(&mut router, a), vec![format!("{}{}", board, OWN_TURN)]);
    assert_eq!(drain(&mut router, b), vec![format!("{}{}", board, WAITING)]);
    // it changes nothing in the game
    assert_eq!(g.turn, "alice");
    assert_eq!(g.legal_moves.len(), 9);
}

#[test]
fn board_text_renders_names_and_rows() {
    let (mut g, mut router, _, _) = start();
    assert_eq!(g.board_text(), "\nX: alice O: bob\n_ _ _\n_ _ _\n_ _ _");
    play(&mut g, &mut router, &[9, 1]);
    assert_eq!(g.board_text(), "\nX: alice O: bob\nO _ _\n_ _ _\n_ _ X");
}

#[test]
fn state_symbols() {
    assert_eq!(State::Open.symbol(), "_");
    assert_eq!(State::X.symbol(), "X");
    assert_eq!(State::O.symbol(), "O");
    assert_eq!(State::Draw.symbol(), "Draw");
}

#[test]
fn no_move_is_accepted_after_a_result() {
    let (mut g, mut router, a, b) = start();
    play(&mut g, &mut router, &[1, 4, 2, 5, 3]);
    assert!(g.check_for_result(&mut router));
    drain(&mut router, a);
    drain(&mut router, b);
    let board = g.board;
    assert_eq!(g.turn, "bob");
    assert!(!g.play_move("bob", 6, &mut router));
    assert_eq!(g.board, board);
    assert_eq!(g.win, State::X);
    assert_eq!(drain(&mut router, b), vec!["\n6 is not a legal move".to_string()]);
}

#[test]
fn result_of_a_win_is_kept_by_another_look() {
    let (mut g, mut router, _, _) = start();
    play(&mut g, &mut router, &[1, 4, 2, 5, 3]);
    assert!(g.check_for_result(&mut router));
    let board = g.board;
    assert!(g.check_for_result(&mut router));
    assert_eq!(g.win, State::X);
    assert_eq!(g.board, board);
    assert!(g.legal_moves.is_empty());
}

#[test]
fn result_of_a_draw_is_kept_by_another_look() {
    let (mut g, mut router, a, _) = start();
    play(&mut g, &mut router, &[1, 2, 3, 5, 4, 6, 8, 7, 9]);
    assert!(g.check_for_result(&mut router));
    drain(&mut router, a);
    // the game is over, and another look says so again
    assert!(g.check_for_result(&mut router));
    assert_eq!(g.win, State::Draw);
    assert_eq!(
        drain(&mut router, a),
        vec!["\nX: alice O: bob\nX O X\nX O O\nO X X".to_string(), "Draw!\n".to_string()]
    );
}

#[test]
fn closed_game_keeps_its_result_whatever_is_on_the_board() {
    let (mut g, mut router, a, b) = start();
    play(&mut g, &mut router, &[1, 4, 2, 5, 3]);
    // closed without a winner before anybody looked, as a resignation closes it
    g.win = State::Draw;
    let board = g.board;
    assert!(g.check_for_result(&mut router));
    assert_eq!(g.win, State::Draw);
    assert_eq!(g.board, board);
    assert_eq!(g.legal_moves, vec![6, 7, 8, 9]);
    assert_eq!(g.turn, "bob");
    let told =
        vec!["\nX: alice O: bob\nX X X\nO O _\n_ _ _".to_string(), "Draw!\n".to_string()];
    assert_eq!(drain(&mut router, a), told);
    assert_eq!(drain(&mut router, b), told);

    let (mut won, mut router, _, _) = start();
    play(&mut won, &mut router, &[1, 4, 2, 5, 3]);
    won.win = State::O;
    assert!(won.check_for_result(&mut router));
    assert_eq!(won.win, State::O);
    assert_eq!(won.legal_moves, vec![6, 7, 8, 9]);
}

#[test]
fn no_move_is_accepted_in_a_closed_game() {
    let (mut g, mut router, a, b) = start();
    g.win = State::Draw;
    assert!(!g.play_move("alice", 1, &mut router));
    assert_eq!(g.board, [State::Open; 9]);
    assert_eq!(g.turn, "alice");
    assert_eq!(g.legal_moves, vec![1, 2, 3, 4, 5, 6, 7, 8, 9]);
    assert_eq!(g.last_move, None);
    assert_eq!(drain(&mut router, a), vec!["\n1 is not a legal move".to_string()]);
    assert!(!g.play_move("bob", 1, &mut router));
    assert_eq!(drain(&mut router, b), vec!["\nit is not your turn".to_string()]);
    assert_eq!(g.board, [State::Open; 9]);
}

#[test]
fn legal_moves_only_shrink() {
    let (mut g, mut router, _, _) = start();
    let mut before = g.legal_moves.clone();
    for (k, square) in [5usize, 5, 1, 12, 9, 1, 3].iter().enumerate() {
        let who = g.turn.clone();
        g.play_move(&who, *square, &mut router);
        g.check_for_result(&mut router);
        assert!(g.legal_moves.iter().all(|m| before.contains(m)), "step {}", k);
        assert!(g.legal_moves.len() <= before.len());
        before = g.legal_moves.clone();
    }
}

#[test]
fn players_of_one_name_both_play_x() {
    // Names are not checked to differ. With one name on both sides it is always the
    // first player's turn.
    let mut router = Router::new();
    let a = router.open();
    let b = router.open();
    let mut g = Game::new("sam".to_string(), "sam".to_string(), a, b);
    assert!(g.play_move("sam", 1, &mut router));
    assert!(g.play_move("sam", 2, &mut router));
    assert_eq!(g.board[0], State::X);
    assert_eq!(g.board[1], State::X);
    assert_eq!(g.turn, "sam");
}

#[test]
fn cloned_game_is_independent() {
    let (mut g, mut router, _, _) = start();
    let snapshot = g.clone();
    assert!(g.play_move("alice", 1, &mut router));
    assert_eq!(snapshot.board, [State::Open; 9]);
    assert_eq!(snapshot.turn, "alice");
    assert_eq!(g.turn, "bob");
}

#[test]
fn game_stays_well_formed() {
    let (mut g, mut router, _, _) = start();
    assert!(g.is_well_formed());
    for (who, square) in [("alice", 1), ("alice", 2), ("bob", 1), ("bob", 4), ("alice", 2)] {
        g.play_move(who, square, &mut router);
        assert!(g.is_well_formed());
        g.check_for_result(&mut router);
        assert!(g.is_well_formed());
    }
    assert!(g.play_move("bob", 5, &mut router));
    assert!(g.play_move("alice", 3, &mut router));
    assert!(g.check_for_result(&mut router));
    assert!(g.is_well_formed());
}

#[test]
fn broken_game_is_found_out() {
    let (g, _, _, _) = start();

    let mut off_board = g.clone();
    off_board.legal_moves.push(10);
    assert!(!off_board.is_well_formed());
    let mut zero = g.clone();
    zero.legal_moves[0] = 0;
    assert!(!zero.is_well_formed());

    let mut twice = g.clone();
    twice.legal_moves.push(3);
    assert!(!twice.is_well_formed());

    let mut taken = g.clone();
    taken.board[4] = State::X;
    assert!(!taken.is_well_formed());
    taken.legal_moves.retain(|m| *m != 5);
    assert!(taken.is_well_formed());

    let mut result_on_board = g.clone();
    result_on_board.board[0] = State::Draw;
    result_on_board.legal_moves.remove(0);
    assert!(!result_on_board.is_well_formed());

    let mut nobody = g.clone();
    nobody.turn = "carol".to_string();
    assert!(!nobody.is_well_formed());
    nobody.turn = "bob".to_string();
    assert!(nobody.is_well_formed());
}
