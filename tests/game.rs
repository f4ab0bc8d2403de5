use tictactoe::Player::{O, X};
use tictactoe::{Game, GameState, Player, Position, TileState, TryPlaceResult};

fn at(x: usize, y: usize) -> Position {
    Position { x, y }
}

#[test]
fn toggle_and_symbols() {
    assert_eq!(Player::X.toggle(), Player::O);
    assert_eq!(Player::O.toggle(), Player::X);
    assert_eq!(Player::X.symbol(), "X");
    assert_eq!(Player::O.symbol(), "O");
    assert_eq!(TileState(Some(Player::O)).symbol(), "O");
    assert_eq!(TileState(None).symbol(), " ");
}

#[test]
fn new_game_is_empty_and_running() {
    let g = Game::new(Player::O);
    assert_eq!(g.state, GameState::Running);
    assert_eq!(g.turn, Player::O);
    assert_eq!(g.first_turn, Player::O);
    for y in 0..3 {
        for x in 0..3 {
            assert_eq!(g.get_tile(x, y), TileState(None));
        }
    }
}

#[test]
fn placing_on_empty_cell_succeeds() {
    for y in 0..3 {
        for x in 0..3 {
            let mut g = Game::new(Player::X);
            assert_eq!(g.try_place(x, y, Player::O), TryPlaceResult::Success);
            assert_eq!(g.get_tile(x, y), TileState(Some(Player::O)));
        }
    }
}

#[test]
fn placing_twice_reports_occupied() {
    let mut g = Game::new(Player::X);
    assert_eq!(g.try_place(1, 2, Player::X), TryPlaceResult::Success);
    let after_first = g.board;
    assert_eq!(g.try_place(1, 2, Player::O), TryPlaceResult::Occupied);
    assert_eq!(g.board, after_first);
    assert_eq!(g.get_tile(1, 2), TileState(Some(Player::X)));
}

#[test]
fn out_of_bounds_placements() {
    let mut g = Game::new(Player::X);
    assert_eq!(g.try_place(3, 0, Player::X), TryPlaceResult::ColumnOutOfBounds);
    assert_eq!(g.try_place(0, 3, Player::X), TryPlaceResult::RowOutOfBounds);
    assert_eq!(g.try_place(7, 9, Player::X), TryPlaceResult::ColumnOutOfBounds);
    assert_eq!(g.board, Game::new(Player::X).board);
}

#[test]
fn three_in_column_zero_wins() {
    let mut g = Game::new(Player::X);
    let moves = [
        (Player::X, 0, 0),
        (Player::O, 1, 0),
        (Player::X, 0, 1),
        (Player::O, 1, 1),
        (Player::X, 0, 2),
    ];
    for (p, x, y) in moves {
        assert_eq!(g.try_place(x, y, p), TryPlaceResult::Success);
        if (x, y) != (0, 2) {
            g.check_win_condition();
            assert_eq!(g.state, GameState::Running);
        }
    }
    g.check_win_condition();
    assert_eq!(g.state, GameState::Won(Player::X));
}

#[test]
fn rounds_play_to_a_win() {
    let mut g = Game::new(Player::X);
    for (x, y) in [(0, 0), (1, 0), (0, 1), (1, 1)] {
        assert_eq!(g.play_round(at(x, y)), Some(TryPlaceResult::Success));
        assert_eq!(g.state, GameState::Running);
    }
    assert_eq!(g.play_round(at(0, 2)), Some(TryPlaceResult::Success));
    assert_eq!(g.state, GameState::Won(Player::X));
    assert_eq!(g.turn, Player::O);
    let board = g.board;
    assert_eq!(g.play_round(at(2, 2)), None);
    assert_eq!(g.board, board);
    assert_eq!(g.state, GameState::Won(Player::X));
}

fn fill(g: &mut Game, rows: [[Player; 3]; 3]) {
    for y in 0..3 {
        for x in 0..3 {
            assert_eq!(g.try_place(x, y, rows[y][x]), TryPlaceResult::Success);
        }
    }
}

#[test]
fn full_board_without_line_ties() {
    let mut g = Game::new(X);
    fill(&mut g, [[X, O, X], [X, O, O], [O, X, X]]);
    g.check_win_condition();
    assert_eq!(g.state, GameState::Tie);
}

#[test]
fn win_on_full_board_is_a_win() {
    let mut g = Game::new(X);
    fill(&mut g, [[X, O, X], [O, X, O], [O, X, X]]);
    g.check_win_condition();
    assert_eq!(g.state, GameState::Won(X));
}

#[test]
fn rising_diagonal_wins() {
    let mut g = Game::new(X);
    fill(&mut g, [[O, O, X], [O, X, X], [X, O, O]]);
    g.check_win_condition();
    assert_eq!(g.state, GameState::Won(X));
}

#[test]
fn running_board_stays_running() {
    let mut g = Game::new(Player::X);
    g.check_win_condition();
    assert_eq!(g.state, GameState::Running);
    g.try_place(1, 1, Player::X);
    g.check_win_condition();
    assert_eq!(g.state, GameState::Running);
}

#[test]
fn turn_alternates_with_successful_placements() {
    let mut g = Game::new(Player::X);
    let mut placed = 0;
    let tries = [(0, 0), (0, 0), (1, 0), (5, 0), (0, 5), (2, 2), (1, 0), (2, 1)];
    for (x, y) in tries {
        if g.play_round(at(x, y)) == Some(TryPlaceResult::Success) {
            placed += 1;
        }
        let expected = if placed % 2 == 0 { Player::X } else { Player::O };
        assert_eq!(g.turn, expected);
    }
    assert_eq!(placed, 4);
}

#[test]
fn evaluation_twice_gives_the_same_state() {
    let mut g = Game::new(X);
    fill(&mut g, [[X, O, X], [X, O, O], [O, X, X]]);
    g.check_win_condition();
    let first = g.state;
    g.check_win_condition();
    assert_eq!(g.state, first);

    let mut g = Game::new(X);
    for (x, y) in [(0, 0), (1, 0), (0, 1), (1, 1), (0, 2)] {
        g.play_round(at(x, y));
    }
    let first = g.state;
    g.check_win_condition();
    assert_eq!(g.state, first);
    assert_eq!(first, GameState::Won(X));
}

#[test]
fn lines_of_the_board() {
    let mut g = Game::new(X);
    fill(&mut g, [[X, O, X], [O, X, O], [O, O, X]]);
    let t = |p| TileState(Some(p));
    assert_eq!(g.get_row(1), vec![t(O), t(X), t(O)]);
    assert_eq!(g.get_column(0), vec![t(X), t(O), t(O)]);
    assert_eq!(g.get_diagonal(true), vec![t(X), t(X), t(X)]);
    assert_eq!(g.get_diagonal(false), vec![t(O), t(X), t(X)]);
    let ranges = g.get_win_ranges();
    assert_eq!(ranges.len(), 8);
    assert_eq!(ranges[0], g.get_diagonal(true));
    assert_eq!(ranges[1], g.get_diagonal(false));
    assert_eq!(ranges[2], g.get_row(0));
    assert_eq!(ranges[4], g.get_row(2));
    assert_eq!(ranges[5], g.get_column(0));
    assert_eq!(ranges[7], g.get_column(2));
}

#[test]
fn range_winner() {
    let t = |p| TileState(Some(p));
    assert_eq!(Game::range_won_by(&vec![t(X), t(X), t(X)]), Some(X));
    assert_eq!(Game::range_won_by(&vec![t(O), t(O), t(O)]), Some(O));
    assert_eq!(Game::range_won_by(&vec![t(O), t(X), t(O)]), None);
    assert_eq!(Game::range_won_by(&vec![t(O), TileState(None), t(O)]), None);
}

#[test]
fn renders_empty_board() {
    let g = Game::new(Player::X);
    assert_eq!(g.render(), " | | \n- - - \n | | \n- - - \n | | ");
}

#[test]
fn renders_marks() {
    let mut g = Game::new(Player::X);
    g.try_place(0, 0, Player::X);
    g.try_place(2, 1, Player::O);
    g.try_place(1, 2, Player::X);
    assert_eq!(g.render(), "X| | \n- - - \n | |O\n- - - \n |X| ");
}
