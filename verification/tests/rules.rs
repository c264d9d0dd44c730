use tic_tac_toe::{Game, GameState, Player, SetError};

/// Plays the moves in turn, `X` first, and expects each to leave the game ongoing.
fn play_on(game: &mut Game, moves: &[&[usize]]) {
    for position in moves {
        let player = game.active_player();
        assert_eq!(Ok(GameState::Ongoing), game.set(player, position));
    }
}

#[test]
fn fresh_game_is_ongoing_with_x_to_move() {
    let sizes: [(usize, usize); 6] = [(1, 1), (1, 5), (2, 3), (3, 3), (3, 4), (5, 2)];
    for (dimensions, board_size) in sizes {
        let game = Game::new(dimensions, board_size);
        assert_eq!(GameState::Ongoing, game.game_state());
        assert_eq!(0, game.turns());
        assert_eq!(Player::X, game.active_player());
    }
}

#[test]
fn fresh_games_of_one_shape_are_equal() {
    assert_eq!(Game::new(3, 4), Game::new(3, 4));
    assert_ne!(Game::new(2, 3), Game::new(3, 2));
}

#[test]
fn not_swaps_the_players() {
    assert_eq!(Player::O, !Player::X);
    assert_eq!(Player::X, !Player::O);
    assert_eq!(Player::X, !!Player::X);
    assert_eq!(Player::O, !!Player::O);
}

#[test]
fn occupied_cell_is_refused_and_nothing_changes() {
    let mut game = Game::new(2, 3);
    play_on(&mut game, &[&[0, 0], &[1, 1]]);
    let before = game.clone();
    assert_eq!(Err(SetError::Occupied), game.set(Player::X, &[0, 0]));
    assert_eq!(Err(SetError::Occupied), game.set(Player::X, &[1, 1]));
    assert_eq!(before, game);
    assert_eq!(2, game.turns());
    assert_eq!(Player::X, game.active_player());
    assert_eq!(GameState::Ongoing, game.game_state());
}

#[test]
fn wrong_player_is_refused_and_nothing_changes() {
    let mut game = Game::new(2, 3);
    let before = game.clone();
    assert_eq!(Err(SetError::WrongPlayer), game.set(Player::O, &[1, 1]));
    assert_eq!(before, game);
    assert_eq!(Ok(GameState::Ongoing), game.set(Player::X, &[1, 1]));
    let before = game.clone();
    assert_eq!(Err(SetError::WrongPlayer), game.set(Player::X, &[0, 0]));
    assert_eq!(before, game);
    assert_eq!(1, game.turns());
    assert_eq!(Player::O, game.active_player());
}

#[test]
fn wrong_number_of_coordinates_is_refused() {
    let mut game = Game::new(3, 3);
    let before = game.clone();
    assert_eq!(Err(SetError::InvalidDimension), game.set(Player::X, &[]));
    assert_eq!(Err(SetError::InvalidDimension), game.set(Player::X, &[1]));
    assert_eq!(Err(SetError::InvalidDimension), game.set(Player::X, &[1, 1]));
    assert_eq!(
        Err(SetError::InvalidDimension),
        game.set(Player::X, &[1, 1, 1, 1])
    );
    assert_eq!(before, game);
    assert_eq!(Ok(GameState::Ongoing), game.set(Player::X, &[1, 1, 1]));
}

#[test]
fn coordinate_off_the_board_is_refused() {
    let mut game = Game::new(2, 3);
    let before = game.clone();
    assert_eq!(Err(SetError::OutOfBounds), game.set(Player::X, &[3, 0]));
    assert_eq!(Err(SetError::OutOfBounds), game.set(Player::X, &[0, 3]));
    assert_eq!(Err(SetError::OutOfBounds), game.set(Player::X, &[3, 3]));
    assert_eq!(
        Err(SetError::OutOfBounds),
        game.set(Player::X, &[usize::MAX, 0])
    );
    assert_eq!(
        Err(SetError::OutOfBounds),
        game.set(Player::X, &[2, usize::MAX])
    );
    assert_eq!(before, game);
    assert_eq!(Ok(GameState::Ongoing), game.set(Player::X, &[2, 2]));
}

#[test]
fn first_reason_to_refuse_is_reported() {
    let mut game = Game::new(2, 2);
    assert_eq!(Ok(GameState::Ongoing), game.set(Player::X, &[0, 0]));
    // O is to move: a move by X is out of turn whatever else is wrong with it.
    assert_eq!(Err(SetError::WrongPlayer), game.set(Player::X, &[0, 0, 0]));
    assert_eq!(Err(SetError::WrongPlayer), game.set(Player::X, &[5, 5]));
    assert_eq!(Err(SetError::WrongPlayer), game.set(Player::X, &[0, 0]));
    // The number of coordinates is looked at before their values.
    assert_eq!(Err(SetError::InvalidDimension), game.set(Player::O, &[5, 5, 5]));
    assert_eq!(Err(SetError::InvalidDimension), game.set(Player::O, &[9]));
    assert_eq!(Err(SetError::OutOfBounds), game.set(Player::O, &[0, 2]));
    assert_eq!(Err(SetError::Occupied), game.set(Player::O, &[0, 0]));
    assert_eq!(Ok(GameState::Ongoing), game.set(Player::O, &[1, 1]));
    assert_eq!(
        Ok(GameState::Victory(Player::X)),
        game.set(Player::X, &[1, 0])
    );
    // The game is over: that comes before every other reason.
    assert_eq!(Err(SetError::GameFinished), game.set(Player::O, &[0, 1]));
    assert_eq!(Err(SetError::GameFinished), game.set(Player::X, &[0, 1]));
    assert_eq!(Err(SetError::GameFinished), game.set(Player::O, &[0, 0]));
    assert_eq!(Err(SetError::GameFinished), game.set(Player::O, &[7, 7]));
    assert_eq!(Err(SetError::GameFinished), game.set(Player::O, &[0]));
}

#[test]
fn finished_game_is_frozen() {
    let mut game = Game::new(2, 3);
    play_on(&mut game, &[&[0, 0], &[0, 1], &[1, 0], &[1, 1]]);
    assert_eq!(
        Ok(GameState::Victory(Player::X)),
        game.set(Player::X, &[2, 0])
    );
    let won = game.clone();
    for x in 0..3 {
        for y in 0..3 {
            assert_eq!(Err(SetError::GameFinished), game.set(Player::O, &[x, y]));
            assert_eq!(Err(SetError::GameFinished), game.set(Player::X, &[x, y]));
        }
    }
    assert_eq!(won, game);
    assert_eq!(GameState::Victory(Player::X), game.game_state());
    assert_eq!(5, game.turns());
}

#[test]
fn turns_count_accepted_moves_only() {
    let mut game = Game::new(2, 3);
    let moves: [[usize; 2]; 4] = [[1, 1], [0, 0], [2, 0], [0, 2]];
    let mut placed = 0;
    for position in moves {
        assert_eq!(placed, game.turns());
        let player = game.active_player();
        assert_eq!(Err(SetError::WrongPlayer), game.set(!player, &position));
        assert_eq!(placed, game.turns());
        assert_eq!(Ok(GameState::Ongoing), game.set(player, &position));
        placed += 1;
        assert_eq!(placed, game.turns());
        assert_eq!(Err(SetError::Occupied), game.set(!player, &position));
        assert_eq!(placed, game.turns());
    }
    assert_eq!(4, game.turns());
}

#[test]
fn players_alternate_from_x() {
    let mut game = Game::new(3, 3);
    let moves: [[usize; 3]; 6] = [
        [0, 0, 0],
        [1, 1, 1],
        [0, 0, 1],
        [2, 2, 2],
        [0, 1, 0],
        [2, 0, 2],
    ];
    let mut expected = Player::X;
    for position in moves {
        assert_eq!(expected, game.active_player());
        assert_eq!(Ok(GameState::Ongoing), game.set(expected, &position));
        expected = !expected;
    }
    assert_eq!(Player::X, game.active_player());
    assert_eq!(6, game.turns());
}

#[test]
fn full_board_without_line_is_a_draw() {
    // X O X
    // X O O
    // O X X
    let mut game = Game::new(2, 3);
    play_on(
        &mut game,
        &[
            &[0, 0],
            &[1, 0],
            &[2, 0],
            &[1, 1],
            &[0, 1],
            &[2, 1],
            &[1, 2],
            &[0, 2],
        ],
    );
    assert_eq!(8, game.turns());
    assert_eq!(Ok(GameState::Draw), game.set(Player::X, &[2, 2]));
    assert_eq!(GameState::Draw, game.game_state());
    assert_eq!(9, game.turns());
    assert_eq!(Err(SetError::GameFinished), game.set(Player::O, &[0, 0]));
    assert_eq!(9, game.turns());
}

#[test]
fn last_cell_that_completes_a_line_wins() {
    // X O X
    // O X O
    // O X X    with the centre placed last
    let mut game = Game::new(2, 3);
    play_on(
        &mut game,
        &[
            &[0, 0],
            &[1, 0],
            &[2, 0],
            &[2, 1],
            &[1, 2],
            &[0, 1],
            &[2, 2],
            &[0, 2],
        ],
    );
    assert_eq!(
        Ok(GameState::Victory(Player::X)),
        game.set(Player::X, &[1, 1])
    );
    assert_eq!(9, game.turns());
}

#[test]
fn one_dimensional_boards() {
    let mut game = Game::new(1, 2);
    assert_eq!(Ok(GameState::Ongoing), game.set(Player::X, &[1]));
    assert_eq!(Ok(GameState::Draw), game.set(Player::O, &[0]));
    assert_eq!(2, game.turns());

    let mut game = Game::new(1, 3);
    assert_eq!(Ok(GameState::Ongoing), game.set(Player::X, &[0]));
    assert_eq!(Ok(GameState::Ongoing), game.set(Player::O, &[2]));
    assert_eq!(Ok(GameState::Draw), game.set(Player::X, &[1]));
    assert_eq!(3, game.turns());
}

#[test]
fn side_of_one_is_won_by_the_first_move() {
    let mut game = Game::new(1, 1);
    assert_eq!(Ok(GameState::Victory(Player::X)), game.set(Player::X, &[0]));
    assert_eq!(GameState::Victory(Player::X), game.game_state());
    assert_eq!(1, game.turns());
    assert_eq!(Err(SetError::GameFinished), game.set(Player::O, &[0]));

    let mut game = Game::new(3, 1);
    assert_eq!(Err(SetError::OutOfBounds), game.set(Player::X, &[0, 1, 0]));
    assert_eq!(
        Ok(GameState::Victory(Player::X)),
        game.set(Player::X, &[0, 0, 0])
    );
    assert_eq!(1, game.turns());

    let mut game = Game::new(70, 1);
    let origin = vec![0usize; 70];
    assert_eq!(
        Ok(GameState::Victory(Player::X)),
        game.set(Player::X, &origin)
    );
}

#[test]
fn lines_along_each_axis_win() {
    // a row: the first axis moves
    let mut game = Game::new(2, 3);
    play_on(&mut game, &[&[0, 1], &[0, 0], &[1, 1], &[1, 0]]);
    assert_eq!(
        Ok(GameState::Victory(Player::X)),
        game.set(Player::X, &[2, 1])
    );
    // a column: the second axis moves
    let mut game = Game::new(2, 3);
    play_on(&mut game, &[&[2, 2], &[0, 0], &[2, 0], &[1, 0]]);
    assert_eq!(
        Ok(GameState::Victory(Player::X)),
        game.set(Player::X, &[2, 1])
    );
    // the third axis moves, O wins
    let mut game = Game::new(3, 3);
    play_on(
        &mut game,
        &[&[0, 0, 0], &[1, 2, 0], &[0, 0, 1], &[1, 2, 2], &[2, 2, 2]],
    );
    assert_eq!(
        Ok(GameState::Victory(Player::O)),
        game.set(Player::O, &[1, 2, 1])
    );
}

#[test]
fn both_diagonals_of_a_square_win() {
    let mut game = Game::new(2, 3);
    play_on(&mut game, &[&[0, 0], &[1, 0], &[2, 2], &[0, 1]]);
    assert_eq!(
        Ok(GameState::Victory(Player::X)),
        game.set(Player::X, &[1, 1])
    );

    let mut game = Game::new(2, 3);
    play_on(&mut game, &[&[2, 0], &[1, 0], &[0, 2], &[0, 1]]);
    assert_eq!(
        Ok(GameState::Victory(Player::X)),
        game.set(Player::X, &[1, 1])
    );
}

#[test]
fn space_diagonals_win() {
    // forward, mirrored, forward
    let mut game = Game::new(3, 3);
    play_on(
        &mut game,
        &[&[0, 2, 0], &[0, 0, 0], &[2, 0, 2], &[0, 0, 1]],
    );
    assert_eq!(
        Ok(GameState::Victory(Player::X)),
        game.set(Player::X, &[1, 1, 1])
    );
    // mirrored, mirrored, forward, completed at the far end
    let mut game = Game::new(3, 4);
    play_on(
        &mut game,
        &[
            &[3, 3, 0],
            &[0, 0, 0],
            &[2, 2, 1],
            &[0, 0, 1],
            &[1, 1, 2],
            &[0, 1, 0],
        ],
    );
    assert_eq!(
        Ok(GameState::Victory(Player::X)),
        game.set(Player::X, &[0, 0, 3])
    );
}

#[test]
fn lines_with_pinned_and_mirrored_axes_win() {
    // the first axis stays at 2, the second runs forward, the third backward
    let mut game = Game::new(3, 3);
    play_on(
        &mut game,
        &[&[2, 0, 2], &[0, 0, 0], &[2, 2, 0], &[0, 0, 1]],
    );
    assert_eq!(
        Ok(GameState::Victory(Player::X)),
        game.set(Player::X, &[2, 1, 1])
    );
}

#[test]
fn any_two_cells_of_a_side_of_two_make_a_line() {
    let mut game = Game::new(4, 2);
    play_on(&mut game, &[&[0, 1, 1, 0], &[0, 0, 0, 0]]);
    assert_eq!(
        Ok(GameState::Victory(Player::X)),
        game.set(Player::X, &[1, 0, 1, 1])
    );
    assert_eq!(3, game.turns());
}

#[test]
fn three_marks_off_a_line_do_not_win() {
    let mut game = Game::new(2, 3);
    play_on(
        &mut game,
        &[&[0, 0], &[2, 2], &[1, 1], &[2, 1], &[2, 0], &[0, 2]],
    );
    assert_eq!(Ok(GameState::Ongoing), game.set(Player::X, &[0, 1]));
    assert_eq!(GameState::Ongoing, game.game_state());
}

#[test]
fn marks_of_both_players_on_a_line_do_not_win() {
    let mut game = Game::new(1, 3);
    assert_eq!(Ok(GameState::Ongoing), game.set(Player::X, &[0]));
    assert_eq!(Ok(GameState::Ongoing), game.set(Player::O, &[1]));
    assert_eq!(Ok(GameState::Draw), game.set(Player::X, &[2]));
}

#[test]
fn game_state_is_the_same_until_the_next_move() {
    let mut game = Game::new(2, 3);
    assert_eq!(game.game_state(), game.game_state());
    play_on(&mut game, &[&[0, 0], &[0, 1], &[1, 0], &[1, 1]]);
    let first = game.game_state();
    let second = game.game_state();
    assert_eq!(GameState::Ongoing, first);
    assert_eq!(first, second);
    assert_eq!(
        Ok(GameState::Victory(Player::X)),
        game.set(Player::X, &[2, 0])
    );
    assert_eq!(GameState::Victory(Player::X), game.game_state());
    assert_eq!(GameState::Victory(Player::X), game.game_state());
}

#[test]
fn answer_of_set_is_the_new_game_state() {
    let mut game = Game::new(2, 2);
    let first = game.set(Player::X, &[0, 0]);
    assert_eq!(Ok(game.game_state()), first);
    let second = game.set(Player::O, &[1, 0]);
    assert_eq!(Ok(game.game_state()), second);
    let third = game.set(Player::X, &[1, 1]);
    assert_eq!(Ok(GameState::Victory(Player::X)), third);
    assert_eq!(Ok(game.game_state()), third);
}
