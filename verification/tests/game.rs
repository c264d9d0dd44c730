use tic_tac_toe::{Game, GameState, Player, SetError};

#[test]
fn set_err() {
    let mut game = Game::new(2, 3);
    assert_eq!(Ok(GameState::Ongoing), game.set(Player::X, &[1, 1]));

    let clone = game.clone();
    assert_eq!(Err(SetError::WrongPlayer), game.set(Player::X, &[0, 0]));
    assert_eq!(
        Err(SetError::InvalidDimension),
        game.set(Player::O, &[0, 0, 1])
    );
    assert_eq!(Err(SetError::OutOfBounds), game.set(Player::O, &[3, 1]));
    assert_eq!(Err(SetError::Occupied), game.set(Player::O, &[1, 1]));
    assert_eq!(clone, game);
}

#[test]
fn game3x3() {
    let mut game = Game::new(2, 3);
    assert_eq!(Ok(GameState::Ongoing), game.set(Player::X, &[1, 1]));
    assert_eq!(Ok(GameState::Ongoing), game.set(Player::O, &[0, 0]));
    assert_eq!(Ok(GameState::Ongoing), game.set(Player::X, &[2, 0]));
    assert_eq!(Ok(GameState::Ongoing), game.set(Player::O, &[0, 2]));
    assert_eq!(Ok(GameState::Ongoing), game.set(Player::X, &[0, 1]));
    assert_eq!(Ok(GameState::Ongoing), game.set(Player::O, &[2, 1]));
    assert_eq!(Ok(GameState::Ongoing), game.set(Player::X, &[1, 0]));
    assert_eq!(Ok(GameState::Ongoing), game.set(Player::O, &[2, 2]));
    assert_eq!(
        Ok(GameState::Victory(Player::X)),
        game.set(Player::X, &[1, 2])
    );
    assert_eq!(GameState::Victory(Player::X), game.game_state());
}

#[test]
fn game3x3x3() {
    let mut game = Game::new(3, 3);
    assert_eq!(Ok(GameState::Ongoing), game.set(Player::X, &[1, 1, 1]));
    assert_eq!(Ok(GameState::Ongoing), game.set(Player::O, &[2, 2, 2]));
    assert_eq!(Ok(GameState::Ongoing), game.set(Player::X, &[1, 0, 1]));
    assert_eq!(Ok(GameState::Ongoing), game.set(Player::O, &[1, 2, 1]));
    assert_eq!(Ok(GameState::Ongoing), game.set(Player::X, &[0, 2, 0]));
    assert_eq!(Ok(GameState::Ongoing), game.set(Player::O, &[2, 0, 2]));
    assert_eq!(Ok(GameState::Ongoing), game.set(Player::X, &[2, 1, 2]));
    assert_eq!(Ok(GameState::Ongoing), game.set(Player::O, &[0, 1, 0]));
    assert_eq!(Ok(GameState::Ongoing), game.set(Player::X, &[0, 0, 2]));
    assert_eq!(Ok(GameState::Ongoing), game.set(Player::O, &[2, 2, 0]));
    assert_eq!(Ok(GameState::Ongoing), game.set(Player::X, &[2, 2, 1]));
    assert_eq!(
        Ok(GameState::Victory(Player::O)),
        game.set(Player::O, &[2, 1, 1])
    );
    assert_eq!(GameState::Victory(Player::O), game.game_state());
    assert_eq!(Err(SetError::GameFinished), game.set(Player::X, &[0, 0, 0]));
}

#[test]
fn game4x4x4() {
    let mut game = Game::new(3, 4);
    assert_eq!(Ok(GameState::Ongoing), game.set(Player::X, &[1, 1, 1]));
    assert_eq!(Ok(GameState::Ongoing), game.set(Player::O, &[2, 2, 2]));
    assert_eq!(Ok(GameState::Ongoing), game.set(Player::X, &[1, 2, 2]));
    assert_eq!(Ok(GameState::Ongoing), game.set(Player::O, &[1, 2, 1]));
    assert_eq!(Ok(GameState::Ongoing), game.set(Player::X, &[1, 0, 0]));
    assert_eq!(Ok(GameState::Ongoing), game.set(Player::O, &[1, 3, 3]));
    assert_eq!(Ok(GameState::Ongoing), game.set(Player::X, &[0, 0, 0]));
    assert_eq!(Ok(GameState::Ongoing), game.set(Player::O, &[2, 0, 0]));
    assert_eq!(Ok(GameState::Ongoing), game.set(Player::X, &[2, 1, 1]));
    assert_eq!(Ok(GameState::Ongoing), game.set(Player::O, &[0, 3, 3]));
    assert_eq!(Ok(GameState::Ongoing), game.set(Player::X, &[2, 3, 3]));
    assert_eq!(Ok(GameState::Ongoing), game.set(Player::O, &[0, 3, 0]));
    assert_eq!(Ok(GameState::Ongoing), game.set(Player::X, &[0, 3, 1]));
    assert_eq!(Ok(GameState::Ongoing), game.set(Player::O, &[2, 1, 2]));
    assert_eq!(Ok(GameState::Ongoing), game.set(Player::X, &[1, 3, 1]));
    assert_eq!(
        Ok(GameState::Victory(Player::O)),
        game.set(Player::O, &[3, 0, 3])
    );
    assert_eq!(GameState::Victory(Player::O), game.game_state());
    assert_eq!(Err(SetError::GameFinished), game.set(Player::X, &[0, 0, 0]));
}

#[test]
fn ordinary_game() {
    let mut game = Game::new(2, 3);
    // ---
    // ---
    // ---
    assert_eq!(Ok(GameState::Ongoing), game.set(Player::X, &[1, 1]));
    // ---
    // -X-
    // ---
    assert_eq!(Ok(GameState::Ongoing), game.set(Player::O, &[0, 0]));
    // O--
    // -X-
    // ---
    assert_eq!(Ok(GameState::Ongoing), game.set(Player::X, &[2, 0]));
    // O--
    // -X-
    // X--
    assert_eq!(Ok(GameState::Ongoing), game.set(Player::O, &[0, 2]));
    // O-O
    // -X-
    // X--
    assert_eq!(Ok(GameState::Ongoing), game.set(Player::X, &[0, 1]));
    // OXO
    // -X-
    // X--
    assert_eq!(Ok(GameState::Ongoing), game.set(Player::O, &[2, 2]));
    // OXO
    // -X-
    // X-O
    assert_eq!(
        Ok(GameState::Victory(Player::X)),
        game.set(Player::X, &[2, 1])
    );
    // OXO
    // -X-
    // XXO
}

#[test]
fn turns_after_one_piece() {
    let mut game = Game::new(2, 3);

    assert_eq!(0, game.turns());
    game.set(Player::X, &[1, 1]).unwrap();
    assert_eq!(1, game.turns());
}

#[test]
fn active_player_after_one_piece() {
    let mut game = Game::new(2, 3);

    assert_eq!(Player::X, game.active_player());
    game.set(Player::X, &[1, 1]).unwrap();
    assert_eq!(Player::O, game.active_player());
}

#[test]
fn set_twice_at_one_position() {
    let mut game = Game::new(2, 3);

    assert_eq!(Ok(GameState::Ongoing), game.set(Player::X, &[1, 1]));
    assert_eq!(Err(SetError::Occupied), game.set(Player::O, &[1, 1]));
}
