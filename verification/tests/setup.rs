use homeworlds::game::Game;
use homeworlds::kinds::{Color, Player, Size};
use homeworlds::moves::Move;
use homeworlds::position::Piece;
use homeworlds::turn::{Phase, Turn};

#[test]
fn fresh_game() {
    let mut game = Game::new();
    assert_eq!(game.turn(), Turn { player: Player::White, phase: Phase::Star1 });
    assert_eq!(game.moving_piece(), None);
    assert_eq!(game.home_star(Player::White), None);
    assert_eq!(game.home_star(Player::Black), None);
    assert_eq!(game.repetition_count(), 0);
    for k in 0..36u8 {
        assert_eq!(game.piece(k), Piece::Empty);
    }
    assert!(game.process_move(Move::Select(Size::Small, Color::Red)));
    assert_eq!(game.piece(0), Piece::BinaryFirst { child: None, sibling: None });
    assert_eq!(game.home_star(Player::White), Some(0));
    assert_eq!(game.turn(), Turn { player: Player::White, phase: Phase::Star2 });
    assert_eq!(game.remaining(Size::Small, Color::Red), 2);
    assert_eq!(game.remaining(Size::Medium, Color::Red), 3);
}

#[test]
fn complete_setup() {
    let mut game = Game::new();
    assert!(game.process_move(Move::Select(Size::Small, Color::Red)));
    assert!(game.process_move(Move::Select(Size::Medium, Color::Red)));
    assert_eq!(game.turn(), Turn { player: Player::White, phase: Phase::Ship });
    assert!(game.process_move(Move::Select(Size::Large, Color::Yellow)));
    assert_eq!(game.turn(), Turn { player: Player::Black, phase: Phase::Star1 });
    assert!(game.process_move(Move::Select(Size::Small, Color::Blue)));
    assert!(game.process_move(Move::Select(Size::Medium, Color::Blue)));
    assert!(game.process_move(Move::Select(Size::Large, Color::Green)));
    assert_eq!(game.turn(), Turn { player: Player::White, phase: Phase::Action });
    assert_eq!(game.home_star(Player::White), Some(0));
    assert_eq!(game.home_star(Player::Black), Some(27));
    assert_eq!(game.piece(0), Piece::BinaryFirst { child: Some(15), sibling: Some(3) });
    assert_eq!(game.piece(3), Piece::BinarySecond { sibling: 0 });
    assert_eq!(
        game.piece(15),
        Piece::Ship { parent: 0, next_sibling: 15, owner: Player::White }
    );
    assert_eq!(game.piece(27), Piece::BinaryFirst { child: Some(24), sibling: Some(30) });
    assert_eq!(game.piece(30), Piece::BinarySecond { sibling: 27 });
    assert_eq!(
        game.piece(24),
        Piece::Ship { parent: 27, next_sibling: 24, owner: Player::Black }
    );
    assert_eq!(game.remaining(Size::Large, Color::Yellow), 2);
    assert_eq!(game.remaining(Size::Large, Color::Green), 2);
    // no further selection once setup is over
    assert!(!game.process_move(Move::Select(Size::Small, Color::Red)));
}
