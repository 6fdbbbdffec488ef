use homeworlds::game::Game;
use homeworlds::kinds::{key_color, key_size, Ability, Color, Player, Size};
use homeworlds::moves::Move;
use homeworlds::position::Piece;
use homeworlds::turn::{Phase, Turn};

const SIZES: [Size; 3] = [Size::Small, Size::Medium, Size::Large];
const COLORS: [Color; 4] = [Color::Red, Color::Yellow, Color::Green, Color::Blue];

fn ship(parent: u8, next_sibling: u8, owner: Player) -> Piece {
    Piece::Ship { parent, next_sibling, owner }
}

fn turn(player: Player, phase: Phase) -> Turn {
    Turn { player, phase }
}

/// What must hold of every position: the stock and the board add up, every
/// ship stands at a star, every ring closes over distinct ships of its
/// system and holds all of them, and the halves of a binary system name each
/// other.
fn check_position(game: &Game) {
    for size in SIZES {
        for color in COLORS {
            let mut on_board = 0;
            for k in 0..36u8 {
                if key_size(k) == size && key_color(k) == color && game.piece(k) != Piece::Empty {
                    on_board += 1;
                }
            }
            assert_eq!(game.remaining(size, color) + on_board, 3);
        }
    }
    for k in 0..36u8 {
        match game.piece(k) {
            Piece::Empty => {}
            Piece::Star { child } => check_ring(game, k, child),
            Piece::BinaryFirst { child, sibling } => {
                check_ring(game, k, child);
                if let Some(x) = sibling {
                    assert_eq!(game.piece(x), Piece::BinarySecond { sibling: k });
                }
            }
            Piece::BinarySecond { sibling } => match game.piece(sibling) {
                Piece::BinaryFirst { sibling: back, .. } => assert_eq!(back, Some(k)),
                other => panic!("second star {} names {:?}", k, other),
            },
            Piece::Ship { parent, next_sibling, .. } => {
                assert!(matches!(
                    game.piece(parent),
                    Piece::Star { .. } | Piece::BinaryFirst { .. }
                ));
                match game.piece(next_sibling) {
                    Piece::Ship { parent: other, .. } => assert_eq!(other, parent),
                    other => panic!("ship {} is followed by {:?}", k, other),
                }
                let mut before = 0;
                for q in 0..36u8 {
                    if let Piece::Ship { next_sibling: n, .. } = game.piece(q) {
                        if n == k {
                            before += 1;
                        }
                    }
                }
                assert_eq!(before, 1);
            }
        }
    }
    if let Some(f) = game.moving_piece() {
        assert!(matches!(game.piece(f), Piece::Ship { .. }));
    }
}

fn check_ring(game: &Game, star: u8, child: Option<u8>) {
    let mut at_star = 0;
    for k in 0..36u8 {
        if let Piece::Ship { parent, .. } = game.piece(k) {
            if parent == star {
                at_star += 1;
            }
        }
    }
    match child {
        None => assert_eq!(at_star, 0),
        Some(first) => {
            let mut seen = vec![];
            let mut cur = first;
            loop {
                assert!(!seen.contains(&cur));
                seen.push(cur);
                match game.piece(cur) {
                    Piece::Ship { parent, next_sibling, .. } => {
                        assert_eq!(parent, star);
                        cur = next_sibling;
                    }
                    other => panic!("ring of {} holds {:?}", star, other),
                }
                if cur == first {
                    break;
                }
            }
            assert_eq!(seen.len(), at_star);
        }
    }
}

fn play(game: &mut Game, moves: &[Move]) {
    for m in moves {
        assert!(game.process_move(*m), "refused: {:?}", m);
        check_position(game);
    }
}

fn refused(game: &mut Game, m: Move) {
    let before = snapshot(game);
    assert!(!game.process_move(m), "accepted: {:?}", m);
    assert_eq!(snapshot(game), before);
}

fn snapshot(game: &Game) -> (Vec<Piece>, Turn, Option<u8>, Option<u8>, Option<u8>, Vec<u8>) {
    let mut stock = vec![];
    for size in SIZES {
        for color in COLORS {
            stock.push(game.remaining(size, color));
        }
    }
    (
        (0..36u8).map(|k| game.piece(k)).collect(),
        game.turn(),
        game.moving_piece(),
        game.home_star(Player::White),
        game.home_star(Player::Black),
        stock,
    )
}

/// White: small red and medium red stars, a large yellow ship.
/// Black: small blue and medium blue stars, a large green ship.
fn standard_setup() -> Game {
    let mut game = Game::new();
    play(
        &mut game,
        &[
            Move::Select(Size::Small, Color::Red),
            Move::Select(Size::Medium, Color::Red),
            Move::Select(Size::Large, Color::Yellow),
            Move::Select(Size::Small, Color::Blue),
            Move::Select(Size::Medium, Color::Blue),
            Move::Select(Size::Large, Color::Green),
        ],
    );
    game
}

#[test]
fn select_takes_the_lowest_free_piece() {
    let mut game = Game::new();
    play(
        &mut game,
        &[
            Move::Select(Size::Small, Color::Red),
            Move::Select(Size::Small, Color::Red),
            Move::Select(Size::Small, Color::Red),
        ],
    );
    assert_eq!(game.piece(0), Piece::BinaryFirst { child: Some(2), sibling: Some(1) });
    assert_eq!(game.piece(1), Piece::BinarySecond { sibling: 0 });
    assert_eq!(game.piece(2), ship(0, 2, Player::White));
    assert_eq!(game.remaining(Size::Small, Color::Red), 0);
    // no small red piece is left for Black
    refused(&mut game, Move::Select(Size::Small, Color::Red));
    assert_eq!(game.turn(), turn(Player::Black, Phase::Star1));
    play(&mut game, &[Move::Select(Size::Medium, Color::Red)]);
    assert_eq!(game.piece(3), Piece::BinaryFirst { child: None, sibling: None });
    assert_eq!(game.home_star(Player::Black), Some(3));
}

#[test]
fn only_selection_during_setup() {
    let mut game = Game::new();
    refused(&mut game, Move::Pass);
    refused(&mut game, Move::Attack(0));
    refused(&mut game, Move::Construct(0));
    refused(&mut game, Move::Transform(0, Color::Blue));
    refused(&mut game, Move::Sacrifice(0));
    refused(&mut game, Move::MoveInit(0));
    refused(&mut game, Move::MoveFinish(0));
    refused(&mut game, Move::Catastrophe(0));
    play(&mut game, &[Move::Select(Size::Large, Color::Blue)]);
    assert_eq!(game.piece(33), Piece::BinaryFirst { child: None, sibling: None });
    refused(&mut game, Move::Pass);
    refused(&mut game, Move::MoveFinish(33));
}

#[test]
fn move_requires_connection() {
    let mut game = standard_setup();
    play(&mut game, &[Move::MoveInit(15)]);
    assert_eq!(game.moving_piece(), Some(15));
    assert_eq!(game.turn(), turn(Player::White, Phase::Action));
    // Black's stars are small and medium, as White's are
    refused(&mut game, Move::MoveFinish(27));
    // a ship's own system shares both sizes with itself
    refused(&mut game, Move::MoveFinish(0));
    // not a system
    refused(&mut game, Move::MoveFinish(30));
    refused(&mut game, Move::MoveFinish(15));
    refused(&mut game, Move::MoveFinish(20));
    refused(&mut game, Move::MoveFinish(36));
    assert_eq!(game.moving_piece(), Some(15));
}

#[test]
fn move_to_a_connected_system() {
    let mut game = Game::new();
    play(
        &mut game,
        &[
            Move::Select(Size::Small, Color::Red),
            Move::Select(Size::Medium, Color::Red),
            Move::Select(Size::Large, Color::Yellow),
            Move::Select(Size::Large, Color::Blue),
            Move::Select(Size::Large, Color::Green),
            Move::Select(Size::Small, Color::Green),
            Move::MoveInit(15),
        ],
    );
    assert_eq!(game.piece(33), Piece::BinaryFirst { child: Some(18), sibling: Some(24) });
    play(&mut game, &[Move::MoveFinish(33)]);
    assert_eq!(game.moving_piece(), None);
    assert_eq!(game.turn(), turn(Player::Black, Phase::Action));
    // the ship left its home, which stays as a binary system without ships
    assert_eq!(game.piece(0), Piece::BinaryFirst { child: None, sibling: Some(3) });
    // and follows the child of the system it arrived at
    assert_eq!(game.piece(33), Piece::BinaryFirst { child: Some(18), sibling: Some(24) });
    assert_eq!(game.piece(18), ship(33, 15, Player::Black));
    assert_eq!(game.piece(15), ship(33, 18, Player::White));
    // nothing travels now
    refused(&mut game, Move::MoveFinish(0));
}

#[test]
fn move_to_a_system_without_ships() {
    let mut game = Game::new();
    play(
        &mut game,
        &[
            Move::Select(Size::Small, Color::Red),
            Move::Select(Size::Medium, Color::Red),
            Move::Select(Size::Large, Color::Yellow),
            Move::Select(Size::Large, Color::Yellow),
            Move::Select(Size::Large, Color::Green),
            Move::Select(Size::Small, Color::Green),
            Move::MoveInit(15),
            Move::MoveFinish(16),
            Move::MoveInit(18),
            Move::MoveFinish(0),
        ],
    );
    assert_eq!(game.piece(0), Piece::BinaryFirst { child: Some(18), sibling: Some(3) });
    assert_eq!(game.piece(18), ship(0, 18, Player::Black));
    assert_eq!(game.piece(16), Piece::BinaryFirst { child: Some(15), sibling: Some(24) });
    assert_eq!(game.piece(15), ship(16, 15, Player::White));
    assert_eq!(game.turn(), turn(Player::White, Phase::Action));
}

#[test]
fn nothing_else_while_a_ship_travels() {
    let mut game = standard_setup();
    play(&mut game, &[Move::MoveInit(15)]);
    refused(&mut game, Move::Pass);
    refused(&mut game, Move::MoveInit(15));
    refused(&mut game, Move::Sacrifice(15));
    refused(&mut game, Move::Construct(15));
    refused(&mut game, Move::Transform(15, Color::Red));
    refused(&mut game, Move::Attack(24));
    refused(&mut game, Move::Select(Size::Small, Color::Green));
    assert_eq!(game.moving_piece(), Some(15));
    assert_eq!(game.turn(), turn(Player::White, Phase::Action));
}

#[test]
fn pass_flips_player() {
    let mut game = standard_setup();
    let before = snapshot(&game);
    play(&mut game, &[Move::Pass]);
    assert_eq!(game.turn(), turn(Player::Black, Phase::Action));
    let after = snapshot(&game);
    assert_eq!(after.0, before.0);
    assert_eq!(after.5, before.5);
    play(&mut game, &[Move::Pass]);
    assert_eq!(game.turn(), turn(Player::White, Phase::Action));
}

#[test]
fn abilities_need_their_colour() {
    let mut game = standard_setup();
    // White has red stars and a yellow ship: neither green nor blue
    refused(&mut game, Move::Construct(15));
    refused(&mut game, Move::Transform(15, Color::Green));
    // not White's ship, not a ship, not a piece
    refused(&mut game, Move::MoveInit(24));
    refused(&mut game, Move::MoveInit(0));
    refused(&mut game, Move::MoveInit(36));
    refused(&mut game, Move::Sacrifice(24));
    refused(&mut game, Move::Construct(200));
    // an attack needs an enemy ship
    refused(&mut game, Move::Attack(15));
    refused(&mut game, Move::Attack(3));
    play(&mut game, &[Move::Pass]);
    // Black has blue stars and a green ship: no yellow
    refused(&mut game, Move::MoveInit(24));
    play(&mut game, &[Move::Transform(24, Color::Red)]);
    assert_eq!(game.piece(24), Piece::Empty);
    assert_eq!(game.piece(6), ship(27, 6, Player::Black));
    assert_eq!(game.piece(27), Piece::BinaryFirst { child: Some(6), sibling: Some(30) });
    assert_eq!(game.remaining(Size::Large, Color::Green), 3);
    assert_eq!(game.remaining(Size::Large, Color::Red), 2);
    assert_eq!(game.turn(), turn(Player::White, Phase::Action));
}

#[test]
fn construct_builds_the_lowest_free_piece_of_the_colour() {
    let mut game = standard_setup();
    play(&mut game, &[Move::Pass, Move::Construct(24)]);
    assert_eq!(game.piece(24), ship(27, 18, Player::Black));
    assert_eq!(game.piece(18), ship(27, 24, Player::Black));
    assert_eq!(game.piece(27), Piece::BinaryFirst { child: Some(24), sibling: Some(30) });
    assert_eq!(game.remaining(Size::Small, Color::Green), 2);
    play(&mut game, &[Move::Pass]);
    // the lowest green ship of the player builds
    refused(&mut game, Move::Construct(24));
    play(&mut game, &[Move::Construct(18)]);
    assert_eq!(game.piece(18), ship(27, 19, Player::Black));
    assert_eq!(game.piece(19), ship(27, 24, Player::Black));
    assert_eq!(game.piece(24), ship(27, 18, Player::Black));
}

#[test]
fn transform_in_a_ring_of_three() {
    let mut game = standard_setup();
    play(
        &mut game,
        &[Move::Pass, Move::Construct(24), Move::Pass, Move::Construct(18), Move::Pass],
    );
    // ring 24 -> 18 -> 19 -> 24, entry 24
    play(&mut game, &[Move::Transform(24, Color::Yellow)]);
    // no large yellow piece but 16 and 17 is left: 15 is White's ship
    assert_eq!(game.piece(24), Piece::Empty);
    assert_eq!(game.piece(16), ship(27, 18, Player::Black));
    assert_eq!(game.piece(19), ship(27, 16, Player::Black));
    assert_eq!(game.piece(18), ship(27, 19, Player::Black));
    assert_eq!(game.piece(27), Piece::BinaryFirst { child: Some(16), sibling: Some(30) });
    play(&mut game, &[Move::Pass]);
    // of two equal ships only the lower may act
    refused(&mut game, Move::Transform(19, Color::Red));
    refused(&mut game, Move::Sacrifice(19));
    refused(&mut game, Move::MoveInit(19));
    play(&mut game, &[Move::Transform(18, Color::Red)]);
    assert_eq!(game.piece(18), Piece::Empty);
    assert_eq!(game.piece(1), ship(27, 19, Player::Black));
    assert_eq!(game.piece(16), ship(27, 1, Player::Black));
    assert_eq!(game.piece(19), ship(27, 16, Player::Black));
    assert_eq!(game.piece(27), Piece::BinaryFirst { child: Some(16), sibling: Some(30) });
}

#[test]
fn sacrifice_combo() {
    let mut game = Game::new();
    play(
        &mut game,
        &[
            Move::Select(Size::Small, Color::Red),
            Move::Select(Size::Medium, Color::Blue),
            Move::Select(Size::Medium, Color::Green),
            Move::Select(Size::Small, Color::Blue),
            Move::Select(Size::Medium, Color::Blue),
            Move::Select(Size::Large, Color::Yellow),
            Move::Construct(21),
            Move::Pass,
        ],
    );
    assert_eq!(game.piece(18), ship(0, 21, Player::White));
    play(&mut game, &[Move::Sacrifice(21)]);
    assert_eq!(game.piece(21), Piece::Empty);
    assert_eq!(game.remaining(Size::Medium, Color::Green), 3);
    assert_eq!(game.turn(), turn(Player::White, Phase::Sacrifice(2, Ability::Construct)));
    assert_eq!(game.piece(18), ship(0, 18, Player::White));
    assert_eq!(game.piece(0), Piece::BinaryFirst { child: Some(18), sibling: Some(30) });
    // the sacrifice grants constructions and nothing else
    refused(&mut game, Move::Pass);
    refused(&mut game, Move::Sacrifice(18));
    refused(&mut game, Move::MoveInit(18));
    refused(&mut game, Move::Transform(18, Color::Red));
    play(&mut game, &[Move::Construct(18)]);
    assert_eq!(game.turn(), turn(Player::White, Phase::Sacrifice(1, Ability::Construct)));
    play(&mut game, &[Move::Construct(18)]);
    assert_eq!(game.turn(), turn(Player::Black, Phase::Action));
    assert_eq!(game.piece(18), ship(0, 20, Player::White));
    assert_eq!(game.piece(20), ship(0, 19, Player::White));
    assert_eq!(game.piece(19), ship(0, 18, Player::White));
    assert_eq!(game.remaining(Size::Small, Color::Green), 0);
}

#[test]
fn sacrifice_of_the_last_ship_keeps_a_binary_system() {
    let mut game = standard_setup();
    play(&mut game, &[Move::Sacrifice(15)]);
    assert_eq!(game.piece(15), Piece::Empty);
    assert_eq!(game.piece(0), Piece::BinaryFirst { child: None, sibling: Some(3) });
    assert_eq!(game.piece(3), Piece::BinarySecond { sibling: 0 });
    assert_eq!(game.turn(), turn(Player::White, Phase::Sacrifice(3, Ability::Move)));
    assert_eq!(game.remaining(Size::Large, Color::Yellow), 3);
}

#[test]
fn sacrifice_grants_an_ability_anywhere() {
    let mut game = Game::new();
    play(
        &mut game,
        &[
            Move::Select(Size::Small, Color::Red),
            Move::Select(Size::Medium, Color::Red),
            Move::Select(Size::Large, Color::Green),
            Move::Select(Size::Large, Color::Blue),
            Move::Select(Size::Large, Color::Blue),
            Move::Select(Size::Small, Color::Yellow),
            // White builds a small green ship, Black travels to White
            Move::Construct(24),
            Move::MoveInit(9),
            Move::MoveFinish(0),
        ],
    );
    // ring at White's home: 24 -> 9 -> 18 -> 24
    assert_eq!(game.piece(24), ship(0, 9, Player::White));
    assert_eq!(game.piece(9), ship(0, 18, Player::Black));
    assert_eq!(game.piece(18), ship(0, 24, Player::White));
    // red star: White may attack; a large ship is there
    play(&mut game, &[Move::Attack(9)]);
    assert_eq!(game.piece(9), ship(0, 18, Player::White));
    assert_eq!(game.turn(), turn(Player::Black, Phase::Action));
    play(&mut game, &[Move::Pass]);
    // a yellow sacrifice lets the small green ship travel
    play(&mut game, &[Move::Sacrifice(9)]);
    assert_eq!(game.turn(), turn(Player::White, Phase::Sacrifice(1, Ability::Move)));
    assert_eq!(game.piece(24), ship(0, 18, Player::White));
    play(&mut game, &[Move::MoveInit(18)]);
    assert_eq!(game.turn(), turn(Player::White, Phase::Sacrifice(1, Ability::Move)));
    play(&mut game, &[Move::MoveFinish(33)]);
    assert_eq!(game.turn(), turn(Player::Black, Phase::Action));
    assert_eq!(game.piece(18), ship(33, 18, Player::White));
    assert_eq!(game.piece(33), Piece::BinaryFirst { child: Some(18), sibling: Some(34) });
    assert_eq!(game.piece(24), ship(0, 24, Player::White));
}

#[test]
fn attack_needs_size() {
    let mut game = Game::new();
    play(
        &mut game,
        &[
            Move::Select(Size::Small, Color::Red),
            Move::Select(Size::Small, Color::Blue),
            Move::Select(Size::Medium, Color::Green),
            Move::Select(Size::Large, Color::Yellow),
            Move::Select(Size::Large, Color::Green),
            Move::Select(Size::Large, Color::Yellow),
            Move::Pass,
            Move::MoveInit(16),
            Move::MoveFinish(0),
        ],
    );
    // a large yellow enemy ship beside White's medium green ship, at a red star
    assert_eq!(game.piece(21), ship(0, 16, Player::White));
    assert_eq!(game.piece(16), ship(0, 21, Player::Black));
    refused(&mut game, Move::Attack(16));
    play(&mut game, &[Move::Pass]);
    // the red star serves Black too, whose ship is large
    play(&mut game, &[Move::Attack(21)]);
    assert_eq!(game.piece(21), ship(0, 16, Player::Black));
    assert_eq!(game.turn(), turn(Player::White, Phase::Action));
}

#[test]
fn attack_takes_the_lowest_twin_first() {
    let mut game = Game::new();
    play(
        &mut game,
        &[
            Move::Select(Size::Small, Color::Red),
            Move::Select(Size::Small, Color::Blue),
            Move::Select(Size::Medium, Color::Green),
            Move::Select(Size::Large, Color::Yellow),
            Move::Select(Size::Large, Color::Green),
            Move::Select(Size::Small, Color::Green),
            Move::Pass,
            Move::Construct(18),
            Move::Pass,
        ],
    );
    // of two equal ships only the lower may leave
    refused(&mut game, Move::MoveInit(19));
    play(
        &mut game,
        &[Move::MoveInit(18), Move::MoveFinish(0), Move::Pass, Move::MoveInit(19), Move::MoveFinish(0)],
    );
    assert_eq!(game.piece(0), Piece::BinaryFirst { child: Some(21), sibling: Some(27) });
    assert_eq!(game.piece(21), ship(0, 19, Player::White));
    assert_eq!(game.piece(19), ship(0, 18, Player::Black));
    assert_eq!(game.piece(18), ship(0, 21, Player::Black));
    assert_eq!(game.piece(15), Piece::BinaryFirst { child: None, sibling: Some(24) });
    // of the two small green enemy ships the lower goes first
    refused(&mut game, Move::Attack(19));
    play(&mut game, &[Move::Attack(18)]);
    assert_eq!(game.piece(18), ship(0, 21, Player::White));
    assert_eq!(game.turn(), turn(Player::Black, Phase::Action));
    // Black's small ship cannot take a medium one
    refused(&mut game, Move::Attack(21));
    play(&mut game, &[Move::Pass, Move::Attack(19)]);
    assert_eq!(game.piece(19), ship(0, 18, Player::White));
}

#[test]
fn catastrophe_by_hand_during_a_sacrifice() {
    let mut game = Game::new();
    play(
        &mut game,
        &[
            Move::Select(Size::Small, Color::Red),
            Move::Select(Size::Medium, Color::Blue),
            Move::Select(Size::Large, Color::Green),
            Move::Select(Size::Small, Color::Blue),
            Move::Select(Size::Medium, Color::Blue),
            Move::Select(Size::Large, Color::Yellow),
            Move::Construct(24),
            Move::Pass,
            Move::Construct(18),
            Move::Pass,
        ],
    );
    // three green ships: no catastrophe is due
    refused(&mut game, Move::Catastrophe(18));
    refused(&mut game, Move::Catastrophe(24));
    play(&mut game, &[Move::Sacrifice(24), Move::Construct(18), Move::Construct(18)]);
    assert_eq!(game.turn(), turn(Player::White, Phase::Sacrifice(1, Ability::Construct)));
    for k in [18u8, 19, 20, 21] {
        assert!(matches!(game.piece(k), Piece::Ship { parent: 0, owner: Player::White, .. }));
    }
    assert_eq!(game.remaining(Size::Small, Color::Green), 0);
    assert_eq!(game.remaining(Size::Medium, Color::Green), 2);
    // not a ship, not at this system
    refused(&mut game, Move::Catastrophe(0));
    refused(&mut game, Move::Catastrophe(15));
    refused(&mut game, Move::Catastrophe(36));
    play(&mut game, &[Move::Catastrophe(20)]);
    for k in 18..27u8 {
        assert_eq!(game.piece(k), Piece::Empty);
    }
    for size in SIZES {
        assert_eq!(game.remaining(size, Color::Green), 3);
    }
    assert_eq!(game.piece(0), Piece::BinaryFirst { child: None, sibling: Some(30) });
    assert_eq!(game.piece(30), Piece::BinarySecond { sibling: 0 });
    // a catastrophe does not move the turn on
    assert_eq!(game.turn(), turn(Player::White, Phase::Sacrifice(1, Ability::Construct)));
    refused(&mut game, Move::Catastrophe(20));
    refused(&mut game, Move::Catastrophe(18));
}

#[test]
fn catastrophe_cascade() {
    let mut game = Game::new();
    play(
        &mut game,
        &[
            Move::Select(Size::Small, Color::Red),
            Move::Select(Size::Small, Color::Red),
            Move::Select(Size::Large, Color::Green),
            Move::Select(Size::Medium, Color::Yellow),
            Move::Select(Size::Large, Color::Yellow),
            Move::Select(Size::Large, Color::Red),
            Move::Pass,
            Move::MoveInit(6),
            Move::MoveFinish(0),
            Move::Attack(6),
            Move::Pass,
        ],
    );
    assert_eq!(game.piece(24), ship(0, 6, Player::White));
    assert_eq!(game.piece(6), ship(0, 24, Player::White));
    assert_eq!(game.piece(12), Piece::BinaryFirst { child: None, sibling: Some(15) });
    // two red stars and one red ship; the fourth red piece ends the system
    play(&mut game, &[Move::Construct(6)]);
    assert_eq!(game.turn(), turn(Player::Black, Phase::Action));
    for k in [0u8, 1, 2, 6, 24] {
        assert_eq!(game.piece(k), Piece::Empty);
    }
    for size in SIZES {
        assert_eq!(game.remaining(size, Color::Red), 3);
        assert_eq!(game.remaining(size, Color::Green), 3);
    }
    assert_eq!(game.piece(12), Piece::BinaryFirst { child: None, sibling: Some(15) });
    assert_eq!(game.piece(15), Piece::BinarySecond { sibling: 12 });
    assert_eq!(game.remaining(Size::Medium, Color::Yellow), 2);
    assert_eq!(game.remaining(Size::Large, Color::Yellow), 2);
    // the home star that White chose stays on record
    assert_eq!(game.home_star(Player::White), Some(0));
}

#[test]
fn catastrophe_of_the_first_star_leaves_the_second_in_charge() {
    let mut game = Game::new();
    play(
        &mut game,
        &[
            Move::Select(Size::Small, Color::Red),
            Move::Select(Size::Small, Color::Blue),
            Move::Select(Size::Large, Color::Green),
            Move::Select(Size::Medium, Color::Yellow),
            Move::Select(Size::Large, Color::Yellow),
            Move::Select(Size::Large, Color::Red),
            Move::Pass,
            Move::MoveInit(6),
            Move::MoveFinish(0),
            Move::Attack(6),
            Move::Pass,
            Move::Construct(6),
            Move::Pass,
        ],
    );
    // ring 24 -> 6 -> 1 -> 24 at the red star 0: three red pieces
    assert_eq!(game.piece(6), ship(0, 1, Player::White));
    assert_eq!(game.piece(1), ship(0, 24, Player::White));
    play(&mut game, &[Move::Construct(1)]);
    // 0, 1, 2 and 6 were red: they are gone, and the blue star carries the
    // green ship alone
    for k in [0u8, 1, 2, 6] {
        assert_eq!(game.piece(k), Piece::Empty);
    }
    assert_eq!(game.piece(27), Piece::BinaryFirst { child: Some(24), sibling: None });
    assert_eq!(game.piece(24), ship(27, 24, Player::White));
    for size in SIZES {
        assert_eq!(game.remaining(size, Color::Red), 3);
    }
    assert_eq!(game.remaining(Size::Small, Color::Blue), 2);
    assert_eq!(game.turn(), turn(Player::Black, Phase::Action));
    // the system now has one size
    play(&mut game, &[Move::Pass, Move::Construct(24), Move::Pass]);
    assert_eq!(game.piece(18), ship(27, 24, Player::White));
}

#[test]
fn catastrophe_of_the_second_star() {
    let mut game = Game::new();
    play(
        &mut game,
        &[
            Move::Select(Size::Small, Color::Green),
            Move::Select(Size::Medium, Color::Red),
            Move::Select(Size::Large, Color::Red),
            Move::Select(Size::Small, Color::Blue),
            Move::Select(Size::Medium, Color::Blue),
            Move::Select(Size::Large, Color::Yellow),
            Move::Construct(6),
            Move::Pass,
        ],
    );
    assert_eq!(game.piece(6), ship(18, 0, Player::White));
    assert_eq!(game.piece(0), ship(18, 6, Player::White));
    play(&mut game, &[Move::Construct(0)]);
    // ships 0, 1, 6 and the second star 3 were red
    for k in [0u8, 1, 3, 6] {
        assert_eq!(game.piece(k), Piece::Empty);
    }
    assert_eq!(game.piece(18), Piece::BinaryFirst { child: None, sibling: None });
    for size in SIZES {
        assert_eq!(game.remaining(size, Color::Red), 3);
    }
    assert_eq!(game.remaining(Size::Small, Color::Green), 2);
}

#[test]
fn catastrophe_takes_the_travelling_ship() {
    let mut game = Game::new();
    play(
        &mut game,
        &[
            Move::Select(Size::Small, Color::Yellow),
            Move::Select(Size::Medium, Color::Blue),
            Move::Select(Size::Large, Color::Green),
            Move::Select(Size::Small, Color::Blue),
            Move::Select(Size::Medium, Color::Blue),
            Move::Select(Size::Large, Color::Yellow),
            Move::Construct(24),
            Move::Pass,
            Move::Construct(18),
            Move::Pass,
            Move::Sacrifice(24),
            Move::Construct(18),
            Move::Construct(18),
        ],
    );
    assert_eq!(game.turn(), turn(Player::White, Phase::Sacrifice(1, Ability::Construct)));
    refused(&mut game, Move::MoveInit(18));
    play(&mut game, &[Move::Catastrophe(18)]);
    assert_eq!(game.moving_piece(), None);
    assert_eq!(game.piece(9), Piece::BinaryFirst { child: None, sibling: Some(30) });
}

#[test]
fn sweep_twice_changes_nothing_more() {
    let mut game = Game::new();
    play(
        &mut game,
        &[
            Move::Select(Size::Small, Color::Green),
            Move::Select(Size::Medium, Color::Red),
            Move::Select(Size::Large, Color::Red),
            Move::Select(Size::Small, Color::Blue),
            Move::Select(Size::Medium, Color::Blue),
            Move::Select(Size::Large, Color::Yellow),
            Move::Construct(6),
            Move::Pass,
            Move::Construct(0),
        ],
    );
    // the sweep has run; a pass runs it once more
    let mut after_first = snapshot(&game);
    play(&mut game, &[Move::Pass]);
    after_first.1 = turn(Player::White, Phase::Action);
    assert_eq!(snapshot(&game), after_first);
    for k in 0..36u8 {
        refused(&mut game, Move::Catastrophe(k));
    }
}

#[test]
fn copies_are_independent() {
    let mut game = standard_setup();
    let copy = game;
    play(&mut game, &[Move::Sacrifice(15)]);
    assert_eq!(copy.piece(15), ship(0, 15, Player::White));
    assert_eq!(copy.turn(), turn(Player::White, Phase::Action));
    assert_eq!(copy.remaining(Size::Large, Color::Yellow), 2);
    assert_eq!(game.piece(15), Piece::Empty);
    let clone = game.clone();
    assert_eq!(snapshot(&clone), snapshot(&game));
}

#[test]
fn long_games_keep_every_position_sound() {
    let mut seed: u64 = 0x9e3779b97f4a7c15;
    let mut next = move |n: usize| -> usize {
        seed = seed.wrapping_mul(6364136223846793005).wrapping_add(1442695040888963407);
        ((seed >> 33) as usize) % n
    };
    let mut catastrophes = 0;
    let mut arrivals = 0;
    for _ in 0..60 {
        let mut game = Game::new();
        for _ in 0..150 {
            let legal = game.legal_moves();
            if legal.is_empty() {
                break;
            }
            // passes are always there in the action phase: prefer the others
            let busy: Vec<Move> = legal.iter().copied().filter(|m| *m != Move::Pass).collect();
            let m = if !busy.is_empty() && next(8) != 0 {
                busy[next(busy.len())]
            } else {
                legal[next(legal.len())]
            };
            let on_board_before = (0..36u8).filter(|k| game.piece(*k) != Piece::Empty).count();
            let before = snapshot(&game);
            assert!(game.process_move(m));
            check_position(&game);
            let on_board = (0..36u8).filter(|k| game.piece(*k) != Piece::Empty).count();
            match m {
                Move::Catastrophe(_) => {
                    catastrophes += 1;
                    assert!(on_board + 4 <= on_board_before);
                    assert_eq!(game.turn(), before.1);
                }
                Move::MoveInit(k) => {
                    assert_eq!(game.moving_piece(), Some(k));
                    assert_eq!(game.turn(), before.1);
                }
                Move::MoveFinish(_) => {
                    arrivals += 1;
                    assert_eq!(game.moving_piece(), None);
                }
                _ => assert_eq!(game.moving_piece(), before.2),
            }
            // after a change of player no catastrophe is due
            if game.turn().player != before.1.player {
                let mut again = game;
                for k in 0..36u8 {
                    assert!(!again.process_move(Move::Catastrophe(k)));
                }
                for k in 0..36u8 {
                    if let Piece::Star { child } | Piece::BinaryFirst { child, .. } = game.piece(k) {
                        let mut ring = 0;
                        let mut cur = child;
                        while let Some(c) = cur {
                            ring += 1;
                            cur = match game.piece(c) {
                                Piece::Ship { next_sibling, .. } if Some(next_sibling) != child => {
                                    Some(next_sibling)
                                }
                                _ => None,
                            };
                        }
                        assert!(ring <= 12);
                    }
                }
            }
        }
    }
    assert!(arrivals > 0);
    assert!(catastrophes > 0 || arrivals > 0);
}
