use homeworlds::game::Game;
use homeworlds::kinds::{key_color, key_size, Ability, Color, Player, Size};
use homeworlds::moves::{all_moves, Move, MOVE_COUNT};
use homeworlds::position::{KeyRange, Piece};
use homeworlds::turn::{Phase, Turn};

#[test]
fn table_has_its_length_and_order() {
    let moves = all_moves();
    assert_eq!(MOVE_COUNT, 338);
    assert_eq!(moves.len(), 338);
    let colors = [Color::Red, Color::Yellow, Color::Green, Color::Blue];
    let sizes = [Size::Small, Size::Medium, Size::Large];
    let mut expected = vec![];
    for k in 0..36u8 {
        expected.push(Move::Attack(k));
    }
    for k in 0..36u8 {
        expected.push(Move::Construct(k));
    }
    for k in 0..36u8 {
        for c in colors {
            if c != key_color(k) {
                expected.push(Move::Transform(k, c));
            }
        }
    }
    for k in 0..36u8 {
        expected.push(Move::Sacrifice(k));
    }
    for k in 0..36u8 {
        expected.push(Move::MoveInit(k));
    }
    for k in 0..36u8 {
        expected.push(Move::MoveFinish(k));
    }
    for s in sizes {
        for c in colors {
            expected.push(Move::Select(s, c));
        }
    }
    for k in 0..36u8 {
        expected.push(Move::Catastrophe(k));
    }
    expected.push(Move::Pass);
    assert_eq!(expected.len(), 337);
    expected.push(Move::Pass);
    assert_eq!(moves, expected);
    for i in 0..MOVE_COUNT {
        assert_eq!(Move::at(i), expected[i]);
    }
}

#[test]
fn table_entries() {
    assert_eq!(Move::at(0), Move::Attack(0));
    assert_eq!(Move::at(35), Move::Attack(35));
    assert_eq!(Move::at(36), Move::Construct(0));
    assert_eq!(Move::at(72), Move::Transform(0, Color::Yellow));
    assert_eq!(Move::at(73), Move::Transform(0, Color::Green));
    assert_eq!(Move::at(74), Move::Transform(0, Color::Blue));
    assert_eq!(Move::at(72 + 3 * 9), Move::Transform(9, Color::Red));
    assert_eq!(Move::at(72 + 3 * 9 + 1), Move::Transform(9, Color::Green));
    assert_eq!(Move::at(179), Move::Transform(35, Color::Green));
    assert_eq!(Move::at(180), Move::Sacrifice(0));
    assert_eq!(Move::at(216), Move::MoveInit(0));
    assert_eq!(Move::at(252), Move::MoveFinish(0));
    assert_eq!(Move::at(288), Move::Select(Size::Small, Color::Red));
    assert_eq!(Move::at(291), Move::Select(Size::Small, Color::Blue));
    assert_eq!(Move::at(292), Move::Select(Size::Medium, Color::Red));
    assert_eq!(Move::at(299), Move::Select(Size::Large, Color::Blue));
    assert_eq!(Move::at(300), Move::Catastrophe(0));
    assert_eq!(Move::at(335), Move::Catastrophe(35));
    assert_eq!(Move::at(336), Move::Pass);
    assert_eq!(Move::at(337), Move::Pass);
}

#[test]
fn moves_by_their_place_in_the_table() {
    let mut game = Game::new();
    // select small red, select medium red, select large yellow
    assert!(game.process_move_idx(288));
    assert!(game.process_move_idx(292));
    assert!(game.process_move_idx(288 + 2 * 4 + 1));
    assert_eq!(game.turn(), Turn { player: Player::Black, phase: Phase::Star1 });
    assert_eq!(game.piece(0), Piece::BinaryFirst { child: Some(15), sibling: Some(3) });
    // a pass is not legal during setup
    assert!(!game.process_move_idx(336));
    assert!(!game.process_move_idx(337));
    assert!(!game.process_move_idx(0));
}

#[test]
fn keys_sizes_and_colours() {
    let colors = [Color::Red, Color::Yellow, Color::Green, Color::Blue];
    let sizes = [Size::Small, Size::Medium, Size::Large];
    for (ci, color) in colors.iter().enumerate() {
        for (si, size) in sizes.iter().enumerate() {
            for replica in 0..3 {
                let k = (ci * 9 + si * 3 + replica) as u8;
                assert_eq!(key_color(k), *color);
                assert_eq!(key_size(k), *size);
            }
        }
    }
    assert_eq!(Size::list(), sizes);
    assert_eq!(Color::list(), colors);
    assert_eq!(Size::Small.sacrifice_turns(), 1);
    assert_eq!(Size::Medium.sacrifice_turns(), 2);
    assert_eq!(Size::Large.sacrifice_turns(), 3);
    assert_eq!(Player::White.inv(), Player::Black);
    assert_eq!(Player::Black.inv(), Player::White);
}

#[test]
fn key_ranges() {
    let mut all = KeyRange::all();
    for k in 0..36u8 {
        assert_eq!(all.next(), Some(k));
    }
    assert_eq!(all.next(), None);
    assert_eq!(all.next(), None);
    let mut green = KeyRange::with_color(Color::Green);
    for k in 18..27u8 {
        assert_eq!(green.next(), Some(k));
    }
    assert_eq!(green.next(), None);
    let mut cell = KeyRange::with_color_and_size(Color::Blue, Size::Large);
    assert_eq!(cell.next(), Some(33));
    assert_eq!(cell.next(), Some(34));
    assert_eq!(cell.next(), Some(35));
    assert_eq!(cell.next(), None);
    let mut empty = KeyRange::new(5, 5);
    assert_eq!(empty.next(), None);
}

#[test]
fn turns_follow_each_other() {
    let t = |player, phase| Turn { player, phase };
    let (w, b) = (Player::White, Player::Black);
    assert_eq!(Turn::initial(), t(w, Phase::Star1));
    assert_eq!(t(w, Phase::Star1).next(), t(w, Phase::Star2));
    assert_eq!(t(b, Phase::Star1).next(), t(b, Phase::Star2));
    assert_eq!(t(w, Phase::Star2).next(), t(w, Phase::Ship));
    assert_eq!(t(w, Phase::Ship).next(), t(b, Phase::Star1));
    assert_eq!(t(b, Phase::Ship).next(), t(w, Phase::Action));
    assert_eq!(t(w, Phase::Action).next(), t(b, Phase::Action));
    assert_eq!(t(b, Phase::Action).next(), t(w, Phase::Action));
    assert_eq!(
        t(w, Phase::Sacrifice(3, Ability::Move)).next(),
        t(w, Phase::Sacrifice(2, Ability::Move))
    );
    assert_eq!(
        t(b, Phase::Sacrifice(2, Ability::Attack)).next(),
        t(b, Phase::Sacrifice(1, Ability::Attack))
    );
    assert_eq!(t(b, Phase::Sacrifice(1, Ability::Attack)).next(), t(w, Phase::Action));
    assert_eq!(Ability::for_color(Color::Red), Ability::Attack);
    assert_eq!(Ability::for_color(Color::Yellow), Ability::Move);
    assert_eq!(Ability::for_color(Color::Green), Ability::Construct);
    assert_eq!(Ability::for_color(Color::Blue), Ability::Transform);
}
