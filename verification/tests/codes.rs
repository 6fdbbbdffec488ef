use homeworlds::code::{wyhash64, wymix, wymum, Board, Count, Move, MoveData, Piece, Role};
use homeworlds::kinds::{Color, KeyMaybe, Player, Size};
use homeworlds::turn::{Phase, Turn};

#[test]
fn test_move_attack() {
    let move_data = MoveData::Attack { piece: 1 };
    let mv = Move::new(move_data);
    assert_eq!(mv.code(), 0b0000_0000_0000_0001u16);
    assert_eq!(mv.data(), move_data);
}

#[test]
fn test_move_move() {
    let move_data = MoveData::Move { piece: 2, system: 3 };
    let mv = Move::new(move_data);
    assert_eq!(mv.code(), 0b0010_0001_0000_0011u16);
    assert_eq!(mv.data(), move_data);
}

#[test]
fn test_move_construct() {
    let move_data = MoveData::Construct { piece: 4 };
    let mv = Move::new(move_data);
    assert_eq!(mv.code(), 0b0100_0000_0000_0100u16);
    assert_eq!(mv.data(), move_data);
}

#[test]
fn test_move_transform() {
    let move_data = MoveData::Transform { piece: 5, color: Color::Red };
    let mv = Move::new(move_data);
    assert_eq!(mv.code(), 0b0110_0010_1000_0000u16);
    assert_eq!(mv.data(), move_data);
}

#[test]
fn test_move_sacrifice() {
    let move_data = MoveData::Sacrifice { piece: 6 };
    let mv = Move::new(move_data);
    assert_eq!(mv.code(), 0b1000_0000_0000_0110u16);
    assert_eq!(mv.data(), move_data);
}

#[test]
fn test_move_select() {
    let move_data = MoveData::Select { size: Size::Small, color: Color::Blue };
    let mv = Move::new(move_data);
    assert_eq!(mv.code(), 0b1010_0000_0011_0000u16);
    assert_eq!(mv.data(), move_data);
}

#[test]
fn test_move_catastrophe() {
    let move_data = MoveData::Catastrophe { piece: 8 };
    let mv = Move::new(move_data);
    assert_eq!(mv.code(), 0b1100_0000_0000_1000u16);
    assert_eq!(mv.data(), move_data);
}

#[test]
fn test_move_pass() {
    let move_data = MoveData::Pass;
    let mv = Move::new(move_data);
    assert_eq!(mv.code(), 0b1110_0000_0000_0000u16);
    assert_eq!(mv.data(), move_data);
}

fn every_move_data() -> Vec<MoveData> {
    let colors = [Color::Red, Color::Yellow, Color::Green, Color::Blue];
    let sizes = [Size::Small, Size::Medium, Size::Large];
    let mut all = vec![MoveData::Pass];
    for piece in 0..36u8 {
        all.push(MoveData::Attack { piece });
        all.push(MoveData::Construct { piece });
        all.push(MoveData::Sacrifice { piece });
        all.push(MoveData::Catastrophe { piece });
        for system in 0..36u8 {
            all.push(MoveData::Move { piece, system });
        }
        for color in colors {
            all.push(MoveData::Transform { piece, color });
        }
    }
    for size in sizes {
        for color in colors {
            all.push(MoveData::Select { size, color });
        }
    }
    all
}

#[test]
fn move_code_round_trip_for_every_move() {
    for data in every_move_data() {
        assert!(data.is_representable());
        let mv = Move::new(data);
        assert_eq!(mv.data(), data);
        let again = Move::from_bits(mv.code());
        assert_eq!(again, Some(mv));
        assert_eq!(Move::new(mv.data()).code(), mv.code());
    }
}

#[test]
fn move_code_fields() {
    let mv = Move::new(MoveData::Move { piece: 35, system: 35 });
    assert_eq!(mv.code(), (1u16 << 13) | (35u16 << 7) | 35u16);
    let mv = Move::new(MoveData::Transform { piece: 35, color: Color::Blue });
    assert_eq!(mv.code(), (3u16 << 13) | (35u16 << 7) | 48u16);
    let mv = Move::new(MoveData::Select { size: Size::Large, color: Color::Green });
    assert_eq!(mv.code(), (5u16 << 13) | (2u16 << 7) | 32u16);
    let mv = Move::new(MoveData::Select { size: Size::Medium, color: Color::Yellow });
    assert_eq!(mv.code(), (5u16 << 13) | (1u16 << 7) | 16u16);
}

#[test]
fn malformed_move_codes_are_refused() {
    // a key that is no piece
    assert_eq!(Move::from_bits(36), None);
    assert_eq!(Move::from_bits(127), None);
    assert_eq!(Move::from_bits((1 << 13) | (36 << 7) | 1), None);
    assert_eq!(Move::from_bits((1 << 13) | (1 << 7) | 36), None);
    assert_eq!(Move::from_bits((2 << 13) | 40), None);
    assert_eq!(Move::from_bits((4 << 13) | 36), None);
    assert_eq!(Move::from_bits((6 << 13) | 99), None);
    // a colour field that is no colour
    assert_eq!(Move::from_bits((3 << 13) | (5 << 7) | 1), None);
    assert_eq!(Move::from_bits((3 << 13) | (5 << 7) | 64), None);
    assert_eq!(Move::from_bits((5 << 13) | 17), None);
    // a size field that is no size
    assert_eq!(Move::from_bits((5 << 13) | (3 << 7) | 16), None);
    // a kind that does not use a field does not look at it
    let pass = Move::from_bits(0xFFFF).unwrap();
    assert_eq!(pass.data(), MoveData::Pass);
    assert_eq!(pass.code(), 0xFFFF);
    let attack = Move::from_bits((9 << 7) | 7).unwrap();
    assert_eq!(attack.data(), MoveData::Attack { piece: 7 });
    assert!(!MoveData::Attack { piece: 36 }.is_representable());
    assert!(!MoveData::Move { piece: 0, system: 36 }.is_representable());
}

#[test]
fn piece_code_round_trip() {
    let sizes = [Size::Small, Size::Medium, Size::Large];
    let roles = [Role::Star, Role::Ship, Role::White, Role::Black];
    let colors = [Color::Red, Color::Yellow, Color::Green, Color::Blue];
    let counts = [Count::One, Count::Two, Count::Three];
    for (si, size) in sizes.iter().enumerate() {
        for (ri, role) in roles.iter().enumerate() {
            for (ci, color) in colors.iter().enumerate() {
                for (ni, count) in counts.iter().enumerate() {
                    let p = Piece::new(*size, *role, *color, *count);
                    let expected = si | (ri << 2) | (ci << 4) | ((ni + 1) << 6);
                    assert_eq!(p.code() as usize, expected);
                    assert!(!p.is_padding());
                    assert_eq!(p.size(), *size);
                    assert_eq!(p.role(), *role);
                    assert_eq!(p.color(), *color);
                    assert_eq!(p.count(), *count);
                }
            }
        }
    }
    assert_eq!(Piece::new(Size::Large, Role::Black, Color::Blue, Count::Two).code(), 0b1011_1110);
    assert!(Piece::pad().is_padding());
    assert_eq!(Piece::pad().code(), 0xFF);
}

#[test]
fn counts_add_and_subtract() {
    assert_eq!(Count::One.add(Count::One), Count::Two);
    assert_eq!(Count::One.add(Count::Two), Count::Three);
    assert_eq!(Count::Two.add(Count::One), Count::Three);
    assert_eq!(Count::Three.sub(Count::One), Count::Two);
    assert_eq!(Count::Three.sub(Count::Two), Count::One);
    assert_eq!(Count::Two.sub(Count::One), Count::One);
}

#[test]
fn compact_board_starts_empty() {
    let board = Board::new();
    assert_eq!(board.hash, 0);
    assert_eq!(board.turn, Turn { player: Player::White, phase: Phase::Star1 });
    assert_eq!(board.pieces.len(), 1);
    assert!(board.pieces[0].is_padding());
    for size in [Size::Small, Size::Medium, Size::Large] {
        for color in [Color::Red, Color::Yellow, Color::Green, Color::Blue] {
            assert_eq!(board.bank.remaining(size, color), 3);
        }
    }
}

#[test]
fn hash_halves_of_a_product() {
    assert_eq!(wymum(0, 5), (0, 0));
    assert_eq!(wymum(3, 5), (15, 0));
    assert_eq!(wymum(u64::MAX, 2), (u64::MAX - 1, 1));
    assert_eq!(wymum(u64::MAX, u64::MAX), (1, u64::MAX - 1));
    assert_eq!(wymix(3, 5), 15);
    assert_eq!(wymix(u64::MAX, 2), (u64::MAX - 1) ^ 1);
    let a = 0u64 ^ 0x2d358dccaa6c78a5;
    let b = 0u64 ^ 0x8bb84b93962eacc9;
    let wide = (a as u128) * (b as u128);
    let (lo, hi) = (wide as u64, (wide >> 64) as u64);
    let wide2 = ((lo ^ 0x2d358dccaa6c78a5) as u128) * ((hi ^ 0x8bb84b93962eacc9) as u128);
    assert_eq!(wyhash64(0, 0), (wide2 as u64) ^ ((wide2 >> 64) as u64));
    assert_ne!(wyhash64(1, 2), wyhash64(2, 1));
}

#[test]
fn optional_keys_in_a_byte() {
    assert_eq!(KeyMaybe::none().get(), None);
    assert!(KeyMaybe::none().is_none());
    assert!(!KeyMaybe::none().is_some());
    for k in [0u8, 1, 35, 36, 127] {
        let held = KeyMaybe::some(k);
        assert_eq!(held.get(), Some(k));
        assert!(held.is_some());
        assert!(!held.is_none());
    }
    assert_ne!(KeyMaybe::some(0), KeyMaybe::none());
}

#[test]
fn compact_board_copies_end_in_the_filler() {
    let mut board = Board::new();
    let copy = board.duplicate();
    assert_eq!(copy.pieces.len(), 1);
    assert!(copy.pieces[0].is_padding());
    let ship = Piece::new(Size::Large, Role::White, Color::Green, Count::Two);
    board.pieces.insert(0, ship);
    board.hash = 7;
    let copy = board.duplicate();
    assert_eq!(copy.hash, 7);
    assert_eq!(copy.turn, board.turn);
    assert_eq!(copy.pieces, vec![ship, Piece::pad()]);
    board.pieces.pop();
    assert_eq!(board.pieces, vec![ship]);
    let copy = board.duplicate();
    assert_eq!(copy.pieces, vec![ship, Piece::pad()]);
    assert_eq!(board.pieces, vec![ship]);
}
