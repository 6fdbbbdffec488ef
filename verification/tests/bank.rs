use homeworlds::bank::Bank;
use homeworlds::kinds::{Color, Size};

#[test]
fn test_bank() {
    let mut bank = Bank::new();

    for size in [Size::Small, Size::Medium, Size::Large] {
        for color in [Color::Red, Color::Yellow, Color::Green, Color::Blue] {
            assert!(bank.available(size, color));
            for _ in 0..3 {
                assert_eq!(bank.get(size, color), Some(()));
            }
            assert_eq!(bank.get(size, color), None);
            assert!(!bank.available(size, color));
            for _ in 0..3 {
                assert!(bank.put(size, color).is_ok());
                assert!(bank.available(size, color));
            }
            assert!(bank.put(size, color).is_err());
        }
    }
}

#[test]
fn bank_cells_are_independent() {
    let mut bank = Bank::new();
    for size in [Size::Small, Size::Medium, Size::Large] {
        for color in [Color::Red, Color::Yellow, Color::Green, Color::Blue] {
            assert_eq!(bank.remaining(size, color), 3);
        }
    }
    assert_eq!(bank.get(Size::Medium, Color::Green), Some(()));
    assert_eq!(bank.get(Size::Medium, Color::Green), Some(()));
    assert_eq!(bank.get(Size::Small, Color::Red), Some(()));
    for size in [Size::Small, Size::Medium, Size::Large] {
        for color in [Color::Red, Color::Yellow, Color::Green, Color::Blue] {
            let expected = if size == Size::Medium && color == Color::Green {
                1
            } else if size == Size::Small && color == Color::Red {
                2
            } else {
                3
            };
            assert_eq!(bank.remaining(size, color), expected);
        }
    }
    assert_eq!(bank.get(Size::Medium, Color::Green), Some(()));
    assert_eq!(bank.get(Size::Medium, Color::Green), None);
    assert_eq!(bank.remaining(Size::Medium, Color::Green), 0);
    assert_eq!(bank.remaining(Size::Large, Color::Blue), 3);
    assert!(bank.put(Size::Large, Color::Blue).is_err());
    assert!(bank.put(Size::Medium, Color::Green).is_ok());
    assert_eq!(bank.remaining(Size::Medium, Color::Green), 1);
}
