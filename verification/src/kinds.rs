//! The small enumerations every other module speaks of: sizes, colours,
//! players and abilities, and the arithmetic that ties a piece key to them.

use vstd::prelude::*;

verus! {

/// Identity of a piece: `color * 9 + size * 3 + replica`, below [`PIECE_COUNT`].
pub type Key = u8;

/// Number of pieces in the stock.
pub const PIECE_COUNT: usize = 36;

/// A key or none, in one signed byte: minus one stands for none.
#[derive(Clone, Copy, PartialEq, Eq, Debug)]
pub struct KeyMaybe(i8);

impl View for KeyMaybe {
    type V = Option<Key>;

    closed spec fn view(&self) -> Option<Key> {
        if self.0 < 0 {
            None
        } else {
            Some(self.0 as Key)
        }
    }
}

impl KeyMaybe {
    #[verifier::type_invariant]
    spec fn inv(self) -> bool {
        self.0 >= -1
    }

    /// The byte that holds `key`, which must fit beside the sign.
    pub fn some(key: Key) -> (r: KeyMaybe)
        requires
            key < 128,
        ensures
            r@ == Some(key),
    {
        KeyMaybe(key as i8)
    }

    pub fn none() -> (r: KeyMaybe)
        ensures
            r@ is None,
    {
        KeyMaybe(-1)
    }

    pub fn get(self) -> (r: Option<Key>)
        ensures
            r == self@,
    {
        if self.0 < 0 {
            None
        } else {
            Some(self.0 as u8)
        }
    }

    pub fn is_some(self) -> (r: bool)
        ensures
            r == self@ is Some,
    {
        proof {
            use_type_invariant(&self);
        }
        self.0 != -1
    }

    pub fn is_none(self) -> (r: bool)
        ensures
            r == self@ is None,
    {
        proof {
            use_type_invariant(&self);
        }
        self.0 == -1
    }
}

#[derive(Clone, Copy, PartialEq, Eq, Structural, Debug)]
pub enum Size {
    Small,
    Medium,
    Large,
}

#[derive(Clone, Copy, PartialEq, Eq, Structural, Debug)]
pub enum Color {
    Red,
    Yellow,
    Green,
    Blue,
}

#[derive(Clone, Copy, PartialEq, Eq, Structural, Debug)]
pub enum Player {
    White,
    Black,
}

#[derive(Clone, Copy, PartialEq, Eq, Structural, Debug)]
pub enum Ability {
    Attack,
    Move,
    Construct,
    Transform,
}

impl Size {
    /// Position of the size in the order small, medium, large.
    pub open spec fn index(self) -> int {
        match self {
            Size::Small => 0,
            Size::Medium => 1,
            Size::Large => 2,
        }
    }

    /// The size at a position of the order small, medium, large.
    pub open spec fn at(i: int) -> Size {
        if i == 0 {
            Size::Small
        } else if i == 1 {
            Size::Medium
        } else {
            Size::Large
        }
    }

    pub fn to_index(self) -> (r: u8)
        ensures
            r == self.index(),
    {
        match self {
            Size::Small => 0,
            Size::Medium => 1,
            Size::Large => 2,
        }
    }

    pub fn from_index(i: u8) -> (r: Option<Size>)
        ensures
            i < 3 ==> r == Some(Size::at(i as int)),
            i >= 3 ==> r.is_none(),
    {
        match i {
            0 => Some(Size::Small),
            1 => Some(Size::Medium),
            2 => Some(Size::Large),
            _ => None,
        }
    }

    /// The three sizes, smallest first.
    pub fn list() -> (r: [Size; 3])
        ensures
            r@ == seq![Size::Small, Size::Medium, Size::Large],
    {
        let r = [Size::Small, Size::Medium, Size::Large];
        assert(r@ =~= seq![Size::Small, Size::Medium, Size::Large]);
        r
    }

    /// How many actions the sacrifice of a ship of this size grants.
    pub fn sacrifice_turns(self) -> (r: u8)
        ensures
            r == self.index() + 1,
    {
        self.to_index() + 1
    }
}

impl Color {
    /// Position of the colour in the order red, yellow, green, blue.
    pub open spec fn index(self) -> int {
        match self {
            Color::Red => 0,
            Color::Yellow => 1,
            Color::Green => 2,
            Color::Blue => 3,
        }
    }

    /// The colour at a position of the order red, yellow, green, blue.
    pub open spec fn at(i: int) -> Color {
        if i == 0 {
            Color::Red
        } else if i == 1 {
            Color::Yellow
        } else if i == 2 {
            Color::Green
        } else {
            Color::Blue
        }
    }

    pub fn to_index(self) -> (r: u8)
        ensures
            r == self.index(),
    {
        match self {
            Color::Red => 0,
            Color::Yellow => 1,
            Color::Green => 2,
            Color::Blue => 3,
        }
    }

    pub fn from_index(i: u8) -> (r: Option<Color>)
        ensures
            i < 4 ==> r == Some(Color::at(i as int)),
            i >= 4 ==> r.is_none(),
    {
        match i {
            0 => Some(Color::Red),
            1 => Some(Color::Yellow),
            2 => Some(Color::Green),
            3 => Some(Color::Blue),
            _ => None,
        }
    }

    /// The four colours in their fixed order.
    pub fn list() -> (r: [Color; 4])
        ensures
            r@ == seq![Color::Red, Color::Yellow, Color::Green, Color::Blue],
    {
        let r = [Color::Red, Color::Yellow, Color::Green, Color::Blue];
        assert(r@ =~= seq![Color::Red, Color::Yellow, Color::Green, Color::Blue]);
        r
    }
}

impl Player {
    /// The other player.
    pub open spec fn other(self) -> Player {
        match self {
            Player::White => Player::Black,
            Player::Black => Player::White,
        }
    }

    pub fn inv(self) -> (r: Player)
        ensures
            r == self.other(),
    {
        match self {
            Player::White => Player::Black,
            Player::Black => Player::White,
        }
    }
}

impl Ability {
    /// The ability that a colour grants: red attacks, yellow moves, green
    /// constructs, blue transforms.
    pub open spec fn of(color: Color) -> Ability {
        match color {
            Color::Red => Ability::Attack,
            Color::Yellow => Ability::Move,
            Color::Green => Ability::Construct,
            Color::Blue => Ability::Transform,
        }
    }

    pub fn for_color(color: Color) -> (r: Ability)
        ensures
            r == Ability::of(color),
    {
        match color {
            Color::Red => Ability::Attack,
            Color::Yellow => Ability::Move,
            Color::Green => Ability::Construct,
            Color::Blue => Ability::Transform,
        }
    }
}

/// Size of the piece with key `k`.
pub open spec fn size_of(k: int) -> Size {
    Size::at((k % 9) / 3)
}

/// Colour of the piece with key `k`.
pub open spec fn color_of(k: int) -> Color {
    Color::at(k / 9)
}

/// Lowest key of the three pieces of one size and colour.
pub open spec fn first_key(size: Size, color: Color) -> int {
    color.index() * 9 + size.index() * 3
}

pub fn key_size(k: Key) -> (r: Size)
    ensures
        r == size_of(k as int),
{
    let i: u8 = (k % 9) / 3;
    match i {
        0 => Size::Small,
        1 => Size::Medium,
        _ => Size::Large,
    }
}

pub fn key_color(k: Key) -> (r: Color)
    ensures
        r == color_of(k as int),
{
    let i: u8 = k / 9;
    match i {
        0 => Color::Red,
        1 => Color::Yellow,
        2 => Color::Green,
        _ => Color::Blue,
    }
}

} // verus!
