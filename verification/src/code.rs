//! The compact forms: a piece in eight bits, a move in sixteen, and a
//! position as a word of stock counters, a turn and a list of piece codes.

use vstd::prelude::*;
use crate::bank::Bank;
use crate::kinds::{Color, Key, Size};
use crate::turn::Turn;

verus! {

/// The part a piece plays in a position.
#[derive(Clone, Copy, PartialEq, Eq, Structural, Debug)]
pub enum Role {
    Star,
    Ship,
    White,
    Black,
}

/// How many equal pieces one code stands for.
#[derive(Clone, Copy, PartialEq, Eq, Structural, Debug)]
pub enum Count {
    One,
    Two,
    Three,
}

impl Role {
    pub open spec fn index(self) -> int {
        match self {
            Role::Star => 0,
            Role::Ship => 1,
            Role::White => 2,
            Role::Black => 3,
        }
    }

    pub open spec fn at(i: int) -> Role {
        if i == 0 {
            Role::Star
        } else if i == 1 {
            Role::Ship
        } else if i == 2 {
            Role::White
        } else {
            Role::Black
        }
    }

    pub fn to_index(self) -> (r: u8)
        ensures
            r == self.index(),
    {
        match self {
            Role::Star => 0,
            Role::Ship => 1,
            Role::White => 2,
            Role::Black => 3,
        }
    }
}

impl Count {
    /// The number the count stands for, from one to three.
    pub open spec fn value(self) -> int {
        match self {
            Count::One => 1,
            Count::Two => 2,
            Count::Three => 3,
        }
    }

    pub open spec fn of(n: int) -> Count {
        if n <= 1 {
            Count::One
        } else if n == 2 {
            Count::Two
        } else {
            Count::Three
        }
    }

    pub fn to_value(self) -> (r: u8)
        ensures
            r == self.value(),
    {
        match self {
            Count::One => 1,
            Count::Two => 2,
            Count::Three => 3,
        }
    }

    /// The sum of two counts, which must not exceed three.
    pub fn add(self, other: Count) -> (r: Count)
        requires
            self.value() + other.value() <= 3,
        ensures
            r.value() == self.value() + other.value(),
    {
        let n: u8 = self.to_value() + other.to_value();
        if n == 2 {
            Count::Two
        } else {
            Count::Three
        }
    }

    /// The difference of two counts, which must be at least one.
    pub fn sub(self, other: Count) -> (r: Count)
        requires
            self.value() - other.value() >= 1,
        ensures
            r.value() == self.value() - other.value(),
    {
        let n: u8 = self.to_value() - other.to_value();
        if n == 1 {
            Count::One
        } else {
            Count::Two
        }
    }
}

/// The number that packs a size, a role, a colour and a count: two bits
/// each, the size lowest.
pub open spec fn piece_code(size: Size, role: Role, color: Color, count: Count) -> int {
    size.index() + 4 * role.index() + 16 * color.index() + 64 * count.value()
}

proof fn lemma_pack_piece(s: u8, r: u8, c: u8, n: u8)
    by (bit_vector)
    requires
        s < 4,
        r < 4,
        c < 4,
        n < 4,
    ensures
        (s | (r << 2) | (c << 4) | (n << 6)) == s + 4 * r + 16 * c + 64 * n,
{
}

proof fn lemma_piece_fields(s: u8, r: u8, c: u8, n: u8)
    by (bit_vector)
    requires
        s < 4,
        r < 4,
        c < 4,
        n < 4,
    ensures
        (s + 4 * r + 16 * c + 64 * n) < 256,
        ((s + 4 * r + 16 * c + 64 * n) as u8) % 4 == s,
        (((s + 4 * r + 16 * c + 64 * n) as u8) / 4) % 4 == r,
        (((s + 4 * r + 16 * c + 64 * n) as u8) / 16) % 4 == c,
        ((s + 4 * r + 16 * c + 64 * n) as u8) / 64 == n,
{
}

proof fn lemma_unpack_piece(x: u8)
    by (bit_vector)
    ensures
        x & 3 == x % 4,
        (x & 12) >> 2 == (x / 4) % 4,
        (x & 48) >> 4 == (x / 16) % 4,
        (x & 192) >> 6 == x / 64,
{
}

/// A piece in eight bits.
#[derive(Clone, Copy, PartialEq, Eq, Debug)]
pub struct Piece(u8);

impl Piece {
    /// The eight bits.
    pub closed spec fn bits(self) -> u8 {
        self.0
    }

    /// The code is the filler that ends a list of pieces.
    pub open spec fn is_pad(self) -> bool {
        self.bits() == 0xFF
    }

    /// The code is that of a piece.
    pub open spec fn is_piece(self) -> bool {
        self.bits() % 4 <= 2 && self.bits() / 64 >= 1
    }

    pub open spec fn size_part(self) -> Size {
        Size::at(self.bits() as int % 4)
    }

    pub open spec fn role_part(self) -> Role {
        Role::at((self.bits() as int / 4) % 4)
    }

    pub open spec fn color_part(self) -> Color {
        Color::at((self.bits() as int / 16) % 4)
    }

    pub open spec fn count_part(self) -> Count {
        Count::of(self.bits() as int / 64)
    }

    #[verifier::type_invariant]
    spec fn inv(self) -> bool {
        self.is_pad() || self.is_piece()
    }

    pub fn new(size: Size, role: Role, color: Color, count: Count) -> (p: Piece)
        ensures
            p.bits() == piece_code(size, role, color, count),
            p.is_piece(),
            p.size_part() == size,
            p.role_part() == role,
            p.color_part() == color,
            p.count_part() == count,
    {
        let s = size.to_index();
        let r = role.to_index();
        let c = color.to_index();
        let n = count.to_value();
        proof {
            lemma_pack_piece(s, r, c, n);
            lemma_piece_fields(s, r, c, n);
        }
        Piece(s | (r << 2) | (c << 4) | (n << 6))
    }

    /// The filler that ends a list of pieces.
    pub fn pad() -> (p: Piece)
        ensures
            p.is_pad(),
            p == pad_piece(),
    {
        Piece(0xFF)
    }

    pub fn code(self) -> (r: u8)
        ensures
            r == self.bits(),
    {
        self.0
    }

    pub fn is_padding(self) -> (r: bool)
        ensures
            r == self.is_pad(),
    {
        self.0 == 0xFF
    }

    pub fn size(self) -> (r: Size)
        requires
            !self.is_pad(),
        ensures
            r == self.size_part(),
    {
        proof {
            use_type_invariant(&self);
            lemma_unpack_piece(self.0);
        }
        match self.0 & 3 {
            0 => Size::Small,
            1 => Size::Medium,
            _ => Size::Large,
        }
    }

    pub fn role(self) -> (r: Role)
        ensures
            r == self.role_part(),
    {
        proof {
            lemma_unpack_piece(self.0);
        }
        match (self.0 & 12) >> 2 {
            0 => Role::Star,
            1 => Role::Ship,
            2 => Role::White,
            _ => Role::Black,
        }
    }

    pub fn color(self) -> (r: Color)
        ensures
            r == self.color_part(),
    {
        proof {
            lemma_unpack_piece(self.0);
        }
        match (self.0 & 48) >> 4 {
            0 => Color::Red,
            1 => Color::Yellow,
            2 => Color::Green,
            _ => Color::Blue,
        }
    }

    pub fn count(self) -> (r: Count)
        ensures
            r == self.count_part(),
    {
        proof {
            lemma_unpack_piece(self.0);
        }
        match (self.0 & 192) >> 6 {
            0 => Count::One,
            1 => Count::One,
            2 => Count::Two,
            _ => Count::Three,
        }
    }
}

/// What a move code says.
#[derive(Clone, Copy, PartialEq, Eq, Structural, Debug)]
pub enum MoveData {
    Attack { piece: Key },
    Move { piece: Key, system: Key },
    Construct { piece: Key },
    Transform { piece: Key, color: Color },
    Sacrifice { piece: Key },
    Select { size: Size, color: Color },
    Catastrophe { piece: Key },
    Pass,
}

impl MoveData {
    /// Every key that the move names is the key of a piece.
    pub open spec fn representable(self) -> bool {
        match self {
            MoveData::Attack { piece } => piece < 36,
            MoveData::Move { piece, system } => piece < 36 && system < 36,
            MoveData::Construct { piece } => piece < 36,
            MoveData::Transform { piece, .. } => piece < 36,
            MoveData::Sacrifice { piece } => piece < 36,
            MoveData::Select { .. } => true,
            MoveData::Catastrophe { piece } => piece < 36,
            MoveData::Pass => true,
        }
    }

    pub fn is_representable(&self) -> (r: bool)
        ensures
            r == self.representable(),
    {
        match self {
            MoveData::Attack { piece } => *piece < 36,
            MoveData::Move { piece, system } => *piece < 36 && *system < 36,
            MoveData::Construct { piece } => *piece < 36,
            MoveData::Transform { piece, .. } => *piece < 36,
            MoveData::Sacrifice { piece } => *piece < 36,
            MoveData::Select { .. } => true,
            MoveData::Catastrophe { piece } => *piece < 36,
            MoveData::Pass => true,
        }
    }
}

/// The number made of a three-bit tag, a six-bit field and a seven-bit
/// field, the tag highest.
pub open spec fn fields(tag: int, six: int, seven: int) -> int {
    tag * 8192 + six * 128 + seven
}

/// The sixteen bits of a move: the tag of its kind, then its operands. A
/// colour stands in the seven-bit field as sixteen times its place in the
/// order of colours.
pub open spec fn encode(d: MoveData) -> int {
    match d {
        MoveData::Attack { piece } => fields(0, 0, piece as int),
        MoveData::Move { piece, system } => fields(1, piece as int, system as int),
        MoveData::Construct { piece } => fields(2, 0, piece as int),
        MoveData::Transform { piece, color } => fields(3, piece as int, 16 * color.index()),
        MoveData::Sacrifice { piece } => fields(4, 0, piece as int),
        MoveData::Select { size, color } => fields(5, size.index(), 16 * color.index()),
        MoveData::Catastrophe { piece } => fields(6, 0, piece as int),
        MoveData::Pass => fields(7, 0, 0),
    }
}

/// Whether a seven-bit field holds a colour.
pub open spec fn is_color_field(seven: int) -> bool {
    seven == 0 || seven == 16 || seven == 32 || seven == 48
}

/// What sixteen bits say, if they are the code of a move with keys of
/// pieces, a colour and a size where the kind asks for them. The fields that
/// a kind does not use are not looked at.
pub open spec fn decode(bits: int) -> Option<MoveData> {
    let tag = bits / 8192;
    let six = (bits / 128) % 64;
    let seven = bits % 128;
    if tag == 0 {
        if seven < 36 {
            Some(MoveData::Attack { piece: seven as Key })
        } else {
            None
        }
    } else if tag == 1 {
        if six < 36 && seven < 36 {
            Some(MoveData::Move { piece: six as Key, system: seven as Key })
        } else {
            None
        }
    } else if tag == 2 {
        if seven < 36 {
            Some(MoveData::Construct { piece: seven as Key })
        } else {
            None
        }
    } else if tag == 3 {
        if six < 36 && is_color_field(seven) {
            Some(MoveData::Transform { piece: six as Key, color: Color::at(seven / 16) })
        } else {
            None
        }
    } else if tag == 4 {
        if seven < 36 {
            Some(MoveData::Sacrifice { piece: seven as Key })
        } else {
            None
        }
    } else if tag == 5 {
        if six < 3 && is_color_field(seven) {
            Some(MoveData::Select { size: Size::at(six), color: Color::at(seven / 16) })
        } else {
            None
        }
    } else if tag == 6 {
        if seven < 36 {
            Some(MoveData::Catastrophe { piece: seven as Key })
        } else {
            None
        }
    } else {
        Some(MoveData::Pass)
    }
}

proof fn lemma_move_fields(tag: u16, six: u16, seven: u16)
    by (bit_vector)
    requires
        tag < 8,
        six < 64,
        seven < 128,
    ensures
        tag * 8192 + six * 128 + seven < 65536,
        ((tag * 8192 + six * 128 + seven) as u16) / 8192 == tag,
        (((tag * 8192 + six * 128 + seven) as u16) / 128) % 64 == six,
        ((tag * 8192 + six * 128 + seven) as u16) % 128 == seven,
{
}

/// Decoding the code of a move gives the move back, for every move whose
/// keys are keys of pieces.
pub proof fn law_encoding_round_trip(d: MoveData)
    requires
        d.representable(),
    ensures
        0 <= encode(d) < 65536,
        decode(encode(d)) == Some(d),
{
    match d {
        MoveData::Attack { piece } => {
            lemma_move_fields(0, 0, piece as u16);
        },
        MoveData::Move { piece, system } => {
            lemma_move_fields(1, piece as u16, system as u16);
        },
        MoveData::Construct { piece } => {
            lemma_move_fields(2, 0, piece as u16);
        },
        MoveData::Transform { piece, color } => {
            lemma_move_fields(3, piece as u16, (16 * color.index()) as u16);
        },
        MoveData::Sacrifice { piece } => {
            lemma_move_fields(4, 0, piece as u16);
        },
        MoveData::Select { size, color } => {
            lemma_move_fields(5, size.index() as u16, (16 * color.index()) as u16);
        },
        MoveData::Catastrophe { piece } => {
            lemma_move_fields(6, 0, piece as u16);
        },
        MoveData::Pass => {
            lemma_move_fields(7, 0, 0);
        },
    }
}

/// What decodes is a move with keys of pieces.
pub proof fn lemma_decode_representable(bits: int)
    requires
        0 <= bits < 65536,
    ensures
        decode(bits) matches Some(d) ==> d.representable(),
{
}

proof fn lemma_pack_move(tag: u16, six: u16, seven: u16)
    by (bit_vector)
    requires
        tag < 8,
        six < 64,
        seven < 128,
    ensures
        ((tag << 13) | (six << 7) | seven) == tag * 8192 + six * 128 + seven,
{
}

proof fn lemma_unpack_move(x: u16)
    by (bit_vector)
    ensures
        (x & 0xE000) >> 13 == x / 8192,
        (x & 0x1F80) >> 7 == (x / 128) % 64,
        x & 0x007F == x % 128,
{
}

/// A move in sixteen bits.
#[derive(Clone, Copy, PartialEq, Eq, Debug)]
pub struct Move(u16);

impl View for Move {
    type V = MoveData;

    /// What the code says.
    open spec fn view(&self) -> MoveData {
        decode(self.bits() as int)->0
    }
}

impl Move {
    /// The sixteen bits.
    pub closed spec fn bits(self) -> u16 {
        self.0
    }

    #[verifier::type_invariant]
    spec fn inv(self) -> bool {
        decode(self.0 as int) is Some
    }

    fn pack(tag: u16, six: u16, seven: u16) -> (r: u16)
        requires
            tag < 8,
            six < 64,
            seven < 128,
        ensures
            r == fields(tag as int, six as int, seven as int),
    {
        proof {
            lemma_pack_move(tag, six, seven);
        }
        (tag << 13) | (six << 7) | seven
    }

    /// The code of a move.
    pub fn new(data: MoveData) -> (m: Move)
        requires
            data.representable(),
        ensures
            m.bits() == encode(data),
            m@ == data,
    {
        proof {
            law_encoding_round_trip(data);
        }
        Move(
            match data {
                MoveData::Attack { piece } => Move::pack(0, 0, piece as u16),
                MoveData::Move { piece, system } => Move::pack(1, piece as u16, system as u16),
                MoveData::Construct { piece } => Move::pack(2, 0, piece as u16),
                MoveData::Transform { piece, color } => Move::pack(
                    3,
                    piece as u16,
                    16 * (color.to_index() as u16),
                ),
                MoveData::Sacrifice { piece } => Move::pack(4, 0, piece as u16),
                MoveData::Select { size, color } => Move::pack(
                    5,
                    size.to_index() as u16,
                    16 * (color.to_index() as u16),
                ),
                MoveData::Catastrophe { piece } => Move::pack(6, 0, piece as u16),
                MoveData::Pass => Move::pack(7, 0, 0),
            },
        )
    }

    /// The move that sixteen bits are the code of, unless they are
    /// malformed: a key that is not the key of a piece, a colour field that
    /// is no colour, a size field that is no size.
    pub fn from_bits(bits: u16) -> (r: Option<Move>)
        ensures
            r is Some == decode(bits as int) is Some,
            r matches Some(m) ==> m.bits() == bits,
    {
        proof {
            lemma_unpack_move(bits);
        }
        let tag = (bits & 0xE000) >> 13;
        let six = (bits & 0x1F80) >> 7;
        let seven = bits & 0x007F;
        let color_ok = seven == 0 || seven == 16 || seven == 32 || seven == 48;
        let ok = match tag {
            0 => seven < 36,
            1 => six < 36 && seven < 36,
            2 => seven < 36,
            3 => six < 36 && color_ok,
            4 => seven < 36,
            5 => six < 3 && color_ok,
            6 => seven < 36,
            _ => true,
        };
        if ok {
            Some(Move(bits))
        } else {
            None
        }
    }

    pub fn code(self) -> (r: u16)
        ensures
            r == self.bits(),
    {
        self.0
    }

    /// What the code says.
    pub fn data(self) -> (d: MoveData)
        ensures
            d == self@,
            decode(self.bits() as int) == Some(d),
            d.representable(),
    {
        proof {
            use_type_invariant(&self);
            lemma_unpack_move(self.0);
            lemma_decode_representable(self.0 as int);
        }
        let b3 = (self.0 & 0xE000) >> 13;
        let b6 = ((self.0 & 0x1F80) >> 7) as u8;
        let b7 = (self.0 & 0x007F) as u8;
        match b3 {
            0 => MoveData::Attack { piece: b7 },
            1 => MoveData::Move { piece: b6, system: b7 },
            2 => MoveData::Construct { piece: b7 },
            3 => MoveData::Transform { piece: b6, color: color_of_field(b7) },
            4 => MoveData::Sacrifice { piece: b7 },
            5 => MoveData::Select { size: size_of_field(b6), color: color_of_field(b7) },
            6 => MoveData::Catastrophe { piece: b7 },
            _ => MoveData::Pass,
        }
    }
}

fn color_of_field(seven: u8) -> (c: Color)
    ensures
        c == Color::at(seven as int / 16),
{
    match seven / 16 {
        0 => Color::Red,
        1 => Color::Yellow,
        2 => Color::Green,
        _ => Color::Blue,
    }
}

fn size_of_field(six: u8) -> (s: Size)
    ensures
        s == Size::at(six as int),
{
    match six {
        0 => Size::Small,
        1 => Size::Medium,
        _ => Size::Large,
    }
}

/// The two halves of the product of two words: the low half first.
pub fn wymum(a: u64, b: u64) -> (r: (u64, u64))
    ensures
        r.0 as int + r.1 as int * 0x1_0000_0000_0000_0000 == a as int * b as int,
{
    assert(a as int * b as int <= 0xFFFF_FFFF_FFFF_FFFF * 0xFFFF_FFFF_FFFF_FFFF) by (nonlinear_arith)
        requires
            0 <= a as int <= 0xFFFF_FFFF_FFFF_FFFF,
            0 <= b as int <= 0xFFFF_FFFF_FFFF_FFFF,
    ;
    assert(0 <= a as int * b as int) by (nonlinear_arith)
        requires
            0 <= a as int,
            0 <= b as int,
    ;
    let wide: u128 = (a as u128) * (b as u128);
    let low: u64 = (wide & 0xFFFF_FFFF_FFFF_FFFF) as u64;
    let high: u64 = (wide >> 64) as u64;
    assert(low as int + high as int * 0x1_0000_0000_0000_0000 == wide as int) by {
        assert((wide & 0xFFFF_FFFF_FFFF_FFFF) + (wide >> 64) * 0x1_0000_0000_0000_0000 == wide
            && (wide & 0xFFFF_FFFF_FFFF_FFFF) <= 0xFFFF_FFFF_FFFF_FFFF && (wide >> 64)
            <= 0xFFFF_FFFF_FFFF_FFFF) by (bit_vector);
    }
    (low, high)
}

/// The two halves of the product of two words, mixed into one.
pub fn wymix(a: u64, b: u64) -> (r: u64)
    ensures
        r == mix(a, b),
{
    let (lo, hi) = wymum(a, b);
    lo ^ hi
}

/// The low half of a product xor its high half.
pub open spec fn mix(a: u64, b: u64) -> u64 {
    (((a as int * b as int) % 0x1_0000_0000_0000_0000) as u64) ^ (((a as int * b as int)
        / 0x1_0000_0000_0000_0000) as u64)
}

/// The hash of two words.
pub fn wyhash64(a: u64, b: u64) -> (r: u64)
    ensures
        r == hash_of(a, b),
{
    let a = a ^ 0x2d358dccaa6c78a5;
    let b = b ^ 0x8bb84b93962eacc9;
    let (a, b) = wymum(a, b);
    wymix(a ^ 0x2d358dccaa6c78a5, b ^ 0x8bb84b93962eacc9)
}

/// The two words are each mixed with a constant and multiplied; the halves
/// of the product are mixed with the constants again and multiplied; the
/// hash is the low half of that product xor its high half.
pub open spec fn hash_of(a: u64, b: u64) -> u64 {
    let x = a ^ 0x2d358dccaa6c78a5;
    let y = b ^ 0x8bb84b93962eacc9;
    let lo = ((x as int * y as int) % 0x1_0000_0000_0000_0000) as u64;
    let hi = ((x as int * y as int) / 0x1_0000_0000_0000_0000) as u64;
    mix(lo ^ 0x2d358dccaa6c78a5, hi ^ 0x8bb84b93962eacc9)
}

/// A position in compact form: its hash, the stock, the turn, and the codes
/// of its pieces.
pub struct BoardInner<T> {
    pub hash: u64,
    pub bank: Bank,
    pub turn: Turn,
    pub pieces: T,
}

/// A compact position whose pieces are a list that ends in the filler.
pub type Board = BoardInner<Vec<Piece>>;

impl Board {
    /// The compact position before the first move: no piece, the full
    /// stock, White about to choose a first star.
    pub fn new() -> (b: Box<Board>)
        ensures
            b.hash == 0,
            b.bank.wf(),
            forall|cell: int| 0 <= cell < 12 ==> #[trigger] b.bank.count_at(cell) == 3,
            b.turn == Turn::initial_turn(),
            b.pieces@.len() == 1,
            b.pieces@[0].is_pad(),
    {
        let mut pieces: Vec<Piece> = Vec::new();
        pieces.push(Piece::pad());
        Box::new(BoardInner { hash: 0, bank: Bank::new(), turn: Turn::initial(), pieces })
    }

    /// A copy of the compact position, with the filler behind its pieces if
    /// the list did not end in it.
    pub fn duplicate(&self) -> (b: Box<Board>)
        requires
            self.pieces@.len() > 0,
        ensures
            b.hash == self.hash,
            b.bank == self.bank,
            b.turn == self.turn,
            b.pieces@ == padded(self.pieces@),
    {
        let n = self.pieces.len();
        let mut pieces: Vec<Piece> = Vec::new();
        let mut i: usize = 0;
        while i < n
            invariant
                i <= n,
                n == self.pieces@.len(),
                pieces@ == self.pieces@.subrange(0, i as int),
            decreases n - i,
        {
            pieces.push(self.pieces[i]);
            i += 1;
            assert(pieces@ =~= self.pieces@.subrange(0, i as int));
        }
        assert(pieces@ =~= self.pieces@);
        if !self.pieces[n - 1].is_padding() {
            pieces.push(Piece::pad());
        }
        Box::new(BoardInner { hash: self.hash, bank: self.bank, turn: self.turn, pieces })
    }
}

/// A list of piece codes with the filler behind it, unless it ends in the
/// filler already.
pub open spec fn padded(pieces: Seq<Piece>) -> Seq<Piece> {
    if pieces.last().is_pad() {
        pieces
    } else {
        pieces.push(pad_piece())
    }
}

/// The filler.
pub closed spec fn pad_piece() -> Piece {
    Piece(0xFF)
}

} // verus!
