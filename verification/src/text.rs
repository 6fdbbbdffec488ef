//! Moves as text: one line names a move by a word and its operands, as in
//! `attack 7`, `transform 7 blue`, `select small red` or `pass`.

use vstd::prelude::*;
use vstd::std_specs::iter::IteratorSpec;
use vstd::string::StringExecFns;
use crate::kinds::{Color, Key, Size};
use crate::moves::Move;

verus! {

/// White space as Unicode has it.
pub open spec fn is_space(c: char) -> bool {
    let n = c as u32;
    ||| 0x09 <= n <= 0x0D
    ||| n == 0x20
    ||| n == 0x85
    ||| n == 0xA0
    ||| n == 0x1680
    ||| 0x2000 <= n <= 0x200A
    ||| n == 0x2028
    ||| n == 0x2029
    ||| n == 0x202F
    ||| n == 0x205F
    ||| n == 0x3000
}

/// Where the word that begins at `i` ends: at the next white space, or at
/// the end of the text.
pub open spec fn word_end(t: Seq<char>, i: int) -> int
    decreases t.len() - i,
{
    if 0 <= i < t.len() && !is_space(t[i]) {
        word_end(t, i + 1)
    } else {
        i
    }
}

pub proof fn lemma_word_end(t: Seq<char>, i: int)
    requires
        0 <= i <= t.len(),
    ensures
        i <= word_end(t, i) <= t.len(),
        i < t.len() && !is_space(t[i]) ==> i < word_end(t, i),
        forall|j: int| i <= j < word_end(t, i) ==> !is_space(#[trigger] t[j]),
        word_end(t, i) < t.len() ==> is_space(t[word_end(t, i)]),
    decreases t.len() - i,
{
    if i < t.len() && !is_space(t[i]) {
        lemma_word_end(t, i + 1);
    }
}

/// The words of a text from position `i` onwards: the runs of characters
/// between white space.
pub open spec fn words_from(t: Seq<char>, i: int) -> Seq<Seq<char>>
    decreases t.len() - i,
    when 0 <= i
    via words_from_decreases
{
    if i >= t.len() {
        Seq::empty()
    } else if is_space(t[i]) {
        words_from(t, i + 1)
    } else {
        seq![t.subrange(i, word_end(t, i))] + words_from(t, word_end(t, i))
    }
}

#[via_fn]
proof fn words_from_decreases(t: Seq<char>, i: int) {
    if i < t.len() && !is_space(t[i]) {
        lemma_word_end(t, i);
    }
}

/// The words of a text.
pub open spec fn words(t: Seq<char>) -> Seq<Seq<char>> {
    words_from(t, 0)
}

/// The value of a digit, if the character is one.
pub open spec fn digit_of(c: char) -> Option<int> {
    if 0x30 <= c as u32 <= 0x39 {
        Some(c as u32 - 0x30)
    } else {
        None
    }
}

/// The number that a run of digits writes in base ten.
pub open spec fn value_of(w: Seq<char>) -> int
    decreases w.len(),
{
    if w.len() == 0 {
        0
    } else {
        value_of(w.drop_last()) * 10 + digit_of(w.last())->0
    }
}

/// A word without the plus sign that it may begin with.
pub open spec fn unsigned(w: Seq<char>) -> Seq<char> {
    if w.len() > 0 && w[0] == '+' {
        w.subrange(1, w.len() as int)
    } else {
        w
    }
}

/// Every character of the word is a digit.
pub open spec fn all_digits(d: Seq<char>) -> bool {
    forall|i: int| 0 <= i < d.len() ==> #[trigger] digit_of(d[i]) is Some
}

/// The key that a word writes: digits, after a plus sign or none, that
/// write a number below thirty-six.
pub open spec fn key_named(w: Seq<char>) -> Option<Key> {
    let d = unsigned(w);
    if d.len() > 0 && all_digits(d) && value_of(d) < 36 {
        Some(value_of(d) as Key)
    } else {
        None
    }
}

/// `c` is the small letter `l`, or the capital of it.
pub open spec fn same_letter(c: char, l: char) -> bool {
    c == l || (0x41 <= c as u32 <= 0x5A && c as u32 + 0x20 == l as u32)
}

/// `w` is the word `pat`, which is written in small letters, in small or
/// capital letters.
pub open spec fn spells(w: Seq<char>, pat: Seq<char>) -> bool {
    w.len() == pat.len() && forall|i: int| 0 <= i < w.len() ==> same_letter(#[trigger] w[i], pat[i])
}

impl Size {
    /// The name of the size.
    pub open spec fn word(self) -> Seq<char> {
        match self {
            Size::Small => "small"@,
            Size::Medium => "medium"@,
            Size::Large => "large"@,
        }
    }

    pub fn to_str(&self) -> (r: &'static str)
        ensures
            r@ == self.word(),
    {
        match self {
            Size::Small => "small",
            Size::Medium => "medium",
            Size::Large => "large",
        }
    }

    /// The size that a text names, in small or capital letters.
    pub fn from_str(s: &str) -> (r: Result<Size, ()>)
        ensures
            r == size_result(size_named(s@)),
    {
        let w = chars_of(s);
        size_of_word(&w)
    }
}

impl Color {
    /// The name of the colour.
    pub open spec fn word(self) -> Seq<char> {
        match self {
            Color::Red => "red"@,
            Color::Yellow => "yellow"@,
            Color::Green => "green"@,
            Color::Blue => "blue"@,
        }
    }

    pub fn to_str(&self) -> (r: &'static str)
        ensures
            r@ == self.word(),
    {
        match self {
            Color::Red => "red",
            Color::Yellow => "yellow",
            Color::Green => "green",
            Color::Blue => "blue",
        }
    }

    /// The colour that a text names, in small or capital letters.
    pub fn from_str(s: &str) -> (r: Result<Color, ()>)
        ensures
            r == color_result(color_named(s@)),
    {
        let w = chars_of(s);
        color_of_word(&w)
    }
}

pub open spec fn size_result(o: Option<Size>) -> Result<Size, ()> {
    match o {
        Some(s) => Ok(s),
        None => Err(()),
    }
}

pub open spec fn color_result(o: Option<Color>) -> Result<Color, ()> {
    match o {
        Some(c) => Ok(c),
        None => Err(()),
    }
}

pub open spec fn move_result(o: Option<Move>) -> Result<Move, ()> {
    match o {
        Some(m) => Ok(m),
        None => Err(()),
    }
}

/// The size that a word names.
pub open spec fn size_named(w: Seq<char>) -> Option<Size> {
    if spells(w, Size::Small.word()) {
        Some(Size::Small)
    } else if spells(w, Size::Medium.word()) {
        Some(Size::Medium)
    } else if spells(w, Size::Large.word()) {
        Some(Size::Large)
    } else {
        None
    }
}

/// The colour that a word names.
pub open spec fn color_named(w: Seq<char>) -> Option<Color> {
    if spells(w, Color::Red.word()) {
        Some(Color::Red)
    } else if spells(w, Color::Yellow.word()) {
        Some(Color::Yellow)
    } else if spells(w, Color::Green.word()) {
        Some(Color::Green)
    } else if spells(w, Color::Blue.word()) {
        Some(Color::Blue)
    } else {
        None
    }
}

/// The move that a word and a key name.
pub open spec fn keyed_move(w: Seq<char>, k: Key) -> Option<Move> {
    if w == "attack"@ {
        Some(Move::Attack(k))
    } else if w == "construct"@ {
        Some(Move::Construct(k))
    } else if w == "sacrifice"@ {
        Some(Move::Sacrifice(k))
    } else if w == "moveinit"@ {
        Some(Move::MoveInit(k))
    } else if w == "movefinish"@ {
        Some(Move::MoveFinish(k))
    } else if w == "catastrophe"@ {
        Some(Move::Catastrophe(k))
    } else {
        None
    }
}

/// The move that a text names, if it names one: `pass`; one of `attack`,
/// `construct`, `sacrifice`, `moveinit`, `movefinish`, `catastrophe` and a
/// key; `transform`, a key and a colour; `select`, a size and a colour. The
/// words stand between white space of any length.
pub open spec fn parse_move(t: Seq<char>) -> Option<Move> {
    let w = words(t);
    if w.len() == 1 {
        if w[0] == "pass"@ {
            Some(Move::Pass)
        } else {
            None
        }
    } else if w.len() == 2 {
        match key_named(w[1]) {
            Some(k) => keyed_move(w[0], k),
            None => None,
        }
    } else if w.len() == 3 {
        if w[0] == "transform"@ {
            match (key_named(w[1]), color_named(w[2])) {
                (Some(k), Some(c)) => Some(Move::Transform(k, c)),
                _ => None,
            }
        } else if w[0] == "select"@ {
            match (size_named(w[1]), color_named(w[2])) {
                (Some(s), Some(c)) => Some(Move::Select(s, c)),
                _ => None,
            }
        } else {
            None
        }
    } else {
        None
    }
}

/// The digit that writes a number below ten.
pub open spec fn digit_char(d: int) -> char {
    (0x30 + d) as u8 as char
}

/// A key in base ten, without leading zeros.
pub open spec fn key_text(k: Key) -> Seq<char> {
    if k < 10 {
        seq![digit_char(k as int)]
    } else if k < 100 {
        seq![digit_char(k as int / 10), digit_char(k as int % 10)]
    } else {
        seq![digit_char(k as int / 100), digit_char((k as int / 10) % 10), digit_char(k as int % 10)]
    }
}

/// The text that names a move.
pub open spec fn move_text(m: Move) -> Seq<char> {
    match m {
        Move::Attack(k) => "attack "@ + key_text(k),
        Move::Construct(k) => "construct "@ + key_text(k),
        Move::Transform(k, c) => "transform "@ + key_text(k) + " "@ + c.word(),
        Move::Sacrifice(k) => "sacrifice "@ + key_text(k),
        Move::MoveInit(k) => "moveinit "@ + key_text(k),
        Move::MoveFinish(k) => "movefinish "@ + key_text(k),
        Move::Select(s, c) => "select "@ + s.word() + " "@ + c.word(),
        Move::Catastrophe(k) => "catastrophe "@ + key_text(k),
        Move::Pass => "pass"@,
    }
}

/// The characters of a text, one by one.
pub fn chars_of(s: &str) -> (v: Vec<char>)
    ensures
        v@ == s@,
{
    broadcast use vstd::string::group_string_axioms;

    let mut it = s.chars();
    let mut v: Vec<char> = Vec::new();
    loop
        invariant
            v@ + it.remaining() == s@,
            it.obeys_prophetic_iter_laws(),
            it.decrease() is Some,
        ensures
            v@ == s@,
        decreases it.decrease()->0,
    {
        match it.next() {
            Some(c) => {
                v.push(c);
                assert(v@ + it.remaining() =~= s@);
            },
            None => {
                assert(v@ + it.remaining() =~= v@);
                break ;
            },
        }
    }
    v
}

fn is_space_char(c: char) -> (r: bool)
    ensures
        r == is_space(c),
{
    let n = c as u32;
    (0x09 <= n && n <= 0x0D) || n == 0x20 || n == 0x85 || n == 0xA0 || n == 0x1680 || (0x2000 <= n
        && n <= 0x200A) || n == 0x2028 || n == 0x2029 || n == 0x202F || n == 0x205F || n == 0x3000
}

/// The views of a list of words.
pub open spec fn views(ws: Seq<Vec<char>>) -> Seq<Seq<char>> {
    ws.map_values(|w: Vec<char>| w@)
}

/// Cuts a text into its words.
pub fn split_words(t: &Vec<char>) -> (out: Vec<Vec<char>>)
    ensures
        views(out@) == words(t@),
{
    let mut out: Vec<Vec<char>> = Vec::new();
    let mut i: usize = 0;
    assert(views(out@) + words_from(t@, 0) =~= words(t@));
    while i < t.len()
        invariant
            i <= t.len(),
            views(out@) + words_from(t@, i as int) == words(t@),
        decreases t.len() - i,
    {
        if is_space_char(t[i]) {
            i += 1;
        } else {
            let start = i;
            let mut word: Vec<char> = Vec::new();
            while i < t.len() && !is_space_char(t[i])
                invariant
                    start <= i <= t.len(),
                    word@ == t@.subrange(start as int, i as int),
                    word_end(t@, i as int) == word_end(t@, start as int),
                decreases t.len() - i,
            {
                word.push(t[i]);
                i += 1;
                assert(word@ =~= t@.subrange(start as int, i as int));
            }
            let ghost before = views(out@);
            out.push(word);
            assert(views(out@) =~= before + seq![word@]);
            assert(views(out@) + words_from(t@, i as int) =~= before + words_from(
                t@,
                start as int,
            ));
        }
    }
    assert(views(out@) + words_from(t@, i as int) =~= views(out@));
    out
}

/// Whether a word is `pat`, in these very letters or, if `folded`, in small
/// or capital letters.
fn word_is(w: &Vec<char>, pat: &str, folded: bool) -> (r: bool)
    ensures
        r == (if folded {
            spells(w@, pat@)
        } else {
            w@ == pat@
        }),
{
    let p = chars_of(pat);
    if w.len() != p.len() {
        return false;
    }
    let mut i: usize = 0;
    while i < w.len()
        invariant
            i <= w.len(),
            w@.len() == p@.len(),
            p@ == pat@,
            forall|j: int|
                0 <= j < i ==> (if folded {
                    same_letter(#[trigger] w@[j], p@[j])
                } else {
                    w@[j] == p@[j]
                }),
        decreases w.len() - i,
    {
        let c = w[i];
        let l = p[i];
        let n = c as u32;
        let same = c == l || (folded && 0x41 <= n && n <= 0x5A && n + 0x20 == l as u32);
        if !same {
            return false;
        }
        i += 1;
    }
    assert(!folded ==> w@ =~= pat@);
    true
}

fn size_of_word(w: &Vec<char>) -> (r: Result<Size, ()>)
    ensures
        r == size_result(size_named(w@)),
{
    if word_is(w, "small", true) {
        Ok(Size::Small)
    } else if word_is(w, "medium", true) {
        Ok(Size::Medium)
    } else if word_is(w, "large", true) {
        Ok(Size::Large)
    } else {
        Err(())
    }
}

fn color_of_word(w: &Vec<char>) -> (r: Result<Color, ()>)
    ensures
        r == color_result(color_named(w@)),
{
    if word_is(w, "red", true) {
        Ok(Color::Red)
    } else if word_is(w, "yellow", true) {
        Ok(Color::Yellow)
    } else if word_is(w, "green", true) {
        Ok(Color::Green)
    } else if word_is(w, "blue", true) {
        Ok(Color::Blue)
    } else {
        Err(())
    }
}

/// The key that a word writes.
fn key_of_word(w: &Vec<char>) -> (r: Option<Key>)
    ensures
        r == key_named(w@),
{
    let start: usize = if w.len() > 0 && w[0] == '+' {
        1
    } else {
        0
    };
    let ghost d = unsigned(w@);
    if start == w.len() {
        return None;
    }
    let mut acc: u8 = 0;
    let mut big = false;
    let mut i: usize = start;
    assert(d.subrange(0, 0) =~= Seq::<char>::empty());
    while i < w.len()
        invariant
            start <= i <= w.len(),
            d == unsigned(w@),
            d.len() == w@.len() - start,
            forall|j: int| 0 <= j < d.len() ==> #[trigger] d[j] == w@[start + j],
            forall|j: int| 0 <= j < i - start ==> #[trigger] digit_of(d[j]) is Some,
            !big ==> acc == value_of(d.subrange(0, i - start)) && acc < 36,
            big ==> value_of(d.subrange(0, i - start)) >= 36,
        decreases w.len() - i,
    {
        let n = w[i] as u32;
        assert(d[i - start] == w@[i as int]);
        if n < 0x30 || n > 0x39 {
            assert(digit_of(d[i - start]) is None);
            return None;
        }
        let ghost prefix = d.subrange(0, i - start + 1);
        assert(prefix.drop_last() =~= d.subrange(0, i - start));
        assert(prefix.last() == d[i - start]);
        if !big {
            let v: u32 = (acc as u32) * 10 + (n - 0x30);
            if v >= 36 {
                big = true;
            } else {
                acc = v as u8;
            }
        }
        i += 1;
    }
    assert(d.subrange(0, d.len() as int) =~= d);
    if big {
        None
    } else {
        Some(acc)
    }
}

impl Move {
    /// The move that a text names.
    pub fn from_str(s: &str) -> (r: Result<Move, ()>)
        ensures
            r == move_result(parse_move(s@)),
    {
        let t = chars_of(s);
        let parts = split_words(&t);
        assert(forall|i: int| 0 <= i < parts@.len() ==> #[trigger] views(parts@)[i] == parts@[i]@);
        if parts.len() == 1 {
            if word_is(&parts[0], "pass", false) {
                Ok(Move::Pass)
            } else {
                Err(())
            }
        } else if parts.len() == 2 {
            let k = match key_of_word(&parts[1]) {
                Some(k) => k,
                None => {
                    return Err(());
                },
            };
            let w = &parts[0];
            if word_is(w, "attack", false) {
                Ok(Move::Attack(k))
            } else if word_is(w, "construct", false) {
                Ok(Move::Construct(k))
            } else if word_is(w, "sacrifice", false) {
                Ok(Move::Sacrifice(k))
            } else if word_is(w, "moveinit", false) {
                Ok(Move::MoveInit(k))
            } else if word_is(w, "movefinish", false) {
                Ok(Move::MoveFinish(k))
            } else if word_is(w, "catastrophe", false) {
                Ok(Move::Catastrophe(k))
            } else {
                Err(())
            }
        } else if parts.len() == 3 {
            if word_is(&parts[0], "transform", false) {
                let k = key_of_word(&parts[1]);
                let c = color_of_word(&parts[2]);
                match (k, c) {
                    (Some(k), Ok(c)) => Ok(Move::Transform(k, c)),
                    _ => Err(()),
                }
            } else if word_is(&parts[0], "select", false) {
                let s = size_of_word(&parts[1]);
                let c = color_of_word(&parts[2]);
                match (s, c) {
                    (Ok(s), Ok(c)) => Ok(Move::Select(s, c)),
                    _ => Err(()),
                }
            } else {
                Err(())
            }
        } else {
            Err(())
        }
    }

    /// The text that names the move.
    pub fn to_string(&self) -> (r: String)
        ensures
            r@ == move_text(*self),
    {
        match self {
            Move::Attack(k) => keyed("attack ", *k),
            Move::Construct(k) => keyed("construct ", *k),
            Move::Transform(k, c) => {
                let mut r = keyed("transform ", *k);
                r.append(" ");
                r.append(c.to_str());
                r
            },
            Move::Sacrifice(k) => keyed("sacrifice ", *k),
            Move::MoveInit(k) => keyed("moveinit ", *k),
            Move::MoveFinish(k) => keyed("movefinish ", *k),
            Move::Select(s, c) => {
                let mut r = String::from_str("select ");
                r.append(s.to_str());
                r.append(" ");
                r.append(c.to_str());
                r
            },
            Move::Catastrophe(k) => keyed("catastrophe ", *k),
            Move::Pass => String::from_str("pass"),
        }
    }
}

/// A word and a key behind it.
fn keyed(word: &str, k: Key) -> (r: String)
    ensures
        r@ == word@ + key_text(k),
{
    let mut r = String::from_str(word);
    if k >= 100 {
        r.append(digit_str(k / 100));
        r.append(digit_str((k / 10) % 10));
        r.append(digit_str(k % 10));
    } else if k >= 10 {
        r.append(digit_str(k / 10));
        r.append(digit_str(k % 10));
    } else {
        r.append(digit_str(k));
    }
    assert(r@ =~= word@ + key_text(k));
    r
}

/// The digit that writes a number below ten, as a text.
fn digit_str(d: u8) -> (r: &'static str)
    requires
        d < 10,
    ensures
        r@ == seq![digit_char(d as int)],
{
    proof {
        reveal_strlit("0");
        reveal_strlit("1");
        reveal_strlit("2");
        reveal_strlit("3");
        reveal_strlit("4");
        reveal_strlit("5");
        reveal_strlit("6");
        reveal_strlit("7");
        reveal_strlit("8");
        reveal_strlit("9");
    }
    let r = match d {
        0 => "0",
        1 => "1",
        2 => "2",
        3 => "3",
        4 => "4",
        5 => "5",
        6 => "6",
        7 => "7",
        8 => "8",
        _ => "9",
    };
    assert(r@ =~= seq![digit_char(d as int)]);
    r
}

/// No character of the word is white space.
pub open spec fn no_space(w: Seq<char>) -> bool {
    forall|i: int| 0 <= i < w.len() ==> !#[trigger] is_space(w[i])
}

/// A run of characters without white space, up to white space or to the end
/// of the text, is a word.
pub proof fn lemma_word_run(t: Seq<char>, i: int, j: int)
    requires
        0 <= i <= j <= t.len(),
        forall|k: int| i <= k < j ==> !is_space(#[trigger] t[k]),
        j == t.len() || is_space(t[j]),
    ensures
        word_end(t, i) == j,
    decreases j - i,
{
    if i < j {
        lemma_word_run(t, i + 1, j);
    }
}

/// A text of one word.
pub proof fn lemma_one_word(a: Seq<char>)
    requires
        a.len() > 0,
        no_space(a),
    ensures
        words(a) == seq![a],
{
    assert forall|k: int| 0 <= k < a.len() implies !is_space(#[trigger] a[k]) by {
        assert(!is_space(a[k]));
    }
    lemma_word_run(a, 0, a.len() as int);
    assert(a.subrange(0, a.len() as int) =~= a);
    assert(words_from(a, a.len() as int) =~= Seq::<Seq<char>>::empty());
    assert(words(a) =~= seq![a]);
}

/// A text of two words with one blank between them.
pub proof fn lemma_two_words(a: Seq<char>, b: Seq<char>)
    requires
        a.len() > 0,
        b.len() > 0,
        no_space(a),
        no_space(b),
    ensures
        words(a + seq![' '] + b) == seq![a, b],
{
    let t = a + seq![' '] + b;
    let n = a.len() as int;
    let m = t.len() as int;
    assert forall|k: int| 0 <= k < n implies !is_space(#[trigger] t[k]) by {
        assert(t[k] == a[k]);
        assert(!is_space(a[k]));
    }
    assert forall|k: int| n + 1 <= k < m implies !is_space(#[trigger] t[k]) by {
        assert(t[k] == b[k - n - 1]);
        assert(!is_space(b[k - n - 1]));
    }
    assert(t[n] == ' ');
    lemma_word_run(t, 0, n);
    lemma_word_run(t, n + 1, m);
    assert(t.subrange(0, n) =~= a);
    assert(t.subrange(n + 1, m) =~= b);
    assert(words_from(t, m) =~= Seq::<Seq<char>>::empty());
    assert(words_from(t, n + 1) =~= seq![b]);
    assert(words_from(t, n) == words_from(t, n + 1));
    assert(words(t) =~= seq![a, b]);
}

/// A text of three words with one blank between each two.
pub proof fn lemma_three_words(a: Seq<char>, b: Seq<char>, c: Seq<char>)
    requires
        a.len() > 0,
        b.len() > 0,
        c.len() > 0,
        no_space(a),
        no_space(b),
        no_space(c),
    ensures
        words(a + seq![' '] + b + seq![' '] + c) == seq![a, b, c],
{
    let t = a + seq![' '] + b + seq![' '] + c;
    let n = a.len() as int;
    let p = n + 1 + b.len() as int;
    let m = t.len() as int;
    assert forall|k: int| 0 <= k < n implies !is_space(#[trigger] t[k]) by {
        assert(t[k] == a[k]);
        assert(!is_space(a[k]));
    }
    assert forall|k: int| n + 1 <= k < p implies !is_space(#[trigger] t[k]) by {
        assert(t[k] == b[k - n - 1]);
        assert(!is_space(b[k - n - 1]));
    }
    assert forall|k: int| p + 1 <= k < m implies !is_space(#[trigger] t[k]) by {
        assert(t[k] == c[k - p - 1]);
        assert(!is_space(c[k - p - 1]));
    }
    assert(t[n] == ' ');
    assert(t[p] == ' ');
    lemma_word_run(t, 0, n);
    lemma_word_run(t, n + 1, p);
    lemma_word_run(t, p + 1, m);
    assert(t.subrange(0, n) =~= a);
    assert(t.subrange(n + 1, p) =~= b);
    assert(t.subrange(p + 1, m) =~= c);
    assert(words_from(t, m) =~= Seq::<Seq<char>>::empty());
    assert(words_from(t, p + 1) =~= seq![c]);
    assert(words_from(t, p) == words_from(t, p + 1));
    assert(words_from(t, n + 1) =~= seq![b, c]);
    assert(words_from(t, n) == words_from(t, n + 1));
    assert(words(t) =~= seq![a, b, c]);
}

/// The text of a key below a hundred names the key.
pub proof fn lemma_key_text(k: Key)
    requires
        k < 100,
    ensures
        no_space(key_text(k)),
        key_text(k).len() > 0,
        value_of(key_text(k)) == k,
        all_digits(key_text(k)),
        unsigned(key_text(k)) == key_text(k),
        k < 36 ==> key_named(key_text(k)) == Some(k),
{
    let w = key_text(k);
    assert forall|d: int| 0 <= d < 10 implies digit_of(#[trigger] digit_char(d)) == Some(d)
        && !is_space(digit_char(d)) && digit_char(d) != '+' by {}
    if k < 10 {
        assert(w.drop_last() =~= Seq::<char>::empty());
        assert(digit_of(digit_char(k as int)) == Some(k as int));
        assert(value_of(w.drop_last()) == 0);
    } else {
        let hi = seq![digit_char(k as int / 10)];
        assert(w.drop_last() =~= hi);
        assert(hi.drop_last() =~= Seq::<char>::empty());
        assert(digit_of(digit_char(k as int / 10)) == Some(k as int / 10));
        assert(digit_of(digit_char(k as int % 10)) == Some(k as int % 10));
        assert(value_of(hi.drop_last()) == 0);
        assert(value_of(hi) == k as int / 10);
    }
    assert forall|i: int| 0 <= i < w.len() implies #[trigger] digit_of(w[i]) is Some by {
        if k < 10 {
            assert(digit_of(digit_char(k as int)) is Some);
        } else {
            assert(digit_of(digit_char(k as int / 10)) is Some);
            assert(digit_of(digit_char(k as int % 10)) is Some);
        }
    }
    assert forall|i: int| 0 <= i < w.len() implies !#[trigger] is_space(w[i]) by {
        if k < 10 {
            assert(!is_space(digit_char(k as int)));
        } else {
            assert(!is_space(digit_char(k as int / 10)));
            assert(!is_space(digit_char(k as int % 10)));
        }
    }
}

/// A word spells itself.
pub proof fn lemma_spells_itself(w: Seq<char>)
    ensures
        spells(w, w),
{
}

/// The name of a colour names the colour and holds no white space.
pub proof fn lemma_color_word(c: Color)
    ensures
        color_named(c.word()) == Some(c),
        no_space(c.word()),
        c.word().len() > 0,
{
    reveal_strlit("red");
    reveal_strlit("yellow");
    reveal_strlit("green");
    reveal_strlit("blue");
    lemma_spells_itself(c.word());
    let w = c.word();
    assert forall|i: int| 0 <= i < w.len() implies !#[trigger] is_space(w[i]) by {}
}

/// The name of a size names the size and holds no white space.
pub proof fn lemma_size_word(s: Size)
    ensures
        size_named(s.word()) == Some(s),
        no_space(s.word()),
        s.word().len() > 0,
{
    reveal_strlit("small");
    reveal_strlit("medium");
    reveal_strlit("large");
    lemma_spells_itself(s.word());
    let w = s.word();
    assert forall|i: int| 0 <= i < w.len() implies !#[trigger] is_space(w[i]) by {}
    if s == Size::Large {
        assert(!same_letter(w[0], Size::Small.word()[0]));
    }
}

/// The words that begin a move, each with the blank behind it.
proof fn lemma_move_words()
    ensures
        "attack "@ == "attack"@ + seq![' '],
        "construct "@ == "construct"@ + seq![' '],
        "transform "@ == "transform"@ + seq![' '],
        "sacrifice "@ == "sacrifice"@ + seq![' '],
        "moveinit "@ == "moveinit"@ + seq![' '],
        "movefinish "@ == "movefinish"@ + seq![' '],
        "select "@ == "select"@ + seq![' '],
        "catastrophe "@ == "catastrophe"@ + seq![' '],
        " "@ == seq![' '],
        no_space("attack"@) && "attack"@.len() == 6,
        no_space("construct"@) && "construct"@.len() == 9,
        no_space("transform"@) && "transform"@.len() == 9,
        no_space("sacrifice"@) && "sacrifice"@.len() == 9,
        no_space("moveinit"@) && "moveinit"@.len() == 8,
        no_space("movefinish"@) && "movefinish"@.len() == 10,
        no_space("select"@) && "select"@.len() == 6,
        no_space("catastrophe"@) && "catastrophe"@.len() == 11,
        no_space("pass"@) && "pass"@.len() == 4,
        "sacrifice"@[0] != "construct"@[0],
{
    reveal_strlit("attack ");
    reveal_strlit("construct ");
    reveal_strlit("transform ");
    reveal_strlit("sacrifice ");
    reveal_strlit("moveinit ");
    reveal_strlit("movefinish ");
    reveal_strlit("select ");
    reveal_strlit("catastrophe ");
    reveal_strlit("attack");
    reveal_strlit("construct");
    reveal_strlit("transform");
    reveal_strlit("sacrifice");
    reveal_strlit("moveinit");
    reveal_strlit("movefinish");
    reveal_strlit("select");
    reveal_strlit("catastrophe");
    reveal_strlit("pass");
    reveal_strlit(" ");
    assert("attack "@ =~= "attack"@ + seq![' ']);
    assert("construct "@ =~= "construct"@ + seq![' ']);
    assert("transform "@ =~= "transform"@ + seq![' ']);
    assert("sacrifice "@ =~= "sacrifice"@ + seq![' ']);
    assert("moveinit "@ =~= "moveinit"@ + seq![' ']);
    assert("movefinish "@ =~= "movefinish"@ + seq![' ']);
    assert("select "@ =~= "select"@ + seq![' ']);
    assert("catastrophe "@ =~= "catastrophe"@ + seq![' ']);
    assert(" "@ =~= seq![' ']);
    assert(no_space("attack"@));
    assert(no_space("construct"@));
    assert(no_space("transform"@));
    assert(no_space("sacrifice"@));
    assert(no_space("moveinit"@));
    assert(no_space("movefinish"@));
    assert(no_space("select"@));
    assert(no_space("catastrophe"@));
    assert(no_space("pass"@));
}

/// The text of a move names the move.
pub proof fn law_text_round_trip(m: Move)
    requires
        m.names_pieces(),
    ensures
        parse_move(move_text(m)) == Some(m),
{
    lemma_move_words();
    match m {
        Move::Attack(k) => {
            lemma_key_text(k);
            lemma_two_words("attack"@, key_text(k));
        },
        Move::Construct(k) => {
            lemma_key_text(k);
            lemma_two_words("construct"@, key_text(k));
        },
        Move::Transform(k, c) => {
            lemma_key_text(k);
            lemma_color_word(c);
            lemma_three_words("transform"@, key_text(k), c.word());
        },
        Move::Sacrifice(k) => {
            lemma_key_text(k);
            lemma_two_words("sacrifice"@, key_text(k));
        },
        Move::MoveInit(k) => {
            lemma_key_text(k);
            lemma_two_words("moveinit"@, key_text(k));
        },
        Move::MoveFinish(k) => {
            lemma_key_text(k);
            lemma_two_words("movefinish"@, key_text(k));
        },
        Move::Select(s, c) => {
            lemma_size_word(s);
            lemma_color_word(c);
            lemma_three_words("select"@, s.word(), c.word());
        },
        Move::Catastrophe(k) => {
            lemma_key_text(k);
            lemma_two_words("catastrophe"@, key_text(k));
        },
        Move::Pass => {
            lemma_one_word("pass"@);
        },
    }
}

} // verus!
