//! Texts that hold binary64 numbers next to characters.
//!
//! Error reasons and check details quote numbers. A [`Message`] keeps each number
//! as its pattern with the style it is to be shown in; [`Message::render`]
//! completes the text once the shown forms are there.

use crate::binary64::{not_a_number, Binary64};
use vstd::prelude::*;

verus! {

/// How a number is to be shown.
#[derive(Clone, Copy, Debug, PartialEq, Eq, Structural)]
pub enum Style {
    /// The shortest decimal form that reads back as the same number.
    Plain,
    /// The shortest form in scientific notation.
    Exponent,
    /// Scientific notation with `digits` digits after the point, with a leading
    /// plus on positive numbers where `signed` is set.
    Scientific { digits: usize, signed: bool },
    /// Decimal notation with `digits` digits after the point.
    Fixed { digits: usize },
}

/// A number at its place in a text.
#[derive(Clone, Copy, Debug, PartialEq, Eq, Structural)]
pub struct Figure {
    /// How many characters of the text come before the number.
    pub position: usize,
    /// The number.
    pub value: Binary64,
    /// The style that it is shown in.
    pub style: Style,
}

/// A text whose numbers are not yet written out. A NaN in it is always the same one, as
/// all of them are shown alike.
#[derive(Debug)]
pub struct Message {
    characters: Vec<char>,
    figures: Vec<Figure>,
}

/// The mathematical model of a [`Message`].
#[verifier::ext_equal]
pub struct Text {
    /// The characters in reading order.
    pub characters: Seq<char>,
    /// The numbers between them, in reading order.
    pub figures: Seq<Figure>,
}

impl View for Message {
    type V = Text;

    closed spec fn view(&self) -> Text {
        Text { characters: self.characters@, figures: self.figures@ }
    }
}

/// Every NaN among the numbers is the same one.
pub open spec fn canonical(figures: Seq<Figure>) -> bool {
    forall|i: int|
        0 <= i < figures.len() && (#[trigger] figures[i]).value.nan() ==> figures[i].value
            == not_a_number()
}

/// The text that holds `words` and no number.
pub open spec fn text(words: Seq<char>) -> Text {
    Text { characters: words, figures: Seq::empty() }
}

impl Text {
    /// This text followed by `words`.
    pub open spec fn text(self, words: Seq<char>) -> Text {
        Text { characters: self.characters + words, figures: self.figures }
    }

    /// This text followed by the decimal digits of `n`.
    pub open spec fn count(self, n: int) -> Text {
        self.text(decimal(n as nat))
    }

    /// This text followed by `true` or `false`.
    pub open spec fn flag(self, b: bool) -> Text {
        if b {
            self.text("true"@)
        } else {
            self.text("false"@)
        }
    }

    /// This text followed by the sixteen hexadecimal digits of `n`.
    pub open spec fn hexadecimal(self, n: u64) -> Text {
        self.text(hexadecimal(n as nat, 16))
    }

    /// This text followed by a list of counts in square brackets.
    pub open spec fn counts(self, list: Seq<usize>) -> Text {
        self.text("["@).text(joined(list, list.len())).text("]"@)
    }

    /// This text followed by a number in the given style; every NaN is the
    /// same one, as all of them are shown alike.
    pub open spec fn number(self, value: Binary64, style: Style) -> Text {
        let position = self.characters.len() as usize;
        let value = if value.nan() {
            not_a_number()
        } else {
            value
        };
        Text {
            characters: self.characters,
            figures: self.figures.push(Figure { position, value, style }),
        }
    }

    /// This text followed by another one.
    pub open spec fn then_text(self, other: Text) -> Text {
        let offset = self.characters.len();
        Text {
            characters: self.characters + other.characters,
            figures: self.figures + other.figures.map_values(
                |f: Figure|
                    Figure {
                        position: (offset + if f.position <= other.characters.len() {
                            f.position as int
                        } else {
                            other.characters.len() as int
                        }) as usize,
                        value: f.value,
                        style: f.style,
                    },
            ),
        }
    }
}

/// The digit for `d`, which is below 16.
pub open spec fn digit(d: int) -> char {
    if d == 0 {
        '0'
    } else if d == 1 {
        '1'
    } else if d == 2 {
        '2'
    } else if d == 3 {
        '3'
    } else if d == 4 {
        '4'
    } else if d == 5 {
        '5'
    } else if d == 6 {
        '6'
    } else if d == 7 {
        '7'
    } else if d == 8 {
        '8'
    } else if d == 9 {
        '9'
    } else if d == 10 {
        'a'
    } else if d == 11 {
        'b'
    } else if d == 12 {
        'c'
    } else if d == 13 {
        'd'
    } else if d == 14 {
        'e'
    } else {
        'f'
    }
}

/// The decimal digits of `n`.
pub open spec fn decimal(n: nat) -> Seq<char>
    decreases n,
{
    if n < 10 {
        seq![digit(n as int)]
    } else {
        decimal(n / 10).push(digit((n % 10) as int))
    }
}

/// The last `width` hexadecimal digits of `n`, with leading zeros.
pub open spec fn hexadecimal(n: nat, width: nat) -> Seq<char>
    decreases width,
{
    if width == 0 {
        Seq::empty()
    } else {
        hexadecimal(n / 16, (width - 1) as nat).push(digit((n % 16) as int))
    }
}

/// The first `k` counts of a list, separated by a comma and a space.
pub open spec fn joined(list: Seq<usize>, k: nat) -> Seq<char>
    decreases k,
{
    if k == 0 {
        Seq::empty()
    } else if k == 1 {
        decimal(list[0] as nat)
    } else {
        joined(list, (k - 1) as nat) + ", "@ + decimal(list[k - 1] as nat)
    }
}

/// The characters of a text once each of its numbers is written as the
/// corresponding entry of `shown`.
pub open spec fn rendered(
    characters: Seq<char>,
    figures: Seq<Figure>,
    shown: Seq<Seq<char>>,
) -> Seq<char>
    decreases figures.len(),
{
    if figures.len() == 0 {
        characters
    } else {
        let at = if figures.last().position <= characters.len() {
            figures.last().position as int
        } else {
            characters.len() as int
        };
        rendered(characters.take(at), figures.drop_last(), shown.drop_last()) + shown.last()
            + characters.skip(at)
    }
}

/// What a text reads as, given the shown form of each of its numbers in order.
pub open spec fn reading(text: Text, shown: Seq<String>) -> Seq<char> {
    rendered(text.characters, text.figures, shown.map_values(|s: String| s@))
}

/// `String::push` appends the character to the end of the string.
pub assume_specification[ String::push ](s: &mut String, c: char)
    ensures
        final(s)@ == old(s)@.push(c),
;

/// The quoted form of a string: in double quotes, with special characters escaped.
pub uninterp spec fn quoted(words: Seq<char>) -> Seq<char>;

/// The `Debug` form of a string slice, as `format!` writes it: a function of the
/// string's characters alone. Which characters are escaped, and how, is left
/// unsaid.
#[verifier::external_body]
pub(crate) fn quote(words: &str) -> (r: String)
    ensures
        r@ == quoted(words@),
{
    format!("{:?}", words)
}

/// The digit for `d`.
fn digit_char(d: u8) -> (c: char)
    requires
        d < 16,
    ensures
        c == digit(d as int),
{
    match d {
        0 => '0',
        1 => '1',
        2 => '2',
        3 => '3',
        4 => '4',
        5 => '5',
        6 => '6',
        7 => '7',
        8 => '8',
        9 => '9',
        10 => 'a',
        11 => 'b',
        12 => 'c',
        13 => 'd',
        14 => 'e',
        _ => 'f',
    }
}

/// The decimal digits of `n`.
pub fn decimal_digits(n: usize) -> (r: Vec<char>)
    ensures
        r@ == decimal(n as nat),
    decreases n,
{
    if n < 10 {
        let mut r: Vec<char> = Vec::new();
        r.push(digit_char(n as u8));
        assert(r@ =~= decimal(n as nat));
        r
    } else {
        let mut r = decimal_digits(n / 10);
        r.push(digit_char((n % 10) as u8));
        r
    }
}

/// The last `width` hexadecimal digits of `n`.
fn hexadecimal_digits(n: u64, width: u8) -> (r: Vec<char>)
    ensures
        r@ == hexadecimal(n as nat, width as nat),
    decreases width,
{
    if width == 0 {
        let r: Vec<char> = Vec::new();
        assert(r@ =~= hexadecimal(n as nat, width as nat));
        r
    } else {
        let mut r = hexadecimal_digits(n / 16, width - 1);
        r.push(digit_char((n % 16) as u8));
        r
    }
}

/// The string of the given characters.
pub fn string_of(characters: &Vec<char>) -> (r: String)
    ensures
        r@ == characters@,
{
    let mut r = String::new();
    for i in 0..characters.len()
        invariant
            r@ == characters@.take(i as int),
    {
        r.push(characters[i]);
        assert(characters@.take(i + 1) =~= characters@.take(i as int).push(characters@[i as int]));
    }
    assert(characters@.take(characters@.len() as int) =~= characters@);
    r
}

/// The characters of a string.
pub fn characters(words: &str) -> (r: Vec<char>)
    ensures
        r@ == words@,
{
    let mut r: Vec<char> = Vec::new();
    for c in iter: words.chars()
        invariant
            iter.seq() == words@,
            r@ == words@.take(iter.index()),
    {
        r.push(c);
        assert(words@.take(iter.index() + 1) =~= words@.take(iter.index()).push(c));
    }
    assert(words@.take(words@.len() as int) =~= words@);
    r
}

/// Do the two strings hold the same characters?
pub fn same_words(a: &str, b: &str) -> (r: bool)
    ensures
        r == (a@ == b@),
{
    let x = characters(a);
    let y = characters(b);
    if x.len() != y.len() {
        return false;
    }
    for i in 0..x.len()
        invariant
            x@ == a@,
            y@ == b@,
            x@.len() == y@.len(),
            forall|j: int| 0 <= j < i ==> x@[j] == y@[j],
    {
        if x[i] != y[i] {
            return false;
        }
    }
    assert(x@ =~= y@);
    true
}

/// Append a run of characters.
fn push_chars(to: &mut Vec<char>, words: &Vec<char>)
    ensures
        final(to)@ == old(to)@ + words@,
{
    let ghost before = to@;
    assert(before =~= before + words@.take(0));
    for i in 0..words.len()
        invariant
            to@ == before + words@.take(i as int),
    {
        to.push(words[i]);
        assert(to@ =~= before + words@.take(i + 1));
    }
    assert(words@.take(words@.len() as int) =~= words@);
}

/// The characters of the first figures' text, each written as its shown form.
fn render_prefix(
    characters: &Vec<char>,
    upto: usize,
    figures: &Vec<Figure>,
    k: usize,
    shown: &Vec<Vec<char>>,
) -> (r: Vec<char>)
    requires
        upto <= characters@.len(),
        k <= figures@.len(),
        k <= shown@.len(),
    ensures
        r@ == rendered(
            characters@.take(upto as int),
            figures@.take(k as int),
            shown@.take(k as int).map_values(|v: Vec<char>| v@),
        ),
    decreases k,
{
    let ghost head = characters@.take(upto as int);
    let ghost forms = shown@.take(k as int).map_values(|v: Vec<char>| v@);
    if k == 0 {
        let mut r: Vec<char> = Vec::new();
        for i in 0..upto
            invariant
                upto <= characters@.len(),
                r@ == characters@.take(i as int),
        {
            r.push(characters[i]);
            assert(r@ =~= characters@.take(i + 1));
        }
        r
    } else {
        let at: usize = if figures[k - 1].position <= upto {
            figures[k - 1].position
        } else {
            upto
        };
        proof {
            assert(head.take(at as int) =~= characters@.take(at as int));
            assert(figures@.take(k as int).drop_last() =~= figures@.take(k - 1));
            assert(forms.drop_last() =~= shown@.take(k - 1).map_values(|v: Vec<char>| v@));
        }
        let mut r = render_prefix(characters, at, figures, k - 1, shown);
        push_chars(&mut r, &shown[k - 1]);
        let ghost before = r@;
        assert(before =~= before + head.skip(at as int).take(0));
        for i in at..upto
            invariant
                upto <= characters@.len(),
                at <= upto,
                head == characters@.take(upto as int),
                r@ == before + head.skip(at as int).take(i - at),
        {
            r.push(characters[i]);
            assert(r@ =~= before + head.skip(at as int).take(i + 1 - at));
        }
        assert(head.skip(at as int).take(upto - at) =~= head.skip(at as int));
        r
    }
}

impl Message {
    #[verifier::type_invariant]
    spec fn is_canonical(self) -> bool {
        canonical(self.figures@)
    }

    /// The characters in reading order.
    pub fn characters(&self) -> (r: &Vec<char>)
        ensures
            r@ == self@.characters,
    {
        &self.characters
    }

    /// The numbers between the characters, in reading order.
    pub fn figures(&self) -> (r: &Vec<Figure>)
        ensures
            r@ == self@.figures,
            canonical(self@.figures),
    {
        proof {
            use_type_invariant(self);
        }
        &self.figures
    }

    /// A message of characters alone.
    pub fn of(words: &str) -> (r: Self)
        ensures
            r@ == text(words@),
    {
        let r = Message { characters: characters(words), figures: Vec::new() };
        assert(r@ =~= text(words@));
        r
    }

    /// This message followed by `words`.
    pub fn text(self, words: &str) -> (r: Self)
        ensures
            r@ == self@.text(words@),
    {
        proof {
            use_type_invariant(&self);
        }
        let mut all = self.characters;
        push_chars(&mut all, &characters(words));
        Message { characters: all, figures: self.figures }
    }

    /// This message followed by the decimal digits of `n`.
    pub fn count(self, n: usize) -> (r: Self)
        ensures
            r@ == self@.count(n as int),
    {
        proof {
            use_type_invariant(&self);
        }
        let mut all = self.characters;
        push_chars(&mut all, &decimal_digits(n));
        Message { characters: all, figures: self.figures }
    }

    /// This message followed by `true` or `false`.
    pub fn flag(self, b: bool) -> (r: Self)
        ensures
            r@ == self@.flag(b),
    {
        if b {
            self.text("true")
        } else {
            self.text("false")
        }
    }

    /// This message followed by the sixteen hexadecimal digits of `n`.
    pub fn hexadecimal(self, n: u64) -> (r: Self)
        ensures
            r@ == self@.hexadecimal(n),
    {
        proof {
            use_type_invariant(&self);
        }
        let mut all = self.characters;
        push_chars(&mut all, &hexadecimal_digits(n, 16));
        Message { characters: all, figures: self.figures }
    }

    /// This message followed by a list of counts in square brackets.
    pub fn counts(self, list: &[usize]) -> (r: Self)
        ensures
            r@ == self@.counts(list@),
    {
        let ghost start = self@.text("["@);
        let mut r = self.text("[");
        assert(r@ =~= start.text(joined(list@, 0)));
        for i in 0..list.len()
            invariant
                r@ == start.text(joined(list@, i as nat)),
        {
            if i > 0 {
                r = r.text(", ");
            }
            r = r.count(list[i]);
            assert(r@ =~= start.text(joined(list@, (i + 1) as nat)));
        }
        r.text("]")
    }

    /// This message followed by a number in the given style.
    pub fn number(self, value: Binary64, style: Style) -> (r: Self)
        ensures
            r@ == self@.number(value, style),
    {
        proof {
            use_type_invariant(&self);
        }
        let position: usize = self.characters.len();
        let value = if value.is_nan() {
            not_a_number()
        } else {
            value
        };
        let mut figures = self.figures;
        let ghost before = figures@;
        figures.push(Figure { position, value, style });
        assert forall|i: int| 0 <= i < figures@.len() && (#[trigger] figures@[i]).value.nan() implies
            figures@[i].value == not_a_number() by {
            if i < before.len() {
                assert(figures@[i] == before[i]);
            }
        }
        Message { characters: self.characters, figures }
    }

    /// This message followed by another one.
    pub fn then_message(self, other: &Message) -> (r: Self)
        ensures
            r@ == self@.then_text(other@),
    {
        let offset: usize = self.characters.len();
        proof {
            use_type_invariant(&self);
            use_type_invariant(other);
        }
        let mut all = self.characters;
        push_chars(&mut all, &other.characters);
        let total: usize = all.len();
        let mut figures = self.figures;
        let ghost moved = self@.then_text(other@).figures.skip(self@.figures.len() as int);
        assert(figures@ =~= self@.figures + moved.take(0));
        for i in 0..other.figures.len()
            invariant
                total == offset + other@.characters.len(),
                offset == self@.characters.len(),
                moved == self@.then_text(other@).figures.skip(self@.figures.len() as int),
                figures@ == self@.figures + moved.take(i as int),
        {
            let f = other.figures[i];
            assert(f == other@.figures[i as int]);
            let inner: usize = if f.position <= other.characters.len() {
                f.position
            } else {
                other.characters.len()
            };
            figures.push(Figure { position: offset + inner, value: f.value, style: f.style });
            assert(figures@ =~= self@.figures + moved.take(i + 1));
        }
        assert(self@.figures + moved =~= self@.then_text(other@).figures);
        assert(moved.take(moved.len() as int) =~= moved);
        assert forall|i: int| 0 <= i < figures@.len() && (#[trigger] figures@[i]).value.nan() implies
            figures@[i].value == not_a_number() by {
            if i < self@.figures.len() {
                assert(figures@[i] == self@.figures[i]);
            } else {
                assert(figures@[i].value == other@.figures[i - self@.figures.len()].value);
            }
        }
        Message { characters: all, figures }
    }

    /// The text of this message, given the shown form of each of its figures in
    /// order.
    pub fn render(&self, shown: &Vec<String>) -> (r: String)
        requires
            shown@.len() == self@.figures.len(),
        ensures
            r@ == reading(self@, shown@),
    {
        let mut forms: Vec<Vec<char>> = Vec::new();
        for i in 0..shown.len()
            invariant
                forms@.len() == i,
                forall|j: int| 0 <= j < i ==> forms@[j]@ == shown@[j]@,
        {
            forms.push(characters(shown[i].as_str()));
        }
        let all = render_prefix(
            &self.characters,
            self.characters.len(),
            &self.figures,
            self.figures.len(),
            &forms,
        );
        proof {
            assert(self@.characters.take(self@.characters.len() as int) =~= self@.characters);
            assert(self@.figures.take(self@.figures.len() as int) =~= self@.figures);
            assert(forms@.take(self@.figures.len() as int).map_values(|v: Vec<char>| v@)
                =~= shown@.map_values(|s: String| s@));
        }
        string_of(&all)
    }

    /// Do the two messages read alike, given the shown forms of the figures of each?
    pub fn reads_like(
        &self,
        shown: &Vec<String>,
        other: &Message,
        other_shown: &Vec<String>,
    ) -> (r: bool)
        requires
            shown@.len() == self@.figures.len(),
            other_shown@.len() == other@.figures.len(),
        ensures
            r == (reading(self@, shown@) == reading(other@, other_shown@)),
    {
        let a = self.render(shown);
        let b = other.render(other_shown);
        same_words(a.as_str(), b.as_str())
    }

    /// Equality of characters and figures. A number that is carried as a figure is not
    /// equal to the same number typed out as characters, though both are shown alike:
    /// [`Message::reads_like`] compares what is shown.
    pub fn equals(&self, other: &Message) -> (r: bool)
        ensures
            r == (self@ == other@),
    {
        if self.characters.len() != other.characters.len() || self.figures.len()
            != other.figures.len() {
            return false;
        }
        for i in 0..self.characters.len()
            invariant
                self@.characters.len() == other@.characters.len(),
                forall|j: int| 0 <= j < i ==> self@.characters[j] == other@.characters[j],
        {
            if self.characters[i] != other.characters[i] {
                return false;
            }
        }
        for i in 0..self.figures.len()
            invariant
                self@.figures.len() == other@.figures.len(),
                forall|j: int| 0 <= j < i ==> self@.figures[j] == other@.figures[j],
        {
            if self.figures[i] != other.figures[i] {
                return false;
            }
        }
        assert(self@ =~= other@);
        true
    }
}

impl Clone for Message {
    fn clone(&self) -> (r: Self)
        ensures
            r@ == self@,
    {
        proof {
            use_type_invariant(self);
        }
        let mut all: Vec<char> = Vec::new();
        push_chars(&mut all, &self.characters);
        let mut figures: Vec<Figure> = Vec::new();
        for i in 0..self.figures.len()
            invariant
                figures@ == self@.figures.take(i as int),
        {
            figures.push(self.figures[i]);
            assert(figures@ =~= self@.figures.take(i + 1));
        }
        assert(figures@ =~= self.figures@);
        let r = Message { characters: all, figures };
        assert(r@ =~= self@);
        r
    }
}

impl PartialEq for Message {
    fn eq(&self, other: &Self) -> (r: bool) {
        self.equals(other)
    }
}

impl vstd::std_specs::cmp::PartialEqSpecImpl for Message {
    open spec fn obeys_eq_spec() -> bool {
        true
    }

    open spec fn eq_spec(&self, other: &Self) -> bool {
        self@ == other@
    }
}

/// What a digit stands for.
pub open spec fn digit_value(c: char) -> int {
    if '0' <= c <= '9' {
        c as int - '0' as int
    } else {
        c as int - 'a' as int + 10
    }
}

/// What a row of digits stands for in the given base.
pub open spec fn digits_value(digits: Seq<char>, base: int) -> int
    decreases digits.len(),
{
    if digits.len() == 0 {
        0
    } else {
        digits_value(digits.drop_last(), base) * base + digit_value(digits.last())
    }
}

/// What decimal digits stand for.
proof fn lemma_decimal(n: nat)
    ensures
        digits_value(decimal(n), 10) == n,
        decimal(n).len() >= 1,
        decimal(n).len() > 1 ==> decimal(n)[0] != '0',
        forall|i: int| 0 <= i < decimal(n).len() ==> '0' <= #[trigger] decimal(n)[i] <= '9',
    decreases n,
{
    let all = decimal(n);
    if n < 10 {
        assert(all.drop_last() =~= Seq::empty());
        assert(digits_value(all.drop_last(), 10) == 0);
    } else {
        lemma_decimal(n / 10);
        assert(all.drop_last() =~= decimal(n / 10));
        assert(all[0] == decimal(n / 10)[0]);
        if decimal(n / 10).len() == 1 {
            assert(decimal(n / 10).drop_last() =~= Seq::empty());
            assert(digits_value(decimal(n / 10).drop_last(), 10) == 0);
            assert(n / 10 < 10) by {
                if n / 10 >= 10 {
                    lemma_decimal((n / 10) / 10);
                }
            }
            assert(decimal(n / 10)[0] == digit((n / 10) as int));
        }
        assert forall|i: int| 0 <= i < all.len() implies '0' <= #[trigger] all[i] <= '9' by {
            if i < all.len() - 1 {
                assert(all[i] == decimal(n / 10)[i]);
            }
        }
    }
}

/// What hexadecimal digits stand for.
proof fn lemma_hexadecimal(n: nat, width: nat)
    ensures
        digits_value(hexadecimal(n, width), 16) == n % vstd::arithmetic::power::pow(16, width) as nat,
        hexadecimal(n, width).len() == width,
    decreases width,
{
    broadcast use vstd::arithmetic::power::lemma_pow_positive;

    let all = hexadecimal(n, width);
    vstd::arithmetic::power::lemma_pow0(16);
    if width > 0 {
        let w = (width - 1) as nat;
        lemma_hexadecimal(n / 16, w);
        assert(all.drop_last() =~= hexadecimal(n / 16, w));
        vstd::arithmetic::power::lemma_pow_adds(16, 1, w);
        vstd::arithmetic::power::lemma_pow1(16);
        let p = vstd::arithmetic::power::pow(16, w);
        assert(vstd::arithmetic::power::pow(16, width) == 16 * p);
        vstd::arithmetic::div_mod::lemma_part_bound2(n as int, 16, p);
        vstd::arithmetic::div_mod::lemma_breakdown(n as int, 16, p);
        assert(((n / 16) as int % p) * 16 == 16 * ((n / 16) as int % p)) by (nonlinear_arith);
    }
}

/// A count is written in decimal: digits only, none to spare in front, and read back they
/// are the count. Different counts are written differently.
pub proof fn counts_are_written_in_decimal(n: usize, m: usize, r: Vec<char>, s: Vec<char>)
    requires
        call_ensures(decimal_digits, (n,), r),
        call_ensures(decimal_digits, (m,), s),
    ensures
        digits_value(r@, 10) == n,
        r@.len() >= 1,
        r@.len() > 1 ==> r@[0] != '0',
        forall|i: int| 0 <= i < r@.len() ==> '0' <= #[trigger] r@[i] <= '9',
        n != m ==> r@ != s@,
{
    lemma_decimal(n as nat);
    lemma_decimal(m as nat);
}

/// A pattern is written with sixteen hexadecimal digits that read back as the pattern.
pub proof fn patterns_are_written_in_hexadecimal(m: Message, n: u64, r: Message)
    requires
        call_ensures(Message::hexadecimal, (m, n), r),
    ensures
        r@.figures == m@.figures,
        r@.characters.len() == m@.characters.len() + 16,
        r@.characters.take(m@.characters.len() as int) == m@.characters,
        digits_value(r@.characters.skip(m@.characters.len() as int), 16) == n,
{
    lemma_hexadecimal(n as nat, 16);
    assert(r@.characters.take(m@.characters.len() as int) =~= m@.characters);
    assert(r@.characters.skip(m@.characters.len() as int) =~= hexadecimal(n as nat, 16));
    assert(vstd::arithmetic::power::pow(16, 16) == 0x1_0000_0000_0000_0000) by {
        reveal(vstd::arithmetic::power::pow);
        reveal_with_fuel(vstd::arithmetic::power::pow, 17);
    }
    vstd::arithmetic::div_mod::lemma_small_mod(n as nat, 0x1_0000_0000_0000_0000);
}

/// Every number of the message stands within its words.
pub open spec fn in_place(t: Text) -> bool {
    forall|i: int|
        0 <= i < t.figures.len() ==> (#[trigger] t.figures[i]).position <= t.characters.len()
}

/// Words that follow a message follow its reading.
proof fn lemma_read_more(
    words: Seq<char>,
    figures: Seq<Figure>,
    shown: Seq<Seq<char>>,
    more: Seq<char>,
)
    requires
        forall|i: int|
            0 <= i < figures.len() ==> (#[trigger] figures[i]).position <= words.len(),
    ensures
        rendered(words + more, figures, shown) == rendered(words, figures, shown) + more,
{
    if figures.len() > 0 {
        let at = figures.last().position as int;
        assert(figures[figures.len() - 1].position <= words.len());
        assert((words + more).take(at) =~= words.take(at));
        assert((words + more).skip(at) =~= words.skip(at) + more);
        assert(rendered(words + more, figures, shown) =~= rendered(words, figures, shown) + more);
    }
}

/// Two messages, one behind the other, read as their readings do.
proof fn lemma_read_then(
    words: Seq<char>,
    figures: Seq<Figure>,
    shown: Seq<Seq<char>>,
    more: Seq<char>,
    more_figures: Seq<Figure>,
    moved: Seq<Figure>,
    more_shown: Seq<Seq<char>>,
)
    requires
        forall|i: int|
            0 <= i < figures.len() ==> (#[trigger] figures[i]).position <= words.len(),
        shown.len() == figures.len(),
        moved.len() == more_figures.len(),
        more_shown.len() == more_figures.len(),
        forall|i: int|
            0 <= i < moved.len() ==> if more_figures[i].position <= more.len() {
                (#[trigger] moved[i]).position == words.len() + more_figures[i].position
            } else {
                moved[i].position >= words.len() + more.len()
            },
    ensures
        rendered(words + more, figures + moved, shown + more_shown) == rendered(
            words,
            figures,
            shown,
        ) + rendered(more, more_figures, more_shown),
    decreases more_figures.len(),
{
    if more_figures.len() == 0 {
        assert(figures + moved =~= figures);
        assert(shown + more_shown =~= shown);
        lemma_read_more(words, figures, shown, more);
    } else {
        let last = more_figures.len() - 1;
        let at = if more_figures[last].position <= more.len() {
            more_figures[last].position as int
        } else {
            more.len() as int
        };
        let all = words + more;
        let whole = words.len() + at;
        assert(moved[last] == (figures + moved).last());
        assert(more_figures[last] == more_figures.last());
        assert(all.take(whole) =~= words + more.take(at));
        assert(all.skip(whole) =~= more.skip(at));
        assert((figures + moved).drop_last() =~= figures + moved.drop_last());
        assert((shown + more_shown).drop_last() =~= shown + more_shown.drop_last());
        assert((shown + more_shown).last() == more_shown.last());
        assert forall|i: int| 0 <= i < moved.drop_last().len() implies if more_figures.drop_last()[i].position
            <= more.take(at).len() {
            (#[trigger] moved.drop_last()[i]).position == words.len()
                + more_figures.drop_last()[i].position
        } else {
            moved.drop_last()[i].position >= words.len() + more.take(at).len()
        } by {
            assert(moved.drop_last()[i] == moved[i]);
            assert(more_figures.drop_last()[i] == more_figures[i]);
        }
        lemma_read_then(
            words,
            figures,
            shown,
            more.take(at),
            more_figures.drop_last(),
            moved.drop_last(),
            more_shown.drop_last(),
        );
        assert(rendered(all, figures + moved, shown + more_shown) =~= rendered(
            words,
            figures,
            shown,
        ) + rendered(more, more_figures, more_shown));
    }
}

/// A message reads as it was written: words as they are, then what the number is shown
/// as, then the words behind it, and a message behind a message as the two readings one
/// after the other.
pub proof fn messages_read_as_written(
    m: Message,
    shown: Vec<String>,
    words: &str,
    with_words: Message,
    value: Binary64,
    style: Style,
    with_number: Message,
    more_shown: Vec<String>,
    read: Seq<String>,
)
    requires
        m@.characters.len() <= usize::MAX,
        in_place(m@),
        shown@.len() == m@.figures.len(),
        call_ensures(Message::text, (m, words), with_words),
        call_ensures(Message::number, (m, value, style), with_number),
        more_shown@.len() == shown@.len() + 1,
        more_shown@.drop_last() == shown@,
        read.len() == 3,
        call_ensures(Message::render, (&m, &shown), read[0]),
        call_ensures(Message::render, (&with_words, &shown), read[1]),
        call_ensures(Message::render, (&with_number, &more_shown), read[2]),
    ensures
        read[1]@ == read[0]@ + words@,
        read[2]@ == read[0]@ + more_shown@.last()@,
        m@.figures.len() == 0 ==> read[0]@ == m@.characters,
        in_place(with_words@),
        in_place(with_number@),
        with_number@.figures.last().style == style,
        !value.nan() ==> with_number@.figures.last().value == value,
{
    let forms = shown@.map_values(|s: String| s@);
    let more_forms = more_shown@.map_values(|s: String| s@);
    lemma_read_more(m@.characters, m@.figures, forms, words@);
    assert forall|i: int| 0 <= i < with_words@.figures.len() implies (
    #[trigger] with_words@.figures[i]).position <= with_words@.characters.len() by {
        assert(m@.figures[i].position <= m@.characters.len());
    }
    let n = with_number@;
    assert forall|i: int| 0 <= i < n.figures.len() implies (#[trigger] n.figures[i]).position
        <= n.characters.len() by {
        if i < m@.figures.len() {
            assert(n.figures[i] == m@.figures[i]);
        }
    }
    assert(n.figures.drop_last() =~= m@.figures);
    assert(more_forms.drop_last() =~= forms);
    assert(more_forms.last() == more_shown@.last()@);
    let at = m@.characters.len() as int;
    assert(n.characters.take(at) =~= m@.characters);
    assert(n.characters.skip(at) =~= Seq::empty());
    assert(read[2]@ =~= read[0]@ + more_shown@.last()@);
}

/// A message behind a message reads as the two readings one after the other.
pub proof fn messages_read_one_after_the_other(
    a: Message,
    b: Message,
    both: Message,
    shown: Vec<String>,
    other_shown: Vec<String>,
    all_shown: Vec<String>,
    read: Seq<String>,
)
    requires
        a@.characters.len() + b@.characters.len() <= usize::MAX,
        in_place(a@),
        shown@.len() == a@.figures.len(),
        other_shown@.len() == b@.figures.len(),
        all_shown@ == shown@ + other_shown@,
        call_ensures(Message::then_message, (a, &b), both),
        read.len() == 3,
        call_ensures(Message::render, (&a, &shown), read[0]),
        call_ensures(Message::render, (&b, &other_shown), read[1]),
        call_ensures(Message::render, (&both, &all_shown), read[2]),
    ensures
        read[2]@ == read[0]@ + read[1]@,
{
    let f = |s: String| s@;
    let moved = both@.figures.skip(a@.figures.len() as int);
    assert(both@.figures =~= a@.figures + moved);
    assert(all_shown@.map_values(f) =~= shown@.map_values(f) + other_shown@.map_values(f));
    lemma_read_then(
        a@.characters,
        a@.figures,
        shown@.map_values(f),
        b@.characters,
        b@.figures,
        moved,
        other_shown@.map_values(f),
    );
}

/// A list of counts is written between brackets, with a comma and a blank between each
/// two of them.
pub proof fn lists_are_written_item_by_item(
    m: Message,
    list: &[usize],
    front: &[usize],
    r: Message,
    s: Message,
)
    requires
        call_ensures(Message::counts, (m, list), r),
        call_ensures(Message::counts, (m, front), s),
        list@.len() > 0,
        front@ == list@.drop_last(),
    ensures
        r@.figures == m@.figures,
        front@.len() == 0 ==> s@.characters == m@.characters + "["@ + "]"@,
        front@.len() == 0 ==> r@.characters == m@.characters + "["@ + decimal(
            list@.last() as nat,
        ) + "]"@,
        front@.len() > 0 ==> r@.characters + "]"@ == s@.characters.take(
            s@.characters.len() - "]"@.len(),
        ) + ", "@ + decimal(list@.last() as nat) + "]"@ + "]"@,
{
    let n = list@.len();
    lemma_joined_prefix(list@, front@, front@.len());
    let head = m@.characters + "["@;
    if front@.len() > 0 {
        assert(s@.characters =~= head + joined(front@, front@.len()) + "]"@);
        assert(s@.characters.take(s@.characters.len() - "]"@.len()) =~= head + joined(
            front@,
            front@.len(),
        ));
        assert(joined(list@, n) == joined(list@, (n - 1) as nat) + ", "@ + decimal(
            list@[n - 1] as nat,
        ));
        assert(r@.characters =~= head + joined(front@, front@.len()) + ", "@ + decimal(
            list@.last() as nat,
        ) + "]"@);
    } else {
        assert(s@.characters =~= head + "]"@);
        assert(r@.characters =~= head + decimal(list@.last() as nat) + "]"@);
    }
}

/// Equal fronts of lists are written alike.
proof fn lemma_joined_prefix(a: Seq<usize>, b: Seq<usize>, k: nat)
    requires
        k <= a.len(),
        k <= b.len(),
        forall|i: int| 0 <= i < k ==> a[i] == b[i],
    ensures
        joined(a, k) == joined(b, k),
    decreases k,
{
    if k > 1 {
        lemma_joined_prefix(a, b, (k - 1) as nat);
    }
}

/// Messages are equal exactly where their characters are and their numbers stand at the
/// same places, in the same styles and with the same patterns; where they are equal they
/// read alike.
pub proof fn messages_equal_part_by_part(
    a: Message,
    b: Message,
    shown: &Vec<String>,
    equal: bool,
    alike: bool,
)
    requires
        call_ensures(Message::equals, (&a, &b), equal),
        call_ensures(Message::reads_like, (&a, shown, &b, shown), alike),
    ensures
        equal <==> a@.characters == b@.characters && a@.figures == b@.figures,
        equal ==> alike,
{
}

} // verus!
