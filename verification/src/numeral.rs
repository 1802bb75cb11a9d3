//! Numerals: numbers written as text in a fixed number of symbols, and in plain decimal.
//!
//! Identifiers, digests and canonical records are all made of such text, so that the facts
//! that let them be read back stand here, once.

use vstd::prelude::*;

verus! {

/// `String::push` appends one character at the end of the text.
pub assume_specification[ String::push ](text: &mut String, symbol: char)
    ensures
        final(text)@ == old(text)@.push(symbol),
;

/// The alphabet of a numeral.
#[derive(Clone, Copy, Debug, PartialEq, Eq, Structural)]
pub enum Alphabet {
    /// Crockford's base 32: digits and upper-case letters without I, L, O and U.
    Crockford,
    /// Lower-case base 16.
    Hex,
}

impl Alphabet {
    /// How many symbols the alphabet has.
    pub open spec fn radix(self) -> nat {
        match self {
            Alphabet::Crockford => 32,
            Alphabet::Hex => 16,
        }
    }

    /// The symbols in ascending order of their value.
    pub open spec fn symbols(self) -> Seq<char> {
        match self {
            Alphabet::Crockford => seq![
                '0', '1', '2', '3', '4', '5', '6', '7', '8', '9', 'A', 'B', 'C', 'D', 'E', 'F',
                'G', 'H', 'J', 'K', 'M', 'N', 'P', 'Q', 'R', 'S', 'T', 'V', 'W', 'X', 'Y', 'Z',
            ],
            Alphabet::Hex => seq![
                '0', '1', '2', '3', '4', '5', '6', '7', '8', '9', 'a', 'b', 'c', 'd', 'e', 'f',
            ],
        }
    }

    /// The value of a symbol of the alphabet.
    pub open spec fn value_of(self, symbol: char) -> int {
        self.symbols().index_of(symbol)
    }

    /// Every character of the text is a symbol of the alphabet.
    pub open spec fn spells(self, text: Seq<char>) -> bool {
        forall|i: int| 0 <= i < text.len() ==> self.symbols().contains(#[trigger] text[i])
    }

    /// The last `width` digits of `n`, most significant first.
    pub open spec fn write(self, n: nat, width: nat) -> Seq<char>
        decreases width,
    {
        if width == 0 {
            Seq::empty()
        } else {
            self.write(n / self.radix(), (width - 1) as nat).push(
                self.symbols()[(n % self.radix()) as int],
            )
        }
    }

    /// The number that a text of symbols stands for.
    pub open spec fn read(self, text: Seq<char>) -> nat
        decreases text.len(),
    {
        if text.len() == 0 {
            0
        } else {
            self.read(text.drop_last()) * self.radix() + self.value_of(text.last()) as nat
        }
    }

    /// `radix` to the power of `width`: how many numbers fit in `width` digits.
    pub open spec fn capacity(self, width: nat) -> nat
        decreases width,
    {
        if width == 0 {
            1
        } else {
            self.radix() * self.capacity((width - 1) as nat)
        }
    }

    /// The symbols are as many as the radix says, and differ from each other.
    pub proof fn lemma_symbols(self)
        ensures
            self.symbols().len() == self.radix(),
            self.symbols().no_duplicates(),
            forall|d: int| 0 <= d < self.radix() ==> self.value_of(#[trigger] self.symbols()[d])
                == d,
            forall|c: char| #[trigger]
                self.symbols().contains(c) ==> 0 <= self.value_of(c) < self.radix()
                    && self.symbols()[self.value_of(c)] == c,
    {
        assert forall|d: int| 0 <= d < self.radix() implies self.value_of(
            #[trigger] self.symbols()[d],
        ) == d by {
            let s = self.symbols();
            assert(s.contains(s[d]));
            let k = s.index_of(s[d]);
            assert(0 <= k < s.len() && s[k] == s[d]);
        }
    }

    proof fn lemma_write_spells(self, n: nat, width: nat)
        ensures
            self.write(n, width).len() == width,
            self.spells(self.write(n, width)),
        decreases width,
    {
        self.lemma_symbols();
        if width > 0 {
            self.lemma_write_spells(n / self.radix(), (width - 1) as nat);
            assert(self.symbols().contains(self.symbols()[(n % self.radix()) as int]));
        }
    }

    /// Reading what was written gives at most the number, and exactly the number where it
    /// fits in the width.
    pub proof fn lemma_read_write(self, n: nat, width: nat)
        ensures
            self.write(n, width).len() == width,
            self.spells(self.write(n, width)),
            self.read(self.write(n, width)) <= n,
            n < self.capacity(width) ==> self.read(self.write(n, width)) == n,
        decreases width,
    {
        self.lemma_symbols();
        self.lemma_write_spells(n, width);
        if width > 0 {
            let high = n / self.radix();
            self.lemma_read_write(high, (width - 1) as nat);
            let text = self.write(n, width);
            assert(text.drop_last() =~= self.write(high, (width - 1) as nat));
            assert(self.value_of(text.last()) == n % self.radix());
            if n < self.capacity(width) {
                let below = self.capacity((width - 1) as nat);
                match self {
                    Alphabet::Crockford => {
                        assert(n < 32 * below);
                        assert(high < below);
                    },
                    Alphabet::Hex => {
                        assert(n < 16 * below);
                        assert(high < below);
                    },
                }
            }
        }
    }

    /// Writing what was read gives the text back.
    pub proof fn lemma_write_read(self, text: Seq<char>)
        requires
            self.spells(text),
        ensures
            self.write(self.read(text), text.len()) == text,
            self.read(text) < self.capacity(text.len()),
        decreases text.len(),
    {
        self.lemma_symbols();
        if text.len() > 0 {
            self.lemma_write_read(text.drop_last());
            assert(self.symbols().contains(text.last()));
            let high = self.read(text.drop_last());
            let digit = self.value_of(text.last());
            match self {
                Alphabet::Crockford => {
                    assert((high * 32 + digit) / 32 == high);
                    assert((high * 32 + digit) % 32 == digit);
                },
                Alphabet::Hex => {
                    assert((high * 16 + digit) / 16 == high);
                    assert((high * 16 + digit) % 16 == digit);
                },
            }
            assert(self.write(self.read(text), text.len()) =~= text);
        } else {
            assert(self.write(self.read(text), text.len()) =~= text);
        }
    }

    /// A text stands for at least the number that any of its beginnings stands for.
    proof fn lemma_read_prefix(self, text: Seq<char>, end: int)
        requires
            self.spells(text),
            0 <= end <= text.len(),
        ensures
            self.read(text.take(end)) <= self.read(text),
        decreases text.len() - end,
    {
        if end < text.len() {
            self.lemma_symbols();
            self.lemma_read_prefix(text, end + 1);
            let next = text.take(end + 1);
            assert(next.drop_last() =~= text.take(end));
            assert(self.symbols().contains(text[end]));
            let low = self.read(text.take(end));
            match self {
                Alphabet::Crockford => {
                    assert(self.read(next) >= low * 32);
                },
                Alphabet::Hex => {
                    assert(self.read(next) >= low * 16);
                },
            }
        } else {
            assert(text.take(end) =~= text);
        }
    }

    fn symbol(self, digit: u8) -> (symbol: char)
        requires
            digit < self.radix(),
        ensures
            symbol == self.symbols()[digit as int],
    {
        match self {
            Alphabet::Crockford => match digit {
                0 => '0', 1 => '1', 2 => '2', 3 => '3', 4 => '4', 5 => '5', 6 => '6', 7 => '7',
                8 => '8', 9 => '9', 10 => 'A', 11 => 'B', 12 => 'C', 13 => 'D', 14 => 'E',
                15 => 'F', 16 => 'G', 17 => 'H', 18 => 'J', 19 => 'K', 20 => 'M', 21 => 'N',
                22 => 'P', 23 => 'Q', 24 => 'R', 25 => 'S', 26 => 'T', 27 => 'V', 28 => 'W',
                29 => 'X', 30 => 'Y', _ => 'Z',
            },
            Alphabet::Hex => match digit {
                0 => '0', 1 => '1', 2 => '2', 3 => '3', 4 => '4', 5 => '5', 6 => '6', 7 => '7',
                8 => '8', 9 => '9', 10 => 'a', 11 => 'b', 12 => 'c', 13 => 'd', 14 => 'e',
                _ => 'f',
            },
        }
    }

    fn digit(self, symbol: char) -> (digit: Option<u8>)
        ensures
            match digit {
                Some(d) => d < self.radix() && self.symbols()[d as int] == symbol
                    && self.value_of(symbol) == d,
                None => !self.symbols().contains(symbol),
            },
    {
        proof {
            self.lemma_symbols();
        }
        let count: u8 = match self {
            Alphabet::Crockford => 32,
            Alphabet::Hex => 16,
        };
        let mut d: u8 = 0;
        while d < count
            invariant
                d <= count,
                count == self.radix(),
                forall|k: int| 0 <= k < d ==> self.symbols()[k] != symbol,
                forall|k: int| 0 <= k < self.radix() ==> self.value_of(
                    #[trigger] self.symbols()[k],
                ) == k,
                self.symbols().len() == self.radix(),
            decreases count - d,
        {
            if self.symbol(d) == symbol {
                return Some(d);
            }
            d = d + 1;
        }
        None
    }

    /// Appends the last `width` digits of `n` to the text.
    pub fn append(self, text: &mut String, n: u128, width: u8)
        ensures
            final(text)@ == old(text)@ + self.write(n as nat, width as nat),
        decreases width,
    {
        let radix: u128 = match self {
            Alphabet::Crockford => 32,
            Alphabet::Hex => 16,
        };
        if width > 0 {
            self.append(text, n / radix, width - 1);
            text.push(self.symbol((n % radix) as u8));
        }
        assert(text@ =~= old(text)@ + self.write(n as nat, width as nat));
    }

    /// Reads the `width` characters of `text` that start at `start` as a number: `None` where
    /// they are not the digits of one.
    pub(crate) fn parse(self, text: &str, start: usize, width: usize) -> (number: Option<u128>)
        requires
            start + width <= text@.len(),
            start + width <= usize::MAX,
        ensures
            match number {
                Some(n) => text@.subrange(start as int, start + width) == self.write(
                    n as nat,
                    width as nat,
                ) && n < self.capacity(width as nat),
                None => forall|n: u128|
                    text@.subrange(start as int, start + width) != #[trigger] self.write(
                        n as nat,
                        width as nat,
                    ),
            },
    {
        let ghost digits = text@.subrange(start as int, start + width);
        proof {
            self.lemma_symbols();
        }
        let radix: u128 = match self {
            Alphabet::Crockford => 32,
            Alphabet::Hex => 16,
        };
        let mut n: u128 = 0;
        let mut i: usize = 0;
        while i < width
            invariant
                start + width <= text@.len(),
                start + width <= usize::MAX,
                digits == text@.subrange(start as int, start + width),
                i <= width,
                radix == self.radix(),
                16 <= radix <= 32,
                n == self.read(digits.take(i as int)),
                self.spells(digits.take(i as int)),
                self.symbols().len() == self.radix(),
            decreases width - i,
        {
            let symbol = text.get_char(start + i);
            assert(symbol == digits[i as int]);
            let digit: u8 = match self.digit(symbol) {
                Some(digit) => digit,
                None => {
                    assert forall|m: u128| digits != #[trigger] self.write(
                        m as nat,
                        width as nat,
                    ) by {
                        self.lemma_read_write(m as nat, width as nat);
                        if digits == self.write(m as nat, width as nat) {
                            assert(self.symbols().contains(digits[i as int]));
                        }
                    }
                    return None;
                },
            };
            proof {
                let next = digits.take(i + 1);
                assert(next.drop_last() =~= digits.take(i as int));
                assert(next.last() == symbol);
                assert(self.symbols().contains(self.symbols()[digit as int]));
                assert forall|k: int| 0 <= k < next.len() implies self.symbols().contains(
                    #[trigger] next[k],
                ) by {
                    if k < i {
                        assert(next[k] == digits.take(i as int)[k]);
                    }
                }
            }
            if n > (u128::MAX - digit as u128) / radix {
                assert forall|m: u128| digits != #[trigger] self.write(
                    m as nat,
                    width as nat,
                ) by {
                    self.lemma_read_write(m as nat, width as nat);
                    if digits == self.write(m as nat, width as nat) {
                        self.lemma_read_prefix(digits, i + 1);
                        assert(self.read(digits.take(i + 1)) == n * self.radix() + digit);
                        assert(n * radix + digit > u128::MAX) by (nonlinear_arith)
                            requires
                                n > (u128::MAX - digit as u128) / radix as int,
                                16 <= radix <= 32,
                        ;
                    }
                }
                return None;
            }
            assert(n * radix + digit <= u128::MAX) by (nonlinear_arith)
                requires
                    n <= (u128::MAX - digit as u128) / radix as int,
                    16 <= radix <= 32,
            ;
            n = n * radix + digit as u128;
            i = i + 1;
        }
        proof {
            assert(digits.take(width as int) =~= digits);
            self.lemma_write_read(digits);
        }
        Some(n)
    }
}

/// A character that stands for a decimal digit.
pub open spec fn is_decimal_digit(symbol: char) -> bool {
    '0' <= symbol <= '9'
}

/// The decimal digit with the value `digit`.
pub open spec fn decimal_digit(digit: nat) -> char {
    Alphabet::Hex.symbols()[digit as int]
}

/// `n` in decimal, without leading zeros.
pub open spec fn decimal(n: nat) -> Seq<char>
    decreases n,
{
    if n < 10 {
        seq![decimal_digit(n)]
    } else {
        decimal(n / 10).push(decimal_digit(n % 10))
    }
}

/// Appends `n` in decimal to the text.
pub fn append_decimal(text: &mut String, n: u64)
    ensures
        final(text)@ == old(text)@ + decimal(n as nat),
    decreases n,
{
    if n >= 10 {
        append_decimal(text, n / 10);
    }
    text.push(Alphabet::Hex.symbol((n % 10) as u8));
    assert(text@ =~= old(text)@ + decimal(n as nat));
}

proof fn lemma_decimal_digits(n: nat)
    ensures
        decimal(n).len() > 0,
        forall|i: int| 0 <= i < decimal(n).len() ==> is_decimal_digit(#[trigger] decimal(n)[i]),
    decreases n,
{
    if n >= 10 {
        lemma_decimal_digits(n / 10);
    }
}

proof fn lemma_decimal_injective(m: nat, n: nat)
    requires
        decimal(m) == decimal(n),
    ensures
        m == n,
    decreases m + n,
{
    Alphabet::Hex.lemma_symbols();
    lemma_decimal_digits(m);
    lemma_decimal_digits(n);
    if m >= 10 && n >= 10 {
        assert(decimal(m).drop_last() =~= decimal(m / 10));
        assert(decimal(n).drop_last() =~= decimal(n / 10));
        lemma_decimal_injective(m / 10, n / 10);
        assert(decimal(m).last() == decimal_digit(m % 10));
        assert(decimal(n).last() == decimal_digit(n % 10));
        assert(Alphabet::Hex.value_of(decimal_digit(m % 10)) == m % 10);
        assert(Alphabet::Hex.value_of(decimal_digit(n % 10)) == n % 10);
    } else if m < 10 && n < 10 {
        assert(decimal(m)[0] == decimal_digit(m));
        assert(decimal(n)[0] == decimal_digit(n));
        assert(Alphabet::Hex.value_of(decimal_digit(m)) == m);
        assert(Alphabet::Hex.value_of(decimal_digit(n)) == n);
    } else if m >= 10 {
        lemma_decimal_digits(m / 10);
        assert(decimal(m).len() >= 2);
        assert(decimal(n).len() == 1);
    } else {
        lemma_decimal_digits(n / 10);
        assert(decimal(n).len() >= 2);
        assert(decimal(m).len() == 1);
    }
}

/// Two texts that end in parts of one length are equal only where both parts are.
pub proof fn lemma_split_end<A>(x: Seq<A>, a: Seq<A>, y: Seq<A>, b: Seq<A>)
    requires
        x + a == y + b,
        a.len() == b.len(),
    ensures
        x == y,
        a == b,
{
    assert((x + a).len() == (y + b).len());
    assert(x =~= (x + a).take(x.len() as int));
    assert(y =~= (y + b).take(y.len() as int));
    assert(a =~= (x + a).skip(x.len() as int));
    assert(b =~= (y + b).skip(y.len() as int));
}

/// Two texts that end in a decimal number which no digit precedes are equal only where the
/// numbers and what precedes them are.
pub proof fn lemma_split_decimal(x: Seq<char>, m: nat, y: Seq<char>, n: nat)
    requires
        x + decimal(m) == y + decimal(n),
        x.len() > 0,
        y.len() > 0,
        !is_decimal_digit(x.last()),
        !is_decimal_digit(y.last()),
    ensures
        x == y,
        m == n,
{
    lemma_decimal_digits(m);
    lemma_decimal_digits(n);
    let whole = x + decimal(m);
    assert(whole.len() == (y + decimal(n)).len());
    if decimal(m).len() > decimal(n).len() {
        let at = y.len() - 1;
        assert(whole[at] == decimal(m)[at - x.len()]);
        assert(whole[at] == y.last());
    } else if decimal(m).len() < decimal(n).len() {
        let at = x.len() - 1;
        assert((y + decimal(n))[at] == decimal(n)[at - y.len()]);
        assert(whole[at] == x.last());
    }
    lemma_split_end(x, decimal(m), y, decimal(n));
    lemma_decimal_injective(m, n);
}

} // verus!
