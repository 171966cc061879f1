//! Prices: free text such as `"1 sp, 7 cp (per 1,000 bricks)"` read into
//! four coin counts and normalised to copper.
//!
//! A price text starts with one or more tokens `<amount> <unit>`, separated
//! by `", "`. An amount is made of ASCII digits and `,` thousands separators;
//! a unit is two word characters, of which `pp`, `gp`, `sp` and `cp` are
//! known (a platinum piece is worth 1000 copper, a gold piece 100, a silver
//! piece 10). Whatever follows the last token is free text and is ignored.
//! A later token of a coin overwrites an earlier one; a token with an
//! unknown unit is skipped.
use vstd::prelude::*;

verus! {

/// Why a price text could not be read.
#[derive(Debug, Clone, Copy, PartialEq, Eq, Structural)]
pub enum PriceError {
    /// A token is not an amount, a space and a two-character unit.
    UnsplittableToken,
    /// An amount holds no digit once its separators are removed.
    MalformedAmount,
    /// An amount does not fit in an `i32`.
    AmountOutOfRange,
    /// The copper value of the whole price does not fit in an `i32`.
    TotalOutOfRange,
}

/// The number of coins of each kind that a price names.
pub struct Coins {
    pub pp: int,
    pub gp: int,
    pub sp: int,
    pub cp: int,
}

impl Coins {
    pub open spec fn zero() -> Coins {
        Coins { pp: 0, gp: 0, sp: 0, cp: 0 }
    }

    /// The value in copper pieces.
    pub open spec fn copper(self) -> int {
        1000 * self.pp + 100 * self.gp + 10 * self.sp + self.cp
    }

    /// Each count is a non-negative `i32`, and so is the copper value.
    pub open spec fn fits(self) -> bool {
        &&& 0 <= self.pp <= i32::MAX
        &&& 0 <= self.gp <= i32::MAX
        &&& 0 <= self.sp <= i32::MAX
        &&& 0 <= self.cp <= i32::MAX
        &&& self.copper() <= i32::MAX
    }

    /// These coins with the count of the unit `ab` set to `v`; an unknown
    /// unit leaves them as they are.
    pub open spec fn with_unit(self, a: char, b: char, v: int) -> Coins {
        if b != 'p' {
            self
        } else if a == 'p' {
            Coins { pp: v, ..self }
        } else if a == 'g' {
            Coins { gp: v, ..self }
        } else if a == 's' {
            Coins { sp: v, ..self }
        } else if a == 'c' {
            Coins { cp: v, ..self }
        } else {
            self
        }
    }
}

/// A price as the library sees it: its text and the coins read from it.
pub struct PriceView {
    pub text: Seq<char>,
    pub coins: Coins,
}

pub open spec fn is_digit(c: char) -> bool {
    '0' <= c <= '9'
}

pub open spec fn digit_value(c: char) -> int {
    (c as u32) as int - ('0' as u32) as int
}

pub open spec fn is_amount_char(c: char) -> bool {
    is_digit(c) || c == ','
}

pub open spec fn is_word_char(c: char) -> bool {
    ('a' <= c <= 'z') || ('A' <= c <= 'Z') || is_digit(c) || c == '_'
}

/// How many amount characters stand in `s` from position `i` on.
pub open spec fn amount_len(s: Seq<char>, i: int) -> nat
    decreases s.len() - i,
{
    if 0 <= i < s.len() && is_amount_char(s[i]) {
        1 + amount_len(s, i + 1)
    } else {
        0
    }
}

/// Whether `s[i..j]` holds a digit.
pub open spec fn has_digit(s: Seq<char>, i: int, j: int) -> bool
    decreases j - i,
{
    if j <= i {
        false
    } else {
        is_digit(s[j - 1]) || has_digit(s, i, j - 1)
    }
}

/// The number written by the digits of `s[i..j]`, separators left out.
pub open spec fn digits_value(s: Seq<char>, i: int, j: int) -> int
    decreases j - i,
{
    if j <= i {
        0
    } else if is_digit(s[j - 1]) {
        10 * digits_value(s, i, j - 1) + digit_value(s[j - 1])
    } else {
        digits_value(s, i, j - 1)
    }
}

/// Whether the amount that starts at `i` is followed by a space and a unit.
pub open spec fn well_split(s: Seq<char>, i: int) -> bool {
    let j = i + amount_len(s, i);
    &&& j + 3 <= s.len()
    &&& s[j] == ' '
    &&& is_word_char(s[j + 1])
    &&& is_word_char(s[j + 2])
}

/// Where the next token starts when a token ends at `e`.
pub open spec fn after_separator(s: Seq<char>, e: int) -> int {
    if e + 2 <= s.len() && s[e] == ',' && s[e + 1] == ' ' {
        e + 2
    } else {
        e
    }
}

/// Reads the tokens from position `i` on, on top of the coins `acc`.
pub open spec fn scan_from(s: Seq<char>, i: int, acc: Coins) -> Result<Coins, PriceError>
    decreases s.len() - i,
{
    let j = i + amount_len(s, i);
    if !well_split(s, i) {
        Err(PriceError::UnsplittableToken)
    } else if !has_digit(s, i, j) {
        Err(PriceError::MalformedAmount)
    } else if digits_value(s, i, j) > i32::MAX {
        Err(PriceError::AmountOutOfRange)
    } else {
        let coins = acc.with_unit(s[j + 1], s[j + 2], digits_value(s, i, j));
        let next = after_separator(s, j + 3);
        if next < s.len() && is_amount_char(s[next]) {
            scan_from(s, next, coins)
        } else {
            Ok(coins)
        }
    }
}

/// What a price text reads as: `None` for the empty text, else its coins.
pub open spec fn parse_text(s: Seq<char>) -> Result<Option<Coins>, PriceError> {
    if s.len() == 0 {
        Ok(None)
    } else {
        match scan_from(s, 0, Coins::zero()) {
            Err(e) => Err(e),
            Ok(c) => if c.copper() > i32::MAX {
                Err(PriceError::TotalOutOfRange)
            } else {
                Ok(Some(c))
            },
        }
    }
}

fn is_digit_exec(c: char) -> (r: bool)
    ensures
        r == is_digit(c),
{
    '0' <= c && c <= '9'
}

fn is_amount_char_exec(c: char) -> (r: bool)
    ensures
        r == is_amount_char(c),
{
    is_digit_exec(c) || c == ','
}

fn is_word_char_exec(c: char) -> (r: bool)
    ensures
        r == is_word_char(c),
{
    ('a' <= c && c <= 'z') || ('A' <= c && c <= 'Z') || is_digit_exec(c) || c == '_'
}

/// A price: the text it was read from, kept for display, and the coins it names.
#[derive(Debug)]
pub struct Price {
    text: String,
    pp: i32,
    gp: i32,
    sp: i32,
    cp: i32,
}

impl View for Price {
    type V = PriceView;

    closed spec fn view(&self) -> PriceView {
        PriceView {
            text: self.text@,
            coins: Coins {
                pp: self.pp as int,
                gp: self.gp as int,
                sp: self.sp as int,
                cp: self.cp as int,
            },
        }
    }
}

impl Clone for Price {
    fn clone(&self) -> (r: Price)
        ensures
            r == *self,
    {
        proof {
            use_type_invariant(self);
        }
        Price { text: self.text.clone(), pp: self.pp, gp: self.gp, sp: self.sp, cp: self.cp }
    }
}

impl Price {
    #[verifier::type_invariant]
    spec fn inv(self) -> bool {
        self@.coins.fits()
    }

    /// Reads a price text. The empty text is no price at all (`Ok(None)`).
    pub fn parse(input: &str) -> (r: Result<Option<Price>, PriceError>)
        ensures
            match r {
                Ok(Some(p)) => parse_text(input@) == Ok::<Option<Coins>, PriceError>(
                    Some(p@.coins),
                ) && p@.text == input@,
                Ok(None) => parse_text(input@) == Ok::<Option<Coins>, PriceError>(None),
                Err(e) => parse_text(input@) == Err::<Option<Coins>, PriceError>(e),
            },
    {
        let ghost s = input@;
        let n = input.unicode_len();
        if n == 0 {
            return Ok(None);
        }
        let mut pp: i32 = 0;
        let mut gp: i32 = 0;
        let mut sp: i32 = 0;
        let mut cp: i32 = 0;
        let mut i: usize = 0;
        loop
            invariant_except_break
                0 <= i < n,
            invariant
                n == s.len(),
                s == input@,
                0 <= pp,
                0 <= gp,
                0 <= sp,
                0 <= cp,
                scan_from(s, i as int, Coins { pp: pp as int, gp: gp as int, sp: sp as int, cp: cp as int })
                    == scan_from(s, 0, Coins::zero()),
            ensures
                scan_from(s, 0, Coins::zero()) == Ok::<Coins, PriceError>(
                    Coins { pp: pp as int, gp: gp as int, sp: sp as int, cp: cp as int },
                ),
            decreases n - i,
        {
            let ghost acc = Coins { pp: pp as int, gp: gp as int, sp: sp as int, cp: cp as int };
            let mut j: usize = i;
            let mut value: i32 = 0;
            let mut seen_digit = false;
            let mut too_large = false;
            while j < n
                invariant
                    i <= j <= n,
                    n == s.len(),
                    s == input@,
                    amount_len(s, i as int) == (j - i) + amount_len(s, j as int),
                    seen_digit == has_digit(s, i as int, j as int),
                    digits_value(s, i as int, j as int) >= 0,
                    too_large == (digits_value(s, i as int, j as int) > i32::MAX),
                    !too_large ==> value == digits_value(s, i as int, j as int),
                ensures
                    i <= j <= n,
                    amount_len(s, i as int) == (j - i) + amount_len(s, j as int),
                    amount_len(s, j as int) == 0,
                    seen_digit == has_digit(s, i as int, j as int),
                    too_large == (digits_value(s, i as int, j as int) > i32::MAX),
                    !too_large ==> value == digits_value(s, i as int, j as int),
                decreases n - j,
            {
                let c = input.get_char(j);
                if !is_amount_char_exec(c) {
                    break;
                }
                if is_digit_exec(c) {
                    seen_digit = true;
                    let d = (c as u32 - '0' as u32) as i64;
                    if !too_large {
                        let next = value as i64 * 10 + d;
                        if next > i32::MAX as i64 {
                            too_large = true;
                        } else {
                            value = next as i32;
                        }
                    }
                }
                j = j + 1;
            }
            assert(j as int == i + amount_len(s, i as int));
            if !(n - j >= 3 && input.get_char(j) == ' ' && is_word_char_exec(input.get_char(j + 1))
                && is_word_char_exec(input.get_char(j + 2))) {
                return Err(PriceError::UnsplittableToken);
            }
            if !seen_digit {
                return Err(PriceError::MalformedAmount);
            }
            if too_large {
                return Err(PriceError::AmountOutOfRange);
            }
            let a = input.get_char(j + 1);
            let b = input.get_char(j + 2);
            if b == 'p' {
                if a == 'p' {
                    pp = value;
                } else if a == 'g' {
                    gp = value;
                } else if a == 's' {
                    sp = value;
                } else if a == 'c' {
                    cp = value;
                }
            }
            let e = j + 3;
            let next = if n - e >= 2 && input.get_char(e) == ',' && input.get_char(e + 1) == ' ' {
                e + 2
            } else {
                e
            };
            assert(next as int == after_separator(s, e as int));
            if next < n && is_amount_char_exec(input.get_char(next)) {
                i = next;
            } else {
                break;
            }
        }
        let total = pp as i64 * 1000 + gp as i64 * 100 + sp as i64 * 10 + cp as i64;
        if total > i32::MAX as i64 {
            return Err(PriceError::TotalOutOfRange);
        }
        Ok(Some(Price { text: String::from_str(input), pp, gp, sp, cp }))
    }

    /// A price of the given text and coins, which must fit.
    pub(crate) fn from_parts_unchecked(text: String, pp: i32, gp: i32, sp: i32, cp: i32) -> (p: Price)
        requires
            (Coins { pp: pp as int, gp: gp as int, sp: sp as int, cp: cp as int }).fits(),
        ensures
            p@ == (PriceView {
                text: text@,
                coins: Coins { pp: pp as int, gp: gp as int, sp: sp as int, cp: cp as int },
            }),
    {
        Price { text, pp, gp, sp, cp }
    }

    /// The text the price was read from.
    pub fn text(&self) -> (r: &str)
        ensures
            r@ == self@.text,
    {
        self.text.as_str()
    }

    /// The number of platinum pieces.
    pub fn pp(&self) -> (r: i32)
        ensures
            r == self@.coins.pp,
    {
        self.pp
    }

    /// The number of gold pieces.
    pub fn gp(&self) -> (r: i32)
        ensures
            r == self@.coins.gp,
    {
        self.gp
    }

    /// The number of silver pieces.
    pub fn sp(&self) -> (r: i32)
        ensures
            r == self@.coins.sp,
    {
        self.sp
    }

    /// The number of copper pieces.
    pub fn cp(&self) -> (r: i32)
        ensures
            r == self@.coins.cp,
    {
        self.cp
    }

    /// The value of this price in copper pieces.
    pub fn as_cp(&self) -> (r: i32)
        ensures
            r == self@.coins.copper(),
            r >= 0,
    {
        proof {
            use_type_invariant(self);
        }
        let pp = self.pp * 1000;
        let gp = self.gp * 100;
        let sp = self.sp * 10;
        pp + gp + sp + self.cp
    }
}

} // verus!
