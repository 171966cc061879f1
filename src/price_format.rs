//! Writing a copper value back as price text, and the proof that reading
//! that text gives the same value back.
use vstd::prelude::*;

use crate::price::{
    Coins, Price, PriceError, after_separator, amount_len, digit_value, digits_value, has_digit,
    is_amount_char, is_digit, parse_text, scan_from, well_split,
};

verus! {

/// The coins that a copper value splits into, largest coin first.
pub open spec fn canonical(m: int) -> Coins {
    Coins { pp: m / 1000, gp: (m % 1000) / 100, sp: (m % 100) / 10, cp: m % 10 }
}

/// The character of a decimal digit.
pub open spec fn digit_char(d: int) -> char {
    if d == 0 {
        '0'
    } else if d == 1 {
        '1'
    } else if d == 2 {
        '2'
    } else if d == 3 {
        '3'
    } else if d == 4 {
        '4'
    } else if d == 5 {
        '5'
    } else if d == 6 {
        '6'
    } else if d == 7 {
        '7'
    } else if d == 8 {
        '8'
    } else {
        '9'
    }
}

/// The decimal digits of a natural number, without leading zeros.
pub open spec fn decimal(n: nat) -> Seq<char>
    decreases n,
{
    if n < 10 {
        seq![digit_char(n as int)]
    } else {
        decimal(n / 10).push(digit_char((n % 10) as int))
    }
}

/// The text of one token: an amount and a unit `<coin>p`.
pub open spec fn token_text(v: nat, coin: char) -> Seq<char> {
    decimal(v) + seq![' ', coin, 'p']
}

/// Tokens written one after the other, separated by `", "`.
pub open spec fn join_tokens(ts: Seq<(nat, char)>) -> Seq<char>
    decreases ts.len(),
{
    if ts.len() == 0 {
        Seq::empty()
    } else if ts.len() == 1 {
        token_text(ts[0].0, ts[0].1)
    } else {
        token_text(ts[0].0, ts[0].1) + seq![',', ' '] + join_tokens(ts.skip(1))
    }
}

/// The coins after reading the tokens in order on top of `acc`.
pub open spec fn apply_tokens(acc: Coins, ts: Seq<(nat, char)>) -> Coins
    decreases ts.len(),
{
    if ts.len() == 0 {
        acc
    } else {
        apply_tokens(acc.with_unit(ts[0].1, 'p', ts[0].0 as int), ts.skip(1))
    }
}

/// The tokens that name the given coins, all four of them.
pub open spec fn coin_tokens(c: Coins) -> Seq<(nat, char)> {
    seq![(c.pp as nat, 'p'), (c.gp as nat, 'g'), (c.sp as nat, 's'), (c.cp as nat, 'c')]
}

/// The price text that a copper value is written as.
pub open spec fn copper_text(m: int) -> Seq<char> {
    join_tokens(coin_tokens(canonical(m)))
}

proof fn lemma_digit_char(d: int)
    requires
        0 <= d < 10,
    ensures
        is_digit(digit_char(d)),
        digit_value(digit_char(d)) == d,
{
}

proof fn lemma_decimal(n: nat)
    ensures
        decimal(n).len() >= 1,
        forall|k: int| 0 <= k < decimal(n).len() ==> is_digit(#[trigger] decimal(n)[k]),
    decreases n,
{
    lemma_digit_char((n % 10) as int);
    if n >= 10 {
        lemma_decimal(n / 10);
        let d = decimal(n / 10);
        assert forall|k: int| 0 <= k < decimal(n).len() implies is_digit(#[trigger] decimal(n)[k]) by {
            if k < d.len() {
                assert(decimal(n)[k] == d[k]);
            }
        }
    }
}

/// The amount that starts at `i` runs up to the first character that is
/// no amount character.
proof fn lemma_amount_len(s: Seq<char>, i: int, j: int)
    requires
        0 <= i <= j < s.len(),
        forall|k: int| i <= k < j ==> is_amount_char(#[trigger] s[k]),
        !is_amount_char(s[j]),
    ensures
        amount_len(s, i) == j - i,
    decreases j - i,
{
    if i < j {
        lemma_amount_len(s, i + 1, j);
    }
}

/// The digits of `n`, standing at `i` in `s`, read as `n`.
proof fn lemma_digits_value(s: Seq<char>, i: int, n: nat)
    requires
        0 <= i,
        i + decimal(n).len() <= s.len(),
        s.subrange(i, i + decimal(n).len()) == decimal(n),
    ensures
        digits_value(s, i, i + decimal(n).len()) == n,
        has_digit(s, i, i + decimal(n).len()),
    decreases n,
{
    let d = decimal(n);
    let j = i + d.len();
    lemma_digit_char((n % 10) as int);
    assert(s[j - 1] == s.subrange(i, j)[d.len() - 1]);
    if n >= 10 {
        let e = decimal(n / 10);
        lemma_decimal(n / 10);
        assert(s.subrange(i, i + e.len()) =~= e) by {
            assert forall|k: int| 0 <= k < e.len() implies s.subrange(i, i + e.len())[k] == e[k] by {
                assert(s.subrange(i, j)[k] == d[k]);
            }
        }
        lemma_digits_value(s, i, n / 10);
        assert(digits_value(s, i, j) == 10 * digits_value(s, i, j - 1) + digit_value(s[j - 1]));
    } else {
        assert(digits_value(s, i, j - 1) == 0);
    }
}

/// Reading the joined tokens, written after `pre`, from where they start.
proof fn lemma_scan_tokens(pre: Seq<char>, ts: Seq<(nat, char)>, acc: Coins)
    requires
        ts.len() >= 1,
        forall|k: int| 0 <= k < ts.len() ==> (#[trigger] ts[k]).0 <= i32::MAX,
        forall|k: int|
            0 <= k < ts.len() ==> ((#[trigger] ts[k]).1 == 'p' || ts[k].1 == 'g' || ts[k].1 == 's' || ts[k].1
                == 'c'),
    ensures
        scan_from(pre + join_tokens(ts), pre.len() as int, acc) == Ok::<Coins, PriceError>(
            apply_tokens(acc, ts),
        ),
    decreases ts.len(),
{
    let s = pre + join_tokens(ts);
    let i = pre.len() as int;
    let (v, coin) = ts[0];
    let d = decimal(v);
    let tok = token_text(v, coin);
    let rest = if ts.len() == 1 {
        Seq::<char>::empty()
    } else {
        seq![',', ' '] + join_tokens(ts.skip(1))
    };
    assert(join_tokens(ts) =~= tok + rest);
    assert(s =~= pre + tok + rest);
    lemma_decimal(v);
    let j = i + d.len();
    assert forall|k: int| i <= k < j implies is_amount_char(#[trigger] s[k]) by {
        assert(s[k] == d[k - i]);
    }
    assert(s[j] == ' ');
    assert(s[j + 1] == coin);
    assert(s[j + 2] == 'p');
    lemma_amount_len(s, i, j);
    assert(well_split(s, i));
    assert(s.subrange(i, j) =~= d);
    lemma_digits_value(s, i, v);
    let next_acc = acc.with_unit(coin, 'p', v as int);
    if ts.len() == 1 {
        assert(s.len() == j + 3);
        assert(after_separator(s, j + 3) == j + 3);
        assert(apply_tokens(next_acc, ts.skip(1)) == next_acc);
    } else {
        let tail = ts.skip(1);
        let pre2 = pre + tok + seq![',', ' '];
        assert(s =~= pre2 + join_tokens(tail));
        assert(s[j + 3] == ',');
        assert(s[j + 4] == ' ');
        assert(after_separator(s, j + 3) == j + 5);
        assert forall|k: int| 0 <= k < tail.len() implies (#[trigger] tail[k]).0 <= i32::MAX && (tail[k].1 == 'p'
            || tail[k].1 == 'g' || tail[k].1 == 's' || tail[k].1 == 'c') by {
            assert(tail[k] == ts[k + 1]);
        }
        let v2 = tail[0].0;
        lemma_decimal(v2);
        assert(join_tokens(tail) =~= token_text(v2, tail[0].1) + (if tail.len() == 1 {
            Seq::<char>::empty()
        } else {
            seq![',', ' '] + join_tokens(tail.skip(1))
        }));
        assert(s[j + 5] == decimal(v2)[0]);
        assert(is_amount_char(s[j + 5]));
        lemma_scan_tokens(pre2, tail, next_acc);
    }
}

/// Writing a copper value as text and reading the text back gives the
/// coins that the value splits into, which are worth that value.
pub proof fn lemma_copper_text(m: int)
    requires
        0 <= m <= i32::MAX,
    ensures
        parse_text(copper_text(m)) == Ok::<Option<Coins>, PriceError>(Some(canonical(m))),
        canonical(m).copper() == m,
{
    let c = canonical(m);
    let ts = coin_tokens(c);
    assert(m == 1000 * (m / 1000) + m % 1000);
    assert(m % 1000 == 100 * ((m % 1000) / 100) + (m % 1000) % 100);
    assert((m % 1000) % 100 == m % 100);
    assert(m % 100 == 10 * ((m % 100) / 10) + m % 10);
    assert(c.copper() == m);
    assert forall|k: int| 0 <= k < ts.len() implies (#[trigger] ts[k]).0 <= i32::MAX && (ts[k].1 == 'p' || ts[k].1
        == 'g' || ts[k].1 == 's' || ts[k].1 == 'c') by {}
    lemma_scan_tokens(Seq::empty(), ts, Coins::zero());
    assert(Seq::<char>::empty() + join_tokens(ts) =~= join_tokens(ts));
    let t1 = ts.skip(1);
    let t2 = t1.skip(1);
    let t3 = t2.skip(1);
    let t4 = t3.skip(1);
    assert(t1 =~= seq![(c.gp as nat, 'g'), (c.sp as nat, 's'), (c.cp as nat, 'c')]);
    assert(t2 =~= seq![(c.sp as nat, 's'), (c.cp as nat, 'c')]);
    assert(t3 =~= seq![(c.cp as nat, 'c')]);
    assert(t4.len() == 0);
    let a1 = Coins::zero().with_unit('p', 'p', c.pp);
    let a2 = a1.with_unit('g', 'p', c.gp);
    let a3 = a2.with_unit('s', 'p', c.sp);
    let a4 = a3.with_unit('c', 'p', c.cp);
    assert(apply_tokens(a4, t4) == a4);
    assert(apply_tokens(a3, t3) == apply_tokens(a4, t4));
    assert(apply_tokens(a2, t2) == apply_tokens(a3, t3));
    assert(apply_tokens(a1, t1) == apply_tokens(a2, t2));
    assert(apply_tokens(Coins::zero(), ts) == apply_tokens(a1, t1));
    assert(a4 == c);
    lemma_decimal(c.pp as nat);
    assert(copper_text(m).len() > 0);
}

/// The coins read from a price text are never negative.
proof fn lemma_scan_nonneg(s: Seq<char>, i: int, acc: Coins)
    requires
        acc.pp >= 0,
        acc.gp >= 0,
        acc.sp >= 0,
        acc.cp >= 0,
    ensures
        scan_from(s, i, acc) matches Ok(c) ==> c.pp >= 0 && c.gp >= 0 && c.sp >= 0 && c.cp >= 0,
    decreases s.len() - i,
{
    let j = i + amount_len(s, i);
    lemma_digits_nonneg(s, i, j);
    let coins = acc.with_unit(s[j + 1], s[j + 2], digits_value(s, i, j));
    let next = after_separator(s, j + 3);
    if well_split(s, i) && has_digit(s, i, j) && digits_value(s, i, j) <= i32::MAX && next < s.len()
        && is_amount_char(s[next]) {
        lemma_scan_nonneg(s, next, coins);
    }
}

proof fn lemma_digits_nonneg(s: Seq<char>, i: int, j: int)
    ensures
        digits_value(s, i, j) >= 0,
    decreases j - i,
{
    if j > i {
        lemma_digits_nonneg(s, i, j - 1);
    }
}

/// Any price text that reads as a price, once its value is written back
/// as text with [`Price::from_cp`], reads as coins of that same value.
pub proof fn lemma_price_round_trip(s: Seq<char>, c: Coins)
    requires
        parse_text(s) == Ok::<Option<Coins>, PriceError>(Some(c)),
    ensures
        0 <= c.copper() <= i32::MAX,
        parse_text(copper_text(c.copper())) == Ok::<Option<Coins>, PriceError>(Some(canonical(c.copper()))),
        canonical(c.copper()).copper() == c.copper(),
{
    lemma_scan_nonneg(s, 0, Coins::zero());
    lemma_copper_text(c.copper());
}

/// The text of the four coin tokens, spelled out.
proof fn lemma_coin_text(c: Coins)
    ensures
        join_tokens(coin_tokens(c)) == decimal(c.pp as nat) + " pp, "@ + decimal(c.gp as nat) + " gp, "@
            + decimal(c.sp as nat) + " sp, "@ + decimal(c.cp as nat) + " cp"@,
{
    reveal_strlit(" pp, ");
    reveal_strlit(" gp, ");
    reveal_strlit(" sp, ");
    reveal_strlit(" cp");
    let ts = coin_tokens(c);
    let t1 = ts.skip(1);
    let t2 = t1.skip(1);
    let t3 = t2.skip(1);
    assert(t1 =~= seq![(c.gp as nat, 'g'), (c.sp as nat, 's'), (c.cp as nat, 'c')]);
    assert(t2 =~= seq![(c.sp as nat, 's'), (c.cp as nat, 'c')]);
    assert(t3 =~= seq![(c.cp as nat, 'c')]);
    assert(" pp, "@ =~= seq![' ', 'p', 'p', ',', ' ']);
    assert(" gp, "@ =~= seq![' ', 'g', 'p', ',', ' ']);
    assert(" sp, "@ =~= seq![' ', 's', 'p', ',', ' ']);
    assert(" cp"@ =~= seq![' ', 'c', 'p']);
    let dp = decimal(c.pp as nat);
    let dg = decimal(c.gp as nat);
    let ds = decimal(c.sp as nat);
    let dc = decimal(c.cp as nat);
    let j3 = join_tokens(t3);
    let j2 = join_tokens(t2);
    let j1 = join_tokens(t1);
    assert(j3 =~= dc + " cp"@);
    assert(j2 =~= ds + " sp, "@ + j3);
    assert(j1 =~= dg + " gp, "@ + j2);
    assert(join_tokens(ts) =~= dp + " pp, "@ + j1);
    assert(dp + " pp, "@ + (dg + " gp, "@ + (ds + " sp, "@ + (dc + " cp"@))) =~= dp + " pp, "@ + dg + " gp, "@
        + ds + " sp, "@ + dc + " cp"@);
}

/// The text of a single decimal digit.
fn digit_text(d: u32) -> (r: &'static str)
    requires
        d < 10,
    ensures
        r@ == seq![digit_char(d as int)],
{
    proof {
        reveal_strlit("0");
        reveal_strlit("1");
        reveal_strlit("2");
        reveal_strlit("3");
        reveal_strlit("4");
        reveal_strlit("5");
        reveal_strlit("6");
        reveal_strlit("7");
        reveal_strlit("8");
        reveal_strlit("9");
    }
    if d == 0 {
        "0"
    } else if d == 1 {
        "1"
    } else if d == 2 {
        "2"
    } else if d == 3 {
        "3"
    } else if d == 4 {
        "4"
    } else if d == 5 {
        "5"
    } else if d == 6 {
        "6"
    } else if d == 7 {
        "7"
    } else if d == 8 {
        "8"
    } else {
        "9"
    }
}

/// Writes the decimal digits of `n` at the end of `s`.
fn push_decimal(s: &mut String, n: u32)
    ensures
        final(s)@ == old(s)@ + decimal(n as nat),
    decreases n,
{
    let ghost start = s@;
    if n >= 10 {
        push_decimal(s, n / 10);
    }
    s.append(digit_text(n % 10));
    proof {
        if n >= 10 {
            assert(start + decimal(n as nat) =~= start + decimal((n / 10) as nat) + seq![
                digit_char((n % 10) as int),
            ]);
        } else {
            assert(decimal(n as nat) == seq![digit_char(n as int)]);
        }
    }
}

impl Price {
    /// The price of `copper` copper pieces in the largest coins, written as
    /// `"<pp> pp, <gp> gp, <sp> sp, <cp> cp"`.
    pub fn from_cp(copper: i32) -> (p: Price)
        requires
            copper >= 0,
        ensures
            p@.coins == canonical(copper as int),
            p@.text == copper_text(copper as int),
            p@.coins.copper() == copper,
    {
        proof {
            lemma_copper_text(copper as int);
        }
        let pp = copper / 1000;
        let gp = (copper % 1000) / 100;
        let sp = (copper % 100) / 10;
        let cp = copper % 10;
        let mut text = String::new();
        push_decimal(&mut text, pp as u32);
        text.append(" pp, ");
        let ghost t1 = text@;
        push_decimal(&mut text, gp as u32);
        text.append(" gp, ");
        let ghost t2 = text@;
        push_decimal(&mut text, sp as u32);
        text.append(" sp, ");
        let ghost t3 = text@;
        push_decimal(&mut text, cp as u32);
        text.append(" cp");
        proof {
            let c = canonical(copper as int);
            assert(t1 =~= decimal(c.pp as nat) + " pp, "@);
            assert(t2 =~= t1 + decimal(c.gp as nat) + " gp, "@);
            assert(t3 =~= t2 + decimal(c.sp as nat) + " sp, "@);
            assert(text@ =~= t3 + decimal(c.cp as nat) + " cp"@);
        }
        proof {
            lemma_coin_text(canonical(copper as int));
        }
        Price::from_parts_unchecked(text, pp, gp, sp, cp)
    }
}

} // verus!
