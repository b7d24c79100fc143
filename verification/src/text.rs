//! Decimal rendering of numbers and of golf scores.
use vstd::prelude::*;

verus! {

/// The character of a decimal digit.
pub open spec fn digit_char(d: nat) -> char {
    if d == 0 { '0' } else if d == 1 { '1' } else if d == 2 { '2' } else if d == 3 { '3' }
    else if d == 4 { '4' } else if d == 5 { '5' } else if d == 6 { '6' } else if d == 7 { '7' }
    else if d == 8 { '8' } else { '9' }
}

/// Decimal digits of a natural number, most significant first, without leading zeros.
pub open spec fn nat_to_dec(n: nat) -> Seq<char>
    decreases n,
{
    if n < 10 {
        seq![digit_char(n)]
    } else {
        nat_to_dec(n / 10).push(digit_char(n % 10))
    }
}

/// A decimal rendering has at least one digit.
pub proof fn lemma_nat_to_dec_len(n: nat)
    ensures
        nat_to_dec(n).len() >= 1,
    decreases n,
{
    if n >= 10 {
        lemma_nat_to_dec_len(n / 10);
    }
}

/// Decimal rendering of an integer: a minus sign before negative numbers.
pub open spec fn int_to_dec(i: int) -> Seq<char> {
    if i < 0 {
        seq!['-'] + nat_to_dec((-i) as nat)
    } else {
        nat_to_dec(i as nat)
    }
}

/// A decimal rendering of an integer has at least one digit, and one more
/// character, the sign, when the integer is negative.
pub proof fn lemma_int_to_dec_len(i: int)
    ensures
        int_to_dec(i).len() >= 1,
        i < 0 ==> int_to_dec(i).len() >= 2,
{
    if i < 0 {
        lemma_nat_to_dec_len((-i) as nat);
    } else {
        lemma_nat_to_dec_len(i as nat);
    }
}

fn digit_str(d: usize) -> (s: &'static str)
    requires
        d < 10,
    ensures
        s@ == seq![digit_char(d as nat)],
{
    proof {
        reveal_strlit("0");
        reveal_strlit("1");
        reveal_strlit("2");
        reveal_strlit("3");
        reveal_strlit("4");
        reveal_strlit("5");
        reveal_strlit("6");
        reveal_strlit("7");
        reveal_strlit("8");
        reveal_strlit("9");
    }
    if d == 0 { "0" } else if d == 1 { "1" } else if d == 2 { "2" } else if d == 3 { "3" }
    else if d == 4 { "4" } else if d == 5 { "5" } else if d == 6 { "6" } else if d == 7 { "7" }
    else if d == 8 { "8" } else { "9" }
}

/// Renders an unsigned number in decimal, as `to_string` does.
pub fn u128_to_string(n: u128) -> (s: String)
    ensures
        s@ == nat_to_dec(n as nat),
    decreases n,
{
    if n < 10 {
        String::from_str(digit_str(n as usize))
    } else {
        let mut s = u128_to_string(n / 10);
        s.append(digit_str((n % 10) as usize));
        s
    }
}

/// Renders an unsigned number in decimal, as `to_string` does.
pub fn usize_to_string(n: usize) -> (s: String)
    ensures
        s@ == nat_to_dec(n as nat),
{
    u128_to_string(n as u128)
}

/// Renders the successor of a number in decimal (the one-based form of an index).
pub fn succ_to_string(n: usize) -> (s: String)
    ensures
        s@ == nat_to_dec((n + 1) as nat),
{
    u128_to_string(n as u128 + 1)
}

/// Renders a signed number in decimal, as `to_string` does.
pub fn isize_to_string(i: isize) -> (s: String)
    ensures
        s@ == int_to_dec(i as int),
{
    if i < 0 {
        let magnitude: usize = ((-(i + 1)) as usize) + 1;
        let digits = usize_to_string(magnitude);
        proof {
            reveal_strlit("-");
        }
        let s = String::from_str("-");
        s.concat(digits.as_str())
    } else {
        usize_to_string(i as usize)
    }
}

/// How a score relative to par is shown: negative numbers as they are, zero as
/// `E`, positive numbers with a URL-encoded plus sign in front.
pub open spec fn score_text(score: int) -> Seq<char> {
    if score < 0 {
        int_to_dec(score)
    } else if score == 0 {
        "E"@
    } else {
        "%2B"@ + nat_to_dec(score as nat)
    }
}

/// Renders a score relative to par for a vMix text field.
pub fn fix_score(score: isize) -> (s: String)
    ensures
        s@ == score_text(score as int),
{
    if score < 0 {
        isize_to_string(score)
    } else if score == 0 {
        String::from_str("E")
    } else {
        String::from_str("%2B").concat(isize_to_string(score).as_str())
    }
}

/// The view of an optional string.
pub open spec fn opt_view(o: Option<String>) -> Option<Seq<char>> {
    match o {
        Some(s) => Some(s@),
        None => None,
    }
}

/// Copies an optional string.
pub fn clone_opt(o: &Option<String>) -> (r: Option<String>)
    ensures
        opt_view(r) == opt_view(*o),
{
    match o {
        Some(s) => Some(s.clone()),
        None => None,
    }
}

/// Compares two pieces of text.
pub fn str_eq(a: &str, b: &str) -> (r: bool)
    ensures
        r == (a@ == b@),
{
    let x = String::from_str(a);
    let y = String::from_str(b);
    x == y
}

/// Joins two pieces of text.
pub fn join2(a: &str, b: &str) -> (s: String)
    ensures
        s@ == a@ + b@,
{
    String::from_str(a).concat(b)
}

/// The order of text: character by character, by code point, a prefix first.
pub open spec fn lex_le(a: Seq<char>, b: Seq<char>) -> bool
    decreases a.len(),
{
    if a.len() == 0 {
        true
    } else if b.len() == 0 {
        false
    } else if (a[0] as u32) < (b[0] as u32) {
        true
    } else if (a[0] as u32) > (b[0] as u32) {
        false
    } else {
        lex_le(a.drop_first(), b.drop_first())
    }
}

/// Any two texts are ordered one way or the other.
pub proof fn lemma_lex_total(a: Seq<char>, b: Seq<char>)
    ensures
        lex_le(a, b) || lex_le(b, a),
    decreases a.len(),
{
    if a.len() > 0 && b.len() > 0 && (a[0] as u32) == (b[0] as u32) {
        lemma_lex_total(a.drop_first(), b.drop_first());
    }
}

/// The order of text is transitive.
pub proof fn lemma_lex_transitive(a: Seq<char>, b: Seq<char>, c: Seq<char>)
    requires
        lex_le(a, b),
        lex_le(b, c),
    ensures
        lex_le(a, c),
    decreases a.len(),
{
    if a.len() > 0 && b.len() > 0 && c.len() > 0 && (a[0] as u32) == (b[0] as u32) && (b[0] as u32) == (c[0] as u32) {
        lemma_lex_transitive(a.drop_first(), b.drop_first(), c.drop_first());
    }
}

/// Compares two texts (see `lex_le`).
pub fn str_le(a: &str, b: &str) -> (r: bool)
    ensures
        r == lex_le(a@, b@),
{
    let n = a.unicode_len();
    let m = b.unicode_len();
    let mut i: usize = 0;
    proof {
        assert(a@.skip(0) =~= a@);
        assert(b@.skip(0) =~= b@);
    }
    while i < n && i < m
        invariant
            i <= n,
            i <= m,
            n == a@.len(),
            m == b@.len(),
            lex_le(a@, b@) == lex_le(a@.skip(i as int), b@.skip(i as int)),
        decreases n - i,
    {
        let x = a.get_char(i);
        let y = b.get_char(i);
        proof {
            assert(a@.skip(i as int)[0] == x);
            assert(b@.skip(i as int)[0] == y);
            assert(a@.skip(i as int).drop_first() =~= a@.skip(i + 1));
            assert(b@.skip(i as int).drop_first() =~= b@.skip(i + 1));
        }
        if (x as u32) < (y as u32) {
            return true;
        }
        if (x as u32) > (y as u32) {
            return false;
        }
        i = i + 1;
    }
    i == n
}

} // verus!
