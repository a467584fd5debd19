//! Small text utilities shared by the models and the crawler.
use vstd::prelude::*;

verus! {

/// The lower-case form of a string, as the standard library computes it.
pub uninterp spec fn lowercase_of(s: Seq<char>) -> Seq<char>;

/// The upper-case form of a string, as the standard library computes it.
pub uninterp spec fn uppercase_of(s: Seq<char>) -> Seq<char>;

/// Relies on `str::to_lowercase`: the result depends on the characters alone.
#[verifier::external_body]
pub(crate) fn lowercase(s: &str) -> (r: String)
    ensures
        r@ == lowercase_of(s@),
        s@.len() == 0 ==> r@.len() == 0,
{
    s.to_lowercase()
}

/// Relies on `str::to_uppercase`: the result depends on the characters alone.
#[verifier::external_body]
pub(crate) fn uppercase(s: &str) -> (r: String)
    ensures
        r@ == uppercase_of(s@),
        s@.len() == 0 ==> r@.len() == 0,
{
    s.to_uppercase()
}

/// Whether two string slices hold the same characters.
pub fn str_eq(a: &str, b: &str) -> (r: bool)
    ensures
        r == (a@ == b@),
{
    let x = a.to_owned();
    let y = b.to_owned();
    x == y
}

/// The ASCII digit for a value below ten.
pub open spec fn digit_char(d: nat) -> char
    recommends
        d < 10,
{
    (('0' as u8) + (d as u8)) as char
}

/// The decimal representation of a natural number, without leading zeros.
pub open spec fn decimal(n: nat) -> Seq<char>
    decreases n,
{
    if n < 10 {
        seq![digit_char(n)]
    } else {
        decimal(n / 10).push(digit_char(n % 10))
    }
}

/// The one-character text of an ASCII digit.
fn digit_text(c: char) -> (t: &'static str)
    requires
        '0' <= c <= '9',
    ensures
        t@ == seq![c],
{
    proof {
        reveal_strlit("0");
        reveal_strlit("1");
        reveal_strlit("2");
        reveal_strlit("3");
        reveal_strlit("4");
        reveal_strlit("5");
        reveal_strlit("6");
        reveal_strlit("7");
        reveal_strlit("8");
        reveal_strlit("9");
    }
    match c {
        '0' => "0",
        '1' => "1",
        '2' => "2",
        '3' => "3",
        '4' => "4",
        '5' => "5",
        '6' => "6",
        '7' => "7",
        '8' => "8",
        _ => "9",
    }
}

/// Appends an ASCII digit to `s`.
fn push_digit(s: &mut String, c: char)
    requires
        '0' <= c <= '9',
    ensures
        final(s)@ == old(s)@.push(c),
{
    let t = digit_text(c);
    s.append(t);
    proof {
        assert(old(s)@ + seq![c] =~= old(s)@.push(c));
    }
}

/// Writes `n` in decimal.
pub fn to_decimal(n: u64) -> (r: String)
    ensures
        r@ == decimal(n as nat),
{
    let mut digits: Vec<char> = Vec::new();
    let mut m: u64 = n;
    // digits are collected least significant first
    while m >= 10
        invariant
            decimal(n as nat) == decimal(m as nat) + reversed(digits@),
            forall|k: int| 0 <= k < digits@.len() ==> '0' <= #[trigger] digits@[k] <= '9',
        decreases m,
    {
        let d: u64 = m % 10;
        let c = (('0' as u8) + (d as u8)) as char;
        proof {
            assert(c == digit_char(d as nat));
            assert(decimal(m as nat) == decimal((m / 10) as nat).push(c));
            assert(reversed(digits@.push(c)) =~= seq![c] + reversed(digits@)) by {
                lemma_reversed_push(digits@, c);
            }
            assert(decimal(m as nat) + reversed(digits@) =~= decimal((m / 10) as nat) + (seq![c]
                + reversed(digits@)));
        }
        digits.push(c);
        m = m / 10;
    }
    let last = (('0' as u8) + (m as u8)) as char;
    let mut out = String::new();
    push_digit(&mut out, last);
    let mut i: usize = digits.len();
    proof {
        assert(last == digit_char(m as nat));
        assert(decimal(m as nat) =~= seq![last]);
        assert(digits@.subrange(0, i as int) =~= digits@);
        assert(out@ =~= seq![last]);
    }
    while i > 0
        invariant
            i <= digits.len(),
            decimal(n as nat) == out@ + reversed(digits@.subrange(0, i as int)),
            forall|k: int| 0 <= k < digits@.len() ==> '0' <= #[trigger] digits@[k] <= '9',
        decreases i,
    {
        let c = digits[i - 1];
        proof {
            let pre = digits@.subrange(0, i - 1);
            assert(digits@.subrange(0, i as int) =~= pre.push(c));
            lemma_reversed_push(pre, c);
            assert(out@ + reversed(pre.push(c)) =~= out@.push(c) + reversed(pre));
        }
        push_digit(&mut out, c);
        i = i - 1;
    }
    proof {
        assert(reversed(digits@.subrange(0, 0)) =~= Seq::<char>::empty());
        assert(out@ + Seq::<char>::empty() =~= out@);
    }
    out
}

/// A sequence in reverse order.
pub open spec fn reversed<A>(s: Seq<A>) -> Seq<A>
    decreases s.len(),
{
    if s.len() == 0 {
        s
    } else {
        seq![s.last()] + reversed(s.drop_last())
    }
}

proof fn lemma_reversed_push<A>(s: Seq<A>, x: A)
    ensures
        reversed(s.push(x)) == seq![x] + reversed(s),
{
    assert(s.push(x).drop_last() =~= s);
}

} // verus!
