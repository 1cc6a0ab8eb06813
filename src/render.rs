//! Text layout of one list line: truncation to a width, padding, byte counts.
use vstd::prelude::*;
use vstd::string::*;
use crate::term::{cjk_width, utf8_char_len, utf8_len, width_cjk};

verus! {

/// Length of the prefix of `s` grown one character at a time, from `k`, while
/// its display width plus one stays below `x`.
pub open spec fn fit_len(s: Seq<char>, x: nat, k: nat) -> nat
    decreases s.len() - k,
{
    if k < s.len() && cjk_width(s.take(k as int)) + 1 < x {
        fit_len(s, x, k + 1)
    } else {
        k
    }
}

/// `s` cut to fit in `x` columns with one to spare.
pub open spec fn sized_text(s: Seq<char>, x: nat) -> Seq<char> {
    s.take(fit_len(s, x, 0) as int)
}

/// `n` spaces.
pub open spec fn spaces(n: nat) -> Seq<char> {
    Seq::new(n, |i: int| ' ')
}

/// `s` padded with spaces to at least `n` characters.
pub open spec fn padded(s: Seq<char>, n: nat) -> Seq<char> {
    if s.len() < n {
        s + spaces((n - s.len()) as nat)
    } else {
        s
    }
}

/// `a - b`, or zero where `b` is larger.
pub open spec fn sat_sub(a: nat, b: nat) -> nat {
    if a >= b {
        (a - b) as nat
    } else {
        0
    }
}

/// `s` cut to fit in `x` columns with one to spare.
pub fn sized_string(s: &str, x: u16) -> (r: String)
    ensures
        r@ == sized_text(s@, x as nat),
{
    let n = s.unicode_len();
    let mut k: usize = 0;
    while k < n && width_cjk(s.substring_char(0, k)) < (x as usize).saturating_sub(1)
        invariant
            n == s@.len(),
            k <= n,
            fit_len(s@, x as nat, 0) == fit_len(s@, x as nat, k as nat),
        decreases n - k,
    {
        assert(s@.subrange(0, k as int) =~= s@.take(k as int));
        k = k + 1;
    }
    assert(s@.subrange(0, k as int) =~= s@.take(k as int));
    String::from_str(s.substring_char(0, k))
}

/// Appends spaces to `s` until it holds at least `n` characters.
pub fn pad(s: &mut String, n: usize)
    ensures
        final(s)@ == padded(old(s)@, n as nat),
{
    let len = s.as_str().unicode_len();
    if len >= n {
        return;
    }
    let mut i: usize = len;
    while i < n
        invariant
            len <= i <= n,
            len == old(s)@.len(),
            s@ == old(s)@ + spaces((i - len) as nat),
        decreases n - i,
    {
        proof {
            reveal_strlit(" ");
        }
        s.append(" ");
        assert(s@ =~= old(s)@ + spaces((i + 1 - len) as nat));
        i = i + 1;
    }
}

/// Number of bytes that `s` takes in UTF-8.
pub fn byte_len(s: &str) -> (r: u128)
    ensures
        r as nat == utf8_len(s@),
        r <= 4 * (usize::MAX as u128),
{
    let n = s.unicode_len();
    let mut total: u128 = 0;
    let mut i: usize = 0;
    while i < n
        invariant
            n == s@.len(),
            i <= n,
            total as nat == utf8_len(s@.take(i as int)),
            total <= 4 * i,
            i <= usize::MAX,
        decreases n - i,
    {
        let c = s.get_char(i);
        let v = c as u32;
        let w: u128 = if v < 0x80 {
            1
        } else if v < 0x800 {
            2
        } else if v < 0x10000 {
            3
        } else {
            4
        };
        assert(s@.take(i as int + 1).drop_last() =~= s@.take(i as int));
        total = total + w;
        i = i + 1;
    }
    assert(s@.take(n as int) =~= s@);
    total
}

} // verus!
