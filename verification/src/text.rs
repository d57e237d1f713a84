//! String building for the report: characters, decimal numbers, padded
//! columns.

use vstd::prelude::*;

verus! {

/// Relies on `String::push`: appends the one character to the string.
#[verifier::external_body]
pub(crate) fn push_char(s: &mut String, c: char)
    ensures
        final(s)@ == old(s)@.push(c),
{
    s.push(c);
}

/// The decimal rendering of `n`: its digits, most significant first.
pub open spec fn dec_chars(n: int) -> Seq<char>
    recommends
        n >= 0,
    decreases n,
{
    if n < 10 {
        seq![(n % 10 + 48) as char]
    } else {
        dec_chars(n / 10).push((n % 10 + 48) as char)
    }
}

/// The decimal digits held in `d`, least significant first, rendered most
/// significant first.
pub open spec fn rev_chars(d: Seq<u8>) -> Seq<char>
    decreases d.len(),
{
    if d.len() == 0 {
        Seq::empty()
    } else {
        seq![d.last() as char] + rev_chars(d.drop_last())
    }
}

/// Appends the decimal rendering of `n`.
pub fn push_decimal(s: &mut String, n: usize)
    ensures
        final(s)@ == old(s)@ + dec_chars(n as int),
{
    let mut digits: Vec<u8> = Vec::new();
    let mut cur: usize = n;
    while cur >= 10
        invariant
            dec_chars(n as int) =~= dec_chars(cur as int) + rev_chars(digits@),
        decreases cur,
    {
        let ghost dbefore = digits@;
        let d: u8 = (cur % 10) as u8;
        digits.push(d + 48);
        proof {
            assert(digits@.last() == d + 48);
            assert(digits@.drop_last() =~= dbefore);
            assert(dec_chars(cur as int) == dec_chars(cur as int / 10).push(
                (cur as int % 10 + 48) as char,
            ));
            assert(dec_chars(cur as int / 10) + rev_chars(digits@) =~= dec_chars(cur as int)
                + rev_chars(dbefore));
        }
        cur = cur / 10;
    }
    push_char(s, ((cur % 10) as u8 + 48) as char);
    proof {
        assert(s@ =~= old(s)@ + seq![(cur as int % 10 + 48) as char]);
    }
    while digits.len() > 0
        invariant
            old(s)@ + dec_chars(n as int) =~= s@ + rev_chars(digits@),
        decreases digits@.len(),
    {
        let ghost before = digits@;
        let c = match digits.pop() {
            Some(c) => c,
            None => 0,
        };
        push_char(s, c as char);
        proof {
            assert(rev_chars(before) == seq![c as char] + rev_chars(digits@));
        }
    }
}

/// `n` spaces.
pub open spec fn spaces(n: int) -> Seq<char> {
    Seq::new(
        if n >= 0 {
            n as nat
        } else {
            0
        },
        |i: int| ' ',
    )
}

/// `s` padded on the right with spaces to width `w`; a longer string stays
/// as it is.
pub open spec fn pad_to(s: Seq<char>, w: int) -> Seq<char> {
    s + spaces(w - s.len())
}

/// Appends `text` padded on the right with spaces to width `w`.
pub fn push_padded(s: &mut String, text: &str, w: usize)
    ensures
        final(s)@ == old(s)@ + pad_to(text@, w as int),
{
    s.append(text);
    let len = text.unicode_len();
    let mut k: usize = len;
    while k < w
        invariant
            len == text@.len(),
            len <= k,
            k <= w || k == len,
            s@ =~= old(s)@ + text@ + spaces(k - len),
        decreases w - k,
    {
        push_char(s, ' ');
        proof {
            assert(s@ =~= old(s)@ + text@ + spaces(k + 1 - len));
        }
        k += 1;
    }
    proof {
        assert(s@ =~= old(s)@ + pad_to(text@, w as int));
    }
}

} // verus!
