use vstd::prelude::*;
use vstd::string::StringExecFns;

verus! {

/// The character of the decimal digit `d`.
pub open spec fn digit_char(d: int) -> char {
    seq!['0', '1', '2', '3', '4', '5', '6', '7', '8', '9'][d]
}

/// Decimal digits of `n`, most significant first, without leading zeros.
pub open spec fn digits(n: nat) -> Seq<char>
    decreases n,
{
    if n < 10 {
        seq![digit_char(n as int)]
    } else {
        digits(n / 10).push(digit_char((n % 10) as int))
    }
}

/// `n` written in decimal, with a leading `-` when negative.
pub open spec fn decimal(n: int) -> Seq<char> {
    if n < 0 {
        seq!['-'] + digits((-n) as nat)
    } else {
        digits(n as nat)
    }
}

/// The elements of `s` in decimal, separated by `", "`.
pub open spec fn joined(s: Seq<i64>) -> Seq<char>
    decreases s.len(),
{
    if s.len() == 0 {
        Seq::empty()
    } else if s.len() == 1 {
        decimal(s[0] as int)
    } else {
        joined(s.drop_last()) + seq![',', ' '] + decimal(s.last() as int)
    }
}

/// Relies on `ToString::to_string` through `i64`'s `Display`: the value in
/// decimal, `-` first when negative, no leading zeros.
#[verifier::external_body]
fn decimal_string(n: i64) -> (r: String)
    ensures
        r@ == decimal(n as int),
{
    n.to_string()
}

/// Appends the elements of `s` in decimal, separated by `", "`.
pub fn push_joined(out: &mut String, s: &Vec<i64>)
    ensures
        final(out)@ == old(out)@ + joined(s@),
{
    let ghost start = old(out)@;
    let mut i: usize = 0;
    while i < s.len()
        invariant
            i <= s@.len(),
            out@ == start + joined(s@.take(i as int)),
        decreases s@.len() - i,
    {
        proof {
            reveal_strlit(", ");
            assert(s@.take(i + 1).drop_last() =~= s@.take(i as int));
        }
        if i > 0 {
            out.append(", ");
        }
        let d = decimal_string(s[i]);
        out.append(d.as_str());
        proof {
            if i == 0 {
                assert(joined(s@.take(0)) =~= Seq::<char>::empty());
            }
            assert(out@ =~= start + joined(s@.take(i + 1)));
        }
        i += 1;
    }
    proof {
        assert(s@.take(i as int) =~= s@);
    }
}

} // verus!
