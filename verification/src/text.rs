//! Text building for the example services: decimal rendering of integers
//! and the bracketed, comma-separated rendering of a byte list.

use vstd::prelude::*;
use vstd::string::StringExecFns;

verus! {

/// Relies on `String::push`: appends exactly the one character.
pub assume_specification[ String::push ](s: &mut String, ch: char)
    ensures
        final(s)@ == old(s)@.push(ch),
;

/// The decimal digit character of a value below ten.
pub open spec fn dec_digit(d: int) -> char {
    (48 + d) as char
}

/// The decimal rendering of a non-negative integer, most significant digit
/// first, no leading zeroes.
pub open spec fn dec_rep(n: int) -> Seq<char>
    recommends
        n >= 0,
    decreases n,
{
    if n < 10 {
        seq![dec_digit(n)]
    } else {
        dec_rep(n / 10).push(dec_digit(n % 10))
    }
}

/// The comma-separated decimal renderings of the bytes.
pub open spec fn byte_list_inner(s: Seq<u8>) -> Seq<char>
    decreases s.len(),
{
    if s.len() == 0 {
        Seq::<char>::empty()
    } else if s.len() == 1 {
        dec_rep(s[0] as int)
    } else {
        dec_rep(s[0] as int) + ", "@ + byte_list_inner(s.drop_first())
    }
}

/// The rendering of a byte list: its elements in decimal, comma-separated,
/// in brackets.
pub open spec fn byte_list_rep(s: Seq<u8>) -> Seq<char> {
    "["@ + byte_list_inner(s) + "]"@
}

/// The digit character of a value below ten.
fn dec_digit_exec(d: u64) -> (r: char)
    requires
        d < 10,
    ensures
        r == dec_digit(d as int),
{
    proof {
        assert((48 + d) as u8 == 48 + d) by (bit_vector)
            requires
                d < 10,
        ;
    }
    (48 + d) as u8 as char
}

/// The decimal rendering of an unsigned value.
pub fn u64_to_string(n: u64) -> (r: String)
    ensures
        r@ == dec_rep(n as int),
    decreases n,
{
    if n < 10 {
        let mut s = String::new();
        s.push(dec_digit_exec(n));
        proof {
            assert(s@ =~= dec_rep(n as int));
        }
        s
    } else {
        let mut s = u64_to_string(n / 10);
        s.push(dec_digit_exec(n % 10));
        s
    }
}

/// Extending the list by one byte extends its inner rendering by a
/// separator (past the first element) and the byte's decimal digits.
pub proof fn lemma_byte_list_inner_push(s: Seq<u8>, x: u8)
    ensures
        byte_list_inner(s.push(x)) == if s.len() == 0 {
            dec_rep(x as int)
        } else {
            byte_list_inner(s) + ", "@ + dec_rep(x as int)
        },
    decreases s.len(),
{
    let t = s.push(x);
    if s.len() == 0 {
        assert(t =~= seq![x]);
    } else {
        assert(t.drop_first() =~= s.drop_first().push(x));
        lemma_byte_list_inner_push(s.drop_first(), x);
        if s.len() == 1 {
            assert(byte_list_inner(t) =~= byte_list_inner(s) + ", "@ + dec_rep(x as int));
        } else {
            assert(byte_list_inner(t) =~= byte_list_inner(s) + ", "@ + dec_rep(x as int));
        }
    }
}

/// The rendering of a byte list, as `byte_list_rep` describes it.
pub fn byte_list_string(v: &Vec<u8>) -> (r: String)
    ensures
        r@ == byte_list_rep(v@),
{
    let mut s = String::from_str("[");
    let mut i: usize = 0;
    while i < v.len()
        invariant
            i <= v@.len(),
            s@ == "["@ + byte_list_inner(v@.subrange(0, i as int)),
        decreases v@.len() - i,
    {
        if i > 0 {
            s.append(", ");
        }
        let digits = u64_to_string(v[i] as u64);
        s.append(digits.as_str());
        proof {
            let prefix = v@.subrange(0, i as int);
            lemma_byte_list_inner_push(prefix, v@[i as int]);
            assert(prefix.push(v@[i as int]) =~= v@.subrange(0, i as int + 1));
            if i == 0 {
                assert(s@ =~= "["@ + byte_list_inner(v@.subrange(0, i as int + 1)));
            } else {
                assert(s@ =~= "["@ + byte_list_inner(v@.subrange(0, i as int + 1)));
            }
        }
        i = i + 1;
    }
    s.append("]");
    proof {
        assert(v@.subrange(0, v@.len() as int) =~= v@);
        assert(s@ =~= byte_list_rep(v@));
    }
    s
}

} // verus!
