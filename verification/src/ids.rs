//! The two-way mapping between event ids and filenames.
//!
//! The on-disk filename of an event is exactly the decimal string
//! form of its 128-bit id.  Both id generation and file access depend
//! on this mapping being consistent, so it is implemented as two
//! explicit functions, [`id_to_name`] and [`name_to_id`], proved
//! inverse to each other.

use vstd::prelude::*;

verus! {

use vstd::arithmetic::div_mod::lemma_fundamental_div_mod;
use vstd::utf8::char_u32_cast;

/// The character for the decimal digit `d`.
pub open spec fn digit_char(d: nat) -> char
    recommends
        d < 10,
{
    ((48 + d) as u32) as char
}

/// The decimal representation of `n`: most significant digit first,
/// no sign, no leading zeros.
pub open spec fn dec_of(n: nat) -> Seq<char>
    decreases n,
{
    if n < 10 {
        seq![digit_char(n)]
    } else {
        dec_of(n / 10).push(digit_char(n % 10))
    }
}

/// True of the characters `'0'` through `'9'`.
pub open spec fn is_digit(c: char) -> bool {
    48 <= c as u32 <= 57
}

/// The numeric value of a digit character.
pub open spec fn digit_val(c: char) -> nat
    recommends
        is_digit(c),
{
    (c as u32 - 48) as nat
}

/// True when every character of `s` is a decimal digit.
pub open spec fn all_digits(s: Seq<char>) -> bool {
    forall|i: int| 0 <= i < s.len() ==> is_digit(#[trigger] s[i])
}

/// The number that the digit string `s` denotes.
pub open spec fn dec_val(s: Seq<char>) -> nat
    recommends
        all_digits(s),
    decreases s.len(),
{
    if s.len() == 0 {
        0
    } else {
        dec_val(s.drop_last()) * 10 + digit_val(s.last())
    }
}

/// What parsing a filename as a decimal 128-bit id yields: the value,
/// when the name is a non-empty string of digits denoting a number
/// that fits in 128 bits, and nothing otherwise.
pub open spec fn parse_dec(s: Seq<char>) -> Option<u128> {
    if s.len() > 0 && all_digits(s) && dec_val(s) <= u128::MAX {
        Some(dec_val(s) as u128)
    } else {
        None
    }
}

/// Relies on `String::push`: appends the given character to the end
/// of the string.
#[verifier::external_body]
fn push_char(s: &mut String, c: char)
    ensures
        final(s)@ == old(s)@.push(c),
{
    s.push(c)
}

/// The on-disk filename for an event id: exactly the decimal string
/// form of the id.
pub fn id_to_name(id: u128) -> (s: String)
    ensures
        s@ == dec_of(id as nat),
    decreases id,
{
    let d: u8 = (id % 10) as u8;
    let c: char = (48 + d) as char;
    proof {
        char_u32_cast(c, (48 + d) as u32);
        assert(c == digit_char((id % 10) as nat));
    }
    if id < 10 {
        let mut s = String::new();
        push_char(&mut s, c);
        proof {
            assert(s@ =~= dec_of(id as nat));
        }
        s
    } else {
        let mut s = id_to_name(id / 10);
        push_char(&mut s, c);
        proof {
            assert(s@ =~= dec_of(id as nat));
        }
        s
    }
}

proof fn lemma_dec_val_take_succ(s: Seq<char>, i: int)
    requires
        0 <= i < s.len(),
    ensures
        dec_val(s.take(i + 1)) == dec_val(s.take(i)) * 10 + digit_val(s[i]),
{
    assert(s.take(i + 1).drop_last() =~= s.take(i));
    assert(s.take(i + 1).last() == s[i]);
}

proof fn lemma_dec_val_take_le(s: Seq<char>, i: int)
    requires
        0 <= i <= s.len(),
    ensures
        dec_val(s.take(i)) <= dec_val(s),
    decreases s.len() - i,
{
    if i == s.len() {
        assert(s.take(i) =~= s);
    } else {
        lemma_dec_val_take_succ(s, i);
        lemma_dec_val_take_le(s, i + 1);
    }
}

/// Parses a filename as a decimal event id: the inverse of
/// [`id_to_name`].  A name that is not a pure string of decimal
/// digits, or denotes a number too large for 128 bits, yields `None`.
pub fn name_to_id(name: &str) -> (r: Option<u128>)
    ensures
        r == parse_dec(name@),
{
    let n = name.unicode_len();
    if n == 0 {
        return None;
    }
    let mut acc: u128 = 0;
    let mut i: usize = 0;
    while i < n
        invariant
            0 < n == name@.len(),
            0 <= i <= n,
            all_digits(name@.take(i as int)),
            acc == dec_val(name@.take(i as int)),
        decreases n - i,
    {
        let c = name.get_char(i);
        let u = c as u32;
        if u < 48 || u > 57 {
            proof {
                assert(!is_digit(name@[i as int]));
            }
            return None;
        }
        let d = (u - 48) as u128;
        proof {
            lemma_dec_val_take_succ(name@, i as int);
            assert forall|j: int| 0 <= j < i as int + 1 implies is_digit(
                #[trigger] name@.take(i as int + 1)[j],
            ) by {
                if j < i as int {
                    assert(name@.take(i as int)[j] == name@[j]);
                }
            }
        }
        if acc > u128::MAX / 10 || (acc == u128::MAX / 10 && d > u128::MAX % 10) {
            proof {
                assert(dec_val(name@.take(i as int + 1)) > u128::MAX);
                lemma_dec_val_take_le(name@, i as int + 1);
            }
            return None;
        }
        acc = acc * 10 + d;
        i = i + 1;
    }
    proof {
        assert(name@.take(n as int) =~= name@);
    }
    Some(acc)
}

/// Every decimal representation is a non-empty digit string denoting
/// the number it was built from.
pub proof fn lemma_dec_of_val(n: nat)
    ensures
        dec_of(n).len() >= 1,
        all_digits(dec_of(n)),
        dec_val(dec_of(n)) == n,
    decreases n,
{
    if n < 10 {
        let s = seq![digit_char(n)];
        assert(is_digit(digit_char(n)));
        assert(s.drop_last() =~= Seq::<char>::empty());
        assert(digit_val(digit_char(n)) == n);
        assert(s.last() == digit_char(n));
        assert(dec_val(s) == dec_val(s.drop_last()) * 10 + digit_val(s.last()));
        assert(dec_val(s.drop_last()) == 0);
        assert(dec_val(dec_of(n)) == n);
    } else {
        lemma_dec_of_val(n / 10);
        lemma_fundamental_div_mod(n as int, 10);
        let s = dec_of(n / 10).push(digit_char(n % 10));
        assert(s.drop_last() =~= dec_of(n / 10));
        assert(s.last() == digit_char(n % 10));
        assert(is_digit(digit_char(n % 10)));
        assert(digit_val(digit_char(n % 10)) == n % 10);
        assert forall|i: int| 0 <= i < s.len() implies is_digit(#[trigger] s[i]) by {
            if i < s.len() - 1 {
                assert(s[i] == dec_of(n / 10)[i]);
            }
        }
        assert(dec_val(s) == dec_val(s.drop_last()) * 10 + digit_val(s.last()));
        assert(dec_val(s.drop_last()) == n / 10);
        assert(dec_val(s) == (n / 10) * 10 + n % 10);
        assert(dec_val(dec_of(n)) == n);
    }
}

/// The filename mapping is two-way: parsing the decimal name of an
/// id yields exactly that id back.
pub proof fn lemma_id_round_trip(id: u128)
    ensures
        parse_dec(dec_of(id as nat)) == Some(id),
{
    lemma_dec_of_val(id as nat);
}

} // verus!
