//! Character-level scanning shared by the JSON and XML decoders.
//!
//! Both decoders work over a `Vec<char>` holding the document text, with
//! spec-level scanning functions over the corresponding `Seq<char>` and
//! executable counterparts proved to compute exactly the spec values.

use vstd::prelude::*;
use vstd::string::StrSliceExecFns;

verus! {

/// Relies on String::push: appends exactly the one given character.
#[verifier::external_body]
pub fn push_char(s: &mut String, c: char)
    ensures
        final(s)@ == old(s)@.push(c),
{
    s.push(c);
}

/// Relies on char::from_u32: `Some` exactly for valid code points (everything
/// up to 0x10FFFF except the surrogate range), returning the char with that
/// code.
#[verifier::external_body]
pub fn char_from_u32(u: u32) -> (r: Option<char>)
    ensures
        r is Some <==> (u < 0xD800 || (0xE000 <= u && u <= 0x10FFFF)),
        r matches Some(c) ==> c as u32 == u,
{
    char::from_u32(u)
}

/// The characters of `s`, in order, as a vector.
pub fn chars_of(s: &str) -> (r: Vec<char>)
    ensures
        r@ == s@,
{
    let n = s.unicode_len();
    let mut v: Vec<char> = Vec::new();
    let mut i: usize = 0;
    while i < n
        invariant
            i <= n,
            n == s@.len(),
            v@ == s@.subrange(0, i as int),
        decreases n - i,
    {
        let c = s.get_char(i);
        v.push(c);
        i = i + 1;
        proof {
            assert(v@ =~= s@.subrange(0, i as int));
        }
    }
    proof {
        assert(v@ =~= s@);
    }
    v
}

/// A `String` holding exactly the characters of `v`, in order.
pub fn string_of(v: &Vec<char>) -> (r: String)
    ensures
        r@ == v@,
{
    let mut s = String::new();
    let mut i: usize = 0;
    while i < v.len()
        invariant
            i <= v@.len(),
            s@ == v@.subrange(0, i as int),
        decreases v@.len() - i,
    {
        push_char(&mut s, v[i]);
        i = i + 1;
        proof {
            assert(s@ =~= v@.subrange(0, i as int));
        }
    }
    proof {
        assert(s@ =~= v@);
    }
    s
}

/// Whether `v` holds exactly the characters of `lit`.
pub fn chars_eq(v: &Vec<char>, lit: &str) -> (r: bool)
    ensures
        r == (v@ == lit@),
{
    let n = lit.unicode_len();
    if v.len() != n {
        proof {
            if v@ == lit@ {
                assert(v@.len() == lit@.len());
            }
        }
        return false;
    }
    let mut i: usize = 0;
    while i < n
        invariant
            i <= n,
            n == lit@.len(),
            v@.len() == n,
            forall|j: int| 0 <= j < i ==> v@[j] == lit@[j],
        decreases n - i,
    {
        if v[i] != lit.get_char(i) {
            return false;
        }
        i = i + 1;
    }
    proof {
        assert(v@ =~= lit@);
    }
    true
}

/// Whitespace as both document grammars treat it.
pub open spec fn is_ws(c: char) -> bool {
    c == ' ' || c == '\t' || c == '\n' || c == '\r'
}

/// The first position at or after `i` holding a non-whitespace character
/// (or the end of the text).
pub open spec fn spec_skip_ws(s: Seq<char>, i: int) -> int
    decreases s.len() - i,
{
    if 0 <= i < s.len() && is_ws(s[i]) {
        spec_skip_ws(s, i + 1)
    } else {
        i
    }
}

/// Executable whitespace test.
pub fn ws_char(c: char) -> (r: bool)
    ensures
        r == is_ws(c),
{
    c == ' ' || c == '\t' || c == '\n' || c == '\r'
}

/// Advances past whitespace, computing exactly [`spec_skip_ws`].
pub fn skip_ws(s: &Vec<char>, i: usize) -> (r: usize)
    requires
        i <= s@.len(),
    ensures
        r == spec_skip_ws(s@, i as int),
        i <= r <= s@.len(),
{
    let mut j = i;
    while j < s.len() && ws_char(s[j])
        invariant
            i <= j <= s@.len(),
            spec_skip_ws(s@, i as int) == spec_skip_ws(s@, j as int),
        decreases s@.len() - j,
    {
        j = j + 1;
    }
    j
}

/// Decimal digit test.
pub open spec fn is_digit(c: char) -> bool {
    48 <= c as u32 <= 57
}

/// The numeric value of a decimal digit.
pub open spec fn digit_val(c: char) -> int {
    c as u32 - 48
}

/// Executable decimal digit test.
pub fn digit_char(c: char) -> (r: bool)
    ensures
        r == is_digit(c),
{
    let u = c as u32;
    48 <= u && u <= 57
}

/// Hexadecimal digit test.
pub open spec fn is_hex_digit(c: char) -> bool {
    (48 <= c as u32 <= 57) || (97 <= c as u32 <= 102) || (65 <= c as u32 <= 70)
}

/// The numeric value of a hexadecimal digit.
pub open spec fn hex_val(c: char) -> int {
    if 48 <= c as u32 <= 57 {
        c as u32 - 48
    } else if 97 <= c as u32 <= 102 {
        c as u32 - 87
    } else {
        c as u32 - 55
    }
}

/// Executable hexadecimal digit test.
pub fn hex_digit_char(c: char) -> (r: bool)
    ensures
        r == is_hex_digit(c),
{
    let u = c as u32;
    (48 <= u && u <= 57) || (97 <= u && u <= 102) || (65 <= u && u <= 70)
}

/// Executable hexadecimal digit value.
pub fn hex_digit_val(c: char) -> (r: u32)
    requires
        is_hex_digit(c),
    ensures
        r == hex_val(c),
        r < 16,
{
    let u = c as u32;
    if 48 <= u && u <= 57 {
        u - 48
    } else if 97 <= u && u <= 102 {
        u - 87
    } else {
        u - 55
    }
}

/// The decimal value of a digit string, if every character is a digit and
/// the value fits in a `u64`.
pub open spec fn spec_u64_of(s: Seq<char>) -> Option<u64>
    decreases s.len(),
{
    if s.len() == 0 {
        None
    } else if s.len() == 1 {
        if is_digit(s[0]) {
            Some(digit_val(s[0]) as u64)
        } else {
            None
        }
    } else {
        match spec_u64_of(s.drop_last()) {
            None => None,
            Some(hi) => {
                if is_digit(s.last()) && hi * 10 + digit_val(s.last()) <= u64::MAX {
                    Some((hi * 10 + digit_val(s.last())) as u64)
                } else {
                    None
                }
            },
        }
    }
}

/// Parses an unsigned decimal number, computing exactly [`spec_u64_of`].
pub fn u64_of_chars(s: &Vec<char>) -> (r: Option<u64>)
    ensures
        r == spec_u64_of(s@),
{
    if s.len() == 0 {
        return None;
    }
    let mut acc: u64 = 0;
    let mut i: usize = 0;
    while i < s.len()
        invariant
            0 < s@.len(),
            i <= s@.len(),
            i > 0 ==> spec_u64_of(s@.subrange(0, i as int)) == Some(acc),
            i == 0 ==> acc == 0,
        decreases s@.len() - i,
    {
        let c = s[i];
        if !digit_char(c) {
            proof {
                lemma_u64_of_bad_digit(s@, i as int);
            }
            return None;
        }
        let d = (c as u32) - 48;
        if i == 0 {
            acc = d as u64;
            proof {
                assert(s@.subrange(0, 1) =~= seq![s@[0]]);
            }
        } else {
            if acc > (u64::MAX - d as u64) / 10 {
                proof {
                    lemma_u64_of_overflow(s@, i as int, acc, d as u64);
                }
                return None;
            }
            acc = acc * 10 + d as u64;
            proof {
                assert(s@.subrange(0, i + 1).drop_last() =~= s@.subrange(0, i as int));
                assert(s@.subrange(0, i + 1).last() == s@[i as int]);
            }
        }
        i = i + 1;
    }
    proof {
        assert(s@.subrange(0, s@.len() as int) =~= s@);
    }
    Some(acc)
}

/// A digit string with a non-digit anywhere in it has no value.
proof fn lemma_u64_of_bad_digit(s: Seq<char>, i: int)
    requires
        0 <= i < s.len(),
        !is_digit(s[i]),
    ensures
        spec_u64_of(s) is None,
    decreases s.len(),
{
    if s.len() > 1 {
        if i < s.len() - 1 {
            lemma_u64_of_bad_digit(s.drop_last(), i);
        }
    }
}

/// Once the accumulated value would exceed `u64::MAX`, the whole string has
/// no value.
proof fn lemma_u64_of_overflow(s: Seq<char>, i: int, acc: u64, d: u64)
    requires
        0 < i < s.len(),
        spec_u64_of(s.subrange(0, i)) == Some(acc),
        is_digit(s[i]),
        d == digit_val(s[i]),
        acc * 10 + d > u64::MAX,
    ensures
        spec_u64_of(s) is None,
    decreases s.len() - i,
{
    if i == s.len() - 1 {
        assert(s.subrange(0, i) =~= s.drop_last());
    } else {
        assert(spec_u64_of(s.subrange(0, i + 1)) is None) by {
            assert(s.subrange(0, i + 1).drop_last() =~= s.subrange(0, i));
            assert(s.subrange(0, i + 1).last() == s[i]);
        }
        lemma_u64_of_none_extends(s, i + 1);
    }
}

/// A prefix with no value never gains one by adding characters.
proof fn lemma_u64_of_none_extends(s: Seq<char>, i: int)
    requires
        0 < i <= s.len(),
        spec_u64_of(s.subrange(0, i)) is None,
    ensures
        spec_u64_of(s) is None,
    decreases s.len() - i,
{
    if i == s.len() {
        assert(s.subrange(0, i) =~= s);
    } else {
        assert(spec_u64_of(s.subrange(0, i + 1)) is None) by {
            assert(s.subrange(0, i + 1).drop_last() =~= s.subrange(0, i));
        }
        lemma_u64_of_none_extends(s, i + 1);
    }
}

} // verus!
