//! Who the tool acts for: whether it runs as root, and the uid of the user
//! who invoked it, even after a `sudo`.

use vstd::prelude::*;

use crate::text::{chars_of, decimal, digit_char};

verus! {

/// The variable in which the original (pre-sudo) uid is handed to the
/// re-executed process.
pub open spec fn orig_uid_var() -> Seq<char> {
    "MUZZLE_ORIG_UID"@
}

pub fn orig_uid_var_name() -> (r: &'static str)
    ensures
        r@ == orig_uid_var(),
{
    "MUZZLE_ORIG_UID"
}

/// True where the effective uid is root's.
pub fn is_root(euid: u32) -> (r: bool)
    ensures
        r == (euid == 0),
{
    euid == 0
}

pub open spec fn is_digit(c: char) -> bool {
    '0' <= c && c <= '9'
}

/// The value of a digit character.
pub open spec fn digit_value(c: char) -> nat {
    ((c as u32) - ('0' as u32)) as nat
}

/// The number a string of decimal digits stands for.
pub open spec fn digits_value(s: Seq<char>) -> nat
    decreases s.len(),
{
    if s.len() == 0 {
        0
    } else {
        digits_value(s.drop_last()) * 10 + digit_value(s.last())
    }
}

/// The text after an optional leading `+`.
pub open spec fn unsigned_part(s: Seq<char>) -> Seq<char> {
    if s.len() > 0 && s[0] == '+' {
        s.drop_first()
    } else {
        s
    }
}

/// Every character is an ASCII digit.
pub open spec fn all_digits(d: Seq<char>) -> bool {
    forall|i: int| 0 <= i < d.len() ==> is_digit(#[trigger] d[i])
}

/// What `str::parse::<u32>` makes of a string: an optional `+`, then one or
/// more ASCII digits, with a value that fits in 32 bits.
pub open spec fn parsed_u32(s: Seq<char>) -> Option<u32> {
    let d = unsigned_part(s);
    if d.len() > 0 && all_digits(d) && digits_value(d) <= u32::MAX {
        Some(digits_value(d) as u32)
    } else {
        None
    }
}

proof fn lemma_digits_value_grows(s: Seq<char>, i: int)
    requires
        0 <= i <= s.len(),
        forall|j: int| 0 <= j < s.len() ==> is_digit(#[trigger] s[j]),
    ensures
        digits_value(s.take(i)) <= digits_value(s),
    decreases s.len() - i,
{
    if i < s.len() {
        lemma_digits_value_grows(s, i + 1);
        assert(s.take(i + 1).drop_last() =~= s.take(i));
    } else {
        assert(s.take(i) =~= s);
    }
}

/// Parse a uid the way `str::parse::<u32>` does.
pub fn parse_uid(s: &str) -> (r: Option<u32>)
    ensures
        r == parsed_u32(s@),
{
    let v = chars_of(s);
    let n = v.len();
    let start: usize = if n > 0 && v[0] == '+' {
        1
    } else {
        0
    };
    let ghost d = v@.skip(start as int);
    assert(d =~= unsigned_part(s@));
    if start == n {
        return None;
    }
    let mut acc: u64 = 0;
    let mut i: usize = start;
    while i < n
        invariant
            n == v@.len(),
            v@ == s@,
            start <= i <= n,
            d == v@.skip(start as int),
            d == unsigned_part(s@),
            d.len() > 0,
            forall|j: int| start <= j < i ==> is_digit(#[trigger] v@[j]),
            acc == digits_value(d.take(i - start)),
            acc <= u32::MAX,
        decreases n - i,
    {
        let c = v[i];
        if !('0' <= c && c <= '9') {
            assert(!is_digit(d[i - start]));
            return None;
        }
        let digit = (c as u32 - '0' as u32) as u64;
        proof {
            assert(d.take(i - start + 1).drop_last() =~= d.take(i - start));
            assert(d.take(i - start + 1).last() == c);
        }
        acc = acc * 10 + digit;
        i = i + 1;
        if acc > 4294967295 {
            proof {
                if all_digits(d) {
                    lemma_digits_value_grows(d, i - start);
                }
            }
            return None;
        }
    }
    assert(d.take(n - start) =~= d);
    Some(acc as u32)
}

/// The uid of the user who invoked the tool: the one it handed itself
/// across a `sudo` (`orig`), else the one `sudo` recorded (`sudo_uid`),
/// else its own effective uid. A value that does not parse as a uid is
/// passed over.
pub fn original_uid(orig: Option<&str>, sudo_uid: Option<&str>, euid: u32) -> (r: u32)
    ensures
        r == match (match orig {
            Some(s) => parsed_u32(s@),
            None => None,
        }) {
            Some(u) => u,
            None => match (match sudo_uid {
                Some(s) => parsed_u32(s@),
                None => None,
            }) {
                Some(u) => u,
                None => euid,
            },
        },
{
    if let Some(s) = orig {
        if let Some(u) = parse_uid(s) {
            return u;
        }
    }
    if let Some(s) = sudo_uid {
        if let Some(u) = parse_uid(s) {
            return u;
        }
    }
    euid
}

/// The decimal notation of `n` is all digits and stands for `n`.
proof fn lemma_decimal_value(n: nat)
    ensures
        decimal(n).len() > 0,
        all_digits(decimal(n)),
        digits_value(decimal(n)) == n,
    decreases n,
{
    let d = n % 10;
    assert(is_digit(digit_char(d)) && digit_value(digit_char(d)) == d) by {
        assert(d < 10);
    }
    if n >= 10 {
        lemma_decimal_value(n / 10);
        let s = decimal(n);
        assert(s.drop_last() =~= decimal(n / 10));
        assert(s.last() == digit_char(d));
        assert forall|i: int| 0 <= i < s.len() implies is_digit(#[trigger] s[i]) by {
            if i < s.len() - 1 {
                assert(s[i] == decimal(n / 10)[i]);
            }
        }
        assert(n == (n / 10) * 10 + d);
        assert(digits_value(s) == digits_value(decimal(n / 10)) * 10 + d);
    } else {
        let s = decimal(n);
        assert(s == seq![digit_char(n)]);
        assert(s.drop_last() =~= Seq::<char>::empty());
        assert(digits_value(s.drop_last()) == 0);
        assert(d == n);
        assert(digits_value(s) == digits_value(s.drop_last()) * 10 + digit_value(s.last()));
    }
}

/// Every uid written in decimal, with or without a leading `+`, parses
/// back to itself.
pub proof fn law_uid_round_trip(n: u32)
    ensures
        parsed_u32(decimal(n as nat)) == Some(n),
        parsed_u32(seq!['+'] + decimal(n as nat)) == Some(n),
{
    let d = decimal(n as nat);
    lemma_decimal_value(n as nat);
    assert(d[0] != '+') by {
        assert(is_digit(d[0]));
    }
    assert((seq!['+'] + d).drop_first() =~= d);
}

/// A text parses as a uid only where, past an optional leading `+`, it is
/// made of digits alone: one character that is not a digit, anywhere in
/// it, makes it no uid; so does an empty text or a lone `+`.
pub proof fn law_non_digit_rejected(a: Seq<char>, c: char, b: Seq<char>)
    requires
        !('0' <= c && c <= '9'),
        a.len() > 0 || c != '+',
    ensures
        parsed_u32(a + seq![c] + b) is None,
        parsed_u32(Seq::<char>::empty()) is None,
        parsed_u32(seq!['+']) is None,
{
    let s = a + seq![c] + b;
    let d = unsigned_part(s);
    if a.len() > 0 && s[0] == '+' {
        assert(d[a.len() - 1] == s[a.len() as int]);
        assert(!is_digit(d[a.len() - 1]));
    } else {
        if a.len() == 0 {
            assert(s[0] == c);
        }
        assert(d == s);
        assert(!is_digit(d[a.len() as int]));
    }
    assert(seq!['+'].drop_first() =~= Seq::<char>::empty());
}

/// A number too large for a uid does not parse, however it is written.
pub proof fn law_uid_overflow_rejected(n: nat)
    requires
        n > u32::MAX,
    ensures
        parsed_u32(decimal(n)) is None,
        parsed_u32(seq!['+'] + decimal(n)) is None,
{
    let d = decimal(n);
    lemma_decimal_value(n);
    assert(d[0] != '+') by {
        assert(is_digit(d[0]));
    }
    assert((seq!['+'] + d).drop_first() =~= d);
}

} // verus!
