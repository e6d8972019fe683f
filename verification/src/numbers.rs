use vstd::prelude::*;

verus! {

// Decimal strings.
//
// Slot identities ("guid" fields) are decimal strings of unsigned 64-bit
// numbers, and backup file names carry a decimal timestamp, so the library
// needs exact specifications of decimal formatting and parsing.

/// `c` is one of '0' ..= '9'.
pub open spec fn is_dec_digit(c: char) -> bool {
    48 <= (c as u32) && (c as u32) <= 57
}

/// Numeric value of a decimal digit.
pub open spec fn digit_val(c: char) -> nat
    recommends
        is_dec_digit(c),
{
    ((c as u32) - 48) as nat
}

/// The digit character for `d` in 0 ..= 9.
pub open spec fn digit_char(d: nat) -> char
    recommends
        d < 10,
{
    ((48 + d) as u8) as char
}

/// Every character of `s` is a decimal digit.
pub open spec fn all_dec_digits(s: Seq<char>) -> bool {
    forall|i: int| 0 <= i < s.len() ==> is_dec_digit(s[i])
}

/// The canonical decimal representation of `n`: no sign, no leading
/// zeros, and "0" for zero.
pub open spec fn dec_str(n: nat) -> Seq<char>
    decreases n,
{
    if n < 10 {
        seq![digit_char(n)]
    } else {
        dec_str(n / 10).push(digit_char(n % 10))
    }
}

/// The number denoted by a sequence of decimal digits (most significant
/// first); 0 for the empty sequence.
pub open spec fn dec_val(s: Seq<char>) -> nat
    recommends
        all_dec_digits(s),
    decreases s.len(),
{
    if s.len() == 0 {
        0
    } else {
        dec_val(s.drop_last()) * 10 + digit_val(s.last())
    }
}

/// `s` denotes an unsigned 64-bit number: nonempty, all digits, in range.
pub open spec fn valid_u64_digits(s: Seq<char>) -> bool {
    &&& s.len() > 0
    &&& all_dec_digits(s)
    &&& dec_val(s) <= u64::MAX
}

/// The canonical decimal string of `n` is nonempty, consists of digits,
/// and denotes `n` itself.
pub proof fn lemma_dec_str_props(n: nat)
    ensures
        dec_str(n).len() > 0,
        all_dec_digits(dec_str(n)),
        dec_val(dec_str(n)) == n,
    decreases n,
{
    if n < 10 {
        assert(dec_str(n) =~= seq![digit_char(n)]);
        assert((((48 + n) as u8) as char) as u32 == 48 + n);
        assert(is_dec_digit(digit_char(n)));
        let sg = seq![digit_char(n)];
        assert(sg.drop_last() =~= Seq::<char>::empty());
        assert(dec_val(sg.drop_last()) == 0);
        assert(sg.last() == digit_char(n));
        assert(dec_val(sg) == digit_val(digit_char(n)));
        assert(digit_val(digit_char(n)) == n);
    } else {
        lemma_dec_str_props(n / 10);
        let s = dec_str(n);
        let p = dec_str(n / 10);
        assert(s == p.push(digit_char(n % 10)));
        assert(s.drop_last() =~= p);
        assert(s.last() == digit_char(n % 10));
        assert((((48 + (n % 10)) as u8) as char) as u32 == 48 + (n % 10));
        assert(is_dec_digit(digit_char(n % 10)) && digit_val(digit_char(n % 10)) == n % 10);
        assert(forall|i: int| 0 <= i < s.len() ==> is_dec_digit(s[i])) by {
            assert(forall|i: int| 0 <= i < p.len() ==> s[i] == p[i]);
        }
        assert(dec_val(s) == dec_val(p) * 10 + digit_val(s.last()));
        assert(dec_val(p) * 10 + n % 10 == n) by (nonlinear_arith)
            requires dec_val(p) == n / 10
        ;
    }
}

/// Two numbers with the same canonical decimal string are equal.
pub proof fn lemma_dec_str_injective(a: nat, b: nat)
    requires
        dec_str(a) == dec_str(b),
    ensures
        a == b,
{
    lemma_dec_str_props(a);
    lemma_dec_str_props(b);
}

/// Appending digits at the end never decreases the denoted value.
pub proof fn lemma_dec_val_prefix_le(s: Seq<char>, j: int)
    requires
        0 <= j <= s.len(),
    ensures
        dec_val(s.take(j)) <= dec_val(s),
    decreases s.len() - j,
{
    if j == s.len() {
        assert(s.take(j) =~= s);
    } else {
        lemma_dec_val_prefix_le(s, j + 1);
        let t = s.take(j + 1);
        assert(t.drop_last() =~= s.take(j));
        assert(dec_val(t) == dec_val(s.take(j)) * 10 + digit_val(t.last()));
        assert(dec_val(s.take(j)) * 10 >= dec_val(s.take(j))) by (nonlinear_arith);
    }
}

/// The digit character of `d` as a one-character string slice.
fn digit_str(d: u64) -> (r: &'static str)
    requires
        d < 10,
    ensures
        r@ =~= seq![digit_char(d as nat)],
{
    proof {
        reveal_strlit("0");
        reveal_strlit("1");
        reveal_strlit("2");
        reveal_strlit("3");
        reveal_strlit("4");
        reveal_strlit("5");
        reveal_strlit("6");
        reveal_strlit("7");
        reveal_strlit("8");
        reveal_strlit("9");
        assert((((48 + (d as nat)) as u8) as char) as u32 == 48 + (d as nat));
        assert((digit_char(d as nat) as u32) == 48 + (d as nat));
    }
    match d {
        0 => "0",
        1 => "1",
        2 => "2",
        3 => "3",
        4 => "4",
        5 => "5",
        6 => "6",
        7 => "7",
        8 => "8",
        _ => "9",
    }
}

/// Formats `n` as its canonical decimal string.
pub fn u64_to_string(n: u64) -> (r: String)
    ensures
        r@ == dec_str(n as nat),
    decreases n,
{
    if n < 10 {
        let r = digit_str(n).to_owned();
        r
    } else {
        let prefix = u64_to_string(n / 10);
        let r = prefix.concat(digit_str(n % 10));
        proof {
            assert(r@ =~= dec_str((n / 10) as nat).push(digit_char((n % 10) as nat)));
        }
        r
    }
}

/// Parses a decimal string as an unsigned 64-bit number. Returns the
/// denoted value exactly when the string is nonempty, all digits, and the
/// value fits; `None` otherwise.
pub fn parse_u64(s: &str) -> (r: Option<u64>)
    ensures
        r matches Some(v) ==> valid_u64_digits(s@) && v as nat == dec_val(s@),
        r is None ==> !valid_u64_digits(s@),
{
    let n = s.unicode_len();
    if n == 0 {
        return None;
    }
    let mut acc: u64 = 0;
    let mut i: usize = 0;
    while i < n
        invariant
            0 <= i <= n,
            n == s@.len(),
            n > 0,
            all_dec_digits(s@.take(i as int)),
            acc as nat == dec_val(s@.take(i as int)),
        decreases n - i,
    {
        let c = s.get_char(i);
        let v = c as u32;
        if v < 48 || v > 57 {
            assert(!is_dec_digit(s@[i as int]));
            return None;
        }
        let d = (v - 48) as u64;
        assert(is_dec_digit(s@[i as int]) && digit_val(s@[i as int]) == d);
        if acc > (u64::MAX - d) / 10 {
            proof {
                let t = s@.take(i + 1);
                assert(t.drop_last() =~= s@.take(i as int));
                assert(t.last() == s@[i as int]);
                assert(dec_val(t) == acc * 10 + d);
                assert(acc * 10 + d > u64::MAX) by (nonlinear_arith)
                    requires acc > (u64::MAX - d) / 10, d <= 9,
                ;
                lemma_dec_val_prefix_le(s@, i + 1);
            }
            return None;
        }
        proof {
            let t = s@.take(i + 1);
            assert(t.drop_last() =~= s@.take(i as int));
            assert(t.last() == s@[i as int]);
            assert(acc * 10 + d <= u64::MAX) by (nonlinear_arith)
                requires acc <= (u64::MAX - d) / 10, d <= 9,
            ;
            assert(forall|k: int| 0 <= k < t.len() ==> is_dec_digit(t[k]));
        }
        acc = acc * 10 + d;
        i = i + 1;
    }
    proof {
        assert(s@.take(n as int) =~= s@);
    }
    Some(acc)
}

/// Round trip: formatting an unsigned 64-bit number and parsing the result
/// gives the number back.
pub proof fn lemma_decimal_round_trip(n: u64)
    ensures
        valid_u64_digits(dec_str(n as nat)),
        dec_val(dec_str(n as nat)) == n,
{
    lemma_dec_str_props(n as nat);
}

} // verus!
