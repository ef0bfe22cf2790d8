//! Decimal text for integers.
//!
//! The wire codec and the audio command-line builders both need exact decimal
//! renderings.  `dec_digits` and `int_text` are the specification; the
//! executable functions here are proved to produce and consume exactly that
//! text.
use vstd::prelude::*;

verus! {

/// The character for decimal digit `d`.
pub open spec fn digit_char(d: nat) -> char
    recommends
        d < 10,
{
    ((48 + d) as u8) as char
}

/// Whether `c` is a decimal digit character.
pub open spec fn is_digit(c: char) -> bool {
    48 <= c as u32 <= 57
}

/// The value of a decimal digit character.
pub open spec fn digit_val(c: char) -> nat
    recommends
        is_digit(c),
{
    (c as u32 - 48) as nat
}

/// The decimal digits of `n`, most significant first, without leading zeros.
pub open spec fn dec_digits(n: nat) -> Seq<char>
    decreases n,
{
    if n < 10 {
        seq![digit_char(n)]
    } else {
        dec_digits(n / 10).push(digit_char(n % 10))
    }
}

/// The decimal text of `i`: a minus sign before the digits when `i` is negative.
pub open spec fn int_text(i: int) -> Seq<char> {
    if i < 0 {
        seq!['-'] + dec_digits((-i) as nat)
    } else {
        dec_digits(i as nat)
    }
}

/// The value of digit text, most significant first.
pub open spec fn digits_val(s: Seq<char>) -> nat
    decreases s.len(),
{
    if s.len() == 0 {
        0
    } else {
        digits_val(s.drop_last()) * 10 + digit_val(s.last())
    }
}

/// Whether every character of `s` is a decimal digit.
pub open spec fn all_digits(s: Seq<char>) -> bool {
    forall|i: int| 0 <= i < s.len() ==> is_digit(#[trigger] s[i])
}

/// Whether `s` is the canonical digit text of some natural number:
/// nonempty, all digits, and no leading zero (except for `0` itself).
pub open spec fn canonical_digits(s: Seq<char>) -> bool {
    &&& s.len() > 0
    &&& all_digits(s)
    &&& (s.len() > 1 ==> s[0] != '0')
}

/// `dec_digits(n)` is canonical digit text and evaluates back to `n`.
pub proof fn lemma_dec_digits(n: nat)
    ensures
        canonical_digits(dec_digits(n)),
        digits_val(dec_digits(n)) == n,
        dec_digits(n)[0] == '0' <==> n == 0,
    decreases n,
{
    if n < 10 {
        assert(dec_digits(n) == seq![digit_char(n)]);
        assert(dec_digits(n).drop_last() == Seq::<char>::empty());
        assert(digit_val(digit_char(n)) == n);
        assert(is_digit(digit_char(n)));
        assert(digits_val(Seq::<char>::empty()) == 0);
        assert(digits_val(dec_digits(n)) == digits_val(dec_digits(n).drop_last()) * 10
            + digit_val(dec_digits(n).last()));
        if n > 0 {
            assert(digit_char(n) as u32 != 48);
            assert(dec_digits(n)[0] != '0') by {
                if dec_digits(n)[0] == '0' {
                    assert('0' as u32 == 48);
                }
            }
        }
    } else {
        lemma_dec_digits(n / 10);
        let s = dec_digits(n);
        assert(s == dec_digits(n / 10).push(digit_char(n % 10)));
        assert(s.drop_last() == dec_digits(n / 10));
        assert(s.last() == digit_char(n % 10));
        assert(n == (n / 10) * 10 + n % 10);
        assert(digits_val(s) == n);
        assert(s[0] == dec_digits(n / 10)[0]);
        assert(digit_val(digit_char(n % 10)) == n % 10);
        assert(is_digit(digit_char(n % 10)));
        assert forall|i: int| 0 <= i < s.len() implies is_digit(#[trigger] s[i]) by {
            if i < s.len() - 1 {
                assert(s[i] == dec_digits(n / 10)[i]);
            }
        }
    }
}

/// Appending digits never shrinks the value.
pub proof fn lemma_digits_val_prefix(s: Seq<char>, i: int)
    requires
        0 <= i <= s.len(),
    ensures
        digits_val(s.take(i)) <= digits_val(s),
    decreases s.len() - i,
{
    if i < s.len() {
        lemma_digits_val_prefix(s, i + 1);
        let t = s.take(i + 1);
        assert(t.drop_last() =~= s.take(i));
        assert(digits_val(t) == digits_val(s.take(i)) * 10 + digit_val(t.last()));
        assert(digits_val(s.take(i)) * 10 >= digits_val(s.take(i)));
    } else {
        assert(s.take(i) =~= s);
    }
}

/// Appends the decimal digits of `n` to `out`.
pub fn push_dec_digits(n: u64, out: &mut String)
    ensures
        final(out)@ == old(out)@ + dec_digits(n as nat),
    decreases n,
{
    if n >= 10 {
        push_dec_digits(n / 10, out);
    }
    let d: u8 = (n % 10) as u8;
    let c: char = (48 + d) as char;
    assert(c == digit_char((n % 10) as nat));
    out.push(c);
    proof {
        if n < 10 {
            assert(dec_digits(n as nat) == seq![digit_char(n as nat)]);
            assert(out@ =~= old(out)@ + dec_digits(n as nat));
        } else {
            assert(out@ =~= old(out)@ + dec_digits(n as nat));
        }
    }
}

/// The decimal rendering of `n`.
pub fn u64_to_string(n: u64) -> (s: String)
    ensures
        s@ == dec_digits(n as nat),
{
    let mut s = String::new();
    push_dec_digits(n, &mut s);
    proof {
        assert(s@ =~= dec_digits(n as nat));
    }
    s
}

/// The decimal rendering of `i`, with a minus sign when negative.
pub fn i64_to_string(i: i64) -> (s: String)
    ensures
        s@ == int_text(i as int),
{
    if i >= 0 {
        u64_to_string(i as u64)
    } else {
        let mag: u64 = (-(i as i128)) as u64;
        let mut s = String::new();
        s.push('-');
        push_dec_digits(mag, &mut s);
        proof {
            assert(s@ =~= int_text(i as int));
        }
        s
    }
}

/// Reads canonical digit text back as a number: returns `Some(n)` exactly
/// when `s` is `dec_digits(n)` for some `n` that fits in a `u64`.
pub fn digits_to_u64(s: &str) -> (r: Option<u64>)
    ensures
        match r {
            Some(n) => s@ == dec_digits(n as nat),
            None => forall|n: u64| s@ != dec_digits(n as nat),
        },
{
    let st = s;
    let len = st.unicode_len();
    if len == 0 {
        proof {
            assert forall|n: u64| s@ != dec_digits(n as nat) by {
                lemma_dec_digits(n as nat);
            }
        }
        return None;
    }
    let first = st.get_char(0);
    if len > 1 && first == '0' {
        proof {
            assert forall|n: u64| s@ != dec_digits(n as nat) by {
                lemma_dec_digits(n as nat);
            }
        }
        return None;
    }
    let mut acc: u64 = 0;
    let mut i: usize = 0;
    while i < len
        invariant
            0 <= i <= len,
            len == s@.len(),
            st@ == s@,
            len >= 1,
            len > 1 ==> s@[0] != '0',
            all_digits(s@.take(i as int)),
            acc as nat == digits_val(s@.take(i as int)),
            i > 0 ==> s@.take(i as int) == dec_digits(acc as nat),
        decreases len - i,
    {
        let c = st.get_char(i);
        let cu = c as u32;
        if cu < 48 || cu > 57 {
            proof {
                assert(!is_digit(s@[i as int]));
                assert forall|n: u64| s@ != dec_digits(n as nat) by {
                    lemma_dec_digits(n as nat);
                }
            }
            return None;
        }
        let d: u64 = cu as u64 - 48;
        proof {
            let t = s@.take(i as int + 1);
            assert(t.drop_last() =~= s@.take(i as int));
            assert(t.last() == c);
            assert(is_digit(c));
            assert(digit_val(c) == d as nat);
            assert(digits_val(t) == acc as nat * 10 + d as nat);
            assert forall|j: int| 0 <= j < t.len() implies is_digit(#[trigger] t[j]) by {
                if j < i as int {
                    assert(t[j] == s@.take(i as int)[j]);
                }
            }
        }
        if acc > (u64::MAX - d) / 10 {
            proof {
                assert(acc as nat * 10 + d as nat > u64::MAX as nat) by (nonlinear_arith)
                    requires
                        acc as nat > ((u64::MAX - d) / 10) as nat,
                        d <= 9,
                ;
                lemma_digits_val_prefix(s@, i as int + 1);
                assert forall|n: u64| s@ != dec_digits(n as nat) by {
                    lemma_dec_digits(n as nat);
                }
            }
            return None;
        }
        proof {
            assert(acc * 10 + d <= u64::MAX) by (nonlinear_arith)
                requires
                    acc <= (u64::MAX - d) / 10,
                    d <= 9,
            ;
            // The character read back from its digit value: `c` is an
            // executable value, so its codepoint round-trips.
            assert(((cu as u8) as char) == c);
            assert(digit_char(d as nat) == c);
            let t = s@.take(i as int + 1);
            if i == 0 {
                assert(dec_digits(d as nat) == seq![digit_char(d as nat)]);
                assert(t =~= dec_digits((acc * 10 + d) as nat));
            } else {
                assert(s@.take(i as int)[0] == s@[0]);
                lemma_dec_digits(acc as nat);
                assert(acc != 0) by {
                    if acc == 0 {
                        assert(dec_digits(acc as nat)[0] == '0');
                    }
                }
                let n: nat = acc as nat * 10 + d as nat;
                assert(n / 10 == acc as nat && n % 10 == d as nat) by (nonlinear_arith)
                    requires
                        n == acc as nat * 10 + d as nat,
                        d < 10,
                ;
                assert(n >= 10);
                assert(dec_digits(n) == dec_digits(n / 10).push(digit_char(n % 10)));
                assert(t =~= dec_digits(n));
            }
        }
        acc = acc * 10 + d;
        i = i + 1;
    }
    proof {
        assert(s@.take(len as int) =~= s@);
    }
    Some(acc)
}

/// Two integers with the same decimal text are equal.
pub proof fn lemma_int_text_injective(a: int, b: int)
    requires
        int_text(a) == int_text(b),
    ensures
        a == b,
{
    lemma_dec_digits_first_is_digit(a);
    lemma_dec_digits_first_is_digit(b);
    if a < 0 && b < 0 {
        let x = dec_digits((-a) as nat);
        let y = dec_digits((-b) as nat);
        assert((seq!['-'] + x).len() == (seq!['-'] + y).len());
        assert(x =~= y) by {
            assert forall|j: int| 0 <= j < x.len() implies x[j] == y[j] by {
                assert((seq!['-'] + x)[j + 1] == x[j]);
                assert((seq!['-'] + y)[j + 1] == y[j]);
            }
        }
        lemma_dec_digits((-a) as nat);
        lemma_dec_digits((-b) as nat);
        assert(digits_val(x) == digits_val(y));
    } else if a >= 0 && b >= 0 {
        lemma_dec_digits(a as nat);
        lemma_dec_digits(b as nat);
        assert(digits_val(dec_digits(a as nat)) == digits_val(dec_digits(b as nat)));
    }
}

/// The first character of `int_text` tells negative from nonnegative:
/// a minus sign is not a digit.
pub proof fn lemma_dec_digits_first_is_digit(i: int)
    ensures
        int_text(i).len() >= 1,
        i >= 0 ==> is_digit(int_text(i)[0]),
        i < 0 ==> int_text(i)[0] == '-' && !is_digit('-') && int_text(i).len() >= 2,
        i < 0 ==> int_text(i).subrange(1, int_text(i).len() as int) == dec_digits((-i) as nat),
{
    if i < 0 {
        lemma_dec_digits((-i) as nat);
        assert(('-' as u32) == 45);
        assert(int_text(i)[0] == '-');
        assert(int_text(i).subrange(1, int_text(i).len() as int) =~= dec_digits((-i) as nat));
    } else {
        lemma_dec_digits(i as nat);
        assert(is_digit(dec_digits(i as nat)[0]));
    }
}

/// The integer whose decimal text is `s`, if there is one.
pub open spec fn parse_int_text(s: Seq<char>) -> Option<int> {
    if exists|i: int| s == int_text(i) {
        Some(choose|i: int| s == int_text(i))
    } else {
        None
    }
}

/// `parse_int_text` recovers exactly the rendered integer.
pub proof fn lemma_parse_int_text(i: int)
    ensures
        parse_int_text(int_text(i)) == Some(i),
{
    assert(int_text(i) == int_text(i));
    let j = choose|j: int| int_text(i) == int_text(j);
    lemma_int_text_injective(i, j);
}

/// Reads signed decimal text: returns `Some(i)` exactly when `s` is
/// `int_text(i)` for an `i` that fits in an `i64`.
pub fn parse_int_str(s: &str) -> (r: Option<i64>)
    ensures
        match r {
            Some(i) => s@ == int_text(i as int),
            None => forall|i: i64| s@ != int_text(i as int),
        },
{
    let len = s.unicode_len();
    if len == 0 {
        proof {
            assert forall|i: i64| s@ != int_text(i as int) by {
                lemma_dec_digits_first_is_digit(i as int);
            }
        }
        return None;
    }
    let first = s.get_char(0);
    if first == '-' {
        if len == 1 {
            proof {
                assert forall|i: i64| s@ != int_text(i as int) by {
                    lemma_dec_digits_first_is_digit(i as int);
                }
            }
            return None;
        }
        let rest = s.substring_char(1, len);
        proof {
            assert(s@ =~= seq!['-'] + rest@);
        }
        match digits_to_u64(rest) {
            Some(mag) => {
                proof {
                    lemma_dec_digits(mag as nat);
                }
                if mag == 0 {
                    proof {
                        assert forall|i: i64| s@ != int_text(i as int) by {
                            lemma_dec_digits_first_is_digit(i as int);
                            if i < 0 && s@ == int_text(i as int) {
                                assert(rest@ == dec_digits((-i) as nat)) by {
                                    assert(rest@ =~= s@.subrange(1, s@.len() as int));
                                }
                                lemma_dec_digits((-i) as nat);
                                assert(digits_val(rest@) == (-i) as nat);
                            }
                        }
                    }
                    None
                } else if mag > 9223372036854775808u64 {
                    proof {
                        assert forall|i: i64| s@ != int_text(i as int) by {
                            lemma_dec_digits_first_is_digit(i as int);
                            if i < 0 && s@ == int_text(i as int) {
                                assert(rest@ == dec_digits((-i) as nat)) by {
                                    assert(rest@ =~= s@.subrange(1, s@.len() as int));
                                }
                                lemma_dec_digits((-i) as nat);
                                assert(digits_val(rest@) == (-i) as nat);
                            }
                        }
                    }
                    None
                } else if mag == 9223372036854775808u64 {
                    proof {
                        assert(s@ =~= int_text(i64::MIN as int));
                    }
                    Some(i64::MIN)
                } else {
                    let i: i64 = -(mag as i64);
                    proof {
                        assert(s@ =~= int_text(i as int));
                    }
                    Some(i)
                }
            },
            None => {
                proof {
                    assert forall|i: i64| s@ != int_text(i as int) by {
                        lemma_dec_digits_first_is_digit(i as int);
                        if i < 0 && s@ == int_text(i as int) {
                            assert(rest@ == dec_digits((-i) as nat)) by {
                                assert(rest@ =~= s@.subrange(1, s@.len() as int));
                            }
                            assert((-i) as nat <= u64::MAX as nat);
                            assert(rest@ != dec_digits(((-i) as u64) as nat));
                        }
                    }
                }
                None
            },
        }
    } else {
        match digits_to_u64(s) {
            Some(n) => {
                if n > 9223372036854775807u64 {
                    proof {
                        lemma_dec_digits(n as nat);
                        assert forall|i: i64| s@ != int_text(i as int) by {
                            lemma_dec_digits_first_is_digit(i as int);
                            if i >= 0 && s@ == int_text(i as int) {
                                lemma_dec_digits(i as nat);
                                assert(digits_val(s@) == i as nat);
                            }
                        }
                    }
                    None
                } else {
                    Some(n as i64)
                }
            },
            None => {
                proof {
                    assert forall|i: i64| s@ != int_text(i as int) by {
                        lemma_dec_digits_first_is_digit(i as int);
                        if i >= 0 && s@ == int_text(i as int) {
                            assert(s@ != dec_digits((i as u64) as nat));
                        }
                    }
                }
                None
            },
        }
    }
}

} // verus!
