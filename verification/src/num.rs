//! Decimal rendering and reading of the numbers that appear in rendered
//! lines, in the storage text, and in command arguments.

use vstd::prelude::*;

verus! {

/// Appends one character to a string.
///
/// Relies on String::push, which appends the given char to the end of the
/// string.
pub assume_specification[ String::push ](s: &mut String, c: char)
    ensures
        final(s)@ == old(s)@.push(c),
;

pub open spec fn is_digit(c: char) -> bool {
    48 <= c as int <= 57
}

pub open spec fn digit_val(c: char) -> int {
    c as int - 48
}

pub open spec fn digit_char(d: int) -> char {
    if d == 0 {
        '0'
    } else if d == 1 {
        '1'
    } else if d == 2 {
        '2'
    } else if d == 3 {
        '3'
    } else if d == 4 {
        '4'
    } else if d == 5 {
        '5'
    } else if d == 6 {
        '6'
    } else if d == 7 {
        '7'
    } else if d == 8 {
        '8'
    } else {
        '9'
    }
}

/// The decimal digits of `n`, most significant first.
pub open spec fn enc_nat(n: nat) -> Seq<char>
    decreases n,
{
    if n < 10 {
        seq![digit_char(n as int)]
    } else {
        enc_nat(n / 10).push(digit_char((n % 10) as int))
    }
}

/// The value of a sequence of digit characters, read in the usual way.
pub open spec fn digits_val(s: Seq<char>) -> int
    decreases s.len(),
{
    if s.len() == 0 {
        0
    } else {
        digits_val(s.drop_last()) * 10 + digit_val(s.last())
    }
}

/// How many digit characters stand at the front of `s`.
pub open spec fn digit_prefix_len(s: Seq<char>) -> int
    decreases s.len(),
{
    if s.len() > 0 && is_digit(s[0]) {
        1 + digit_prefix_len(s.skip(1))
    } else {
        0
    }
}

/// Reading a number from the front of `s`: the digit prefix, which must not
/// be empty, gives the value; what follows it is handed back.
pub open spec fn p_num(s: Seq<char>) -> Option<(int, Seq<char>)> {
    let k = digit_prefix_len(s);
    if k == 0 {
        None
    } else {
        Some((digits_val(s.take(k)), s.skip(k)))
    }
}

/// A whole token as a number: defined exactly when the token is non-empty
/// and all digits.
pub open spec fn token_num(s: Seq<char>) -> Option<int> {
    if s.len() > 0 && digit_prefix_len(s) == s.len() {
        Some(digits_val(s))
    } else {
        None
    }
}

proof fn lemma_digit_char_val(d: int)
    requires
        0 <= d < 10,
    ensures
        is_digit(digit_char(d)),
        digit_val(digit_char(d)) == d,
{
}

/// Every character of an encoded number is a digit, and there is at least one.
pub proof fn lemma_enc_nat_digits(n: nat)
    ensures
        enc_nat(n).len() >= 1,
        forall|i: int| 0 <= i < enc_nat(n).len() ==> is_digit(#[trigger] enc_nat(n)[i]),
    decreases n,
{
    if n < 10 {
        lemma_digit_char_val(n as int);
    } else {
        lemma_enc_nat_digits(n / 10);
        lemma_digit_char_val((n % 10) as int);
    }
}

proof fn lemma_digit_prefix_of_concat(a: Seq<char>, rest: Seq<char>)
    requires
        forall|i: int| 0 <= i < a.len() ==> is_digit(#[trigger] a[i]),
        rest.len() == 0 || !is_digit(rest[0]),
    ensures
        digit_prefix_len(a + rest) == a.len(),
    decreases a.len(),
{
    if a.len() == 0 {
        assert(a + rest =~= rest);
    } else {
        assert((a + rest).skip(1) =~= a.skip(1) + rest);
        lemma_digit_prefix_of_concat(a.skip(1), rest);
    }
}

proof fn lemma_digits_val_enc(n: nat)
    ensures
        digits_val(enc_nat(n)) == n,
    decreases n,
{
    lemma_digit_char_val((n % 10) as int);
    if n < 10 {
        assert(enc_nat(n).drop_last() =~= Seq::<char>::empty());
        assert(enc_nat(n).last() == digit_char(n as int));
        assert(digits_val(Seq::<char>::empty()) == 0);
        assert(digits_val(enc_nat(n)) == digits_val(enc_nat(n).drop_last()) * 10 + digit_val(
            enc_nat(n).last(),
        ));
    } else {
        lemma_digits_val_enc(n / 10);
        assert(enc_nat(n).drop_last() =~= enc_nat(n / 10));
        assert(enc_nat(n).last() == digit_char((n % 10) as int));
        assert(digits_val(enc_nat(n)) == digits_val(enc_nat(n / 10)) * 10 + digit_val(
            digit_char((n % 10) as int),
        ));
    }
}

/// Reading an encoded number back, with anything that does not begin with a
/// digit after it, yields the number and hands the rest back unchanged.
pub proof fn lemma_p_num_enc(n: nat, rest: Seq<char>)
    requires
        rest.len() == 0 || !is_digit(rest[0]),
    ensures
        p_num(enc_nat(n) + rest) == Some((n as int, rest)),
{
    lemma_enc_nat_digits(n);
    lemma_digit_prefix_of_concat(enc_nat(n), rest);
    lemma_digits_val_enc(n);
    let s = enc_nat(n) + rest;
    let k = enc_nat(n).len() as int;
    assert(s.take(k) =~= enc_nat(n));
    assert(s.skip(k) =~= rest);
}

/// A longer digit prefix never reads as a smaller value.
proof fn lemma_digits_val_monotone(s: Seq<char>, j: int, k: int)
    requires
        0 <= j <= k <= s.len(),
        forall|i: int| 0 <= i < k ==> is_digit(#[trigger] s[i]),
    ensures
        0 <= digits_val(s.take(j)) <= digits_val(s.take(k)),
    decreases k - j,
{
    if j == k {
        lemma_digits_val_nonneg(s.take(j));
    } else {
        lemma_digits_val_monotone(s, j, k - 1);
        assert(s.take(k).drop_last() =~= s.take(k - 1));
        assert(is_digit(s.take(k).last()));
    }
}

proof fn lemma_digits_val_nonneg(s: Seq<char>)
    requires
        forall|i: int| 0 <= i < s.len() ==> is_digit(#[trigger] s[i]),
    ensures
        digits_val(s) >= 0,
    decreases s.len(),
{
    if s.len() > 0 {
        assert(forall|i: int|
            0 <= i < s.drop_last().len() ==> is_digit(#[trigger] s.drop_last()[i]));
        lemma_digits_val_nonneg(s.drop_last());
    }
}

/// A token that reads as a number reads as a number of at least zero.
pub proof fn lemma_token_num_nonneg(s: Seq<char>)
    ensures
        token_num(s) is Some ==> token_num(s)->0 >= 0,
{
    if token_num(s) is Some {
        lemma_digit_prefix_props(s);
        lemma_digits_val_nonneg(s);
    }
}

fn digit_to_char(d: u32) -> (c: char)
    requires
        d < 10,
    ensures
        c == digit_char(d as int),
{
    match d {
        0 => '0',
        1 => '1',
        2 => '2',
        3 => '3',
        4 => '4',
        5 => '5',
        6 => '6',
        7 => '7',
        8 => '8',
        _ => '9',
    }
}

/// Appends the decimal rendering of `n` to `out`.
pub fn push_u32(out: &mut String, n: u32)
    ensures
        final(out)@ == old(out)@ + enc_nat(n as nat),
    decreases n,
{
    if n < 10 {
        out.push(digit_to_char(n));
        proof {
            assert(out@ =~= old(out)@ + enc_nat(n as nat));
        }
    } else {
        push_u32(out, n / 10);
        out.push(digit_to_char(n % 10));
        proof {
            assert(out@ =~= old(out)@ + enc_nat(n as nat));
        }
    }
}

/// Checks whether a character is a decimal digit.
pub fn is_digit_char(c: char) -> (r: bool)
    ensures
        r == is_digit(c),
{
    let u = c as u32;
    48 <= u && u <= 57
}

/// Reads a number from position `from` of `s`: consumes the digit prefix and
/// reports the value and the position after it. Reports nothing when no digit
/// stands at `from` or the value does not fit.
pub fn scan_u32(s: &str, from: usize) -> (r: Option<(u32, usize)>)
    requires
        from <= s@.len(),
    ensures
        match r {
            Some(v_pos) => {
                &&& from < v_pos.1 <= s@.len()
                &&& p_num(s@.skip(from as int)) == Some(
                    (v_pos.0 as int, s@.skip(v_pos.1 as int)),
                )
            },
            None => match p_num(s@.skip(from as int)) {
                Some(v_rest) => v_rest.0 > u32::MAX,
                None => true,
            },
        },
{
    let ghost sub = s@.skip(from as int);
    let len = s.unicode_len();
    let mut i: usize = from;
    let mut acc: u32 = 0;
    let mut stop = false;
    while !stop && i < len
        invariant
            from <= i <= len,
            len == s@.len(),
            sub == s@.skip(from as int),
            forall|k: int| 0 <= k < i - from ==> is_digit(#[trigger] sub[k]),
            acc == digits_val(sub.take(i - from)),
            i > from || acc == 0,
            stop ==> i < len && !is_digit(sub[i - from]),
        decreases len - i, (if stop { 0int } else { 1int }),
    {
        let c = s.get_char(i);
        proof {
            assert(sub[i - from] == s@[i as int]);
        }
        if !is_digit_char(c) {
            stop = true;
        } else {
            let d = (c as u32) - 48;
            proof {
                assert(is_digit(s@[i as int]));
                assert(d == digit_val(s@[i as int]));
            }
            if acc > (u32::MAX - d) / 10 {
                // The digits seen so far already outgrow the type; the whole
                // prefix can only be larger.
                proof {
                    let k = digit_prefix_len(sub);
                    lemma_digit_prefix_props(sub);
                    if k <= i - from {
                        assert(is_digit(sub[k]));
                        assert(false);
                    }
                    lemma_digits_val_monotone(sub, i - from + 1, k);
                    assert(sub.take(i - from + 1).drop_last() =~= sub.take(i - from));
                    assert(sub.take(i - from + 1).last() == sub[i - from]);
                    assert(digits_val(sub.take(i - from + 1)) == acc * 10 + d);
                    assert(acc * 10 + d > u32::MAX);
                }
                return None;
            }
            acc = acc * 10 + d;
            i = i + 1;
            proof {
                assert(sub.take(i - from).drop_last() =~= sub.take(i - from - 1));
                assert(sub.take(i - from).last() == sub[i - from - 1]);
            }
        }
    }
    if i == from {
        proof {
            assert(sub.len() == 0 || !is_digit(sub[0]));
            assert(digit_prefix_len(sub) == 0);
        }
        return None;
    }
    proof {
        lemma_digit_prefix_exact(sub, i - from);
        assert(sub.skip(i - from) =~= s@.skip(i as int));
    }
    Some((acc, i))
}

/// The digit prefix is as long as the digits reach: every position below it
/// is a digit, and where it stops no digit stands.
proof fn lemma_digit_prefix_props(s: Seq<char>)
    ensures
        0 <= digit_prefix_len(s) <= s.len(),
        forall|i: int| 0 <= i < digit_prefix_len(s) ==> is_digit(#[trigger] s[i]),
        digit_prefix_len(s) < s.len() ==> !is_digit(s[digit_prefix_len(s)]),
    decreases s.len(),
{
    if s.len() > 0 && is_digit(s[0]) {
        lemma_digit_prefix_props(s.skip(1));
        assert forall|i: int| 0 <= i < digit_prefix_len(s) implies is_digit(#[trigger] s[i]) by {
            if i > 0 {
                assert(is_digit(s.skip(1)[i - 1]));
            }
        };
    }
}

/// When digits fill exactly the first `k` positions and stop there, the digit
/// prefix has length `k`.
proof fn lemma_digit_prefix_exact(s: Seq<char>, k: int)
    requires
        0 <= k <= s.len(),
        forall|i: int| 0 <= i < k ==> is_digit(#[trigger] s[i]),
        k == s.len() || !is_digit(s[k]),
    ensures
        digit_prefix_len(s) == k,
    decreases k,
{
    if k == 0 {
    } else {
        assert(forall|i: int| 0 <= i < k - 1 ==> is_digit(#[trigger] s.skip(1)[i]));
        lemma_digit_prefix_exact(s.skip(1), k - 1);
    }
}

/// Reads a whole token as a number: the token must be non-empty, all digits,
/// and fit the type.
pub fn parse_u32_token(s: &str) -> (r: Option<u32>)
    ensures
        match token_num(s@) {
            Some(v) => r == (if v <= u32::MAX {
                Some(v as u32)
            } else {
                None::<u32>
            }),
            None => r is None,
        },
{
    proof {
        assert(s@.skip(0) =~= s@);
    }
    let len = s.unicode_len();
    match scan_u32(s, 0) {
        Some((v, pos)) => {
            if pos == len {
                proof {
                    assert(s@.skip(pos as int).len() == 0);
                    let k = digit_prefix_len(s@);
                    lemma_digit_prefix_props(s@);
                    assert(s@.skip(k).len() == s@.skip(pos as int).len());
                    assert(k == pos);
                    assert(s@.take(k) =~= s@);
                }
                Some(v)
            } else {
                proof {
                    let k = digit_prefix_len(s@);
                    lemma_digit_prefix_props(s@);
                    assert(s@.skip(k).len() == s@.skip(pos as int).len());
                    assert(k == pos);
                    assert(k < s@.len());
                }
                None
            }
        },
        None => {
            proof {
                if token_num(s@) is Some {
                    let k = digit_prefix_len(s@);
                    assert(k == s@.len());
                    assert(s@.take(k) =~= s@);
                }
            }
            None
        },
    }
}

} // verus!
