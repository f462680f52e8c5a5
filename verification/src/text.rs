//! Character-level text building and number formatting.
//!
//! The report and the log-file names are assembled character by character so
//! that their exact contents can be stated and proved. Decimal numbers are
//! rendered by [`push_dec_u128`] and read back by [`parse_u128_at`]; the two
//! are proved inverse in [`lemma_val_of_dec`] and the digit-run lemmas, which
//! the report round-trip proof builds on.

use vstd::prelude::*;

verus! {

/// Relies on `String::push`: appends exactly the given character.
#[verifier::external_body]
pub fn push_char(out: &mut String, c: char)
    ensures
        final(out)@ == old(out)@.push(c),
{
    out.push(c);
}

/// The characters of a string slice, in order.
pub fn str_to_chars(s: &str) -> (r: Vec<char>)
    ensures
        r@ == s@,
{
    let len = s.unicode_len();
    let mut r: Vec<char> = Vec::new();
    let mut i: usize = 0;
    while i < len
        invariant
            i <= len,
            len == s@.len(),
            r@ == s@.subrange(0, i as int),
        decreases len - i,
    {
        r.push(s.get_char(i));
        i = i + 1;
        proof {
            assert(r@ =~= s@.subrange(0, i as int));
        }
    }
    proof {
        assert(r@ =~= s@);
    }
    r
}

/// The character for one decimal digit.
pub open spec fn digit_char(d: nat) -> char
    recommends
        d < 10,
{
    if d == 0 {
        '0'
    } else if d == 1 {
        '1'
    } else if d == 2 {
        '2'
    } else if d == 3 {
        '3'
    } else if d == 4 {
        '4'
    } else if d == 5 {
        '5'
    } else if d == 6 {
        '6'
    } else if d == 7 {
        '7'
    } else if d == 8 {
        '8'
    } else {
        '9'
    }
}

pub open spec fn is_digit_char(c: char) -> bool {
    48 <= (c as u32) <= 57
}

/// The numeric value of one digit character.
pub open spec fn digit_val(c: char) -> nat {
    ((c as u32) - 48) as nat
}

/// A digit character carries the digit it was made from.
pub proof fn lemma_digit_char_val(d: nat)
    requires
        d < 10,
    ensures
        digit_val(digit_char(d)) == d,
        is_digit_char(digit_char(d)),
{
    assert(('0' as u32) == 48);
    assert(('1' as u32) == 49);
    assert(('2' as u32) == 50);
    assert(('3' as u32) == 51);
    assert(('4' as u32) == 52);
    assert(('5' as u32) == 53);
    assert(('6' as u32) == 54);
    assert(('7' as u32) == 55);
    assert(('8' as u32) == 56);
    assert(('9' as u32) == 57);
}

/// The decimal digits of `n`, most significant first, no leading zeros
/// (a single `'0'` for zero).
pub open spec fn dec_str(n: nat) -> Seq<char>
    decreases n,
{
    if n < 10 {
        seq![digit_char(n)]
    } else {
        dec_str(n / 10).push(digit_char(n % 10))
    }
}

/// Every character of a decimal rendering is a digit, and there is at least one.
pub proof fn lemma_dec_str_digits(n: nat)
    ensures
        dec_str(n).len() >= 1,
        forall|i: int| 0 <= i < dec_str(n).len() ==> is_digit_char(#[trigger] dec_str(n)[i]),
    decreases n,
{
    if n < 10 {
        lemma_digit_char_val(n);
    } else {
        lemma_dec_str_digits(n / 10);
        lemma_digit_char_val(n % 10);
    }
}

/// The value of a digit string, read left to right.
pub open spec fn val_of_digits(s: Seq<char>) -> nat
    decreases s.len(),
{
    if s.len() == 0 {
        0
    } else {
        val_of_digits(s.drop_last()) * 10 + digit_val(s.last())
    }
}

/// Reading the decimal rendering of `n` back yields `n`.
pub proof fn lemma_val_of_dec(n: nat)
    ensures
        val_of_digits(dec_str(n)) == n,
    decreases n,
{
    if n < 10 {
        lemma_digit_char_val(n);
        assert(dec_str(n) == seq![digit_char(n)]);
        assert(dec_str(n).drop_last() =~= Seq::<char>::empty());
        assert(dec_str(n).last() == digit_char(n));
        assert(val_of_digits(Seq::<char>::empty()) == 0);
        assert(val_of_digits(dec_str(n)) == val_of_digits(dec_str(n).drop_last()) * 10 + digit_val(
            dec_str(n).last(),
        ));
    } else {
        lemma_val_of_dec(n / 10);
        lemma_digit_char_val(n % 10);
        assert(dec_str(n).drop_last() =~= dec_str(n / 10));
        assert(dec_str(n).last() == digit_char(n % 10));
        assert(n == (n / 10) * 10 + n % 10) by (nonlinear_arith);
    }
}

/// The length of the run of digit characters at the front of `s`.
pub open spec fn digit_run_len(s: Seq<char>) -> nat
    decreases s.len(),
{
    if s.len() == 0 || !is_digit_char(s[0]) {
        0
    } else {
        1 + digit_run_len(s.drop_first())
    }
}

/// A digit run stops exactly at the end of an all-digit prefix when what
/// follows does not start with a digit.
pub proof fn lemma_digit_run_of_concat(digits: Seq<char>, rest: Seq<char>)
    requires
        forall|i: int| 0 <= i < digits.len() ==> is_digit_char(#[trigger] digits[i]),
        rest.len() == 0 || !is_digit_char(rest[0]),
    ensures
        digit_run_len(digits + rest) == digits.len(),
    decreases digits.len(),
{
    if digits.len() == 0 {
        assert(digits + rest =~= rest);
    } else {
        assert((digits + rest)[0] == digits[0]);
        assert((digits + rest).drop_first() =~= digits.drop_first() + rest);
        lemma_digit_run_of_concat(digits.drop_first(), rest);
    }
}

/// `s` starts with `p`.
pub open spec fn has_prefix(s: Seq<char>, p: Seq<char>) -> bool {
    s.len() >= p.len() && s.subrange(0, p.len() as int) == p
}

/// A concatenation starts with its first part, and skipping it leaves the
/// second.
pub proof fn lemma_has_prefix_concat(p: Seq<char>, rest: Seq<char>)
    ensures
        has_prefix(p + rest, p),
        (p + rest).skip(p.len() as int) == rest,
{
    assert((p + rest).subrange(0, p.len() as int) =~= p);
    assert((p + rest).skip(p.len() as int) =~= rest);
}

/// Appends the decimal rendering of `n` to `out`.
pub fn push_dec_u128(out: &mut String, n: u128)
    ensures
        final(out)@ == old(out)@ + dec_str(n as nat),
    decreases n,
{
    if n < 10 {
        let c = digit_char_of(n);
        push_char(out, c);
        proof {
            assert(old(out)@.push(c) =~= old(out)@ + dec_str(n as nat));
        }
    } else {
        push_dec_u128(out, n / 10);
        let c = digit_char_of(n % 10);
        push_char(out, c);
        proof {
            assert((old(out)@ + dec_str(n as nat / 10)).push(c) =~= old(out)@ + dec_str(
                n as nat,
            ));
        }
    }
}

/// The digit character for a value below ten.
fn digit_char_of(d: u128) -> (c: char)
    requires
        d < 10,
    ensures
        c == digit_char(d as nat),
{
    if d == 0 {
        '0'
    } else if d == 1 {
        '1'
    } else if d == 2 {
        '2'
    } else if d == 3 {
        '3'
    } else if d == 4 {
        '4'
    } else if d == 5 {
        '5'
    } else if d == 6 {
        '6'
    } else if d == 7 {
        '7'
    } else if d == 8 {
        '8'
    } else {
        '9'
    }
}

/// What reading an unsigned number at position `i` of `t` yields: the value of
/// the digit run starting there, unless the run is empty or the value does not
/// fit in 128 bits.
pub open spec fn parse_u128_at(t: Seq<char>, i: int) -> Option<(nat, int)>
    recommends
        0 <= i <= t.len(),
{
    let k = digit_run_len(t.skip(i));
    let v = val_of_digits(t.skip(i).take(k as int));
    if k == 0 || v > u128::MAX {
        None
    } else {
        Some((v, i + k))
    }
}

/// Taking one more character multiplies the prefix's value by ten and adds
/// the new digit.
proof fn lemma_val_take_step(s: Seq<char>, j: int)
    requires
        0 <= j < s.len(),
    ensures
        val_of_digits(s.take(j + 1)) == val_of_digits(s.take(j)) * 10 + digit_val(s[j]),
{
    assert(s.take(j + 1).drop_last() =~= s.take(j));
    assert(s.take(j + 1).last() == s[j]);
}

/// Reads an unsigned decimal number from `t` starting at `i`.
pub fn read_u128_at(t: &Vec<char>, i: usize) -> (r: Option<(u128, usize)>)
    requires
        i <= t@.len(),
    ensures
        match r {
            Some((v, j)) => parse_u128_at(t@, i as int) == Some((v as nat, j as int)) && i < j
                <= t@.len(),
            None => parse_u128_at(t@, i as int) is None,
        },
{
    let ghost s = t@.skip(i as int);
    proof {
        lemma_digit_run_in_range(s);
    }
    let ghost k = digit_run_len(s) as int;
    let mut j: usize = i;
    let mut v: u128 = 0;
    let mut overflow = false;
    while j < t.len() && is_digit(t[j])
        invariant
            i <= j <= t@.len(),
            s == t@.skip(i as int),
            k == digit_run_len(s),
            0 <= k <= s.len(),
            forall|m: int| 0 <= m < k ==> is_digit_char(#[trigger] s[m]),
            k < s.len() ==> !is_digit_char(s[k]),
            j - i <= k,
            !overflow ==> v as nat == val_of_digits(s.take(j - i)),
            overflow ==> val_of_digits(s.take(j - i)) > u128::MAX,
        decreases t@.len() - j,
    {
        proof {
            assert(t@[j as int] == s[j - i]);
            // the loop condition saw a digit, so the run is not over yet
            assert(j - i < k) by {
                if j - i == k {
                    assert(k < s.len());
                    assert(!is_digit_char(s[k]));
                }
            }
            lemma_val_take_step(s, j - i);
        }
        let d: u32 = (t[j] as u32) - 48;
        if !overflow {
            if v > (u128::MAX - d as u128) / 10 {
                overflow = true;
                proof {
                    vstd::arithmetic::div_mod::lemma_fundamental_div_mod(
                        u128::MAX - d as u128,
                        10,
                    );
                    assert(val_of_digits(s.take(j - i)) * 10 + digit_val(s[j - i]) > u128::MAX)
                        by (nonlinear_arith)
                        requires
                            val_of_digits(s.take(j - i)) == v as nat,
                            digit_val(s[j - i]) == d as nat,
                            d < 10,
                            10 * ((u128::MAX - d as u128) / 10) as int + ((u128::MAX
                                - d as u128) as int % 10) == u128::MAX - d as u128,
                            v > (u128::MAX - d as u128) / 10,
                    ;
                }
            } else {
                proof {
                    vstd::arithmetic::div_mod::lemma_fundamental_div_mod(
                        u128::MAX - d as u128,
                        10,
                    );
                    assert(v as nat * 10 + d as nat <= u128::MAX) by (nonlinear_arith)
                        requires
                            d < 10,
                            10 * ((u128::MAX - d as u128) / 10) as int + ((u128::MAX
                                - d as u128) as int % 10) == u128::MAX - d as u128,
                            v <= (u128::MAX - d as u128) / 10,
                    ;
                }
                v = v * 10 + d as u128;
            }
        } else {
            proof {
                assert(val_of_digits(s.take(j - i)) <= val_of_digits(s.take(j - i)) * 10
                    + digit_val(s[j - i])) by (nonlinear_arith);
            }
        }
        j = j + 1;
    }
    proof {
        // the loop stopped exactly at the end of the digit run
        assert(j - i == k) by {
            if j - i < k {
                assert(is_digit_char(s[j - i]));
                assert(s[j - i] == t@[j as int]);
                assert(j < t@.len());
            }
        }
        assert(s.take(k) =~= s.take(j - i));
    }
    if j == i {
        None
    } else if overflow {
        None
    } else {
        Some((v, j))
    }
}

/// A digit run is never longer than the sequence it starts.
proof fn lemma_digit_run_in_range(s: Seq<char>)
    ensures
        digit_run_len(s) <= s.len(),
        forall|m: int| 0 <= m < digit_run_len(s) ==> is_digit_char(#[trigger] s[m]),
        digit_run_len(s) < s.len() ==> !is_digit_char(s[digit_run_len(s) as int]),
    decreases s.len(),
{
    if s.len() > 0 && is_digit_char(s[0]) {
        lemma_digit_run_in_range(s.drop_first());
        assert forall|m: int| 0 <= m < digit_run_len(s) implies is_digit_char(
            #[trigger] s[m],
        ) by {
            if m > 0 {
                assert(s.drop_first()[m - 1] == s[m]);
            }
        }
        if digit_run_len(s) < s.len() {
            assert(s.drop_first()[digit_run_len(s) as int - 1] == s[digit_run_len(s) as int]);
        }
    }
}

/// Whether a character is a decimal digit.
pub fn is_digit(c: char) -> (r: bool)
    ensures
        r == is_digit_char(c),
{
    let v = c as u32;
    48 <= v && v <= 57
}

/// Whether a character has Unicode's White_Space property; the name for
/// what `char::is_whitespace` returns.
pub uninterp spec fn is_unicode_whitespace(c: char) -> bool;

/// Whether a character is alphabetic or numeric per Unicode; the name for
/// what `char::is_alphanumeric` returns.
pub uninterp spec fn is_unicode_alphanumeric(c: char) -> bool;

/// Relies on `char::is_whitespace`: the White_Space property, a function of
/// the character alone; within ASCII exactly tab, line feed, vertical tab,
/// form feed, carriage return and space.
#[verifier::external_body]
pub fn char_is_whitespace(c: char) -> (r: bool)
    ensures
        r == is_unicode_whitespace(c),
        (c as u32) < 128 ==> r == (9 <= (c as u32) <= 13 || (c as u32) == 32),
{
    c.is_whitespace()
}

/// Relies on `char::is_alphanumeric`: alphabetic or numeric per Unicode, a
/// function of the character alone; within ASCII exactly the letters and
/// digits.
#[verifier::external_body]
pub fn char_is_alphanumeric(c: char) -> (r: bool)
    ensures
        r == is_unicode_alphanumeric(c),
        (c as u32) < 128 ==> r == (48 <= (c as u32) <= 57 || 65 <= (c as u32) <= 90 || 97 <= (
        c as u32) <= 122),
{
    c.is_alphanumeric()
}

/// The string holding exactly the given characters.
pub fn chars_to_string(v: &Vec<char>) -> (r: String)
    ensures
        r@ == v@,
{
    let mut out = String::new();
    let mut i: usize = 0;
    while i < v.len()
        invariant
            i <= v@.len(),
            out@ == v@.subrange(0, i as int),
        decreases v@.len() - i,
    {
        push_char(&mut out, v[i]);
        i = i + 1;
        proof {
            assert(out@ =~= v@.subrange(0, i as int));
        }
    }
    proof {
        assert(out@ =~= v@);
    }
    out
}

/// The end of the whitespace-free run beginning at `i`: the first position
/// at or past `i` holding whitespace, or the end of the text.
pub open spec fn token_end(s: Seq<char>, i: int) -> int
    decreases s.len() - i,
    when 0 <= i <= s.len()
{
    if i >= s.len() || is_unicode_whitespace(s[i]) {
        i
    } else {
        token_end(s, i + 1)
    }
}

/// `token_end` lands between `i` and the end, sees no whitespace on the
/// way, and stops only at whitespace or the end.
pub proof fn lemma_token_end(s: Seq<char>, i: int)
    requires
        0 <= i <= s.len(),
    ensures
        i <= token_end(s, i) <= s.len(),
        forall|m: int| i <= m < token_end(s, i) ==> !is_unicode_whitespace(#[trigger] s[m]),
        token_end(s, i) == s.len() || is_unicode_whitespace(s[token_end(s, i)]),
    decreases s.len() - i,
{
    if i < s.len() && !is_unicode_whitespace(s[i]) {
        lemma_token_end(s, i + 1);
    }
}

/// The whitespace-delimited tokens of `s` from position `i` on.
pub open spec fn ws_tokens_from(s: Seq<char>, i: int) -> Seq<Seq<char>>
    decreases s.len() - i,
    when 0 <= i <= s.len()
    via ws_tokens_from_decreases
{
    if i >= s.len() {
        Seq::empty()
    } else if is_unicode_whitespace(s[i]) {
        ws_tokens_from(s, i + 1)
    } else {
        seq![s.subrange(i, token_end(s, i))] + ws_tokens_from(s, token_end(s, i))
    }
}

#[via_fn]
proof fn ws_tokens_from_decreases(s: Seq<char>, i: int) {
    if 0 <= i && i < s.len() && !is_unicode_whitespace(s[i]) {
        lemma_token_end(s, i);
    }
}

/// The whitespace-delimited tokens of `s`, in order, as
/// `str::split_whitespace` hands them out.
pub open spec fn ws_tokens(s: Seq<char>) -> Seq<Seq<char>> {
    ws_tokens_from(s, 0)
}

/// The whitespace-delimited tokens of the characters, in order.
pub fn split_ws(s: &Vec<char>) -> (r: Vec<Vec<char>>)
    ensures
        r.deep_view() == ws_tokens(s@),
{
    let mut result: Vec<Vec<char>> = Vec::new();
    let mut i: usize = 0;
    while i < s.len()
        invariant
            i <= s@.len(),
            ws_tokens(s@) == result.deep_view() + ws_tokens_from(s@, i as int),
        decreases s@.len() - i,
    {
        if char_is_whitespace(s[i]) {
            i = i + 1;
        } else {
            let ghost start = i as int;
            let mut token: Vec<char> = Vec::new();
            token.push(s[i]);
            let mut j: usize = i + 1;
            while j < s.len() && !char_is_whitespace(s[j])
                invariant
                    0 <= start < j <= s@.len(),
                    token@ == s@.subrange(start, j as int),
                    forall|m: int|
                        start <= m < j ==> !is_unicode_whitespace(#[trigger] s@[m]),
                decreases s@.len() - j,
            {
                token.push(s[j]);
                j = j + 1;
                proof {
                    assert(token@ =~= s@.subrange(start, j as int));
                }
            }
            proof {
                lemma_token_end(s@, start);
                assert(token_end(s@, start) == j) by {
                    let e = token_end(s@, start);
                    if e < j {
                        assert(!is_unicode_whitespace(s@[e]));
                        assert(e < s@.len());
                    }
                    if e > j {
                        assert(!is_unicode_whitespace(s@[j as int]));
                    }
                }
            }
            let ghost before = result.deep_view();
            result.push(token);
            i = j;
            proof {
                assert(result.deep_view() =~~= before.push(s@.subrange(
                    start,
                    token_end(s@, start),
                )));
                assert(before.push(s@.subrange(start, token_end(s@, start)))
                    + ws_tokens_from(s@, i as int) =~= before + ws_tokens_from(s@, start));
            }
        }
    }
    proof {
        assert(result.deep_view() + ws_tokens_from(s@, s@.len() as int) =~= result.deep_view());
    }
    result
}

/// The whitespace-delimited tokens of a string, in order.
pub fn split_whitespace_strings(s: &str) -> (r: Vec<String>)
    ensures
        r.deep_view() == ws_tokens(s@),
{
    let chars = str_to_chars(s);
    let tokens = split_ws(&chars);
    let mut result: Vec<String> = Vec::new();
    let mut i: usize = 0;
    while i < tokens.len()
        invariant
            i <= tokens@.len(),
            result@.len() == i,
            result.deep_view() == tokens.deep_view().take(i as int),
        decreases tokens@.len() - i,
    {
        let token_string = chars_to_string(&tokens[i]);
        result.push(token_string);
        i = i + 1;
        proof {
            assert(result@[i - 1] == token_string);
            assert(token_string@ == tokens@[i - 1]@);
            assert(result@[i - 1]@ == tokens@[i - 1]@);
            assert(result.deep_view()[i - 1] =~= tokens.deep_view()[i - 1]);
            assert(result.deep_view() =~= tokens.deep_view().take(i as int));
        }
    }
    proof {
        assert(tokens.deep_view().take(tokens@.len() as int) =~= tokens.deep_view());
        assert(tokens.deep_view().take(tokens@.len() as int) =~= ws_tokens(s@));
    }
    result
}

} // verus!
