//! The wire codec of the user record: a canonical structured-text encoding
//! `{"id":"...","name":"...","age":N,"sex":"m"}` with the two string escapes
//! `\"` and `\\`, an exact decoder for it, and the round-trip laws.

use vstd::prelude::*;
use vstd::arithmetic::div_mod::lemma_fundamental_div_mod;
use crate::entities::{code_seq, sex_of_code, user_wf, Sex, User, UserView};
use crate::errors::AppError;

verus! {

// ---------------------------------------------------------------------------
// String escaping
// ---------------------------------------------------------------------------

/// How one character is written inside a quoted string: the quote and the
/// backslash are escaped with a backslash, every other character stands as is.
pub open spec fn esc_char(c: char) -> Seq<char> {
    if c == '"' || c == '\\' {
        seq!['\\', c]
    } else {
        seq![c]
    }
}

/// The escaped form of a whole string.
pub open spec fn esc(s: Seq<char>) -> Seq<char>
    decreases s.len(),
{
    if s.len() == 0 {
        Seq::empty()
    } else {
        esc_char(s[0]) + esc(s.drop_first())
    }
}

/// Escaping distributes over appending one character at the back.
pub proof fn lemma_esc_push(s: Seq<char>, c: char)
    ensures
        esc(s.push(c)) == esc(s) + esc_char(c),
    decreases s.len(),
{
    if s.len() == 0 {
        assert(s.push(c)[0] == c);
        assert(s.push(c).drop_first() =~= Seq::<char>::empty());
        assert(esc(Seq::<char>::empty()) == Seq::<char>::empty());
        assert(esc(s.push(c)) == esc_char(c) + esc(Seq::<char>::empty()));
        assert(esc(s.push(c)) =~= esc(s) + esc_char(c));
    } else {
        assert(s.push(c).drop_first() =~= s.drop_first().push(c));
        lemma_esc_push(s.drop_first(), c);
        assert(esc(s.push(c)) =~= esc(s) + esc_char(c));
    }
}

// ---------------------------------------------------------------------------
// Decimal digits
// ---------------------------------------------------------------------------

/// The character of one decimal digit.
pub open spec fn digit_char(d: int) -> char {
    if d == 0 { '0' }
    else if d == 1 { '1' }
    else if d == 2 { '2' }
    else if d == 3 { '3' }
    else if d == 4 { '4' }
    else if d == 5 { '5' }
    else if d == 6 { '6' }
    else if d == 7 { '7' }
    else if d == 8 { '8' }
    else { '9' }
}

/// Whether a character is a decimal digit.
pub open spec fn is_digit(c: char) -> bool {
    c == '0' || c == '1' || c == '2' || c == '3' || c == '4' || c == '5' || c == '6' || c == '7'
        || c == '8' || c == '9'
}

/// The numeric value of one digit character.
pub open spec fn digit_val(c: char) -> int {
    if c == '0' { 0 }
    else if c == '1' { 1 }
    else if c == '2' { 2 }
    else if c == '3' { 3 }
    else if c == '4' { 4 }
    else if c == '5' { 5 }
    else if c == '6' { 6 }
    else if c == '7' { 7 }
    else if c == '8' { 8 }
    else { 9 }
}

/// The canonical decimal digit run of a nonnegative number: no leading
/// zero except for the number zero itself.
pub open spec fn dec_digits(n: int) -> Seq<char>
    decreases n,
{
    if n < 10 {
        seq![digit_char(n)]
    } else {
        dec_digits(n / 10).push(digit_char(n % 10))
    }
}

/// The canonical decimal form of an integer, with a leading minus sign
/// when it is negative.
pub open spec fn dec_int(n: int) -> Seq<char> {
    if n < 0 {
        seq!['-'] + dec_digits(-n)
    } else {
        dec_digits(n)
    }
}

/// The numeric value of a digit run.
pub open spec fn digits_val(ds: Seq<char>) -> int
    decreases ds.len(),
{
    if ds.len() == 0 {
        0
    } else {
        digits_val(ds.drop_last()) * 10 + digit_val(ds.last())
    }
}

/// Whether every character of a run is a decimal digit.
pub open spec fn all_digits(ds: Seq<char>) -> bool {
    forall|i: int| 0 <= i < ds.len() ==> is_digit(ds[i])
}

/// Powers of ten.
pub open spec fn pow10(k: nat) -> int
    decreases k,
{
    if k == 0 {
        1
    } else {
        10 * pow10((k - 1) as nat)
    }
}

/// The canonical digit run of a nonnegative number is a nonempty run of
/// digits, has no leading zero unless the number is zero, and its numeric
/// value is the number itself.
pub proof fn lemma_dec_digits_props(n: int)
    requires
        n >= 0,
    ensures
        all_digits(dec_digits(n)),
        dec_digits(n).len() >= 1,
        digits_val(dec_digits(n)) == n,
        dec_digits(n)[0] == '0' <==> n == 0,
        n == 0 ==> dec_digits(n) == seq!['0'],
    decreases n,
{
    if n < 10 {
        assert(dec_digits(n) =~= seq![digit_char(n)]);
        assert(dec_digits(n).drop_last() =~= Seq::<char>::empty());
        assert(digits_val(Seq::<char>::empty()) == 0);
        assert(dec_digits(n).last() == digit_char(n));
        assert(digit_val(digit_char(n)) == n);
    } else {
        assert(0 <= n / 10 < n) by (nonlinear_arith)
            requires n >= 10;
        assert(n / 10 >= 1) by (nonlinear_arith)
            requires n >= 10;
        lemma_dec_digits_props(n / 10);
        lemma_fundamental_div_mod(n, 10);
        let ds = dec_digits(n);
        assert(ds == dec_digits(n / 10).push(digit_char(n % 10)));
        assert(ds.drop_last() =~= dec_digits(n / 10));
        assert(0 <= n % 10 < 10) by (nonlinear_arith);
        assert(digit_val(digit_char(n % 10)) == n % 10);
        assert(digits_val(ds) == (n / 10) * 10 + n % 10);
        assert(ds[0] == dec_digits(n / 10)[0]);
        assert(forall|i: int| 0 <= i < ds.len() ==> is_digit(#[trigger] ds[i])) by {
            assert(forall|i: int|
                0 <= i < ds.len() - 1 ==> ds[i] == #[trigger] dec_digits(n / 10)[i]);
        }
    }
}

/// A number below the `k`-th power of ten has at most `k` canonical digits.
pub proof fn lemma_dec_digits_len(n: int, k: nat)
    requires
        n >= 0,
        k >= 1,
        n < pow10(k),
    ensures
        dec_digits(n).len() <= k,
    decreases n,
{
    if n < 10 {
    } else {
        assert(0 <= n / 10 < n) by (nonlinear_arith)
            requires n >= 10;
        if k == 1 {
            assert(pow10(0) == 1);
            assert(pow10(1) == 10);
            assert(false);
        }
        assert(pow10(k) == 10 * pow10((k - 1) as nat));
        assert(n / 10 < pow10((k - 1) as nat)) by (nonlinear_arith)
            requires n < 10 * pow10((k - 1) as nat), n >= 10;
        lemma_dec_digits_len(n / 10, (k - 1) as nat);
    }
}

/// The value of a digit run is nonnegative and below the power of ten of
/// its length.
pub proof fn lemma_digits_val_bound(ds: Seq<char>)
    requires
        all_digits(ds),
    ensures
        0 <= digits_val(ds) < pow10(ds.len()),
    decreases ds.len(),
{
    if ds.len() == 0 {
    } else {
        assert(is_digit(ds.last()));
        assert(forall|i: int| 0 <= i < ds.len() - 1 ==> is_digit(#[trigger] ds.drop_last()[i]));
        lemma_digits_val_bound(ds.drop_last());
        let p = pow10((ds.len() - 1) as nat);
        assert(pow10(ds.len()) == 10 * p);
        assert(0 <= digit_val(ds.last()) <= 9);
        assert(digits_val(ds.drop_last()) * 10 + digit_val(ds.last()) < 10 * p) by (nonlinear_arith)
            requires digits_val(ds.drop_last()) <= p - 1, digit_val(ds.last()) <= 9, p >= 1;
        assert(digits_val(ds.drop_last()) * 10 + digit_val(ds.last()) >= 0) by (nonlinear_arith)
            requires digits_val(ds.drop_last()) >= 0, digit_val(ds.last()) >= 0;
    }
}

/// A digit run that does not start with zero is worth at least the power
/// of ten of its length less one.
pub proof fn lemma_digits_val_lower(ds: Seq<char>)
    requires
        all_digits(ds),
        ds.len() >= 1,
        ds[0] != '0',
    ensures
        digits_val(ds) >= pow10((ds.len() - 1) as nat),
    decreases ds.len(),
{
    if ds.len() == 1 {
        assert(ds.drop_last() =~= Seq::<char>::empty());
        assert(digits_val(Seq::<char>::empty()) == 0);
        assert(pow10(0) == 1);
        assert(digit_val(ds.last()) >= 1);
    } else {
        let dl = ds.drop_last();
        assert(forall|i: int| 0 <= i < dl.len() ==> is_digit(#[trigger] dl[i]));
        assert(dl[0] == ds[0]);
        lemma_digits_val_lower(dl);
        let p = pow10((dl.len() - 1) as nat);
        assert(pow10((ds.len() - 1) as nat) == 10 * p);
        assert(digits_val(dl) * 10 + digit_val(ds.last()) >= 10 * p) by (nonlinear_arith)
            requires digits_val(dl) >= p, digit_val(ds.last()) >= 0;
    }
}

/// A nonempty canonical run of digits is the canonical form of its value:
/// digit runs decode uniquely.
pub proof fn lemma_digits_canonical(ds: Seq<char>)
    requires
        all_digits(ds),
        ds.len() >= 1,
        ds[0] == '0' ==> ds.len() == 1,
    ensures
        dec_digits(digits_val(ds)) == ds,
    decreases ds.len(),
{
    if ds.len() == 1 {
        assert(ds.drop_last() =~= Seq::<char>::empty());
        assert(digits_val(Seq::<char>::empty()) == 0);
        let v = digit_val(ds[0]);
        assert(ds.last() == ds[0]);
        assert(digits_val(ds) == v);
        assert(0 <= v < 10);
        assert(digit_char(digit_val(ds[0])) == ds[0]);
        assert(dec_digits(v) =~= ds);
    } else {
        let dl = ds.drop_last();
        assert(forall|i: int| 0 <= i < dl.len() ==> is_digit(#[trigger] dl[i]));
        assert(dl[0] == ds[0]);
        assert(dl[0] != '0');
        lemma_digits_canonical(dl);
        lemma_digits_val_lower(dl);
        let p = pow10((dl.len() - 1) as nat);
        assert(p >= 1) by {
            lemma_pow10_pos((dl.len() - 1) as nat);
        }
        let v = digits_val(ds);
        let c = digit_val(ds.last());
        assert(v == digits_val(dl) * 10 + c);
        assert(v >= 10) by (nonlinear_arith)
            requires digits_val(dl) >= 1, c >= 0, v == digits_val(dl) * 10 + c;
        assert(v / 10 == digits_val(dl) && v % 10 == c) by (nonlinear_arith)
            requires v == digits_val(dl) * 10 + c, 0 <= c < 10;
        assert(digit_char(digit_val(ds.last())) == ds.last());
        assert(dec_digits(v) == dec_digits(digits_val(dl)).push(digit_char(c)));
        assert(dec_digits(v) =~= ds) by {
            assert(dec_digits(digits_val(dl)) == dl);
            assert(dl.push(ds.last()) =~= ds);
        }
    }
}

/// Powers of ten are positive.
pub proof fn lemma_pow10_pos(k: nat)
    ensures
        pow10(k) >= 1,
    decreases k,
{
    if k > 0 {
        lemma_pow10_pos((k - 1) as nat);
        assert(pow10(k) == 10 * pow10((k - 1) as nat));
    }
}

// ---------------------------------------------------------------------------
// The quoted-string scanner
// ---------------------------------------------------------------------------

/// The closing quote of a quoted string field.
pub open spec fn q_seq() -> Seq<char> {
    seq!['"']
}


/// One quoted-string body read from position `i` up to and including its
/// closing quote: the unescaped characters and the position after the quote.
pub open spec fn scan_str(s: Seq<char>, i: int) -> Option<(Seq<char>, int)>
    decreases s.len() - i,
{
    if i < 0 || i >= s.len() {
        None
    } else if s[i] == '"' {
        Some((Seq::empty(), i + 1))
    } else if s[i] == '\\' {
        if i + 1 < s.len() && (s[i + 1] == '"' || s[i + 1] == '\\') {
            match scan_str(s, i + 2) {
                None => None,
                Some((x, j)) => Some((seq![s[i + 1]] + x, j)),
            }
        } else {
            None
        }
    } else {
        match scan_str(s, i + 1) {
            None => None,
            Some((x, j)) => Some((seq![s[i]] + x, j)),
        }
    }
}

/// What a successful scan consumed: exactly the escaped form of its result,
/// followed by the closing quote.
pub proof fn lemma_scan_sound(s: Seq<char>, i: int)
    requires
        0 <= i,
    ensures
        scan_str(s, i) matches Some((x, j)) ==> i < j <= s.len() && s.subrange(i, j) == esc(x)
            + q_seq(),
    decreases s.len() - i,
{
    if i < s.len() && scan_str(s, i) is Some {
        let (x, j) = scan_str(s, i)->Some_0;
        if s[i] == '"' {
            assert(esc(Seq::<char>::empty()) == Seq::<char>::empty());
            assert(s.subrange(i, j) =~= esc(x) + q_seq());
        } else if s[i] == '\\' {
            lemma_scan_sound(s, i + 2);
            let (x2, j2) = scan_str(s, i + 2)->Some_0;
            assert(x == seq![s[i + 1]] + x2 && j == j2);
            assert(x[0] == s[i + 1]);
            assert(x.drop_first() =~= x2);
            assert(esc(x) == esc_char(x[0]) + esc(x2));
            assert(esc_char(x[0]) =~= seq!['\\', s[i + 1]]);
            let mid = esc(x2) + q_seq();
            assert(s.subrange(i + 2, j) == mid);
            assert(s.subrange(i, j) =~= seq!['\\', s[i + 1]] + mid);
            assert(esc(x) + q_seq() =~= seq!['\\', s[i + 1]] + mid);
        } else {
            lemma_scan_sound(s, i + 1);
            let (x2, j2) = scan_str(s, i + 1)->Some_0;
            assert(x == seq![s[i]] + x2 && j == j2);
            assert(x[0] == s[i]);
            assert(x.drop_first() =~= x2);
            assert(esc(x) == esc_char(x[0]) + esc(x2));
            assert(esc_char(x[0]) =~= seq![s[i]]);
            let mid = esc(x2) + q_seq();
            assert(s.subrange(i + 1, j) == mid);
            assert(s.subrange(i, j) =~= seq![s[i]] + mid);
            assert(esc(x) + q_seq() =~= seq![s[i]] + mid);
        }
    }
}

/// A scan started on the escaped form of a string followed by a quote
/// succeeds and reads back exactly that string.
pub proof fn lemma_scan_complete(s: Seq<char>, i: int, x: Seq<char>, rest: Seq<char>)
    requires
        0 <= i <= s.len(),
        s.subrange(i, s.len() as int) == esc(x) + q_seq() + rest,
    ensures
        scan_str(s, i) == Some((x, i + esc(x).len() + 1)),
    decreases x.len(),
{
    let tail = s.subrange(i, s.len() as int);
    assert(tail.len() == esc(x).len() + 1 + rest.len());
    if x.len() == 0 {
        assert(esc(x) == Seq::<char>::empty());
        assert(s[i] == tail[0]);
        assert(tail[0] == '"');
        assert(scan_str(s, i) == Some((Seq::<char>::empty(), i + 1)));
        assert(Seq::<char>::empty() =~= x);
    } else {
        let c = x[0];
        let x2 = x.drop_first();
        assert(esc(x) == esc_char(c) + esc(x2));
        if c == '"' || c == '\\' {
            assert(esc_char(c) =~= seq!['\\', c]);
            assert(s[i] == tail[0] && tail[0] == '\\');
            assert(i + 1 < s.len());
            assert(s[i + 1] == tail[1] && tail[1] == c);
            let tgt = esc(x2) + q_seq() + rest;
            assert(tail =~= seq!['\\', c] + tgt);
            assert(s.subrange(i + 2, s.len() as int) =~= tail.subrange(2, tail.len() as int));
            assert(tail.subrange(2, tail.len() as int) =~= tgt);
            lemma_scan_complete(s, i + 2, x2, rest);
            assert(scan_str(s, i + 2) == Some((x2, i + 2 + esc(x2).len() + 1)));
            assert(seq![s[i + 1]] + x2 =~= x);
        } else {
            assert(esc_char(c) =~= seq![c]);
            assert(s[i] == tail[0] && tail[0] == c);
            let tgt = esc(x2) + q_seq() + rest;
            assert(tail =~= seq![c] + tgt);
            assert(s.subrange(i + 1, s.len() as int) =~= tail.subrange(1, tail.len() as int));
            assert(tail.subrange(1, tail.len() as int) =~= tgt);
            lemma_scan_complete(s, i + 1, x2, rest);
            assert(scan_str(s, i + 1) == Some((x2, i + 1 + esc(x2).len() + 1)));
            assert(seq![s[i]] + x2 =~= x);
        }
    }
}

// ---------------------------------------------------------------------------
// The decimal-number field
// ---------------------------------------------------------------------------

/// The end of the run of digit characters that starts at `i`.
pub open spec fn digit_run_end(s: Seq<char>, i: int) -> int
    decreases s.len() - i,
{
    if i < 0 || i >= s.len() {
        i
    } else if is_digit(s[i]) {
        digit_run_end(s, i + 1)
    } else {
        i
    }
}

/// The digit run: everything up to its end is a digit, and it stops at the
/// first non-digit.
pub proof fn lemma_digit_run(s: Seq<char>, i: int)
    requires
        0 <= i <= s.len(),
    ensures
        i <= digit_run_end(s, i) <= s.len(),
        forall|k: int| i <= k < digit_run_end(s, i) ==> is_digit(#[trigger] s[k]),
        digit_run_end(s, i) < s.len() ==> !is_digit(s[digit_run_end(s, i)]),
    decreases s.len() - i,
{
    if i < s.len() && is_digit(s[i]) {
        lemma_digit_run(s, i + 1);
    }
}

/// A digit run bounded on the right stops exactly at its bound.
pub proof fn lemma_digit_run_exact(s: Seq<char>, i: int, e: int)
    requires
        0 <= i <= e <= s.len(),
        forall|k: int| i <= k < e ==> is_digit(#[trigger] s[k]),
        e < s.len() ==> !is_digit(s[e]),
    ensures
        digit_run_end(s, i) == e,
    decreases e - i,
{
    if i < e {
        lemma_digit_run_exact(s, i + 1, e);
    }
}

/// An unsigned decimal field read from position `i`: its value and the
/// position after its last digit. A leading zero, an empty run and a run of
/// more than ten digits are refused.
pub open spec fn parse_nat_spec(s: Seq<char>, i: int) -> Option<(int, int)> {
    let j = digit_run_end(s, i);
    if j == i {
        None
    } else if s[i] == '0' && j > i + 1 {
        None
    } else if j - i > 10 {
        None
    } else {
        Some((digits_val(s.subrange(i, j)), j))
    }
}

/// A signed decimal field: an optional minus sign before an unsigned field,
/// kept within the 32-bit range, with "-0" refused.
pub open spec fn parse_int_spec(s: Seq<char>, i: int) -> Option<(int, int)> {
    if 0 <= i && i < s.len() && s[i] == '-' {
        match parse_nat_spec(s, i + 1) {
            None => None,
            Some((v, j)) => if v == 0 || v > 2147483648 {
                None
            } else {
                Some((-v, j))
            },
        }
    } else {
        match parse_nat_spec(s, i) {
            None => None,
            Some((v, j)) => if v > 2147483647 {
                None
            } else {
                Some((v, j))
            },
        }
    }
}

/// What a successful unsigned read consumed: exactly the canonical digit
/// run of its value, stopping at a non-digit.
pub proof fn lemma_parse_nat_sound(s: Seq<char>, i: int)
    requires
        0 <= i <= s.len(),
    ensures
        parse_nat_spec(s, i) matches Some((v, j)) ==> i < j <= s.len() && v >= 0 && s.subrange(
            i,
            j,
        ) == dec_digits(v) && (j < s.len() ==> !is_digit(s[j])),
{
    lemma_digit_run(s, i);
    if parse_nat_spec(s, i) is Some {
        let j = digit_run_end(s, i);
        let ds = s.subrange(i, j);
        assert(forall|k: int| 0 <= k < ds.len() ==> is_digit(#[trigger] ds[k]));
        assert(ds[0] == s[i]);
        lemma_digits_canonical(ds);
        lemma_digits_val_bound(ds);
    }
}

/// What a successful signed read consumed: exactly the canonical decimal
/// form of its value, which fits the 32-bit range.
pub proof fn lemma_parse_int_sound(s: Seq<char>, i: int)
    requires
        0 <= i <= s.len(),
    ensures
        parse_int_spec(s, i) matches Some((v, j)) ==> i < j <= s.len() && -2147483648 <= v
            <= 2147483647 && s.subrange(i, j) == dec_int(v) && (j < s.len() ==> !is_digit(s[j])),
{
    if 0 <= i && i < s.len() && s[i] == '-' {
        lemma_parse_nat_sound(s, i + 1);
        if parse_int_spec(s, i) is Some {
            let (v, j) = parse_int_spec(s, i)->Some_0;
            let (v2, j2) = parse_nat_spec(s, i + 1)->Some_0;
            assert(v == -v2 && j == j2);
            assert(s.subrange(i + 1, j) == dec_digits(v2));
            assert(dec_int(v) == seq!['-'] + dec_digits(-v));
            assert(s.subrange(i, j) =~= dec_int(v));
        }
    } else {
        lemma_parse_nat_sound(s, i);
    }
}

/// Ten to the tenth, written out: every number in the 32-bit range has at
/// most ten digits.
pub proof fn lemma_pow10_ten()
    ensures
        pow10(10) == 10000000000,
{
    assert(pow10(0) == 1);
    assert(pow10(1) == 10);
    assert(pow10(2) == 100);
    assert(pow10(3) == 1000);
    assert(pow10(4) == 10000);
    assert(pow10(5) == 100000);
    assert(pow10(6) == 1000000);
    assert(pow10(7) == 10000000);
    assert(pow10(8) == 100000000);
    assert(pow10(9) == 1000000000);
    assert(pow10(10) == 10000000000);
}

/// An unsigned read started on a canonical digit run followed by a
/// non-digit succeeds and yields exactly the run's value.
pub proof fn lemma_parse_nat_complete(s: Seq<char>, i: int, w: int, rest: Seq<char>)
    requires
        0 <= i <= s.len(),
        0 <= w <= 2147483648,
        s.subrange(i, s.len() as int) == dec_digits(w) + rest,
        rest.len() > 0 ==> !is_digit(rest[0]),
    ensures
        parse_nat_spec(s, i) == Some((w, i + dec_digits(w).len())),
{
    let tail = s.subrange(i, s.len() as int);
    lemma_dec_digits_props(w);
    let dd = dec_digits(w);
    let l: int = dd.len() as int;
    assert(tail.len() == l + rest.len());
    assert(all_digits(dd));
    assert forall|k: int| i <= k < i + l implies is_digit(#[trigger] s[k]) by {
        assert(tail[k - i] == s[k]);
        assert(tail[k - i] == dd[k - i]);
        assert(is_digit(dd[k - i]));
    }
    if i + l < s.len() {
        assert(s[i + l] == tail[l]);
        assert(tail[l] == rest[0]);
    }
    lemma_digit_run_exact(s, i, i + l);
    assert(s[i] == tail[0]);
    assert(tail[0] == dd[0]);
    assert(s[i] == dd[0]);
    lemma_pow10_ten();
    lemma_dec_digits_len(w, 10);
    assert(s.subrange(i, i + l) =~= dd);
    assert(digits_val(s.subrange(i, i + l)) == w);
}

/// A signed read started on the canonical decimal form of a 32-bit number
/// followed by a non-digit succeeds and yields exactly that number.
pub proof fn lemma_parse_int_complete(s: Seq<char>, i: int, w: int, rest: Seq<char>)
    requires
        0 <= i <= s.len(),
        -2147483648 <= w <= 2147483647,
        s.subrange(i, s.len() as int) == dec_int(w) + rest,
        rest.len() > 0 ==> !is_digit(rest[0]),
    ensures
        parse_int_spec(s, i) == Some((w, i + dec_int(w).len())),
{
    let tail = s.subrange(i, s.len() as int);
    if w < 0 {
        assert(dec_int(w) == seq!['-'] + dec_digits(-w));
        assert(s[i] == tail[0]);
        assert(tail[0] == '-');
        assert(tail =~= seq!['-'] + (dec_digits(-w) + rest));
        assert(s.subrange(i + 1, s.len() as int) =~= tail.subrange(1, tail.len() as int));
        assert(tail.subrange(1, tail.len() as int) =~= dec_digits(-w) + rest);
        lemma_parse_int_complete_neg_helper(s, i, w, rest);
    } else {
        lemma_dec_digits_props(w);
        assert(dec_int(w) == dec_digits(w));
        assert(s[i] == tail[0]);
        assert(tail[0] == dec_digits(w)[0]);
        assert(is_digit(s[i]));
        assert(s[i] != '-');
        lemma_parse_nat_complete(s, i, w, rest);
    }
}

/// The negative branch of the signed-read completeness argument.
proof fn lemma_parse_int_complete_neg_helper(s: Seq<char>, i: int, w: int, rest: Seq<char>)
    requires
        0 <= i < s.len(),
        -2147483648 <= w < 0,
        s[i] == '-',
        s.subrange(i + 1, s.len() as int) == dec_digits(-w) + rest,
        rest.len() > 0 ==> !is_digit(rest[0]),
        s.subrange(i, s.len() as int) == dec_int(w) + rest,
    ensures
        parse_int_spec(s, i) == Some((w, i + dec_int(w).len())),
{
    lemma_parse_nat_complete(s, i + 1, -w, rest);
    assert(parse_nat_spec(s, i + 1) == Some((-w, i + 1 + dec_digits(-w).len())));
    assert(dec_int(w) == seq!['-'] + dec_digits(-w));
    assert(dec_int(w).len() == 1 + dec_digits(-w).len());
}

// ---------------------------------------------------------------------------
// The record encoding
// ---------------------------------------------------------------------------

/// The opening of the record and of its identity-key field: `{"id":"`.
pub open spec fn lit_obj_id() -> Seq<char> {
    seq!['{', '"', 'i', 'd', '"', ':', '"']
}

/// The separator before the name field: `,"name":"`.
pub open spec fn lit_name() -> Seq<char> {
    seq![',', '"', 'n', 'a', 'm', 'e', '"', ':', '"']
}

/// The separator before the age field: `,"age":`.
pub open spec fn lit_age() -> Seq<char> {
    seq![',', '"', 'a', 'g', 'e', '"', ':']
}

/// The separator before the sex field: `,"sex":"`.
pub open spec fn lit_sex() -> Seq<char> {
    seq![',', '"', 's', 'e', 'x', '"', ':', '"']
}

/// The closing brace of the record.
pub open spec fn rbrace_seq() -> Seq<char> {
    seq!['}']
}

/// The canonical wire form of a record:
/// `{"id":"...","name":"...","age":N,"sex":"m"}`, with the string fields
/// escaped and the age in canonical decimal.
pub open spec fn enc_user(v: UserView) -> Seq<char> {
    lit_obj_id() + esc(v.id) + q_seq() + lit_name() + esc(v.name) + q_seq() + lit_age() + dec_int(
        v.age,
    ) + lit_sex() + esc(code_seq(v.sex)) + q_seq() + rbrace_seq()
}

/// Whether the literal `lit` stands in `s` at position `i`.
pub open spec fn has_lit(s: Seq<char>, i: int, lit: Seq<char>) -> bool {
    0 <= i && i + lit.len() <= s.len() && s.subrange(i, i + lit.len()) == lit
}

/// The decoder, as a function: the record a wire string holds, or nothing
/// when the string is not the canonical wire form of any record.
pub open spec fn parse_user_spec(s: Seq<char>) -> Option<UserView> {
    if !has_lit(s, 0, lit_obj_id()) {
        None
    } else {
        match scan_str(s, 7) {
            None => None,
            Some((id, i1)) => {
                if !has_lit(s, i1, lit_name()) {
                    None
                } else {
                    match scan_str(s, i1 + 9) {
                        None => None,
                        Some((name, i2)) => {
                            if !has_lit(s, i2, lit_age()) {
                                None
                            } else {
                                match parse_int_spec(s, i2 + 7) {
                                    None => None,
                                    Some((age, i3)) => {
                                        if !has_lit(s, i3, lit_sex()) {
                                            None
                                        } else {
                                            match scan_str(s, i3 + 8) {
                                                None => None,
                                                Some((code, i4)) => {
                                                    match sex_of_code(code) {
                                                        None => None,
                                                        Some(sex) => {
                                                            if i4 + 1 == s.len() && s[i4] == '}' {
                                                                Some(
                                                                    UserView {
                                                                        id,
                                                                        name,
                                                                        age,
                                                                        sex,
                                                                    },
                                                                )
                                                            } else {
                                                                None
                                                            }
                                                        },
                                                    }
                                                },
                                            }
                                        }
                                    },
                                }
                            }
                        },
                    }
                }
            },
        }
    }
}

/// The escaped form of a sex wire code is the code itself.
pub proof fn lemma_esc_code(sx: Sex)
    ensures
        esc(code_seq(sx)) == code_seq(sx),
        sex_of_code(code_seq(sx)) == Some(sx),
{
    let c = code_seq(sx);
    assert(c.len() == 1);
    assert(c.drop_first() =~= Seq::<char>::empty());
    assert(esc(Seq::<char>::empty()) == Seq::<char>::empty());
    assert(esc_char(c[0]) =~= seq![c[0]]);
    assert(esc(c) =~= c);
    assert(code_seq(Sex::Male) != code_seq(Sex::Female)) by {
        assert(code_seq(Sex::Male)[0] == 'm');
        assert(code_seq(Sex::Female)[0] == 'f');
    }
}

/// Decoding is sound: whatever the decoder accepts is the canonical wire
/// form of exactly the record it returns.
#[verifier::rlimit(100)]
pub proof fn lemma_parse_user_sound(s: Seq<char>)
    ensures
        parse_user_spec(s) matches Some(v) ==> s == enc_user(v) && user_wf(v),
{
    if parse_user_spec(s) is Some {
        let v = parse_user_spec(s)->Some_0;
        let (id, i1) = scan_str(s, 7)->Some_0;
        lemma_scan_sound(s, 7);
        let (name, i2) = scan_str(s, i1 + 9)->Some_0;
        lemma_scan_sound(s, i1 + 9);
        let (age, i3) = parse_int_spec(s, i2 + 7)->Some_0;
        lemma_parse_int_sound(s, i2 + 7);
        let (code, i4) = scan_str(s, i3 + 8)->Some_0;
        lemma_scan_sound(s, i3 + 8);
        let sex = sex_of_code(code)->Some_0;
        assert(code == code_seq(sex));
        lemma_esc_code(sex);
        assert(s.subrange(i4, s.len() as int) =~= rbrace_seq());
        assert(s =~= s.subrange(0, 7) + s.subrange(7, i1) + s.subrange(i1, i1 + 9) + s.subrange(
            i1 + 9,
            i2,
        ) + s.subrange(i2, i2 + 7) + s.subrange(i2 + 7, i3) + s.subrange(i3, i3 + 8) + s.subrange(
            i3 + 8,
            i4,
        ) + s.subrange(i4, s.len() as int));
        assert(s =~= enc_user(v));
    }
}

/// Decoding is complete: the canonical wire form of every record the
/// executable type can hold decodes, and to that record. Together with
/// soundness this is the round-trip law.
#[verifier::rlimit(100)]
pub proof fn lemma_parse_user_complete(v: UserView)
    requires
        user_wf(v),
    ensures
        parse_user_spec(enc_user(v)) == Some(v),
{
    let s = enc_user(v);
    lemma_esc_code(v.sex);
    let l1: int = esc(v.id).len() as int;
    let l2: int = esc(v.name).len() as int;
    let l3: int = dec_int(v.age).len() as int;
    let i1 = 7 + l1 + 1;
    let i2 = i1 + 9 + l2 + 1;
    let i3 = i2 + 7 + l3;
    let i4 = i3 + 8 + 1 + 1;
    assert(s.len() == i4 + 1);
    assert(s.subrange(0, 7) =~= lit_obj_id());
    assert(has_lit(s, 0, lit_obj_id()));
    let rest1 = lit_name() + esc(v.name) + q_seq() + lit_age() + dec_int(v.age) + lit_sex() + esc(
        code_seq(v.sex),
    ) + q_seq() + rbrace_seq();
    assert(s.subrange(7, s.len() as int) =~= esc(v.id) + q_seq() + rest1);
    lemma_scan_complete(s, 7, v.id, rest1);
    assert(scan_str(s, 7) == Some((v.id, i1)));
    assert(s.subrange(i1, i1 + 9) =~= lit_name());
    assert(has_lit(s, i1, lit_name()));
    let rest2 = lit_age() + dec_int(v.age) + lit_sex() + esc(code_seq(v.sex)) + q_seq()
        + rbrace_seq();
    assert(s.subrange(i1 + 9, s.len() as int) =~= esc(v.name) + q_seq() + rest2);
    lemma_scan_complete(s, i1 + 9, v.name, rest2);
    assert(scan_str(s, i1 + 9) == Some((v.name, i2)));
    assert(s.subrange(i2, i2 + 7) =~= lit_age());
    assert(has_lit(s, i2, lit_age()));
    let rest3 = lit_sex() + esc(code_seq(v.sex)) + q_seq() + rbrace_seq();
    assert(s.subrange(i2 + 7, s.len() as int) =~= dec_int(v.age) + rest3);
    assert(rest3[0] == ',');
    lemma_parse_int_complete(s, i2 + 7, v.age, rest3);
    assert(parse_int_spec(s, i2 + 7) == Some((v.age, i3)));
    assert(s.subrange(i3, i3 + 8) =~= lit_sex());
    assert(has_lit(s, i3, lit_sex()));
    let rest4 = rbrace_seq();
    assert(s.subrange(i3 + 8, s.len() as int) =~= esc(code_seq(v.sex)) + q_seq() + rest4);
    lemma_scan_complete(s, i3 + 8, code_seq(v.sex), rest4);
    assert(scan_str(s, i3 + 8) == Some((code_seq(v.sex), i4)));
    assert(s[i4] == '}');
    assert(i4 + 1 == s.len());
    assert(parse_user_spec(s) == Some(UserView { id: v.id, name: v.name, age: v.age, sex: v.sex }));
    assert(UserView { id: v.id, name: v.name, age: v.age, sex: v.sex } =~= v);
}

/// The encoding is injective: distinct records never share a wire form.
pub proof fn lemma_enc_user_injective(v1: UserView, v2: UserView)
    requires
        user_wf(v1),
        user_wf(v2),
        enc_user(v1) == enc_user(v2),
    ensures
        v1 == v2,
{
    lemma_parse_user_complete(v1);
    lemma_parse_user_complete(v2);
}

// ---------------------------------------------------------------------------
// The executable encoder
// ---------------------------------------------------------------------------

/// Relies on std's `FromIterator` for `String`: collecting characters
/// yields the string of exactly those characters, in order.
#[verifier::external_body]
fn chars_to_string(v: &Vec<char>) -> (r: String)
    ensures
        r@ == v@,
{
    v.iter().collect()
}

/// Appends every character of `lit` to `out`.
fn push_lit(out: &mut Vec<char>, lit: &str)
    ensures
        final(out)@ == old(out)@ + lit@,
{
    let n = lit.unicode_len();
    proof {
        assert(old(out)@ + lit@.subrange(0, 0) =~= old(out)@);
    }
    let mut k: usize = 0;
    while k < n
        invariant
            lit@.len() == n as nat,
            k <= n,
            out@ == old(out)@ + lit@.subrange(0, k as int),
        decreases n - k,
    {
        let c = lit.get_char(k);
        out.push(c);
        k = k + 1;
        proof {
            assert(lit@.subrange(0, k as int) =~= lit@.subrange(0, k - 1 as int).push(
                lit@[k - 1 as int],
            ));
            assert(out@ =~= old(out)@ + lit@.subrange(0, k as int));
        }
    }
    proof {
        assert(lit@.subrange(0, n as int) =~= lit@);
    }
}

/// Appends the escaped form of `s` to `out`.
fn push_escaped(out: &mut Vec<char>, s: &str)
    ensures
        final(out)@ == old(out)@ + esc(s@),
{
    let n = s.unicode_len();
    proof {
        assert(esc(s@.subrange(0, 0)) == Seq::<char>::empty());
        assert(old(out)@ + esc(s@.subrange(0, 0)) =~= old(out)@);
    }
    let mut k: usize = 0;
    while k < n
        invariant
            s@.len() == n as nat,
            k <= n,
            out@ == old(out)@ + esc(s@.subrange(0, k as int)),
        decreases n - k,
    {
        let c = s.get_char(k);
        if c == '"' || c == '\\' {
            out.push('\\');
            out.push(c);
        } else {
            out.push(c);
        }
        k = k + 1;
        proof {
            let pre = s@.subrange(0, k - 1 as int);
            assert(s@.subrange(0, k as int) =~= pre.push(s@[k - 1 as int]));
            lemma_esc_push(pre, s@[k - 1 as int]);
            assert(out@ =~= old(out)@ + esc(s@.subrange(0, k as int)));
        }
    }
    proof {
        assert(s@.subrange(0, n as int) =~= s@);
    }
}

/// The character of one digit, executably.
fn digit_to_char(d: u64) -> (c: char)
    requires
        d < 10,
    ensures
        c == digit_char(d as int),
{
    if d == 0 { '0' }
    else if d == 1 { '1' }
    else if d == 2 { '2' }
    else if d == 3 { '3' }
    else if d == 4 { '4' }
    else if d == 5 { '5' }
    else if d == 6 { '6' }
    else if d == 7 { '7' }
    else if d == 8 { '8' }
    else { '9' }
}

/// Appends the canonical digit run of `m` to `out`.
fn push_digits(out: &mut Vec<char>, m: u64)
    ensures
        final(out)@ == old(out)@ + dec_digits(m as int),
{
    let mut tmp: Vec<char> = Vec::new();
    let mut x: u64 = m;
    proof {
        assert(tmp@.reverse() =~= Seq::<char>::empty());
        assert(dec_digits(m as int) =~= dec_digits(x as int) + tmp@.reverse());
    }
    loop
        invariant_except_break
            dec_digits(m as int) == dec_digits(x as int) + tmp@.reverse(),
        ensures
            dec_digits(m as int) == tmp@.reverse(),
        decreases x,
    {
        let d = x % 10;
        tmp.push(digit_to_char(d));
        if x < 10 {
            proof {
                assert(dec_digits(x as int) == seq![digit_char(x as int)]);
                assert(tmp@.reverse() =~= seq![digit_char(x as int)]
                    + tmp@.drop_last().reverse());
                assert(dec_digits(m as int) =~= tmp@.reverse());
            }
            break;
        }
        proof {
            assert(0 <= (x as int) / 10 < x as int) by (nonlinear_arith)
                requires x >= 10;
        }
        x = x / 10;
        proof {
            let xi = x as int;
            assert(tmp@.reverse() =~= seq![tmp@.last()] + tmp@.drop_last().reverse());
            assert(dec_digits(m as int) =~= dec_digits(xi) + tmp@.reverse());
        }
    }
    // emit tmp backwards
    let mut k: usize = tmp.len();
    proof {
        assert(old(out)@ + tmp@.reverse().subrange(0, 0) =~= old(out)@);
    }
    while k > 0
        invariant
            k <= tmp@.len(),
            dec_digits(m as int) == tmp@.reverse(),
            out@ == old(out)@ + tmp@.reverse().subrange(0, tmp@.len() - k),
        decreases k,
    {
        let c = tmp[k - 1];
        out.push(c);
        k = k - 1;
        proof {
            let r = tmp@.reverse();
            let e: int = tmp@.len() - k;
            assert(r[e - 1] == tmp@[k as int]);
            assert(r.subrange(0, e) =~= r.subrange(0, e - 1).push(r[e - 1]));
            assert(out@ =~= old(out)@ + r.subrange(0, e));
        }
    }
    proof {
        let r = tmp@.reverse();
        assert(r.subrange(0, r.len() as int) =~= r);
    }
}

/// Appends the canonical decimal form of `a` to `out`.
fn push_int(out: &mut Vec<char>, a: i32)
    ensures
        final(out)@ == old(out)@ + dec_int(a as int),
{
    if a < 0 {
        out.push('-');
        let m: u64 = (-(a as i64)) as u64;
        proof {
            assert(m as int == -(a as int));
        }
        push_digits(out, m);
        proof {
            assert(dec_int(a as int) == seq!['-'] + dec_digits(-(a as int)));
            assert(final(out)@ =~= old(out)@ + dec_int(a as int));
        }
    } else {
        push_digits(out, a as u64);
    }
}

/// Appends the canonical wire form of one record to `out`.
#[verifier::rlimit(100)]
fn push_user(out: &mut Vec<char>, u: &User)
    ensures
        final(out)@ == old(out)@ + enc_user(u@),
{
    proof {
        reveal_strlit("{\"id\":\"");
        reveal_strlit(",\"name\":\"");
        reveal_strlit(",\"age\":");
        reveal_strlit(",\"sex\":\"");
        assert("{\"id\":\""@ =~= lit_obj_id());
        assert(",\"name\":\""@ =~= lit_name());
        assert(",\"age\":"@ =~= lit_age());
        assert(",\"sex\":\""@ =~= lit_sex());
        lemma_esc_code(u.sex);
    }
    push_lit(out, "{\"id\":\"");
    push_escaped(out, self_id(u));
    out.push('"');
    push_lit(out, ",\"name\":\"");
    push_escaped(out, self_name(u));
    out.push('"');
    push_lit(out, ",\"age\":");
    push_int(out, u.age);
    push_lit(out, ",\"sex\":\"");
    push_lit(out, u.sex.code());
    out.push('"');
    out.push('}');
    proof {
        assert(final(out)@ =~= old(out)@ + enc_user(u@));
    }
}

/// The identity key of a record, as a borrowed string.
fn self_id(u: &User) -> (r: &str)
    ensures
        r@ == u@.id,
{
    u.id.as_str()
}

/// The display name of a record, as a borrowed string.
fn self_name(u: &User) -> (r: &str)
    ensures
        r@ == u@.name,
{
    u.name.as_str()
}

/// Encodes one record to its canonical wire form.
pub fn encode_user(u: &User) -> (r: String)
    ensures
        r@ == enc_user(u@),
{
    let mut out: Vec<char> = Vec::new();
    push_user(&mut out, u);
    proof {
        assert(out@ =~= enc_user(u@));
    }
    chars_to_string(&out)
}

/// The model of a record sequence.
pub open spec fn views_of(us: Seq<User>) -> Seq<UserView> {
    us.map_values(|u: User| u@)
}

/// The inside of an encoded record sequence: the records' wire forms
/// joined with commas.
pub open spec fn enc_users_inner(vs: Seq<UserView>) -> Seq<char>
    decreases vs.len(),
{
    if vs.len() == 0 {
        Seq::empty()
    } else if vs.len() == 1 {
        enc_user(vs[0])
    } else {
        enc_users_inner(vs.drop_last()) + seq![','] + enc_user(vs.last())
    }
}

/// The wire form of a record sequence: the bracketed, comma-separated
/// wire forms of its records, in order.
pub open spec fn enc_users(vs: Seq<UserView>) -> Seq<char> {
    seq!['['] + enc_users_inner(vs) + seq![']']
}

/// Encodes a sequence of records to its wire form.
pub fn encode_users(users: &Vec<User>) -> (r: String)
    ensures
        r@ == enc_users(views_of(users@)),
{
    let ghost vs = views_of(users@);
    let mut out: Vec<char> = Vec::new();
    out.push('[');
    proof {
        assert(enc_users_inner(vs.subrange(0, 0)) == Seq::<char>::empty());
        assert(out@ =~= seq!['['] + enc_users_inner(vs.subrange(0, 0)));
    }
    let mut i: usize = 0;
    while i < users.len()
        invariant
            i <= users@.len(),
            vs == views_of(users@),
            vs.len() == users@.len(),
            out@ == seq!['['] + enc_users_inner(vs.subrange(0, i as int)),
        decreases users@.len() - i,
    {
        if i > 0 {
            out.push(',');
        }
        push_user(&mut out, &users[i]);
        i = i + 1;
        proof {
            let pre = vs.subrange(0, i - 1 as int);
            let cur = vs.subrange(0, i as int);
            assert(cur.drop_last() =~= pre);
            assert(cur.last() == vs[i - 1 as int]);
            assert(vs[i - 1 as int] == users@[i - 1 as int]@);
            if i == 1 {
                assert(enc_users_inner(cur) == enc_user(cur[0]));
                assert(out@ =~= seq!['['] + enc_users_inner(cur));
            } else {
                assert(enc_users_inner(cur) == enc_users_inner(pre) + seq![','] + enc_user(
                    cur.last(),
                ));
                assert(out@ =~= seq!['['] + enc_users_inner(cur));
            }
        }
    }
    out.push(']');
    proof {
        assert(vs.subrange(0, vs.len() as int) =~= vs);
        assert(out@ =~= enc_users(vs));
    }
    chars_to_string(&out)
}

// ---------------------------------------------------------------------------
// The executable decoder
// ---------------------------------------------------------------------------

/// Reads one quoted-string body from position `i`, appending the unescaped
/// characters to `out`; returns the position after the closing quote.
fn scan_string(s: &str, n: usize, i: usize, out: &mut Vec<char>) -> (r: Option<usize>)
    requires
        s@.len() == n as nat,
        i <= n,
    ensures
        match scan_str(s@, i as int) {
            Some((x, j)) => r matches Some(j2) && j2 as int == j && final(out)@ == old(out)@ + x,
            None => r is None,
        },
    decreases n - i,
{
    if i == n {
        return None;
    }
    let c = s.get_char(i);
    if c == '"' {
        proof {
            assert(old(out)@ + Seq::<char>::empty() =~= old(out)@);
        }
        Some(i + 1)
    } else if c == '\\' {
        if i + 1 < n {
            let c2 = s.get_char(i + 1);
            if c2 == '"' || c2 == '\\' {
                out.push(c2);
                let r = scan_string(s, n, i + 2, out);
                proof {
                    if let Some((x2, j)) = scan_str(s@, i + 2) {
                        assert(final(out)@ =~= old(out)@ + (seq![s@[i + 1]] + x2));
                    }
                }
                r
            } else {
                None
            }
        } else {
            None
        }
    } else {
        out.push(c);
        let r = scan_string(s, n, i + 1, out);
        proof {
            if let Some((x2, j)) = scan_str(s@, i + 1) {
                assert(final(out)@ =~= old(out)@ + (seq![s@[i as int]] + x2));
            }
        }
        r
    }
}

/// Whether a literal stands at position `i`; on success, the position
/// after it.
fn expect_lit(s: &str, n: usize, i: usize, lit: &str) -> (r: Option<usize>)
    requires
        s@.len() == n as nat,
        i <= n,
    ensures
        r matches Some(j) ==> j as int == i + lit@.len() && has_lit(s@, i as int, lit@),
        r is None ==> !has_lit(s@, i as int, lit@),
{
    let m = lit.unicode_len();
    if n - i < m {
        return None;
    }
    let mut k: usize = 0;
    while k < m
        invariant
            s@.len() == n as nat,
            lit@.len() == m as nat,
            i + m <= n,
            k <= m,
            forall|t: int| 0 <= t < k ==> s@[i + t] == #[trigger] lit@[t],
        decreases m - k,
    {
        let a = s.get_char(i + k);
        let b = lit.get_char(k);
        if a != b {
            proof {
                assert(!has_lit(s@, i as int, lit@)) by {
                    if has_lit(s@, i as int, lit@) {
                        assert(s@.subrange(i as int, i + lit@.len())[k as int] == lit@[k as int]);
                        assert(s@[i + k] == lit@[k as int]);
                    }
                }
            }
            return None;
        }
        k = k + 1;
    }
    proof {
        assert(s@.subrange(i as int, i + lit@.len()) =~= lit@);
    }
    Some(i + m)
}

/// Whether a character is a digit, executably.
fn is_digit_exec(c: char) -> (r: bool)
    ensures
        r == is_digit(c),
{
    c == '0' || c == '1' || c == '2' || c == '3' || c == '4' || c == '5' || c == '6' || c == '7'
        || c == '8' || c == '9'
}

/// The value of a digit character, executably.
fn digit_val_exec(c: char) -> (r: u64)
    requires
        is_digit(c),
    ensures
        r as int == digit_val(c),
{
    if c == '0' { 0 }
    else if c == '1' { 1 }
    else if c == '2' { 2 }
    else if c == '3' { 3 }
    else if c == '4' { 4 }
    else if c == '5' { 5 }
    else if c == '6' { 6 }
    else if c == '7' { 7 }
    else if c == '8' { 8 }
    else { 9 }
}

/// The end of the digit run that starts at `i`.
fn digit_run(s: &str, n: usize, i: usize) -> (j: usize)
    requires
        s@.len() == n as nat,
        i <= n,
    ensures
        j as int == digit_run_end(s@, i as int),
        i <= j <= n,
    decreases n - i,
{
    if i == n {
        return i;
    }
    let c = s.get_char(i);
    if is_digit_exec(c) {
        digit_run(s, n, i + 1)
    } else {
        i
    }
}

/// Powers of ten are monotone in the exponent.
proof fn lemma_pow10_mono(a: nat, b: nat)
    requires
        a <= b,
    ensures
        pow10(a) <= pow10(b),
    decreases b,
{
    if a < b {
        lemma_pow10_mono(a, (b - 1) as nat);
        lemma_pow10_pos((b - 1) as nat);
        assert(pow10(b) == 10 * pow10((b - 1) as nat));
    }
}

/// Reads an unsigned decimal field from position `i`.
fn parse_nat_field(s: &str, n: usize, i: usize) -> (r: Option<(u64, usize)>)
    requires
        s@.len() == n as nat,
        i <= n,
    ensures
        match parse_nat_spec(s@, i as int) {
            Some((v, j)) => r matches Some(p) && p.0 as int == v && p.1 as int == j,
            None => r is None,
        },
{
    proof {
        lemma_digit_run(s@, i as int);
    }
    let j = digit_run(s, n, i);
    if j == i {
        return None;
    }
    let first = s.get_char(i);
    if first == '0' && j > i + 1 {
        return None;
    }
    if j - i > 10 {
        return None;
    }
    let ghost ds = s@.subrange(i as int, j as int);
    proof {
        assert(forall|t: int| 0 <= t < ds.len() ==> is_digit(#[trigger] ds[t]));
        lemma_pow10_ten();
    }
    let mut acc: u64 = 0;
    let mut k: usize = i;
    proof {
        assert(s@.subrange(i as int, i as int) =~= Seq::<char>::empty());
        assert(digits_val(Seq::<char>::empty()) == 0);
    }
    while k < j
        invariant
            s@.len() == n as nat,
            i <= k <= j <= n,
            j - i <= 10,
            j as int == digit_run_end(s@, i as int),
            forall|t: int| i <= t < j ==> is_digit(#[trigger] s@[t]),
            acc as int == digits_val(s@.subrange(i as int, k as int)),
            (acc as int) < pow10((k - i) as nat),
        decreases j - k,
    {
        let c = s.get_char(k);
        let d = digit_val_exec(c);
        proof {
            lemma_pow10_ten();
            lemma_pow10_mono((k - i + 1) as nat, 10);
            let pre = s@.subrange(i as int, k as int);
            let cur = s@.subrange(i as int, k + 1 as int);
            assert(cur.drop_last() =~= pre);
            assert(cur.last() == s@[k as int]);
            assert(digits_val(cur) == digits_val(pre) * 10 + digit_val(s@[k as int]));
            assert(pow10((k - i + 1) as nat) == 10 * pow10((k - i) as nat));
            assert(digits_val(pre) * 10 + digit_val(s@[k as int]) < pow10((k - i + 1) as nat))
                by (nonlinear_arith)
                requires
                    digits_val(pre) < pow10((k - i) as nat),
                    digit_val(s@[k as int]) <= 9,
                    pow10((k - i + 1) as nat) == 10 * pow10((k - i) as nat),
            ;
        }
        acc = acc * 10 + d;
        k = k + 1;
    }
    Some((acc, j))
}

/// Reads a signed decimal field from position `i`.
fn parse_int_field(s: &str, n: usize, i: usize) -> (r: Option<(i32, usize)>)
    requires
        s@.len() == n as nat,
        i <= n,
    ensures
        match parse_int_spec(s@, i as int) {
            Some((v, j)) => r matches Some(p) && p.0 as int == v && p.1 as int == j,
            None => r is None,
        },
{
    let neg = i < n && {
        let c = s.get_char(i);
        c == '-'
    };
    if neg {
        match parse_nat_field(s, n, i + 1) {
            None => None,
            Some((v, j)) => {
                if v == 0 || v > 2147483648 {
                    None
                } else if v == 2147483648 {
                    Some((i32::MIN, j))
                } else {
                    Some((-(v as i32), j))
                }
            },
        }
    } else {
        match parse_nat_field(s, n, i) {
            None => None,
            Some((v, j)) => {
                if v > 2147483647 {
                    None
                } else {
                    Some((v as i32, j))
                }
            },
        }
    }
}

/// The message of the uniform error that a malformed wire body raises.
fn malformed() -> (r: AppError)
    ensures
        r.message@ == "Malformed user body"@,
{
    AppError::new("Malformed user body".to_owned())
}

/// Decodes the canonical wire form of one record. Exactly the strings that
/// `enc_user` produces are accepted; everything else is a uniform decode
/// error, and decoding what `encode_user` produced yields an equal record.
pub fn decode_user(s: &str) -> (r: Result<User, AppError>)
    ensures
        match parse_user_spec(s@) {
            Some(v) => r matches Ok(u) && u@ == v,
            None => r matches Err(e) && e.message@ == "Malformed user body"@,
        },
        r matches Ok(u) ==> s@ == enc_user(u@) && user_wf(u@),
{
    proof {
        reveal_strlit("{\"id\":\"");
        reveal_strlit(",\"name\":\"");
        reveal_strlit(",\"age\":");
        reveal_strlit(",\"sex\":\"");
        assert("{\"id\":\""@ =~= lit_obj_id());
        assert(",\"name\":\""@ =~= lit_name());
        assert(",\"age\":"@ =~= lit_age());
        assert(",\"sex\":\""@ =~= lit_sex());
        lemma_parse_user_sound(s@);
    }
    let n = s.unicode_len();
    let i0 = match expect_lit(s, n, 0, "{\"id\":\"") {
        Some(p) => p,
        None => {
            return Err(malformed());
        },
    };
    let mut idbuf: Vec<char> = Vec::new();
    let i1 = match scan_string(s, n, i0, &mut idbuf) {
        Some(p) => p,
        None => {
            return Err(malformed());
        },
    };
    proof {
        lemma_scan_sound(s@, i0 as int);
    }
    let i1b = match expect_lit(s, n, i1, ",\"name\":\"") {
        Some(p) => p,
        None => {
            return Err(malformed());
        },
    };
    let mut namebuf: Vec<char> = Vec::new();
    let i2 = match scan_string(s, n, i1b, &mut namebuf) {
        Some(p) => p,
        None => {
            return Err(malformed());
        },
    };
    proof {
        lemma_scan_sound(s@, i1b as int);
    }
    let i2b = match expect_lit(s, n, i2, ",\"age\":") {
        Some(p) => p,
        None => {
            return Err(malformed());
        },
    };
    let (age, i3) = match parse_int_field(s, n, i2b) {
        Some(p) => p,
        None => {
            return Err(malformed());
        },
    };
    proof {
        lemma_parse_int_sound(s@, i2b as int);
    }
    let i3b = match expect_lit(s, n, i3, ",\"sex\":\"") {
        Some(p) => p,
        None => {
            return Err(malformed());
        },
    };
    let mut sexbuf: Vec<char> = Vec::new();
    let i4 = match scan_string(s, n, i3b, &mut sexbuf) {
        Some(p) => p,
        None => {
            return Err(malformed());
        },
    };
    let code = chars_to_string(&sexbuf);
    let sex = match Sex::from_code(code.as_str()) {
        Ok(sx) => sx,
        Err(_) => {
            return Err(malformed());
        },
    };
    if !(i4 < n && i4 + 1 == n) {
        return Err(malformed());
    }
    let last = s.get_char(i4);
    if last != '}' {
        return Err(malformed());
    }
    let u = User { id: chars_to_string(&idbuf), name: chars_to_string(&namebuf), age, sex };
    proof {
        let v = parse_user_spec(s@)->Some_0;
        assert(u@ =~= v);
    }
    Ok(u)
}

} // verus!
