//! Text codecs for the integers the relay moves around: decimal amount
//! strings, lowercase hex renderings of hashes and addresses, and big-endian
//! byte words from event payloads.

use vstd::prelude::*;
use vstd::slice::slice_to_vec;

verus! {

/// A decimal digit character.
pub open spec fn is_dec_digit(c: char) -> bool {
    48 <= c as u32 && c as u32 <= 57
}

/// Numeric value of a decimal digit character.
pub open spec fn dec_digit_val(c: char) -> nat {
    (c as u32 - 48) as nat
}

/// Every character of `s` is a decimal digit.
pub open spec fn all_dec_digits(s: Seq<char>) -> bool {
    forall|i: int| 0 <= i < s.len() ==> is_dec_digit(#[trigger] s[i])
}

/// Value of a sequence of decimal digit characters, most significant first.
pub open spec fn dec_val(s: Seq<char>) -> nat
    decreases s.len(),
{
    if s.len() == 0 {
        0
    } else {
        dec_val(s.drop_last()) * 10 + dec_digit_val(s.last())
    }
}

/// The digit character for a value below ten.
pub open spec fn dec_digit_char(n: nat) -> char {
    if n == 0 { '0' } else if n == 1 { '1' } else if n == 2 { '2' } else if n == 3 { '3' }
    else if n == 4 { '4' } else if n == 5 { '5' } else if n == 6 { '6' } else if n == 7 { '7' }
    else if n == 8 { '8' } else { '9' }
}

/// Canonical decimal rendering of a natural number: no sign, no leading zero
/// except for the number zero itself.
pub open spec fn dec_chars_of(n: nat) -> Seq<char>
    decreases n,
{
    if n < 10 {
        seq![dec_digit_char(n)]
    } else {
        dec_chars_of(n / 10).push(dec_digit_char(n % 10))
    }
}

fn dec_digit_str(d: u128) -> (r: &'static str)
    requires
        d < 10,
    ensures
        r@ =~= seq![dec_digit_char(d as nat)],
{
    proof {
        reveal_strlit("0");
        reveal_strlit("1");
        reveal_strlit("2");
        reveal_strlit("3");
        reveal_strlit("4");
        reveal_strlit("5");
        reveal_strlit("6");
        reveal_strlit("7");
        reveal_strlit("8");
        reveal_strlit("9");
    }
    match d {
        0 => "0",
        1 => "1",
        2 => "2",
        3 => "3",
        4 => "4",
        5 => "5",
        6 => "6",
        7 => "7",
        8 => "8",
        _ => "9",
    }
}

/// Renders an amount in the canonical decimal form the deposit records store.
pub fn u128_to_dec_string(n: u128) -> (r: String)
    ensures
        r@ == dec_chars_of(n as nat),
    decreases n,
{
    if n < 10 {
        dec_digit_str(n).to_owned()
    } else {
        assert(n / 10 < n) by (nonlinear_arith)
            requires n >= 10;
        let mut s = u128_to_dec_string(n / 10);
        s.append(dec_digit_str(n % 10));
        assert(s@ =~= dec_chars_of((n / 10) as nat).push(dec_digit_char((n % 10) as nat)));
        s
    }
}

proof fn lemma_dec_val_take_step(s: Seq<char>, i: int)
    requires
        0 <= i < s.len(),
    ensures
        dec_val(s.take(i + 1)) == dec_val(s.take(i)) * 10 + dec_digit_val(s[i]),
{
    assert(s.take(i + 1).drop_last() =~= s.take(i));
    assert(s.take(i + 1).last() == s[i]);
}

proof fn lemma_dec_val_take_mono(s: Seq<char>, i: int)
    requires
        0 <= i <= s.len(),
    ensures
        dec_val(s.take(i)) <= dec_val(s),
    decreases s.len() - i,
{
    if i == s.len() {
        assert(s.take(i) =~= s);
    } else {
        lemma_dec_val_take_step(s, i);
        assert(dec_val(s.take(i)) * 10 >= dec_val(s.take(i))) by (nonlinear_arith);
        lemma_dec_val_take_mono(s, i + 1);
    }
}

/// The digits of a decimal number text: everything after an optional leading
/// plus sign.
pub open spec fn dec_body(s: Seq<char>) -> Seq<char> {
    if s.len() > 0 && s[0] == '+' {
        s.drop_first()
    } else {
        s
    }
}

/// What `str::parse::<u128>` accepts: an optional leading plus sign, then one
/// or more decimal digits, with a value that fits the type.
pub open spec fn parse_u128_chars(s: Seq<char>) -> Option<u128> {
    if dec_body(s).len() > 0 && all_dec_digits(dec_body(s)) && dec_val(dec_body(s)) <= u128::MAX {
        Some(dec_val(dec_body(s)) as u128)
    } else {
        None
    }
}

/// Parses a decimal amount string, as the transfer engine does before acting
/// on a deposit.
pub fn parse_u128(s: &str) -> (r: Option<u128>)
    ensures
        r == parse_u128_chars(s@),
{
    let n = s.unicode_len();
    let start: usize = if n > 0 && s.get_char(0) == '+' {
        1
    } else {
        0
    };
    let ghost body: Seq<char> = dec_body(s@);
    assert(body =~= s@.subrange(start as int, n as int));
    if start == n {
        return None;
    }
    let mut acc: u128 = 0;
    let mut i: usize = start;
    while i < n
        invariant
            start <= i <= n,
            n == s@.len(),
            body == dec_body(s@),
            body =~= s@.subrange(start as int, n as int),
            all_dec_digits(body.take(i - start)),
            acc == dec_val(body.take(i - start)),
        decreases n - i,
    {
        let c = s.get_char(i);
        let u = c as u32;
        assert(body[i - start] == s@[i as int]);
        if u < 48 || u > 57 {
            assert(!is_dec_digit(body[i - start]));
            return None;
        }
        let d: u128 = (u - 48) as u128;
        proof {
            lemma_dec_val_take_step(body, i - start);
        }
        let next = match acc.checked_mul(10) {
            Some(m) => m.checked_add(d),
            None => None,
        };
        match next {
            Some(v) => {
                acc = v;
            },
            None => {
                proof {
                    lemma_dec_val_take_mono(body, i - start + 1);
                }
                assert(dec_digit_val(body[i - start]) == d);
                assert(dec_val(body.take(i - start + 1)) > u128::MAX);
                assert(dec_val(body) > u128::MAX);
                return None;
            },
        }
        i = i + 1;
    }
    assert(body.take(n - start) =~= body);
    Some(acc)
}

/// Round trip: the canonical decimal rendering parses back to the same value.
pub proof fn lemma_dec_chars_of_val(n: nat)
    ensures
        all_dec_digits(dec_chars_of(n)),
        dec_chars_of(n).len() > 0,
        dec_val(dec_chars_of(n)) == n,
        dec_chars_of(n)[0] != '+',
    decreases n,
{
    if n < 10 {
        let s = dec_chars_of(n);
        assert(s =~= seq![dec_digit_char(n)]);
        assert(s.drop_last() =~= Seq::<char>::empty());
        assert(dec_val(s.drop_last()) == 0);
        assert(s.last() == dec_digit_char(n));
        assert(dec_digit_val(dec_digit_char(n)) == n);
        assert(dec_val(s) == 0 * 10 + dec_digit_val(dec_digit_char(n)));
    } else {
        lemma_dec_chars_of_val(n / 10);
        let s = dec_chars_of(n);
        assert(s.drop_last() =~= dec_chars_of(n / 10));
        assert(s.last() == dec_digit_char(n % 10));
        assert(dec_val(s) == (n / 10) * 10 + n % 10);
        assert((n / 10) * 10 + n % 10 == n) by (nonlinear_arith);
        assert forall|i: int| 0 <= i < s.len() implies is_dec_digit(#[trigger] s[i]) by {
            if i < s.len() - 1 {
                assert(s[i] == dec_chars_of(n / 10)[i]);
            }
        }
    }
}

/// Round trip at the executable level: rendering then parsing restores `n`.
pub proof fn lemma_dec_string_round_trip(n: u128)
    ensures
        parse_u128_chars(dec_chars_of(n as nat)) == Some(n),
{
    lemma_dec_chars_of_val(n as nat);
}

/// A hex digit character, lowercase.
pub open spec fn hex_digit_char(n: nat) -> char {
    if n == 0 { '0' } else if n == 1 { '1' } else if n == 2 { '2' } else if n == 3 { '3' }
    else if n == 4 { '4' } else if n == 5 { '5' } else if n == 6 { '6' } else if n == 7 { '7' }
    else if n == 8 { '8' } else if n == 9 { '9' } else if n == 10 { 'a' } else if n == 11 { 'b' }
    else if n == 12 { 'c' } else if n == 13 { 'd' } else if n == 14 { 'e' } else { 'f' }
}

/// Lowercase hex rendering of a byte sequence, two digits per byte.
pub open spec fn hex_chars_of(s: Seq<u8>) -> Seq<char>
    decreases s.len(),
{
    if s.len() == 0 {
        Seq::<char>::empty()
    } else {
        hex_chars_of(s.drop_last())
            .push(hex_digit_char((s.last() >> 4) as nat))
            .push(hex_digit_char((s.last() & 0xf) as nat))
    }
}

fn hex_digit_str(d: u8) -> (r: &'static str)
    requires
        d < 16,
    ensures
        r@ =~= seq![hex_digit_char(d as nat)],
{
    proof {
        reveal_strlit("0");
        reveal_strlit("1");
        reveal_strlit("2");
        reveal_strlit("3");
        reveal_strlit("4");
        reveal_strlit("5");
        reveal_strlit("6");
        reveal_strlit("7");
        reveal_strlit("8");
        reveal_strlit("9");
        reveal_strlit("a");
        reveal_strlit("b");
        reveal_strlit("c");
        reveal_strlit("d");
        reveal_strlit("e");
        reveal_strlit("f");
    }
    match d {
        0 => "0",
        1 => "1",
        2 => "2",
        3 => "3",
        4 => "4",
        5 => "5",
        6 => "6",
        7 => "7",
        8 => "8",
        9 => "9",
        10 => "a",
        11 => "b",
        12 => "c",
        13 => "d",
        14 => "e",
        _ => "f",
    }
}

/// Renders bytes as a `0x`-prefixed lowercase hex string, the way the relay
/// records transaction hashes and source addresses.
pub fn hex_0x_string(b: &[u8]) -> (r: String)
    ensures
        r@ == seq!['0', 'x'] + hex_chars_of(b@),
{
    proof {
        reveal_strlit("0x");
    }
    let mut r: String = "0x".to_owned();
    assert(r@ =~= seq!['0', 'x']);
    let len = b.len();
    let mut i: usize = 0;
    while i < len
        invariant
            0 <= i <= len,
            len == b@.len(),
            r@ == seq!['0', 'x'] + hex_chars_of(b@.take(i as int)),
        decreases len - i,
    {
        let byte = b[i];
        assert((byte >> 4) < 16 && (byte & 0xf) < 16) by (bit_vector);
        r.append(hex_digit_str(byte >> 4));
        r.append(hex_digit_str(byte & 0xf));
        proof {
            assert(b@.take(i + 1).drop_last() =~= b@.take(i as int));
            assert(b@.take(i + 1).last() == b@[i as int]);
            assert(r@ =~= seq!['0', 'x'] + hex_chars_of(b@.take(i + 1)));
        }
        i = i + 1;
    }
    assert(b@.take(len as int) =~= b@);
    r
}

/// Value of a byte sequence read as a big-endian unsigned integer.
pub open spec fn be_val(s: Seq<u8>) -> nat
    decreases s.len(),
{
    if s.len() == 0 {
        0
    } else {
        be_val(s.drop_last()) * 256 + s.last() as nat
    }
}

proof fn lemma_be_val_take_step(s: Seq<u8>, i: int)
    requires
        0 <= i < s.len(),
    ensures
        be_val(s.take(i + 1)) == be_val(s.take(i)) * 256 + s[i],
{
    assert(s.take(i + 1).drop_last() =~= s.take(i));
    assert(s.take(i + 1).last() == s[i]);
}

proof fn lemma_be_val_take_mono(s: Seq<u8>, i: int)
    requires
        0 <= i <= s.len(),
    ensures
        be_val(s.take(i)) <= be_val(s),
    decreases s.len() - i,
{
    if i == s.len() {
        assert(s.take(i) =~= s);
    } else {
        lemma_be_val_take_step(s, i);
        assert(be_val(s.take(i)) * 256 >= be_val(s.take(i))) by (nonlinear_arith);
        lemma_be_val_take_mono(s, i + 1);
    }
}

proof fn lemma_be_val_zero(s: Seq<u8>)
    ensures
        (forall|i: int| 0 <= i < s.len() ==> s[i] == 0) <==> be_val(s) == 0,
    decreases s.len(),
{
    if s.len() > 0 {
        lemma_be_val_zero(s.drop_last());
        if be_val(s) == 0 {
            assert(be_val(s.drop_last()) * 256 >= 0) by (nonlinear_arith);
            assert forall|i: int| 0 <= i < s.len() implies s[i] == 0 by {
                if i < s.len() - 1 {
                    assert(s.drop_last()[i] == s[i]);
                }
            }
        } else {
            if forall|i: int| 0 <= i < s.len() ==> s[i] == 0 {
                assert forall|i: int| 0 <= i < s.drop_last().len() implies s.drop_last()[i]
                    == 0 by {
                    assert(s.drop_last()[i] == s[i]);
                }
                assert(be_val(s.drop_last()) == 0);
            }
        }
    }
}

fn is_zero_bytes(b: &Vec<u8>) -> (r: bool)
    ensures
        r == (be_val(b@) == 0),
{
    let n = b.len();
    let mut i: usize = 0;
    while i < n
        invariant
            0 <= i <= n,
            n == b@.len(),
            forall|j: int| 0 <= j < i ==> b@[j] == 0,
        decreases n - i,
    {

        if b[i] != 0 {
            proof {
                assert(be_val(b@) != 0) by {
                    lemma_be_val_zero(b@);
                    if be_val(b@) == 0 {
                        assert(b@[i as int] == 0);
                    }
                }
            }
            return false;
        }
        i = i + 1;
    }
    proof {
        lemma_be_val_zero(b@);
    }
    true
}

/// Divides a big-endian byte number by ten, yielding the quotient in the
/// same width and the remainder digit.
fn divmod10_bytes(b: &Vec<u8>) -> (r: (Vec<u8>, u8))
    ensures
        r.0@.len() == b@.len(),
        r.1 < 10,
        be_val(b@) == be_val(r.0@) * 10 + r.1,
{
    let n = b.len();
    let mut q: Vec<u8> = Vec::new();
    let mut rem: u32 = 0;
    let mut i: usize = 0;
    while i < n
        invariant
            0 <= i <= n,
            n == b@.len(),
            q@.len() == i,
            rem < 10,
            be_val(b@.take(i as int)) == be_val(q@) * 10 + rem,
        decreases n - i,
    {
        let cur: u32 = rem * 256 + (b[i] as u32);
        let qd: u32 = cur / 10;
        let new_rem: u32 = cur % 10;
        let ghost pre_q = q@;
        proof {
            lemma_be_val_take_step(b@, i as int);
            assert(qd < 256) by (nonlinear_arith)
                requires qd == cur / 10 && cur < 2560;
            assert(cur == qd * 10 + new_rem) by (nonlinear_arith)
                requires qd == cur / 10 && new_rem == cur % 10;
            assert((be_val(pre_q) * 10 + rem) * 256 + b@[i as int] == (be_val(pre_q) * 256 + qd)
                * 10 + new_rem) by (nonlinear_arith)
                requires rem * 256 + b@[i as int] == qd * 10 + new_rem;
        }
        q.push(qd as u8);
        proof {
            assert(q@.drop_last() =~= pre_q);
            assert(q@.last() == qd as u8);
            assert(be_val(q@) == be_val(pre_q) * 256 + qd);
            assert(be_val(b@.take(i + 1)) == be_val(q@) * 10 + new_rem);
        }
        rem = new_rem;
        i = i + 1;
    }
    assert(b@.take(n as int) =~= b@);
    (q, rem as u8)
}

/// Value of a little-endian sequence of digit values.
pub open spec fn dec_digits_val(ds: Seq<u8>) -> nat
    decreases ds.len(),
{
    if ds.len() == 0 {
        0
    } else {
        ds[0] as nat + 10 * dec_digits_val(ds.drop_first())
    }
}

/// The characters of a little-endian digit sequence, most significant
/// first.
pub open spec fn chars_rev_of(ds: Seq<u8>) -> Seq<char>
    decreases ds.len(),
{
    if ds.len() == 0 {
        Seq::<char>::empty()
    } else {
        chars_rev_of(ds.drop_first()).push(dec_digit_char(ds[0] as nat))
    }
}

proof fn lemma_dec_digits_val_pos(ds: Seq<u8>)
    requires
        ds.len() > 0,
        ds.last() != 0,
    ensures
        dec_digits_val(ds) > 0,
    decreases ds.len(),
{
    if ds.len() > 1 {
        assert(ds.drop_first().last() == ds.last());
        lemma_dec_digits_val_pos(ds.drop_first());
        assert(10 * dec_digits_val(ds.drop_first()) > 0) by (nonlinear_arith)
            requires dec_digits_val(ds.drop_first()) > 0;
    }
}

proof fn lemma_digits_to_chars(ds: Seq<u8>)
    requires
        ds.len() > 0,
        forall|i: int| 0 <= i < ds.len() ==> (#[trigger] ds[i]) < 10,
        ds.last() != 0 || ds.len() == 1,
    ensures
        chars_rev_of(ds) == dec_chars_of(dec_digits_val(ds)),
    decreases ds.len(),
{
    let n = dec_digits_val(ds);
    if ds.len() == 1 {
        assert(ds.drop_first() =~= Seq::<u8>::empty());
        assert(dec_digits_val(ds.drop_first()) == 0);
        assert(n == ds[0] as nat + 10 * dec_digits_val(ds.drop_first()));
        assert(n == ds[0] as nat);
        assert(chars_rev_of(ds.drop_first()) =~= Seq::<char>::empty());
        assert(chars_rev_of(ds) == chars_rev_of(ds.drop_first()).push(
            dec_digit_char(ds[0] as nat),
        ));
        assert(chars_rev_of(ds) =~= seq![dec_digit_char(ds[0] as nat)]);
        assert(dec_chars_of(n) == seq![dec_digit_char(n)]);
    } else {
        let tail = ds.drop_first();
        assert(tail.last() == ds.last());
        assert forall|i: int| 0 <= i < tail.len() implies (#[trigger] tail[i]) < 10 by {
            assert(tail[i] == ds[i + 1]);
        }
        lemma_dec_digits_val_pos(tail);
        lemma_digits_to_chars(tail);
        let m = dec_digits_val(tail);
        assert(n == ds[0] as nat + 10 * m);
        assert(n >= 10) by (nonlinear_arith)
            requires n == ds[0] as nat + 10 * m && m > 0;
        assert(n / 10 == m && n % 10 == ds[0] as nat) by (nonlinear_arith)
            requires n == ds[0] as nat + 10 * m && ds[0] < 10;
        assert(dec_chars_of(n) == dec_chars_of(m).push(dec_digit_char(ds[0] as nat)));
    }
}

/// Renders a big-endian word of any width as its exact decimal text, as the
/// deposit records store amounts.
pub fn be_word_to_dec_string(word: &[u8]) -> (r: String)
    ensures
        r@ == dec_chars_of(be_val(word@)),
{
    let mut cur: Vec<u8> = slice_to_vec(word);
    let mut digits: Vec<u8> = Vec::new();
    proof {
        assert(digits@ =~= Seq::<u8>::empty());
        assert(pow10(0) == 1);
        assert(dec_digits_val(digits@) == 0);
        assert(be_val(cur@) == be_val(word@));
        assert(be_val(cur@) * 1 == be_val(cur@)) by (nonlinear_arith);
        assert(be_val(word@) == be_val(cur@) * pow10(digits@.len() as nat) + dec_digits_val(
            digits@,
        ));
    }
    loop
        invariant_except_break
            forall|i: int| 0 <= i < digits@.len() ==> (#[trigger] digits@[i]) < 10,
            be_val(word@) == be_val(cur@) * pow10(digits@.len() as nat) + dec_digits_val(digits@),
            digits@.len() > 0 ==> be_val(cur@) > 0,
        ensures
            forall|i: int| 0 <= i < digits@.len() ==> (#[trigger] digits@[i]) < 10,
            digits@.len() > 0,
            digits@.last() != 0 || digits@.len() == 1,
            be_val(word@) == dec_digits_val(digits@),
        decreases be_val(cur@) + (if digits@.len() == 0 { 1nat } else { 0nat }),
    {
        let ghost pre_val = be_val(cur@);
        let ghost pre_digits = digits@;
        let (q, rem) = divmod10_bytes(&cur);
        proof {
            assert(be_val(q@) < pre_val || (be_val(q@) == 0 && pre_val == 0)) by (nonlinear_arith)
                requires pre_val == be_val(q@) * 10 + rem && rem < 10;
        }
        digits.push(rem);
        cur = q;
        proof {
            assert(dec_digits_val(digits@) == dec_digits_val(pre_digits) + rem as nat * pow10(
                pre_digits.len() as nat,
            )) by {
                lemma_digits_push(pre_digits, rem);
            }
            assert(pow10((pre_digits.len() + 1) as nat) == 10 * pow10(pre_digits.len() as nat));
            assert((be_val(cur@) * 10 + rem) * pow10(pre_digits.len() as nat) + dec_digits_val(
                pre_digits,
            ) == be_val(cur@) * (10 * pow10(pre_digits.len() as nat)) + (rem as nat * pow10(
                pre_digits.len() as nat,
            ) + dec_digits_val(pre_digits))) by (nonlinear_arith);
            assert(digits@.last() == rem);
        }
        let done = is_zero_bytes(&cur);
        if done {
            proof {
                if rem == 0 {
                    assert(pre_val == 0);
                    assert(pre_digits.len() == 0);
                }
                assert(be_val(cur@) * pow10(digits@.len() as nat) == 0) by (nonlinear_arith)
                    requires be_val(cur@) == 0;
            }
            break ;
        }
    }
    proof {
        lemma_digits_to_chars(digits@);
    }
    let mut s: String = "".to_owned();
    proof {
        reveal_strlit("");
        assert(s@ =~= Seq::<char>::empty());
        assert(digits@.skip(digits@.len() as int) =~= Seq::<u8>::empty());
        assert(chars_rev_of(digits@.skip(digits@.len() as int)) =~= Seq::<char>::empty());
    }
    let mut j: usize = digits.len();
    while j > 0
        invariant
            0 <= j <= digits@.len(),
            forall|i: int| 0 <= i < digits@.len() ==> (#[trigger] digits@[i]) < 10,
            s@ == chars_rev_of(digits@.skip(j as int)),
        decreases j,
    {
        j = j - 1;
        s.append(dec_digit_str_u8(digits[j]));
        proof {
            assert(digits@.skip(j as int).drop_first() =~= digits@.skip(j as int + 1));
            assert(digits@.skip(j as int)[0] == digits@[j as int]);
            assert(s@ =~= chars_rev_of(digits@.skip(j as int)));
        }
    }
    proof {
        assert(digits@.skip(0) =~= digits@);
    }
    s
}

/// Ten to the given power.
pub open spec fn pow10(k: nat) -> nat
    decreases k,
{
    if k == 0 {
        1
    } else {
        10 * pow10((k - 1) as nat)
    }
}

proof fn lemma_digits_push(ds: Seq<u8>, d: u8)
    ensures
        dec_digits_val(ds.push(d)) == dec_digits_val(ds) + d as nat * pow10(ds.len() as nat),
    decreases ds.len(),
{
    if ds.len() == 0 {
        assert(ds.push(d)[0] == d);
        assert(ds.push(d).drop_first() =~= Seq::<u8>::empty());
        assert(pow10(0) == 1);
        assert(dec_digits_val(ds.push(d).drop_first()) == 0);
        assert(dec_digits_val(ds.push(d)) == ds.push(d)[0] as nat + 10 * dec_digits_val(
            ds.push(d).drop_first(),
        ));
    } else {
        assert(ds.push(d)[0] == ds[0]);
        assert(ds.push(d).drop_first() =~= ds.drop_first().push(d));
        lemma_digits_push(ds.drop_first(), d);
        assert(pow10(ds.len() as nat) == 10 * pow10(ds.drop_first().len() as nat));
        assert(10 * (dec_digits_val(ds.drop_first()) + d as nat * pow10(ds.drop_first().len() as nat))
            == 10 * dec_digits_val(ds.drop_first()) + d as nat * (10 * pow10(
            ds.drop_first().len() as nat,
        ))) by (nonlinear_arith);
    }
}

fn dec_digit_str_u8(d: u8) -> (r: &'static str)
    requires
        d < 10,
    ensures
        r@ =~= seq![dec_digit_char(d as nat)],
{
    dec_digit_str(d as u128)
}

/// Reads a big-endian word as a `u128`, reporting a value too large to fit.
pub fn be_bytes_to_u128(b: &[u8]) -> (r: Option<u128>)
    ensures
        match r {
            Some(v) => be_val(b@) <= u128::MAX && v == be_val(b@),
            None => be_val(b@) > u128::MAX,
        },
{
    let len = b.len();
    let mut acc: u128 = 0;
    let mut i: usize = 0;
    while i < len
        invariant
            0 <= i <= len,
            len == b@.len(),
            acc == be_val(b@.take(i as int)),
        decreases len - i,
    {
        proof {
            lemma_be_val_take_step(b@, i as int);
        }
        let next = match acc.checked_mul(256) {
            Some(m) => m.checked_add(b[i] as u128),
            None => None,
        };
        match next {
            Some(v) => {
                acc = v;
            },
            None => {
                proof {
                    lemma_be_val_take_mono(b@, i + 1);
                }
                return None;
            },
        }
        i = i + 1;
    }
    assert(b@.take(len as int) =~= b@);
    Some(acc)
}

} // verus!
