//! Character-level text helpers shared by the schedule and export modules.
//!
//! All string logic in this crate works over `Vec<char>` so that contracts
//! can speak of `Seq<char>` views directly; the helpers here bridge between
//! `str`/`String` at the public boundary and `Vec<char>` inside.

use vstd::prelude::*;

verus! {

/// Collect the characters of a string slice into a vector.
pub fn str_to_chars(s: &str) -> (r: Vec<char>)
    ensures
        r@ == s@,
{
    let n: usize = s.unicode_len();
    let mut r: Vec<char> = Vec::new();
    let mut i: usize = 0;
    while i < n
        invariant
            n == s@.len(),
            i <= n,
            r@ == s@.subrange(0, i as int),
        decreases n - i,
    {
        let c: char = s.get_char(i);
        r.push(c);
        assert(s@.subrange(0, i + 1 as int) =~= s@.subrange(0, i as int).push(c));
        i += 1;
    }
    assert(s@.subrange(0, n as int) =~= s@);
    r
}

/// Relies on `String: FromIterator<char>` from std: collecting the characters
/// of a vector yields the string made of exactly those characters, in order.
#[verifier::external_body]
pub fn chars_to_string(v: &Vec<char>) -> (r: String)
    ensures
        r@ == v@,
{
    v.iter().collect()
}

/// Append every character of `s` to `out`.
pub fn push_str_chars(out: &mut Vec<char>, s: &str)
    ensures
        final(out)@ == old(out)@ + s@,
{
    let n: usize = s.unicode_len();
    let mut i: usize = 0;
    while i < n
        invariant
            n == s@.len(),
            i <= n,
            out@ == old(out)@ + s@.subrange(0, i as int),
        decreases n - i,
    {
        let c: char = s.get_char(i);
        out.push(c);
        assert(old(out)@ + s@.subrange(0, i + 1 as int) =~= (old(out)@ + s@.subrange(
            0,
            i as int,
        )).push(c));
        i += 1;
    }
    assert(old(out)@ + s@.subrange(0, n as int) =~= old(out)@ + s@);
}

/// Append every character of `s` to `out`.
pub fn push_chars(out: &mut Vec<char>, s: &Vec<char>)
    ensures
        final(out)@ == old(out)@ + s@,
{
    let n: usize = s.len();
    let mut i: usize = 0;
    while i < n
        invariant
            n == s@.len(),
            i <= n,
            out@ == old(out)@ + s@.subrange(0, i as int),
        decreases n - i,
    {
        let c: char = s[i];
        out.push(c);
        assert(old(out)@ + s@.subrange(0, i + 1 as int) =~= (old(out)@ + s@.subrange(
            0,
            i as int,
        )).push(c));
        i += 1;
    }
    assert(old(out)@ + s@.subrange(0, n as int) =~= old(out)@ + s@);
}

/// Copy of `s[a..b]` as a fresh vector.
pub fn subvec(s: &Vec<char>, a: usize, b: usize) -> (r: Vec<char>)
    requires
        a <= b <= s@.len(),
    ensures
        r@ == s@.subrange(a as int, b as int),
{
    let mut r: Vec<char> = Vec::new();
    let mut i: usize = a;
    while i < b
        invariant
            a <= i <= b <= s@.len(),
            r@ == s@.subrange(a as int, i as int),
        decreases b - i,
    {
        let c: char = s[i];
        r.push(c);
        assert(s@.subrange(a as int, i + 1 as int) =~= s@.subrange(a as int, i as int).push(c));
        i += 1;
    }
    r
}

/// The character for a single decimal digit.
pub open spec fn digit_char(d: nat) -> char {
    if d == 0 {
        '0'
    } else if d == 1 {
        '1'
    } else if d == 2 {
        '2'
    } else if d == 3 {
        '3'
    } else if d == 4 {
        '4'
    } else if d == 5 {
        '5'
    } else if d == 6 {
        '6'
    } else if d == 7 {
        '7'
    } else if d == 8 {
        '8'
    } else {
        '9'
    }
}

/// Decimal representation of `n`, without sign and without leading zeros
/// (a single `'0'` for zero).
pub open spec fn dec_digits(n: nat) -> Seq<char>
    decreases n,
{
    if n < 10 {
        seq![digit_char(n)]
    } else {
        dec_digits(n / 10).push(digit_char(n % 10))
    }
}

/// Decimal representation zero-padded on the left to two places.
pub open spec fn pad2_chars(n: nat) -> Seq<char> {
    if n < 10 {
        seq!['0'] + dec_digits(n)
    } else {
        dec_digits(n)
    }
}

/// Decimal representation zero-padded on the left to four places.
pub open spec fn pad4_chars(n: nat) -> Seq<char> {
    if n < 10 {
        seq!['0', '0', '0'] + dec_digits(n)
    } else if n < 100 {
        seq!['0', '0'] + dec_digits(n)
    } else if n < 1000 {
        seq!['0'] + dec_digits(n)
    } else {
        dec_digits(n)
    }
}

fn digit_to_char(d: u64) -> (c: char)
    requires
        d < 10,
    ensures
        c == digit_char(d as nat),
{
    match d {
        0 => '0',
        1 => '1',
        2 => '2',
        3 => '3',
        4 => '4',
        5 => '5',
        6 => '6',
        7 => '7',
        8 => '8',
        _ => '9',
    }
}

/// Decimal digits of `n`, most significant first.
pub fn u64_to_chars(n: u64) -> (r: Vec<char>)
    ensures
        r@ == dec_digits(n as nat),
    decreases n,
{
    let d: char = digit_to_char(n % 10);
    if n < 10 {
        let mut r: Vec<char> = Vec::new();
        r.push(d);
        assert(r@ =~= seq![digit_char(n as nat)]);
        r
    } else {
        let mut r: Vec<char> = u64_to_chars(n / 10);
        r.push(d);
        r
    }
}

/// Decimal digits of `n`, zero-padded to two places.
pub fn u64_pad2(n: u64) -> (r: Vec<char>)
    ensures
        r@ == pad2_chars(n as nat),
{
    if n < 10 {
        let mut r: Vec<char> = Vec::new();
        r.push('0');
        let digits: Vec<char> = u64_to_chars(n);
        push_chars(&mut r, &digits);
        assert(r@ =~= seq!['0'] + dec_digits(n as nat));
        r
    } else {
        u64_to_chars(n)
    }
}

/// Decimal digits of `n`, zero-padded to four places.
pub fn u64_pad4(n: u64) -> (r: Vec<char>)
    ensures
        r@ == pad4_chars(n as nat),
{
    if n >= 1000 {
        u64_to_chars(n)
    } else {
        let mut r: Vec<char> = Vec::new();
        if n < 10 {
            r.push('0');
            r.push('0');
            r.push('0');
            assert(r@ =~= seq!['0', '0', '0']);
        } else if n < 100 {
            r.push('0');
            r.push('0');
            assert(r@ =~= seq!['0', '0']);
        } else {
            r.push('0');
            assert(r@ =~= seq!['0']);
        }
        let digits: Vec<char> = u64_to_chars(n);
        push_chars(&mut r, &digits);
        r
    }
}

/// `pat` occurs in `s` at position `i`.
pub open spec fn occurs_at(s: Seq<char>, pat: Seq<char>, i: int) -> bool {
    0 <= i && i + pat.len() <= s.len() && s.subrange(i, i + pat.len() as int) == pat
}

/// `pat` occurs somewhere in `s`.
pub open spec fn contains_pat(s: Seq<char>, pat: Seq<char>) -> bool {
    exists|i: int| occurs_at(s, pat, i)
}

fn match_at(s: &Vec<char>, pat: &Vec<char>, i: usize) -> (r: bool)
    requires
        i + pat@.len() <= s@.len(),
    ensures
        r == occurs_at(s@, pat@, i as int),
{
    let n: usize = pat.len();
    let m: usize = s.len();
    let mut k: usize = 0;
    while k < n
        invariant
            n == pat@.len(),
            m == s@.len(),
            i + n <= m,
            k <= n,
            forall|t: int| 0 <= t < k ==> s@[i + t] == pat@[t],
        decreases n - k,
    {
        if s[i + k] != pat[k] {
            assert(s@.subrange(i as int, i + pat@.len() as int)[k as int] == s@[i + k]);
            return false;
        }
        k += 1;
    }
    assert(s@.subrange(i as int, i + pat@.len() as int) =~= pat@);
    true
}

/// Least position `j >= from` where `pat` occurs in `s`, if any.
pub fn find_pat_from(s: &Vec<char>, pat: &Vec<char>, from: usize) -> (r: Option<usize>)
    ensures
        match r {
            Some(j) => from <= j && occurs_at(s@, pat@, j as int) && (forall|k: int|
                from <= k < j ==> !occurs_at(s@, pat@, k)),
            None => forall|k: int| from <= k ==> !occurs_at(s@, pat@, k),
        },
{
    if pat.len() > s.len() {
        return None;
    }
    if pat.len() == 0 {
        if from <= s.len() {
            assert(occurs_at(s@, pat@, from as int)) by {
                assert(s@.subrange(from as int, from as int) =~= pat@);
            }
            return Some(from);
        } else {
            return None;
        }
    }
    let lim: usize = s.len() - pat.len();
    let mut j: usize = from;
    if j > lim {
        return None;
    }
    while j <= lim
        invariant
            1 <= pat@.len() <= s@.len(),
            lim == s@.len() - pat@.len(),
            lim < s@.len() <= usize::MAX,
            from <= j <= lim + 1,
            forall|k: int| from <= k < j ==> !occurs_at(s@, pat@, k),
        decreases lim + 1 - j,
    {
        if match_at(s, pat, j) {
            return Some(j);
        }
        j += 1;
    }
    None
}

/// Greatest position where `pat` occurs in `s`, if any.
pub fn rfind_pat(s: &Vec<char>, pat: &Vec<char>) -> (r: Option<usize>)
    ensures
        match r {
            Some(j) => occurs_at(s@, pat@, j as int) && (forall|k: int|
                j < k ==> !occurs_at(s@, pat@, k)),
            None => forall|k: int| !occurs_at(s@, pat@, k),
        },
{
    if pat.len() > s.len() {
        return None;
    }
    if pat.len() == 0 {
        let j: usize = s.len();
        assert(occurs_at(s@, pat@, j as int)) by {
            assert(s@.subrange(j as int, j as int) =~= pat@);
        }
        return Some(j);
    }
    let lim: usize = s.len() - pat.len();
    let mut j: usize = lim + 1;
    while j > 0
        invariant
            1 <= pat@.len() <= s@.len(),
            lim == s@.len() - pat@.len(),
            lim < s@.len() <= usize::MAX,
            j <= lim + 1,
            forall|k: int| j <= k ==> !occurs_at(s@, pat@, k),
        decreases j,
    {
        j -= 1;
        if match_at(s, pat, j) {
            return Some(j);
        }
    }
    None
}

/// Whether `pat` occurs anywhere in `s`.
pub fn has_pat(s: &Vec<char>, pat: &Vec<char>) -> (r: bool)
    ensures
        r == contains_pat(s@, pat@),
{
    match find_pat_from(s, pat, 0) {
        Some(j) => {
            assert(occurs_at(s@, pat@, j as int));
            true
        },
        None => {
            assert forall|i: int| !occurs_at(s@, pat@, i) by {
                if occurs_at(s@, pat@, i) {
                    assert(0 <= i);
                }
            }
            false
        },
    }
}

/// `c` is an ASCII decimal digit.
pub open spec fn is_digit(c: char) -> bool {
    48 <= c as u32 <= 57
}

/// Numeric value of an ASCII digit.
pub open spec fn digit_val(c: char) -> int {
    c as u32 - 48
}

/// Every character of `s` is an ASCII digit.
pub open spec fn all_digits(s: Seq<char>) -> bool {
    forall|i: int| 0 <= i < s.len() ==> is_digit(#[trigger] s[i])
}

/// Value of a string of decimal digits, most significant first.
pub open spec fn digits_val(s: Seq<char>) -> int
    decreases s.len(),
{
    if s.len() == 0 {
        0
    } else {
        digits_val(s.drop_last()) * 10 + digit_val(s.last())
    }
}

/// Powers of ten.
pub open spec fn pow10(k: nat) -> int
    decreases k,
{
    if k == 0 {
        1
    } else {
        10 * pow10((k - 1) as nat)
    }
}

proof fn lemma_pow10_mono(a: nat, b: nat)
    requires
        a <= b,
    ensures
        pow10(a) <= pow10(b),
    decreases b,
{
    if a < b {
        lemma_pow10_mono(a, (b - 1) as nat);
        assert(pow10(b) == 10 * pow10((b - 1) as nat));
        assert(pow10(a) >= 1) by {
            lemma_pow10_pos(a);
        }
    }
}

proof fn lemma_pow10_pos(k: nat)
    ensures
        pow10(k) >= 1,
    decreases k,
{
    if k > 0 {
        lemma_pow10_pos((k - 1) as nat);
    }
}

/// Read the decimal value of `s[a..b]`; `None` if some character is not a digit.
pub fn parse_num(s: &Vec<char>, a: usize, b: usize) -> (r: Option<u64>)
    requires
        a <= b <= s@.len(),
        b - a <= 8,
    ensures
        match r {
            Some(v) => all_digits(s@.subrange(a as int, b as int)) && v as int == digits_val(
                s@.subrange(a as int, b as int),
            ) && v < 100000000,
            None => !all_digits(s@.subrange(a as int, b as int)),
        },
{
    let mut acc: u64 = 0;
    let mut i: usize = a;
    while i < b
        invariant
            a <= i <= b <= s@.len(),
            b - a <= 8,
            all_digits(s@.subrange(a as int, i as int)),
            acc as int == digits_val(s@.subrange(a as int, i as int)),
            acc < pow10((i - a) as nat),
        decreases b - i,
    {
        let c: char = s[i];
        let u: u32 = c as u32;
        if u < 48 || u > 57 {
            assert(s@.subrange(a as int, b as int)[i - a] == s@[i as int]);
            return None;
        }
        let d: u64 = (u - 48) as u64;
        proof {
            lemma_pow10_mono(((i + 1) - a) as nat, 8);
            assert(pow10(8) == 100000000) by {
                reveal_with_fuel(pow10, 9);
            }
        }
        acc = acc * 10 + d;
        proof {
            let pre = s@.subrange(a as int, i as int);
            let cur = s@.subrange(a as int, i + 1 as int);
            assert(cur.drop_last() =~= pre);
            assert(cur.last() == s@[i as int]);
        }
        i += 1;
    }
    proof {
        lemma_pow10_mono(((i - a)) as nat, 8);
        assert(pow10(8) == 100000000) by {
            reveal_with_fuel(pow10, 9);
        }
        assert(s@.subrange(a as int, i as int) =~= s@.subrange(a as int, b as int));
    }
    Some(acc)
}

proof fn lemma_digits_val_nonneg(s: Seq<char>)
    requires
        all_digits(s),
    ensures
        digits_val(s) >= 0,
    decreases s.len(),
{
    if s.len() > 0 {
        assert(is_digit(s[s.len() - 1]));
        assert(forall|i: int| 0 <= i < s.drop_last().len() ==> is_digit(#[trigger] s.drop_last()[i]));
        lemma_digits_val_nonneg(s.drop_last());
    }
}

proof fn lemma_digits_val_prefix(s: Seq<char>, i: int)
    requires
        all_digits(s),
        0 <= i <= s.len(),
    ensures
        digits_val(s.subrange(0, i)) <= digits_val(s),
    decreases s.len() - i,
{
    if i == s.len() {
        assert(s.subrange(0, i) =~= s);
    } else {
        let t = s.subrange(0, i + 1);
        assert(t.drop_last() =~= s.subrange(0, i));
        assert(forall|k: int| 0 <= k < t.len() ==> is_digit(#[trigger] t[k]));
        assert(is_digit(t.last()));
        lemma_digits_val_nonneg(t.drop_last());
        assert(digits_val(t) == digits_val(t.drop_last()) * 10 + digit_val(t.last()));
        lemma_digits_val_prefix(s, i + 1);
    }
}

/// The reading of a signed decimal integer: an optional sign, then at
/// least one digit, and the value must fit the target range — the same
/// texts that `str::parse::<i64>` accepts.
pub open spec fn parse_i64_spec(s: Seq<char>) -> Option<i64> {
    if s.len() == 0 {
        None
    } else {
        let neg = s[0] == '-';
        let ds = if s[0] == '-' || s[0] == '+' {
            s.drop_first()
        } else {
            s
        };
        if ds.len() == 0 || !all_digits(ds) {
            None
        } else {
            let v = digits_val(ds);
            if neg {
                if -v >= i64::MIN {
                    Some((-v) as i64)
                } else {
                    None
                }
            } else {
                if v <= i64::MAX {
                    Some(v as i64)
                } else {
                    None
                }
            }
        }
    }
}

/// Read a signed decimal integer, as `str::parse::<i64>` would.
pub fn parse_i64(s: &Vec<char>) -> (r: Option<i64>)
    ensures
        r == parse_i64_spec(s@),
{
    let n: usize = s.len();
    if n == 0 {
        return None;
    }
    let first: char = s[0];
    let neg: bool = first == '-';
    let a: usize = if first == '-' || first == '+' {
        1
    } else {
        0
    };
    let ghost ds: Seq<char> = if a == 1 {
        s@.drop_first()
    } else {
        s@
    };
    proof {
        assert(ds =~= s@.subrange(a as int, n as int));
    }
    if a == n {
        return None;
    }
    let mut acc: u128 = 0;
    let mut i: usize = a;
    while i < n
        invariant
            a <= i <= n,
            n == s@.len(),
            a < n,
            neg == (s@[0] == '-'),
            a == if s@[0] == '-' || s@[0] == '+' {
                1int
            } else {
                0int
            },
            ds == if a == 1 {
                s@.drop_first()
            } else {
                s@
            },
            ds == s@.subrange(a as int, n as int),
            all_digits(s@.subrange(a as int, i as int)),
            acc as int == digits_val(s@.subrange(a as int, i as int)),
            acc <= 9223372036854775808u128,
        decreases n - i,
    {
        let c: char = s[i];
        let u: u32 = c as u32;
        if u < 48 || u > 57 {
            proof {
                assert(ds[i - a] == s@[i as int]);
                assert(!all_digits(ds));
            }
            return None;
        }
        let d: u128 = (u - 48) as u128;
        acc = acc * 10 + d;
        proof {
            let pre = s@.subrange(a as int, i as int);
            let cur = s@.subrange(a as int, i + 1 as int);
            assert(cur.drop_last() =~= pre);
            assert(cur.last() == s@[i as int]);
        }
        i += 1;
        if acc > 9223372036854775808u128 {
            proof {
                if all_digits(ds) {
                    lemma_digits_val_prefix(ds, i - a);
                    assert(ds.subrange(0, i - a) =~= s@.subrange(a as int, i as int));
                    assert(digits_val(ds) >= acc);
                }
            }
            return None;
        }
    }
    proof {
        assert(s@.subrange(a as int, n as int) =~= ds);
    }
    if neg {
        Some((-(acc as i128)) as i64)
    } else {
        if acc > 9223372036854775807u128 {
            None
        } else {
            Some(acc as i64)
        }
    }
}

/// The four ASCII blank characters this crate strips at the ends of fields.
pub open spec fn is_blank(c: char) -> bool {
    c == ' ' || c == '\t' || c == '\n' || c == '\r'
}

/// `s` with leading blanks removed.
pub open spec fn trim_start_spec(s: Seq<char>) -> Seq<char>
    decreases s.len(),
{
    if s.len() > 0 && is_blank(s[0]) {
        trim_start_spec(s.drop_first())
    } else {
        s
    }
}

/// `s` with trailing blanks removed.
pub open spec fn trim_end_spec(s: Seq<char>) -> Seq<char>
    decreases s.len(),
{
    if s.len() > 0 && is_blank(s.last()) {
        trim_end_spec(s.drop_last())
    } else {
        s
    }
}

/// `s` with blanks removed at both ends.
pub open spec fn trim_spec(s: Seq<char>) -> Seq<char> {
    trim_end_spec(trim_start_spec(s))
}

proof fn lemma_trim_start(s: Seq<char>, lo: int)
    requires
        0 <= lo <= s.len(),
        forall|i: int| 0 <= i < lo ==> is_blank(s[i]),
        lo == s.len() || !is_blank(s[lo]),
    ensures
        trim_start_spec(s) == s.subrange(lo, s.len() as int),
    decreases lo,
{
    if lo == 0 {
        assert(s.subrange(0, s.len() as int) =~= s);
    } else {
        assert(is_blank(s[0]));
        lemma_trim_start(s.drop_first(), lo - 1);
        assert(s.drop_first().subrange(lo - 1, s.drop_first().len() as int) =~= s.subrange(
            lo,
            s.len() as int,
        ));
    }
}

proof fn lemma_trim_end(s: Seq<char>, hi: int)
    requires
        0 <= hi <= s.len(),
        forall|i: int| hi <= i < s.len() ==> is_blank(s[i]),
        hi == 0 || !is_blank(s[hi - 1]),
    ensures
        trim_end_spec(s) == s.subrange(0, hi),
    decreases s.len() - hi,
{
    if hi == s.len() {
        assert(s.subrange(0, s.len() as int) =~= s);
    } else {
        assert(is_blank(s.last()));
        lemma_trim_end(s.drop_last(), hi);
        assert(s.drop_last().subrange(0, hi) =~= s.subrange(0, hi));
    }
}

fn is_blank_exec(c: char) -> (r: bool)
    ensures
        r == is_blank(c),
{
    c == ' ' || c == '\t' || c == '\n' || c == '\r'
}

/// Copy of `s` with blanks removed at both ends.
pub fn trim(s: &Vec<char>) -> (r: Vec<char>)
    ensures
        r@ == trim_spec(s@),
{
    let n: usize = s.len();
    let mut lo: usize = 0;
    while lo < n && is_blank_exec(s[lo])
        invariant
            n == s@.len(),
            lo <= n,
            forall|i: int| 0 <= i < lo ==> is_blank(s@[i]),
        decreases n - lo,
    {
        lo += 1;
    }
    proof {
        lemma_trim_start(s@, lo as int);
    }
    let ghost mid: Seq<char> = s@.subrange(lo as int, n as int);
    let mut hi: usize = n;
    while hi > lo && is_blank_exec(s[hi - 1])
        invariant
            n == s@.len(),
            lo <= hi <= n,
            forall|i: int| hi <= i < n ==> is_blank(s@[i]),
        decreases hi,
    {
        hi -= 1;
    }
    proof {
        assert(forall|i: int| hi - lo <= i < mid.len() ==> is_blank(#[trigger] mid[i]));
        assert(hi - lo == 0 || !is_blank(mid[hi - lo - 1]));
        lemma_trim_end(mid, hi - lo);
        assert(mid.subrange(0, hi - lo) =~= s@.subrange(lo as int, hi as int));
    }
    subvec(s, lo, hi)
}

} // verus!
