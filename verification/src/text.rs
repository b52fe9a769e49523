//! Verified text helpers: decimal rendering and parsing of integers, and
//! small scanning primitives used by the payload codecs.
use vstd::prelude::*;

verus! {

/// The character for one decimal digit value.
pub open spec fn digit_char(d: int) -> char {
    if d == 0 {
        '0'
    } else if d == 1 {
        '1'
    } else if d == 2 {
        '2'
    } else if d == 3 {
        '3'
    } else if d == 4 {
        '4'
    } else if d == 5 {
        '5'
    } else if d == 6 {
        '6'
    } else if d == 7 {
        '7'
    } else if d == 8 {
        '8'
    } else {
        '9'
    }
}

/// Decimal rendering of a natural number, most significant digit first.
pub open spec fn dec_nat(n: nat) -> Seq<char>
    decreases n,
{
    if n < 10 {
        seq![digit_char(n as int)]
    } else {
        dec_nat(n / 10).push(digit_char((n % 10) as int))
    }
}

/// Decimal rendering of an integer: a leading '-' for negative values.
pub open spec fn dec_int(v: int) -> Seq<char> {
    if v < 0 {
        seq!['-'] + dec_nat((-v) as nat)
    } else {
        dec_nat(v as nat)
    }
}

/// Whether a character is a decimal digit.
pub open spec fn is_digit(c: char) -> bool {
    48 <= c as int && c as int <= 57
}

/// The value of one digit character.
pub open spec fn digit_val(c: char) -> int {
    c as int - 48
}

/// Whether every character of a sequence is a decimal digit.
pub open spec fn all_digits(s: Seq<char>) -> bool {
    forall|i: int| 0 <= i < s.len() ==> is_digit(#[trigger] s[i])
}

/// The numeric value of a digit sequence, most significant digit first.
pub open spec fn digits_val(s: Seq<char>) -> int
    decreases s.len(),
{
    if s.len() == 0 {
        0
    } else {
        digits_val(s.drop_last()) * 10 + digit_val(s.last())
    }
}

/// What `parse_i64` returns: the value of an optionally '-'-signed digit
/// string, or nothing when the text is empty, contains a non-digit, or the
/// value does not fit in an `i64`.
pub open spec fn parse_int_spec(s: Seq<char>) -> Option<i64> {
    if s.len() >= 1 && s[0] == '-' {
        let ds = s.skip(1);
        if ds.len() >= 1 && all_digits(ds) && digits_val(ds) <= 0x8000_0000_0000_0000 {
            Some((-digits_val(ds)) as i64)
        } else {
            None
        }
    } else if s.len() >= 1 && all_digits(s) && digits_val(s) <= 0x7fff_ffff_ffff_ffff {
        Some(digits_val(s) as i64)
    } else {
        None
    }
}

proof fn lemma_digits_val_nonneg(s: Seq<char>)
    requires
        all_digits(s),
    ensures
        digits_val(s) >= 0,
    decreases s.len(),
{
    if s.len() > 0 {
        assert(all_digits(s.drop_last())) by {
            assert(forall|i: int|
                0 <= i < s.drop_last().len() ==> s.drop_last()[i] == #[trigger] s[i]);
        }
        lemma_digits_val_nonneg(s.drop_last());
    }
}

proof fn lemma_digits_val_prefix(s: Seq<char>, i: int)
    requires
        all_digits(s),
        0 <= i <= s.len(),
    ensures
        digits_val(s.take(i)) <= digits_val(s),
    decreases s.len() - i,
{
    if i < s.len() {
        lemma_digits_val_prefix(s, i + 1);
        let t = s.take(i + 1);
        assert(t.drop_last() =~= s.take(i));
        assert(all_digits(s.take(i))) by {
            assert(forall|j: int| 0 <= j < i ==> s.take(i)[j] == #[trigger] s[j]);
        }
        assert(all_digits(t)) by {
            assert(forall|j: int| 0 <= j < i + 1 ==> t[j] == #[trigger] s[j]);
        }
        lemma_digits_val_nonneg(s.take(i));
        assert(t.last() == s[i]);
        assert(is_digit(s[i]));
        assert(digits_val(t) == digits_val(s.take(i)) * 10 + digit_val(t.last()));
        assert(digits_val(s.take(i)) * 10 >= digits_val(s.take(i))) by {
            lemma_digits_val_nonneg(s.take(i));
        }
        assert(digits_val(s.take(i)) <= digits_val(t));
    } else {
        assert(s.take(i) =~= s);
    }
}

/// Appends one decimal digit character to a string.
fn append_digit(out: &mut String, d: u64)
    requires
        d < 10,
    ensures
        final(out)@ == old(out)@.push(digit_char(d as int)),
{
    if d == 0 {
        out.append("0");
        proof {
            reveal_strlit("0");
            assert(final(out)@ =~= old(out)@.push(digit_char(d as int)));
        }
    } else if d == 1 {
        out.append("1");
        proof {
            reveal_strlit("1");
            assert(final(out)@ =~= old(out)@.push(digit_char(d as int)));
        }
    } else if d == 2 {
        out.append("2");
        proof {
            reveal_strlit("2");
            assert(final(out)@ =~= old(out)@.push(digit_char(d as int)));
        }
    } else if d == 3 {
        out.append("3");
        proof {
            reveal_strlit("3");
            assert(final(out)@ =~= old(out)@.push(digit_char(d as int)));
        }
    } else if d == 4 {
        out.append("4");
        proof {
            reveal_strlit("4");
            assert(final(out)@ =~= old(out)@.push(digit_char(d as int)));
        }
    } else if d == 5 {
        out.append("5");
        proof {
            reveal_strlit("5");
            assert(final(out)@ =~= old(out)@.push(digit_char(d as int)));
        }
    } else if d == 6 {
        out.append("6");
        proof {
            reveal_strlit("6");
            assert(final(out)@ =~= old(out)@.push(digit_char(d as int)));
        }
    } else if d == 7 {
        out.append("7");
        proof {
            reveal_strlit("7");
            assert(final(out)@ =~= old(out)@.push(digit_char(d as int)));
        }
    } else if d == 8 {
        out.append("8");
        proof {
            reveal_strlit("8");
            assert(final(out)@ =~= old(out)@.push(digit_char(d as int)));
        }
    } else {
        out.append("9");
        proof {
            reveal_strlit("9");
            assert(final(out)@ =~= old(out)@.push(digit_char(d as int)));
        }
    }
}

/// Appends the decimal rendering of `u` to a string.
pub fn append_dec_u64(out: &mut String, u: u64)
    ensures
        final(out)@ == old(out)@ + dec_nat(u as nat),
    decreases u,
{
    if u >= 10 {
        append_dec_u64(out, u / 10);
        append_digit(out, u % 10);
        proof {
            assert(final(out)@ =~= old(out)@ + dec_nat(u as nat));
        }
    } else {
        append_digit(out, u);
        proof {
            assert(final(out)@ =~= old(out)@ + dec_nat(u as nat));
        }
    }
}

/// Renders an integer in decimal.
pub fn i64_to_string(v: i64) -> (r: String)
    ensures
        r@ == dec_int(v as int),
{
    let mut out = String::new();
    if v < 0 {
        out.append("-");
        let u: u64 = ((-(v + 1)) as u64) + 1;
        assert(u as nat == (-(v as int)) as nat);
        append_dec_u64(&mut out, u);
        proof {
            reveal_strlit("-");
            assert(out@ =~= dec_int(v as int));
        }
    } else {
        append_dec_u64(&mut out, v as u64);
        proof {
            assert(out@ =~= dec_int(v as int));
        }
    }
    out
}

/// Parses an optionally signed decimal integer; mirrors `parse_int_spec`.
pub fn parse_i64(s: &str) -> (r: Option<i64>)
    ensures
        r == parse_int_spec(s@),
{
    let n = s.unicode_len();
    if n == 0 {
        return None;
    }
    let neg = s.get_char(0) == '-';
    let start: usize = if neg {
        1
    } else {
        0
    };
    if start == n {
        // A bare '-' has no digits.
        return None;
    }
    let bound: u64 = if neg {
        0x8000_0000_0000_0000
    } else {
        0x7fff_ffff_ffff_ffff
    };
    let ghost ds: Seq<char> = s@.skip(start as int);
    proof {
        if start == 0 {
            assert(ds =~= s@);
        }
    }
    let mut acc: u64 = 0;
    let mut i: usize = start;
    while i < n
        invariant
            start <= i <= n,
            n == s@.len(),
            start == 0 || start == 1,
            start == 1 ==> s@[0] == '-',
            start == 0 ==> s@[0] != '-',
            neg == (start == 1),
            ds == s@.skip(start as int),
            start == 0 ==> ds == s@,
            bound == if neg { 0x8000_0000_0000_0000u64 } else { 0x7fff_ffff_ffff_ffffu64 },
            all_digits(ds.take(i - start)),
            acc == digits_val(ds.take(i - start)),
            acc <= bound,
        decreases n - i,
    {
        let c = s.get_char(i);
        let x = c as u32;
        if x < 48 || x > 57 {
            // A non-digit: the spec rejects the whole text.
            assert(ds[i - start] == s@[i as int]);
            assert(!is_digit(ds[i - start]));
            return None;
        }
        let d = (x - 48) as u64;
        proof {
            let t = ds.take(i - start + 1);
            assert(t.drop_last() =~= ds.take(i - start));
            assert(t.last() == ds[i - start]);
            assert(ds[i - start] == s@[i as int]);
        }
        if acc > bound / 10 || (acc == bound / 10 && d > bound % 10) {
            // The value no longer fits: every extension of this prefix is
            // at least as large, so the spec rejects the whole text.
            proof {
                let t = ds.take(i - start + 1);
                lemma_digits_val_nonneg(ds.take(i - start));
                assert(digits_val(t) == acc * 10 + d);
                assert(digits_val(t) > bound);
                if all_digits(ds) {
                    lemma_digits_val_prefix(ds, i - start + 1);
                    assert(digits_val(ds) > bound);
                }
            }
            return None;
        }
        assert(acc * 10 + d <= bound);
        acc = acc * 10 + d;
        i += 1;
    }
    proof {
        assert(ds.take(n - start) =~= ds);
    }
    if neg {
        if acc == 0x8000_0000_0000_0000 {
            Some(i64::MIN)
        } else {
            Some(-(acc as i64))
        }
    } else {
        Some(acc as i64)
    }
}

proof fn lemma_dec_nat_digits(n: nat)
    ensures
        all_digits(dec_nat(n)),
        digits_val(dec_nat(n)) == n,
        dec_nat(n).len() >= 1,
    decreases n,
{
    if n < 10 {
        assert(is_digit(digit_char(n as int)));
        let s = seq![digit_char(n as int)];
        assert(dec_nat(n) == s);
        assert(s.drop_last() =~= Seq::<char>::empty());
        assert(s.last() == digit_char(n as int));
        assert(digits_val(s) == digits_val(s.drop_last()) * 10 + digit_val(s.last()));
        assert(digits_val(s.drop_last()) == 0);
        assert(digit_val(digit_char(n as int)) == n);
    } else {
        lemma_dec_nat_digits(n / 10);
        let pre = dec_nat(n / 10);
        let c = digit_char((n % 10) as int);
        assert(is_digit(c));
        let whole = pre.push(c);
        assert(whole.drop_last() =~= pre);
        assert(whole.last() == c);
        assert(forall|i: int| 0 <= i < pre.len() ==> whole[i] == #[trigger] pre[i]);
        assert(all_digits(whole));
        assert(digits_val(whole) == digits_val(pre) * 10 + digit_val(c));
        assert(digit_val(c) == n % 10);
        assert(digits_val(whole) == (n / 10) * 10 + n % 10);
        assert((n / 10) * 10 + n % 10 == n) by (nonlinear_arith);
    }
}

/// Rendering an integer and parsing the text gives the integer back.
pub proof fn lemma_dec_int_round_trip(v: i64)
    ensures
        parse_int_spec(dec_int(v as int)) == Some(v),
{
    if v < 0 {
        let m = (-(v as int)) as nat;
        lemma_dec_nat_digits(m);
        let s = seq!['-'] + dec_nat(m);
        assert(dec_int(v as int) == s);
        assert(s[0] == '-');
        assert(s.skip(1) =~= dec_nat(m));
        assert(digits_val(dec_nat(m)) == m);
        assert(m <= 0x8000_0000_0000_0000);
        assert(parse_int_spec(s) == Some((-(m as int)) as i64));
        assert((-(m as int)) as i64 == v);
    } else {
        let m = v as nat;
        lemma_dec_nat_digits(m);
        let s = dec_nat(m);
        assert(is_digit(s[0]));
        assert(s[0] != '-');
        assert(m <= 0x7fff_ffff_ffff_ffff);
        assert(parse_int_spec(s) == Some(m as i64));
    }
}

/// Whether the text `lit` occurs in `s` starting at position `i`.
pub open spec fn occurs_at(s: Seq<char>, i: int, lit: Seq<char>) -> bool {
    0 <= i && i + lit.len() <= s.len() && s.subrange(i, i + lit.len()) == lit
}

/// Compares the characters of `s` from position `i` with `lit`.
pub fn match_at(s: &str, i: usize, lit: &str) -> (r: bool)
    ensures
        r == occurs_at(s@, i as int, lit@),
{
    let n = s.unicode_len();
    let m = lit.unicode_len();
    if m > n || i > n - m {
        assert(!occurs_at(s@, i as int, lit@));
        return false;
    }
    let mut j: usize = 0;
    while j < m
        invariant
            0 <= j <= m,
            m == lit@.len(),
            n == s@.len(),
            i + m <= n,
            forall|k: int| 0 <= k < j ==> s@[i + k] == lit@[k],
        decreases m - j,
    {
        if s.get_char(i + j) != lit.get_char(j) {
            assert(s@.subrange(i as int, i as int + lit@.len() as int)[j as int] != lit@[j as int]);
            return false;
        }
        j += 1;
    }
    proof {
        assert(s@.subrange(i as int, i as int + lit@.len() as int) =~= lit@);
    }
    true
}

/// Finds the first occurrence of `c` in `s` at or after position `i`.
pub fn find_from(s: &str, i: usize, c: char) -> (r: Option<usize>)
    requires
        i <= s@.len(),
    ensures
        match r {
            Some(j) => i <= j < s@.len() && s@[j as int] == c && (forall|k: int|
                i <= k < j ==> s@[k] != c),
            None => forall|k: int| i <= k < s@.len() ==> s@[k] != c,
        },
{
    let n = s.unicode_len();
    let mut j: usize = i;
    while j < n
        invariant
            i <= j <= n,
            n == s@.len(),
            forall|k: int| i <= k < j ==> s@[k] != c,
        decreases n - j,
    {
        if s.get_char(j) == c {
            return Some(j);
        }
        j += 1;
    }
    None
}

/// Whether `c` occurs nowhere in `s`.
pub open spec fn no_char(s: Seq<char>, c: char) -> bool {
    forall|i: int| 0 <= i < s.len() ==> s[i] != c
}

/// The first position of `c` in `s` at or after `from`, or -1.
pub open spec fn find_char_spec(s: Seq<char>, from: int, c: char) -> int
    decreases s.len() - from,
{
    if from < 0 {
        -1
    } else if from >= s.len() {
        -1
    } else if s[from] == c {
        from
    } else {
        find_char_spec(s, from + 1, c)
    }
}

/// What `find_char_spec` returns: the first occurrence, or nothing.
pub proof fn lemma_find_char_spec(s: Seq<char>, from: int, c: char)
    requires
        0 <= from,
    ensures
        ({
            let r = find_char_spec(s, from, c);
            &&& (r >= 0 ==> from <= r < s.len() && s[r] == c && (forall|k: int|
                from <= k < r ==> s[k] != c))
            &&& (r < 0 ==> (forall|k: int| from <= k < s.len() ==> s[k] != c))
        }),
    decreases s.len() - from,
{
    if from < s.len() && s[from] != c {
        lemma_find_char_spec(s, from + 1, c);
    }
}

/// In `pre + f + rest` with no `c` in `f` and `rest` opening with `c`, the
/// first `c` at or after `pre.len()` sits exactly after `f`.
pub proof fn lemma_find_in_concat(s: Seq<char>, pre: Seq<char>, f: Seq<char>, rest: Seq<char>, c: char)
    requires
        s == pre + f + rest,
        no_char(f, c),
        rest.len() > 0,
        rest[0] == c,
    ensures
        find_char_spec(s, pre.len() as int, c) == pre.len() + f.len(),
{
    let q: int = pre.len() as int + f.len() as int;
    assert(s.len() == pre.len() + f.len() + rest.len());
    assert(s[q] == c);
    assert(forall|k: int| pre.len() <= k < q ==> s[k] == f[k - pre.len()] && s[k] != c);
    lemma_find_char_spec(s, pre.len() as int, c);
    let r = find_char_spec(s, pre.len() as int, c);
    if r < 0 {
        assert(s[q] != c);
        assert(false);
    } else {
        if r < q {
            assert(s[r] != c);
            assert(false);
        }
        if r > q {
            assert(s[q] != c);
            assert(false);
        }
    }
}

/// Finds the first `c` at or after `from`; mirrors `find_char_spec`.
pub fn find_char_e(s: &str, from: usize, c: char) -> (r: Option<usize>)
    ensures
        match r {
            Some(j) => find_char_spec(s@, from as int, c) == j,
            None => find_char_spec(s@, from as int, c) < 0,
        },
{
    let n = s.unicode_len();
    if from >= n {
        proof {
            lemma_find_char_spec(s@, from as int, c);
            let r = find_char_spec(s@, from as int, c);
            if r >= 0 {
                assert(false);
            }
        }
        return None;
    }
    let r = find_from(s, from, c);
    proof {
        lemma_find_char_spec(s@, from as int, c);
        let q = find_char_spec(s@, from as int, c);
        match r {
            Some(j) => {
                if q < 0 {
                    assert(s@[j as int] != c);
                    assert(false);
                }
                if q < j {
                    assert(s@[q] != c);
                    assert(false);
                }
                if q > j {
                    assert(s@[j as int] != c);
                    assert(false);
                }
            },
            None => {
                if q >= 0 {
                    assert(s@[q] != c);
                    assert(false);
                }
            },
        }
    }
    r
}

/// Compares two texts character for character.
pub fn str_eq(a: &str, b: &str) -> (r: bool)
    ensures
        r == (a@ == b@),
{
    let n = a.unicode_len();
    let m = b.unicode_len();
    if n != m {
        return false;
    }
    let r = match_at(a, 0, b);
    proof {
        if r {
            assert(a@.subrange(0, b@.len() as int) =~= a@);
        } else {
            if a@ == b@ {
                assert(a@.subrange(0, b@.len() as int) =~= b@);
                assert(false);
            }
        }
    }
    r
}

/// Copies the characters of `s` between `from` and `to` into an owned string.
pub fn substring_string(s: &str, from: usize, to: usize) -> (r: String)
    requires
        from <= to <= s@.len(),
    ensures
        r@ == s@.subrange(from as int, to as int),
{
    s.substring_char(from, to).to_owned()
}

} // verus!
