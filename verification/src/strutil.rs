//! Character-level string helpers shared by the identity policy, the path
//! layout and the record codec: pushing characters, whitespace trimming and
//! decimal rendering/parsing of 64-bit integers.

use vstd::prelude::*;

verus! {

/// Relies on String::push: appends exactly one character at the end.
#[verifier::external_body]
pub fn push_char(s: &mut String, c: char)
    ensures
        final(s)@ == old(s)@.push(c),
{
    s.push(c);
}

/// The characters that `str::trim` removes: the Unicode `White_Space` set.
pub open spec fn is_ws(c: char) -> bool {
    c == ' ' || c == '\t' || c == '\n' || c == '\r' || c == '\u{000B}' || c == '\u{000C}'
        || c == '\u{0085}' || c == '\u{00A0}' || c == '\u{1680}' || c == '\u{2000}'
        || c == '\u{2001}' || c == '\u{2002}' || c == '\u{2003}' || c == '\u{2004}'
        || c == '\u{2005}' || c == '\u{2006}' || c == '\u{2007}' || c == '\u{2008}'
        || c == '\u{2009}' || c == '\u{200A}' || c == '\u{2028}' || c == '\u{2029}'
        || c == '\u{202F}' || c == '\u{205F}' || c == '\u{3000}'
}

pub fn is_ws_char(c: char) -> (r: bool)
    ensures
        r == is_ws(c),
{
    c == ' ' || c == '\t' || c == '\n' || c == '\r' || c == '\u{000B}' || c == '\u{000C}'
        || c == '\u{0085}' || c == '\u{00A0}' || c == '\u{1680}' || c == '\u{2000}'
        || c == '\u{2001}' || c == '\u{2002}' || c == '\u{2003}' || c == '\u{2004}'
        || c == '\u{2005}' || c == '\u{2006}' || c == '\u{2007}' || c == '\u{2008}'
        || c == '\u{2009}' || c == '\u{200A}' || c == '\u{2028}' || c == '\u{2029}'
        || c == '\u{202F}' || c == '\u{205F}' || c == '\u{3000}'
}

/// Index of the first character of `s` that is not whitespace (or `s.len()`).
pub open spec fn first_non_ws(s: Seq<char>) -> int
    decreases s.len(),
{
    if s.len() == 0 {
        0
    } else if is_ws(s[0]) {
        1 + first_non_ws(s.drop_first())
    } else {
        0
    }
}

/// One past the index of the last character of `s` that is not whitespace (or 0).
pub open spec fn last_non_ws_end(s: Seq<char>) -> int
    decreases s.len(),
{
    if s.len() == 0 {
        0
    } else if is_ws(s[s.len() - 1]) {
        last_non_ws_end(s.drop_last())
    } else {
        s.len() as int
    }
}

/// What `str::trim` returns: `s` without leading and trailing whitespace.
pub open spec fn trim_spec(s: Seq<char>) -> Seq<char> {
    if first_non_ws(s) == s.len() {
        Seq::empty()
    } else {
        s.subrange(first_non_ws(s), last_non_ws_end(s))
    }
}

proof fn lemma_first_non_ws_bounds(s: Seq<char>)
    ensures
        0 <= first_non_ws(s) <= s.len(),
        forall|i: int| 0 <= i < first_non_ws(s) ==> is_ws(s[i]),
        first_non_ws(s) < s.len() ==> !is_ws(s[first_non_ws(s)]),
    decreases s.len(),
{
    if s.len() > 0 && is_ws(s[0]) {
        lemma_first_non_ws_bounds(s.drop_first());
        assert forall|i: int| 0 <= i < first_non_ws(s) implies is_ws(s[i]) by {
            if i > 0 {
                assert(s.drop_first()[i - 1] == s[i]);
            }
        }
        if first_non_ws(s) < s.len() {
            assert(s.drop_first()[first_non_ws(s) - 1] == s[first_non_ws(s)]);
        }
    }
}

proof fn lemma_last_non_ws_end_bounds(s: Seq<char>)
    ensures
        0 <= last_non_ws_end(s) <= s.len(),
        forall|i: int| last_non_ws_end(s) <= i < s.len() ==> is_ws(s[i]),
        last_non_ws_end(s) > 0 ==> !is_ws(s[last_non_ws_end(s) - 1]),
    decreases s.len(),
{
    if s.len() > 0 && is_ws(s[s.len() - 1]) {
        lemma_last_non_ws_end_bounds(s.drop_last());
        assert forall|i: int| last_non_ws_end(s) <= i < s.len() implies is_ws(s[i]) by {
            if i < s.len() - 1 {
                assert(s.drop_last()[i] == s[i]);
            }
        }
    }
}

/// A trimmed string starts and ends with non-whitespace, so trimming it
/// again changes nothing.
pub proof fn lemma_trim_idempotent(s: Seq<char>)
    ensures
        trim_spec(trim_spec(s)) == trim_spec(s),
{
    lemma_first_non_ws_bounds(s);
    lemma_last_non_ws_end_bounds(s);
    let t = trim_spec(s);
    if first_non_ws(s) == s.len() {
        assert(t.len() == 0);
        assert(trim_spec(t) =~= t);
    } else {
        let a = first_non_ws(s);
        let b = last_non_ws_end(s);
        assert(!is_ws(s[a]));
        // a < b: position a is non-whitespace, so the trailing scan stops at or after it
        assert(a < b) by {
            if b <= a {
                assert(is_ws(s[a]));
            }
        }
        assert(t.len() == b - a);
        assert(t[0] == s[a]);
        assert(t[t.len() - 1] == s[b - 1]);
        assert(!is_ws(t[0]));
        assert(b > 0 && !is_ws(s[b - 1]));
        assert(first_non_ws(t) == 0);
        assert(last_non_ws_end(t) == t.len());
        assert(trim_spec(t) =~= t);
    }
}

/// What `str::trim` does, over characters.
pub fn trim_chars(s: &str) -> (r: String)
    ensures
        r@ == trim_spec(s@),
{
    trim_slice(s).to_owned()
}

/// `str::trim`, returning a borrowed slice of `s`.
pub fn trim_slice<'a>(s: &'a str) -> (r: &'a str)
    ensures
        r@ == trim_spec(s@),
{
    let n = s.unicode_len();
    let mut a: usize = 0;
    proof {
        lemma_first_non_ws_bounds(s@);
        lemma_last_non_ws_end_bounds(s@);
    }
    while a < n && is_ws_char(s.get_char(a))
        invariant
            0 <= a <= n,
            n == s@.len(),
            a <= first_non_ws(s@),
            forall|i: int| 0 <= i < a ==> is_ws(s@[i]),
        decreases n - a,
    {
        proof {
            lemma_first_non_ws_bounds(s@);
            if a + 1 > first_non_ws(s@) {
                assert(!is_ws(s@[first_non_ws(s@)]));
            }
        }
        a += 1;
    }
    proof {
        lemma_first_non_ws_bounds(s@);
        if a < n {
            assert(a >= first_non_ws(s@));
        } else {
            assert(first_non_ws(s@) == s@.len());
        }
    }
    if a == n {
        let r = s.substring_char(0, 0);
        assert(r@ =~= trim_spec(s@));
        return r;
    }
    assert(a == first_non_ws(s@));
    let mut b: usize = n;
    while b > a && is_ws_char(s.get_char(b - 1))
        invariant
            a < b <= n || b == a,
            a <= b <= n,
            n == s@.len(),
            a == first_non_ws(s@),
            b >= last_non_ws_end(s@),
            forall|i: int| b <= i < n ==> is_ws(s@[i]),
        decreases b,
    {
        proof {
            lemma_last_non_ws_end_bounds(s@);
            if b - 1 < last_non_ws_end(s@) {
                assert(b == last_non_ws_end(s@));
                assert(!is_ws(s@[b - 1]));
            }
        }
        b -= 1;
    }
    proof {
        lemma_last_non_ws_end_bounds(s@);
        lemma_first_non_ws_bounds(s@);
        // the character at `a` is not whitespace, so the backward scan stopped at or after a + 1
        if b == a {
            assert(is_ws(s@[a as int]));
        }
        assert(b == last_non_ws_end(s@));
    }
    s.substring_char(a, b)
}

/// Whether two strings hold the same characters.
pub fn str_equal(a: &str, b: &str) -> (r: bool)
    ensures
        r == (a@ == b@),
{
    let n = a.unicode_len();
    let m = b.unicode_len();
    if n != m {
        proof {
            assert(a@ != b@);
        }
        return false;
    }
    let mut i: usize = 0;
    while i < n
        invariant
            0 <= i <= n,
            n == a@.len(),
            n == b@.len(),
            forall|k: int| 0 <= k < i ==> a@[k] == b@[k],
        decreases n - i,
    {
        if a.get_char(i) != b.get_char(i) {
            return false;
        }
        i += 1;
    }
    proof {
        assert(a@ =~= b@);
    }
    true
}

/// The characters of `s`, as a vector.
pub fn str_chars(s: &str) -> (v: Vec<char>)
    ensures
        v@ == s@,
{
    let n = s.unicode_len();
    let mut v: Vec<char> = Vec::new();
    let mut i: usize = 0;
    while i < n
        invariant
            0 <= i <= n,
            n == s@.len(),
            v@ == s@.subrange(0, i as int),
        decreases n - i,
    {
        v.push(s.get_char(i));
        proof {
            assert(v@ =~= s@.subrange(0, i + 1));
        }
        i += 1;
    }
    proof {
        assert(v@ =~= s@);
    }
    v
}

pub open spec fn digit_char(d: int) -> char {
    if d == 0 { '0' } else if d == 1 { '1' } else if d == 2 { '2' } else if d == 3 { '3' }
    else if d == 4 { '4' } else if d == 5 { '5' } else if d == 6 { '6' } else if d == 7 { '7' }
    else if d == 8 { '8' } else { '9' }
}

pub fn digit_char_exec(d: u8) -> (c: char)
    requires
        d < 10,
    ensures
        c == digit_char(d as int),
{
    match d {
        0 => '0',
        1 => '1',
        2 => '2',
        3 => '3',
        4 => '4',
        5 => '5',
        6 => '6',
        7 => '7',
        8 => '8',
        _ => '9',
    }
}

/// The decimal digits of `n`, most significant first, with no sign and no
/// leading zero (a single `'0'` for zero).
pub open spec fn dec_digits(n: nat) -> Seq<char>
    decreases n,
{
    if n < 10 {
        seq![digit_char(n as int)]
    } else {
        dec_digits(n / 10).push(digit_char((n % 10) as int))
    }
}

/// The decimal rendering of a signed value: a `'-'` before the digits of
/// its magnitude when it is negative.
pub open spec fn i64_dec_str(v: int) -> Seq<char> {
    if v < 0 {
        seq!['-'] + dec_digits((-v) as nat)
    } else {
        dec_digits(v as nat)
    }
}

/// The decimal digits of `n`, as a string.
pub fn u64_dec(n: u64) -> (s: String)
    ensures
        s@ == dec_digits(n as nat),
    decreases n,
{
    if n < 10 {
        let mut s = String::new();
        push_char(&mut s, digit_char_exec(n as u8));
        proof {
            assert(s@ =~= dec_digits(n as nat));
        }
        s
    } else {
        let mut s = u64_dec(n / 10);
        push_char(&mut s, digit_char_exec((n % 10) as u8));
        s
    }
}

/// The decimal rendering of `v`, as `format!("{v}")` produces it.
pub fn i64_to_dec(v: i64) -> (s: String)
    ensures
        s@ == i64_dec_str(v as int),
{
    if v >= 0 {
        u64_dec(v as u64)
    } else {
        let mag: u64 = if v == i64::MIN {
            9223372036854775808u64
        } else {
            (-v) as u64
        };
        let mut s = String::new();
        push_char(&mut s, '-');
        let d = u64_dec(mag);
        s.append(d.as_str());
        proof {
            assert(s@ =~= seq!['-'] + dec_digits(mag as nat));
        }
        s
    }
}

pub open spec fn is_digit(c: char) -> bool {
    48 <= c as u32 <= 57
}

pub fn is_digit_char(c: char) -> (r: bool)
    ensures
        r == is_digit(c),
{
    let u = c as u32;
    48 <= u && u <= 57
}

pub open spec fn digit_val(c: char) -> int {
    c as u32 - 48
}

pub open spec fn all_digits(s: Seq<char>) -> bool {
    forall|i: int| 0 <= i < s.len() ==> is_digit(#[trigger] s[i])
}

/// The value of a run of decimal digits, most significant first.
pub open spec fn digits_val(s: Seq<char>) -> int
    decreases s.len(),
{
    if s.len() == 0 {
        0
    } else {
        digits_val(s.drop_last()) * 10 + digit_val(s.last())
    }
}

/// What parsing a whole string as an `i64` yields: an optional leading
/// `'-'`, then one or more decimal digits whose value is in range.
pub open spec fn parse_i64_spec(s: Seq<char>) -> Option<i64> {
    if s.len() > 0 && s[0] == '-' {
        let d = s.subrange(1, s.len() as int);
        if d.len() > 0 && all_digits(d) && digits_val(d) <= 0x8000000000000000 {
            Some((-digits_val(d)) as i64)
        } else {
            None
        }
    } else {
        if s.len() > 0 && all_digits(s) && digits_val(s) <= 0x7fffffffffffffff {
            Some(digits_val(s) as i64)
        } else {
            None
        }
    }
}

pub proof fn lemma_digits_val_nonneg(s: Seq<char>)
    requires
        all_digits(s),
    ensures
        digits_val(s) >= 0,
    decreases s.len(),
{
    if s.len() > 0 {
        assert(all_digits(s.drop_last())) by {
            assert(forall|i: int| 0 <= i < s.len() - 1 ==> s.drop_last()[i] == s[i]);
        }
        lemma_digits_val_nonneg(s.drop_last());
        assert(is_digit(s.last()));
    }
}

/// Appending digits to a digit run never shrinks its value.
proof fn lemma_digits_val_extend(s: Seq<char>, k: int)
    requires
        all_digits(s),
        0 < k <= s.len(),
    ensures
        digits_val(s) >= digits_val(s.subrange(0, k)),
    decreases s.len() - k,
{
    if k == s.len() {
        assert(s.subrange(0, k) =~= s);
    } else {
        lemma_digits_val_extend(s, k + 1);
        let p = s.subrange(0, k + 1);
        let q = s.subrange(0, k);
        assert(p.drop_last() =~= q);
        assert(all_digits(q));
        lemma_digits_val_nonneg(q);
        assert(is_digit(p.last()));
        assert(digits_val(p) == digits_val(q) * 10 + digit_val(p.last()));
        assert(digits_val(p) >= digits_val(q));
    }
}

/// The digits of a digit run within `[from, to)` of `v`, parsed as a value
/// capped by `limit`; `None` when the run is empty, holds a non-digit, or
/// exceeds the cap.
pub(crate) fn parse_digits_range(v: &Vec<char>, from: usize, to: usize, limit: u64) -> (r: Option<u64>)
    requires
        from <= to <= v@.len(),
        limit >= 9,
    ensures
        ({
            let d = v@.subrange(from as int, to as int);
            match r {
                Some(x) => from < to && all_digits(d) && digits_val(d) == x && x <= limit,
                None => from == to || !all_digits(d) || digits_val(d) > limit,
            }
        }),
{
    if from == to {
        return None;
    }
    let ghost d = v@.subrange(from as int, to as int);
    let mut acc: u64 = 0;
    let mut i: usize = from;
    while i < to
        invariant
            limit >= 9,
            from <= i <= to <= v@.len(),
            d == v@.subrange(from as int, to as int),
            all_digits(v@.subrange(from as int, i as int)),
            acc == digits_val(v@.subrange(from as int, i as int)),
            acc <= limit,
        decreases to - i,
    {
        let c = v[i];
        let u = c as u32;
        if !(48 <= u && u <= 57) {
            proof {
                assert(d[i - from] == v@[i as int]);
                assert(!is_digit(d[i - from]));
            }
            return None;
        }
        let dv: u64 = (u - 48) as u64;
        let ghost pre = v@.subrange(from as int, i as int);
        let ghost pre1 = v@.subrange(from as int, i + 1);
        proof {
            assert(pre1.drop_last() =~= pre);
            assert(pre1.last() == v@[i as int]);
            assert(digits_val(pre1) == acc * 10 + dv);
        }
        if acc > (limit - dv) / 10 {
            proof {
                // acc * 10 + dv exceeds the cap, and further digits only grow it
                let q = (limit - dv) / 10;
                assert(limit - dv == q * 10 + (limit - dv) % 10);
                assert((limit - dv) % 10 <= 9);
                assert(acc * 10 >= (q + 1) * 10);
                assert(digits_val(pre1) > limit);
                if all_digits(d) && i + 1 <= to {
                    assert(pre1 =~= d.subrange(0, i + 1 - from));
                    lemma_digits_val_extend(d, i + 1 - from);
                    assert(digits_val(d) > limit);
                }
            }
            return None;
        }
        proof {
            let q = (limit - dv) / 10;
            assert(limit - dv >= q * 10);
            assert(acc * 10 + dv <= q * 10 + dv <= limit);
        }
        acc = acc * 10 + dv;
        proof {
            assert(all_digits(pre1)) by {
                assert(forall|j: int| 0 <= j < pre.len() ==> pre1[j] == pre[j]);
                assert(is_digit(pre1[pre1.len() - 1]));
            }
        }
        i += 1;
    }
    proof {
        assert(v@.subrange(from as int, to as int) =~= d);
    }
    Some(acc)
}

/// Parse a whole string as a signed 64-bit decimal numeral.
pub fn parse_i64(s: &str) -> (r: Option<i64>)
    ensures
        r == parse_i64_spec(s@),
{
    let v = str_chars(s);
    let n = v.len();
    if n == 0 {
        return None;
    }
    if v[0] == '-' {
        let m = parse_digits_range(&v, 1, n, 0x8000000000000000u64);
        proof {
            if m is None {
                let d = s@.subrange(1, s@.len() as int);
                if d.len() > 0 && all_digits(d) {
                    lemma_digits_val_nonneg(d);
                }
            }
        }
        match m {
            None => None,
            Some(mag) => {
                if mag == 0x8000000000000000u64 {
                    Some(i64::MIN)
                } else {
                    Some(-(mag as i64))
                }
            },
        }
    } else {
        let m = parse_digits_range(&v, 0, n, 0x7fffffffffffffffu64);
        proof {
            assert(v@.subrange(0, n as int) =~= s@);
        }
        match m {
            None => None,
            Some(x) => Some(x as i64),
        }
    }
}

pub(crate) proof fn lemma_dec_digits_all_digits(n: nat)
    ensures
        all_digits(dec_digits(n)),
        dec_digits(n).len() > 0,
    decreases n,
{
    if n < 10 {
        assert(is_digit(dec_digits(n)[0]));
    } else {
        lemma_dec_digits_all_digits(n / 10);
        let s = dec_digits(n);
        assert(s == dec_digits(n / 10).push(digit_char((n % 10) as int)));
        assert(forall|i: int|
            0 <= i < s.len() - 1 ==> s[i] == dec_digits(n / 10)[i]);
        assert(is_digit(s[s.len() - 1]));
    }
}

pub(crate) proof fn lemma_dec_digits_val(n: nat)
    ensures
        digits_val(dec_digits(n)) == n,
    decreases n,
{
    if n < 10 {
        let s = dec_digits(n);
        assert(s.len() == 1);
        assert(s.drop_last() =~= Seq::<char>::empty());
        assert(digits_val(s.drop_last()) == 0);
        assert(s.last() == digit_char(n as int));
        assert(digit_val(digit_char(n as int)) == n);
        assert(digits_val(s) == digits_val(s.drop_last()) * 10 + digit_val(s.last()));
    } else {
        lemma_dec_digits_val(n / 10);
        let s = dec_digits(n);
        assert(s.drop_last() =~= dec_digits(n / 10));
        assert(s.last() == digit_char((n % 10) as int));
        assert(digit_val(digit_char((n % 10) as int)) == n % 10);
        assert(digits_val(s) == (n / 10) * 10 + n % 10);
    }
}

/// Rendering an `i64` in decimal and parsing it back returns the same value.
pub proof fn lemma_i64_dec_roundtrip(v: i64)
    ensures
        parse_i64_spec(i64_dec_str(v as int)) == Some(v),
{
    if v >= 0 {
        let s = i64_dec_str(v as int);
        assert(s == dec_digits(v as nat));
        lemma_dec_digits_all_digits(v as nat);
        lemma_dec_digits_val(v as nat);
        assert(s[0] != '-') by {
            assert(is_digit(s[0]));
        }
        assert(digits_val(s) == v as int <= 0x7fffffffffffffff);
    } else {
        let mag = (-(v as int)) as nat;
        let s = i64_dec_str(v as int);
        assert(s == seq!['-'] + dec_digits(mag));
        lemma_dec_digits_all_digits(mag);
        lemma_dec_digits_val(mag);
        let d = s.subrange(1, s.len() as int);
        assert(d =~= dec_digits(mag));
        assert(s[0] == '-');
        assert(digits_val(d) == mag <= 0x8000000000000000);
        assert((-digits_val(d)) as i64 == v);
    }
}

} // verus!
