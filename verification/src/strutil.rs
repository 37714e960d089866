//! Small verified helpers over strings and characters: equality, prefix and
//! substring tests, and decimal formatting. Everything in the crate that
//! builds or inspects text goes through these.

use vstd::prelude::*;

verus! {

/// Relies on `String::push`: appends one character to the string.
#[verifier::external_body]
pub fn push_char(s: &mut String, c: char)
    ensures
        final(s)@ == old(s)@.push(c),
{
    s.push(c)
}

/// Character-for-character string equality.
pub fn str_eq(a: &str, b: &str) -> (r: bool)
    ensures
        r == (a@ == b@),
{
    let alen: usize = a.unicode_len();
    let blen: usize = b.unicode_len();
    if alen != blen {
        assert(a@ != b@);
        return false;
    }
    let mut i: usize = 0;
    while i < alen
        invariant
            0 <= i <= alen,
            alen == a@.len(),
            alen == b@.len(),
            forall|j: int| 0 <= j < i ==> a@[j] == b@[j],
        decreases alen - i,
    {
        if a.get_char(i) != b.get_char(i) {
            assert(a@ != b@);
            return false;
        }
        i += 1;
    }
    assert(a@ =~= b@);
    true
}

/// True when `s` begins with `p`.
pub open spec fn starts_with_spec(s: Seq<char>, p: Seq<char>) -> bool {
    p.len() <= s.len() && s.subrange(0, p.len() as int) == p
}

/// Prefix test.
pub fn str_starts_with(s: &str, p: &str) -> (r: bool)
    ensures
        r == starts_with_spec(s@, p@),
{
    let slen: usize = s.unicode_len();
    let plen: usize = p.unicode_len();
    if plen > slen {
        return false;
    }
    let mut i: usize = 0;
    while i < plen
        invariant
            0 <= i <= plen <= slen,
            slen == s@.len(),
            plen == p@.len(),
            forall|j: int| 0 <= j < i ==> s@[j] == p@[j],
        decreases plen - i,
    {
        if s.get_char(i) != p.get_char(i) {
            assert(s@.subrange(0, p@.len() as int)[i as int] != p@[i as int]);
            return false;
        }
        i += 1;
    }
    assert(s@.subrange(0, p@.len() as int) =~= p@);
    true
}

/// True when `pat` occurs in `s` at position `i`.
pub open spec fn occurs_at(s: Seq<char>, pat: Seq<char>, i: int) -> bool {
    0 <= i && i + pat.len() <= s.len() && s.subrange(i, i + pat.len() as int) == pat
}

/// True exactly when `pat` occurs in `s` at position `i`.
pub fn match_at(s: &str, pat: &str, i: usize) -> (r: bool)
    requires
        i + pat@.len() <= s@.len(),
    ensures
        r == occurs_at(s@, pat@, i as int),
{
    let slen: usize = s.unicode_len();
    let plen: usize = pat.unicode_len();
    let mut k: usize = 0;
    while k < plen
        invariant
            0 <= k <= plen,
            i + plen <= slen,
            slen == s@.len(),
            plen == pat@.len(),
            forall|j: int| 0 <= j < k ==> s@[i + j] == pat@[j],
        decreases plen - k,
    {
        if s.get_char(i + k) != pat.get_char(k) {
            assert(s@.subrange(i as int, i + pat@.len() as int)[k as int] != pat@[k as int]);
            return false;
        }
        k = k + 1;
    }
    assert(s@.subrange(i as int, i + pat@.len() as int) =~= pat@);
    true
}

/// Position of the first occurrence of `pat` in `s`, if any.
pub fn find_first(s: &str, pat: &str) -> (r: Option<usize>)
    ensures
        match r {
            Some(i) => occurs_at(s@, pat@, i as int) && forall|j: int|
                0 <= j < i ==> !occurs_at(s@, pat@, j),
            None => forall|j: int| !occurs_at(s@, pat@, j),
        },
{
    let slen: usize = s.unicode_len();
    let plen: usize = pat.unicode_len();
    if plen > slen {
        return None;
    }
    if plen == 0 {
        assert(s@.subrange(0, 0) =~= pat@);
        return Some(0);
    }
    let mut i: usize = 0;
    while i <= slen - plen
        invariant
            0 <= i <= slen - plen + 1,
            1 <= plen <= slen,
            slen == s@.len(),
            plen == pat@.len(),
            forall|j: int| 0 <= j < i ==> !occurs_at(s@, pat@, j),
        decreases slen - i,
    {
        if match_at(s, pat, i) {
            return Some(i);
        }
        i += 1;
    }
    assert(forall|j: int| j > slen - plen ==> !occurs_at(s@, pat@, j));
    None
}

/// Copy of the characters of `s`.
pub fn chars_vec(s: &str) -> (r: Vec<char>)
    ensures
        r@ == s@,
{
    let n: usize = s.unicode_len();
    let mut out: Vec<char> = Vec::new();
    let mut i: usize = 0;
    while i < n
        invariant
            0 <= i <= n,
            n == s@.len(),
            out@ == s@.subrange(0, i as int),
        decreases n - i,
    {
        out.push(s.get_char(i));
        assert(out@ =~= s@.subrange(0, i + 1 as int));
        i += 1;
    }
    assert(out@ =~= s@);
    out
}

/// A string holding exactly the characters of `v`.
pub fn string_from_chars(v: &Vec<char>) -> (r: String)
    ensures
        r@ == v@,
{
    let mut out: String = String::new();
    let mut i: usize = 0;
    while i < v.len()
        invariant
            0 <= i <= v@.len(),
            out@ == v@.subrange(0, i as int),
        decreases v@.len() - i,
    {
        push_char(&mut out, v[i]);
        assert(out@ =~= v@.subrange(0, i + 1 as int));
        i += 1;
    }
    assert(out@ =~= v@);
    out
}

/// The character for one decimal digit.
pub open spec fn digit_char(d: int) -> char {
    ((48 + d) as u8) as char
}

/// Decimal digits of `n`, most significant first, no leading zeros.
pub open spec fn dec_digits(n: nat) -> Seq<char>
    decreases n,
{
    if n < 10 {
        seq![digit_char(n as int)]
    } else {
        dec_digits(n / 10).push(digit_char((n % 10) as int))
    }
}

/// Decimal rendering of an unsigned number.
pub fn u64_to_dec(n: u64) -> (r: String)
    ensures
        r@ == dec_digits(n as nat),
    decreases n,
{
    if n < 10 {
        let c: char = (48 + n as u8) as char;
        let mut s: String = String::new();
        push_char(&mut s, c);
        assert(s@ =~= dec_digits(n as nat));
        s
    } else {
        assert(n / 10 < n) by (nonlinear_arith)
            requires n >= 10;
        let mut s: String = u64_to_dec(n / 10);
        let d: u64 = n % 10;
        let c: char = (48 + d as u8) as char;
        push_char(&mut s, c);
        assert(s@ =~= dec_digits(n as nat));
        s
    }
}

/// Decimal rendering of a signed number: a minus sign for negatives, then
/// the digits of the magnitude.
pub open spec fn dec_int(n: int) -> Seq<char> {
    if n < 0 {
        seq!['-'] + dec_digits((-n) as nat)
    } else {
        dec_digits(n as nat)
    }
}

/// Decimal rendering of a signed number.
pub fn i64_to_dec(n: i64) -> (r: String)
    ensures
        r@ == dec_int(n as int),
{
    if n >= 0 {
        u64_to_dec(n as u64)
    } else {
        let mag: u64 = if n == i64::MIN {
            9223372036854775808u64
        } else {
            (-n) as u64
        };
        assert(mag as nat == (-(n as int)) as nat);
        let digits: String = u64_to_dec(mag);
        let mut s: String = String::new();
        push_char(&mut s, '-');
        s.append(digits.as_str());
        assert(s@ =~= dec_int(n as int));
        s
    }
}

/// `n` zeros.
pub open spec fn zeros(n: nat) -> Seq<char>
    decreases n,
{
    if n == 0 {
        Seq::empty()
    } else {
        seq!['0'] + zeros((n - 1) as nat)
    }
}

/// Decimal digits of `n`, left-padded with zeros to at least four places.
pub open spec fn pad4_spec(n: nat) -> Seq<char> {
    let d = dec_digits(n);
    if d.len() >= 4 {
        d
    } else {
        zeros((4 - d.len()) as nat) + d
    }
}

/// Four-place zero-padded decimal rendering, as in a paragraph number.
pub fn u64_to_pad4(n: u64) -> (r: String)
    ensures
        r@ == pad4_spec(n as nat),
{
    let digits: String = u64_to_dec(n);
    let dlen: usize = digits.as_str().unicode_len();
    let mut s: String = String::new();
    if dlen < 4 {
        let mut i: usize = 0;
        while i < 4 - dlen
            invariant
                0 <= i <= 4 - dlen,
                dlen < 4,
                dlen == dec_digits(n as nat).len(),
                s@ == zeros(i as nat),
            decreases 4 - dlen - i,
        {
            push_char(&mut s, '0');
            assert(zeros((i + 1) as nat) =~= zeros(i as nat).push('0')) by {
                lemma_zeros_snoc((i + 1) as nat);
            }
            i += 1;
        }
    }
    s.append(digits.as_str());
    assert(s@ =~= pad4_spec(n as nat));
    s
}

/// Zeros can be peeled off at either end.
proof fn lemma_zeros_snoc(n: nat)
    requires
        n >= 1,
    ensures
        zeros(n) == zeros((n - 1) as nat).push('0'),
    decreases n,
{
    if n == 1 {
        assert(zeros(1) =~= zeros(0).push('0'));
    } else {
        lemma_zeros_snoc((n - 1) as nat);
        assert(zeros(n) =~= zeros((n - 1) as nat).push('0'));
    }
}

} // verus!
