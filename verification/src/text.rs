//! Character-level text utilities: decimal rendering and parsing,
//! lexicographic ordering, and substring search, all specified over
//! `Seq<char>` views.

use vstd::prelude::*;

verus! {

/// Relies on `String::push`: appends exactly one character to the string.
#[verifier::external_body]
pub fn push_char(s: &mut String, c: char)
    ensures
        final(s)@ == old(s)@ + seq![c],
{
    s.push(c)
}

pub open spec fn is_digit(c: char) -> bool {
    ('0' as u32) <= (c as u32) && (c as u32) <= ('9' as u32)
}

pub open spec fn digit_val(c: char) -> nat {
    ((c as u32) - ('0' as u32)) as nat
}

pub open spec fn digit_char(d: nat) -> char {
    if d == 0 { '0' }
    else if d == 1 { '1' }
    else if d == 2 { '2' }
    else if d == 3 { '3' }
    else if d == 4 { '4' }
    else if d == 5 { '5' }
    else if d == 6 { '6' }
    else if d == 7 { '7' }
    else if d == 8 { '8' }
    else { '9' }
}

pub fn digit_char_exec(d: u64) -> (c: char)
    requires
        d < 10,
    ensures
        c == digit_char(d as nat),
{
    if d == 0 { '0' }
    else if d == 1 { '1' }
    else if d == 2 { '2' }
    else if d == 3 { '3' }
    else if d == 4 { '4' }
    else if d == 5 { '5' }
    else if d == 6 { '6' }
    else if d == 7 { '7' }
    else if d == 8 { '8' }
    else { '9' }
}

pub open spec fn all_digits(s: Seq<char>) -> bool {
    forall|i: int| 0 <= i < s.len() ==> is_digit(#[trigger] s[i])
}

/// The numeric value of a digit string, most significant digit first.
pub open spec fn dec_val(s: Seq<char>) -> nat
    decreases s.len(),
{
    if s.len() == 0 {
        0
    } else {
        dec_val(s.drop_last()) * 10 + digit_val(s.last())
    }
}

/// The canonical decimal rendering of a number (no leading zeros).
pub open spec fn dec_str(n: nat) -> Seq<char>
    decreases n,
{
    if n < 10 {
        seq![digit_char(n)]
    } else {
        dec_str(n / 10) + seq![digit_char(n % 10)]
    }
}

/// Appends the decimal rendering of `n`.
pub fn push_dec(s: &mut String, n: u64)
    ensures
        final(s)@ == old(s)@ + dec_str(n as nat),
    decreases n,
{
    if n >= 10 {
        push_dec(s, n / 10);
    }
    push_char(s, digit_char_exec(n % 10));
    proof {
        if n < 10 {
            assert(n % 10 == n);
            assert(dec_str(n as nat) == seq![digit_char(n as nat)]);
        }
        assert(s@ =~= old(s)@ + dec_str(n as nat));
    }
}

pub fn u64_to_string(n: u64) -> (s: String)
    ensures
        s@ == dec_str(n as nat),
{
    let mut s = String::new();
    push_dec(&mut s, n);
    proof {
        assert(s@ =~= dec_str(n as nat));
    }
    s
}

/// The number of digits in the decimal rendering of `n`.
pub open spec fn dec_len(n: nat) -> nat
    decreases n,
{
    if n < 10 { 1 } else { dec_len(n / 10) + 1 }
}

pub proof fn lemma_dec_str_len(n: nat)
    ensures
        dec_str(n).len() == dec_len(n),
    decreases n,
{
    if n >= 10 {
        lemma_dec_str_len(n / 10);
    }
}

pub fn dec_len_exec(n: u64) -> (l: u64)
    ensures
        l == dec_len(n as nat),
        1 <= l <= 20,
    decreases n,
{
    if n < 10 {
        1
    } else {
        let r = dec_len_exec(n / 10);
        proof {
            lemma_dec_len_bound(n as nat);
        }
        r + 1
    }
}

pub proof fn lemma_dec_len_bound(n: nat)
    requires
        n < 0x1_0000_0000_0000_0000,
    ensures
        1 <= dec_len(n) <= 20,
{
    assert(pow10(20) == 0x56bc75e2d63100000) by {
        reveal_with_fuel(pow10, 21);
    }
    lemma_dec_len_pow(n, 20);
}

pub open spec fn pow10(k: nat) -> nat
    decreases k,
{
    if k == 0 { 1 } else { 10 * pow10((k - 1) as nat) }
}

/// A number below `10^k` has at most `k` digits.
pub proof fn lemma_dec_len_pow(n: nat, k: nat)
    requires
        k >= 1,
        n < pow10(k),
    ensures
        dec_len(n) <= k,
    decreases k,
{
    if n >= 10 {
        assert(pow10(k) == 10 * pow10((k - 1) as nat));
        if k == 1 {
            assert(pow10(0nat) == 1);
            assert(false);
        }
        assert(n / 10 < pow10((k - 1) as nat)) by (nonlinear_arith)
            requires
                n < 10 * pow10((k - 1) as nat),
        ;
        lemma_dec_len_pow(n / 10, (k - 1) as nat);
    }
}

/// A sequence of `k` copies of `c`.
pub open spec fn char_repeat(c: char, k: nat) -> Seq<char> {
    Seq::new(k, |i: int| c)
}

pub fn push_repeat(s: &mut String, c: char, k: usize)
    ensures
        final(s)@ == old(s)@ + char_repeat(c, k as nat),
{
    let mut i: usize = 0;
    while i < k
        invariant
            i <= k,
            s@ == old(s)@ + char_repeat(c, i as nat),
        decreases k - i,
    {
        push_char(s, c);
        proof {
            assert(char_repeat(c, i as nat) + seq![c] =~= char_repeat(c, (i + 1) as nat));
            assert(s@ =~= old(s)@ + char_repeat(c, (i + 1) as nat));
        }
        i = i + 1;
    }
    proof {
        assert(s@ =~= old(s)@ + char_repeat(c, k as nat));
    }
}

/// The decimal rendering of `n` left-padded with zeros to width `w`.
pub open spec fn dec_str_pad(n: nat, w: nat) -> Seq<char> {
    if dec_str(n).len() >= w {
        dec_str(n)
    } else {
        char_repeat('0', (w - dec_str(n).len()) as nat) + dec_str(n)
    }
}

pub fn push_dec_pad(s: &mut String, n: u64, w: u64)
    requires
        w <= 100,
    ensures
        final(s)@ == old(s)@ + dec_str_pad(n as nat, w as nat),
{
    let l = dec_len_exec(n);
    proof {
        lemma_dec_str_len(n as nat);
    }
    if l < w {
        push_repeat(s, '0', (w - l) as usize);
    }
    push_dec(s, n);
    proof {
        assert(s@ =~= old(s)@ + dec_str_pad(n as nat, w as nat));
    }
}

/// The decimal rendering of a possibly-negative number.
pub open spec fn int_str(v: int) -> Seq<char> {
    if v < 0 {
        seq!['-'] + dec_str((-v) as nat)
    } else {
        dec_str(v as nat)
    }
}

pub fn push_int(s: &mut String, v: i64)
    requires
        v != i64::MIN,
    ensures
        final(s)@ == old(s)@ + int_str(v as int),
{
    if v < 0 {
        push_char(s, '-');
        push_dec(s, (-v) as u64);
    } else {
        push_dec(s, v as u64);
    }
    proof {
        assert(s@ =~= old(s)@ + int_str(v as int));
    }
}

/// Appends the decimal rendering of `n` for wide values.
pub fn push_dec_u128(s: &mut String, n: u128)
    ensures
        final(s)@ == old(s)@ + dec_str(n as nat),
    decreases n,
{
    if n >= 10 {
        push_dec_u128(s, n / 10);
    }
    let d: u64 = (n % 10) as u64;
    push_char(s, digit_char_exec(d));
    proof {
        if n < 10 {
            assert(n % 10 == n);
            assert(dec_str(n as nat) == seq![digit_char(n as nat)]);
        }
        assert(s@ =~= old(s)@ + dec_str(n as nat));
    }
}

/// Exact character-for-character equality of two string slices.
pub fn str_eq(a: &str, b: &str) -> (r: bool)
    ensures
        r == (a@ == b@),
{
    let alen = a.unicode_len();
    let blen = b.unicode_len();
    if alen != blen {
        return false;
    }
    let mut i: usize = 0;
    while i < alen
        invariant
            alen == a@.len(),
            blen == b@.len(),
            alen == blen,
            i <= alen,
            forall|j: int| 0 <= j < i ==> a@[j] == b@[j],
        decreases alen - i,
    {
        if a.get_char(i) != b.get_char(i) {
            return false;
        }
        i = i + 1;
    }
    proof {
        assert(a@ =~= b@);
    }
    true
}

/// Lexicographic order on character sequences, by code point.
pub open spec fn lex_lt(a: Seq<char>, b: Seq<char>) -> bool
    decreases a.len(),
{
    if b.len() == 0 {
        false
    } else if a.len() == 0 {
        true
    } else if a[0] != b[0] {
        (a[0] as u32) < (b[0] as u32)
    } else {
        lex_lt(a.skip(1), b.skip(1))
    }
}

pub fn str_lt(a: &str, b: &str) -> (r: bool)
    ensures
        r == lex_lt(a@, b@),
    decreases a@.len(),
{
    let alen = a.unicode_len();
    let blen = b.unicode_len();
    if blen == 0 {
        false
    } else if alen == 0 {
        true
    } else {
        let ca = a.get_char(0);
        let cb = b.get_char(0);
        if ca != cb {
            (ca as u32) < (cb as u32)
        } else {
            let ra = a.substring_char(1, alen);
            let rb = b.substring_char(1, blen);
            proof {
                assert(ra@ =~= a@.skip(1));
                assert(rb@ =~= b@.skip(1));
            }
            str_lt(ra, rb)
        }
    }
}

pub proof fn lemma_lex_irrefl(a: Seq<char>)
    ensures
        !lex_lt(a, a),
    decreases a.len(),
{
    if a.len() > 0 {
        lemma_lex_irrefl(a.skip(1));
    }
}

/// If neither sequence is below the other, they are equal.
pub proof fn lemma_lex_connected(a: Seq<char>, b: Seq<char>)
    requires
        !lex_lt(a, b),
        !lex_lt(b, a),
    ensures
        a == b,
    decreases a.len(),
{
    if a.len() == 0 || b.len() == 0 {
        assert(a =~= b);
    } else {
        if a[0] != b[0] {
            assert((a[0] as u32) >= (b[0] as u32));
            assert((b[0] as u32) >= (a[0] as u32));
            vstd::utf8::char_u32_cast(a[0], a[0] as u32);
            vstd::utf8::char_u32_cast(b[0], b[0] as u32);
            assert(false);
        } else {
            lemma_lex_connected(a.skip(1), b.skip(1));
            assert forall|i: int| 0 <= i < a.len() implies a[i] == b[i] by {
                if i > 0 {
                    assert(a.skip(1)[i - 1] == b.skip(1)[i - 1]);
                }
            }
            assert(a =~= b);
        }
    }
}

/// Any two sequences are ordered or equal.
pub proof fn lemma_lex_total(a: Seq<char>, b: Seq<char>)
    ensures
        lex_lt(a, b) || lex_lt(b, a) || a == b,
{
    if !lex_lt(a, b) && !lex_lt(b, a) {
        lemma_lex_connected(a, b);
    }
}

pub proof fn lemma_lex_trans(a: Seq<char>, b: Seq<char>, c: Seq<char>)
    requires
        lex_lt(a, b),
        lex_lt(b, c),
    ensures
        lex_lt(a, c),
    decreases a.len(),
{
    if a.len() == 0 {
    } else {
        if a[0] == b[0] && b[0] == c[0] {
            lemma_lex_trans(a.skip(1), b.skip(1), c.skip(1));
        }
    }
}

pub open spec fn is_prefix(p: Seq<char>, s: Seq<char>) -> bool {
    p.len() <= s.len() && p == s.take(p.len() as int)
}

pub open spec fn is_suffix(p: Seq<char>, s: Seq<char>) -> bool {
    p.len() <= s.len() && p == s.skip(s.len() - p.len())
}

pub fn starts_with(s: &str, p: &str) -> (r: bool)
    ensures
        r == is_prefix(p@, s@),
{
    let slen = s.unicode_len();
    let plen = p.unicode_len();
    if plen > slen {
        return false;
    }
    let mut i: usize = 0;
    while i < plen
        invariant
            slen == s@.len(),
            plen == p@.len(),
            plen <= slen,
            i <= plen,
            forall|j: int| 0 <= j < i ==> p@[j] == s@[j],
        decreases plen - i,
    {
        if s.get_char(i) != p.get_char(i) {
            assert(p@[i as int] != s@.take(plen as int)[i as int]);
            return false;
        }
        i = i + 1;
    }
    proof {
        assert(p@ =~= s@.take(plen as int));
    }
    true
}

pub fn ends_with(s: &str, p: &str) -> (r: bool)
    ensures
        r == is_suffix(p@, s@),
{
    let slen = s.unicode_len();
    let plen = p.unicode_len();
    if plen > slen {
        return false;
    }
    let off = slen - plen;
    let mut i: usize = 0;
    while i < plen
        invariant
            slen == s@.len(),
            plen == p@.len(),
            plen <= slen,
            off == slen - plen,
            i <= plen,
            forall|j: int| 0 <= j < i ==> p@[j] == s@[off + j],
        decreases plen - i,
    {
        if s.get_char(off + i) != p.get_char(i) {
            assert(p@[i as int] != s@.skip(off as int)[i as int]);
            return false;
        }
        i = i + 1;
    }
    proof {
        assert(p@ =~= s@.skip(off as int));
    }
    true
}

/// Index of the first occurrence of `c` in `s`, or `-1` if absent.
pub open spec fn first_index_of(s: Seq<char>, c: char) -> int
    decreases s.len(),
{
    if s.len() == 0 {
        -1
    } else if s[0] == c {
        0
    } else {
        let r = first_index_of(s.skip(1), c);
        if r < 0 {
            -1
        } else {
            r + 1
        }
    }
}

pub proof fn lemma_first_index_of(s: Seq<char>, c: char)
    ensures
        first_index_of(s, c) == -1 ==> forall|j: int| 0 <= j < s.len() ==> s[j] != c,
        first_index_of(s, c) != -1 ==> {
            let i = first_index_of(s, c);
            &&& 0 <= i < s.len()
            &&& s[i] == c
            &&& forall|j: int| 0 <= j < i ==> s[j] != c
        },
    decreases s.len(),
{
    if s.len() > 0 && s[0] != c {
        lemma_first_index_of(s.skip(1), c);
        let r = first_index_of(s.skip(1), c);
        if r == -1 {
            assert forall|j: int| 0 <= j < s.len() implies s[j] != c by {
                if j > 0 {
                    assert(s.skip(1)[j - 1] != c);
                }
            }
        } else {
            assert(s[r + 1] == s.skip(1)[r]);
            assert forall|j: int| 0 <= j < r + 1 implies s[j] != c by {
                if j > 0 {
                    assert(s.skip(1)[j - 1] != c);
                }
            }
        }
    }
}

/// The first index of `c` is `i` exactly when `s[i] == c` and no earlier
/// position holds `c`.
pub proof fn lemma_first_index_of_is(s: Seq<char>, c: char, i: int)
    requires
        0 <= i < s.len(),
        s[i] == c,
        forall|j: int| 0 <= j < i ==> s[j] != c,
    ensures
        first_index_of(s, c) == i,
    decreases s.len(),
{
    if i > 0 {
        lemma_first_index_of_is(s.skip(1), c, i - 1);
    }
}

pub proof fn lemma_first_index_of_none(s: Seq<char>, c: char)
    requires
        forall|j: int| 0 <= j < s.len() ==> s[j] != c,
    ensures
        first_index_of(s, c) == -1,
    decreases s.len(),
{
    if s.len() > 0 {
        lemma_first_index_of_none(s.skip(1), c);
    }
}

pub fn find_char(s: &str, c: char) -> (r: Option<usize>)
    ensures
        match r {
            Some(i) => first_index_of(s@, c) == i,
            None => first_index_of(s@, c) == -1,
        },
{
    let slen = s.unicode_len();
    let mut i: usize = 0;
    while i < slen
        invariant
            slen == s@.len(),
            i <= slen,
            forall|j: int| 0 <= j < i ==> s@[j] != c,
        decreases slen - i,
    {
        if s.get_char(i) == c {
            proof {
                lemma_first_index_of_is(s@, c, i as int);
            }
            return Some(i);
        }
        i = i + 1;
    }
    proof {
        lemma_first_index_of_none(s@, c);
    }
    None
}

/// Splits at the first occurrence of `c`, which is dropped.
pub open spec fn split_once(s: Seq<char>, c: char) -> Option<(Seq<char>, Seq<char>)> {
    let i = first_index_of(s, c);
    if i < 0 {
        None
    } else {
        Some((s.take(i), s.skip(i + 1)))
    }
}

/// Executable counterpart of `split_once`.
pub fn split_once_exec(s: &str, c: char) -> (r: Option<(String, String)>)
    ensures
        match r {
            Some(parts) => split_once(s@, c) == Some((parts.0@, parts.1@)),
            None => split_once(s@, c) is None,
        },
{
    let slen = s.unicode_len();
    match find_char(s, c) {
        Some(i) => {
            proof {
                lemma_first_index_of(s@, c);
            }
            let head = s.substring_char(0, i).to_owned();
            let tail = s.substring_char(i + 1, slen).to_owned();
            proof {
                assert(head@ =~= s@.take(i as int));
                assert(tail@ =~= s@.skip(i + 1));
            }
            Some((head, tail))
        },
        None => None,
    }
}

/// The value of a digit string as an unsigned 64-bit number, if it is one.
pub open spec fn spec_parse_u64(s: Seq<char>) -> Option<u64> {
    if s.len() > 0 && all_digits(s) && dec_val(s) <= u64::MAX {
        Some(dec_val(s) as u64)
    } else {
        None
    }
}

/// Extending a digit string cannot decrease its value.
pub proof fn lemma_dec_val_take_mono(s: Seq<char>, i: int)
    requires
        0 <= i <= s.len(),
    ensures
        dec_val(s.take(i)) <= dec_val(s),
    decreases s.len() - i,
{
    if i < s.len() {
        lemma_dec_val_take_mono(s, i + 1);
        assert(s.take(i + 1).drop_last() =~= s.take(i));
        assert(dec_val(s.take(i + 1)) == dec_val(s.take(i)) * 10 + digit_val(s.take(i + 1).last()));
        assert(dec_val(s.take(i)) * 10 >= dec_val(s.take(i)) * 1) by (nonlinear_arith);
    } else {
        assert(s.take(i) =~= s);
    }
}

pub fn parse_u64(s: &str) -> (r: Option<u64>)
    ensures
        r == spec_parse_u64(s@),
{
    let slen = s.unicode_len();
    if slen == 0 {
        return None;
    }
    let mut acc: u64 = 0;
    let mut i: usize = 0;
    while i < slen
        invariant
            slen == s@.len(),
            0 < slen,
            i <= slen,
            all_digits(s@.take(i as int)),
            acc == dec_val(s@.take(i as int)),
        decreases slen - i,
    {
        let c = s.get_char(i);
        let cv = c as u32;
        if cv < '0' as u32 || cv > '9' as u32 {
            assert(!is_digit(s@[i as int]));
            return None;
        }
        let d: u64 = (cv - '0' as u32) as u64;
        proof {
            assert(s@.take(i + 1).drop_last() =~= s@.take(i as int));
            assert(dec_val(s@.take(i + 1)) == dec_val(s@.take(i as int)) * 10 + digit_val(s@[i as int]));
        }
        let step = match acc.checked_mul(10) {
            Some(x) => x.checked_add(d),
            None => None,
        };
        match step {
            Some(x) => {
                acc = x;
            },
            None => {
                proof {
                    lemma_dec_val_take_mono(s@, i + 1);
                    assert(dec_val(s@) > u64::MAX);
                }
                return None;
            },
        }
        i = i + 1;
    }
    proof {
        assert(s@.take(slen as int) =~= s@);
    }
    Some(acc)
}

/// The value of a digit string as an unsigned 32-bit number, if it is one.
pub open spec fn spec_parse_u32(s: Seq<char>) -> Option<u32> {
    if s.len() > 0 && all_digits(s) && dec_val(s) <= u32::MAX {
        Some(dec_val(s) as u32)
    } else {
        None
    }
}

pub fn parse_u32(s: &str) -> (r: Option<u32>)
    ensures
        r == spec_parse_u32(s@),
{
    match parse_u64(s) {
        Some(v) => {
            if v <= 0xffff_ffff {
                Some(v as u32)
            } else {
                None
            }
        },
        None => None,
    }
}

/// Every occurrence of `from` replaced by `to`.
pub open spec fn replace_ch(s: Seq<char>, from: char, to: char) -> Seq<char> {
    Seq::new(s.len(), |i: int| if s[i] == from { to } else { s[i] })
}

pub fn replace_char(s: &str, from: char, to: char) -> (r: String)
    ensures
        r@ == replace_ch(s@, from, to),
{
    let slen = s.unicode_len();
    let mut out = String::new();
    let mut i: usize = 0;
    while i < slen
        invariant
            slen == s@.len(),
            i <= slen,
            out@ == replace_ch(s@, from, to).take(i as int),
        decreases slen - i,
    {
        let c = s.get_char(i);
        if c == from {
            push_char(&mut out, to);
        } else {
            push_char(&mut out, c);
        }
        proof {
            assert(out@ =~= replace_ch(s@, from, to).take(i + 1));
        }
        i = i + 1;
    }
    proof {
        assert(out@ =~= replace_ch(s@, from, to));
    }
    out
}

/// `p` occurs in `s` at position `i`.
pub open spec fn matches_at(s: Seq<char>, p: Seq<char>, i: int) -> bool {
    0 <= i && i + p.len() <= s.len() && s.subrange(i, i + p.len()) == p
}

/// Index of the first occurrence of `p` in `s`, or `-1` if there is none.
pub open spec fn first_sub_index(s: Seq<char>, p: Seq<char>) -> int
    decreases s.len(),
{
    if p.len() > s.len() {
        -1
    } else if s.take(p.len() as int) == p {
        0
    } else if s.len() == 0 {
        -1
    } else {
        let r = first_sub_index(s.skip(1), p);
        if r < 0 {
            -1
        } else {
            r + 1
        }
    }
}

pub proof fn lemma_first_sub_none(s: Seq<char>, p: Seq<char>)
    requires
        forall|i: int| !matches_at(s, p, i),
    ensures
        first_sub_index(s, p) == -1,
    decreases s.len(),
{
    if p.len() <= s.len() {
        assert(!matches_at(s, p, 0));
        assert(s.subrange(0, p.len() as int) == s.take(p.len() as int));
        if s.len() > 0 {
            assert forall|i: int| !matches_at(s.skip(1), p, i) by {
                if matches_at(s.skip(1), p, i) {
                    assert(s.skip(1).subrange(i, i + p.len()) =~= s.subrange(i + 1, i + 1 + p.len()));
                    assert(matches_at(s, p, i + 1));
                }
            }
            lemma_first_sub_none(s.skip(1), p);
        }
    }
}

pub proof fn lemma_first_sub_at(s: Seq<char>, p: Seq<char>, i: int)
    requires
        matches_at(s, p, i),
        forall|j: int| 0 <= j < i ==> !matches_at(s, p, j),
    ensures
        first_sub_index(s, p) == i,
    decreases s.len(),
{
    assert(s.subrange(0, p.len() as int) == s.take(p.len() as int));
    if i == 0 {
    } else {
        assert(!matches_at(s, p, 0));
        assert(s.skip(1).subrange(i - 1, i - 1 + p.len()) =~= s.subrange(i, i + p.len()));
        assert(matches_at(s.skip(1), p, i - 1));
        assert forall|j: int| 0 <= j < i - 1 implies !matches_at(s.skip(1), p, j) by {
            if matches_at(s.skip(1), p, j) {
                assert(s.skip(1).subrange(j, j + p.len()) =~= s.subrange(j + 1, j + 1 + p.len()));
                assert(matches_at(s, p, j + 1));
            }
        }
        lemma_first_sub_at(s.skip(1), p, i - 1);
    }
}

/// Whether `p` occurs in `s` starting at `i`.
pub fn matches_at_exec(s: &str, p: &str, i: usize) -> (r: bool)
    requires
        i + p@.len() <= s@.len(),
    ensures
        r == matches_at(s@, p@, i as int),
{
    let slen = s.unicode_len();
    let plen = p.unicode_len();
    let mut k: usize = 0;
    while k < plen
        invariant
            slen == s@.len(),
            plen == p@.len(),
            i + plen <= slen,
            k <= plen,
            forall|j: int| 0 <= j < k ==> p@[j] == s@[i + j],
        decreases plen - k,
    {
        if s.get_char(i + k) != p.get_char(k) {
            assert(s@.subrange(i as int, i + p@.len())[k as int] != p@[k as int]);
            return false;
        }
        k = k + 1;
    }
    proof {
        assert(s@.subrange(i as int, i + p@.len()) =~= p@);
    }
    true
}

/// Position of the first occurrence of `p` in `s`.
pub fn find_sub(s: &str, p: &str) -> (r: Option<usize>)
    ensures
        match r {
            Some(i) => first_sub_index(s@, p@) == i,
            None => first_sub_index(s@, p@) == -1,
        },
{
    let slen = s.unicode_len();
    let plen = p.unicode_len();
    if plen > slen {
        proof {
            assert forall|i: int| !matches_at(s@, p@, i) by {}
            lemma_first_sub_none(s@, p@);
        }
        return None;
    }
    if plen == 0 {
        proof {
            assert(s@.subrange(0, 0) =~= p@);
            lemma_first_sub_at(s@, p@, 0);
        }
        return Some(0);
    }
    let n_iter = slen - plen + 1;
    let mut i: usize = 0;
    while i < n_iter
        invariant
            slen == s@.len(),
            plen == p@.len(),
            1 <= plen <= slen,
            n_iter == slen - plen + 1,
            i <= n_iter,
            forall|j: int| 0 <= j < i ==> !matches_at(s@, p@, j),
        decreases n_iter - i,
    {
        if matches_at_exec(s, p, i) {
            proof {
                lemma_first_sub_at(s@, p@, i as int);
            }
            return Some(i);
        }
        i = i + 1;
    }
    proof {
        assert forall|j: int| !matches_at(s@, p@, j) by {}
        lemma_first_sub_none(s@, p@);
    }
    None
}

/// What the first-occurrence index means.
pub proof fn lemma_first_sub_of(s: Seq<char>, p: Seq<char>)
    ensures
        first_sub_index(s, p) == -1 ==> forall|i: int| !matches_at(s, p, i),
        first_sub_index(s, p) != -1 ==> {
            let z = first_sub_index(s, p);
            &&& matches_at(s, p, z)
            &&& forall|j: int| 0 <= j < z ==> !matches_at(s, p, j)
        },
    decreases s.len(),
{
    if p.len() > s.len() {
        assert forall|i: int| !matches_at(s, p, i) by {}
    } else if s.take(p.len() as int) == p {
        assert(s.subrange(0, p.len() as int) == s.take(p.len() as int));
    } else if s.len() == 0 {
        assert forall|i: int| !matches_at(s, p, i) by {}
    } else {
        lemma_first_sub_of(s.skip(1), p);
        let r = first_sub_index(s.skip(1), p);
        assert(s.subrange(0, p.len() as int) == s.take(p.len() as int));
        assert(!matches_at(s, p, 0));
        if r == -1 {
            assert forall|i: int| !matches_at(s, p, i) by {
                if i > 0 && matches_at(s, p, i) {
                    assert(s.skip(1).subrange(i - 1, i - 1 + p.len()) =~= s.subrange(
                        i,
                        i + p.len(),
                    ));
                    assert(matches_at(s.skip(1), p, i - 1));
                }
            }
        } else {
            assert(s.skip(1).subrange(r, r + p.len()) =~= s.subrange(r + 1, r + 1 + p.len()));
            assert(matches_at(s, p, r + 1));
            assert forall|j: int| 0 <= j < r + 1 implies !matches_at(s, p, j) by {
                if j > 0 && matches_at(s, p, j) {
                    assert(s.skip(1).subrange(j - 1, j - 1 + p.len()) =~= s.subrange(
                        j,
                        j + p.len(),
                    ));
                    assert(matches_at(s.skip(1), p, j - 1));
                }
            }
        }
    }
}

} // verus!
