//! Verified text helpers: hexadecimal rendering of bytes.

use vstd::prelude::*;
use vstd::string::StringSliceAdditionalSpecFns;
use vstd::string::StrSliceExecFns;
use vstd::string::StringExecFns;

verus! {

/// The lowercase hexadecimal digit for a value below 16.
pub open spec fn hex_digit(v: int) -> char {
    if v < 10 {
        (('0' as int) + v) as char
    } else {
        (('a' as int) + v - 10) as char
    }
}

/// Each byte written as two lowercase hexadecimal digits, high nibble first.
pub open spec fn hex_lower(data: Seq<u8>) -> Seq<char>
    decreases data.len(),
{
    if data.len() == 0 {
        Seq::empty()
    } else {
        hex_lower(data.drop_last()) + seq![
            hex_digit(data.last() as int / 16),
            hex_digit(data.last() as int % 16),
        ]
    }
}

/// Calls `String::push`. Trusted: the character is appended to the string.
#[verifier::external_body]
fn push_char(s: &mut String, c: char)
    ensures
        final(s)@ == old(s)@.push(c),
{
    s.push(c);
}

fn nibble_char(v: u8) -> (c: char)
    requires
        v < 16,
    ensures
        c == hex_digit(v as int),
{
    if v < 10 {
        ((48u8 + v) as char)
    } else {
        ((87u8 + v) as char)
    }
}

/// Hexadecimal text has two digits per byte.
pub proof fn lemma_hex_lower_len(data: Seq<u8>)
    ensures
        hex_lower(data).len() == 2 * data.len(),
    decreases data.len(),
{
    if data.len() > 0 {
        lemma_hex_lower_len(data.drop_last());
    }
}

/// Whether `c` is a lowercase hexadecimal digit: `0` to `9` or `a` to `f`.
pub open spec fn is_lower_hex_digit(c: char) -> bool {
    (48 <= (c as int) && (c as int) <= 57) || (97 <= (c as int) && (c as int) <= 102)
}

/// The value of a lowercase hexadecimal digit.
pub open spec fn hex_digit_value(c: char) -> int {
    if (c as int) <= 57 {
        (c as int) - 48
    } else {
        (c as int) - 87
    }
}

/// Reads text as pairs of hexadecimal digits, high nibble first, one byte
/// per pair.
pub open spec fn hex_bytes(s: Seq<char>) -> Seq<int>
    decreases s.len(),
{
    if s.len() < 2 {
        Seq::empty()
    } else {
        hex_bytes(s.subrange(0, s.len() - 2)).push(
            hex_digit_value(s[s.len() - 2]) * 16 + hex_digit_value(s[s.len() - 1]),
        )
    }
}

/// Hexadecimal text is made of lowercase hexadecimal digits, and reading it
/// back pair by pair gives the bytes.
pub proof fn lemma_hex_lower_reads_back(data: Seq<u8>)
    ensures
        forall|i: int| 0 <= i < hex_lower(data).len() ==> is_lower_hex_digit(#[trigger] hex_lower(data)[i]),
        hex_bytes(hex_lower(data)) == data.map_values(|b: u8| b as int),
    decreases data.len(),
{
    lemma_hex_lower_len(data);
    if data.len() > 0 {
        let init = data.drop_last();
        lemma_hex_lower_reads_back(init);
        lemma_hex_lower_len(init);
        let h = hex_lower(init);
        let b = data.last();
        let hi = hex_digit(b as int / 16);
        let lo = hex_digit(b as int % 16);
        let s = h + seq![hi, lo];
        assert(hex_lower(data) == s);
        assert(s.subrange(0, s.len() - 2) =~= h);
        assert(s[s.len() - 2] == hi);
        assert(s[s.len() - 1] == lo);
        let v = b as int / 16;
        let w = b as int % 16;
        if v < 10 {
            assert((hi as int) == 48 + v);
        } else {
            assert((hi as int) == 87 + v);
        }
        if w < 10 {
            assert((lo as int) == 48 + w);
        } else {
            assert((lo as int) == 87 + w);
        }
        assert(hex_digit_value(hi) * 16 + hex_digit_value(lo) == b as int);
        assert forall|i: int| 0 <= i < s.len() implies is_lower_hex_digit(#[trigger] s[i]) by {
            if i < h.len() {
                assert(s[i] == h[i]);
            }
        }
        assert(data.map_values(|b: u8| b as int) =~= init.map_values(|b: u8| b as int).push(b as int));
    } else {
        assert(data.map_values(|b: u8| b as int) =~= Seq::<int>::empty());
    }
}

/// Renders bytes as lowercase hexadecimal, two digits per byte.
pub fn to_hex_lower(data: &[u8]) -> (res: String)
    ensures
        res@ == hex_lower(data@),
{
    let mut res = String::new();
    let mut i: usize = 0;
    while i < data.len()
        invariant
            i <= data.len(),
            res@ == hex_lower(data@.subrange(0, i as int)),
        decreases data.len() - i,
    {
        let b = data[i];
        push_char(&mut res, nibble_char(b / 16));
        push_char(&mut res, nibble_char(b % 16));
        assert(data@.subrange(0, i + 1).drop_last() == data@.subrange(0, i as int));
        i += 1;
    }
    assert(data@.subrange(0, data.len() as int) == data@);
    res
}

} // verus!

verus! {

/// Lexicographic order on byte strings: the order in which `str` and
/// `String` values compare.
pub open spec fn bytes_lt(a: Seq<u8>, b: Seq<u8>) -> bool
    decreases a.len(),
{
    if a.len() == 0 {
        b.len() > 0
    } else if b.len() == 0 {
        false
    } else if a[0] != b[0] {
        a[0] < b[0]
    } else {
        bytes_lt(a.drop_first(), b.drop_first())
    }
}

/// The order of text keys: lexicographic on their UTF-8 bytes.
pub open spec fn key_lt(a: Seq<char>, b: Seq<char>) -> bool {
    bytes_lt(vstd::utf8::encode_utf8(a), vstd::utf8::encode_utf8(b))
}

pub proof fn lemma_bytes_lt_irreflexive(a: Seq<u8>)
    ensures
        !bytes_lt(a, a),
    decreases a.len(),
{
    if a.len() > 0 {
        lemma_bytes_lt_irreflexive(a.drop_first());
    }
}

pub proof fn lemma_bytes_lt_transitive(a: Seq<u8>, b: Seq<u8>, c: Seq<u8>)
    requires
        bytes_lt(a, b),
        bytes_lt(b, c),
    ensures
        bytes_lt(a, c),
    decreases a.len(),
{
    if a.len() > 0 && b.len() > 0 && c.len() > 0 && a[0] == b[0] && b[0] == c[0] {
        lemma_bytes_lt_transitive(a.drop_first(), b.drop_first(), c.drop_first());
    }
}

pub proof fn lemma_bytes_lt_total(a: Seq<u8>, b: Seq<u8>)
    requires
        a != b,
    ensures
        bytes_lt(a, b) || bytes_lt(b, a),
    decreases a.len(),
{
    if a.len() > 0 && b.len() > 0 && a[0] == b[0] {
        if a.drop_first() == b.drop_first() {
            assert(a =~= seq![a[0]] + a.drop_first());
            assert(b =~= seq![b[0]] + b.drop_first());
        }
        lemma_bytes_lt_total(a.drop_first(), b.drop_first());
    } else if a.len() == 0 && b.len() == 0 {
        assert(a =~= b);
    }
}

pub proof fn lemma_bytes_lt_asymmetric(a: Seq<u8>, b: Seq<u8>)
    requires
        bytes_lt(a, b),
    ensures
        !bytes_lt(b, a),
{
    if bytes_lt(b, a) {
        lemma_bytes_lt_transitive(a, b, a);
        lemma_bytes_lt_irreflexive(a);
    }
}

/// A byte string is ordered before another when, after a common part, it
/// ends first or its next byte is smaller.
pub proof fn lemma_bytes_lt_at(a: Seq<u8>, b: Seq<u8>, j: int)
    requires
        0 <= j <= a.len(),
        j < b.len(),
        forall|i: int| 0 <= i < j ==> a[i] == b[i],
        j == a.len() || a[j] < b[j],
    ensures
        bytes_lt(a, b),
    decreases j,
{
    if j > 0 {
        assert(a[0] == b[0]);
        assert forall|i: int| 0 <= i < j - 1 implies a.drop_first()[i] == b.drop_first()[i] by {
            assert(a[i + 1] == b[i + 1]);
        }
        lemma_bytes_lt_at(a.drop_first(), b.drop_first(), j - 1);
    }
}

/// ASCII keys are ordered character by character: after a common part, the
/// key that ends first, or whose next character is smaller, comes first.
pub proof fn lemma_ascii_key_order(a: Seq<char>, b: Seq<char>, j: int)
    requires
        vstd::utf8::is_ascii_chars(a),
        vstd::utf8::is_ascii_chars(b),
        0 <= j <= a.len(),
        j < b.len(),
        forall|i: int| 0 <= i < j ==> a[i] == b[i],
        j == a.len() || (a[j] as u32) < (b[j] as u32),
    ensures
        key_lt(a, b),
{
    let ea = vstd::utf8::encode_utf8(a);
    let eb = vstd::utf8::encode_utf8(b);
    vstd::utf8::is_ascii_chars_encode_utf8(a);
    vstd::utf8::is_ascii_chars_encode_utf8(b);
    assert forall|i: int| 0 <= i < j implies ea[i] == eb[i] by {
        assert(a[i] == b[i]);
        assert(ea[i] == a[i] as u8);
        assert(eb[i] == b[i] as u8);
    }
    if j < a.len() {
        assert(ea[j] == a[j] as u8);
        assert(eb[j] == b[j] as u8);
        assert(ea[j] < eb[j]);
    }
    lemma_bytes_lt_at(ea, eb, j);
}

/// `key_lt` is a strict total order on text keys.
pub proof fn lemma_key_lt_order(a: Seq<char>, b: Seq<char>, c: Seq<char>)
    ensures
        !key_lt(a, a),
        key_lt(a, b) ==> !key_lt(b, a),
        key_lt(a, b) && key_lt(b, c) ==> key_lt(a, c),
        a != b ==> key_lt(a, b) || key_lt(b, a),
{
    let ea = vstd::utf8::encode_utf8(a);
    let eb = vstd::utf8::encode_utf8(b);
    let ec = vstd::utf8::encode_utf8(c);
    lemma_bytes_lt_irreflexive(ea);
    if key_lt(a, b) {
        lemma_bytes_lt_asymmetric(ea, eb);
        if key_lt(b, c) {
            lemma_bytes_lt_transitive(ea, eb, ec);
        }
    }
    if a != b {
        vstd::utf8::encode_utf8_decode_utf8(a);
        vstd::utf8::encode_utf8_decode_utf8(b);
        lemma_bytes_lt_total(ea, eb);
    }
}

/// Compares two strings by their UTF-8 bytes.
pub fn str_lt(a: &str, b: &str) -> (res: bool)
    ensures
        res == key_lt(a@, b@),
{
    let x = a.as_bytes();
    let y = b.as_bytes();
    let ghost ex = x@;
    let ghost ey = y@;
    let mut i: usize = 0;
    assert(ex.skip(0) =~= ex && ey.skip(0) =~= ey);
    while i < x.len() && i < y.len()
        invariant
            i <= x.len(),
            i <= y.len(),
            x@ == ex,
            y@ == ey,
            ex == a.spec_bytes(),
            ey == b.spec_bytes(),
            bytes_lt(ex, ey) == bytes_lt(ex.skip(i as int), ey.skip(i as int)),
        decreases x.len() - i,
    {
        let ghost sx = ex.skip(i as int);
        let ghost sy = ey.skip(i as int);
        if x[i] != y[i] {
            assert(sx[0] == x@[i as int] && sy[0] == y@[i as int]);
            return x[i] < y[i];
        }
        assert(sx.drop_first() =~= ex.skip(i + 1));
        assert(sy.drop_first() =~= ey.skip(i + 1));
        i += 1;
    }
    i < y.len()
}

/// Whether two strings hold the same text.
pub fn str_eq(a: &str, b: &str) -> (res: bool)
    ensures
        res == (a@ == b@),
{
    let x = a.as_bytes();
    let y = b.as_bytes();
    proof {
        vstd::utf8::encode_utf8_decode_utf8(a@);
        vstd::utf8::encode_utf8_decode_utf8(b@);
    }
    if x.len() != y.len() {
        return false;
    }
    let mut i: usize = 0;
    while i < x.len()
        invariant
            i <= x.len(),
            x.len() == y.len(),
            x@ == a.spec_bytes(),
            y@ == b.spec_bytes(),
            vstd::utf8::decode_utf8(x@) == a@,
            vstd::utf8::decode_utf8(y@) == b@,
            forall|j: int| 0 <= j < i ==> x@[j] == y@[j],
        decreases x.len() - i,
    {
        if x[i] != y[i] {
            return false;
        }
        i += 1;
    }
    assert(x@ =~= y@);
    true
}

/// `s` with every leading `c` removed.
pub open spec fn trim_start_char(s: Seq<char>, c: char) -> Seq<char>
    decreases s.len(),
{
    if s.len() > 0 && s[0] == c {
        trim_start_char(s.drop_first(), c)
    } else {
        s
    }
}

/// `s` with every trailing `c` removed.
pub open spec fn trim_end_char(s: Seq<char>, c: char) -> Seq<char>
    decreases s.len(),
{
    if s.len() > 0 && s.last() == c {
        trim_end_char(s.drop_last(), c)
    } else {
        s
    }
}

/// `s` with every leading and trailing `c` removed, as `str::trim_matches` does.
pub open spec fn trim_char(s: Seq<char>, c: char) -> Seq<char> {
    trim_end_char(trim_start_char(s, c), c)
}

/// Removes every leading and trailing `c` from `s`.
pub fn trim_matches_char(s: &str, c: char) -> (res: String)
    ensures
        res@ == trim_char(s@, c),
{
    let n = s.unicode_len();
    let mut lo: usize = 0;
    assert(s@.subrange(0, n as int) =~= s@);
    while lo < n && s.get_char(lo) == c
        invariant
            lo <= n,
            n == s@.len(),
            trim_start_char(s@, c) == trim_start_char(s@.subrange(lo as int, n as int), c),
        decreases n - lo,
    {
        assert(s@.subrange(lo as int, n as int).drop_first() =~= s@.subrange(lo + 1, n as int));
        lo += 1;
    }
    let mut hi: usize = n;
    while hi > lo && s.get_char(hi - 1) == c
        invariant
            lo <= hi <= n,
            n == s@.len(),
            trim_start_char(s@, c) == s@.subrange(lo as int, n as int),
            trim_char(s@, c) == trim_end_char(s@.subrange(lo as int, hi as int), c),
        decreases hi - lo,
    {
        assert(s@.subrange(lo as int, hi as int).drop_last() =~= s@.subrange(lo as int, hi - 1));
        hi -= 1;
    }
    let part = s.substring_char(lo, hi);
    String::from_str(part)
}


/// Whether `s` begins with `prefix`.
pub open spec fn has_prefix(s: Seq<char>, prefix: Seq<char>) -> bool {
    prefix.len() <= s.len() && s.subrange(0, prefix.len() as int) == prefix
}

/// The rest of `s` after `prefix`, if `s` begins with it, as `str::strip_prefix`
/// gives it.
pub fn strip_prefix(s: &str, prefix: &str) -> (rest: Option<String>)
    ensures
        rest is Some <==> has_prefix(s@, prefix@),
        rest matches Some(r) ==> r@ == s@.subrange(prefix@.len() as int, s@.len() as int),
{
    let n = s.unicode_len();
    let m = prefix.unicode_len();
    if m > n {
        return None;
    }
    let mut i: usize = 0;
    while i < m
        invariant
            i <= m <= n,
            n == s@.len(),
            m == prefix@.len(),
            forall|j: int| 0 <= j < i ==> s@[j] == prefix@[j],
        decreases m - i,
    {
        if s.get_char(i) != prefix.get_char(i) {
            assert(s@.subrange(0, m as int)[i as int] != prefix@[i as int]);
            return None;
        }
        i += 1;
    }
    assert(s@.subrange(0, m as int) =~= prefix@);
    Some(String::from_str(s.substring_char(m, n)))
}


/// The decimal digits of `n`, most significant first, without leading zeros.
pub open spec fn nat_decimal(n: nat) -> Seq<char>
    decreases n,
{
    if n < 10 {
        seq![hex_digit(n as int)]
    } else {
        nat_decimal(n / 10).push(hex_digit((n % 10) as int))
    }
}

/// The decimal text of `n`, with a leading `-` when negative.
pub open spec fn int_decimal(n: int) -> Seq<char> {
    if n < 0 {
        seq!['-'] + nat_decimal((-n) as nat)
    } else {
        nat_decimal(n as nat)
    }
}

/// Whether `c` is one of the digits `0` to `9`.
pub open spec fn is_decimal_digit(c: char) -> bool {
    48 <= (c as int) && (c as int) <= 57
}

/// The number that a text of decimal digits stands for, most significant
/// digit first.
pub open spec fn decimal_value(s: Seq<char>) -> int
    decreases s.len(),
{
    if s.len() == 0 {
        0
    } else {
        decimal_value(s.drop_last()) * 10 + ((s.last() as int) - 48)
    }
}

/// The decimal text of a natural number is a non-empty run of digits, with
/// no leading zero, and reading it back gives the number.
pub proof fn lemma_nat_decimal_reads_back(n: nat)
    ensures
        nat_decimal(n).len() > 0,
        forall|i: int| 0 <= i < nat_decimal(n).len() ==> is_decimal_digit(#[trigger] nat_decimal(n)[i]),
        n > 0 ==> nat_decimal(n)[0] != '0',
        n == 0 ==> nat_decimal(n) == seq!['0'],
        decimal_value(nat_decimal(n)) == n,
    decreases n,
{
    if n >= 10 {
        lemma_nat_decimal_reads_back(n / 10);
        let r = nat_decimal(n / 10);
        let d = hex_digit((n % 10) as int);
        assert(nat_decimal(n) == r.push(d));
        assert(r.push(d).drop_last() =~= r);
        assert((d as int) == 48 + (n % 10) as int);
        assert(r.push(d)[0] == r[0]);
        assert(decimal_value(r.push(d)) == decimal_value(r) * 10 + ((d as int) - 48));
        assert(n == (n / 10) * 10 + n % 10);
    } else {
        assert((hex_digit(n as int) as int) == 48 + n);
        assert(seq![hex_digit(n as int)].drop_last() =~= Seq::<char>::empty());
        assert(decimal_value(seq![hex_digit(n as int)]) == decimal_value(Seq::<char>::empty()) * 10
            + ((hex_digit(n as int) as int) - 48));
        if n == 0 {
            assert(hex_digit(0) == '0');
        }
        assert(seq![hex_digit(n as int)].drop_last() =~= Seq::<char>::empty());
    }
}

/// The decimal text of an integer is `-` and the text of its magnitude when
/// it is negative, and only digits otherwise; either way its digits read
/// back as its magnitude.
pub proof fn lemma_int_decimal_reads_back(n: int)
    ensures
        n < 0 ==> int_decimal(n)[0] == '-' && decimal_value(int_decimal(n).drop_first()) == -n,
        n >= 0 ==> decimal_value(int_decimal(n)) == n,
        forall|i: int| (if n < 0 { 1int } else { 0int }) <= i < int_decimal(n).len()
            ==> is_decimal_digit(#[trigger] int_decimal(n)[i]),
{
    if n < 0 {
        let m = (-n) as nat;
        lemma_nat_decimal_reads_back(m);
        assert((seq!['-'] + nat_decimal(m)).drop_first() =~= nat_decimal(m));
        assert forall|i: int| 1 <= i < int_decimal(n).len() implies is_decimal_digit(
            #[trigger] int_decimal(n)[i],
        ) by {
            assert(int_decimal(n)[i] == nat_decimal(m)[i - 1]);
        }
    } else {
        lemma_nat_decimal_reads_back(n as nat);
    }
}

fn push_decimal(out: &mut String, n: u64)
    ensures
        final(out)@ == old(out)@ + nat_decimal(n as nat),
    decreases n,
{
    if n >= 10 {
        push_decimal(out, n / 10);
    }
    push_char(out, nibble_char((n % 10) as u8));
    assert(old(out)@ + nat_decimal(n as nat) =~= final(out)@) by {
        if n >= 10 {
            assert(nat_decimal(n as nat) == nat_decimal((n / 10) as nat).push(
                hex_digit((n % 10) as int),
            ));
        }
    }
}

/// Writes an integer in decimal, as `Display` for integers does.
pub fn i32_to_decimal(n: i32) -> (text: String)
    ensures
        text@ == int_decimal(n as int),
{
    let mut text = String::new();
    if n < 0 {
        push_char(&mut text, '-');
        let magnitude: u64 = (-(n as i64)) as u64;
        push_decimal(&mut text, magnitude);
    } else {
        push_decimal(&mut text, n as u64);
    }
    text
}

} // verus!
