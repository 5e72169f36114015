//! Text helpers: comparison, prefixes, wildcard patterns and decimal numbers,
//! all specified over UTF-8 bytes.

use vstd::prelude::*;
use vstd::slice::*;
use vstd::string::*;
use vstd::utf8::*;

verus! {

/// The model of a string: the UTF-8 encoding of its characters.
pub open spec fn text(chars: Seq<char>) -> Seq<u8> {
    encode_utf8(chars)
}

/// The model of an optional string.
pub open spec fn opt_text(o: Option<String>) -> Option<Seq<u8>> {
    match o {
        Some(s) => Some(text(s@)),
        None => None,
    }
}

/// Two strings with the same bytes are the same string.
pub proof fn lemma_text_injective(a: Seq<char>, b: Seq<char>)
    requires
        text(a) == text(b),
    ensures
        a == b,
{
    encode_utf8_decode_utf8(a);
    encode_utf8_decode_utf8(b);
}

/// The bytes of a concatenation are the concatenation of the bytes.
pub proof fn lemma_text_concat(a: Seq<char>, b: Seq<char>)
    ensures
        text(a + b) == text(a) + text(b),
    decreases a.len(),
{
    if a.len() == 0 {
        assert(a + b =~= b);
        assert(text(a) + text(b) =~= text(b));
    } else {
        lemma_text_concat(a.drop_first(), b);
        assert((a + b).drop_first() =~= a.drop_first() + b);
        assert((a + b)[0] == a[0]);
        assert(text(a + b) =~= text(a) + text(b));
    }
}

/// `p` is a prefix of `s`.
pub open spec fn is_prefix(p: Seq<u8>, s: Seq<u8>) -> bool {
    p.len() <= s.len() && s.subrange(0, p.len() as int) == p
}

/// Whether two byte strings are equal.
pub fn bytes_eq(a: &[u8], b: &[u8]) -> (r: bool)
    ensures
        r == (a@ == b@),
{
    if a.len() != b.len() {
        return false;
    }
    let mut i: usize = 0;
    while i < a.len()
        invariant
            a@.len() == b@.len(),
            i <= a@.len(),
            forall|j: int| 0 <= j < i ==> a@[j] == b@[j],
        decreases a@.len() - i,
    {
        if a[i] != b[i] {
            return false;
        }
        i += 1;
    }
    assert(a@ =~= b@);
    true
}

/// Whether two strings are equal.
pub fn str_eq(a: &str, b: &str) -> (r: bool)
    ensures
        r == (text(a@) == text(b@)),
        r == (a@ == b@),
{
    let r = bytes_eq(a.as_bytes(), b.as_bytes());
    proof {
        if r {
            lemma_text_injective(a@, b@);
        }
    }
    r
}

/// Whether `s` begins with `p`.
pub fn bytes_start_with(s: &[u8], p: &[u8]) -> (r: bool)
    ensures
        r == is_prefix(p@, s@),
{
    if p.len() > s.len() {
        return false;
    }
    let mut i: usize = 0;
    while i < p.len()
        invariant
            p@.len() <= s@.len(),
            i <= p@.len(),
            forall|j: int| 0 <= j < i ==> s@[j] == p@[j],
        decreases p@.len() - i,
    {
        if s[i] != p[i] {
            assert(s@.subrange(0, p@.len() as int)[i as int] != p@[i as int]);
            return false;
        }
        i += 1;
    }
    assert(s@.subrange(0, p@.len() as int) =~= p@);
    true
}


/// The pattern without its trailing `*` bytes.
pub open spec fn strip_stars(p: Seq<u8>) -> Seq<u8>
    decreases p.len(),
{
    if p.len() > 0 && p.last() == 42u8 {
        strip_stars(p.drop_last())
    } else {
        p
    }
}

/// A type pattern matches a type: a pattern that ends in `*` matches every
/// type that begins with what stands before its trailing stars, any other
/// pattern matches itself only.
pub open spec fn pattern_matches(pattern: Seq<u8>, value: Seq<u8>) -> bool {
    if pattern.len() > 0 && pattern.last() == 42u8 {
        is_prefix(strip_stars(pattern), value)
    } else {
        pattern == value
    }
}

proof fn lemma_strip_stars_prefix(p: Seq<u8>, k: int)
    requires
        0 <= k <= p.len(),
        forall|j: int| k <= j < p.len() ==> p[j] == 42u8,
        k == 0 || p[k - 1] != 42u8,
    ensures
        strip_stars(p) == p.subrange(0, k),
    decreases p.len() - k,
{
    if k == p.len() {
        assert(p.subrange(0, k) =~= p);
    } else {
        let q = p.drop_last();
        lemma_strip_stars_prefix(q, k);
        assert(q.subrange(0, k) =~= p.subrange(0, k));
    }
}

/// Whether a type pattern matches a type.
pub fn matches_pattern(pattern: &str, value: &str) -> (r: bool)
    ensures
        r == pattern_matches(text(pattern@), text(value@)),
{
    let p = pattern.as_bytes();
    let v = value.as_bytes();
    let n: usize = p.len();
    if n > 0 && p[n - 1] == 42u8 {
        let mut k: usize = n;
        while k > 0 && p[k - 1] == 42u8
            invariant
                k <= n,
                n == p@.len(),
                forall|j: int| k <= j < n ==> p@[j] == 42u8,
            decreases k,
        {
            k -= 1;
        }
        proof {
            lemma_strip_stars_prefix(p@, k as int);
        }
        bytes_start_with(v, slice_subrange(p, 0, k))
    } else {
        bytes_eq(p, v)
    }
}

/// Every byte is a decimal digit, and there is at least one.
pub open spec fn is_digits(s: Seq<u8>) -> bool {
    s.len() > 0 && forall|i: int| 0 <= i < s.len() ==> 48u8 <= #[trigger] s[i] <= 57u8
}

/// The number that a run of decimal digits denotes.
pub open spec fn digits_value(s: Seq<u8>) -> nat
    decreases s.len(),
{
    if s.len() == 0 {
        0
    } else {
        digits_value(s.drop_last()) * 10 + (s.last() - 48) as nat
    }
}

/// The id that a text denotes: a run of decimal digits whose value fits in
/// 128 bits. Anything else is no id.
pub open spec fn spec_parse_id(s: Seq<u8>) -> Option<u128> {
    if is_digits(s) && digits_value(s) <= u128::MAX {
        Some(digits_value(s) as u128)
    } else {
        None
    }
}

proof fn lemma_digits_value_monotone(s: Seq<u8>, k: int)
    requires
        0 <= k <= s.len(),
        forall|i: int| 0 <= i < s.len() ==> 48u8 <= #[trigger] s[i] <= 57u8,
    ensures
        digits_value(s.subrange(0, k)) <= digits_value(s),
    decreases s.len() - k,
{
    if k == s.len() {
        assert(s.subrange(0, k) =~= s);
    } else {
        lemma_digits_value_monotone(s.drop_last(), k);
        assert(s.drop_last().subrange(0, k) =~= s.subrange(0, k));
    }
}

/// The id that a run of decimal digits spells, if it fits in 128 bits.
pub fn parse_id_bytes(s: &[u8]) -> (r: Option<u128>)
    ensures
        r == spec_parse_id(s@),
{
    let n: usize = s.len();
    if n == 0 {
        return None;
    }
    let mut acc: u128 = 0;
    let mut i: usize = 0;
    while i < n
        invariant
            i <= n,
            n == s@.len(),
            forall|j: int| 0 <= j < i ==> 48u8 <= #[trigger] s@[j] <= 57u8,
            acc as nat == digits_value(s@.subrange(0, i as int)),
        decreases n - i,
    {
        let c: u8 = s[i];
        if c < 48u8 || c > 57u8 {
            return None;
        }
        let d: u128 = (c - 48u8) as u128;
        proof {
            assert(s@.subrange(0, i + 1).drop_last() =~= s@.subrange(0, i as int));
            assert(s@.subrange(0, i + 1).last() == c);
        }
        if acc > (u128::MAX - d) / 10 {
            proof {
                if is_digits(s@) {
                    lemma_digits_value_monotone(s@, i + 1);
                }
            }
            return None;
        }
        acc = acc * 10 + d;
        i += 1;
    }
    assert(s@.subrange(0, n as int) =~= s@);
    Some(acc)
}

/// The id that a text of decimal digits spells, if it fits in 128 bits.
pub fn parse_id(s: &str) -> (r: Option<u128>)
    ensures
        r == spec_parse_id(text(s@)),
{
    parse_id_bytes(s.as_bytes())
}

/// The id that a constant of the rule language spells: an optional `+`,
/// then a run of decimal digits whose value fits in 128 bits. Anything
/// else, a `-` before the digits too, spells no id.
pub open spec fn spec_parse_number(s: Seq<u8>) -> Option<u128> {
    if s.len() > 0 && s[0] == 43u8 {
        spec_parse_id(s.subrange(1, s.len() as int))
    } else {
        spec_parse_id(s)
    }
}

/// The id that a constant of the rule language spells.
pub fn parse_number(s: &str) -> (r: Option<u128>)
    ensures
        r == spec_parse_number(text(s@)),
{
    let bytes = s.as_bytes();
    if bytes.len() > 0 && bytes[0] == 43u8 {
        parse_id_bytes(slice_subrange(bytes, 1, bytes.len()))
    } else {
        parse_id_bytes(bytes)
    }
}

/// The decimal digits of a number, without leading zeros.
pub open spec fn decimal(n: nat) -> Seq<u8>
    decreases n,
{
    if n < 10 {
        seq![(48 + n) as u8]
    } else {
        decimal(n / 10).push((48 + n % 10) as u8)
    }
}

/// Reading back the digits of a number gives the number.
pub proof fn lemma_parse_decimal(n: u128)
    ensures
        spec_parse_id(decimal(n as nat)) == Some(n),
{
    lemma_decimal_digits(n as nat);
}

/// The digits of a number spell the number as a constant too.
pub proof fn lemma_number_of_decimal(n: u128)
    ensures
        spec_parse_number(decimal(n as nat)) == Some(n),
{
    lemma_parse_decimal(n);
    lemma_decimal_digits(n as nat);
}

proof fn lemma_decimal_digits(n: nat)
    ensures
        is_digits(decimal(n)),
        digits_value(decimal(n)) == n,
    decreases n,
{
    if n < 10 {
        let s = decimal(n);
        assert(s.drop_last() =~= Seq::<u8>::empty());
        assert(digits_value(s.drop_last()) == 0);
    } else {
        lemma_decimal_digits(n / 10);
        let s = decimal(n);
        assert(s.drop_last() =~= decimal(n / 10));
    }
}

fn digit_str(d: u8) -> (r: &'static str)
    requires
        d < 10,
    ensures
        text(r@) == seq![(48 + d) as u8],
        r@.len() == 1,
{
    let r = match d {
        0 => "0",
        1 => "1",
        2 => "2",
        3 => "3",
        4 => "4",
        5 => "5",
        6 => "6",
        7 => "7",
        8 => "8",
        _ => "9",
    };
    proof {
        reveal_strlit("0");
        reveal_strlit("1");
        reveal_strlit("2");
        reveal_strlit("3");
        reveal_strlit("4");
        reveal_strlit("5");
        reveal_strlit("6");
        reveal_strlit("7");
        reveal_strlit("8");
        reveal_strlit("9");
        assert(is_ascii_chars(r@));
        is_ascii_chars_encode_utf8(r@);
        assert(text(r@) =~= seq![(48 + d) as u8]);
    }
    r
}

/// A number in decimal digits.
pub fn id_to_decimal(n: u128) -> (r: String)
    ensures
        text(r@) == decimal(n as nat),
{
    let mut digits: Vec<u8> = Vec::new();
    let mut m: u128 = n;
    // least significant digit first
    while m >= 10
        invariant
            forall|j: int| 0 <= j < digits@.len() ==> #[trigger] digits@[j] < 10,
            decimal(n as nat) == decimal(m as nat) + Seq::new(
                digits@.len(),
                |j: int| (48 + digits@[digits@.len() - 1 - j]) as u8,
            ),
        decreases m,
    {
        let d: u8 = (m % 10) as u8;
        let ghost before = digits@;
        digits.push(d);
        proof {
            let old_tail = Seq::new(before.len(), |j: int| (48 + before[before.len() - 1 - j]) as u8);
            let new_tail = Seq::new(
                digits@.len(),
                |j: int| (48 + digits@[digits@.len() - 1 - j]) as u8,
            );
            assert(new_tail =~= seq![(48 + d) as u8] + old_tail);
            assert(decimal(m as nat) =~= decimal((m / 10) as nat) + seq![(48 + d) as u8]);
            assert(decimal(n as nat) =~= decimal((m / 10) as nat) + new_tail);
        }
        m = m / 10;
    }
    let mut out = String::new();
    let first = digit_str(m as u8);
    out.append(first);
    let mut i: usize = digits.len();
    let ghost tail = Seq::new(digits@.len(), |j: int| (48 + digits@[digits@.len() - 1 - j]) as u8);
    assert(text(out@) =~= decimal(m as nat)) by {
        assert(out@ =~= first@);
    }
    while i > 0
        invariant
            i <= digits@.len(),
            forall|j: int| 0 <= j < digits@.len() ==> #[trigger] digits@[j] < 10,
            tail == Seq::new(digits@.len(), |j: int| (48 + digits@[digits@.len() - 1 - j]) as u8),
            text(out@) == decimal(m as nat) + tail.subrange(0, digits@.len() - i),
        decreases i,
    {
        i -= 1;
        let ghost before = out@;
        let piece = digit_str(digits[i]);
        out.append(piece);
        proof {
            lemma_text_concat(before, piece@);
            assert(tail.subrange(0, digits@.len() - i) =~= tail.subrange(0, digits@.len() - i - 1)
                + seq![(48 + digits@[i as int]) as u8]);
        }
    }
    assert(tail.subrange(0, digits@.len() as int) =~= tail);
    out
}


/// In valid UTF-8 a character begins at every byte below 128, and the next
/// one right after it.
pub proof fn lemma_ascii_boundaries(bytes: Seq<u8>, i: int)
    requires
        valid_utf8(bytes),
        0 <= i < bytes.len(),
        bytes[i] < 0x80,
    ensures
        is_char_boundary(bytes, i),
        is_char_boundary(bytes, i + 1),
    decreases i,
{
    is_char_boundary_iff_not_is_continuation_byte(bytes, i);
    lemma_boundary_after(bytes, i);
}

proof fn lemma_boundary_after(bytes: Seq<u8>, i: int)
    requires
        valid_utf8(bytes),
        0 <= i < bytes.len(),
        bytes[i] < 0x80,
        is_char_boundary(bytes, i),
    ensures
        is_char_boundary(bytes, i + 1),
    decreases i,
{
    let rest = pop_first_scalar(bytes);
    let l = length_of_first_scalar(bytes);
    if i == 0 {
        assert(l == 1);
        assert(is_char_boundary(rest, 0));
    } else {
        assert(is_char_boundary(rest, i - l));
        if i - l < 0 {
            assert(false);
        }
        assert(rest[i - l] == bytes[i]);
        lemma_boundary_after(rest, i - l);
    }
}

/// How many bytes the character has that begins with this byte.
pub open spec fn lead_width(b: u8) -> int {
    if b < 0x80 {
        1
    } else if b <= 0xdf {
        2
    } else if b <= 0xef {
        3
    } else {
        4
    }
}

/// In valid UTF-8 the character that begins at `i` ends where its first
/// byte says, and there the next one begins.
pub proof fn lemma_next_boundary(bytes: Seq<u8>, i: int)
    requires
        valid_utf8(bytes),
        0 <= i < bytes.len(),
        is_char_boundary(bytes, i),
    ensures
        i + lead_width(bytes[i]) <= bytes.len(),
        is_char_boundary(bytes, i + lead_width(bytes[i])),
    decreases i,
{
    let rest = pop_first_scalar(bytes);
    let l = length_of_first_scalar(bytes);
    if i == 0 {
        assert(l == lead_width(bytes[0]));
        assert(is_char_boundary(rest, 0));
    } else {
        assert(is_char_boundary(rest, i - l));
        if i - l < 0 {
            assert(false);
        }
        if i - l == rest.len() {
            assert(false);
        }
        assert(rest[i - l] == bytes[i]);
        lemma_next_boundary(rest, i - l);
    }
}

/// The end of a text is where a character would begin.
pub proof fn lemma_end_boundary(bytes: Seq<u8>)
    requires
        valid_utf8(bytes),
    ensures
        is_char_boundary(bytes, bytes.len() as int),
        is_char_boundary(bytes, 0),
{
    is_char_boundary_start_end_of_seq(bytes);
}

/// The part of a string between two places where characters begin.
pub fn substr<'a>(s: &'a str, from: usize, to: usize) -> (r: &'a str)
    requires
        from <= to <= text(s@).len(),
        is_char_boundary(text(s@), from as int),
        is_char_boundary(text(s@), to as int),
    ensures
        text(r@) == text(s@).subrange(from as int, to as int),
{
    let ghost bytes = text(s@);
    proof {
        encode_utf8_valid_utf8(s@);
    }
    let (head, _) = s.split_at(to);
    proof {
        let hb = bytes.subrange(0, to as int);
        valid_utf8_split(bytes, to as int);
        assert(head.spec_bytes() == hb);
        if from < to {
            is_char_boundary_iff_not_is_continuation_byte(bytes, from as int);
            is_char_boundary_iff_not_is_continuation_byte(hb, from as int);
        } else {
            is_char_boundary_start_end_of_seq(hb);
        }
    }
    let (_, tail) = head.split_at(from);
    assert(text(tail@) =~= bytes.subrange(from as int, to as int));
    tail
}

} // verus!
