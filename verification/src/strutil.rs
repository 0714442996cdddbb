//! Small string helpers: appending a character, equality and containment
//! tests, and decimal formatting and parsing of counters.

use vstd::prelude::*;
use vstd::utf8::encode_utf8_decode_utf8;
use vstd::string::StringSliceAdditionalSpecFns;

verus! {

/// Relies on `String::push`: appends exactly one character to the string.
#[verifier::external_body]
pub fn push_char(s: &mut String, c: char)
    ensures
        final(s)@ == old(s)@.push(c),
{
    s.push(c);
}

/// Whether the bytes of `pat` occur contiguously in `text`.
pub open spec fn spec_contains_bytes(text: Seq<u8>, pat: Seq<u8>) -> bool {
    exists|i: int|
        0 <= i <= text.len() - pat.len() && #[trigger] text.subrange(
            i,
            i + pat.len() as int,
        ) == pat
}

/// Whether `pat` matches `text` starting at byte offset `at`.
pub fn matches_at(text: &[u8], pat: &[u8], at: usize) -> (r: bool)
    requires
        at + pat@.len() <= text@.len(),
    ensures
        r == (text@.subrange(at as int, at as int + pat@.len() as int) == pat@),
{
    let tlen = text.len();
    let mut j: usize = 0;
    while j < pat.len()
        invariant
            tlen == text@.len(),
            at + pat@.len() <= text@.len(),
            j <= pat@.len(),
            forall|k: int| 0 <= k < j ==> text@[at + k] == pat@[k],
        decreases pat@.len() - j,
    {
        if text[at + j] != pat[j] {
            assert(text@.subrange(at as int, at as int + pat@.len() as int)[j as int]
                != pat@[j as int]);
            return false;
        }
        j = j + 1;
    }
    assert(text@.subrange(at as int, at as int + pat@.len() as int) =~= pat@);
    true
}

/// Case-sensitive containment of `pat` in `text`, compared byte for byte on
/// their UTF-8 encodings.
pub fn str_contains(text: &str, pat: &str) -> (r: bool)
    ensures
        r == spec_contains_bytes(text.spec_bytes(), pat.spec_bytes()),
{
    let t = text.as_bytes();
    let p = pat.as_bytes();
    if p.len() > t.len() {
        return false;
    }
    if p.len() == 0 {
        assert(t@.subrange(0, 0 + p@.len() as int) =~= p@);
        return true;
    }
    let last = t.len() - p.len();
    let mut i: usize = 0;
    while i <= last
        invariant
            t@ == text.spec_bytes(),
            p@ == pat.spec_bytes(),
            1 <= p@.len() <= t@.len(),
            t@.len() <= usize::MAX,
            last == t@.len() - p@.len(),
            i <= last + 1,
            forall|k: int| 0 <= k < i ==> #[trigger] t@.subrange(k, k + p@.len() as int) != p@,
        decreases last + 1 - i,
    {
        if matches_at(t, p, i) {
            return true;
        }
        i = i + 1;
    }
    false
}

/// String equality, decided on the UTF-8 encodings.
pub fn str_eq(a: &str, b: &str) -> (r: bool)
    ensures
        r == (a@ == b@),
{
    let x = a.as_bytes();
    let y = b.as_bytes();
    if x.len() != y.len() {
        return false;
    }
    let mut i: usize = 0;
    while i < x.len()
        invariant
            x@ == a.spec_bytes(),
            y@ == b.spec_bytes(),
            x@.len() == y@.len(),
            i <= x@.len(),
            forall|k: int| 0 <= k < i ==> x@[k] == y@[k],
        decreases x@.len() - i,
    {
        if x[i] != y[i] {
            return false;
        }
        i = i + 1;
    }
    proof {
        assert(a.spec_bytes() =~= b.spec_bytes());
        broadcast use encode_utf8_decode_utf8;

        assert(vstd::utf8::decode_utf8(a.spec_bytes()) == a@);
        assert(vstd::utf8::decode_utf8(b.spec_bytes()) == b@);
    }
    true
}

/// Lexicographic order on byte strings: a proper prefix comes first, and
/// otherwise the first differing byte decides.
pub open spec fn spec_bytes_le(a: Seq<u8>, b: Seq<u8>) -> bool
    decreases a.len(),
{
    if a.len() == 0 {
        true
    } else if b.len() == 0 {
        false
    } else if a.first() < b.first() {
        true
    } else if a.first() > b.first() {
        false
    } else {
        spec_bytes_le(a.drop_first(), b.drop_first())
    }
}

/// The order is total.
pub proof fn lemma_bytes_le_total(a: Seq<u8>, b: Seq<u8>)
    ensures
        spec_bytes_le(a, b) || spec_bytes_le(b, a),
    decreases a.len(),
{
    if a.len() > 0 && b.len() > 0 && a.first() == b.first() {
        lemma_bytes_le_total(a.drop_first(), b.drop_first());
    }
}

/// The order is transitive.
pub proof fn lemma_bytes_le_trans(a: Seq<u8>, b: Seq<u8>, c: Seq<u8>)
    requires
        spec_bytes_le(a, b),
        spec_bytes_le(b, c),
    ensures
        spec_bytes_le(a, c),
    decreases a.len(),
{
    if a.len() > 0 && b.len() > 0 && c.len() > 0 && a.first() == b.first() && b.first()
        == c.first() {
        lemma_bytes_le_trans(a.drop_first(), b.drop_first(), c.drop_first());
    }
}

/// In both directions at once, the byte strings are equal.
pub proof fn lemma_bytes_le_antisym(a: Seq<u8>, b: Seq<u8>)
    requires
        spec_bytes_le(a, b),
        spec_bytes_le(b, a),
    ensures
        a == b,
    decreases a.len(),
{
    if a.len() > 0 && b.len() > 0 && a.first() == b.first() {
        lemma_bytes_le_antisym(a.drop_first(), b.drop_first());
        assert(a =~= seq![a.first()] + a.drop_first());
        assert(b =~= seq![b.first()] + b.drop_first());
    }
}

/// Decides the lexicographic order on byte slices.
pub fn bytes_le(a: &[u8], b: &[u8]) -> (r: bool)
    ensures
        r == spec_bytes_le(a@, b@),
{
    let alen = a.len();
    let blen = b.len();
    let mut i: usize = 0;
    proof {
        assert(a@.skip(0) =~= a@);
        assert(b@.skip(0) =~= b@);
    }
    loop
        invariant
            i <= alen,
            i <= blen,
            alen == a@.len(),
            blen == b@.len(),
            spec_bytes_le(a@, b@) == spec_bytes_le(a@.skip(i as int), b@.skip(i as int)),
        decreases alen - i,
    {
        if i == alen {
            return true;
        }
        if i == blen {
            return false;
        }
        proof {
            assert(a@.skip(i as int).first() == a@[i as int]);
            assert(b@.skip(i as int).first() == b@[i as int]);
            assert(a@.skip(i as int).drop_first() =~= a@.skip(i + 1));
            assert(b@.skip(i as int).drop_first() =~= b@.skip(i + 1));
        }
        if a[i] < b[i] {
            return true;
        }
        if a[i] > b[i] {
            return false;
        }
        i = i + 1;
    }
}

/// UTF-8 encoding distributes over concatenation of character sequences.
pub proof fn lemma_encode_utf8_concat(a: Seq<char>, b: Seq<char>)
    ensures
        vstd::utf8::encode_utf8(a + b) == vstd::utf8::encode_utf8(a) + vstd::utf8::encode_utf8(b),
    decreases a.len(),
{
    if a.len() == 0 {
        assert(a + b =~= b);
        assert(vstd::utf8::encode_utf8(a) + vstd::utf8::encode_utf8(b) =~= vstd::utf8::encode_utf8(
            b));
    } else {
        assert((a + b)[0] == a[0]);
        assert((a + b).drop_first() =~= a.drop_first() + b);
        lemma_encode_utf8_concat(a.drop_first(), b);
        assert(vstd::utf8::encode_scalar(a[0] as u32) + (vstd::utf8::encode_utf8(a.drop_first())
            + vstd::utf8::encode_utf8(b)) =~= (vstd::utf8::encode_scalar(a[0] as u32)
            + vstd::utf8::encode_utf8(a.drop_first())) + vstd::utf8::encode_utf8(b));
    }
}

/// The number denoted by decimal digit characters, most significant first.
/// Digits are ASCII: 48 is `'0'`.
pub open spec fn spec_dec_value(s: Seq<u8>) -> nat
    decreases s.len(),
{
    if s.len() == 0 {
        0
    } else {
        spec_dec_value(s.drop_last()) * 10 + (s.last() - 48) as nat
    }
}

/// All bytes are decimal digits.
pub open spec fn all_dec_digits(s: Seq<u8>) -> bool {
    forall|i: int| 0 <= i < s.len() ==> 48 <= #[trigger] s[i] <= 57
}

/// The value of an all-digit string is at least the value of any prefix.
pub proof fn lemma_dec_prefix_le(s: Seq<u8>, j: int)
    requires
        all_dec_digits(s),
        0 <= j <= s.len(),
    ensures
        spec_dec_value(s) >= spec_dec_value(s.subrange(0, j)),
    decreases s.len() - j,
{
    if j == s.len() {
        assert(s.subrange(0, j) =~= s);
    } else {
        assert(s.subrange(0, j + 1).drop_last() =~= s.subrange(0, j));
        assert(s.subrange(0, j + 1).last() == s[j]);
        lemma_dec_prefix_le(s, j + 1);
    }
}

/// Parses an unsigned decimal integer; rejects an empty string, any non-digit
/// byte, and any value over `u64::MAX`.
pub fn parse_u64_dec(s: &str) -> (r: Option<u64>)
    ensures
        r is Some <==> s.spec_bytes().len() > 0 && all_dec_digits(s.spec_bytes())
            && spec_dec_value(s.spec_bytes()) <= u64::MAX,
        r is Some ==> r->0 == spec_dec_value(s.spec_bytes()),
{
    parse_dec_bytes(s.as_bytes())
}

/// Parses an unsigned decimal integer from bytes; rejects an empty string,
/// any non-digit byte, and any value over `u64::MAX`.
pub fn parse_dec_bytes(bytes: &[u8]) -> (r: Option<u64>)
    ensures
        r is Some <==> bytes@.len() > 0 && all_dec_digits(bytes@) && spec_dec_value(bytes@)
            <= u64::MAX,
        r is Some ==> r->0 == spec_dec_value(bytes@),
{
    if bytes.len() == 0 {
        return None;
    }
    let mut acc: u64 = 0;
    let mut i: usize = 0;
    while i < bytes.len()
        invariant
            i <= bytes@.len(),
            all_dec_digits(bytes@.subrange(0, i as int)),
            acc == spec_dec_value(bytes@.subrange(0, i as int)),
        decreases bytes@.len() - i,
    {
        let b = bytes[i];
        if b < 48 || b > 57 {
            assert(!(48 <= bytes@[i as int] <= 57));
            return None;
        }
        let d = b - 48;
        proof {
            assert(bytes@.subrange(0, i + 1).drop_last() =~= bytes@.subrange(0, i as int));
            assert(bytes@.subrange(0, i + 1).last() == bytes@[i as int]);
        }
        let next = match acc.checked_mul(10) {
            Some(v) => v.checked_add(d as u64),
            None => None,
        };
        match next {
            Some(w) => {
                acc = w;
            },
            None => {
                proof {
                    if all_dec_digits(bytes@) && spec_dec_value(bytes@) <= u64::MAX {
                        lemma_dec_prefix_le(bytes@, i + 1);
                        assert(spec_dec_value(bytes@.subrange(0, i + 1)) == acc * 10 + d);
                    }
                }
                return None;
            },
        }
        i = i + 1;
    }
    proof {
        assert(bytes@.subrange(0, bytes@.len() as int) =~= bytes@);
    }
    Some(acc)
}

/// The decimal text of a number, most significant digit first, without sign
/// or leading zeros (`0` itself is the single digit `0`).
pub open spec fn spec_u64_dec(n: nat) -> Seq<char>
    decreases n,
{
    if n < 10 {
        seq![((48 + n) as u8) as char]
    } else {
        spec_u64_dec(n / 10).push(((48 + n % 10) as u8) as char)
    }
}

/// The characters of stored digit bytes, read back to front.
spec fn rev_chars(digits: Seq<u8>) -> Seq<char> {
    Seq::new(digits.len(), |k: int| (digits[digits.len() - 1 - k]) as char)
}

/// Formats a number in decimal.
pub fn u64_to_dec(n: u64) -> (r: String)
    ensures
        r@ == spec_u64_dec(n as nat),
{
    let mut digits: Vec<u8> = Vec::new();
    let mut rest: u64 = n;
    loop
        invariant_except_break
            spec_u64_dec(n as nat) == spec_u64_dec(rest as nat) + rev_chars(digits@),
        ensures
            spec_u64_dec(n as nat) == rev_chars(digits@),
        decreases rest,
    {
        let d = (rest % 10) as u8;
        let next = rest / 10;
        digits.push(48 + d);
        proof {
            assert(rev_chars(digits@) =~= seq![((48 + d) as u8) as char] + rev_chars(
                digits@.drop_last()));
            if rest < 10 {
                assert(spec_u64_dec(rest as nat) == seq![((48 + d) as u8) as char]);
            } else {
                assert(spec_u64_dec(rest as nat) == spec_u64_dec((rest / 10) as nat).push(
                    ((48 + d) as u8) as char));
            }
        }
        if next == 0 {
            break;
        }
        rest = next;
    }
    let mut s = String::new();
    let total = digits.len();
    let mut i: usize = total;
    while i > 0
        invariant
            i <= total,
            total == digits@.len(),
            spec_u64_dec(n as nat) == rev_chars(digits@),
            s@ == rev_chars(digits@).subrange(0, total - i),
        decreases i,
    {
        i = i - 1;
        let b = digits[i];
        push_char(&mut s, b as char);
        proof {
            assert(rev_chars(digits@).subrange(0, total - i) =~= rev_chars(digits@).subrange(
                0,
                total - i - 1,
            ).push((digits@[i as int]) as char));
        }
    }
    proof {
        assert(rev_chars(digits@).subrange(0, total as int) =~= rev_chars(digits@));
    }
    s
}

} // verus!
