use vstd::prelude::*;

verus! {

/// `p` is a prefix of `s`.
pub open spec fn has_prefix<T>(s: Seq<T>, p: Seq<T>) -> bool {
    p.len() <= s.len() && s.subrange(0, p.len() as int) == p
}

/// Whether the string `s` begins with the string `prefix`.
pub fn str_starts_with(s: &str, prefix: &str) -> (r: bool)
    ensures
        r == has_prefix(s@, prefix@),
{
    let n = s.unicode_len();
    let m = prefix.unicode_len();
    if m > n {
        return false;
    }
    let mut i: usize = 0;
    while i < m
        invariant
            n == s@.len(),
            m == prefix@.len(),
            m <= n,
            i <= m,
            forall|j: int| 0 <= j < i ==> s@[j] == prefix@[j],
        decreases m - i,
    {
        let a = s.get_char(i);
        let b = prefix.get_char(i);
        if a != b {
            assert(s@.subrange(0, m as int)[i as int] != prefix@[i as int]);
            return false;
        }
        i = i + 1;
    }
    assert(s@.subrange(0, m as int) =~= prefix@);
    true
}

/// The outcome of comparing two values in a total order.
#[derive(Clone, Copy, Debug, PartialEq, Eq, Structural)]
pub enum Order {
    Less,
    Equal,
    Greater,
}

/// Lexicographic order on character sequences, characters ordered by code
/// point (the order of `String`'s `Ord`, since UTF-8 preserves code point order).
pub open spec fn chars_lt(a: Seq<char>, b: Seq<char>) -> bool
    decreases a.len(),
{
    if b.len() == 0 {
        false
    } else if a.len() == 0 {
        true
    } else if (a[0] as u32) < (b[0] as u32) {
        true
    } else if a[0] == b[0] {
        chars_lt(a.drop_first(), b.drop_first())
    } else {
        false
    }
}

/// Lexicographic order on byte sequences (the order of `[u8]`'s `Ord`).
pub open spec fn bytes_lt(a: Seq<u8>, b: Seq<u8>) -> bool
    decreases a.len(),
{
    if b.len() == 0 {
        false
    } else if a.len() == 0 {
        true
    } else if a[0] < b[0] {
        true
    } else if a[0] == b[0] {
        bytes_lt(a.drop_first(), b.drop_first())
    } else {
        false
    }
}

pub proof fn lemma_chars_lt_irreflexive(a: Seq<char>)
    ensures
        !chars_lt(a, a),
    decreases a.len(),
{
    if a.len() > 0 {
        lemma_chars_lt_irreflexive(a.drop_first());
    }
}

pub proof fn lemma_chars_lt_transitive(a: Seq<char>, b: Seq<char>, c: Seq<char>)
    requires
        chars_lt(a, b),
        chars_lt(b, c),
    ensures
        chars_lt(a, c),
    decreases a.len(),
{
    if a.len() > 0 && b.len() > 0 && c.len() > 0 && a[0] == b[0] && b[0] == c[0] {
        lemma_chars_lt_transitive(a.drop_first(), b.drop_first(), c.drop_first());
    }
}

pub proof fn lemma_chars_lt_asymmetric(a: Seq<char>, b: Seq<char>)
    requires
        chars_lt(a, b),
    ensures
        !chars_lt(b, a),
{
    if chars_lt(b, a) {
        lemma_chars_lt_transitive(a, b, a);
        lemma_chars_lt_irreflexive(a);
    }
}

pub proof fn lemma_bytes_lt_irreflexive(a: Seq<u8>)
    ensures
        !bytes_lt(a, a),
    decreases a.len(),
{
    if a.len() > 0 {
        lemma_bytes_lt_irreflexive(a.drop_first());
    }
}

pub proof fn lemma_bytes_lt_transitive(a: Seq<u8>, b: Seq<u8>, c: Seq<u8>)
    requires
        bytes_lt(a, b),
        bytes_lt(b, c),
    ensures
        bytes_lt(a, c),
    decreases a.len(),
{
    if a.len() > 0 && b.len() > 0 && c.len() > 0 && a[0] == b[0] && b[0] == c[0] {
        lemma_bytes_lt_transitive(a.drop_first(), b.drop_first(), c.drop_first());
    }
}

pub proof fn lemma_bytes_lt_asymmetric(a: Seq<u8>, b: Seq<u8>)
    requires
        bytes_lt(a, b),
    ensures
        !bytes_lt(b, a),
{
    if bytes_lt(b, a) {
        lemma_bytes_lt_transitive(a, b, a);
        lemma_bytes_lt_irreflexive(a);
    }
}

/// Compares two 32-byte keys in the order of `[u8]`'s `Ord`.
pub fn compare_keys(a: &[u8; 32], b: &[u8; 32]) -> (r: Order)
    ensures
        (r == Order::Less) == bytes_lt(a@, b@),
        (r == Order::Greater) == bytes_lt(b@, a@),
        (r == Order::Equal) == (a@ == b@),
{
    let mut i: usize = 0;
    assert(a@.skip(0) =~= a@);
    assert(b@.skip(0) =~= b@);
    while i < 32
        invariant
            a@.len() == 32,
            b@.len() == 32,
            i <= 32,
            a@.take(i as int) == b@.take(i as int),
            bytes_lt(a@, b@) == bytes_lt(a@.skip(i as int), b@.skip(i as int)),
            bytes_lt(b@, a@) == bytes_lt(b@.skip(i as int), a@.skip(i as int)),
        decreases 32 - i,
    {
        let x = a[i];
        let y = b[i];
        let ghost sa = a@.skip(i as int);
        let ghost sb = b@.skip(i as int);
        assert(sa[0] == x && sb[0] == y);
        if x < y {
            proof { lemma_bytes_lt_asymmetric(sa, sb); }
            return Order::Less;
        }
        if y < x {
            proof { lemma_bytes_lt_asymmetric(sb, sa); }
            return Order::Greater;
        }
        assert(sa.drop_first() =~= a@.skip(i + 1));
        assert(sb.drop_first() =~= b@.skip(i + 1));
        assert(a@.take(i + 1) =~= a@.take(i as int).push(x));
        assert(b@.take(i + 1) =~= b@.take(i as int).push(y));
        i = i + 1;
    }
    assert(a@ =~= a@.take(32));
    assert(b@ =~= b@.take(32));
    proof { lemma_bytes_lt_irreflexive(a@); }
    Order::Equal
}

/// Whether two byte strings are the same.
pub fn bytes_equal(a: &[u8], b: &[u8]) -> (r: bool)
    ensures
        r == (a@ == b@),
{
    if a.len() != b.len() {
        return false;
    }
    let n = a.len();
    let mut i: usize = 0;
    while i < n
        invariant
            n == a@.len(),
            n == b@.len(),
            i <= n,
            forall|j: int| 0 <= j < i ==> a@[j] == b@[j],
        decreases n - i,
    {
        if a[i] != b[i] {
            return false;
        }
        i = i + 1;
    }
    assert(a@ =~= b@);
    true
}

/// Whether two 32-byte keys are the same.
pub fn same_key(a: &[u8; 32], b: &[u8; 32]) -> (r: bool)
    ensures
        r == (a@ == b@),
{
    match compare_keys(a, b) {
        Order::Equal => true,
        _ => false,
    }
}

/// Compares two strings in the order of `String`'s `Ord`.
pub fn compare_strs(a: &str, b: &str) -> (r: Order)
    ensures
        (r == Order::Less) == chars_lt(a@, b@),
        (r == Order::Greater) == chars_lt(b@, a@),
        (r == Order::Equal) == (a@ == b@),
{
    let n = a.unicode_len();
    let m = b.unicode_len();
    let mut i: usize = 0;
    assert(a@.skip(0) =~= a@);
    assert(b@.skip(0) =~= b@);
    while i < n && i < m
        invariant
            n == a@.len(),
            m == b@.len(),
            i <= n,
            i <= m,
            a@.take(i as int) == b@.take(i as int),
            chars_lt(a@, b@) == chars_lt(a@.skip(i as int), b@.skip(i as int)),
            chars_lt(b@, a@) == chars_lt(b@.skip(i as int), a@.skip(i as int)),
        decreases n - i,
    {
        let x = a.get_char(i);
        let y = b.get_char(i);
        let ghost sa = a@.skip(i as int);
        let ghost sb = b@.skip(i as int);
        assert(sa[0] == x && sb[0] == y);
        if (x as u32) < (y as u32) {
            proof { lemma_chars_lt_asymmetric(sa, sb); }
            return Order::Less;
        }
        if (y as u32) < (x as u32) {
            proof { lemma_chars_lt_asymmetric(sb, sa); }
            return Order::Greater;
        }
        assert(x == y);
        assert(sa.drop_first() =~= a@.skip(i + 1));
        assert(sb.drop_first() =~= b@.skip(i + 1));
        assert(a@.take(i + 1) =~= a@.take(i as int).push(x));
        assert(b@.take(i + 1) =~= b@.take(i as int).push(y));
        i = i + 1;
    }
    if i < m {
        assert(a@.skip(i as int).len() == 0);
        proof { lemma_chars_lt_asymmetric(a@.skip(i as int), b@.skip(i as int)); }
        assert(a@ != b@) by { assert(a@.len() != b@.len()); }
        Order::Less
    } else if i < n {
        assert(b@.skip(i as int).len() == 0);
        proof { lemma_chars_lt_asymmetric(b@.skip(i as int), a@.skip(i as int)); }
        assert(a@ != b@) by { assert(a@.len() != b@.len()); }
        Order::Greater
    } else {
        assert(a@ =~= a@.take(i as int));
        assert(b@ =~= b@.take(i as int));
        proof { lemma_chars_lt_irreflexive(a@); }
        Order::Equal
    }
}

} // verus!

verus! {

/// ASCII lower case of a byte (other bytes unchanged).
pub open spec fn ascii_lower(b: u8) -> u8 {
    if 65 <= b <= 90 {
        (b + 32) as u8
    } else {
        b
    }
}

/// ASCII upper case of a byte (other bytes unchanged).
pub open spec fn ascii_upper(b: u8) -> u8 {
    if 97 <= b <= 122 {
        (b - 32) as u8
    } else {
        b
    }
}

pub open spec fn lower_seq(s: Seq<u8>) -> Seq<u8> {
    s.map_values(|b: u8| ascii_lower(b))
}

pub open spec fn upper_seq(s: Seq<u8>) -> Seq<u8> {
    s.map_values(|b: u8| ascii_upper(b))
}

/// A symbol of the base32 alphabet `A`..`Z`, `2`..`7`.
pub open spec fn is_base32_symbol(b: u8) -> bool {
    (65 <= b <= 90) || (50 <= b <= 55)
}

/// `s.to_ascii_lowercase()`.
pub fn to_ascii_lowercase(s: &[u8]) -> (r: Vec<u8>)
    ensures
        r@ == lower_seq(s@),
{
    let mut r: Vec<u8> = Vec::new();
    let n = s.len();
    let mut i: usize = 0;
    while i < n
        invariant
            n == s@.len(),
            i <= n,
            r@ =~= lower_seq(s@.take(i as int)),
        decreases n - i,
    {
        let b = s[i];
        let c = if 65 <= b && b <= 90 { b + 32 } else { b };
        r.push(c);
        assert(lower_seq(s@.take(i + 1)) =~= lower_seq(s@.take(i as int)).push(ascii_lower(b)));
        i = i + 1;
    }
    assert(s@.take(n as int) =~= s@);
    r
}

/// `s.to_ascii_uppercase()`.
pub fn to_ascii_uppercase(s: &[u8]) -> (r: Vec<u8>)
    ensures
        r@ == upper_seq(s@),
{
    let mut r: Vec<u8> = Vec::new();
    let n = s.len();
    let mut i: usize = 0;
    while i < n
        invariant
            n == s@.len(),
            i <= n,
            r@ =~= upper_seq(s@.take(i as int)),
        decreases n - i,
    {
        let b = s[i];
        let c = if 97 <= b && b <= 122 { b - 32 } else { b };
        r.push(c);
        assert(upper_seq(s@.take(i + 1)) =~= upper_seq(s@.take(i as int)).push(ascii_upper(b)));
        i = i + 1;
    }
    assert(s@.take(n as int) =~= s@);
    r
}

/// Upper-casing a lower-cased text of base32 symbols gives it back.
pub proof fn lemma_upper_lower_symbols(s: Seq<u8>)
    requires
        forall|i: int| 0 <= i < s.len() ==> is_base32_symbol(#[trigger] s[i]),
    ensures
        upper_seq(lower_seq(s)) == s,
{
    assert(upper_seq(lower_seq(s)) =~= s);
}

/// Lower-casing forgets an upper-casing.
pub proof fn lemma_lower_upper(s: Seq<u8>)
    ensures
        lower_seq(upper_seq(s)) == lower_seq(s),
{
    assert(lower_seq(upper_seq(s)) =~= lower_seq(s));
}

/// `data_encoding::DecodeError`, the error of a text that is not base32.
#[verifier::external_type_specification]
#[verifier::external_body]
pub struct ExDecodeError(data_encoding::DecodeError);

/// The text (as ASCII bytes) that `data_encoding::BASE32_NOPAD.encode` makes of `data`.
pub uninterp spec fn base32_nopad_encode(data: Seq<u8>) -> Seq<u8>;

/// The bytes that `data_encoding::BASE32_NOPAD.decode` makes of `text`, or
/// nothing when it refuses the text.
pub uninterp spec fn base32_nopad_decode(text: Seq<u8>) -> Option<Seq<u8>>;

/// Calls `data_encoding::BASE32_NOPAD.encode`. The contract claims, as the
/// crate documents, that the result is a function of the input, that it is
/// made of the symbols `A`..`Z`, `2`..`7` (no padding), and that decoding it
/// gives the input back ("encoding followed by decoding gives the initial data"),
/// and that it is `ceil(8 * n / 5)` symbols long for `n` bytes (`encode_len`
/// without padding). Inputs longer than `usize::MAX / 512` bytes are left out: the crate asserts
/// against them when it computes the length of the text.
#[verifier::external_body]
fn base32_encode(data: &[u8]) -> (r: Vec<u8>)
    requires
        data@.len() <= usize::MAX / 512,
    ensures
        r@ == base32_nopad_encode(data@),
        r@.len() == (8 * data@.len() + 4) / 5,
        forall|i: int| 0 <= i < r@.len() ==> is_base32_symbol(#[trigger] r@[i]),
        base32_nopad_decode(r@) == Some(data@),
{
    data_encoding::BASE32_NOPAD.encode(data).into_bytes()
}

/// Calls `data_encoding::BASE32_NOPAD.decode`. The contract claims that the
/// outcome is a function of the input and, as the crate documents for its
/// canonical encodings, that encoding what a decode returns gives back the text
/// ("decoding followed by encoding gives the initial data"). Texts longer than
/// `usize::MAX / 8` bytes are left out: the crate asserts against them when it
/// computes the length of the result.
#[verifier::external_body]
fn base32_decode(text: &[u8]) -> (r: Result<Vec<u8>, data_encoding::DecodeError>)
    requires
        text@.len() <= usize::MAX / 8,
    ensures
        r is Ok <==> base32_nopad_decode(text@) is Some,
        r matches Ok(v) ==> base32_nopad_decode(text@) == Some(v@) && base32_nopad_encode(v@) == text@,
{
    data_encoding::BASE32_NOPAD.decode(text)
}

/// Why a token text cannot be read.
#[derive(Debug, Clone, Copy, PartialEq, Eq, Structural)]
pub enum TokenError {
    /// The text, upper-cased, is not unpadded base32.
    NotBase32,
}

/// A character of the token text: `a`..`z` or `2`..`7`.
pub open spec fn is_token_symbol(b: u8) -> bool {
    (97 <= b <= 122) || (50 <= b <= 55)
}

/// The text form of token bytes: unpadded base32 in lower case. (Token bytes
/// are limited to `usize::MAX / 512`, the most the encoder takes.)
pub fn encode_token(bytes: &[u8]) -> (r: Vec<u8>)
    requires
        bytes@.len() <= usize::MAX / 512,
    ensures
        r@ == lower_seq(base32_nopad_encode(bytes@)),
        r@.len() == (8 * bytes@.len() + 4) / 5,
        forall|i: int| 0 <= i < r@.len() ==> is_token_symbol(#[trigger] r@[i]),
        base32_nopad_decode(upper_seq(r@)) == Some(bytes@),
{
    let encoded = base32_encode(bytes);
    let r = to_ascii_lowercase(encoded.as_slice());
    proof {
        lemma_upper_lower_symbols(encoded@);
        assert forall|i: int| 0 <= i < r@.len() implies is_token_symbol(#[trigger] r@[i]) by {
            assert(is_base32_symbol(encoded@[i]));
            assert(r@[i] == ascii_lower(encoded@[i]));
        }
    }
    r
}

/// The token bytes of a text: the text is upper-cased and read as unpadded
/// base32. (Texts are limited to `usize::MAX / 8` bytes, the most the decoder
/// takes.)
pub fn decode_token(text: &[u8]) -> (r: Result<Vec<u8>, TokenError>)
    requires
        text@.len() <= usize::MAX / 8,
    ensures
        match base32_nopad_decode(upper_seq(text@)) {
            Some(v) => r matches Ok(x) && x@ == v,
            None => r == Err::<Vec<u8>, TokenError>(TokenError::NotBase32),
        },
        r matches Ok(x) ==> lower_seq(base32_nopad_encode(x@)) == lower_seq(text@),
{
    let upper = to_ascii_uppercase(text);
    match base32_decode(upper.as_slice()) {
        Ok(v) => {
            proof {
                lemma_lower_upper(text@);
            }
            Ok(v)
        },
        Err(_) => Err(TokenError::NotBase32),
    }
}

} // verus!
