//! Character-level helpers: hexadecimal and decimal rendering, hex decoding and
//! encoding (through the `hex` crate), and whitespace trimming.

use vstd::prelude::*;
use vstd::string::*;
use vstd::utf8::*;

verus! {

// ── hexadecimal digits ───────────────────────────────────────────────────────

/// Upper-case hexadecimal digit for a nibble.
pub open spec fn hex_digit_upper(n: int) -> char {
    if n < 10 {
        (n + 48) as char
    } else {
        (n + 55) as char
    }
}

/// Lower-case hexadecimal digit for a nibble.
pub open spec fn hex_digit_lower(n: int) -> char {
    if n < 10 {
        (n + 48) as char
    } else {
        (n + 87) as char
    }
}

/// The two upper-case hexadecimal digits of a byte.
pub open spec fn hex_byte_upper(b: u8) -> Seq<char> {
    seq![hex_digit_upper((b / 16) as int), hex_digit_upper((b % 16) as int)]
}

/// The two lower-case hexadecimal digits of a byte.
pub open spec fn hex_byte_lower(b: u8) -> Seq<char> {
    seq![hex_digit_lower((b / 16) as int), hex_digit_lower((b % 16) as int)]
}

/// Appends one character (std `String::push`): the string gains `c` at its end.
#[verifier::external_body]
pub(crate) fn push_char(s: &mut String, c: char)
    ensures
        final(s)@ == old(s)@.push(c),
{
    s.push(c);
}

fn nibble_char(n: u8, upper: bool) -> (c: char)
    requires
        n < 16,
    ensures
        upper ==> c == hex_digit_upper(n as int),
        !upper ==> c == hex_digit_lower(n as int),
{
    if n < 10 {
        (n + 48) as char
    } else if upper {
        (n + 55) as char
    } else {
        (n + 87) as char
    }
}

/// Appends the two hexadecimal digits of `b`, upper- or lower-case.
pub fn push_hex_byte(s: &mut String, b: u8, upper: bool)
    ensures
        upper ==> final(s)@ == old(s)@ + hex_byte_upper(b),
        !upper ==> final(s)@ == old(s)@ + hex_byte_lower(b),
{
    push_char(s, nibble_char(b / 16, upper));
    push_char(s, nibble_char(b % 16, upper));
    proof {
        if upper {
            assert(final(s)@ =~= old(s)@ + hex_byte_upper(b));
        } else {
            assert(final(s)@ =~= old(s)@ + hex_byte_lower(b));
        }
    }
}


/// The two hexadecimal digits of a byte in the chosen case.
pub open spec fn hex_byte(b: u8, upper: bool) -> Seq<char> {
    if upper {
        hex_byte_upper(b)
    } else {
        hex_byte_lower(b)
    }
}

/// Hexadecimal bytes joined by `sep` (as in `aa:bb:cc`).
pub open spec fn sep_hex(b: Seq<u8>, sep: char, upper: bool) -> Seq<char>
    decreases b.len(),
{
    if b.len() == 0 {
        seq![]
    } else if b.len() == 1 {
        hex_byte(b[0], upper)
    } else {
        sep_hex(b.drop_last(), sep, upper) + seq![sep] + hex_byte(b.last(), upper)
    }
}

/// Hexadecimal bytes joined by `:`.
pub open spec fn colon_hex(b: Seq<u8>, upper: bool) -> Seq<char> {
    sep_hex(b, ':', upper)
}

/// Appends the bytes of `b` in hexadecimal, joined by `sep`.
pub fn push_sep_hex(s: &mut String, b: &[u8], sep: char, upper: bool)
    ensures
        final(s)@ == old(s)@ + sep_hex(b@, sep, upper),
{
    let mut i: usize = 0;
    while i < b.len()
        invariant
            0 <= i <= b@.len(),
            s@ == old(s)@ + sep_hex(b@.subrange(0, i as int), sep, upper),
        decreases b@.len() - i,
    {
        if i > 0 {
            push_char(s, sep);
        }
        push_hex_byte(s, b[i], upper);
        proof {
            let pre = b@.subrange(0, i as int);
            let post = b@.subrange(0, i + 1);
            assert(post.drop_last() =~= pre);
            assert(post.last() == b@[i as int]);
            assert(s@ =~= old(s)@ + sep_hex(post, sep, upper));
        }
        i = i + 1;
    }
    assert(b@.subrange(0, b@.len() as int) =~= b@);
}

/// Appends the bytes of `b` in hexadecimal, joined by `:`.
pub fn push_colon_hex(s: &mut String, b: &[u8], upper: bool)
    ensures
        final(s)@ == old(s)@ + colon_hex(b@, upper),
{
    push_sep_hex(s, b, ':', upper);
}

// ── decimal numbers ──────────────────────────────────────────────────────────

/// The decimal digit character for `d` (0..=9).
pub open spec fn decimal_digit(d: int) -> char {
    (d + 48) as char
}

/// Decimal rendering of a natural number, without leading zeros.
pub open spec fn decimal(n: nat) -> Seq<char>
    decreases n,
{
    if n < 10 {
        seq![decimal_digit(n as int)]
    } else {
        decimal(n / 10).push(decimal_digit((n % 10) as int))
    }
}

/// Decimal rendering of an integer: a minus sign before negative values.
pub open spec fn signed_decimal(v: int) -> Seq<char> {
    if v < 0 {
        seq!['-'] + decimal((-v) as nat)
    } else {
        decimal(v as nat)
    }
}

/// Exactly two decimal digits, zero-padded (`n` below 100).
pub open spec fn two_digits(n: int) -> Seq<char> {
    seq![decimal_digit(n / 10), decimal_digit(n % 10)]
}

/// The ASCII digits at the start of `s`.
pub open spec fn leading_digits(s: Seq<char>) -> Seq<char>
    decreases s.len(),
{
    if s.len() > 0 && '0' <= s[0] <= '9' {
        seq![s[0]] + leading_digits(s.drop_first())
    } else {
        seq![]
    }
}

/// The value of a string of decimal digits.
pub open spec fn digits_value(d: Seq<char>) -> nat
    decreases d.len(),
{
    if d.len() == 0 {
        0
    } else {
        digits_value(d.drop_last()) * 10 + (d.last() as nat - 48) as nat
    }
}

/// Every character of `s` is an ASCII digit.
pub open spec fn all_digits(s: Seq<char>) -> bool {
    forall|i: int| 0 <= i < s.len() ==> '0' <= #[trigger] s[i] <= '9'
}

/// The decimal rendering of `n` is a non-empty run of digits that reads back
/// as `n`.
pub proof fn lemma_decimal_reads_back(n: nat)
    ensures
        decimal(n).len() > 0,
        all_digits(decimal(n)),
        digits_value(decimal(n)) == n,
    decreases n,
{
    let d = (n % 10) as int;
    assert(decimal_digit(d) as nat == d + 48);
    if n >= 10 {
        lemma_decimal_reads_back(n / 10);
        assert(decimal(n).drop_last() =~= decimal(n / 10));
        assert(decimal(n).last() == decimal_digit(d));
        assert((n / 10) * 10 + n % 10 == n);
        assert(digits_value(decimal(n)) == digits_value(decimal(n / 10)) * 10 + d);
    } else {
        assert(decimal(n).drop_last() =~= Seq::<char>::empty());
        assert(digits_value(decimal(n).drop_last()) == 0);
        assert(decimal(n).last() == decimal_digit(d));
        assert(digits_value(decimal(n)) == d);
    }
}

/// The leading digits of a run of digits followed by a non-digit are that
/// run.
pub proof fn lemma_leading_digits_of_run(d: Seq<char>, t: Seq<char>)
    requires
        all_digits(d),
        t.len() > 0,
        !('0' <= t[0] <= '9'),
    ensures
        leading_digits(d + t) == d,
    decreases d.len(),
{
    if d.len() == 0 {
        assert(d + t =~= t);
    } else {
        assert((d + t).drop_first() =~= d.drop_first() + t);
        assert((d + t)[0] == d[0]);
        lemma_leading_digits_of_run(d.drop_first(), t);
        assert(seq![d[0]] + d.drop_first() =~= d);
    }
}

/// Appends the decimal rendering of `n`.
pub fn push_decimal(s: &mut String, n: u64)
    ensures
        final(s)@ == old(s)@ + decimal(n as nat),
    decreases n,
{
    if n >= 10 {
        push_decimal(s, n / 10);
    }
    let d: u8 = (n % 10) as u8;
    push_char(s, (d + 48) as char);
    assert(final(s)@ =~= old(s)@ + decimal(n as nat));
}

/// Appends the decimal rendering of a signed `v`.
pub fn push_signed_decimal(s: &mut String, v: i64)
    ensures
        final(s)@ == old(s)@ + signed_decimal(v as int),
{
    if v < 0 {
        push_char(s, '-');
        let m: u64 = if v == i64::MIN {
            9223372036854775808u64
        } else {
            (-v) as u64
        };
        push_decimal(s, m);
        assert(final(s)@ =~= old(s)@ + signed_decimal(v as int));
    } else {
        push_decimal(s, v as u64);
    }
}

/// Appends `n` as exactly two zero-padded decimal digits.
pub fn push_two_digits(s: &mut String, n: u64)
    requires
        n < 100,
    ensures
        final(s)@ == old(s)@ + two_digits(n as int),
{
    let hi: u8 = (n / 10) as u8;
    let lo: u8 = (n % 10) as u8;
    push_char(s, (hi + 48) as char);
    push_char(s, (lo + 48) as char);
    assert(final(s)@ =~= old(s)@ + two_digits(n as int));
}

/// Appends a string slice (vstd's `String::append`).
pub fn push_str(s: &mut String, t: &str)
    ensures
        final(s)@ == old(s)@ + t@,
{
    s.append(t);
}


// ── hex strings (the `hex` crate) ────────────────────────────────────────────

/// Value of one hexadecimal digit byte (either case), `None` for any other byte.
pub open spec fn hex_value(b: u8) -> Option<u8> {
    if 48 <= b <= 57 {
        Some((b - 48) as u8)
    } else if 65 <= b <= 70 {
        Some((b - 55) as u8)
    } else if 97 <= b <= 102 {
        Some((b - 87) as u8)
    } else {
        None
    }
}

/// A byte string is valid hex when it has an even length and only hex digits.
pub open spec fn hex_decodable(s: Seq<u8>) -> bool {
    &&& s.len() % 2 == 0
    &&& forall|i: int| 0 <= i < s.len() ==> (#[trigger] hex_value(s[i])) is Some
}

/// The bytes that a valid hex byte string denotes, two digits per byte, high
/// nibble first; `None` for an invalid one.
pub open spec fn hex_decode_spec(s: Seq<u8>) -> Option<Seq<u8>> {
    if hex_decodable(s) {
        Some(
            Seq::new(
                s.len() / 2,
                |i: int| (hex_value(s[2 * i])->0 * 16 + hex_value(s[2 * i + 1])->0) as u8,
            ),
        )
    } else {
        None
    }
}

/// Lower-case hex rendering of a byte string, two digits per byte.
pub open spec fn hex_encode_spec(b: Seq<u8>) -> Seq<char> {
    Seq::new(
        2 * b.len(),
        |i: int|
            if i % 2 == 0 {
                hex_digit_lower((b[i / 2] / 16) as int)
            } else {
                hex_digit_lower((b[i / 2] % 16) as int)
            },
    )
}

/// The `hex` crate's decoding error, carried opaquely.
#[verifier::external_type_specification]
#[verifier::external_body]
pub struct ExFromHexError(hex::FromHexError);

/// `hex::decode`: decodes when the input has an even length and only hex
/// digits (either case), giving one byte per digit pair, high nibble first;
/// otherwise it fails. Which error variant it reports is left unsaid.
#[verifier::external_body]
pub(crate) fn hex_decode(data: &[u8]) -> (r: Result<Vec<u8>, hex::FromHexError>)
    ensures
        r is Ok <==> hex_decode_spec(data@) is Some,
        r matches Ok(v) ==> hex_decode_spec(data@) == Some(v@),
{
    hex::decode(data)
}

/// `hex::encode`: the lower-case hex rendering of `data`.
#[verifier::external_body]
pub(crate) fn hex_encode(data: &[u8]) -> (r: String)
    ensures
        r@ == hex_encode_spec(data@),
{
    hex::encode(data)
}

/// Hex-decoding the hex rendering of any byte string gives that byte string
/// back.
pub proof fn lemma_hex_round_trip(b: Seq<u8>)
    ensures
        hex_decode_spec(encode_utf8(hex_encode_spec(b))) == Some(b),
{
    let chars = hex_encode_spec(b);
    assert(is_ascii_chars(chars));
    is_ascii_chars_encode_utf8(chars);
    let bytes = encode_utf8(chars);
    assert(bytes =~= Seq::new(chars.len(), |i| chars[i] as u8));
    assert forall|i: int| 0 <= i < bytes.len() implies #[trigger] hex_value(bytes[i]) is Some by {
        let n = if i % 2 == 0 { b[i / 2] / 16 } else { b[i / 2] % 16 };
        assert(bytes[i] == n + (if n < 10 { 48int } else { 87int }));
    }
    assert(hex_decodable(bytes));
    let d = hex_decode_spec(bytes)->0;
    assert forall|k: int| 0 <= k < b.len() implies d[k] == b[k] by {
        let hi = b[k] / 16;
        let lo = b[k] % 16;
        assert(bytes[2 * k] == hi + (if hi < 10 { 48int } else { 87int }));
        assert(bytes[2 * k + 1] == lo + (if lo < 10 { 48int } else { 87int }));
        assert(hex_value(bytes[2 * k]) == Some(hi));
        assert(hex_value(bytes[2 * k + 1]) == Some(lo));
    }
    assert(d =~= b);
}

// ── whitespace ───────────────────────────────────────────────────────────────

/// Unicode `White_Space` characters (the set `char::is_whitespace` accepts).
pub open spec fn is_white_space(c: char) -> bool {
    let u = c as u32;
    ||| 9 <= u <= 13
    ||| u == 32
    ||| u == 0x85
    ||| u == 0xA0
    ||| u == 0x1680
    ||| 0x2000 <= u <= 0x200A
    ||| u == 0x2028
    ||| u == 0x2029
    ||| u == 0x202F
    ||| u == 0x205F
    ||| u == 0x3000
}

/// `s` without its leading white space.
pub open spec fn trim_start_spec(s: Seq<char>) -> Seq<char>
    decreases s.len(),
{
    if s.len() > 0 && is_white_space(s[0]) {
        trim_start_spec(s.drop_first())
    } else {
        s
    }
}

/// `s` without its trailing white space.
pub open spec fn trim_end_spec(s: Seq<char>) -> Seq<char>
    decreases s.len(),
{
    if s.len() > 0 && is_white_space(s.last()) {
        trim_end_spec(s.drop_last())
    } else {
        s
    }
}

/// `s` without leading and trailing white space.
pub open spec fn trim_spec(s: Seq<char>) -> Seq<char> {
    trim_end_spec(trim_start_spec(s))
}

/// Whether `c` is Unicode white space.
pub fn white_space(c: char) -> (r: bool)
    ensures
        r == is_white_space(c),
{
    let u = c as u32;
    (9 <= u && u <= 13) || u == 32 || u == 0x85 || u == 0xA0 || u == 0x1680 || (0x2000 <= u && u
        <= 0x200A) || u == 0x2028 || u == 0x2029 || u == 0x202F || u == 0x205F || u == 0x3000
}

/// `s` with its leading and trailing Unicode white space removed.
pub fn trim_str(s: &str) -> (r: &str)
    ensures
        r@ == trim_spec(s@),
{
    let n = s.unicode_len();
    let mut lo: usize = 0;
    assert(s@.subrange(0, n as int) =~= s@);
    while lo < n && white_space(s.get_char(lo))
        invariant
            0 <= lo <= n,
            n == s@.len(),
            trim_start_spec(s@) == trim_start_spec(s@.subrange(lo as int, n as int)),
        decreases n - lo,
    {
        let ghost t = s@.subrange(lo as int, n as int);
        assert(t.drop_first() =~= s@.subrange(lo + 1, n as int));
        lo = lo + 1;
    }
    assert(trim_start_spec(s@) == s@.subrange(lo as int, n as int));
    let mut hi: usize = n;
    while hi > lo && white_space(s.get_char(hi - 1))
        invariant
            0 <= lo <= hi <= n,
            n == s@.len(),
            trim_end_spec(s@.subrange(lo as int, n as int)) == trim_end_spec(
                s@.subrange(lo as int, hi as int),
            ),
        decreases hi - lo,
    {
        let ghost t = s@.subrange(lo as int, hi as int);
        assert(t.drop_last() =~= s@.subrange(lo as int, hi - 1));
        hi = hi - 1;
    }
    s.substring_char(lo, hi)
}

} // verus!
