//! Text support: the UTF-8 byte layout of `str` values, and the character and
//! string operations of std that the lexer and parser call.

use vstd::prelude::*;
use vstd::utf8::*;

verus! {

broadcast use vstd::string::group_string_axioms;

/// Number of bytes in the UTF-8 encoding of the characters `s`.
pub open spec fn utf8_len(s: Seq<char>) -> nat {
    encode_utf8(s).len()
}

/// The byte offset at which character `k` of `s` starts in its UTF-8 encoding.
pub open spec fn byte_offset(s: Seq<char>, k: int) -> nat {
    utf8_len(s.take(k))
}

/// Encoding a concatenation encodes each part in turn.
pub proof fn lemma_encode_concat(a: Seq<char>, b: Seq<char>)
    ensures
        encode_utf8(a + b) == encode_utf8(a) + encode_utf8(b),
    decreases a.len(),
{
    if a.len() == 0 {
        assert(a + b =~= b);
        assert(encode_utf8(a) + encode_utf8(b) =~= encode_utf8(b));
    } else {
        lemma_encode_concat(a.drop_first(), b);
        assert((a + b).drop_first() =~= a.drop_first() + b);
        assert((a + b)[0] == a[0]);
        assert(encode_utf8(a + b) =~= encode_scalar(a[0] as u32) + encode_utf8(a.drop_first())
            + encode_utf8(b));
    }
}

/// The encoding of one character is its scalar encoding.
pub proof fn lemma_encode_single(c: char)
    ensures
        encode_utf8(seq![c]) == encode_scalar(c as u32),
        1 <= utf8_len(seq![c]) <= 4,
{
    assert(seq![c].drop_first() =~= Seq::<char>::empty());
    assert(encode_utf8(seq![c]) =~= encode_scalar(c as u32) + encode_utf8(Seq::<char>::empty()));
    vstd::utf8::char_is_scalar(c);
}

/// Splitting the characters at `k` splits the bytes at the byte offset of `k`.
pub proof fn lemma_encode_split(s: Seq<char>, k: int)
    requires
        0 <= k <= s.len(),
    ensures
        encode_utf8(s).subrange(0, byte_offset(s, k) as int) == encode_utf8(s.take(k)),
        encode_utf8(s).subrange(byte_offset(s, k) as int, utf8_len(s) as int) == encode_utf8(
            s.skip(k),
        ),
        utf8_len(s) == byte_offset(s, k) + utf8_len(s.skip(k)),
{
    assert(s =~= s.take(k) + s.skip(k));
    lemma_encode_concat(s.take(k), s.skip(k));
    let x = encode_utf8(s.take(k));
    let y = encode_utf8(s.skip(k));
    assert((x + y).subrange(0, x.len() as int) =~= x);
    assert((x + y).subrange(x.len() as int, (x + y).len() as int) =~= y);
}

/// The byte offset of the character after `k` adds the width of character `k`.
pub proof fn lemma_byte_offset_next(s: Seq<char>, k: int)
    requires
        0 <= k < s.len(),
    ensures
        byte_offset(s, k + 1) == byte_offset(s, k) + utf8_len(seq![s[k]]),
        byte_offset(s, k) < byte_offset(s, k + 1) <= utf8_len(s),
{
    assert(s.take(k + 1) =~= s.take(k) + seq![s[k]]);
    lemma_encode_concat(s.take(k), seq![s[k]]);
    lemma_encode_single(s[k]);
    lemma_encode_split(s, k + 1);
}

/// The byte offsets grow with the character index.
pub proof fn lemma_byte_offset_monotonic(s: Seq<char>, j: int, k: int)
    requires
        0 <= j <= k <= s.len(),
    ensures
        byte_offset(s, j) <= byte_offset(s, k),
        j < k ==> byte_offset(s, j) < byte_offset(s, k),
    decreases k - j,
{
    if j < k {
        lemma_byte_offset_monotonic(s, j, k - 1);
        lemma_byte_offset_next(s, k - 1);
    }
}

/// The byte offset of every character is a character boundary of the encoding.
pub proof fn lemma_char_boundary(s: Seq<char>, k: int)
    requires
        0 <= k <= s.len(),
    ensures
        is_char_boundary(encode_utf8(s), byte_offset(s, k) as int),
    decreases k,
{
    broadcast use vstd::utf8::encode_utf8_valid_utf8;

    let b = encode_utf8(s);
    if k == 0 {
        assert(s.take(0) =~= Seq::<char>::empty());
        assert(byte_offset(s, 0) == 0);
    } else {
        let t = s.drop_first();
        encode_utf8_first_scalar(s);
        lemma_char_boundary(t, k - 1);
        assert(pop_first_scalar(b) =~= encode_utf8(t));
        assert(s.take(k) =~= seq![s[0]] + t.take(k - 1));
        lemma_encode_concat(seq![s[0]], t.take(k - 1));
        lemma_encode_single(s[0]);
        lemma_encode_split(s, k);
        assert(byte_offset(s, k) == length_of_first_scalar(b) + byte_offset(t, k - 1));
    }
}

/// Two character sequences with the same encoding are equal.
pub proof fn lemma_encode_injective(x: Seq<char>, y: Seq<char>)
    requires
        encode_utf8(x) == encode_utf8(y),
    ensures
        x == y,
{
    encode_utf8_decode_utf8(x);
    encode_utf8_decode_utf8(y);
}

/// The text of `s` from character `k` on, where `at` is the byte offset of character `k`.
pub(crate) fn str_suffix<'a>(s: &'a str, at: usize, Ghost(k): Ghost<int>) -> (r: &'a str)
    requires
        0 <= k <= s@.len(),
        at == byte_offset(s@, k),
    ensures
        r@ == s@.skip(k),
{
    proof {
        lemma_char_boundary(s@, k);
        lemma_encode_split(s@, k);
    }
    let (_, rest) = s.split_at(at);
    proof {
        lemma_encode_injective(rest@, s@.skip(k));
    }
    rest
}

/// The text of `s` before character `k`, where `at` is the byte offset of character `k`.
pub(crate) fn str_prefix<'a>(s: &'a str, at: usize, Ghost(k): Ghost<int>) -> (r: &'a str)
    requires
        0 <= k <= s@.len(),
        at == byte_offset(s@, k),
    ensures
        r@ == s@.take(k),
{
    proof {
        lemma_char_boundary(s@, k);
        lemma_encode_split(s@, k);
    }
    let (front, _) = s.split_at(at);
    proof {
        lemma_encode_injective(front@, s@.take(k));
    }
    front
}

/// Byte offsets inside a suffix: offsets of `s` from character `j` on are the offset of `j`
/// plus the offsets within `s.skip(j)`.
pub proof fn lemma_byte_offset_skip(s: Seq<char>, j: int, k: int)
    requires
        0 <= j <= k <= s.len(),
    ensures
        byte_offset(s, k) == byte_offset(s, j) + byte_offset(s.skip(j), k - j),
{
    assert(s.take(k) =~= s.take(j) + s.skip(j).take(k - j));
    lemma_encode_concat(s.take(j), s.skip(j).take(k - j));
}

/// The text of `s` between characters `j` and `k`, given their byte offsets.
pub(crate) fn str_slice<'a>(s: &'a str, from: usize, to: usize, Ghost(j): Ghost<int>, Ghost(k): Ghost<int>) -> (r: &'a str)
    requires
        0 <= j <= k <= s@.len(),
        from == byte_offset(s@, j),
        to == byte_offset(s@, k),
    ensures
        r@ == s@.subrange(j, k),
{
    proof {
        lemma_byte_offset_skip(s@, j, k);
    }
    let tail = str_suffix(s, from, Ghost(j));
    let r = str_prefix(tail, to - from, Ghost(k - j));
    assert(r@ =~= s@.subrange(j, k));
    r
}

/// The first character of `s`, if it has one.
pub(crate) fn first_char(s: &str) -> (r: Option<char>)
    ensures
        s@.len() == 0 ==> r is None,
        s@.len() > 0 ==> r == Some(s@[0]),
{
    let mut it = s.chars();
    it.next()
}

/// Whether the two texts hold the same characters.
pub(crate) fn same_text(a: &str, b: &str) -> (r: bool)
    ensures
        r == (a@ == b@),
{
    let x = a.as_bytes();
    let y = b.as_bytes();
    if x.len() != y.len() {
        return false;
    }
    let n = x.len();
    let mut i: usize = 0;
    while i < n
        invariant
            n == x@.len(),
            n == y@.len(),
            x@ == encode_utf8(a@),
            y@ == encode_utf8(b@),
            0 <= i <= n,
            forall|j: int| 0 <= j < i ==> x@[j] == y@[j],
        decreases n - i,
    {
        if x[i] != y[i] {
            return false;
        }
        i = i + 1;
    }
    proof {
        assert(x@ =~= y@);
        lemma_encode_injective(a@, b@);
    }
    true
}

/// The number of bytes `char::len_utf8` reports for `c`: the length of its UTF-8 encoding.
pub assume_specification[ char::len_utf8 ](c: char) -> (r: usize)
    ensures
        r == utf8_len(seq![c]),
;

/// Whether `c` is an ASCII character.
pub open spec fn ascii(c: char) -> bool {
    (c as u32) < 0x80
}

/// Whether `c` is one of the ASCII letters `A` to `Z` and `a` to `z`.
pub open spec fn ascii_letter(c: char) -> bool {
    let u = c as u32;
    (0x41 <= u <= 0x5A) || (0x61 <= u <= 0x7A)
}

/// The ASCII lowercase form of `c`: `A` to `Z` become `a` to `z`, any other character stays.
pub open spec fn ascii_lower(c: char) -> char {
    let u = c as u32;
    if 0x41 <= u <= 0x5A {
        (u + 0x20) as char
    } else {
        c
    }
}

/// Whether a character beyond ASCII has the Unicode Alphabetic property (the answer of
/// `char::is_alphabetic` there).
pub uninterp spec fn alphabetic_beyond_ascii(c: char) -> bool;

/// Whether a character beyond ASCII is in one of the Unicode number categories (the answer
/// of `char::is_numeric` there).
pub uninterp spec fn numeric_beyond_ascii(c: char) -> bool;

/// Whether `c` has the Unicode Alphabetic property: within ASCII, the letters.
pub open spec fn alphabetic(c: char) -> bool {
    if ascii(c) {
        ascii_letter(c)
    } else {
        alphabetic_beyond_ascii(c)
    }
}

/// Whether `c` is in one of the Unicode number categories `Nd`, `Nl` and `No`: within ASCII,
/// the digits.
pub open spec fn numeric(c: char) -> bool {
    if ascii(c) {
        ascii_digit(c)
    } else {
        numeric_beyond_ascii(c)
    }
}

/// Whether `c` has the Unicode White_Space property (the answer of `char::is_whitespace`):
/// the characters that the Unicode Character Database file PropList.txt lists as White_Space.
pub open spec fn whitespace(c: char) -> bool {
    let u = c as u32;
    ||| 0x09 <= u <= 0x0D
    ||| u == 0x20
    ||| u == 0x85
    ||| u == 0xA0
    ||| u == 0x1680
    ||| 0x2000 <= u <= 0x200A
    ||| u == 0x2028
    ||| u == 0x2029
    ||| u == 0x202F
    ||| u == 0x205F
    ||| u == 0x3000
}

/// Whether `c` is one of the ASCII digits `0` to `9`.
pub open spec fn ascii_digit(c: char) -> bool {
    0x30 <= (c as u32) <= 0x39
}

/// Whether `d` is one or more ASCII digits.
pub open spec fn all_digits(d: Seq<char>) -> bool {
    d.len() > 0 && forall|i: int| 0 <= i < d.len() ==> ascii_digit(#[trigger] d[i])
}

/// The value of a sequence of ASCII digits, most significant first.
pub open spec fn digits_value(d: Seq<char>) -> int
    decreases d.len(),
{
    if d.len() == 0 {
        0
    } else {
        digits_value(d.drop_last()) * 10 + ((d.last() as u32) - 0x30)
    }
}

/// The integer a text writes in decimal: an optional `+` or `-` sign, then one or more ASCII
/// digits and nothing else.
pub open spec fn decimal_value(s: Seq<char>) -> Option<int> {
    if s.len() > 0 && s[0] == '-' && all_digits(s.drop_first()) {
        Some(-digits_value(s.drop_first()))
    } else if s.len() > 0 && s[0] == '+' && all_digits(s.drop_first()) {
        Some(digits_value(s.drop_first()))
    } else if all_digits(s) {
        Some(digits_value(s))
    } else {
        None
    }
}

/// The `i64` a text writes: its decimal value, when that lies in the range of `i64`.
pub open spec fn i64_value(s: Seq<char>) -> Option<i64> {
    match decimal_value(s) {
        Some(v) => if i64::MIN <= v <= i64::MAX {
            Some(v as i64)
        } else {
            None
        },
        None => None,
    }
}

/// The `usize` a text writes: its decimal value without a `-` sign, when that lies in the
/// range of `usize`.
pub open spec fn usize_value(s: Seq<char>) -> Option<usize> {
    if s.len() > 0 && s[0] == '-' {
        None
    } else {
        match decimal_value(s) {
            Some(v) => if 0 <= v <= usize::MAX {
                Some(v as usize)
            } else {
                None
            },
            None => None,
        }
    }
}

/// Whether every character of `s` is ASCII.
pub open spec fn all_ascii(s: Seq<char>) -> bool {
    forall|i: int| 0 <= i < s.len() ==> ascii(#[trigger] s[i])
}

/// The lowercase form of a text that holds a character beyond ASCII (the characters of
/// `str::to_lowercase` there).
pub uninterp spec fn lowercase_beyond_ascii(s: Seq<char>) -> Seq<char>;

/// The lowercase form of a text: an ASCII text has its letters lowered one by one.
pub open spec fn lowercase(s: Seq<char>) -> Seq<char> {
    if all_ascii(s) {
        s.map_values(|c: char| ascii_lower(c))
    } else {
        lowercase_beyond_ascii(s)
    }
}

/// What `str::parse::<i64>` gives for a text: the number, or the text of its error.
pub uninterp spec fn parse_i64(s: Seq<char>) -> Result<i64, Seq<char>>;

/// What `str::parse::<usize>` gives for a text: the number, or the text of its error.
pub uninterp spec fn parse_usize(s: Seq<char>) -> Result<usize, Seq<char>>;

/// The text of the error `str::parse::<i64>` gives for `s`.
pub open spec fn i64_parse_error(s: Seq<char>) -> Seq<char> {
    match parse_i64(s) {
        Err(m) => m,
        Ok(_) => Seq::empty(),
    }
}

/// The text of the error `str::parse::<usize>` gives for `s`.
pub open spec fn usize_parse_error(s: Seq<char>) -> Seq<char> {
    match parse_usize(s) {
        Err(m) => m,
        Ok(_) => Seq::empty(),
    }
}

/// Calls `char::is_alphabetic`, which answers whether `c` has the Unicode Alphabetic
/// property: among ASCII characters the letters have it; beyond ASCII the Unicode table is
/// not restated here, and the answer is named `alphabetic_beyond_ascii`.
#[verifier::external_body]
pub(crate) fn char_is_alphabetic(c: char) -> (r: bool)
    ensures
        ascii(c) ==> r == ascii_letter(c),
        !ascii(c) ==> r == alphabetic_beyond_ascii(c),
{
    c.is_alphabetic()
}

/// Calls `char::is_numeric`, which answers whether `c` is in one of the Unicode number
/// categories: among ASCII characters the digits are; beyond ASCII the answer is named
/// `numeric_beyond_ascii`.
#[verifier::external_body]
pub(crate) fn char_is_numeric(c: char) -> (r: bool)
    ensures
        ascii(c) ==> r == ascii_digit(c),
        !ascii(c) ==> r == numeric_beyond_ascii(c),
{
    c.is_numeric()
}

/// Calls `char::is_whitespace`, which answers whether `c` has the Unicode White_Space
/// property; `whitespace` lists the characters that have it.
#[verifier::external_body]
pub(crate) fn char_is_whitespace(c: char) -> (r: bool)
    ensures
        r == whitespace(c),
{
    c.is_whitespace()
}

/// Calls `char::is_alphanumeric`, which its documentation defines as
/// `is_alphabetic() || is_numeric()`.
#[verifier::external_body]
pub(crate) fn char_is_alphanumeric(c: char) -> (r: bool)
    ensures
        r == (alphabetic(c) || numeric(c)),
{
    c.is_alphanumeric()
}

/// Calls `str::to_lowercase`: an ASCII text comes back with `A` to `Z` lowered to `a` to `z`
/// and every other character kept; for a text with a character beyond ASCII the result is
/// named `lowercase_beyond_ascii`, since Unicode's case mappings are not restated here.
#[verifier::external_body]
pub(crate) fn str_to_lowercase(s: &str) -> (r: String)
    ensures
        all_ascii(s@) ==> r@ == s@.map_values(|c: char| ascii_lower(c)),
        !all_ascii(s@) ==> r@ == lowercase_beyond_ascii(s@),
{
    s.to_lowercase()
}

/// Calls `str::parse::<i64>`; on failure the error is turned into its display text. As
/// documented, it accepts an optional `+` or `-` sign followed by decimal digits, with a value
/// in the range of `i64`; the text of each error is left to the name `parse_i64`, since the
/// documentation does not give it.
#[verifier::external_body]
pub(crate) fn str_parse_i64(s: &str) -> (r: Result<i64, String>)
    ensures
        match r {
            Ok(v) => parse_i64(s@) == Ok::<i64, Seq<char>>(v),
            Err(m) => parse_i64(s@) == Err::<i64, Seq<char>>(m@),
        },
        r matches Ok(v) ==> i64_value(s@) == Some(v),
        r is Err ==> i64_value(s@) is None,
{
    match s.parse::<i64>() {
        Ok(v) => Ok(v),
        Err(e) => Err(e.to_string()),
    }
}

/// Calls `str::parse::<usize>`; on failure the error is turned into its display text. As
/// documented for unsigned integers, it accepts an optional `+` sign followed by decimal
/// digits, with a value in the range of `usize`; the text of each error is left to the name
/// `parse_usize`, since the documentation does not give it.
#[verifier::external_body]
pub(crate) fn str_parse_usize(s: &str) -> (r: Result<usize, String>)
    ensures
        match r {
            Ok(v) => parse_usize(s@) == Ok::<usize, Seq<char>>(v),
            Err(m) => parse_usize(s@) == Err::<usize, Seq<char>>(m@),
        },
        r matches Ok(v) ==> usize_value(s@) == Some(v),
        r is Err ==> usize_value(s@) is None,
{
    match s.parse::<usize>() {
        Ok(v) => Ok(v),
        Err(e) => Err(e.to_string()),
    }
}

/// Calls `String::push`, which appends one character.
#[verifier::external_body]
pub(crate) fn string_push(s: &mut String, c: char)
    ensures
        final(s)@ == old(s)@.push(c),
{
    s.push(c)
}

/// The character of a decimal digit.
pub open spec fn digit_char(d: int) -> char {
    seq!['0', '1', '2', '3', '4', '5', '6', '7', '8', '9'][d]
}

/// The decimal digits of a natural number, most significant first, without leading zeros.
pub open spec fn nat_decimal(n: nat) -> Seq<char>
    decreases n,
{
    if n < 10 {
        seq![digit_char(n as int)]
    } else {
        nat_decimal(n / 10).push(digit_char((n % 10) as int))
    }
}

/// How `{}` writes an integer: its decimal digits, after a minus sign when it is negative.
pub open spec fn decimal(n: int) -> Seq<char> {
    if n < 0 {
        seq!['-'] + nat_decimal((-n) as nat)
    } else {
        nat_decimal(n as nat)
    }
}

/// `n` spaces.
pub open spec fn spaces(n: nat) -> Seq<char> {
    Seq::new(n, |i: int| ' ')
}

/// The character of the decimal digit `d`.
fn digit(d: u64) -> (c: char)
    requires
        d < 10,
    ensures
        c == digit_char(d as int),
{
    if d == 0 {
        '0'
    } else if d == 1 {
        '1'
    } else if d == 2 {
        '2'
    } else if d == 3 {
        '3'
    } else if d == 4 {
        '4'
    } else if d == 5 {
        '5'
    } else if d == 6 {
        '6'
    } else if d == 7 {
        '7'
    } else if d == 8 {
        '8'
    } else {
        '9'
    }
}

/// Appends the decimal digits of `n`.
pub(crate) fn push_nat(out: &mut String, n: u64)
    ensures
        final(out)@ == old(out)@ + nat_decimal(n as nat),
    decreases n,
{
    if n < 10 {
        string_push(out, digit(n));
        proof {
            assert(old(out)@.push(digit_char(n as int)) =~= old(out)@ + nat_decimal(n as nat));
        }
    } else {
        push_nat(out, n / 10);
        string_push(out, digit(n % 10));
        proof {
            assert(old(out)@ + nat_decimal((n / 10) as nat) + seq![digit_char((n % 10) as int)]
                =~= old(out)@ + nat_decimal(n as nat));
        }
    }
}

/// Appends how `{}` writes the integer `n`.
pub(crate) fn push_i64(out: &mut String, n: i64)
    ensures
        final(out)@ == old(out)@ + decimal(n as int),
{
    if n < 0 {
        string_push(out, '-');
        let magnitude: u64 = ((-(n + 1)) as u64) + 1;
        let ghost mid = out@;
        push_nat(out, magnitude);
        proof {
            assert(old(out)@ + (seq!['-'] + nat_decimal(magnitude as nat)) =~= mid + nat_decimal(
                magnitude as nat,
            ));
        }
    } else {
        push_nat(out, n as u64);
    }
}

/// Appends how `{}` writes the index `n`.
pub(crate) fn push_usize(out: &mut String, n: usize)
    ensures
        final(out)@ == old(out)@ + decimal(n as int),
{
    push_nat(out, n as u64);
}

/// Appends `n` spaces.
pub(crate) fn push_spaces(out: &mut String, n: usize)
    ensures
        final(out)@ == old(out)@ + spaces(n as nat),
{
    let mut i: usize = 0;
    while i < n
        invariant
            i <= n,
            out@ == old(out)@ + spaces(i as nat),
        decreases n - i,
    {
        string_push(out, ' ');
        i = i + 1;
        proof {
            assert(old(out)@ + spaces((i - 1) as nat) + seq![' '] =~= old(out)@ + spaces(i as nat));
        }
    }
}


/// A decimal digit's character is the ASCII digit of that value.
pub proof fn lemma_digit_char(d: int)
    requires
        0 <= d < 10,
    ensures
        ascii_digit(digit_char(d)),
        digit_char(d) as u32 == 0x30 + d,
{
    if d == 0 {
        assert(digit_char(d) == '0');
    } else if d == 1 {
        assert(digit_char(d) == '1');
    } else if d == 2 {
        assert(digit_char(d) == '2');
    } else if d == 3 {
        assert(digit_char(d) == '3');
    } else if d == 4 {
        assert(digit_char(d) == '4');
    } else if d == 5 {
        assert(digit_char(d) == '5');
    } else if d == 6 {
        assert(digit_char(d) == '6');
    } else if d == 7 {
        assert(digit_char(d) == '7');
    } else if d == 8 {
        assert(digit_char(d) == '8');
    } else {
        assert(digit_char(d) == '9');
    }
}

/// The decimal digits of `n` are ASCII digits whose value is `n`.
pub proof fn lemma_nat_decimal(n: nat)
    ensures
        all_digits(nat_decimal(n)),
        digits_value(nat_decimal(n)) == n,
    decreases n,
{
    let d = nat_decimal(n);
    if n < 10 {
        lemma_digit_char(n as int);
        assert(d.drop_last() =~= Seq::<char>::empty());
        assert(d.last() == digit_char(n as int));
        assert(digits_value(d) == digits_value(d.drop_last()) * 10 + ((d.last() as u32) - 0x30));
    } else {
        lemma_nat_decimal(n / 10);
        lemma_digit_char((n % 10) as int);
        assert(d.drop_last() =~= nat_decimal(n / 10));
        assert(d.last() == digit_char((n % 10) as int));
        assert(digits_value(d) == digits_value(d.drop_last()) * 10 + ((d.last() as u32) - 0x30));
        assert(n == (n / 10) * 10 + n % 10) by (nonlinear_arith);
    }
}

/// How `{}` writes a number that `i64` holds is read back as that number.
pub proof fn lemma_i64_value_of_decimal(n: i64)
    requires
        n >= 0,
    ensures
        i64_value(decimal(n as int)) == Some(n),
{
    lemma_nat_decimal(n as nat);
    let d = nat_decimal(n as nat);
    assert(ascii_digit(d[0]));
}

/// How `{}` writes a `usize` is read back as that number.
pub proof fn lemma_usize_value_of_decimal(n: usize)
    ensures
        usize_value(decimal(n as int)) == Some(n),
{
    lemma_nat_decimal(n as nat);
    let d = nat_decimal(n as nat);
    assert(ascii_digit(d[0]));
}

} // verus!
