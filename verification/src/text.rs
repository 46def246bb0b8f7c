//! Small text and byte helpers shared by the rest of the crate: ASCII case
//! folding, Unicode whitespace trimming, decimal rendering and lossy UTF-8.
use vstd::prelude::*;
use vstd::string::StringExecFns;

verus! {

/// ASCII lower-casing of one byte; every other byte is left alone.
pub open spec fn lower_byte(b: u8) -> u8 {
    if 65 <= b <= 90 {
        (b + 32) as u8
    } else {
        b
    }
}

/// ASCII lower-casing of one character; every other character is left alone.
pub open spec fn lower_char(c: char) -> char {
    if 'A' <= c <= 'Z' {
        ((c as u32) + 32) as char
    } else {
        c
    }
}

/// Two byte strings are equal up to ASCII case.
pub open spec fn bytes_eq_ignore_case(a: Seq<u8>, b: Seq<u8>) -> bool {
    &&& a.len() == b.len()
    &&& forall|i: int| 0 <= i < a.len() ==> lower_byte(#[trigger] a[i]) == lower_byte(b[i])
}

/// Two character strings are equal up to ASCII case.
pub open spec fn chars_eq_ignore_case(a: Seq<char>, b: Seq<char>) -> bool {
    &&& a.len() == b.len()
    &&& forall|i: int| 0 <= i < a.len() ==> lower_char(#[trigger] a[i]) == lower_char(b[i])
}

/// The byte string with every ASCII upper-case letter lowered.
pub open spec fn lower_bytes(a: Seq<u8>) -> Seq<u8> {
    a.map_values(|b: u8| lower_byte(b))
}

pub fn lower_byte_exec(b: u8) -> (r: u8)
    ensures
        r == lower_byte(b),
{
    if 65 <= b && b <= 90 {
        b + 32
    } else {
        b
    }
}

pub fn lower_char_exec(c: char) -> (r: char)
    ensures
        r == lower_char(c),
{
    if 'A' <= c && c <= 'Z' {
        let code: u32 = c as u32;
        assert(65 <= code <= 90);
        let lowered: u8 = (code + 32) as u8;
        lowered as char
    } else {
        c
    }
}

/// Compares two byte strings, ignoring ASCII case.
pub fn bytes_equal_ignore_case(a: &Vec<u8>, b: &Vec<u8>) -> (r: bool)
    ensures
        r == bytes_eq_ignore_case(a@, b@),
{
    if a.len() != b.len() {
        return false;
    }
    let mut i: usize = 0;
    while i < a.len()
        invariant
            a.len() == b.len(),
            i <= a.len(),
            forall|k: int| 0 <= k < i ==> lower_byte(#[trigger] a@[k]) == lower_byte(b@[k]),
        decreases a.len() - i,
    {
        if lower_byte_exec(a[i]) != lower_byte_exec(b[i]) {
            return false;
        }
        i = i + 1;
    }
    true
}

/// Compares two strings, ignoring ASCII case.
pub fn str_equal_ignore_case(a: &str, b: &str) -> (r: bool)
    ensures
        r == chars_eq_ignore_case(a@, b@),
{
    let n = a.unicode_len();
    let m = b.unicode_len();
    if n != m {
        return false;
    }
    let mut i: usize = 0;
    while i < n
        invariant
            n == a@.len(),
            m == b@.len(),
            n == m,
            i <= n,
            forall|k: int| 0 <= k < i ==> lower_char(#[trigger] a@[k]) == lower_char(b@[k]),
        decreases n - i,
    {
        if lower_char_exec(a.get_char(i)) != lower_char_exec(b.get_char(i)) {
            return false;
        }
        i = i + 1;
    }
    true
}

/// Whether two strings hold the same characters.
pub fn str_equal(a: &str, b: &str) -> (r: bool)
    ensures
        r == (a@ == b@),
{
    let n = a.unicode_len();
    let m = b.unicode_len();
    if n != m {
        return false;
    }
    let mut i: usize = 0;
    while i < n
        invariant
            n == a@.len(),
            m == b@.len(),
            n == m,
            i <= n,
            forall|k: int| 0 <= k < i ==> a@[k] == b@[k],
        decreases n - i,
    {
        if a.get_char(i) != b.get_char(i) {
            return false;
        }
        i = i + 1;
    }
    assert(a@ =~= b@);
    true
}

/// Lower-cases the ASCII letters of a byte string.
pub fn lowercase_bytes(a: &Vec<u8>) -> (r: Vec<u8>)
    ensures
        r@ == lower_bytes(a@),
{
    let mut r: Vec<u8> = Vec::new();
    let mut i: usize = 0;
    while i < a.len()
        invariant
            i <= a.len(),
            r@ == lower_bytes(a@.subrange(0, i as int)),
        decreases a.len() - i,
    {
        r.push(lower_byte_exec(a[i]));
        i = i + 1;
        assert(lower_bytes(a@.subrange(0, i as int)) =~= lower_bytes(a@.subrange(0, i - 1)).push(
            lower_byte(a@[i - 1]),
        ));
    }
    assert(a@.subrange(0, a.len() as int) =~= a@);
    r
}

/// The characters that `char::is_whitespace` accepts (Unicode White_Space).
pub open spec fn is_space(c: char) -> bool {
    ||| '\u{9}' <= c <= '\u{d}'
    ||| c == ' '
    ||| c == '\u{85}'
    ||| c == '\u{a0}'
    ||| c == '\u{1680}'
    ||| '\u{2000}' <= c <= '\u{200a}'
    ||| c == '\u{2028}'
    ||| c == '\u{2029}'
    ||| c == '\u{202f}'
    ||| c == '\u{205f}'
    ||| c == '\u{3000}'
}

pub fn is_space_exec(c: char) -> (r: bool)
    ensures
        r == is_space(c),
{
    ('\u{9}' <= c && c <= '\u{d}') || c == ' ' || c == '\u{85}' || c == '\u{a0}' || c
        == '\u{1680}' || ('\u{2000}' <= c && c <= '\u{200a}') || c == '\u{2028}' || c == '\u{2029}'
        || c == '\u{202f}' || c == '\u{205f}' || c == '\u{3000}'
}

/// Number of leading whitespace characters of `s`.
pub open spec fn leading_space(s: Seq<char>) -> nat
    decreases s.len(),
{
    if s.len() > 0 && is_space(s[0]) {
        1 + leading_space(s.drop_first())
    } else {
        0
    }
}

/// Number of trailing whitespace characters of `s`.
pub open spec fn trailing_space(s: Seq<char>) -> nat
    decreases s.len(),
{
    if s.len() > 0 && is_space(s.last()) {
        1 + trailing_space(s.drop_last())
    } else {
        0
    }
}

/// `str::trim`: the text without its leading and trailing whitespace.
pub open spec fn trim(s: Seq<char>) -> Seq<char> {
    let front = s.skip(leading_space(s) as int);
    front.take(front.len() - trailing_space(front))
}

proof fn lemma_leading_space_bound(s: Seq<char>)
    ensures
        leading_space(s) <= s.len(),
        forall|k: int| 0 <= k < leading_space(s) ==> is_space(#[trigger] s[k]),
        leading_space(s) < s.len() ==> !is_space(s[leading_space(s) as int]),
    decreases s.len(),
{
    if s.len() > 0 && is_space(s[0]) {
        lemma_leading_space_bound(s.drop_first());
        assert forall|k: int| 0 <= k < leading_space(s) implies is_space(#[trigger] s[k]) by {
            if k > 0 {
                assert(s[k] == s.drop_first()[k - 1]);
            }
        }
    }
}

proof fn lemma_trailing_space_bound(s: Seq<char>)
    ensures
        trailing_space(s) <= s.len(),
        forall|k: int| s.len() - trailing_space(s) <= k < s.len() ==> is_space(#[trigger] s[k]),
        trailing_space(s) < s.len() ==> !is_space(s[s.len() - trailing_space(s) - 1]),
    decreases s.len(),
{
    if s.len() > 0 && is_space(s.last()) {
        lemma_trailing_space_bound(s.drop_last());
        assert forall|k: int| s.len() - trailing_space(s) <= k < s.len() implies is_space(
            #[trigger] s[k],
        ) by {
            if k < s.len() - 1 {
                assert(s[k] == s.drop_last()[k]);
            }
        }
    }
}

proof fn lemma_leading_space_from(s: Seq<char>, i: int)
    requires
        0 <= i <= s.len(),
        forall|k: int| 0 <= k < i ==> is_space(#[trigger] s[k]),
        i == s.len() || !is_space(s[i]),
    ensures
        leading_space(s) == i,
    decreases i,
{
    if i > 0 {
        assert forall|k: int| 0 <= k < i - 1 implies is_space(#[trigger] s.drop_first()[k]) by {
            assert(s.drop_first()[k] == s[k + 1]);
        }
        if i - 1 < s.drop_first().len() {
            assert(s.drop_first()[i - 1] == s[i]);
        }
        lemma_leading_space_from(s.drop_first(), i - 1);
    }
}

proof fn lemma_trailing_space_from(s: Seq<char>, j: int)
    requires
        0 <= j <= s.len(),
        forall|k: int| j <= k < s.len() ==> is_space(#[trigger] s[k]),
        j == 0 || !is_space(s[j - 1]),
    ensures
        trailing_space(s) == s.len() - j,
    decreases s.len() - j,
{
    if j < s.len() {
        assert forall|k: int| j <= k < s.drop_last().len() implies is_space(
            #[trigger] s.drop_last()[k],
        ) by {
            assert(s.drop_last()[k] == s[k]);
        }
        if j > 0 {
            assert(s.drop_last()[j - 1] == s[j - 1]);
        }
        lemma_trailing_space_from(s.drop_last(), j);
    }
}

/// The bounds `[start, end)` of `s` that `trim` keeps.
pub proof fn lemma_trim_bounds(s: Seq<char>, start: int, end: int)
    requires
        0 <= start <= end <= s.len(),
        forall|k: int| 0 <= k < start ==> is_space(#[trigger] s[k]),
        forall|k: int| end <= k < s.len() ==> is_space(#[trigger] s[k]),
        start == end || (!is_space(s[start]) && !is_space(s[end - 1])),
        start == end ==> end == s.len(),
    ensures
        trim(s) == s.subrange(start, end),
{
    lemma_leading_space_from(s, start);
    let front = s.skip(start);
    if start == end {
        assert(front.len() == 0);
        lemma_trailing_space_from(front, 0);
        assert(trim(s) =~= s.subrange(start, end));
    } else {
        assert forall|k: int| end - start <= k < front.len() implies is_space(#[trigger] front[k]) by {
            assert(front[k] == s[k + start]);
        }
        assert(front[end - start - 1] == s[end - 1]);
        lemma_trailing_space_from(front, end - start);
        assert(trim(s) =~= s.subrange(start, end));
    }
}

/// Trimming twice is trimming once.
pub proof fn lemma_trim_idempotent(s: Seq<char>)
    ensures
        trim(trim(s)) == trim(s),
{
    lemma_leading_space_bound(s);
    let front = s.skip(leading_space(s) as int);
    lemma_trailing_space_bound(front);
    let t = trim(s);
    if t.len() == 0 {
        lemma_trim_bounds(t, 0, 0);
        assert(t.subrange(0, 0) =~= t);
    } else {
        assert(t[0] == front[0]);
        assert(front[0] == s[leading_space(s) as int]);
        assert(t[t.len() - 1] == front[front.len() - trailing_space(front) - 1]);
        lemma_trim_bounds(t, 0, t.len() as int);
        assert(t.subrange(0, t.len() as int) =~= t);
    }
}

/// `str::trim` on a character sequence held in a vector.
pub fn trim_chars(s: &Vec<char>) -> (r: Vec<char>)
    ensures
        r@ == trim(s@),
{
    let n = s.len();
    let mut start: usize = 0;
    while start < n && is_space_exec(s[start])
        invariant
            n == s.len(),
            start <= n,
            forall|k: int| 0 <= k < start ==> is_space(#[trigger] s@[k]),
        decreases n - start,
    {
        start = start + 1;
    }
    let mut end: usize = n;
    while end > start && is_space_exec(s[end - 1])
        invariant
            n == s.len(),
            start <= end <= n,
            forall|k: int| end <= k < n ==> is_space(#[trigger] s@[k]),
        decreases end - start,
    {
        end = end - 1;
    }
    let mut r: Vec<char> = Vec::new();
    let mut i: usize = start;
    while i < end
        invariant
            n == s.len(),
            start <= i <= end <= n,
            r@ == s@.subrange(start as int, i as int),
        decreases end - i,
    {
        r.push(s[i]);
        i = i + 1;
        assert(r@ =~= s@.subrange(start as int, i as int));
    }
    proof {
        if start == end && start < n {
            // the first loop stopped on a non-space, so the second cannot reach it
            assert(false);
        }
        lemma_trim_bounds(s@, start as int, end as int);
    }
    r
}

/// The characters of a string slice, in order.
pub fn chars_of(s: &str) -> (r: Vec<char>)
    ensures
        r@ == s@,
{
    let n = s.unicode_len();
    let mut r: Vec<char> = Vec::new();
    let mut i: usize = 0;
    while i < n
        invariant
            n == s@.len(),
            i <= n,
            r@ == s@.subrange(0, i as int),
        decreases n - i,
    {
        r.push(s.get_char(i));
        i = i + 1;
        assert(r@ =~= s@.subrange(0, i as int));
    }
    assert(s@.subrange(0, n as int) =~= s@);
    r
}

/// Appends one character to a string (`String::push`).
#[verifier::external_body]
pub(crate) fn push_char(s: &mut String, c: char)
    ensures
        final(s)@ == old(s)@.push(c),
{
    s.push(c)
}

/// A string holding exactly the given characters.
pub fn string_from_chars(cs: &Vec<char>) -> (r: String)
    ensures
        r@ == cs@,
{
    let mut r = String::new();
    let mut i: usize = 0;
    while i < cs.len()
        invariant
            i <= cs.len(),
            r@ == cs@.subrange(0, i as int),
        decreases cs.len() - i,
    {
        push_char(&mut r, cs[i]);
        i = i + 1;
        assert(r@ =~= cs@.subrange(0, i as int));
    }
    assert(cs@.subrange(0, cs.len() as int) =~= cs@);
    r
}

/// A fresh string with the contents of `s`.
pub fn string_of(s: &str) -> (r: String)
    ensures
        r@ == s@,
{
    String::from_str(s)
}

/// Appends `tail` to `s`.
pub fn append_str(s: &mut String, tail: &str)
    ensures
        final(s)@ == old(s)@ + tail@,
{
    s.append(tail);
}

/// The decimal digit character for `d < 10`.
pub open spec fn digit_char(d: nat) -> char {
    ((48 + d) as u32) as char
}

/// Decimal notation of a natural number, as `usize::to_string` writes it.
pub open spec fn decimal(n: nat) -> Seq<char>
    decreases n,
{
    if n < 10 {
        seq![digit_char(n)]
    } else {
        decimal(n / 10).push(digit_char(n % 10))
    }
}

/// Writes `n` in decimal.
pub fn decimal_string(n: usize) -> (r: String)
    ensures
        r@ == decimal(n as nat),
{
    // digits are collected least significant first
    let mut rev: Vec<char> = Vec::new();
    let mut m: usize = n;
    let ghost mut done: Seq<char> = Seq::empty();
    loop
        invariant_except_break
            rev.len() > 0 ==> m > 0,
        invariant
            m <= n,
            rev.len() == 0 ==> m == n,
            rev.len() > 0 ==> decimal(n as nat) == decimal_with_tail(m as nat, rev@.reverse()),
        ensures
            rev.len() > 0,
            m == 0,
        decreases m,
    {
        let d: usize = m % 10;
        let c: char = ((48 + d) as u8) as char;
        proof {
            assert(c == digit_char(d as nat));
            if rev.len() == 0 {
                lemma_decimal_split(m as nat);
            } else {
                lemma_decimal_with_tail_split(m as nat, rev@.reverse());
            }
        }
        let ghost old_rev = rev@;
        rev.push(c);
        proof {
            assert(rev@.reverse() =~= seq![c] + old_rev.reverse());
            if old_rev.len() == 0 {
                assert(old_rev.reverse() =~= Seq::<char>::empty());
                assert(seq![c] + old_rev.reverse() =~= seq![c]);
            }
        }
        m = m / 10;
        if m == 0 {
            break;
        }
    }
    let mut out: Vec<char> = Vec::new();
    let mut i: usize = rev.len();
    while i > 0
        invariant
            i <= rev.len(),
            out@ == rev@.reverse().subrange(0, rev.len() - i),
        decreases i,
    {
        i = i - 1;
        out.push(rev[i]);
        assert(out@ =~= rev@.reverse().subrange(0, rev.len() - i));
    }
    proof {
        assert(out@ =~= rev@.reverse());
        lemma_decimal_with_tail_zero(rev@.reverse());
    }
    string_from_chars(&out)
}

/// Decimal notation of `m` followed by already written digits `tail`;
/// `m == 0` stands for "no more leading digits".
pub open spec fn decimal_with_tail(m: nat, tail: Seq<char>) -> Seq<char> {
    if m == 0 {
        tail
    } else {
        decimal(m) + tail
    }
}

proof fn lemma_decimal_split(m: nat)
    ensures
        decimal(m) == decimal_with_tail(m / 10, seq![digit_char(m % 10)]),
{
    if m >= 10 {
        assert(decimal(m) =~= decimal(m / 10) + seq![digit_char(m % 10)]);
    } else {
        assert(m / 10 == 0);
        assert(m % 10 == m);
    }
}

proof fn lemma_decimal_with_tail_split(m: nat, tail: Seq<char>)
    requires
        m > 0,
    ensures
        decimal_with_tail(m, tail) == decimal_with_tail(m / 10, seq![digit_char(m % 10)] + tail),
{
    lemma_decimal_split(m);
    if m >= 10 {
        assert(decimal(m) + tail =~= decimal(m / 10) + (seq![digit_char(m % 10)] + tail));
    } else {
        assert(decimal(m) + tail =~= seq![digit_char(m % 10)] + tail);
    }
}

proof fn lemma_decimal_with_tail_zero(tail: Seq<char>)
    ensures
        decimal_with_tail(0, tail) == tail,
{
}

/// What `String::from_utf8_lossy` gives for bytes that are not valid UTF-8
/// (each invalid sequence becomes U+FFFD); it depends on the bytes alone.
pub uninterp spec fn lossy_replacement(bytes: Seq<u8>) -> Seq<char>;

/// Lossy UTF-8 decoding: valid UTF-8 decodes exactly; otherwise invalid
/// sequences are replaced.
pub open spec fn lossy_utf8(bytes: Seq<u8>) -> Seq<char> {
    if vstd::utf8::valid_utf8(bytes) {
        vstd::utf8::decode_utf8(bytes)
    } else {
        lossy_replacement(bytes)
    }
}

/// Decodes bytes as UTF-8, replacing invalid sequences (`String::from_utf8_lossy`).
/// The contract states that valid UTF-8 decodes exactly, as the documentation
/// promises, and only names the result for other bytes.
#[verifier::external_body]
pub(crate) fn lossy_text(bytes: &Vec<u8>) -> (r: String)
    ensures
        vstd::utf8::valid_utf8(bytes@) ==> r@ == vstd::utf8::decode_utf8(bytes@),
        !vstd::utf8::valid_utf8(bytes@) ==> r@ == lossy_replacement(bytes@),
{
    String::from_utf8_lossy(bytes).into_owned()
}

/// The UTF-8 encoding of a string.
pub fn utf8_bytes(s: &String) -> (r: Vec<u8>)
    ensures
        r@ == vstd::utf8::encode_utf8(s@),
{
    let b = s.as_str().as_bytes();
    let mut r: Vec<u8> = Vec::new();
    let mut i: usize = 0;
    while i < b.len()
        invariant
            i <= b@.len(),
            r@ == b@.subrange(0, i as int),
        decreases b@.len() - i,
    {
        r.push(b[i]);
        i = i + 1;
        assert(r@ =~= b@.subrange(0, i as int));
    }
    assert(b@.subrange(0, b@.len() as int) =~= b@);
    r
}

// ---------------------------------------------------------------------------
// Facts about UTF-8 encoding
// ---------------------------------------------------------------------------
/// Encoding distributes over concatenation.
pub proof fn lemma_encode_utf8_concat(a: Seq<char>, b: Seq<char>)
    ensures
        vstd::utf8::encode_utf8(a + b) == vstd::utf8::encode_utf8(a) + vstd::utf8::encode_utf8(b),
    decreases a.len(),
{
    if a.len() == 0 {
        assert(a + b =~= b);
    } else {
        assert((a + b)[0] == a[0]);
        assert((a + b).drop_first() =~= a.drop_first() + b);
        lemma_encode_utf8_concat(a.drop_first(), b);
    }
}

proof fn lemma_encode_scalar_no_slash(v: u32)
    requires
        v != 47,
        v <= 0x10FFFF,
    ensures
        !vstd::utf8::encode_scalar(v).contains(47u8),
{
    let e = vstd::utf8::encode_scalar(v);
    if e.contains(47u8) {
        let k = choose|k: int| 0 <= k < e.len() && e[k] == 47u8;
        if vstd::utf8::has_width_1_encoding(v) {
            assert(((v & 0x7F) as u8) != 47u8) by (bit_vector)
                requires
                    v <= 0x7F,
                    v != 47,
            ;
        } else {
            assert(forall|x: u32| #![auto] (0xC0u8 | ((x >> 6) & 0x1F) as u8) != 47u8) by (bit_vector);
            assert(forall|x: u32| #![auto] (0xE0u8 | ((x >> 12) & 0x0F) as u8) != 47u8) by (bit_vector);
            assert(forall|x: u32| #![auto] (0xF0u8 | ((x >> 18) & 0x7) as u8) != 47u8) by (bit_vector);
            assert(forall|x: u32| #![auto] (0x80u8 | (x & 0x3F) as u8) != 47u8) by (bit_vector);
            assert(forall|x: u32| #![auto] (0x80u8 | ((x >> 6) & 0x3F) as u8) != 47u8) by (bit_vector);
            assert(forall|x: u32| #![auto] (0x80u8 | ((x >> 12) & 0x3F) as u8) != 47u8) by (bit_vector);
        }
    }
}

/// Text without `/` encodes to bytes without the byte of `/`.
pub proof fn lemma_encode_utf8_no_slash(cs: Seq<char>)
    requires
        !cs.contains('/'),
    ensures
        !vstd::utf8::encode_utf8(cs).contains(47u8),
    decreases cs.len(),
{
    if cs.len() > 0 {
        assert(cs[0] != '/');
        vstd::utf8::char_is_scalar(cs[0]);
        vstd::utf8::char_u32_cast(cs[0], cs[0] as u32);
        vstd::utf8::char_u32_cast('/', '/' as u32);
        assert(cs[0] as u32 != 47);
        lemma_encode_scalar_no_slash(cs[0] as u32);
        if cs.drop_first().contains('/') {
            let k = choose|k: int| 0 <= k < cs.drop_first().len() && cs.drop_first()[k] == '/';
            assert(cs[k + 1] == '/');
        }
        lemma_encode_utf8_no_slash(cs.drop_first());
        let a = vstd::utf8::encode_scalar(cs[0] as u32);
        let b = vstd::utf8::encode_utf8(cs.drop_first());
        if (a + b).contains(47u8) {
            let k = choose|k: int| 0 <= k < (a + b).len() && (a + b)[k] == 47u8;
            if k < a.len() {
                assert(a[k] == 47u8);
            } else {
                assert(b[k - a.len()] == 47u8);
            }
        }
    }
}

/// Decimal notation holds digits only.
pub proof fn lemma_decimal_digits(n: nat)
    ensures
        forall|i: int| 0 <= i < decimal(n).len() ==> '0' <= #[trigger] decimal(n)[i] <= '9',
    decreases n,
{
    let d = n % 10;
    let c = digit_char(d);
    assert(('0' as u32) == 48 && ('9' as u32) == 57);
    assert((c as u32) == 48 + d);
    if n >= 10 {
        lemma_decimal_digits(n / 10);
        let prev = decimal(n / 10);
        assert(decimal(n) == prev.push(c));
        assert forall|i: int| 0 <= i < decimal(n).len() implies '0' <= #[trigger] decimal(n)[i]
            <= '9' by {
            if i < prev.len() {
                assert(decimal(n)[i] == prev[i]);
            }
        }
    } else {
        assert(decimal(n) == seq![c]);
    }
}

} // verus!
