//! Text as sequences of characters: decimal numbers, byte lengths, clipping,
//! ordering and ASCII case folding.
use vstd::prelude::*;
use vstd::utf8::{
    decode_utf8, decode_utf8_split, encode_utf8, encode_utf8_decode_utf8, encode_utf8_valid_utf8,
    is_char_boundary, is_char_boundary_start_end_of_seq, valid_utf8, valid_utf8_split,
};

verus! {

/// `String::push` appends one character to the end of the string.
pub assume_specification[ String::push ](s: &mut String, c: char)
    ensures
        final(s)@ == old(s)@.push(c),
;

/// The characters of `s`, in order.
pub fn chars_of(s: &str) -> (chars: Vec<char>)
    ensures
        chars@ == s@,
{
    let mut chars: Vec<char> = Vec::new();
    for c in it: s.chars()
        invariant
            chars@ == s@.take(it.index()),
            it.seq() == s@,
    {
        chars.push(c);
    }
    chars
}

/// The text made of `chars[from..to]`.
pub fn text_of(chars: &Vec<char>, from: usize, to: usize) -> (text: String)
    requires
        from <= to <= chars@.len(),
    ensures
        text@ == chars@.subrange(from as int, to as int),
{
    let mut text = String::new();
    let mut i: usize = from;
    while i < to
        invariant
            from <= i <= to <= chars@.len(),
            text@ == chars@.subrange(from as int, i as int),
        decreases to - i,
    {
        text.push(chars[i]);
        i += 1;
        assert(text@ =~= chars@.subrange(from as int, i as int));
    }
    text
}

/// Whether two texts hold the same characters.
pub fn same_text(a: &str, b: &str) -> (same: bool)
    ensures
        same == (a@ == b@),
{
    let left: String = a.to_owned();
    let right: String = b.to_owned();
    left == right
}

/// A copy of an optional text.
pub fn copied(text: &Option<String>) -> (copy: Option<String>)
    ensures
        copy == *text,
{
    match text {
        Some(t) => Some(t.clone()),
        None => None,
    }
}

/// An optional text seen as characters.
pub open spec fn optional(text: Option<String>) -> Option<Seq<char>> {
    match text {
        Some(t) => Some(t@),
        None => None,
    }
}

/// The texts of a list of strings.
pub open spec fn texts(list: Seq<String>) -> Seq<Seq<char>> {
    list.map_values(|s: String| s@)
}

// ---------------------------------------------------------------------------
// Decimal numbers
// ---------------------------------------------------------------------------

/// The character of a decimal digit.
pub open spec fn digit_char(d: int) -> char {
    (48 + d) as char
}

/// The decimal digits of `n`, without leading zeros.
pub open spec fn digits(n: nat) -> Seq<char>
    decreases n,
{
    if n < 10 {
        seq![digit_char(n as int)]
    } else {
        digits(n / 10).push(digit_char((n % 10) as int))
    }
}

/// `n` in decimal notation, with a leading `-` when it is negative.
pub open spec fn decimal(n: int) -> Seq<char> {
    if n < 0 {
        seq!['-'] + digits((-n) as nat)
    } else {
        digits(n as nat)
    }
}

/// Appends `n` in decimal notation.
pub fn push_natural(out: &mut String, n: u64)
    ensures
        final(out)@ == old(out)@ + digits(n as nat),
    decreases n,
{
    if n >= 10 {
        push_natural(out, n / 10);
    }
    let d: u8 = (n % 10) as u8;
    out.push((48 + d) as char);
    proof {
        assert(out@ =~= old(out)@ + digits(n as nat));
    }
}

/// Appends `n` in decimal notation.
pub fn push_integer(out: &mut String, n: i64)
    ensures
        final(out)@ == old(out)@ + decimal(n as int),
{
    if n >= 0 {
        push_natural(out, n as u64);
    } else {
        out.push('-');
        let magnitude: u64 = (-(n as i128)) as u64;
        push_natural(out, magnitude);
        proof {
            assert(out@ =~= old(out)@ + decimal(n as int));
        }
    }
}

/// Whether `c` is one of `0` to `9`.
pub open spec fn is_digit(c: char) -> bool {
    '0' <= c && c <= '9'
}

/// The number that a run of digits denotes.
pub open spec fn digits_value(s: Seq<char>) -> int
    decreases s.len(),
{
    if s.len() == 0 {
        0
    } else {
        10 * digits_value(s.drop_last()) + (s.last() as int - 48)
    }
}

/// The text after an optional sign.
pub open spec fn unsigned_part(s: Seq<char>) -> Seq<char> {
    if s.len() > 0 && (s[0] == '-' || s[0] == '+') {
        s.drop_first()
    } else {
        s
    }
}

/// The integer that `s` denotes: an optional sign, then one or more digits and
/// nothing else. `None` when `s` has another form or the integer does not fit
/// in 64 bits.
pub open spec fn integer_value(s: Seq<char>) -> Option<i64> {
    let body = unsigned_part(s);
    let magnitude = digits_value(body);
    let value = if s.len() > 0 && s[0] == '-' {
        -magnitude
    } else {
        magnitude
    };
    if body.len() > 0 && (forall|i: int| 0 <= i < body.len() ==> is_digit(#[trigger] body[i]))
        && i64::MIN <= value <= i64::MAX {
        Some(value as i64)
    } else {
        None
    }
}

/// Reads an integer; see [`integer_value`].
pub fn parse_integer(text: &str) -> (value: Option<i64>)
    ensures
        value == integer_value(text@),
{
    let chars = chars_of(text);
    let negative: bool = chars.len() > 0 && chars[0] == '-';
    let start: usize = if chars.len() > 0 && (chars[0] == '-' || chars[0] == '+') {
        1
    } else {
        0
    };
    let ghost body = unsigned_part(text@);
    proof {
        assert(body =~= text@.skip(start as int));
    }
    if start == chars.len() {
        return None;
    }
    let limit: i128 = 0x8000_0000_0000_0000;
    let mut magnitude: i128 = 0;
    let mut i: usize = start;
    while i < chars.len()
        invariant
            start <= i <= chars@.len(),
            start <= 1,
            chars@ == text@,
            body == text@.skip(start as int),
            body == unsigned_part(text@),
            limit == 0x8000_0000_0000_0000,
            0 <= magnitude,
            magnitude <= 10 * limit + 9,
            forall|j: int| 0 <= j < i - start ==> is_digit(#[trigger] body[j]),
            magnitude <= limit ==> magnitude == digits_value(body.take(i - start)),
            magnitude > limit ==> digits_value(body.take(i - start)) > limit,
        decreases chars@.len() - i,
    {
        let c: char = chars[i];
        let ghost k = i - start;
        assert(body[k] == c);
        if !(c >= '0' && c <= '9') {
            assert(!is_digit(body[k]));
            return None;
        }
        proof {
            assert(body.take(k + 1).drop_last() =~= body.take(k));
            assert(body.take(k + 1).last() == c);
        }
        if magnitude <= limit {
            magnitude = magnitude * 10 + (c as u32 - 48) as i128;
        }
        i += 1;
    }
    proof {
        assert(body.take(body.len() as int) =~= body);
    }
    if negative {
        if magnitude <= limit {
            Some((-magnitude) as i64)
        } else {
            None
        }
    } else if magnitude < limit {
        Some(magnitude as i64)
    } else {
        None
    }
}

proof fn lemma_digits_denote(n: nat)
    ensures
        digits(n).len() > 0,
        forall|i: int| 0 <= i < digits(n).len() ==> is_digit(#[trigger] digits(n)[i]),
        digits_value(digits(n)) == n,
    decreases n,
{
    if n < 10 {
        reveal_with_fuel(digits_value, 2);
        assert(digits(n).drop_last() =~= Seq::<char>::empty());
    } else {
        lemma_digits_denote(n / 10);
        assert(digits(n).drop_last() =~= digits(n / 10));
    }
}

/// Law: reading a 64-bit integer in decimal notation gives the integer back.
pub proof fn law_decimal_reads_back(n: i64)
    ensures
        integer_value(decimal(n as int)) == Some(n),
{
    let text = decimal(n as int);
    if n < 0 {
        let magnitude = (-n) as nat;
        lemma_digits_denote(magnitude);
        assert(unsigned_part(text) =~= digits(magnitude));
    } else {
        lemma_digits_denote(n as nat);
        assert(is_digit(text[0]));
        assert(unsigned_part(text) == text);
    }
}

/// Law: two integers with the same decimal notation are equal.
pub proof fn law_decimal_is_injective(a: i64, b: i64)
    requires
        decimal(a as int) == decimal(b as int),
    ensures
        a == b,
{
    law_decimal_reads_back(a);
    law_decimal_reads_back(b);
}

// ---------------------------------------------------------------------------
// Bytes
// ---------------------------------------------------------------------------

/// The number of bytes that a text takes in UTF-8.
pub open spec fn byte_count(s: Seq<char>) -> nat {
    encode_utf8(s).len()
}

/// The number of bytes of `text`.
pub fn byte_len(text: &str) -> (n: usize)
    ensures
        n == byte_count(text@),
{
    text.as_bytes().len()
}

/// `clip` is the longest leading part of `s` that takes at most `max` bytes.
pub open spec fn is_clip(s: Seq<char>, max: nat, clip: Seq<char>) -> bool {
    exists|k: int|
        #![trigger s.take(k)]
        {
            &&& 0 <= k <= s.len()
            &&& clip == s.take(k)
            &&& byte_count(s.take(k)) <= max
            &&& k < s.len() ==> byte_count(s.take(k + 1)) > max
        }
}

/// The longest leading part of `s` that takes at most `max` bytes.
pub open spec fn clipped(s: Seq<char>, max: nat) -> Seq<char> {
    choose|clip: Seq<char>| is_clip(s, max, clip)
}

proof fn lemma_encode_append(a: Seq<char>, b: Seq<char>)
    ensures
        encode_utf8(a + b) == encode_utf8(a) + encode_utf8(b),
    decreases a.len(),
{
    if a.len() == 0 {
        assert(a + b =~= b);
        assert(encode_utf8(a) + encode_utf8(b) =~= encode_utf8(b));
    } else {
        assert((a + b).drop_first() =~= a.drop_first() + b);
        assert((a + b)[0] == a[0]);
        lemma_encode_append(a.drop_first(), b);
        assert(encode_utf8(a + b) =~= encode_utf8(a) + encode_utf8(b));
    }
}

proof fn lemma_byte_count_push(s: Seq<char>, k: int)
    requires
        0 <= k < s.len(),
    ensures
        byte_count(s.take(k)) < byte_count(s.take(k + 1)),
{
    let last = seq![s[k]];
    assert(s.take(k + 1) =~= s.take(k) + last);
    lemma_encode_append(s.take(k), last);
    assert(encode_utf8(last) =~= vstd::utf8::encode_scalar(s[k] as u32) + encode_utf8(
        last.drop_first(),
    ));
    vstd::utf8::char_is_scalar(s[k]);
}

/// A longer leading part takes at least as many bytes.
pub proof fn lemma_byte_count_monotone(s: Seq<char>, j: int, k: int)
    requires
        0 <= j <= k <= s.len(),
    ensures
        byte_count(s.take(j)) <= byte_count(s.take(k)),
    decreases k - j,
{
    if j < k {
        lemma_byte_count_monotone(s, j, k - 1);
        lemma_byte_count_push(s, k - 1);
    }
}

/// Law: there is exactly one longest leading part within a number of bytes.
pub proof fn law_clip_is_unique(s: Seq<char>, max: nat, a: Seq<char>, b: Seq<char>)
    requires
        is_clip(s, max, a),
        is_clip(s, max, b),
    ensures
        a == b,
{
    let i = choose|k: int|
        #![trigger s.take(k)]
        {
            &&& 0 <= k <= s.len()
            &&& a == s.take(k)
            &&& byte_count(s.take(k)) <= max
            &&& k < s.len() ==> byte_count(s.take(k + 1)) > max
        };
    let j = choose|k: int|
        #![trigger s.take(k)]
        {
            &&& 0 <= k <= s.len()
            &&& b == s.take(k)
            &&& byte_count(s.take(k)) <= max
            &&& k < s.len() ==> byte_count(s.take(k + 1)) > max
        };
    if i < j {
        lemma_byte_count_monotone(s, i + 1, j);
    } else if j < i {
        lemma_byte_count_monotone(s, j + 1, i);
    }
}

proof fn lemma_clip_exists(s: Seq<char>, max: nat, n: int) -> (k: int)
    requires
        0 <= n <= s.len(),
        n < s.len() ==> byte_count(s.take(n + 1)) > max,
    ensures
        0 <= k <= n,
        byte_count(s.take(k)) <= max,
        k < s.len() ==> byte_count(s.take(k + 1)) > max,
    decreases n,
{
    if byte_count(s.take(n)) <= max {
        n
    } else {
        if n == 0 {
            assert(s.take(0).len() == 0);
            assert(false);
        }
        lemma_clip_exists(s, max, n - 1)
    }
}

/// Law: a clipped text is a leading part of the text, it stays within the
/// number of bytes, and one more character would not.
pub proof fn law_clipped_is_the_clip(s: Seq<char>, max: nat)
    ensures
        is_clip(s, max, clipped(s, max)),
        byte_count(clipped(s, max)) <= max,
{
    let k = lemma_clip_exists(s, max, s.len() as int);
    assert(is_clip(s, max, s.take(k)));
}

/// Law: a text within the number of bytes is not changed by clipping.
pub proof fn law_short_text_is_not_clipped(s: Seq<char>, max: nat)
    requires
        byte_count(s) <= max,
    ensures
        clipped(s, max) == s,
{
    assert(s.take(s.len() as int) =~= s);
    assert(is_clip(s, max, s));
    law_clipped_is_the_clip(s, max);
    law_clip_is_unique(s, max, s, clipped(s, max));
}

/// The longest leading part of `text` that takes at most `max` bytes.
pub fn clip(text: &str, max: usize) -> (part: String)
    ensures
        part@ == clipped(text@, max as nat),
{
    let ghost s = text@;
    let ghost bytes = encode_utf8(s);
    if byte_len(text) <= max {
        proof {
            law_short_text_is_not_clipped(s, max as nat);
        }
        return text.to_owned();
    }
    proof {
        encode_utf8_valid_utf8(s);
        is_char_boundary_start_end_of_seq(bytes);
    }
    let mut mid: usize = max;
    while !text.is_char_boundary(mid)
        invariant
            mid <= max < bytes.len(),
            s == text@,
            bytes == encode_utf8(s),
            valid_utf8(bytes),
            is_char_boundary(bytes, 0),
            forall|i: int| mid < i <= max ==> !is_char_boundary(bytes, i),
        decreases mid,
    {
        mid -= 1;
    }
    let (head, _tail) = text.split_at(mid);
    proof {
        lemma_boundary_is_clip(s, max as nat, mid as int, head@);
    }
    head.to_owned()
}

/// A text whose bytes end at the last boundary within `max` is the clip.
proof fn lemma_boundary_is_clip(s: Seq<char>, max: nat, mid: int, head: Seq<char>)
    requires
        0 <= mid <= max < encode_utf8(s).len(),
        is_char_boundary(encode_utf8(s), mid),
        forall|i: int| mid < i <= max ==> !is_char_boundary(encode_utf8(s), i),
        encode_utf8(head) == encode_utf8(s).subrange(0, mid),
    ensures
        head == clipped(s, max),
{
    let bytes = encode_utf8(s);
    let tail_bytes = bytes.subrange(mid, bytes.len() as int);
    encode_utf8_valid_utf8(s);
    valid_utf8_split(bytes, mid);
    decode_utf8_split(bytes, mid);
    encode_utf8_decode_utf8(s);
    encode_utf8_decode_utf8(head);
    let k = head.len() as int;
    let tail = decode_utf8(tail_bytes);
    assert(s == head + tail);
    assert(s.take(k) =~= head);
    if k < s.len() {
        let longer = s.take(k + 1);
        lemma_byte_count_push(s, k);
        lemma_prefix_is_boundary(s, k + 1);
        assert(byte_count(longer) > max);
    }
    assert(is_clip(s, max, head));
    law_clipped_is_the_clip(s, max);
    law_clip_is_unique(s, max, head, clipped(s, max));
}

proof fn lemma_prefix_is_boundary(s: Seq<char>, k: int)
    requires
        0 <= k <= s.len(),
    ensures
        is_char_boundary(encode_utf8(s), byte_count(s.take(k)) as int),
    decreases k,
{
    encode_utf8_valid_utf8(s);
    if k == 0 {
        assert(s.take(0).len() == 0);
        is_char_boundary_start_end_of_seq(encode_utf8(s));
    } else {
        let rest = s.drop_first();
        vstd::utf8::encode_utf8_first_scalar(s);
        lemma_prefix_is_boundary(rest, k - 1);
        assert(s.take(k).drop_first() =~= rest.take(k - 1));
        assert(s.take(k)[0] == s[0]);
        assert(encode_utf8(s.take(k)) =~= vstd::utf8::encode_scalar(s[0] as u32) + encode_utf8(
            rest.take(k - 1),
        ));
        assert(vstd::utf8::pop_first_scalar(encode_utf8(s)) =~= encode_utf8(rest));
        lemma_byte_count_monotone(s, k, s.len() as int);
        assert(s.take(s.len() as int) =~= s);
        vstd::utf8::char_is_scalar(s[0]);
    }
}

// ---------------------------------------------------------------------------
// Order and case
// ---------------------------------------------------------------------------

/// Text order: the first character that differs decides, and a text comes
/// after its own leading parts.
pub open spec fn text_less(a: Seq<char>, b: Seq<char>) -> bool
    decreases a.len(),
{
    if b.len() == 0 {
        false
    } else if a.len() == 0 {
        true
    } else if a[0] == b[0] {
        text_less(a.drop_first(), b.drop_first())
    } else {
        a[0] < b[0]
    }
}

/// Text order is a strict order in which any two different texts are
/// comparable.
pub proof fn lemma_text_order_is_total(a: Seq<char>, b: Seq<char>)
    ensures
        !(text_less(a, b) && text_less(b, a)),
        a != b <==> text_less(a, b) || text_less(b, a),
    decreases a.len(),
{
    if a.len() > 0 && b.len() > 0 {
        lemma_text_order_is_total(a.drop_first(), b.drop_first());
        if a[0] == b[0] && a.drop_first() == b.drop_first() {
            assert(a =~= seq![a[0]] + a.drop_first());
            assert(b =~= seq![b[0]] + b.drop_first());
        }
    } else if a.len() == 0 && b.len() == 0 {
        assert(a =~= b);
    }
}

/// Text order is transitive.
pub proof fn lemma_text_order_is_transitive(a: Seq<char>, b: Seq<char>, c: Seq<char>)
    requires
        text_less(a, b),
        text_less(b, c),
    ensures
        text_less(a, c),
    decreases a.len(),
{
    if a.len() > 0 && b.len() > 0 && c.len() > 0 && a[0] == b[0] && b[0] == c[0] {
        lemma_text_order_is_transitive(a.drop_first(), b.drop_first(), c.drop_first());
    }
}

/// A common leading part does not matter for text order.
pub proof fn lemma_text_less_prefix(p: Seq<char>, a: Seq<char>, b: Seq<char>)
    ensures
        text_less(p + a, p + b) == text_less(a, b),
    decreases p.len(),
{
    if p.len() == 0 {
        assert(p + a =~= a);
        assert(p + b =~= b);
    } else {
        assert((p + a).drop_first() =~= p.drop_first() + a);
        assert((p + b).drop_first() =~= p.drop_first() + b);
        lemma_text_less_prefix(p.drop_first(), a, b);
    }
}

/// When leading parts of the same length are in order, what follows them does
/// not matter.
pub proof fn lemma_text_less_head(a: Seq<char>, b: Seq<char>, r: Seq<char>, s: Seq<char>)
    requires
        a.len() == b.len(),
        text_less(a, b),
    ensures
        text_less(a + r, b + s),
    decreases a.len(),
{
    if a.len() > 0 {
        assert((a + r).drop_first() =~= a.drop_first() + r);
        assert((b + s).drop_first() =~= b.drop_first() + s);
        if a[0] == b[0] {
            lemma_text_less_head(a.drop_first(), b.drop_first(), r, s);
        }
    }
}

/// Whether `a` comes before `b` in text order.
pub fn is_text_less(a: &str, b: &str) -> (less: bool)
    ensures
        less == text_less(a@, b@),
{
    let left = chars_of(a);
    let right = chars_of(b);
    let mut i: usize = 0;
    proof {
        assert(left@.skip(0) =~= left@);
        assert(right@.skip(0) =~= right@);
    }
    while i < left.len() && i < right.len()
        invariant
            i <= left@.len(),
            i <= right@.len(),
            left@ == a@,
            right@ == b@,
            text_less(a@, b@) == text_less(a@.skip(i as int), b@.skip(i as int)),
        decreases left@.len() - i,
    {
        if left[i] != right[i] {
            return left[i] < right[i];
        }
        proof {
            assert(left@.skip(i as int).drop_first() =~= left@.skip(i + 1));
            assert(right@.skip(i as int).drop_first() =~= right@.skip(i + 1));
        }
        i += 1;
    }
    i < right.len()
}

/// `c` with the ASCII capitals `A` to `Z` made small.
pub open spec fn ascii_lower(c: char) -> char {
    if 'A' <= c && c <= 'Z' {
        (c as int + 32) as char
    } else {
        c
    }
}

/// A text with its ASCII capitals made small.
pub open spec fn lowered(s: Seq<char>) -> Seq<char> {
    s.map_values(|c: char| ascii_lower(c))
}

/// A copy of `text` with its ASCII capitals made small.
pub fn lowered_text(text: &str) -> (low: String)
    ensures
        low@ == lowered(text@),
{
    let chars = chars_of(text);
    let mut low = String::new();
    let mut i: usize = 0;
    while i < chars.len()
        invariant
            i <= chars@.len(),
            chars@ == text@,
            low@ == lowered(text@.take(i as int)),
        decreases chars@.len() - i,
    {
        let c: char = chars[i];
        if c >= 'A' && c <= 'Z' {
            low.push((c as u8 + 32) as char);
        } else {
            low.push(c);
        }
        i += 1;
        assert(low@ =~= lowered(text@.take(i as int)));
    }
    proof {
        assert(text@.take(i as int) =~= text@);
    }
    low
}

} // verus!
