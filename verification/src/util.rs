//! Parsing and printing of the option values: colours, blur and vignette
//! effects.
use vstd::prelude::*;
use vstd::utf8::{is_continuation_byte, encode_utf8, is_ascii_chars, is_ascii_chars_encode_utf8};

verus! {

// ---------------------------------------------------------------- strings

/// `String::push`: appends `c` to the end of `s`.
#[verifier::external_body]
fn push_char(s: &mut String, c: char)
    ensures
        final(s)@ == old(s)@.push(c),
{
    s.push(c);
}

/// The string of these characters.
pub(crate) fn string_from_chars(chars: &Vec<char>) -> (s: String)
    ensures
        s@ == chars@,
{
    let mut s = String::new();
    let mut i: usize = 0;
    while i < chars.len()
        invariant
            i <= chars.len(),
            s@ == chars@.take(i as int),
        decreases chars.len() - i,
    {
        push_char(&mut s, chars[i]);
        proof {
            assert(chars@.take(i + 1) =~= chars@.take(i as int).push(chars@[i as int]));
        }
        i = i + 1;
    }
    assert(chars@.take(chars.len() as int) =~= chars@);
    s
}

/// The characters of `s`, in order.
pub(crate) fn chars_of(s: &str) -> (chars: Vec<char>)
    ensures
        chars@ == s@,
{
    let n = s.unicode_len();
    let mut chars: Vec<char> = Vec::new();
    let mut i: usize = 0;
    while i < n
        invariant
            i <= n,
            n == s@.len(),
            chars@ == s@.take(i as int),
        decreases n - i,
    {
        let c = s.get_char(i);
        chars.push(c);
        proof {
            assert(s@.take(i + 1) =~= s@.take(i as int).push(c));
        }
        i = i + 1;
    }
    assert(s@.take(n as int) =~= s@);
    chars
}

/// The characters of `v` in `[from, to)` as a string.
fn string_of_range(v: &Vec<char>, from: usize, to: usize) -> (s: String)
    requires
        from <= to <= v.len(),
    ensures
        s@ == v@.subrange(from as int, to as int),
{
    let mut part: Vec<char> = Vec::new();
    let mut i: usize = from;
    while i < to
        invariant
            from <= i <= to,
            to <= v.len(),
            part@ == v@.subrange(from as int, i as int),
        decreases to - i,
    {
        part.push(v[i]);
        proof {
            assert(v@.subrange(from as int, i + 1) =~= v@.subrange(from as int, i as int).push(v@[i as int]));
        }
        i = i + 1;
    }
    string_from_chars(&part)
}

/// How many times `c` occurs in `s`.
pub open spec fn count_char(s: Seq<char>, c: char) -> nat
    decreases s.len(),
{
    if s.len() == 0 {
        0
    } else {
        count_char(s.drop_last(), c) + if s.last() == c {
            1nat
        } else {
            0nat
        }
    }
}

/// The position of the first `c` in `s`, or the length of `s`.
pub open spec fn first_index(s: Seq<char>, c: char) -> int
    decreases s.len(),
{
    if s.len() == 0 {
        0
    } else if s[0] == c {
        0
    } else {
        1 + first_index(s.drop_first(), c)
    }
}

/// `s` split at its only `sep`, when it holds exactly one.
pub open spec fn spec_split_pair(s: Seq<char>, sep: char) -> Option<(Seq<char>, Seq<char>)> {
    if count_char(s, sep) == 1 {
        let k = first_index(s, sep);
        Some((s.take(k), s.skip(k + 1)))
    } else {
        None
    }
}

proof fn lemma_count_prefix(s: Seq<char>, c: char, i: int)
    requires
        0 <= i < s.len(),
    ensures
        count_char(s.take(i + 1), c) == count_char(s.take(i), c) + if s[i] == c {
            1nat
        } else {
            0nat
        },
{
    assert(s.take(i + 1).drop_last() =~= s.take(i));
}

proof fn lemma_first_index_of_prefix(s: Seq<char>, c: char, k: int)
    requires
        0 <= k < s.len(),
        s[k] == c,
        forall|j: int| 0 <= j < k ==> s[j] != c,
    ensures
        first_index(s, c) == k,
    decreases k,
{
    if k > 0 {
        lemma_first_index_of_prefix(s.drop_first(), c, k - 1);
    }
}

/// Splits `s` at its separator `sep` when `sep` occurs exactly once; `None`
/// when it occurs never or more than once.
pub fn split_pair(s: &str, sep: char) -> (parts: Option<(String, String)>)
    ensures
        match parts {
            Some((a, b)) => spec_split_pair(s@, sep) == Some((a@, b@)),
            None => spec_split_pair(s@, sep) is None,
        },
{
    let v = chars_of(s);
    let n = v.len();
    let mut count: usize = 0;
    let mut pos: usize = 0;
    let mut i: usize = 0;
    while i < n
        invariant
            i <= n,
            n == v.len(),
            v@ == s@,
            count == count_char(v@.take(i as int), sep),
            count <= i,
            count == 0 ==> forall|j: int| 0 <= j < i ==> v@[j] != sep,
            count > 0 ==> pos < i && v@[pos as int] == sep && forall|j: int|
                0 <= j < pos ==> v@[j] != sep,
        decreases n - i,
    {
        proof {
            lemma_count_prefix(v@, sep, i as int);
        }
        if v[i] == sep {
            if count == 0 {
                pos = i;
            }
            count = count + 1;
        }
        i = i + 1;
    }
    assert(v@.take(n as int) =~= v@);
    if count != 1 {
        return None;
    }
    proof {
        lemma_first_index_of_prefix(v@, sep, pos as int);
    }
    let a = string_of_range(&v, 0, pos);
    let b = string_of_range(&v, pos + 1, n);
    assert(v@.subrange(0, pos as int) =~= v@.take(pos as int));
    assert(v@.subrange(pos + 1, n as int) =~= v@.skip(pos + 1));
    Some((a, b))
}

// ---------------------------------------------------------------- decimals

/// `c` is one of `0` to `9`.
pub open spec fn is_digit(c: char) -> bool {
    48 <= (c as u32) <= 57
}

/// Every character of `d` is a digit.
pub open spec fn all_digits(d: Seq<char>) -> bool {
    forall|i: int| 0 <= i < d.len() ==> is_digit(#[trigger] d[i])
}

/// The number that the decimal digits `d` write.
pub open spec fn digits_value(d: Seq<char>) -> nat
    decreases d.len(),
{
    if d.len() == 0 {
        0
    } else {
        digits_value(d.drop_last()) * 10 + ((d.last() as u32) - 48) as nat
    }
}

/// What parsing `s` as a `u32` gives: an optional `+`, then one or more
/// decimal digits whose value fits in 32 bits.
pub open spec fn spec_parse_u32(s: Seq<char>) -> Option<u32> {
    let d = if s.len() > 0 && s[0] == '+' {
        s.drop_first()
    } else {
        s
    };
    if d.len() > 0 && all_digits(d) && digits_value(d) <= u32::MAX {
        Some(digits_value(d) as u32)
    } else {
        None
    }
}

/// The decimal digits of `n`, without leading zeros.
pub open spec fn decimal_text(n: nat) -> Seq<char>
    decreases n,
{
    if n < 10 {
        seq![(48 + n) as char]
    } else {
        decimal_text(n / 10).push((48 + n % 10) as char)
    }
}

proof fn lemma_digits_value_grows(d: Seq<char>, i: int)
    requires
        0 <= i <= d.len(),
        all_digits(d),
    ensures
        digits_value(d.take(i)) <= digits_value(d),
    decreases d.len() - i,
{
    if i < d.len() {
        lemma_digits_value_grows(d, i + 1);
        assert(d.take(i + 1).drop_last() =~= d.take(i));
    } else {
        assert(d.take(i) =~= d);
    }
}

/// Parses the characters `v[from..]` the way `str::parse::<u32>` does.
fn parse_u32_chars(v: &Vec<char>, from: usize) -> (n: Option<u32>)
    requires
        from <= v.len(),
    ensures
        n == spec_parse_u32(v@.skip(from as int)),
{
    let ghost s = v@.skip(from as int);
    let len = v.len();
    let mut start = from;
    if from < len && v[from] == '+' {
        start = from + 1;
    }
    let ghost d = v@.skip(start as int);
    assert(d =~= (if s.len() > 0 && s[0] == '+' {
        s.drop_first()
    } else {
        s
    }));
    if start == len {
        return None;
    }
    let mut value: u64 = 0;
    let mut i: usize = start;
    while i < len
        invariant
            start <= i <= len,
            len == v.len(),
            d == v@.skip(start as int),
            s == v@.skip(from as int),
            d == (if s.len() > 0 && s[0] == '+' {
                s.drop_first()
            } else {
                s
            }),
            all_digits(d.take(i - start)),
            value == digits_value(d.take(i - start)),
            value <= u32::MAX,
        decreases len - i,
    {
        let c = v[i];
        let code = c as u32;
        if code < 48 || code > 57 {
            assert(!is_digit(d[i - start]));
            return None;
        }
        proof {
            assert(d.take(i - start + 1).drop_last() =~= d.take(i - start));
            assert(d.take(i - start + 1).last() == c);
        }
        value = value * 10 + (code - 48) as u64;
        if value > 0xffff_ffff {
            proof {
                if all_digits(d) {
                    lemma_digits_value_grows(d, i - start + 1);
                }
            }
            return None;
        }
        i = i + 1;
    }
    assert(d.take(len - start) =~= d);
    Some(value as u32)
}

/// Appends the decimal digits of `n` to `out`.
pub(crate) fn push_decimal(out: &mut Vec<char>, n: u64)
    ensures
        final(out)@ == old(out)@ + decimal_text(n as nat),
    decreases n,
{
    if n >= 10 {
        push_decimal(out, n / 10);
    }
    let digit = (n % 10) as u8;
    out.push((48u8 + digit) as char);
    proof {
        if n >= 10 {
            assert(decimal_text(n as nat) == decimal_text((n / 10) as nat).push((48 + n % 10) as char));
        }
    }
}

// ---------------------------------------------------------------- blur

/// What the blur option `RADIUSxTIMES` parses to: the two numbers, or the
/// message of the first thing that is wrong.
pub open spec fn spec_parse_blur_effect(s: Seq<char>) -> Result<(u32, u32), Seq<char>> {
    match spec_split_pair(s, 'x') {
        None => Err("Blur must be radiusxtimes"@),
        Some((a, b)) => match (spec_parse_u32(a), spec_parse_u32(b)) {
            (None, _) => Err("Invalid radius"@),
            (Some(_), None) => Err("Invalid times"@),
            (Some(radius), Some(times)) => Ok((radius, times)),
        },
    }
}

/// The text of a blur option: the radius, `x`, the pass count.
pub open spec fn blur_effect_text(radius: u32, times: u32) -> Seq<char> {
    decimal_text(radius as nat) + seq!['x'] + decimal_text(times as nat)
}

/// `Ok` and the parsed value, or `Err` and the message's characters.
pub open spec fn result_view<T>(r: Result<T, String>) -> Result<T, Seq<char>> {
    match r {
        Ok(v) => Ok(v),
        Err(e) => Err(e@),
    }
}

/// Parses a blur option written `RADIUSxTIMES`.
pub fn parse_blur_effect(s: &str) -> (parsed: Result<(u32, u32), String>)
    ensures
        result_view(parsed) == spec_parse_blur_effect(s@),
{
    match split_pair(s, 'x') {
        None => Err(String::from_str("Blur must be radiusxtimes")),
        Some((a, b)) => {
            let av = chars_of(a.as_str());
            let bv = chars_of(b.as_str());
            assert(av@.skip(0) =~= av@);
            assert(bv@.skip(0) =~= bv@);
            let radius = match parse_u32_chars(&av, 0) {
                Some(r) => r,
                None => {
                    return Err(String::from_str("Invalid radius"));
                },
            };
            let times = match parse_u32_chars(&bv, 0) {
                Some(t) => t,
                None => {
                    return Err(String::from_str("Invalid times"));
                },
            };
            Ok((radius, times))
        },
    }
}

/// Writes a blur option as `RADIUSxTIMES`.
pub fn format_blur_effect(radius: u32, times: u32) -> (text: String)
    ensures
        text@ == blur_effect_text(radius, times),
{
    let mut out: Vec<char> = Vec::new();
    push_decimal(&mut out, radius as u64);
    out.push('x');
    push_decimal(&mut out, times as u64);
    assert(out@ =~= blur_effect_text(radius, times));
    string_from_chars(&out)
}

// ---------------------------------------------------------------- vignette

/// Splits a vignette option written `BASE:FACTOR` into its two fields; the
/// numbers themselves are parsed by the caller.
pub fn split_vignette_effect(s: &str) -> (parts: Result<(String, String), String>)
    ensures
        match parts {
            Ok((a, b)) => spec_split_pair(s@, ':') == Some((a@, b@)),
            Err(e) => spec_split_pair(s@, ':') is None && e@ == "Vignette must be base:factor"@,
        },
{
    match split_pair(s, ':') {
        Some(p) => Ok(p),
        None => Err(String::from_str("Vignette must be base:factor")),
    }
}

// ---------------------------------------------------------------- colours

/// A colour with 8-bit red, green, blue and alpha channels.
#[derive(Clone, Copy, Debug, PartialEq, Eq, Structural)]
pub struct HexColor {
    pub r: u8,
    pub g: u8,
    pub b: u8,
    pub a: u8,
}

/// `b` without its leading `#` bytes.
pub open spec fn trim_hashes(b: Seq<u8>) -> Seq<u8>
    decreases b.len(),
{
    if b.len() > 0 && b[0] == 35 {
        trim_hashes(b.drop_first())
    } else {
        b
    }
}

/// The value of a hexadecimal digit byte (either case).
pub open spec fn hex_digit_value(c: u8) -> Option<u8> {
    if 48 <= c <= 57 {
        Some((c - 48) as u8)
    } else if 97 <= c <= 102 {
        Some((c - 87) as u8)
    } else if 65 <= c <= 70 {
        Some((c - 55) as u8)
    } else {
        None
    }
}

/// What the two bytes of a colour field parse to: the byte written by two
/// hexadecimal digits, high digit first.
pub open spec fn spec_hex_byte(c0: u8, c1: u8) -> Option<u8> {
    match (hex_digit_value(c0), hex_digit_value(c1)) {
        (Some(h), Some(l)) => Some((16 * h + l) as u8),
        _ => None,
    }
}

/// What a colour option parses to, from the bytes of its text: leading `#`s
/// are dropped; then six or eight bytes `RRGGBB[AA]`, alpha 255 when absent;
/// otherwise the message of the first thing that is wrong.
pub open spec fn spec_parse_hex_color(b: Seq<u8>) -> Result<HexColor, Seq<char>> {
    let t = trim_hashes(b);
    if t.len() != 6 && t.len() != 8 {
        Err("Color must be 6 (RRGGBB) or 8 (RRGGBBAA)"@)
    } else {
        match spec_hex_byte(t[0], t[1]) {
            None => Err("Invalid red"@),
            Some(r) => match spec_hex_byte(t[2], t[3]) {
                None => Err("Invalid green"@),
                Some(g) => match spec_hex_byte(t[4], t[5]) {
                    None => Err("Invalid blue"@),
                    Some(bl) => if t.len() == 8 {
                        match spec_hex_byte(t[6], t[7]) {
                            None => Err("Invalid alpha"@),
                            Some(a) => Ok(HexColor { r, g, b: bl, a }),
                        }
                    } else {
                        Ok(HexColor { r, g, b: bl, a: 255 })
                    },
                },
            },
        }
    }
}

/// The two-byte fields of a six- or eight-byte colour start on character
/// boundaries (slicing them cuts no character).
pub open spec fn hex_fields_whole(b: Seq<u8>) -> bool {
    let t = trim_hashes(b);
    (t.len() == 6 || t.len() == 8) ==> {
        &&& !is_continuation_byte(t[2])
        &&& !is_continuation_byte(t[4])
        &&& t.len() == 8 ==> !is_continuation_byte(t[6])
    }
}

/// The lower-case hexadecimal digit for `n < 16`.
pub open spec fn hex_digit_char(n: u8) -> char {
    if n < 10 {
        (48 + n) as char
    } else {
        (87 + n) as char
    }
}

/// A byte as two lower-case hexadecimal digits.
pub open spec fn hex_byte_text(v: u8) -> Seq<char> {
    seq![hex_digit_char(v / 16), hex_digit_char(v % 16)]
}

/// A colour written `rrggbb`, with `aa` appended unless alpha is 255.
pub open spec fn hex_color_text(c: HexColor) -> Seq<char> {
    let rgb = hex_byte_text(c.r) + hex_byte_text(c.g) + hex_byte_text(c.b);
    if c.a == 255 {
        rgb
    } else {
        rgb + hex_byte_text(c.a)
    }
}

fn hex_digit(c: u8) -> (v: Option<u8>)
    ensures
        v == hex_digit_value(c),
{
    if 48 <= c && c <= 57 {
        Some(c - 48)
    } else if 97 <= c && c <= 102 {
        Some(c - 87)
    } else if 65 <= c && c <= 70 {
        Some(c - 55)
    } else {
        None
    }
}

/// `u8::from_str_radix` with radix 16 on a two-byte field.
fn hex_byte(c0: u8, c1: u8) -> (v: Option<u8>)
    ensures
        v == spec_hex_byte(c0, c1),
{
    match (hex_digit(c0), hex_digit(c1)) {
        (Some(h), Some(l)) => Some(16 * h + l),
        _ => None,
    }
}

proof fn lemma_trim_step(b: Seq<u8>, k: int)
    requires
        0 <= k < b.len(),
        b[k] == 35,
    ensures
        trim_hashes(b.skip(k)) == trim_hashes(b.skip(k + 1)),
{
    assert(b.skip(k).drop_first() =~= b.skip(k + 1));
}

/// Parses a colour written `RRGGBB` or `RRGGBBAA` in hexadecimal, after any
/// number of leading `#`.
pub fn parse_hex_color(s: &str) -> (parsed: Result<HexColor, String>)
    requires
        hex_fields_whole(encode_utf8(s@)),
    ensures
        result_view(parsed) == spec_parse_hex_color(encode_utf8(s@)),
{
    let b = s.as_bytes();
    let n = b.len();
    let mut k: usize = 0;
    assert(b@.skip(0) =~= b@);
    while k < n && b[k] == 35
        invariant
            k <= n,
            n == b@.len(),
            trim_hashes(b@) == trim_hashes(b@.skip(k as int)),
        decreases n - k,
    {
        proof {
            lemma_trim_step(b@, k as int);
        }
        k = k + 1;
    }
    assert(k == 0 ==> b@.skip(0) =~= b@);
    assert(trim_hashes(b@.skip(k as int)) == b@.skip(k as int));
    let len = n - k;
    if len != 6 && len != 8 {
        return Err(String::from_str("Color must be 6 (RRGGBB) or 8 (RRGGBBAA)"));
    }
    let r = match hex_byte(b[k], b[k + 1]) {
        Some(v) => v,
        None => {
            return Err(String::from_str("Invalid red"));
        },
    };
    let g = match hex_byte(b[k + 2], b[k + 3]) {
        Some(v) => v,
        None => {
            return Err(String::from_str("Invalid green"));
        },
    };
    let bl = match hex_byte(b[k + 4], b[k + 5]) {
        Some(v) => v,
        None => {
            return Err(String::from_str("Invalid blue"));
        },
    };
    let a = if len == 8 {
        match hex_byte(b[k + 6], b[k + 7]) {
            Some(v) => v,
            None => {
                return Err(String::from_str("Invalid alpha"));
            },
        }
    } else {
        255
    };
    Ok(HexColor { r, g, b: bl, a })
}

fn push_hex_byte(out: &mut Vec<char>, v: u8)
    ensures
        final(out)@ == old(out)@ + hex_byte_text(v),
{
    let hi = v / 16;
    let lo = v % 16;
    let ch = if hi < 10 {
        (48 + hi) as char
    } else {
        (87 + hi) as char
    };
    let cl = if lo < 10 {
        (48 + lo) as char
    } else {
        (87 + lo) as char
    };
    out.push(ch);
    out.push(cl);
    assert(final(out)@ =~= old(out)@ + hex_byte_text(v));
}

/// Writes a colour as lower-case hexadecimal `rrggbb`, followed by `aa`
/// unless it is opaque.
pub fn format_hex_color(c: HexColor) -> (text: String)
    ensures
        text@ == hex_color_text(c),
{
    let mut out: Vec<char> = Vec::new();
    push_hex_byte(&mut out, c.r);
    push_hex_byte(&mut out, c.g);
    push_hex_byte(&mut out, c.b);
    if c.a != 255 {
        push_hex_byte(&mut out, c.a);
    }
    assert(out@ =~= hex_color_text(c));
    string_from_chars(&out)
}

// ---------------------------------------------------------------- text

/// Whether two strings hold the same characters.
pub(crate) fn str_equals(a: &str, b: &str) -> (same: bool)
    ensures
        same == (a@ == b@),
{
    let n = a.unicode_len();
    if n != b.unicode_len() {
        return false;
    }
    let mut i: usize = 0;
    while i < n
        invariant
            i <= n,
            n == a@.len(),
            n == b@.len(),
            forall|j: int| 0 <= j < i ==> a@[j] == b@[j],
        decreases n - i,
    {
        if a.get_char(i) != b.get_char(i) {
            return false;
        }
        i = i + 1;
    }
    assert(a@ =~= b@);
    true
}

/// `s` begins with `p`.
pub open spec fn has_prefix(s: Seq<char>, p: Seq<char>) -> bool {
    p.len() <= s.len() && s.take(p.len() as int) == p
}

/// `s` holds `p` somewhere.
pub open spec fn contains_text(s: Seq<char>, p: Seq<char>) -> bool {
    exists|i: int| 0 <= i && i + p.len() <= s.len() && #[trigger] s.subrange(i, i + p.len()) == p
}

/// `s` without every leading repetition of the non-empty `p`.
pub open spec fn strip_repeated(s: Seq<char>, p: Seq<char>) -> Seq<char>
    decreases s.len(),
{
    if p.len() > 0 && has_prefix(s, p) {
        strip_repeated(s.skip(p.len() as int), p)
    } else {
        s
    }
}

/// Whether `v[at..]` begins with `p`.
pub(crate) fn prefix_at(v: &Vec<char>, at: usize, p: &Vec<char>) -> (yes: bool)
    requires
        at <= v.len(),
    ensures
        yes == has_prefix(v@.skip(at as int), p@),
{
    if p.len() > v.len() - at {
        return false;
    }
    let mut i: usize = 0;
    while i < p.len()
        invariant
            i <= p.len(),
            at + p.len() <= v.len(),
            forall|j: int| 0 <= j < i ==> v@[at + j] == p@[j],
        decreases p.len() - i,
    {
        if v[at + i] != p[i] {
            assert(v@.skip(at as int).take(p.len() as int)[i as int] != p@[i as int]);
            return false;
        }
        i = i + 1;
    }
    assert(v@.skip(at as int).take(p.len() as int) =~= p@);
    true
}

/// Whether `s` holds `p` somewhere.
pub(crate) fn contains_str(s: &str, p: &str) -> (found: bool)
    ensures
        found == contains_text(s@, p@),
{
    let v = chars_of(s);
    let pv = chars_of(p);
    if pv.len() > v.len() {
        return false;
    }
    let last = v.len() - pv.len();
    let mut i: usize = 0;
    loop
        invariant
            v@ == s@,
            pv@ == p@,
            last + pv.len() == v.len(),
            i <= last,
            forall|j: int|
                0 <= j < i && j + p@.len() <= s@.len() ==> #[trigger] s@.subrange(j, j + p@.len())
                    != p@,
        decreases last - i,
    {
        assert(v@.skip(i as int).take(pv.len() as int) =~= s@.subrange(i as int, i + p@.len()));
        if prefix_at(&v, i, &pv) {
            return true;
        }
        if i == last {
            return false;
        }
        i = i + 1;
    }
}

// ---------------------------------------------------------------- laws

proof fn lemma_decimal_text_digits(n: nat)
    ensures
        decimal_text(n).len() > 0,
        all_digits(decimal_text(n)),
        digits_value(decimal_text(n)) == n,
    decreases n,
{
    if n >= 10 {
        lemma_decimal_text_digits(n / 10);
        let t = decimal_text(n);
        assert(t.drop_last() =~= decimal_text(n / 10));
        assert(all_digits(t)) by {
            assert forall|i: int| 0 <= i < t.len() implies is_digit(#[trigger] t[i]) by {
                if i < t.len() - 1 {
                    assert(t[i] == decimal_text(n / 10)[i]);
                }
            }
        }
        assert(t.last() == (48 + n % 10) as char);
        assert((t.last() as u32) == 48 + n % 10);
        assert(digits_value(t) == digits_value(decimal_text(n / 10)) * 10 + n % 10);
        assert((n / 10) * 10 + n % 10 == n);
    } else {
        let t = decimal_text(n);
        assert(t.drop_last() =~= Seq::<char>::empty());
        assert(t.last() == (48 + n) as char);
        assert((t.last() as u32) == 48 + n);
        assert(digits_value(t.drop_last()) == 0);
    }
}

proof fn lemma_count_concat(a: Seq<char>, b: Seq<char>, c: char)
    ensures
        count_char(a + b, c) == count_char(a, c) + count_char(b, c),
    decreases b.len(),
{
    if b.len() > 0 {
        lemma_count_concat(a, b.drop_last(), c);
        assert((a + b).drop_last() =~= a + b.drop_last());
    } else {
        assert(a + b =~= a);
    }
}

proof fn lemma_count_digits(d: Seq<char>, c: char)
    requires
        all_digits(d),
        !is_digit(c),
    ensures
        count_char(d, c) == 0,
    decreases d.len(),
{
    if d.len() > 0 {
        assert(all_digits(d.drop_last())) by {
            assert forall|i: int| 0 <= i < d.drop_last().len() implies is_digit(
                #[trigger] d.drop_last()[i],
            ) by {
                assert(d.drop_last()[i] == d[i]);
            }
        }
        lemma_count_digits(d.drop_last(), c);
        assert(is_digit(d[d.len() - 1]));
    }
}

proof fn lemma_parse_decimal_text(n: u32)
    ensures
        spec_parse_u32(decimal_text(n as nat)) == Some(n),
{
    lemma_decimal_text_digits(n as nat);
    let t = decimal_text(n as nat);
    assert(is_digit(t[0]));
}

/// Printing a blur option and parsing it again gives back the same radius
/// and pass count.
pub proof fn lemma_blur_effect_round_trip(radius: u32, times: u32)
    ensures
        spec_parse_blur_effect(blur_effect_text(radius, times)) == Ok::<(u32, u32), Seq<char>>(
            (radius, times),
        ),
{
    let a = decimal_text(radius as nat);
    let b = decimal_text(times as nat);
    let s = blur_effect_text(radius, times);
    lemma_decimal_text_digits(radius as nat);
    lemma_decimal_text_digits(times as nat);
    lemma_count_digits(a, 'x');
    lemma_count_digits(b, 'x');
    lemma_count_concat(a, seq!['x'], 'x');
    lemma_count_concat(a + seq!['x'], b, 'x');
    assert(count_char(seq!['x'], 'x') == 1) by {
        let one = seq!['x'];
        assert(one.drop_last() =~= Seq::<char>::empty());
        assert(count_char(one.drop_last(), 'x') == 0);
        assert(one.last() == 'x');
    }
    assert forall|j: int| 0 <= j < a.len() implies s[j] != 'x' by {
        assert(s[j] == a[j]);
        assert(is_digit(a[j]));
    }
    lemma_first_index_of_prefix(s, 'x', a.len() as int);
    assert(s.take(a.len() as int) =~= a);
    assert(s.skip(a.len() as int + 1) =~= b);
    lemma_parse_decimal_text(radius);
    lemma_parse_decimal_text(times);
}

proof fn lemma_hex_digit_char(n: u8)
    requires
        n < 16,
    ensures
        hex_digit_value(hex_digit_char(n) as u8) == Some(n),
        (hex_digit_char(n) as u32) < 128,
        hex_digit_char(n) as u8 != 35,
{
}

proof fn lemma_hex_byte_text(v: u8)
    ensures
        spec_hex_byte(hex_byte_text(v)[0] as u8, hex_byte_text(v)[1] as u8) == Some(v),
        (hex_byte_text(v)[0] as u32) < 128,
        (hex_byte_text(v)[1] as u32) < 128,
        hex_byte_text(v)[0] as u8 != 35,
{
    lemma_hex_digit_char(v / 16);
    lemma_hex_digit_char(v % 16);
    assert(16 * (v / 16) + v % 16 == v);
}

/// Printing a colour and parsing the bytes of the text again gives back the
/// same colour, and the text can be parsed without cutting a character.
pub proof fn lemma_hex_color_round_trip(c: HexColor)
    ensures
        hex_fields_whole(encode_utf8(hex_color_text(c))),
        spec_parse_hex_color(encode_utf8(hex_color_text(c))) == Ok::<HexColor, Seq<char>>(c),
{
    let t = hex_color_text(c);
    lemma_hex_byte_text(c.r);
    lemma_hex_byte_text(c.g);
    lemma_hex_byte_text(c.b);
    lemma_hex_byte_text(c.a);
    let rgb = hex_byte_text(c.r) + hex_byte_text(c.g) + hex_byte_text(c.b);
    assert(t.len() == 6 || t.len() == 8);
    assert(t[0] == hex_byte_text(c.r)[0] && t[1] == hex_byte_text(c.r)[1]);
    assert(t[2] == hex_byte_text(c.g)[0] && t[3] == hex_byte_text(c.g)[1]);
    assert(t[4] == hex_byte_text(c.b)[0] && t[5] == hex_byte_text(c.b)[1]);
    if c.a != 255 {
        assert(t[6] == hex_byte_text(c.a)[0] && t[7] == hex_byte_text(c.a)[1]);
    }
    assert(is_ascii_chars(t)) by {
        assert forall|i: int| 0 <= i < t.len() implies '\0' <= #[trigger] t[i] <= '\u{7f}' by {
            if i < 2 {
            } else if i < 4 {
            } else if i < 6 {
            } else {
            }
        }
    }
    is_ascii_chars_encode_utf8(t);
    let b = encode_utf8(t);
    assert(b[0] == t[0] as u8);
    assert(trim_hashes(b) == b);
    assert(b[1] == t[1] as u8 && b[2] == t[2] as u8 && b[3] == t[3] as u8);
    assert(b[4] == t[4] as u8 && b[5] == t[5] as u8);
    if c.a != 255 {
        assert(b[6] == t[6] as u8 && b[7] == t[7] as u8);
    }
}


/// The lower-case form of an ASCII hexadecimal digit byte, as a character.
pub open spec fn lower_hex_char(c: u8) -> char {
    if 65 <= c <= 70 {
        (c + 32) as char
    } else {
        c as char
    }
}

/// Bytes of hexadecimal digits, lower-cased, as characters.
pub open spec fn lowered(t: Seq<u8>) -> Seq<char> {
    t.map_values(|c: u8| lower_hex_char(c))
}

/// Every byte is a hexadecimal digit (either case).
pub open spec fn all_hex_digits(t: Seq<u8>) -> bool {
    forall|i: int| 0 <= i < t.len() ==> (#[trigger] hex_digit_value(t[i])) is Some
}

proof fn lemma_lower_digit(c: u8)
    requires
        hex_digit_value(c) is Some,
    ensures
        hex_digit_value(c)->0 < 16,
        hex_digit_char(hex_digit_value(c)->0) == lower_hex_char(c),
{
}

proof fn lemma_field_text(c0: u8, c1: u8)
    requires
        hex_digit_value(c0) is Some,
        hex_digit_value(c1) is Some,
    ensures
        spec_hex_byte(c0, c1) is Some,
        hex_byte_text(spec_hex_byte(c0, c1)->0) == seq![lower_hex_char(c0), lower_hex_char(c1)],
{
    lemma_lower_digit(c0);
    lemma_lower_digit(c1);
    let h = hex_digit_value(c0)->0;
    let l = hex_digit_value(c1)->0;
    let x = (16 * h + l) as u8;
    assert(x / 16 == h && x % 16 == l) by (nonlinear_arith)
        requires
            h < 16,
            l < 16,
            x == 16 * h + l,
    ;
    assert(hex_byte_text(x) =~= seq![lower_hex_char(c0), lower_hex_char(c1)]);
}

/// A colour written in hexadecimal digits, after any number of `#`, is
/// printed back as the same digits in lower case, with an alpha pair that
/// reads `ff` dropped.
pub proof fn lemma_hex_color_prints_lowercase(b: Seq<u8>)
    requires
        trim_hashes(b).len() == 6 || trim_hashes(b).len() == 8,
        all_hex_digits(trim_hashes(b)),
    ensures
        spec_parse_hex_color(b) is Ok,
        hex_color_text(spec_parse_hex_color(b)->Ok_0) == (if trim_hashes(b).len() == 8
            && lowered(trim_hashes(b)).subrange(6, 8) != seq!['f', 'f'] {
            lowered(trim_hashes(b))
        } else {
            lowered(trim_hashes(b)).take(6)
        }),
{
    let t = trim_hashes(b);
    let low = lowered(t);
    assert(hex_digit_value(t[0]) is Some && hex_digit_value(t[1]) is Some);
    assert(hex_digit_value(t[2]) is Some && hex_digit_value(t[3]) is Some);
    assert(hex_digit_value(t[4]) is Some && hex_digit_value(t[5]) is Some);
    lemma_field_text(t[0], t[1]);
    lemma_field_text(t[2], t[3]);
    lemma_field_text(t[4], t[5]);
    let c = spec_parse_hex_color(b)->Ok_0;
    let rgb = hex_byte_text(c.r) + hex_byte_text(c.g) + hex_byte_text(c.b);
    assert(rgb =~= low.take(6));
    if t.len() == 8 {
        assert(hex_digit_value(t[6]) is Some && hex_digit_value(t[7]) is Some);
        lemma_field_text(t[6], t[7]);
        let pair = low.subrange(6, 8);
        assert(pair =~= hex_byte_text(c.a));
        assert(hex_byte_text(255) =~= seq!['f', 'f']);
        if pair == seq!['f', 'f'] {
            lemma_hex_byte_text(c.a);
            lemma_hex_byte_text(255);
            assert(c.a == 255);
        } else {
            assert(c.a != 255);
            assert(hex_color_text(c) =~= low);
        }
    }
}

} // verus!
