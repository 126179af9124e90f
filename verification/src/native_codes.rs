//! Numeric codes shared by the native CAD model and acadrust's entity
//! types: color indices, line weights, transparency, 3DFACE edge flags,
//! polygon-mesh dimensions, and the hexadecimal text used for binary blobs.

use crate::text::{chars_of, hex_digit, push_char, digit_char};
use vstd::prelude::*;

verus! {

/// An entity color as acadrust's `Color` holds it.
#[derive(Debug, Clone, Copy, PartialEq, Eq, Structural)]
pub enum Color {
    ByLayer,
    NoColor,
    ByBlock,
    Index(u8),
    Rgb { r: u8, g: u8, b: u8 },
}

/// A line weight as acadrust's `LineWeight` holds it (hundredths of a mm).
#[derive(Debug, Clone, Copy, PartialEq, Eq, Structural)]
pub enum LineWeight {
    ByLayer,
    ByBlock,
    Default,
    Value(i16),
}

/// Transparency as acadrust's `Transparency` holds it (0 opaque, 255 clear).
#[derive(Debug, Clone, Copy, PartialEq, Eq, Structural)]
pub enum Transparency {
    ByLayer,
    ByBlock,
    Explicit(u8),
}

/// Keeps the four edge-visibility bits of a 3DFACE flag byte.
pub fn normalize_face3d_invisible_edges(bits: u8) -> (r: i16)
    ensures
        r == bits % 16,
{
    let low: u8 = bits & 0x0F;
    assert(bits & 0x0F == bits % 16) by (bit_vector);
    low as i16
}

/// Largest `m` in `1..=t` that divides `n` (1 when `t <= 1`).
pub open spec fn largest_divisor_upto(n: nat, t: nat) -> nat
    decreases t,
{
    if t <= 1 {
        1
    } else if n % t == 0 {
        t
    } else {
        largest_divisor_upto(n, (t - 1) as nat)
    }
}

/// `t` is the integer square root of `n`.
pub open spec fn is_isqrt(n: nat, t: nat) -> bool {
    t * t <= n < (t + 1) * (t + 1)
}

/// Guess the `(M, N)` vertex grid of a polygon mesh from its vertex count:
/// the largest divisor of the count not above its square root, and the
/// matching cofactor, each narrowed to `i16` as the mesh header stores it.
pub fn infer_polygon_mesh_dimensions(vertex_count: usize) -> (r: (i16, i16))
    requires
        vertex_count <= 0x4_0000_0000_0000,
    ensures
        vertex_count == 0 ==> r == (0i16, 0i16),
        vertex_count > 0 ==> exists|t: nat|
            #![trigger is_isqrt(vertex_count as nat, t)]
            is_isqrt(vertex_count as nat, t) && r == (
                largest_divisor_upto(vertex_count as nat, t) as i16,
                (vertex_count as nat / largest_divisor_upto(vertex_count as nat, t)) as i16,
            ),
{
    if vertex_count == 0 {
        return (0, 0);
    }
    let n: u64 = vertex_count as u64;
    // integer square root by bisection on [lo, hi)
    let mut lo: u64 = 0;
    let mut hi: u64 = 0x800_0001;
    assert(0x800_0001 * 0x800_0001 > 0x4_0000_0000_0000) by (nonlinear_arith);
    while hi - lo > 1
        invariant
            lo < hi <= 0x800_0001,
            lo * lo <= n,
            n < hi * hi,
            n <= 0x4_0000_0000_0000,
        decreases hi - lo,
    {
        let mid = lo + (hi - lo) / 2;
        assert(mid * mid <= 0x800_0001 * 0x800_0001) by (nonlinear_arith)
            requires
                mid < 0x800_0001,
        ;
        if mid * mid <= n {
            lo = mid;
        } else {
            hi = mid;
        }
    }
    assert(hi == lo + 1);
    let t = lo;
    let mut m: u64 = if t > 1 {
        t
    } else {
        1
    };
    while m > 1 && n % m != 0
        invariant
            1 <= m,
            t <= 1 ==> m == 1,
            t > 1 ==> m <= t,
            largest_divisor_upto(n as nat, t as nat) == largest_divisor_upto(n as nat, m as nat),
        decreases m,
    {
        m -= 1;
    }
    proof {
        if m > 1 {
            assert(largest_divisor_upto(n as nat, m as nat) == m);
        } else {
            assert(largest_divisor_upto(n as nat, m as nat) == 1);
        }
        assert(is_isqrt(n as nat, t as nat));
    }
    let q: u64 = n / m;
    (m as i16, q as i16)
}

/// Packs an RGB triple as the 24-bit true-color integer `0xRRGGBB`.
pub fn pack_true_color(r: u8, g: u8, b: u8) -> (c: i32)
    ensures
        c == r * 65536 + g * 256 + b,
{
    let rr: i32 = r as i32;
    let gg: i32 = g as i32;
    let bb: i32 = b as i32;
    assert(((rr << 16) | (gg << 8) | bb) == rr * 65536 + gg * 256 + bb) by (bit_vector)
        requires
            0 <= rr < 256,
            0 <= gg < 256,
            0 <= bb < 256,
    ;
    (rr << 16) | (gg << 8) | bb
}

pub open spec fn native_color_of(color_index: int) -> Color {
    if color_index == 256 {
        Color::ByLayer
    } else if color_index == -2 {
        Color::ByBlock
    } else if color_index > 0 {
        Color::Index(color_index as u8)
    } else {
        Color::ByLayer
    }
}

/// The color for a native color index: 256 by layer, -2 by block, positive
/// values an ACI index (narrowed to a byte), anything else by layer.
pub fn native_color(color_index: i16) -> (c: Color)
    ensures
        c == native_color_of(color_index as int),
{
    if color_index == 256 {
        Color::ByLayer
    } else if color_index == -2 {
        Color::ByBlock
    } else if color_index > 0 {
        Color::Index(color_index as u8)
    } else {
        Color::ByLayer
    }
}

pub open spec fn color_to_native_of(color: Color) -> (int, int) {
    match color {
        Color::ByLayer => (256, 0),
        Color::NoColor => (257, 0),
        Color::ByBlock => (-2, 0),
        Color::Index(i) => (i as int, 0),
        Color::Rgb { r, g, b } => (256, r * 65536 + g * 256 + b),
    }
}

/// The native `(color_index, true_color)` pair for a color; true colors
/// keep index 256 and carry `0xRRGGBB`, "no color" is index 257.
pub fn color_to_native(color: &Color) -> (r: (i16, i32))
    ensures
        r.0 == color_to_native_of(*color).0,
        r.1 == color_to_native_of(*color).1,
{
    match color {
        Color::ByLayer => (256, 0),
        Color::NoColor => (257, 0),
        Color::ByBlock => (-2, 0),
        Color::Index(i) => (*i as i16, 0),
        Color::Rgb { r, g, b } => (256, pack_true_color(*r, *g, *b)),
    }
}

/// A color index survives the trip to the native code and back, for the
/// by-layer and by-block colors and every ACI index from 1.
pub proof fn lemma_color_index_round_trip(c: Color)
    requires
        c is ByLayer || c is ByBlock || (c matches Color::Index(i) && i >= 1),
    ensures
        native_color_of(color_to_native_of(c).0) == c,
{
    if let Color::Index(i) = c {
        let k: i16 = i as i16;
        assert(k as u8 == i) by (bit_vector)
            requires
                k == i as i16,
        ;
    }
}

pub open spec fn native_lineweight_of(value: int) -> LineWeight {
    if value == -1 {
        LineWeight::ByLayer
    } else if value == -2 {
        LineWeight::ByBlock
    } else if value == -3 {
        LineWeight::Default
    } else {
        LineWeight::Value(value as i16)
    }
}

pub open spec fn lineweight_to_native_of(w: LineWeight) -> int {
    match w {
        LineWeight::ByLayer => -1,
        LineWeight::ByBlock => -2,
        LineWeight::Default => -3,
        LineWeight::Value(v) => v as int,
    }
}

/// The line weight for a native code: -1, -2, -3 are by layer, by block and
/// default, anything else an explicit weight.
pub fn native_lineweight(value: i16) -> (w: LineWeight)
    ensures
        w == native_lineweight_of(value as int),
{
    match value {
        -1 => LineWeight::ByLayer,
        -2 => LineWeight::ByBlock,
        -3 => LineWeight::Default,
        other => LineWeight::Value(other),
    }
}

pub fn lineweight_to_native(value: &LineWeight) -> (r: i16)
    ensures
        r == lineweight_to_native_of(*value),
{
    match value {
        LineWeight::ByLayer => -1,
        LineWeight::ByBlock => -2,
        LineWeight::Default => -3,
        LineWeight::Value(v) => *v,
    }
}

/// Every native line-weight code reads back as itself.
pub proof fn lemma_lineweight_code_round_trip(value: i16)
    ensures
        lineweight_to_native_of(native_lineweight_of(value as int)) == value,
{
}

/// Every line weight reads back as itself, except explicit weights that
/// collide with the special codes -1, -2, -3.
pub proof fn lemma_lineweight_round_trip(w: LineWeight)
    requires
        !(w matches LineWeight::Value(v) && -3 <= v <= -1),
    ensures
        native_lineweight_of(lineweight_to_native_of(w)) == w,
{
}

/// The method byte (top 8 bits) of a packed transparency value, taken as
/// an unsigned 32-bit integer.
pub open spec fn packed_method(value: i32) -> int {
    (if value < 0 {
        value + 0x1_0000_0000
    } else {
        value as int
    }) / 0x100_0000
}

/// The low byte of a packed transparency value.
pub open spec fn packed_low_byte(value: i32) -> int {
    (if value < 0 {
        value + 0x1_0000_0000
    } else {
        value as int
    }) % 256
}

pub open spec fn native_transparency_of(value: i32) -> Transparency {
    if value == 0 {
        Transparency::Explicit(0)
    } else if 0 <= value < 0x100_0000 {
        Transparency::Explicit(if value > 255 {
            255u8
        } else {
            value as u8
        })
    } else if packed_method(value) == 1 {
        Transparency::ByBlock
    } else if packed_method(value) == 2 || packed_method(value) == 3 {
        Transparency::Explicit((255 - packed_low_byte(value)) as u8)
    } else {
        Transparency::ByLayer
    }
}

/// The transparency for a native value: 0 opaque, values below 2^24 an
/// explicit amount clamped to 0..=255, anything else a packed DXF alpha
/// value (method byte 1 by block, 2 or 3 explicit `255 - low byte`, other
/// methods by layer).
pub fn native_transparency(value: i32) -> (t: Transparency)
    ensures
        t == native_transparency_of(value),
{
    if value == 0 {
        Transparency::Explicit(0)
    } else if (value >> 24) == 0 {
        assert((value >> 24) == 0 ==> 0 <= value < 0x100_0000) by (bit_vector);
        let amount: u8 = if value > 255 {
            255
        } else {
            value as u8
        };
        Transparency::Explicit(amount)
    } else {
        assert((value >> 24) != 0 ==> !(0 <= value < 0x100_0000)) by (bit_vector);
        let u: u32 = value as u32;
        assert(u == (if value < 0 { value + 0x1_0000_0000 } else { value as int })) by (bit_vector)
            requires
                u == value as u32,
        ;
        let method: u32 = u >> 24;
        let low: u32 = u & 0xFF;
        assert(u >> 24 == u / 0x100_0000) by (bit_vector);
        assert(u & 0xFF == u % 256) by (bit_vector);
        if method == 1 {
            Transparency::ByBlock
        } else if method == 2 || method == 3 {
            Transparency::Explicit((255 - low) as u8)
        } else {
            Transparency::ByLayer
        }
    }
}

} // verus!

verus! {

/// Uppercase hexadecimal text of `b`, two digits per byte (`{:02X}` each).
pub open spec fn hex_encode(b: Seq<u8>) -> Seq<char>
    decreases b.len(),
{
    if b.len() == 0 {
        Seq::empty()
    } else {
        hex_encode(b.drop_last()) + seq![
            hex_digit((b.last() / 16) as int),
            hex_digit((b.last() % 16) as int),
        ]
    }
}

pub fn bytes_to_hex(b: &[u8]) -> (r: String)
    ensures
        r@ == hex_encode(b@),
{
    let mut r = String::new();
    let mut i: usize = 0;
    assert(b@.take(0) =~= Seq::<u8>::empty());
    while i < b.len()
        invariant
            i <= b@.len(),
            r@ == hex_encode(b@.take(i as int)),
        decreases b.len() - i,
    {
        let x = b[i];
        push_char(&mut r, digit_char((x / 16) as u64));
        push_char(&mut r, digit_char((x % 16) as u64));
        assert(b@.take(i + 1).drop_last() =~= b@.take(i as int));
        assert(r@ =~= hex_encode(b@.take(i + 1)));
        i += 1;
    }
    assert(b@.take(b@.len() as int) =~= b@);
    r
}

/// Number of bytes `c` takes in UTF-8.
pub open spec fn utf8_len(c: char) -> nat {
    if '\u{80}' > c {
        1
    } else if '\u{800}' > c {
        2
    } else if '\u{10000}' > c {
        3
    } else {
        4
    }
}

/// Number of bytes `s` takes in UTF-8 (std's `str::len`).
pub open spec fn utf8_byte_len(s: Seq<char>) -> nat
    decreases s.len(),
{
    if s.len() == 0 {
        0
    } else {
        utf8_byte_len(s.drop_last()) + utf8_len(s.last())
    }
}

/// Value of a hexadecimal digit, either case.
pub open spec fn hex_val(c: char) -> Option<u8> {
    if '0' <= c && c <= '9' {
        Some((c as u32 - 48) as u8)
    } else if 'a' <= c && c <= 'f' {
        Some((c as u32 - 87) as u8)
    } else if 'A' <= c && c <= 'F' {
        Some((c as u32 - 55) as u8)
    } else {
        None
    }
}

/// What `u8::from_str_radix(_, 16)` gives for a two-character ASCII string:
/// two hex digits, or `+` followed by one hex digit.
pub open spec fn hex_pair_value(c0: char, c1: char) -> Option<u8> {
    if hex_val(c0) is Some && hex_val(c1) is Some {
        Some((hex_val(c0)->0 * 16 + hex_val(c1)->0) as u8)
    } else if c0 == '+' && hex_val(c1) is Some {
        hex_val(c1)
    } else {
        None
    }
}

/// Bytes of the hexadecimal text `s`, read two characters at a time.
pub open spec fn hex_decode(s: Seq<char>) -> Option<Seq<u8>>
    decreases s.len(),
{
    if s.len() == 0 {
        Some(Seq::empty())
    } else if s.len() < 2 || !('\u{80}' > s[0]) || !('\u{80}' > s[1]) {
        None
    } else {
        match hex_pair_value(s[0], s[1]) {
            None => None,
            Some(v) => match hex_decode(s.skip(2)) {
                Some(rest) => Some(seq![v] + rest),
                None => None,
            },
        }
    }
}

/// Reading `s` two bytes at a time never slices through a character before
/// the first pair that fails to parse.
pub open spec fn hex_scan_safe(s: Seq<char>) -> bool
    decreases s.len(),
{
    if s.len() == 0 {
        true
    } else if !('\u{80}' > s[0]) {
        utf8_len(s[0]) == 2
    } else if s.len() < 2 {
        true
    } else if !('\u{80}' > s[1]) {
        false
    } else {
        match hex_pair_value(s[0], s[1]) {
            None => true,
            Some(_) => hex_scan_safe(s.skip(2)),
        }
    }
}

fn hex_val_exec(c: char) -> (r: Option<u8>)
    ensures
        r == hex_val(c),
{
    if '0' <= c && c <= '9' {
        Some((c as u32 - 48) as u8)
    } else if 'a' <= c && c <= 'f' {
        Some((c as u32 - 87) as u8)
    } else if 'A' <= c && c <= 'F' {
        Some((c as u32 - 55) as u8)
    } else {
        None
    }
}

fn hex_pair_value_exec(c0: char, c1: char) -> (r: Option<u8>)
    ensures
        r == hex_pair_value(c0, c1),
{
    match (hex_val_exec(c0), hex_val_exec(c1)) {
        (Some(a), Some(b)) => Some(a * 16 + b),
        (None, Some(b)) => if c0 == '+' {
            Some(b)
        } else {
            None
        },
        _ => None,
    }
}

/// Byte length of a prefix grows by the width of the next character.
pub proof fn lemma_utf8_byte_len_step(s: Seq<char>, i: int)
    requires
        0 <= i < s.len(),
    ensures
        utf8_byte_len(s.take(i + 1)) == utf8_byte_len(s.take(i)) + utf8_len(s[i]),
{
    assert(s.take(i + 1).drop_last() =~= s.take(i));
}

/// Parses text written by [`bytes_to_hex`]: `None` when the byte length is
/// odd or some pair is not a hex number.  Inputs on which std's byte
/// slicing would split a multi-byte character are excluded.
pub fn hex_to_bytes(s: &str) -> (r: Option<Vec<u8>>)
    requires
        utf8_byte_len(s@) % 2 == 1 || hex_scan_safe(s@),
    ensures
        utf8_byte_len(s@) % 2 == 1 ==> r is None,
        utf8_byte_len(s@) % 2 == 0 ==> match hex_decode(s@) {
            Some(b) => r matches Some(v) && v@ == b,
            None => r is None,
        },
{
    let v = chars_of(s);
    let mut odd = false;
    let mut i: usize = 0;
    assert(v@.take(0) =~= Seq::<char>::empty());
    while i < v.len()
        invariant
            v@ == s@,
            i <= v@.len(),
            odd == (utf8_byte_len(v@.take(i as int)) % 2 == 1),
        decreases v.len() - i,
    {
        proof {
            lemma_utf8_byte_len_step(v@, i as int);
        }
        let c = v[i];
        if '\u{80}' > c || ('\u{800}' <= c && '\u{10000}' > c) {
            odd = !odd;
        }
        i += 1;
    }
    assert(v@.take(v@.len() as int) =~= v@);
    if odd {
        return None;
    }
    let mut out: Vec<u8> = Vec::new();
    let mut j: usize = 0;
    assert(v@.skip(0) =~= v@);
    while j < v.len()
        invariant
            v@ == s@,
            j <= v@.len(),
            hex_scan_safe(v@.skip(j as int)),
            hex_decode(s@) == match hex_decode(v@.skip(j as int)) {
                Some(rest) => Some(out@ + rest),
                None => None::<Seq<u8>>,
            },
        decreases v.len() - j,
    {
        let ghost t = v@.skip(j as int);
        let c0 = v[j];
        if !('\u{80}' > c0) || j + 1 >= v.len() {
            assert(out@ + Seq::<u8>::empty() =~= out@);
            return None;
        }
        let c1 = v[j + 1];
        if !('\u{80}' > c1) {
            return None;
        }
        match hex_pair_value_exec(c0, c1) {
            None => {
                return None;
            },
            Some(x) => {
                assert(t.skip(2) =~= v@.skip(j + 2));
                proof {
                    match hex_decode(t.skip(2)) {
                        Some(rest) => {
                            assert(out@ + (seq![x] + rest) =~= out@.push(x) + rest);
                        },
                        None => {},
                    }
                }
                out.push(x);
                j += 2;
            },
        }
    }
    assert(v@.skip(j as int) =~= Seq::<char>::empty());
    assert(out@ + Seq::<u8>::empty() =~= out@);
    Some(out)
}

proof fn lemma_hex_val_digit(d: int)
    requires
        0 <= d < 16,
    ensures
        hex_val(hex_digit(d)) == Some(d as u8),
        hex_digit(d) < '\u{80}',
{
}

proof fn lemma_hex_encode_prepend(x: u8, rest: Seq<u8>)
    ensures
        hex_encode(seq![x] + rest) == seq![hex_digit((x / 16) as int), hex_digit((x % 16) as int)]
            + hex_encode(rest),
    decreases rest.len(),
{
    if rest.len() == 0 {
        assert(seq![x] + rest =~= seq![x]);
        assert(seq![x].drop_last() =~= Seq::<u8>::empty());
        assert(hex_encode(Seq::<u8>::empty()) =~= Seq::<char>::empty());
        assert(hex_encode(seq![x]) =~= seq![hex_digit((x / 16) as int), hex_digit((x % 16) as int)]);
    } else {
        lemma_hex_encode_prepend(x, rest.drop_last());
        assert((seq![x] + rest).drop_last() =~= seq![x] + rest.drop_last());
        assert((seq![x] + rest).last() == rest.last());
        assert(hex_encode(seq![x] + rest) =~= seq![hex_digit((x / 16) as int), hex_digit((x % 16) as int)]
            + hex_encode(rest));
    }
}

/// Hex text written by `bytes_to_hex` decodes to the same bytes.
proof fn lemma_hex_decode_encode(b: Seq<u8>)
    ensures
        hex_decode(hex_encode(b)) == Some(b),
        hex_scan_safe(hex_encode(b)),
        utf8_byte_len(hex_encode(b)) == 2 * b.len(),
    decreases b.len(),
{
    if b.len() == 0 {
        assert(hex_encode(b) =~= Seq::<char>::empty());
    } else {
        let x = b[0];
        let rest = b.skip(1);
        assert(b =~= seq![x] + rest);
        lemma_hex_encode_prepend(x, rest);
        lemma_hex_decode_encode(rest);
        let hi = hex_digit((x / 16) as int);
        let lo = hex_digit((x % 16) as int);
        lemma_hex_val_digit((x / 16) as int);
        lemma_hex_val_digit((x % 16) as int);
        let e = hex_encode(b);
        assert(e[0] == hi && e[1] == lo);
        assert(e.skip(2) =~= hex_encode(rest));
        assert(hex_pair_value(hi, lo) == Some(x));
        assert(seq![x] + rest =~= b);
        lemma_byte_len_prepend2(hi, lo, hex_encode(rest));
    }
}

proof fn lemma_byte_len_append(a: Seq<char>, b: Seq<char>)
    ensures
        utf8_byte_len(a + b) == utf8_byte_len(a) + utf8_byte_len(b),
    decreases b.len(),
{
    if b.len() == 0 {
        assert(a + b =~= a);
    } else {
        lemma_byte_len_append(a, b.drop_last());
        assert((a + b).drop_last() =~= a + b.drop_last());
    }
}

proof fn lemma_byte_len_prepend2(c0: char, c1: char, rest: Seq<char>)
    requires
        '\u{80}' > c0,
        '\u{80}' > c1,
    ensures
        utf8_byte_len(seq![c0, c1] + rest) == 2 + utf8_byte_len(rest),
{
    lemma_byte_len_append(seq![c0, c1], rest);
    assert(seq![c0, c1].drop_last() =~= seq![c0]);
    assert(seq![c0].drop_last() =~= Seq::<char>::empty());
    assert(seq![c0, c1].last() == c1);
    assert(seq![c0].last() == c0);
    assert(utf8_byte_len(Seq::<char>::empty()) == 0);
    assert(utf8_byte_len(seq![c0]) == 1);
    assert(utf8_byte_len(seq![c0, c1]) == 2);
}

/// An uppercase hexadecimal digit: `0`-`9` or `A`-`F`.
pub open spec fn is_upper_hex_digit(c: char) -> bool {
    ('0' <= c && c <= '9') || ('A' <= c && c <= 'F')
}

proof fn lemma_hex_encode_shape(b: Seq<u8>)
    ensures
        hex_encode(b).len() == 2 * b.len(),
        forall|i: int|
            0 <= i < b.len() ==> hex_encode(b)[2 * i] == hex_digit((b[i] / 16) as int) && hex_encode(b)[2 * i
                + 1] == hex_digit((b[i] % 16) as int),
    decreases b.len(),
{
    if b.len() > 0 {
        let p = b.drop_last();
        lemma_hex_encode_shape(p);
        let pair = seq![hex_digit((b.last() / 16) as int), hex_digit((b.last() % 16) as int)];
        assert(hex_encode(b) == hex_encode(p) + pair);
        assert forall|i: int| 0 <= i < b.len() implies hex_encode(b)[2 * i] == hex_digit((b[i] / 16) as int)
            && hex_encode(b)[2 * i + 1] == hex_digit((b[i] % 16) as int) by {
            if i < p.len() {
                assert(b[i] == p[i]);
                assert(hex_encode(b)[2 * i] == hex_encode(p)[2 * i]);
                assert(hex_encode(b)[2 * i + 1] == hex_encode(p)[2 * i + 1]);
            } else {
                assert(hex_encode(b)[2 * i] == pair[0]);
                assert(hex_encode(b)[2 * i + 1] == pair[1]);
            }
        }
    }
}

/// `bytes_to_hex` writes two uppercase hex digits per byte, high nibble
/// first; decoding that text gives back the bytes, and the text meets
/// `hex_to_bytes`'s precondition with an even byte length.
pub proof fn lemma_hex_round_trip(b: Seq<u8>)
    ensures
        hex_encode(b).len() == 2 * b.len(),
        forall|i: int| 0 <= i < hex_encode(b).len() ==> is_upper_hex_digit(#[trigger] hex_encode(b)[i]),
        forall|i: int|
            0 <= i < b.len() ==> hex_encode(b)[2 * i] == hex_digit((#[trigger] b[i] / 16) as int) && hex_encode(
                b,
            )[2 * i + 1] == hex_digit((b[i] % 16) as int),
        utf8_byte_len(hex_encode(b)) % 2 == 0,
        hex_scan_safe(hex_encode(b)),
        hex_decode(hex_encode(b)) == Some(b),
{
    lemma_hex_decode_encode(b);
    lemma_hex_encode_shape(b);
    assert forall|i: int| 0 <= i < hex_encode(b).len() implies is_upper_hex_digit(#[trigger] hex_encode(b)[i]) by {
        let k = i / 2;
        assert(0 <= k < b.len());
        if i % 2 == 0 {
            assert(i == 2 * k);
            assert(hex_encode(b)[2 * k] == hex_digit((b[k] / 16) as int));
        } else {
            assert(i == 2 * k + 1);
            assert(hex_encode(b)[2 * k + 1] == hex_digit((b[k] % 16) as int));
        }
    }
}

} // verus!

verus! {

/// Horizontal text alignment as acadrust's `TextHorizontalAlignment` holds it.
#[derive(Debug, Clone, Copy, PartialEq, Eq, Structural)]
pub enum TextHorizontalAlignment {
    Left,
    Center,
    Right,
    Aligned,
    Middle,
    Fit,
}

/// Vertical text alignment as acadrust's `TextVerticalAlignment` holds it.
#[derive(Debug, Clone, Copy, PartialEq, Eq, Structural)]
pub enum TextVerticalAlignment {
    Baseline,
    Bottom,
    Middle,
    Top,
}

/// MTEXT attachment point as acadrust's `AttachmentPoint` holds it.
#[derive(Debug, Clone, Copy, PartialEq, Eq, Structural)]
pub enum AttachmentPoint {
    TopLeft,
    TopCenter,
    TopRight,
    MiddleLeft,
    MiddleCenter,
    MiddleRight,
    BottomLeft,
    BottomCenter,
    BottomRight,
}

/// MTEXT drawing direction as acadrust's `DrawingDirection` holds it.
#[derive(Debug, Clone, Copy, PartialEq, Eq, Structural)]
pub enum DrawingDirection {
    LeftToRight,
    TopToBottom,
    ByStyle,
}

/// Multileader content as acadrust's `LeaderContentType` holds it
/// (`NoContent` is its `None`).
#[derive(Debug, Clone, Copy, PartialEq, Eq, Structural)]
pub enum LeaderContentType {
    NoContent,
    Block,
    MText,
    Tolerance,
}

/// Multileader path type as acadrust's `MultiLeaderPathType` holds it.
#[derive(Debug, Clone, Copy, PartialEq, Eq, Structural)]
pub enum MultiLeaderPathType {
    Invisible,
    StraightLineSegments,
    Spline,
}

pub open spec fn halign_of(v: int) -> TextHorizontalAlignment {
    if v == 1 {
        TextHorizontalAlignment::Center
    } else if v == 2 {
        TextHorizontalAlignment::Right
    } else if v == 3 {
        TextHorizontalAlignment::Aligned
    } else if v == 4 {
        TextHorizontalAlignment::Middle
    } else if v == 5 {
        TextHorizontalAlignment::Fit
    } else {
        TextHorizontalAlignment::Left
    }
}

pub open spec fn halign_code(a: TextHorizontalAlignment) -> int {
    match a {
        TextHorizontalAlignment::Left => 0,
        TextHorizontalAlignment::Center => 1,
        TextHorizontalAlignment::Right => 2,
        TextHorizontalAlignment::Aligned => 3,
        TextHorizontalAlignment::Middle => 4,
        TextHorizontalAlignment::Fit => 5,
    }
}

/// Horizontal alignment for a native code (0 left through 5 fit; other
/// codes left).
pub fn native_text_halign(value: i16) -> (a: TextHorizontalAlignment)
    ensures
        a == halign_of(value as int),
{
    match value {
        1 => TextHorizontalAlignment::Center,
        2 => TextHorizontalAlignment::Right,
        3 => TextHorizontalAlignment::Aligned,
        4 => TextHorizontalAlignment::Middle,
        5 => TextHorizontalAlignment::Fit,
        _ => TextHorizontalAlignment::Left,
    }
}

/// Native code of a horizontal alignment.
pub fn acad_text_halign(value: TextHorizontalAlignment) -> (c: i16)
    ensures
        c == halign_code(value),
{
    match value {
        TextHorizontalAlignment::Center => 1,
        TextHorizontalAlignment::Right => 2,
        TextHorizontalAlignment::Aligned => 3,
        TextHorizontalAlignment::Middle => 4,
        TextHorizontalAlignment::Fit => 5,
        TextHorizontalAlignment::Left => 0,
    }
}

pub open spec fn valign_of(v: int) -> TextVerticalAlignment {
    if v == 1 {
        TextVerticalAlignment::Bottom
    } else if v == 2 {
        TextVerticalAlignment::Middle
    } else if v == 3 {
        TextVerticalAlignment::Top
    } else {
        TextVerticalAlignment::Baseline
    }
}

pub open spec fn valign_code(a: TextVerticalAlignment) -> int {
    match a {
        TextVerticalAlignment::Baseline => 0,
        TextVerticalAlignment::Bottom => 1,
        TextVerticalAlignment::Middle => 2,
        TextVerticalAlignment::Top => 3,
    }
}

/// Vertical alignment for a native code (0 baseline through 3 top; other
/// codes baseline).
pub fn native_text_valign(value: i16) -> (a: TextVerticalAlignment)
    ensures
        a == valign_of(value as int),
{
    match value {
        1 => TextVerticalAlignment::Bottom,
        2 => TextVerticalAlignment::Middle,
        3 => TextVerticalAlignment::Top,
        _ => TextVerticalAlignment::Baseline,
    }
}

/// Native code of a vertical alignment.
pub fn acad_text_valign(value: TextVerticalAlignment) -> (c: i16)
    ensures
        c == valign_code(value),
{
    match value {
        TextVerticalAlignment::Bottom => 1,
        TextVerticalAlignment::Middle => 2,
        TextVerticalAlignment::Top => 3,
        TextVerticalAlignment::Baseline => 0,
    }
}

pub open spec fn attachment_of(v: int) -> AttachmentPoint {
    if v == 2 {
        AttachmentPoint::TopCenter
    } else if v == 3 {
        AttachmentPoint::TopRight
    } else if v == 4 {
        AttachmentPoint::MiddleLeft
    } else if v == 5 {
        AttachmentPoint::MiddleCenter
    } else if v == 6 {
        AttachmentPoint::MiddleRight
    } else if v == 7 {
        AttachmentPoint::BottomLeft
    } else if v == 8 {
        AttachmentPoint::BottomCenter
    } else if v == 9 {
        AttachmentPoint::BottomRight
    } else {
        AttachmentPoint::TopLeft
    }
}

pub open spec fn attachment_code(a: AttachmentPoint) -> int {
    match a {
        AttachmentPoint::TopLeft => 1,
        AttachmentPoint::TopCenter => 2,
        AttachmentPoint::TopRight => 3,
        AttachmentPoint::MiddleLeft => 4,
        AttachmentPoint::MiddleCenter => 5,
        AttachmentPoint::MiddleRight => 6,
        AttachmentPoint::BottomLeft => 7,
        AttachmentPoint::BottomCenter => 8,
        AttachmentPoint::BottomRight => 9,
    }
}

/// MTEXT attachment for a native code (1 top-left through 9 bottom-right;
/// other codes top-left).
pub fn native_mtext_attachment(value: i16) -> (a: AttachmentPoint)
    ensures
        a == attachment_of(value as int),
{
    match value {
        2 => AttachmentPoint::TopCenter,
        3 => AttachmentPoint::TopRight,
        4 => AttachmentPoint::MiddleLeft,
        5 => AttachmentPoint::MiddleCenter,
        6 => AttachmentPoint::MiddleRight,
        7 => AttachmentPoint::BottomLeft,
        8 => AttachmentPoint::BottomCenter,
        9 => AttachmentPoint::BottomRight,
        _ => AttachmentPoint::TopLeft,
    }
}

/// Native code of an MTEXT attachment.
pub fn acad_mtext_attachment(value: AttachmentPoint) -> (c: i16)
    ensures
        c == attachment_code(value),
{
    match value {
        AttachmentPoint::TopLeft => 1,
        AttachmentPoint::TopCenter => 2,
        AttachmentPoint::TopRight => 3,
        AttachmentPoint::MiddleLeft => 4,
        AttachmentPoint::MiddleCenter => 5,
        AttachmentPoint::MiddleRight => 6,
        AttachmentPoint::BottomLeft => 7,
        AttachmentPoint::BottomCenter => 8,
        AttachmentPoint::BottomRight => 9,
    }
}

pub open spec fn direction_of(v: int) -> DrawingDirection {
    if v == 3 {
        DrawingDirection::TopToBottom
    } else if v == 5 {
        DrawingDirection::ByStyle
    } else {
        DrawingDirection::LeftToRight
    }
}

pub open spec fn direction_code(d: DrawingDirection) -> int {
    match d {
        DrawingDirection::LeftToRight => 1,
        DrawingDirection::TopToBottom => 3,
        DrawingDirection::ByStyle => 5,
    }
}

/// MTEXT drawing direction for a native code (3 top-to-bottom, 5 by
/// style, anything else left-to-right).
pub fn native_mtext_direction(value: i16) -> (d: DrawingDirection)
    ensures
        d == direction_of(value as int),
{
    match value {
        3 => DrawingDirection::TopToBottom,
        5 => DrawingDirection::ByStyle,
        _ => DrawingDirection::LeftToRight,
    }
}

/// Native code of an MTEXT drawing direction.
pub fn acad_mtext_direction(value: DrawingDirection) -> (c: i16)
    ensures
        c == direction_code(value),
{
    match value {
        DrawingDirection::TopToBottom => 3,
        DrawingDirection::ByStyle => 5,
        DrawingDirection::LeftToRight => 1,
    }
}

pub open spec fn content_type_of(v: int) -> LeaderContentType {
    if v == 2 {
        LeaderContentType::Block
    } else if v == 3 {
        LeaderContentType::Tolerance
    } else if v == 1 {
        LeaderContentType::MText
    } else {
        LeaderContentType::NoContent
    }
}

pub open spec fn content_type_code(t: LeaderContentType) -> int {
    match t {
        LeaderContentType::NoContent => 0,
        LeaderContentType::MText => 1,
        LeaderContentType::Block => 2,
        LeaderContentType::Tolerance => 3,
    }
}

/// Multileader content for a native code (1 MText, 2 block, 3 tolerance,
/// anything else none).
pub fn native_mleader_content_type(value: i16) -> (t: LeaderContentType)
    ensures
        t == content_type_of(value as int),
{
    match value {
        2 => LeaderContentType::Block,
        3 => LeaderContentType::Tolerance,
        1 => LeaderContentType::MText,
        _ => LeaderContentType::NoContent,
    }
}

/// Native code of a multileader content type.
pub fn acad_mleader_content_type(value: LeaderContentType) -> (c: i16)
    ensures
        c == content_type_code(value),
{
    match value {
        LeaderContentType::Block => 2,
        LeaderContentType::Tolerance => 3,
        LeaderContentType::MText => 1,
        LeaderContentType::NoContent => 0,
    }
}

pub open spec fn path_type_of(v: int) -> MultiLeaderPathType {
    if v == 2 {
        MultiLeaderPathType::Spline
    } else if v == 0 {
        MultiLeaderPathType::Invisible
    } else {
        MultiLeaderPathType::StraightLineSegments
    }
}

pub open spec fn path_type_code(t: MultiLeaderPathType) -> int {
    match t {
        MultiLeaderPathType::Invisible => 0,
        MultiLeaderPathType::StraightLineSegments => 1,
        MultiLeaderPathType::Spline => 2,
    }
}

/// Multileader path type for a native code (0 invisible, 2 spline,
/// anything else straight segments).
pub fn native_mleader_path_type(value: i16) -> (t: MultiLeaderPathType)
    ensures
        t == path_type_of(value as int),
{
    match value {
        2 => MultiLeaderPathType::Spline,
        0 => MultiLeaderPathType::Invisible,
        _ => MultiLeaderPathType::StraightLineSegments,
    }
}

/// Native code of a multileader path type.
pub fn acad_mleader_path_type(value: MultiLeaderPathType) -> (c: i16)
    ensures
        c == path_type_code(value),
{
    match value {
        MultiLeaderPathType::Spline => 2,
        MultiLeaderPathType::Invisible => 0,
        MultiLeaderPathType::StraightLineSegments => 1,
    }
}

/// Converting a text or leader setting to its native code and back gives
/// the setting again; converting a code in each setting's range to the
/// setting and back gives the code again.
pub proof fn lemma_text_codes_round_trip(
    h: TextHorizontalAlignment,
    v: TextVerticalAlignment,
    a: AttachmentPoint,
    d: DrawingDirection,
    t: LeaderContentType,
    p: MultiLeaderPathType,
    code: int,
)
    ensures
        halign_of(halign_code(h)) == h,
        valign_of(valign_code(v)) == v,
        attachment_of(attachment_code(a)) == a,
        direction_of(direction_code(d)) == d,
        content_type_of(content_type_code(t)) == t,
        path_type_of(path_type_code(p)) == p,
        0 <= code <= 5 ==> halign_code(halign_of(code)) == code,
        0 <= code <= 3 ==> valign_code(valign_of(code)) == code,
        1 <= code <= 9 ==> attachment_code(attachment_of(code)) == code,
        (code == 1 || code == 3 || code == 5) ==> direction_code(direction_of(code)) == code,
        0 <= code <= 3 ==> content_type_code(content_type_of(code)) == code,
        0 <= code <= 2 ==> path_type_code(path_type_of(code)) == code,
{
}

/// The horizontal column of an MTEXT attachment point, read off its name.
pub open spec fn attachment_column(a: AttachmentPoint) -> TextHorizontalAlignment {
    match a {
        AttachmentPoint::TopLeft | AttachmentPoint::MiddleLeft | AttachmentPoint::BottomLeft => {
            TextHorizontalAlignment::Left
        },
        AttachmentPoint::TopCenter | AttachmentPoint::MiddleCenter | AttachmentPoint::BottomCenter => {
            TextHorizontalAlignment::Center
        },
        AttachmentPoint::TopRight | AttachmentPoint::MiddleRight | AttachmentPoint::BottomRight => {
            TextHorizontalAlignment::Right
        },
    }
}

/// The vertical row of an MTEXT attachment point, read off its name.
pub open spec fn attachment_row(a: AttachmentPoint) -> TextVerticalAlignment {
    match a {
        AttachmentPoint::TopLeft | AttachmentPoint::TopCenter | AttachmentPoint::TopRight => {
            TextVerticalAlignment::Top
        },
        AttachmentPoint::MiddleLeft | AttachmentPoint::MiddleCenter | AttachmentPoint::MiddleRight => {
            TextVerticalAlignment::Middle
        },
        AttachmentPoint::BottomLeft | AttachmentPoint::BottomCenter | AttachmentPoint::BottomRight => {
            TextVerticalAlignment::Bottom
        },
    }
}

/// The text alignment codes are DXF's group 72 and 73 values, and they
/// agree with the MTEXT attachment codes (group 71, numbered row by row
/// from the top left): an attachment's column has horizontal code
/// `(code - 1) % 3` (left 0, center 1, right 2) and its row has vertical
/// code `3 - (code - 1) / 3` (top 3, middle 2, bottom 1).
pub proof fn lemma_alignment_codes_match_attachment(a: AttachmentPoint, v: int)
    ensures
        halign_code(attachment_column(a)) == (attachment_code(a) - 1) % 3,
        valign_code(attachment_row(a)) == 3 - (attachment_code(a) - 1) / 3,
        1 <= v <= 9 ==> halign_of((v - 1) % 3) == attachment_column(attachment_of(v)),
        1 <= v <= 9 ==> valign_of(3 - (v - 1) / 3) == attachment_row(attachment_of(v)),
        halign_of(0) == TextHorizontalAlignment::Left,
        halign_of(1) == TextHorizontalAlignment::Center,
        halign_of(2) == TextHorizontalAlignment::Right,
        halign_of(3) == TextHorizontalAlignment::Aligned,
        halign_of(4) == TextHorizontalAlignment::Middle,
        halign_of(5) == TextHorizontalAlignment::Fit,
        !(0 <= v <= 5) ==> halign_of(v) == TextHorizontalAlignment::Left,
        valign_of(0) == TextVerticalAlignment::Baseline,
        valign_of(1) == TextVerticalAlignment::Bottom,
        valign_of(2) == TextVerticalAlignment::Middle,
        valign_of(3) == TextVerticalAlignment::Top,
        !(0 <= v <= 3) ==> valign_of(v) == TextVerticalAlignment::Baseline,
{
}

} // verus!
