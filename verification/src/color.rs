//! Hex colours for wallpaper fill and letterbox areas.

use std::str::FromStr;

use vstd::prelude::*;
use vstd::utf8::*;

verus! {

/// An opaque-by-default RGBA colour, written `#RGB`, `#RRGGBB` or
/// `#RRGGBBAA` (the leading `#` is optional).
#[derive(Debug, Clone, Copy, PartialEq, Eq, Structural)]
pub struct Color {
    pub r: u8,
    pub g: u8,
    pub b: u8,
    pub a: u8,
}

/// How much each channel value darkens under one dim setting: a table of what
/// each of the 256 values becomes.
#[derive(Debug)]
pub struct DimSteps {
    steps: Vec<u8>,
}

/// Why a colour string was refused.
#[derive(Debug, Clone, Copy, PartialEq, Eq, Structural)]
pub enum ParseColorError {
    /// Not 3, 6 or 8 bytes after the optional `#`.
    Length,
    /// A byte that is not a hex digit.
    Digit,
}

// ------------------------------------------------------------------- model

/// The value of a hex digit, upper or lower case.
pub open spec fn hex_value(b: u8) -> Option<u8> {
    if 0x30 <= b <= 0x39 {
        Some((b - 0x30) as u8)
    } else if 0x61 <= b <= 0x66 {
        Some((b - 0x61 + 10) as u8)
    } else if 0x41 <= b <= 0x46 {
        Some((b - 0x41 + 10) as u8)
    } else {
        None
    }
}

/// Every byte is a hex digit.
pub open spec fn all_hex(h: Seq<u8>) -> bool {
    forall|i: int| 0 <= i < h.len() ==> hex_value(#[trigger] h[i]) is Some
}

/// The digits after the optional leading `#`.
pub open spec fn without_hash(s: Seq<u8>) -> Seq<u8> {
    if s.len() > 0 && s[0] == 0x23 {
        s.skip(1)
    } else {
        s
    }
}

/// A one-digit channel: the digit doubled.
pub open spec fn short_channel(h: Seq<u8>, i: int) -> u8 {
    (hex_value(h[i])->0 * 17) as u8
}

/// A two-digit channel, starting at `i`.
pub open spec fn long_channel(h: Seq<u8>, i: int) -> u8 {
    (hex_value(h[i])->0 * 16 + hex_value(h[i + 1])->0) as u8
}

/// What the UTF-8 bytes `s` denote as a colour.
pub open spec fn parsed(s: Seq<u8>) -> Result<Color, ParseColorError> {
    let h = without_hash(s);
    if h.len() != 3 && h.len() != 6 && h.len() != 8 {
        Err(ParseColorError::Length)
    } else if !all_hex(h) {
        Err(ParseColorError::Digit)
    } else if h.len() == 3 {
        Ok(
            Color {
                r: short_channel(h, 0),
                g: short_channel(h, 1),
                b: short_channel(h, 2),
                a: 255,
            },
        )
    } else {
        Ok(
            Color {
                r: long_channel(h, 0),
                g: long_channel(h, 2),
                b: long_channel(h, 4),
                a: if h.len() == 8 {
                    long_channel(h, 6)
                } else {
                    255
                },
            },
        )
    }
}

/// The lower-case digit character of `d < 16`.
pub open spec fn hex_char(d: u8) -> char {
    if d < 10 {
        (d + 0x30) as char
    } else {
        (d - 10 + 0x61) as char
    }
}

/// The two lower-case digits of one channel.
pub open spec fn hex_pair(v: u8) -> Seq<char> {
    seq![hex_char(v / 16), hex_char(v % 16)]
}

/// The canonical text of a colour: `#rrggbb`, or `#rrggbbaa` when it is not
/// opaque.
pub open spec fn shown(c: Color) -> Seq<char> {
    let rgb = seq!['#'] + hex_pair(c.r) + hex_pair(c.g) + hex_pair(c.b);
    if c.a == 255 {
        rgb
    } else {
        rgb + hex_pair(c.a)
    }
}

/// A channel scaled by the alpha, rounded down.
pub open spec fn premultiplied(c: u8, a: u8) -> u8 {
    (c * a / 255) as u8
}

/// The four bytes of one `Xrgb8888` / `Argb8888` pixel in memory order.
pub open spec fn shm_bgra(c: Color) -> Seq<u8> {
    seq![premultiplied(c.b, c.a), premultiplied(c.g, c.a), premultiplied(c.r, c.a), c.a]
}

/// `c` with its RGB channels darkened; the alpha stays.
pub open spec fn darkened(c: Color, steps: Seq<u8>) -> Color {
    Color { r: steps[c.r as int], g: steps[c.g as int], b: steps[c.b as int], a: c.a }
}

impl View for DimSteps {
    type V = Seq<u8>;

    closed spec fn view(&self) -> Seq<u8> {
        self.steps@
    }
}

impl DimSteps {
    #[verifier::type_invariant]
    spec fn complete(self) -> bool {
        self.steps@.len() == 256
    }
}

// -------------------------------------------------------------------- code

impl DimSteps {
    /// The table with these entries; none unless there are 256.
    pub fn new(steps: Vec<u8>) -> (r: Option<DimSteps>)
        ensures
            match r {
                Some(d) => steps@.len() == 256 && d@ == steps@,
                None => steps@.len() != 256,
            },
    {
        if steps.len() == 256 {
            Some(DimSteps { steps })
        } else {
            None
        }
    }
}


fn hex_digit(b: u8) -> (r: Option<u8>)
    ensures
        r == hex_value(b),
        r matches Some(v) ==> v < 16,
{
    if 0x30 <= b && b <= 0x39 {
        Some(b - 0x30)
    } else if 0x61 <= b && b <= 0x66 {
        Some(b - 0x61 + 10)
    } else if 0x41 <= b && b <= 0x46 {
        Some(b - 0x41 + 10)
    } else {
        None
    }
}

/// The values of the digits `bytes[from..]`, or `None` if one is not a digit.
fn digits(bytes: &[u8], from: usize) -> (r: Option<Vec<u8>>)
    requires
        from <= bytes@.len(),
    ensures
        r is Some <==> all_hex(bytes@.skip(from as int)),
        r matches Some(v) ==> {
            &&& v@.len() == bytes@.len() - from
            &&& forall|i: int|
                #![trigger v@[i]]
                0 <= i < v@.len() ==> hex_value(bytes@.skip(from as int)[i]) == Some(v@[i])
                    && v@[i] < 16
        },
{
    let mut out: Vec<u8> = Vec::new();
    let mut i: usize = from;
    let ghost h = bytes@.skip(from as int);
    while i < bytes.len()
        invariant
            from <= i <= bytes@.len(),
            h == bytes@.skip(from as int),
            out@.len() == i - from,
            forall|j: int|
                #![trigger out@[j]]
                0 <= j < out@.len() ==> hex_value(h[j]) == Some(out@[j]) && out@[j] < 16,
        decreases bytes@.len() - i,
    {
        match hex_digit(bytes[i]) {
            Some(v) => out.push(v),
            None => {
                assert(hex_value(h[i - from]) is None);
                return None;
            },
        }
        i += 1;
    }
    assert forall|j: int| 0 <= j < h.len() implies hex_value(#[trigger] h[j]) is Some by {
        assert(hex_value(h[j]) == Some(out@[j]));
    }
    Some(out)
}

fn digit_to_char(d: u8) -> (r: char)
    requires
        d < 16,
    ensures
        r == hex_char(d),
{
    if d < 10 {
        (d + 0x30) as char
    } else {
        (d - 10 + 0x61) as char
    }
}

fn push_hex_pair(out: &mut String, v: u8)
    ensures
        final(out)@ == old(out)@ + hex_pair(v),
{
    out.push(digit_to_char(v / 16));
    out.push(digit_to_char(v % 16));
    assert(out@ =~= old(out)@ + hex_pair(v));
}

fn premultiply(c: u8, a: u8) -> (r: u8)
    ensures
        r == premultiplied(c, a),
{
    assert(c as int * a as int <= 255 * 255) by (nonlinear_arith)
        requires
            0 <= c <= 255,
            0 <= a <= 255,
    ;
    ((c as u16 * a as u16) / 255) as u8
}

impl Color {
    /// Opaque black, the colour of an output that nothing was configured for.
    #[verifier::allow_in_spec]
    pub fn black() -> Color
        returns
            (Color { r: 0, g: 0, b: 0, a: 255 }),
    {
        Color { r: 0, g: 0, b: 0, a: 255 }
    }

    /// This colour with its RGB channels darkened: the dimmed overview backdrop
    /// of a colour-only wallpaper.
    #[must_use]
    pub fn dimmed(self, dim: &DimSteps) -> (r: Color)
        ensures
            r == darkened(self, dim@),
    {
        proof {
            use_type_invariant(dim);
        }
        Color {
            r: dim.steps[self.r as usize],
            g: dim.steps[self.g as usize],
            b: dim.steps[self.b as usize],
            a: self.a,
        }
    }

    /// Premultiplied-alpha BGRA, the byte order of a `wl_shm`
    /// `Argb8888` / `Xrgb8888` buffer on little-endian.
    #[must_use]
    pub fn to_shm_bgra(self) -> (r: [u8; 4])
        ensures
            r@ == shm_bgra(self),
    {
        [premultiply(self.b, self.a), premultiply(self.g, self.a), premultiply(self.r, self.a), self.a]
    }

    /// Parse `#RGB`, `#RRGGBB` or `#RRGGBBAA`, the `#` being optional.
    pub fn parse(s: &str) -> (r: Result<Color, ParseColorError>)
        ensures
            r == parsed(encode_utf8(s@)),
    {
        let bytes = s.as_bytes();
        let from: usize = if bytes.len() > 0 && bytes[0] == 0x23 {
            1
        } else {
            0
        };
        let ghost h = without_hash(bytes@);
        assert(h =~= bytes@.skip(from as int));
        let n: usize = bytes.len() - from;
        if n != 3 && n != 6 && n != 8 {
            return Err(ParseColorError::Length);
        }
        let v = match digits(bytes, from) {
            Some(v) => v,
            None => return Err(ParseColorError::Digit),
        };
        assert forall|i: int| 0 <= i < h.len() implies hex_value(#[trigger] h[i]) == Some(v@[i]) by {
            let t = v@[i];
        }
        if n == 3 {
            Ok(Color { r: v[0] * 17, g: v[1] * 17, b: v[2] * 17, a: 255 })
        } else {
            let a: u8 = if n == 8 {
                v[6] * 16 + v[7]
            } else {
                255
            };
            Ok(Color { r: v[0] * 16 + v[1], g: v[2] * 16 + v[3], b: v[4] * 16 + v[5], a })
        }
    }

    /// The canonical text: `#rrggbb`, or `#rrggbbaa` when not opaque.
    pub fn to_string(&self) -> (r: String)
        ensures
            r@ == shown(*self),
    {
        let mut out = String::new();
        out.push('#');
        push_hex_pair(&mut out, self.r);
        push_hex_pair(&mut out, self.g);
        push_hex_pair(&mut out, self.b);
        if self.a != 255 {
            push_hex_pair(&mut out, self.a);
        }
        assert(out@ =~= shown(*self));
        out
    }
}

impl ParseColorError {
    /// The message shown to the user.
    pub fn to_string(&self) -> (r: String)
        ensures
            r@ == match *self {
                ParseColorError::Length => "expected a hex colour: #RGB, #RRGGBB, or #RRGGBBAA"@,
                ParseColorError::Digit => "colour contains a non-hex digit"@,
            },
    {
        match self {
            ParseColorError::Length => {
                "expected a hex colour: #RGB, #RRGGBB, or #RRGGBBAA".to_string()
            },
            ParseColorError::Digit => "colour contains a non-hex digit".to_string(),
        }
    }
}

impl FromStr for Color {
    type Err = ParseColorError;

    fn from_str(s: &str) -> (r: Result<Self, ParseColorError>)
        ensures
            r == parsed(encode_utf8(s@)),
    {
        Color::parse(s)
    }
}

impl Default for Color {
    fn default() -> (r: Self)
        ensures
            r == Color::black(),
    {
        Color::black()
    }
}

// -------------------------------------------------------------------- laws

/// Reading a colour's canonical text gives the colour back.
pub proof fn law_shown_parses_back(c: Color)
    ensures
        parsed(encode_utf8(shown(c))) == Ok::<Color, ParseColorError>(c),
{
    let t = shown(c);
    let s = encode_utf8(t);
    assert(is_ascii_chars(t)) by {
        reveal(is_ascii_chars);
    }
    is_ascii_chars_encode_utf8(t);
    let h = without_hash(s);
    assert(s[0] == 0x23);
    assert forall|i: int| 0 <= i < h.len() implies hex_value(#[trigger] h[i]) is Some by {
        assert(h[i] == t[i + 1] as u8);
    }
}

/// The leading `#` makes no difference to digits that do not start with one.
pub proof fn law_hash_is_optional(digits: Seq<u8>)
    requires
        digits.len() == 0 || digits[0] != 0x23,
    ensures
        parsed(seq![0x23u8] + digits) == parsed(digits),
{
    assert(without_hash(seq![0x23u8] + digits) =~= digits);
}

/// Premultiplying never makes a channel brighter than the alpha, and leaves an
/// opaque colour's channels as they are.
pub proof fn law_premultiplied_bounds(c: u8, a: u8)
    ensures
        premultiplied(c, a) <= a,
        premultiplied(c, a) <= c,
        a == 255 ==> premultiplied(c, a) == c,
        a == 0 ==> premultiplied(c, a) == 0,
{
    assert(0 <= c as int * a as int / 255 <= a as int && c as int * a as int / 255 <= c as int) by (nonlinear_arith)
        requires
            0 <= c <= 255,
            0 <= a <= 255,
    ;
}

/// A pixel in memory is blue, green, red, alpha; each colour channel is scaled by
/// the alpha and rounded down.
pub proof fn law_shm_bgra_is_premultiplied(c: Color)
    ensures
        ({
            let p = shm_bgra(c);
            &&& p.len() == 4
            &&& 255 * p[0] <= c.b * c.a < 255 * p[0] + 255
            &&& 255 * p[1] <= c.g * c.a < 255 * p[1] + 255
            &&& 255 * p[2] <= c.r * c.a < 255 * p[2] + 255
            &&& p[3] == c.a
        }),
{
    lemma_scaled_channel(c.b, c.a);
    lemma_scaled_channel(c.g, c.a);
    lemma_scaled_channel(c.r, c.a);
}

proof fn lemma_scaled_channel(c: u8, a: u8)
    ensures
        255 * premultiplied(c, a) <= c * a < 255 * premultiplied(c, a) + 255,
{
    assert(0 <= c as int * a as int <= 255 * 255) by (nonlinear_arith)
        requires
            0 <= c <= 255,
            0 <= a <= 255,
    ;
}

/// The digits `0` to `9`, `a` to `f` and `A` to `F` stand for 0 to 15, and
/// nothing else is a digit.
pub proof fn law_hex_digits(b: u8, v: u8)
    ensures
        hex_value(b) == Some(v) <==> v < 10 && b == 48 + v || 10 <= v < 16 && (b == 87 + v || b
            == 55 + v),
{
}

/// A colour of three digits is the colour of six in which each is doubled.
pub proof fn law_short_form_doubles_digits(a: u8, b: u8, c: u8)
    requires
        a != 0x23,
    ensures
        parsed(seq![a, b, c]) is Ok ==> parsed(seq![a, b, c]) == parsed(seq![a, a, b, b, c, c]),
        parsed(seq![a, b, c]) is Ok <==> hex_value(a) is Some && hex_value(b) is Some && hex_value(
            c,
        ) is Some,
{
    let short = seq![a, b, c];
    let long = seq![a, a, b, b, c, c];
    assert(all_hex(short) <==> hex_value(a) is Some && hex_value(b) is Some && hex_value(c)
        is Some) by {
        if all_hex(short) {
            assert(hex_value(short[0]) is Some && hex_value(short[1]) is Some && hex_value(short[2])
                is Some);
        }
    }
}

/// What eight digits denote: red, green, blue and alpha, two digits each, the
/// first worth sixteen times its value. With six digits the colour is opaque.
pub proof fn law_long_form_channels(h: Seq<u8>, v: Seq<u8>)
    requires
        h.len() == 6 || h.len() == 8,
        v.len() == h.len(),
        forall|i: int| 0 <= i < h.len() ==> hex_value(#[trigger] h[i]) == Some(v[i]),
    ensures
        ({
            let c = parsed(h)->Ok_0;
            &&& parsed(h) is Ok
            &&& c.r == 16 * v[0] + v[1]
            &&& c.g == 16 * v[2] + v[3]
            &&& c.b == 16 * v[4] + v[5]
            &&& c.a == (if h.len() == 8 {
                16 * v[6] + v[7]
            } else {
                255
            })
        }),
{
    assert(hex_value(h[0]) == Some(v[0]) && hex_value(h[1]) == Some(v[1]));
    assert(hex_value(h[2]) == Some(v[2]) && hex_value(h[3]) == Some(v[3]));
    assert(hex_value(h[4]) == Some(v[4]) && hex_value(h[5]) == Some(v[5]));
    if h.len() == 8 {
        assert(hex_value(h[6]) == Some(v[6]) && hex_value(h[7]) == Some(v[7]));
    }
}

/// A colour is refused for its length if it has not three, six or eight digits,
/// and otherwise for a digit exactly if it has a byte that is none.
pub proof fn law_what_is_no_colour(h: Seq<u8>)
    requires
        h.len() == 0 || h[0] != 0x23,
    ensures
        parsed(h) == Err::<Color, ParseColorError>(ParseColorError::Length) <==> h.len() != 3
            && h.len() != 6 && h.len() != 8,
        parsed(h) == Err::<Color, ParseColorError>(ParseColorError::Digit) <==> (h.len() == 3
            || h.len() == 6 || h.len() == 8) && exists|i: int|
            0 <= i < h.len() && hex_value(#[trigger] h[i]) is None,
{
}

/// Darkening replaces each colour channel by its entry in the table, and leaves
/// the alpha.
pub proof fn law_darkening_goes_channel_by_channel(c: Color, steps: Seq<u8>)
    ensures
        darkened(c, steps).r == steps[c.r as int],
        darkened(c, steps).g == steps[c.g as int],
        darkened(c, steps).b == steps[c.b as int],
        darkened(c, steps).a == c.a,
{
}

/// The canonical text starts with `#` and the two digits of red, green and blue,
/// and ends there exactly if the colour is opaque; otherwise the two digits of
/// the alpha follow.
pub proof fn law_canonical_text(c: Color)
    ensures
        ({
            let t = shown(c);
            &&& t.len() == (if c.a == 255 {
                7nat
            } else {
                9nat
            })
            &&& t[0] == '#'
            &&& forall|i: int| 1 <= i < t.len() ==> ('0' <= #[trigger] t[i] <= '9' || 'a' <= t[i] <= 'f')
            &&& hex_value(t[1] as u8) == Some((c.r / 16) as u8)
            &&& hex_value(t[2] as u8) == Some((c.r % 16) as u8)
            &&& hex_value(t[3] as u8) == Some((c.g / 16) as u8)
            &&& hex_value(t[4] as u8) == Some((c.g % 16) as u8)
            &&& hex_value(t[5] as u8) == Some((c.b / 16) as u8)
            &&& hex_value(t[6] as u8) == Some((c.b % 16) as u8)
            &&& c.a != 255 ==> hex_value(t[7] as u8) == Some((c.a / 16) as u8) && hex_value(
                t[8] as u8,
            ) == Some((c.a % 16) as u8)
        }),
{
}

} // verus!
