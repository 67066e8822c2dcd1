use vstd::prelude::*;

use crate::element::FillSpan;
use crate::model::RgbaColor;
use vstd::relations::{sorted_by, total_ordering};
use crate::text::{decimal_chars, digit_char, push_char, push_decimal, string_of};
use vstd::string::StringExecFns;

verus! {

/// Whether an exported picture keeps the canvas background or only the drawing.
#[derive(Debug, Clone, Copy, PartialEq, Eq, Structural)]
pub enum RasterBackground {
    Opaque,
    Transparent,
}

/// Why a picture could not be exported.
#[derive(Debug, Clone, PartialEq, Eq)]
pub enum RenderError {
    InvalidCanvasSize,
    PngEncode(String),
}

impl RenderError {
    pub open spec fn spec_message(&self) -> Seq<char> {
        match self {
            RenderError::InvalidCanvasSize => "Canvas size must be finite and greater than zero"@,
            RenderError::PngEncode(error) => "PNG encoding failed: "@ + error@,
        }
    }

    /// The text shown for the error.
    pub fn message(&self) -> (r: String)
        ensures
            r@ == self.spec_message(),
    {
        match self {
            RenderError::InvalidCanvasSize => string_of(
                "Canvas size must be finite and greater than zero",
            ),
            RenderError::PngEncode(error) => {
                let mut s = string_of("PNG encoding failed: ");
                s.append(error.as_str());
                s
            },
        }
    }
}

/// Lower-case hexadecimal digit of `d` (below 16).
pub open spec fn hex_char(d: nat) -> char {
    if d < 10 {
        digit_char(d)
    } else {
        ((87 + d) as u32) as char
    }
}

/// Two hexadecimal digits of a byte.
pub open spec fn hex_byte(v: u8) -> Seq<char> {
    seq![hex_char((v / 16) as nat), hex_char((v % 16) as nat)]
}

fn hex_digit(d: u8) -> (c: char)
    requires
        d < 16,
    ensures
        c == hex_char(d as nat),
{
    match d {
        0 => '0',
        1 => '1',
        2 => '2',
        3 => '3',
        4 => '4',
        5 => '5',
        6 => '6',
        7 => '7',
        8 => '8',
        9 => '9',
        10 => 'a',
        11 => 'b',
        12 => 'c',
        13 => 'd',
        14 => 'e',
        _ => 'f',
    }
}

/// The color as `#rrggbb` in lower-case hexadecimal.
pub fn svg_rgb(color: RgbaColor) -> (r: String)
    ensures
        r@ == seq!['#'] + hex_byte(color.r) + hex_byte(color.g) + hex_byte(color.b),
{
    let mut s = string_of("#");
    push_char(&mut s, hex_digit(color.r / 16));
    push_char(&mut s, hex_digit(color.r % 16));
    push_char(&mut s, hex_digit(color.g / 16));
    push_char(&mut s, hex_digit(color.g % 16));
    push_char(&mut s, hex_digit(color.b / 16));
    push_char(&mut s, hex_digit(color.b % 16));
    proof {
        reveal_strlit("#");
    }
    assert(s@ =~= seq!['#'] + hex_byte(color.r) + hex_byte(color.g) + hex_byte(color.b));
    s
}

/// The opacity `a / 255` in ten-thousandths, rounded to the nearest.
pub open spec fn opacity_ten_thousandths(a: u8) -> int {
    (4000 * a + 51) / 102
}

/// Four decimal digits of `n` (below 10000), with leading zeros.
pub open spec fn four_digits(n: int) -> Seq<char> {
    seq![
        digit_char((n / 1000) as nat),
        digit_char((n / 100 % 10) as nat),
        digit_char((n / 10 % 10) as nat),
        digit_char((n % 10) as nat),
    ]
}

/// The opacity of `color` as a number with four decimals, as `{:.4}` writes `a / 255`.
pub fn svg_opacity(color: RgbaColor) -> (r: String)
    ensures
        r@ == decimal_chars((opacity_ten_thousandths(color.a) / 10000) as nat) + seq!['.']
            + four_digits(opacity_ten_thousandths(color.a) % 10000),
{
    let d: u32 = (4000 * (color.a as u32) + 51) / 102;
    let mut s = String::new();
    push_decimal(&mut s, (d / 10000) as u64);
    push_char(&mut s, '.');
    let f = d % 10000;
    push_char(&mut s, digit_of(f / 1000));
    push_char(&mut s, digit_of(f / 100 % 10));
    push_char(&mut s, digit_of(f / 10 % 10));
    push_char(&mut s, digit_of(f % 10));
    assert(s@ =~= decimal_chars((opacity_ten_thousandths(color.a) / 10000) as nat) + seq!['.']
        + four_digits(opacity_ten_thousandths(color.a) % 10000));
    s
}

fn digit_of(d: u32) -> (c: char)
    requires
        d < 10,
    ensures
        c == digit_char(d as nat),
{
    hex_digit(d as u8)
}

/// How one character is written inside an attribute value.
pub open spec fn escaped_char(c: char) -> Seq<char> {
    if c == '&' {
        "&amp;"@
    } else if c == '"' {
        "&quot;"@
    } else if c == '<' {
        "&lt;"@
    } else if c == '>' {
        "&gt;"@
    } else {
        seq![c]
    }
}

/// The text with `&`, `"`, `<` and `>` written as entities.
pub open spec fn escaped(s: Seq<char>) -> Seq<char>
    decreases s.len(),
{
    if s.len() == 0 {
        Seq::empty()
    } else {
        escaped(s.drop_last()) + escaped_char(s.last())
    }
}

/// Writes `&`, `"`, `<` and `>` of `value` as entities, for use in an attribute.
pub fn escape_svg_attr(value: &str) -> (r: String)
    ensures
        r@ == escaped(value@),
{
    let n = value.unicode_len();
    let mut s = String::new();
    let mut i: usize = 0;
    while i < n
        invariant
            n == value@.len(),
            i <= n,
            s@ == escaped(value@.take(i as int)),
        decreases n - i,
    {
        let c = value.get_char(i);
        if c == '&' {
            s.append("&amp;");
        } else if c == '"' {
            s.append("&quot;");
        } else if c == '<' {
            s.append("&lt;");
        } else if c == '>' {
            s.append("&gt;");
        } else {
            push_char(&mut s, c);
        }
        assert(value@.take(i + 1).drop_last() =~= value@.take(i as int));
        i += 1;
    }
    assert(value@.take(n as int) =~= value@);
    s
}

/// Whether `tiny_skia::Pixmap::from_vec` accepts `data` as a `width` × `height` pixmap:
/// non-zero sides, a row that fits `i32` bytes, and exactly four bytes per pixel.
pub open spec fn pixmap_accepts(width: u32, height: u32, len: nat) -> bool {
    &&& width > 0
    &&& height > 0
    &&& 4 * width <= i32::MAX
    &&& len == 4 * width * height
}

/// The PNG file `tiny_skia::Pixmap::encode_png` writes for the premultiplied pixels.
pub uninterp spec fn png_encoding(width: u32, height: u32, data: Seq<u8>) -> Seq<u8>;

/// Whether `tiny_skia::Pixmap::encode_png` succeeds on the premultiplied pixels.
pub uninterp spec fn png_encodable(width: u32, height: u32, data: Seq<u8>) -> bool;

/// Wraps the premultiplied RGBA bytes in a `tiny_skia::Pixmap` and calls `encode_png`.
/// `None` when the pixmap is refused (see `pixmap_accepts`); otherwise the encoder's
/// result, its error turned into text. Whether the encoder succeeds depends on the
/// pixels alone and is only named (`png_encodable`).
#[verifier::external_body]
fn encode_pixmap_png(width: u32, height: u32, data: Vec<u8>) -> (r: Option<Result<Vec<u8>, String>>)
    ensures
        r is Some <==> pixmap_accepts(width, height, data@.len()),
        r matches Some(res) ==> (res is Ok <==> png_encodable(width, height, data@)),
        r matches Some(Ok(bytes)) ==> bytes@ == png_encoding(width, height, data@),
{
    let size = tiny_skia::IntSize::from_wh(width, height)?;
    let pixmap = tiny_skia::Pixmap::from_vec(data, size)?;
    Some(pixmap.encode_png().map_err(|error| error.to_string()))
}

/// Encodes a rendered `width` × `height` picture, given as premultiplied RGBA bytes, as
/// PNG; a picture of no size is refused as an invalid canvas size.
pub fn encode_png(width: u32, height: u32, data: Vec<u8>) -> (r: Result<Vec<u8>, RenderError>)
    ensures
        !pixmap_accepts(width, height, data@.len()) ==> r == Err::<Vec<u8>, RenderError>(
            RenderError::InvalidCanvasSize,
        ),
        r is Ok <==> (pixmap_accepts(width, height, data@.len()) && png_encodable(
            width,
            height,
            data@,
        )),
        r matches Ok(bytes) ==> bytes@ == png_encoding(width, height, data@),
        r matches Err(e) ==> (e is PngEncode <==> pixmap_accepts(width, height, data@.len())),
{
    match encode_pixmap_png(width, height, data) {
        None => Err(RenderError::InvalidCanvasSize),
        Some(Ok(bytes)) => Ok(bytes),
        Some(Err(message)) => Err(RenderError::PngEncode(message)),
    }
}

/// Row-major order of spans: by row, then start, then end.
pub open spec fn span_le(a: FillSpan, b: FillSpan) -> bool {
    a.y < b.y || (a.y == b.y && (a.x_start < b.x_start || (a.x_start == b.x_start && a.x_end
        <= b.x_end)))
}

pub proof fn lemma_span_le_total()
    ensures
        total_ordering(|a: FillSpan, b: FillSpan| span_le(a, b)),
{
    let leq = |a: FillSpan, b: FillSpan| span_le(a, b);
    assert forall|a: FillSpan, b: FillSpan| #[trigger] leq(a, b) && #[trigger] leq(b, a) implies a
        == b by {
        assert(a.y == b.y && a.x_start == b.x_start && a.x_end == b.x_end);
    }
}

/// A block of whole pixels in the fill's own frame: `width` columns from `x_start` and
/// `height` rows from `y`.
#[derive(Debug, Clone, Copy, PartialEq, Eq, Structural)]
pub struct FillRect {
    pub x_start: u32,
    pub y: u32,
    pub width: u32,
    pub height: u64,
}

/// Rectangles of the spans taken in order: an empty span is skipped, and a span right
/// below the last rectangle, with its start and width, makes that rectangle one row
/// taller.
pub open spec fn merged_rects(spans: Seq<FillSpan>) -> Seq<FillRect>
    decreases spans.len(),
{
    if spans.len() == 0 {
        Seq::empty()
    } else {
        let rects = merged_rects(spans.drop_last());
        let sp = spans.last();
        if sp.spec_width() <= 0 {
            rects
        } else if rects.len() > 0 && rects.last().x_start == sp.x_start && rects.last().width
            == sp.spec_width() && rects.last().y + rects.last().height == sp.y {
            rects.update(
                rects.len() - 1,
                FillRect { height: (rects.last().height + 1) as u64, ..rects.last() },
            )
        } else {
            rects.push(FillRect { x_start: sp.x_start, y: sp.y, width: sp.spec_width() as u32, height: 1 })
        }
    }
}

/// Inserts `x` after every span that does not come after it.
fn insert_span(v: &mut Vec<FillSpan>, x: FillSpan)
    requires
        sorted_by(old(v)@, |a: FillSpan, b: FillSpan| span_le(a, b)),
    ensures
        sorted_by(final(v)@, |a: FillSpan, b: FillSpan| span_le(a, b)),
        final(v)@.to_multiset() == old(v)@.to_multiset().insert(x),
{
    let mut k: usize = 0;
    while k < v.len() && !span_lt_exec(x, v[k])
        invariant
            k <= v.len(),
            forall|j: int| 0 <= j < k ==> span_le(#[trigger] v@[j], x),
        decreases v.len() - k,
    {
        k += 1;
    }
    let ghost before = v@;
    v.insert(k, x);
    proof {
        vstd::seq_lib::to_multiset_insert(before, k as int, x);
        assert(v@ == before.insert(k as int, x));
        assert forall|i: int, j: int| 0 <= i < j < v@.len() implies #[trigger] span_le(v@[i], v@[j]) by {
            let leq = |a: FillSpan, b: FillSpan| span_le(a, b);
            if j < k {
                assert(leq(before[i], before[j]));
            } else if j == k {
                assert(v@[i] == before[i]);
            } else if i == k {
                assert(v@[j] == before[j - 1]);
                assert(!span_le(before[k as int], x) || span_le(before[k as int], x));
                if j - 1 > k {
                    assert(leq(before[k as int], before[j - 1]));
                }
            } else if i < k {
                assert(v@[i] == before[i] && v@[j] == before[j - 1]);
                assert(leq(before[i], before[j - 1]));
            } else {
                assert(v@[i] == before[i - 1] && v@[j] == before[j - 1]);
                assert(leq(before[i - 1], before[j - 1]));
            }
        }
    }
}

fn span_lt_exec(a: FillSpan, b: FillSpan) -> (r: bool)
    ensures
        r == !span_le(b, a),
{
    a.y < b.y || (a.y == b.y && (a.x_start < b.x_start || (a.x_start == b.x_start && a.x_end
        < b.x_end)))
}

/// The spans of a bucket fill in row-major order, merged into rectangles for vector
/// export (see `merged_rects`).
pub fn svg_fill_rects(spans: &Vec<FillSpan>) -> (r: Vec<FillRect>)
    ensures
        r@ == merged_rects(spans@.sort_by(|a: FillSpan, b: FillSpan| span_le(a, b))),
{
    let ghost leq = |a: FillSpan, b: FillSpan| span_le(a, b);
    let mut sorted: Vec<FillSpan> = Vec::new();
    let mut i: usize = 0;
    assert(sorted@ =~= spans@.take(0));
    while i < spans.len()
        invariant
            i <= spans.len(),
            sorted_by(sorted@, |a: FillSpan, b: FillSpan| span_le(a, b)),
            sorted@.to_multiset() == spans@.take(i as int).to_multiset(),
        decreases spans.len() - i,
    {
        insert_span(&mut sorted, spans[i]);
        proof {
            let t = spans@.take(i as int);
            assert(spans@.take(i + 1) == t.push(spans@[i as int]));
            vstd::seq_lib::to_multiset_build(t, spans@[i as int]);
        }
        i += 1;
    }
    proof {
        assert(spans@.take(spans@.len() as int) == spans@);
        lemma_span_le_total();
        spans@.lemma_sort_by_ensures(leq);
        vstd::seq_lib::lemma_sorted_unique(sorted@, spans@.sort_by(leq), leq);
    }
    let mut rects: Vec<FillRect> = Vec::new();
    let mut j: usize = 0;
    while j < sorted.len()
        invariant
            j <= sorted.len(),
            rects@ == merged_rects(sorted@.take(j as int)),
            forall|k: int| 0 <= k < rects@.len() ==> (#[trigger] rects@[k]).y + rects@[k].height
                <= u32::MAX + 1,
        decreases sorted.len() - j,
    {
        let sp = sorted[j];
        let w = sp.width();
        proof {
            assert(sorted@.take(j + 1).drop_last() == sorted@.take(j as int));
            assert(sorted@.take(j + 1).last() == sp);
        }
        if w > 0 {
            let n = rects.len();
            if n > 0 && rects[n - 1].x_start == sp.x_start && rects[n - 1].width == w
                && (rects[n - 1].y as u64) + rects[n - 1].height == sp.y as u64 {
                let last = rects[n - 1];
                rects.set(n - 1, FillRect { height: last.height + 1, ..last });
            } else {
                rects.push(FillRect { x_start: sp.x_start, y: sp.y, width: w, height: 1 });
            }
        }
        j += 1;
    }
    assert(sorted@.take(sorted@.len() as int) == sorted@);
    rects
}

} // verus!
