//! Packed 32-bit pixels: alpha in the most significant byte, then red,
//! green and blue.

use vstd::prelude::*;

verus! {

/// Coverage below this value leaves the canvas untouched.
pub const COVERAGE_THRESHOLD: u8 = 26;

/// The packed value of a pixel with the given channels.
pub open spec fn argb(a: int, r: int, g: int, b: int) -> int {
    a * 0x100_0000 + r * 0x1_0000 + g * 0x100 + b
}

/// The alpha channel of a packed pixel.
pub open spec fn alpha(p: u32) -> int {
    p as int / 0x100_0000
}

/// The red channel of a packed pixel.
pub open spec fn red(p: u32) -> int {
    (p as int / 0x1_0000) % 0x100
}

/// The green channel of a packed pixel.
pub open spec fn green(p: u32) -> int {
    (p as int / 0x100) % 0x100
}

/// The blue channel of a packed pixel.
pub open spec fn blue(p: u32) -> int {
    p as int % 0x100
}

/// The four bytes of a pixel, least significant first.
pub open spec fn little_endian(p: u32) -> Seq<u8> {
    seq![blue(p) as u8, green(p) as u8, red(p) as u8, alpha(p) as u8]
}

/// The four bytes of a pixel, most significant first.
pub open spec fn big_endian(p: u32) -> Seq<u8> {
    seq![alpha(p) as u8, red(p) as u8, green(p) as u8, blue(p) as u8]
}

/// An opacity in percent as an 8-bit alpha, rounded to the nearest value.
pub open spec fn percentage_alpha(t: int) -> int {
    (t * 255 + 50) / 100
}

/// One channel of a blend: `fg` weighted by the coverage `c` out of 255
/// and `bg` weighted by the rest, summed exactly and then divided by 255
/// once, to the nearest whole value.
pub open spec fn mix(c: int, fg: int, bg: int) -> int {
    (fg * c + bg * (255 - c) + 127) / 255
}

/// The blend of two pixels, channel by channel, alpha included.
pub open spec fn blend_spec(c: u8, fg: u32, bg: u32) -> int {
    argb(
        mix(c as int, alpha(fg), alpha(bg)),
        mix(c as int, red(fg), red(bg)),
        mix(c as int, green(fg), green(bg)),
        mix(c as int, blue(fg), blue(bg)),
    )
}

/// The four bytes of a pixel in one of the two byte orders.
pub open spec fn ordered(p: u32, little: bool) -> Seq<u8> {
    if little {
        little_endian(p)
    } else {
        big_endian(p)
    }
}

/// Whether the bytes hold the pixels in order, four bytes each, every pixel
/// in the given byte order.
pub open spec fn laid_out(bytes: Seq<u8>, pixels: Seq<u32>, little: bool) -> bool {
    &&& bytes.len() == 4 * pixels.len()
    &&& forall|i: int|
        0 <= i < pixels.len() ==> #[trigger] bytes.subrange(4 * i, 4 * i + 4) == ordered(
            pixels[i],
            little,
        )
}

/// Whether the bytes hold the pixels in order, four bytes each, all of them
/// in the same one of the two byte orders.
pub open spec fn holds_pixels(bytes: Seq<u8>, pixels: Seq<u32>) -> bool {
    laid_out(bytes, pixels, true) || laid_out(bytes, pixels, false)
}

/// A packed pixel is the sum of its four channels, each in its own byte.
pub proof fn lemma_channels(p: u32)
    ensures
        argb(alpha(p), red(p), green(p), blue(p)) == p,
        0 <= alpha(p) < 256,
        0 <= red(p) < 256,
        0 <= green(p) < 256,
        0 <= blue(p) < 256,
{
}

/// Packing four bytes and taking the channels of the result gives the bytes
/// back.
pub proof fn lemma_argb_channels(a: u8, r: u8, g: u8, b: u8)
    ensures
        0 <= argb(a as int, r as int, g as int, b as int) <= u32::MAX,
        alpha(argb(a as int, r as int, g as int, b as int) as u32) == a,
        red(argb(a as int, r as int, g as int, b as int) as u32) == r,
        green(argb(a as int, r as int, g as int, b as int) as u32) == g,
        blue(argb(a as int, r as int, g as int, b as int) as u32) == b,
{
    let low: int = r * 0x1_0000 + g * 0x100 + b;
    let p: int = a * 0x100_0000 + low;
    assert(0 <= low < 0x100_0000);
    assert(p / 0x100_0000 == a);
    assert(p / 0x1_0000 == a * 0x100 + r);
    assert(p / 0x100 == a * 0x1_0000 + r * 0x100 + g);
}

/// A blended channel is the exact blend to the nearest whole value: it is
/// less than one step from it, and lies between the two channels. At
/// coverage 0 it is the background's, at coverage 255 the foreground's, and
/// equal channels blend to themselves.
pub proof fn lemma_mix(c: int, fg: int, bg: int)
    requires
        0 <= c <= 255,
        0 <= fg <= 255,
        0 <= bg <= 255,
    ensures
        0 <= mix(c, fg, bg) <= 255,
        -127 <= 255 * mix(c, fg, bg) - (fg * c + bg * (255 - c)) <= 127,
        fg <= bg ==> fg <= mix(c, fg, bg) <= bg,
        bg <= fg ==> bg <= mix(c, fg, bg) <= fg,
        fg == bg ==> mix(c, fg, bg) == fg,
        c == 0 ==> mix(c, fg, bg) == bg,
        c == 255 ==> mix(c, fg, bg) == fg,
{
    let sum = fg * c + bg * (255 - c);
    assert(fg <= bg ==> fg * 255 <= sum <= bg * 255) by (nonlinear_arith)
        requires
            0 <= c <= 255,
            sum == fg * c + bg * (255 - c),
    ;
    assert(bg <= fg ==> bg * 255 <= sum <= fg * 255) by (nonlinear_arith)
        requires
            0 <= c <= 255,
            sum == fg * c + bg * (255 - c),
    ;
    assert(c == 0 ==> sum == bg * 255) by (nonlinear_arith)
        requires
            sum == fg * c + bg * (255 - c),
    ;
    assert(c == 255 ==> sum == fg * 255) by (nonlinear_arith)
        requires
            sum == fg * c + bg * (255 - c),
    ;
}

/// Without coverage the blend is the background, with full coverage the
/// foreground, in every channel.
pub proof fn lemma_blend_ends(fg: u32, bg: u32)
    ensures
        blend_spec(0, fg, bg) == bg,
        blend_spec(255, fg, bg) == fg,
{
    lemma_channels(fg);
    lemma_channels(bg);
    lemma_mix(0, alpha(fg), alpha(bg));
    lemma_mix(0, red(fg), red(bg));
    lemma_mix(0, green(fg), green(bg));
    lemma_mix(0, blue(fg), blue(bg));
    lemma_mix(255, alpha(fg), alpha(bg));
    lemma_mix(255, red(fg), red(bg));
    lemma_mix(255, green(fg), green(bg));
    lemma_mix(255, blue(fg), blue(bg));
}

/// Each channel of a blend is the blend of that channel alone: nothing is
/// carried from one channel into the next. A colour blended with itself is
/// that colour, whatever the coverage.
pub proof fn lemma_blend_channels(c: u8, fg: u32, bg: u32)
    ensures
        0 <= blend_spec(c, fg, bg) <= u32::MAX,
        alpha(blend_spec(c, fg, bg) as u32) == mix(c as int, alpha(fg), alpha(bg)),
        red(blend_spec(c, fg, bg) as u32) == mix(c as int, red(fg), red(bg)),
        green(blend_spec(c, fg, bg) as u32) == mix(c as int, green(fg), green(bg)),
        blue(blend_spec(c, fg, bg) as u32) == mix(c as int, blue(fg), blue(bg)),
        fg == bg ==> blend_spec(c, fg, bg) == fg,
{
    lemma_channels(fg);
    lemma_channels(bg);
    lemma_mix(c as int, alpha(fg), alpha(bg));
    lemma_mix(c as int, red(fg), red(bg));
    lemma_mix(c as int, green(fg), green(bg));
    lemma_mix(c as int, blue(fg), blue(bg));
    lemma_argb_channels(
        mix(c as int, alpha(fg), alpha(bg)) as u8,
        mix(c as int, red(fg), red(bg)) as u8,
        mix(c as int, green(fg), green(bg)) as u8,
        mix(c as int, blue(fg), blue(bg)) as u8,
    );
}

/// The channels of a pixel as four bytes.
fn channels(p: u32) -> (c: (u8, u8, u8, u8))
    ensures
        c.0 == alpha(p),
        c.1 == red(p),
        c.2 == green(p),
        c.3 == blue(p),
{
    assert(p >> 24 == p / 0x100_0000 && (p >> 24) < 256) by (bit_vector);
    assert((p >> 16) & 0xff == (p / 0x1_0000) % 0x100 && (p >> 16) & 0xff < 256) by (bit_vector);
    assert((p >> 8) & 0xff == (p / 0x100) % 0x100 && (p >> 8) & 0xff < 256) by (bit_vector);
    assert(p & 0xff == p % 0x100 && p & 0xff < 256) by (bit_vector);
    ((p >> 24) as u8, ((p >> 16) & 0xff) as u8, ((p >> 8) & 0xff) as u8, (p & 0xff) as u8)
}

/// Packs four channels into a pixel.
fn pack(a: u8, r: u8, g: u8, b: u8) -> (p: u32)
    ensures
        p == argb(a as int, r as int, g as int, b as int),
{
    let a32: u32 = a as u32;
    let r32: u32 = r as u32;
    let g32: u32 = g as u32;
    let b32: u32 = b as u32;
    assert((a32 << 24) == a32 * 0x100_0000 && (r32 << 16) == r32 * 0x1_0000 && (g32 << 8) == g32
        * 0x100) by (bit_vector)
        requires
            a32 < 256,
            r32 < 256,
            g32 < 256,
    ;
    (a32 << 24) + (r32 << 16) + (g32 << 8) + b32
}

/// `u32::to_ne_bytes`: the bytes of the value in the byte order of the
/// machine, which is one of the two orders there are.
#[verifier::external_body]
pub(crate) fn native_bytes(p: u32) -> (bytes: [u8; 4])
    ensures
        bytes@ == little_endian(p) || bytes@ == big_endian(p),
{
    p.to_ne_bytes()
}

/// The bytes of the pixel with the given colour and opacity `t`, in the
/// byte order of the machine.
pub fn to_pixel(r: u8, g: u8, b: u8, t: u8) -> (bytes: [u8; 4])
    ensures
        bytes@ == seq![b, g, r, t] || bytes@ == seq![t, r, g, b],
{
    let p = pack(t, r, g, b);
    proof {
        lemma_argb_channels(t, r, g, b);
    }
    native_bytes(p)
}

/// Whether the machine puts the least significant byte of a number first.
fn least_significant_first() -> (little: bool) {
    let probe = native_bytes(1);
    probe[0] == 1
}

/// The pixels as bytes, four for each pixel, all in the byte order of the
/// machine. The order is asked of the machine once, and every pixel is
/// written in it.
pub fn pixel_bytes(pixels: &Vec<u32>) -> (bytes: Vec<u8>)
    ensures
        holds_pixels(bytes@, pixels@),
{
    let little = least_significant_first();
    let mut bytes: Vec<u8> = Vec::new();
    let n = pixels.len();
    let mut i: usize = 0;
    while i < n
        invariant
            i <= n,
            n == pixels@.len(),
            laid_out(bytes@, pixels@.take(i as int), little),
        decreases n - i,
    {
        let ghost before = bytes@;
        let (a, r, g, b) = channels(pixels[i]);
        if little {
            bytes.push(b);
            bytes.push(g);
            bytes.push(r);
            bytes.push(a);
        } else {
            bytes.push(a);
            bytes.push(r);
            bytes.push(g);
            bytes.push(b);
        }
        proof {
            let now = pixels@.take(i + 1);
            assert(bytes@.subrange(4 * i, 4 * i + 4) =~= ordered(pixels@[i as int], little));
            assert forall|j: int| 0 <= j < now.len() implies #[trigger] bytes@.subrange(
                4 * j,
                4 * j + 4,
            ) == ordered(now[j], little) by {
                if j < i {
                    assert(bytes@.subrange(4 * j, 4 * j + 4) =~= before.subrange(4 * j, 4 * j + 4));
                    assert(pixels@.take(i as int)[j] == now[j]);
                }
            }
        }
        i += 1;
    }
    proof {
        assert(pixels@.take(n as int) == pixels@);
    }
    bytes
}

/// The colour with its top byte replaced by the given alpha.
pub fn add_opacity(color: u32, transparency: u8) -> (pixel: u32)
    ensures
        pixel == argb(transparency as int, red(color), green(color), blue(color)),
        pixel == transparency * 0x100_0000 + color % 0x100_0000,
{
    let t32: u32 = transparency as u32;
    assert((t32 << 24) + (color & 0xff_ffff) == t32 * 0x100_0000 + color % 0x100_0000 && (t32 << 24)
        + (color & 0xff_ffff) <= 0xffff_ffff) by (bit_vector)
        requires
            t32 < 256,
    ;
    assert(color % 0x100_0000 == ((color / 0x1_0000) % 0x100) * 0x1_0000 + ((color / 0x100) % 0x100)
        * 0x100 + color % 0x100) by (bit_vector);
    (t32 << 24) + (color & 0xff_ffff)
}

/// An opacity in percent as an 8-bit alpha.
pub fn percentage_to_u8(t: u32) -> (a: u8)
    requires
        t <= 100,
    ensures
        a == percentage_alpha(t as int),
{
    ((t * 255 + 50) / 100) as u8
}

/// One channel of a blend.
fn mix_channel(c: u8, fg: u8, bg: u8) -> (m: u8)
    ensures
        m == mix(c as int, fg as int, bg as int),
{
    proof {
        lemma_mix(c as int, fg as int, bg as int);
    }
    let c32: u32 = c as u32;
    let fg32: u32 = fg as u32;
    let bg32: u32 = bg as u32;
    assert(fg32 * c32 + bg32 * (255 - c32) <= 255 * 255) by (nonlinear_arith)
        requires
            fg32 <= 255,
            bg32 <= 255,
            c32 <= 255,
    ;
    assert(0 <= fg32 * c32 && 0 <= bg32 * (255 - c32)) by (nonlinear_arith)
        requires
            c32 <= 255,
    ;
    ((fg32 * c32 + bg32 * (255 - c32) + 127) / 255) as u8
}

/// Blends the foreground over the background with the given coverage out of
/// 255, each channel by itself. No coverage gives the background back, full
/// coverage the foreground, and a colour blended with itself is that colour.
pub fn blend(coverage: u8, fg: u32, bg: u32) -> (out: u32)
    ensures
        out == blend_spec(coverage, fg, bg),
        coverage == 0 ==> out == bg,
        coverage == 255 ==> out == fg,
        fg == bg ==> out == fg,
{
    let f = channels(fg);
    let b = channels(bg);
    proof {
        lemma_blend_ends(fg, bg);
        lemma_blend_channels(coverage, fg, bg);
    }
    pack(
        mix_channel(coverage, f.0, b.0),
        mix_channel(coverage, f.1, b.1),
        mix_channel(coverage, f.2, b.2),
        mix_channel(coverage, f.3, b.3),
    )
}

} // verus!
