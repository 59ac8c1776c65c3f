//! The deterministic test pattern written into every pixel buffer.
use vstd::arithmetic::div_mod::lemma_fundamental_div_mod_converse;
use vstd::prelude::*;

verus! {

/// The byte that the pattern places at column `x`, row `y`, channel `c`.
pub open spec fn pattern_byte(x: int, y: int, c: int) -> u8 {
    ((x + y + c) % 256) as u8
}

/// Offset of channel `c` of the pixel at (`x`, `y`) in a row-major,
/// channel-interleaved buffer.
pub open spec fn pixel_offset(width: int, channels: int, x: int, y: int, c: int) -> int {
    (y * width + x) * channels + c
}

/// The pattern byte that belongs at flat offset `k`.
pub open spec fn byte_at_offset(width: int, channels: int, k: int) -> u8 {
    pattern_byte((k / channels) % width, (k / channels) / width, k % channels)
}

/// The whole pattern of a `width` x `height` image with `channels` bytes per pixel.
pub open spec fn pattern_seq(width: nat, height: nat, channels: nat) -> Seq<u8> {
    Seq::new(width * height * channels, |k: int| byte_at_offset(width as int, channels as int, k))
}

/// A buffer holds the pattern: the byte of every (x, y, c) stands at its offset.
pub open spec fn holds_pattern(buf: Seq<u8>, width: nat, height: nat, channels: nat) -> bool {
    &&& buf.len() == width * height * channels
    &&& forall|y: int, x: int, c: int|
        0 <= y < height && 0 <= x < width && 0 <= c < channels ==> #[trigger] buf[pixel_offset(
            width as int,
            channels as int,
            x,
            y,
            c,
        )] == pattern_byte(x, y, c)
}

/// An in-range triple has an in-range offset, and the offset gives the triple back.
pub proof fn lemma_offset_decomposes(width: int, height: int, channels: int, x: int, y: int, c: int)
    requires
        0 <= x < width,
        0 <= y < height,
        0 <= c < channels,
    ensures
        0 <= pixel_offset(width, channels, x, y, c) < width * height * channels,
        byte_at_offset(width, channels, pixel_offset(width, channels, x, y, c)) == pattern_byte(
            x,
            y,
            c,
        ),
{
    let p = y * width + x;
    let k = p * channels + c;
    assert(0 <= y * width <= (height - 1) * width) by (nonlinear_arith)
        requires
            0 <= y <= height - 1,
            0 < width,
    ;
    assert((height - 1) * width + width == height * width) by (nonlinear_arith);
    assert(0 <= p * channels <= (height * width - 1) * channels) by (nonlinear_arith)
        requires
            0 <= p <= height * width - 1,
            0 < channels,
    ;
    assert((height * width - 1) * channels + channels == width * height * channels)
        by (nonlinear_arith);
    lemma_fundamental_div_mod_converse(k, channels, p, c);
    lemma_fundamental_div_mod_converse(p, width, y, x);
}

/// The coordinates of a pixel channel sum to less than the buffer length.
pub proof fn lemma_coordinate_sum_bounded(width: int, height: int, channels: int, x: int, y: int, c: int)
    requires
        0 <= x < width,
        0 <= y < height,
        0 <= c < channels,
    ensures
        x + y + c < width * height * channels,
{
    assert(width * height >= width + height - 1) by (nonlinear_arith)
        requires
            width >= 1,
            height >= 1,
    ;
    assert((width * height) * channels >= width * height + channels - 1) by (nonlinear_arith)
        requires
            width * height >= 1,
            channels >= 1,
    ;
    assert(width * height * channels == (width * height) * channels) by (nonlinear_arith);
}

/// Every offset of the pattern sequence carries the byte of its triple.
pub proof fn lemma_pattern_seq_holds(width: nat, height: nat, channels: nat)
    ensures
        holds_pattern(pattern_seq(width, height, channels), width, height, channels),
{
    let s = pattern_seq(width, height, channels);
    assert forall|y: int, x: int, c: int|
        0 <= y < height && 0 <= x < width && 0 <= c < channels implies #[trigger] s[pixel_offset(
        width as int,
        channels as int,
        x,
        y,
        c,
    )] == pattern_byte(x, y, c) by {
        lemma_offset_decomposes(width as int, height as int, channels as int, x, y, c);
    }
}

/// Writes the pattern of a `width` x `height` image with `channels` bytes per
/// pixel into `buf`, row by row, pixel by pixel, channel by channel.
pub fn fill_pattern(width: usize, height: usize, channels: usize, buf: &mut [u8])
    requires
        old(buf)@.len() == width * height * channels,
    ensures
        final(buf)@ == pattern_seq(width as nat, height as nat, channels as nat),
        holds_pattern(final(buf)@, width as nat, height as nat, channels as nat),
{
    let ghost total = width * height * channels;
    let len = buf.len();
    let mut offset: usize = 0;
    let mut y: usize = 0;
    while y < height
        invariant
            buf@.len() == total,
            total == width * height * channels,
            len == total,
            y <= height,
            offset == y * width * channels,
            forall|k: int| 0 <= k < offset ==> buf@[k] == byte_at_offset(width as int, channels as int, k),
        decreases height - y,
    {
        let mut x: usize = 0;
        while x < width
            invariant
                buf@.len() == total,
                total == width * height * channels,
                len == total,
                y < height,
                x <= width,
                offset == (y * width + x) * channels,
                forall|k: int| 0 <= k < offset ==> buf@[k] == byte_at_offset(width as int, channels as int, k),
            decreases width - x,
        {
            let mut c: usize = 0;
            while c < channels
                invariant
                    buf@.len() == total,
                    total == width * height * channels,
                    len == total,
                    y < height,
                    x < width,
                    c <= channels,
                    offset == (y * width + x) * channels + c,
                    forall|k: int| 0 <= k < offset ==> buf@[k] == byte_at_offset(width as int, channels as int, k),
                decreases channels - c,
            {
                proof {
                    lemma_offset_decomposes(width as int, height as int, channels as int, x as int, y as int, c as int);
                    lemma_coordinate_sum_bounded(width as int, height as int, channels as int, x as int, y as int, c as int);
                }
                assert(x + y + c < len);
                let v: u8 = ((x + y + c) % 256) as u8;
                buf[offset] = v;
                offset = offset + 1;
                c = c + 1;
            }
            proof {
                assert((y * width + x) * channels + channels == (y * width + (x + 1)) * channels) by (nonlinear_arith);
            }
            x = x + 1;
        }
        proof {
            assert((y * width + width) * channels == (y + 1) * width * channels) by (nonlinear_arith);
        }
        y = y + 1;
    }
    proof {
        assert(offset == total) by (nonlinear_arith)
            requires
                offset == y * width * channels,
                y == height,
                total == width * height * channels,
        ;
        assert(buf@ =~= pattern_seq(width as nat, height as nat, channels as nat));
        lemma_pattern_seq_holds(width as nat, height as nat, channels as nat);
    }
}

} // verus!
