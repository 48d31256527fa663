//! 24-bit BMP (BI_RGB), rows from the top down.
use vstd::prelude::*;
use crate::imgfmt::EncodeError;
use crate::pix::byte_of;

verus! {

/// Size of the file header.
pub const FILE_HEADER_SIZE: u32 = 14;

/// Size of the info header (BITMAPINFOHEADER).
pub const INFO_HEADER_SIZE: u32 = 40;

/// Offset of the pixel data in the file.
pub const PIXEL_DATA_OFFSET: u32 = 54;

/// The two bytes of `v`, lowest first.
pub open spec fn le16(v: u16) -> Seq<u8> {
    seq![(v & 0xff) as u8, ((v >> 8) & 0xff) as u8]
}

/// The four bytes of `v`, lowest first.
pub open spec fn le32(v: u32) -> Seq<u8> {
    seq![byte_of(v, 0), byte_of(v, 1), byte_of(v, 2), byte_of(v, 3)]
}

/// Zero bytes that fill a row of `row_bytes` bytes up to a multiple of four.
pub open spec fn row_padding(row_bytes: int) -> int {
    (4 - (row_bytes % 4)) % 4
}

/// Bytes of one padded row of an image `width` pixels wide.
pub open spec fn padded_row_len(width: int) -> int {
    3 * width + row_padding(3 * width)
}

/// The image size field: the bytes of all rows, cut to 32 bits.
pub open spec fn image_size_field(width: int, height: int) -> u32 {
    ((padded_row_len(width) * height) % 0x1_0000_0000) as u32
}

/// The height field of a top-down image: `-height` in two's complement.
pub open spec fn top_down_height(height: int) -> u32 {
    if height == 0 {
        0
    } else {
        (0x1_0000_0000 - height) as u32
    }
}

/// The file header: `BM`, the file size, two reserved fields and the
/// offset of the pixel data.
pub open spec fn file_header(file_size: u32) -> Seq<u8> {
    seq![66u8, 77u8] + le32(file_size) + le16(0) + le16(0) + le32(PIXEL_DATA_OFFSET)
}

/// The info header of a top-down 24-bit image without compression.
pub open spec fn info_header(width: u32, height: u32, image_size: u32) -> Seq<u8> {
    le32(INFO_HEADER_SIZE) + le32(width) + le32(height) + le16(1) + le16(24) + le32(0) + le32(
        image_size,
    ) + le32(0) + le32(0) + le32(0) + le32(0)
}

/// Blue, green and red of `n` pixels from position `start` on.
pub open spec fn bgr_run(pixels: Seq<u32>, start: int, n: nat) -> Seq<u8>
    decreases n,
{
    if n == 0 {
        Seq::<u8>::empty()
    } else {
        bgr_run(pixels, start, (n - 1) as nat) + seq![
            byte_of(pixels[start + n - 1], 2),
            byte_of(pixels[start + n - 1], 1),
            byte_of(pixels[start + n - 1], 0),
        ]
    }
}

/// `n` zero bytes.
pub open spec fn zeros(n: int) -> Seq<u8> {
    Seq::new(n as nat, |i: int| 0u8)
}

/// The first `rows` rows of the image, each padded to a multiple of four
/// bytes.
pub open spec fn pixel_rows(pixels: Seq<u32>, width: nat, rows: nat) -> Seq<u8>
    decreases rows,
{
    if rows == 0 {
        Seq::<u8>::empty()
    } else {
        pixel_rows(pixels, width, (rows - 1) as nat) + bgr_run(pixels, (rows - 1) * width, width)
            + zeros(row_padding(3 * (width as int)))
    }
}

/// The BMP file of an image of `width` by `height` pixels.
pub open spec fn bmp_file(pixels: Seq<u32>, width: nat, height: nat) -> Seq<u8> {
    let image_size = image_size_field(width as int, height as int);
    file_header((PIXEL_DATA_OFFSET + image_size) as u32) + info_header(
        width as u32,
        top_down_height(height as int),
        image_size,
    ) + pixel_rows(pixels, width, height)
}

/// Why an image of this size cannot be written, if it cannot. The checks
/// are made in this order; the last two are made after the file header has
/// been written.
pub open spec fn bmp_error(len: int, width: int, height: int) -> Option<EncodeError> {
    if width * height > usize::MAX {
        Some(EncodeError::SizeOverflow)
    } else if len < width * height {
        Some(EncodeError::BufferTooSmall)
    } else if padded_row_len(width) > usize::MAX {
        Some(EncodeError::RowBytesOverflow)
    } else if padded_row_len(width) * height > usize::MAX {
        Some(EncodeError::ImageSizeOverflow)
    } else if PIXEL_DATA_OFFSET + image_size_field(width, height) > u32::MAX {
        Some(EncodeError::FileSizeOverflow)
    } else if width > i32::MAX {
        Some(EncodeError::WidthTooLarge)
    } else if height > i32::MAX {
        Some(EncodeError::HeightTooLarge)
    } else {
        None
    }
}

/// Appends the two bytes of `v`, lowest first.
fn push_u16_le(out: &mut Vec<u8>, v: u16)
    ensures
        final(out)@ == old(out)@ + le16(v),
{
    out.push((v & 0xff) as u8);
    out.push(((v >> 8) & 0xff) as u8);
    assert(out@ =~= old(out)@ + le16(v));
}

/// Appends the four bytes of `v`, lowest first.
fn push_u32_le(out: &mut Vec<u8>, v: u32)
    ensures
        final(out)@ == old(out)@ + le32(v),
{
    out.push((v & 0xff) as u8);
    out.push(((v >> 8) & 0xff) as u8);
    out.push(((v >> 16) & 0xff) as u8);
    out.push(((v >> 24) & 0xff) as u8);
    assert(out@ =~= old(out)@ + le32(v));
}

/// Appends the 24-bit BMP file of the image to `w`: pixels as blue, green,
/// red, rows from the top down (the height field is negative), each row
/// padded with zeros to a multiple of four bytes.
///
/// Fails when the sizes overflow or `pixels` holds fewer than
/// `width * height` pixels. A width or height above `i32::MAX` is found
/// after the file header has been appended; every other failure appends
/// nothing.
pub fn write_bmp24_from_rgba_le_to_writer(
    pixels: &[u32],
    width: usize,
    height: usize,
    w: &mut Vec<u8>,
) -> (r: Result<(), EncodeError>)
    ensures
        match r {
            Ok(_) => {
                &&& bmp_error(pixels.len() as int, width as int, height as int) is None
                &&& final(w)@ == old(w)@ + bmp_file(pixels@, width as nat, height as nat)
            },
            Err(e) => {
                &&& bmp_error(pixels.len() as int, width as int, height as int) == Some(e)
                &&& final(w)@ == (if e == EncodeError::WidthTooLarge || e
                    == EncodeError::HeightTooLarge {
                    old(w)@ + file_header(
                        (PIXEL_DATA_OFFSET + image_size_field(width as int, height as int)) as u32,
                    )
                } else {
                    old(w)@
                })
            },
        },
{
    let count = match width.checked_mul(height) {
        Some(c) => c,
        None => {
            return Err(EncodeError::SizeOverflow);
        },
    };
    if pixels.len() < count {
        return Err(EncodeError::BufferTooSmall);
    }
    let row_bytes = match width.checked_mul(3) {
        Some(b) => b,
        None => {
            return Err(EncodeError::RowBytesOverflow);
        },
    };
    let padding = (4 - (row_bytes % 4)) % 4;
    let row_padded = match row_bytes.checked_add(padding) {
        Some(b) => b,
        None => {
            return Err(EncodeError::RowBytesOverflow);
        },
    };
    let total = match row_padded.checked_mul(height) {
        Some(t) => t,
        None => {
            return Err(EncodeError::ImageSizeOverflow);
        },
    };
    let image_size = ((total as u128) % 0x1_0000_0000u128) as u32;
    let file_size = match PIXEL_DATA_OFFSET.checked_add(image_size) {
        Some(s) => s,
        None => {
            return Err(EncodeError::FileSizeOverflow);
        },
    };
    w.push(66);
    w.push(77);
    push_u32_le(w, file_size);
    push_u16_le(w, 0);
    push_u16_le(w, 0);
    push_u32_le(w, PIXEL_DATA_OFFSET);
    assert(w@ =~= old(w)@ + file_header(file_size));
    if width > i32::MAX as usize {
        return Err(EncodeError::WidthTooLarge);
    }
    if height > i32::MAX as usize {
        return Err(EncodeError::HeightTooLarge);
    }
    let height_field: u32 = if height == 0 {
        0
    } else {
        (u32::MAX - height as u32) + 1
    };
    push_u32_le(w, INFO_HEADER_SIZE);
    push_u32_le(w, width as u32);
    push_u32_le(w, height_field);
    push_u16_le(w, 1);
    push_u16_le(w, 24);
    push_u32_le(w, 0);
    push_u32_le(w, image_size);
    push_u32_le(w, 0);
    push_u32_le(w, 0);
    push_u32_le(w, 0);
    push_u32_le(w, 0);
    let ghost head = old(w)@ + file_header(file_size) + info_header(
        width as u32,
        height_field,
        image_size,
    );
    assert(w@ =~= head);
    let mut y: usize = 0;
    while y < height
        invariant
            y <= height,
            count == width * height,
            count <= pixels.len(),
            padding == row_padding(3 * width),
            0 <= padding < 4,
            w@ == head + pixel_rows(pixels@, width as nat, y as nat),
        decreases height - y,
    {
        proof {
            assert(y * width + width <= width * height) by (nonlinear_arith)
                requires
                    y < height,
            ;
        }
        let start = y * width;
        let ghost before_row = w@;
        let mut x: usize = 0;
        while x < width
            invariant
                x <= width,
                start == y * width,
                start + width <= pixels.len(),
                w@ == before_row + bgr_run(pixels@, start as int, x as nat),
            decreases width - x,
        {
            let px = pixels[start + x];
            let ghost prev = w@;
            w.push(((px >> 16) & 0xff) as u8);
            w.push(((px >> 8) & 0xff) as u8);
            w.push((px & 0xff) as u8);
            assert(w@ =~= prev + seq![byte_of(px, 2), byte_of(px, 1), byte_of(px, 0)]);
            assert(w@ =~= before_row + bgr_run(pixels@, start as int, (x + 1) as nat));
            x += 1;
        }
        let ghost before_pad = w@;
        let mut p: usize = 0;
        while p < padding
            invariant
                p <= padding,
                w@ == before_pad + zeros(p as int),
            decreases padding - p,
        {
            w.push(0);
            assert(w@ =~= before_pad + zeros(p + 1));
            p += 1;
        }
        assert(w@ =~= head + pixel_rows(pixels@, width as nat, (y + 1) as nat));
        y += 1;
    }
    assert(w@ =~= old(w)@ + bmp_file(pixels@, width as nat, height as nat));
    Ok(())
}

} // verus!
