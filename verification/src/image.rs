//! The binary image format: a PPM byte stream assembled from a grid of
//! 8-bit RGB pixels, byte for byte as the file is to be written.

use vstd::prelude::*;

verus! {

use vstd::string::StringExecFns;
use crate::table::Table;

/// Decimal digits of `n`, most significant first, as ASCII bytes.
pub open spec fn dec_digits(n: nat) -> Seq<u8>
    decreases n,
{
    if n < 10 {
        seq![(48 + n) as u8]
    } else {
        dec_digits(n / 10).push((48 + n % 10) as u8)
    }
}

/// The header of a binary PPM image: the magic `P6`, the dimensions in
/// decimal, and the maximum channel value `255`, with the separators the
/// format fixes.
pub open spec fn ppm_header(width: nat, height: nat) -> Seq<u8> {
    seq![80u8, 54u8, 10u8] + dec_digits(width) + seq![32u8] + dec_digits(height) + seq![
        10u8,
        50u8,
        53u8,
        53u8,
        10u8,
    ]
}

/// The pixel block: three bytes per pixel, in grid order.
pub open spec fn rgb_triples(pixels: Seq<(u8, u8, u8)>) -> Seq<u8>
    decreases pixels.len(),
{
    if pixels.len() == 0 {
        Seq::empty()
    } else {
        rgb_triples(pixels.drop_last()) + seq![
            pixels.last().0,
            pixels.last().1,
            pixels.last().2,
        ]
    }
}

/// The whole image: header, then pixel block.
pub open spec fn ppm_bytes(width: nat, height: nat, pixels: Seq<(u8, u8, u8)>) -> Seq<u8> {
    ppm_header(width, height) + rgb_triples(pixels)
}

/// A PPM image file in the making: remembers the name the bytes are to be
/// written under.
pub struct PPMImage {
    file_name: String,
}

impl PPMImage {
    /// The name of the file the image is to be saved as.
    pub closed spec fn file_name(&self) -> Seq<char> {
        self.file_name@
    }

    /// An image to be saved under `file_name`.
    pub fn new(file_name: &str) -> (image: PPMImage)
        ensures
            image.file_name() == file_name@,
    {
        PPMImage { file_name: String::from_str(file_name) }
    }

    /// The stored file name, for the unverified writer.
    pub fn get_file_name(&self) -> (name: &str)
        ensures
            name@ == self.file_name(),
    {
        self.file_name.as_str()
    }

    /// Encodes `pixels` as a binary PPM byte stream.
    pub fn encode(pixels: &Table<(u8, u8, u8)>) -> (bytes: Vec<u8>)
        requires
            pixels.wf(),
        ensures
            bytes@ == ppm_bytes(pixels.width() as nat, pixels.height() as nat, pixels@),
    {
        let (width, height) = pixels.get_dimensions();
        let mut out: Vec<u8> = Vec::new();
        out.push(80u8);
        out.push(54u8);
        out.push(10u8);
        push_decimal(width, &mut out);
        out.push(32u8);
        push_decimal(height, &mut out);
        out.push(10u8);
        out.push(50u8);
        out.push(53u8);
        out.push(53u8);
        out.push(10u8);
        proof {
            assert(out@ =~= ppm_header(width as nat, height as nat));
        }
        let ghost header = out@;
        let mut it = pixels.iter();
        loop
            invariant
                pixels.wf(),
                it.wf(),
                it.table() == *pixels,
                header == ppm_header(pixels.width() as nat, pixels.height() as nat),
                out@ == header + rgb_triples(pixels@.take(it.pos() as int)),
            ensures
                out@ == header + rgb_triples(pixels@),
            decreases pixels@.len() - it.pos(),
        {
            let ghost p = it.pos() as int;
            match it.next() {
                Some(pixel) => {
                    out.push(pixel.0);
                    out.push(pixel.1);
                    out.push(pixel.2);
                    proof {
                        let s = pixels@;
                        assert(s.take(p + 1).drop_last() =~= s.take(p));
                        assert(out@ =~= header + rgb_triples(s.take(p + 1)));
                    }
                },
                None => {
                    proof {
                        assert(pixels@.take(it.pos() as int) =~= pixels@);
                    }
                    break ;
                },
            }
        }
        out
    }
}

/// Appends the decimal digits of `n` to `out`.
fn push_decimal(n: usize, out: &mut Vec<u8>)
    ensures
        final(out)@ == old(out)@ + dec_digits(n as nat),
    decreases n,
{
    if n < 10 {
        out.push(48 + (n as u8));
        proof {
            assert(out@ =~= old(out)@ + dec_digits(n as nat));
        }
    } else {
        proof {
            assert(n / 10 < n && n / 10 >= 1) by (nonlinear_arith)
                requires
                    n >= 10,
            ;
        }
        push_decimal(n / 10, out);
        out.push(48 + ((n % 10) as u8));
        proof {
            assert(out@ =~= old(out)@ + dec_digits(n as nat));
        }
    }
}

} // verus!
