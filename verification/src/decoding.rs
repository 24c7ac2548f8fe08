//! Reading the hidden data back out of a stored artifact.
//!
//! An artifact carries its hidden data in the alpha channel of its pixels,
//! one byte per pixel. What is read out of the artifact `dir/name` goes to
//! `dir/decrypted_name`.

use crate::paths::{file_name_of, path_file_name, path_with_file_name, with_file_name};
use vstd::prelude::*;
use vstd::string::*;

verus! {

/// The name of the file that receives what was hidden in the artifact
/// `file_name`.
pub open spec fn decrypted_name(file_name: Seq<char>) -> Seq<char> {
    "decrypted_"@ + file_name
}

/// The name of the file that receives what was hidden in the artifact
/// `file_name`: the artifact's name behind the prefix `decrypted_`.
pub fn decrypted_file_name(file_name: &str) -> (name: String)
    ensures
        name@ == decrypted_name(file_name@),
{
    let mut name = "decrypted_".to_owned();
    name.append(file_name);
    name
}

/// The path of the file that receives what was hidden in the artifact at
/// `encoded_image_path`: the same directory, and the artifact's name behind
/// the prefix `decrypted_`. The path must have a last component.
pub fn create_output_path(encoded_image_path: &str) -> (out: String)
    requires
        path_file_name(encoded_image_path@) is Some,
    ensures
        out@ == path_with_file_name(
            encoded_image_path@,
            decrypted_name(path_file_name(encoded_image_path@).unwrap()),
        ),
{
    match file_name_of(encoded_image_path) {
        Some(file_name) => {
            let decrypted = decrypted_file_name(file_name.as_str());
            with_file_name(encoded_image_path, decrypted.as_str())
        },
        None => {
            assert(false);
            String::new()
        },
    }
}

/// The path of the file that receives what was hidden in the artifact at
/// `encoded_image_path`, or nothing for a path without a last component.
pub fn try_create_output_path(encoded_image_path: &str) -> (out: Option<String>)
    ensures
        match out {
            Some(p) => path_file_name(encoded_image_path@) is Some && p@ == path_with_file_name(
                encoded_image_path@,
                decrypted_name(path_file_name(encoded_image_path@).unwrap()),
            ),
            None => path_file_name(encoded_image_path@) is None,
        },
{
    match file_name_of(encoded_image_path) {
        Some(_) => Some(create_output_path(encoded_image_path)),
        None => None,
    }
}

/// The alpha channel of a run of RGBA pixels: the fourth byte of every four.
pub open spec fn alpha_channel(samples: Seq<u8>) -> Seq<u8> {
    Seq::new(samples.len() / 4, |i: int| samples[4 * i + 3])
}

/// Makes an image of `width` by `height` RGBA pixels from `samples` with
/// `image::ImageBuffer::from_raw`, hands it to
/// `steganography::decoder::Decoder::new` and calls `decode_alpha` on the
/// decoder.
///
/// `from_raw` multiplies four by the width and then by the height, gives up
/// where a product does not fit a `usize`, and otherwise accepts a buffer
/// that holds at least that many bytes. With exactly four bytes for each
/// pixel the second product is the buffer's length, so only the first can
/// fail to fit. `decode_alpha` walks the buffer four bytes at a time and
/// keeps the fourth of each.
#[verifier::external_body]
fn decode_alpha(width: u32, height: u32, samples: Vec<u8>) -> (data: Option<Vec<u8>>)
    requires
        samples@.len() == 4 * width * height,
    ensures
        data is None ==> 4 * width > usize::MAX,
        data is Some ==> data.unwrap()@ == alpha_channel(samples@),
{
    match image::ImageBuffer::<image::Rgba<u8>, Vec<u8>>::from_raw(width, height, samples) {
        Some(img) => Some(steganography::decoder::Decoder::new(img).decode_alpha()),
        None => None,
    }
}

/// A decoded image: `width` by `height` pixels of four bytes each, red,
/// green, blue and alpha, row by row.
pub struct RgbaPixels {
    width: u32,
    height: u32,
    samples: Vec<u8>,
}

impl RgbaPixels {
    /// The image's width in pixels.
    pub closed spec fn spec_width(&self) -> nat {
        self.width as nat
    }

    /// The image's height in pixels.
    pub closed spec fn spec_height(&self) -> nat {
        self.height as nat
    }

    /// The image's bytes.
    pub closed spec fn spec_samples(&self) -> Seq<u8> {
        self.samples@
    }

    /// What holds of every image: it has four bytes for each pixel.
    pub open spec fn wf(&self) -> bool {
        self.spec_samples().len() == 4 * self.spec_width() * self.spec_height()
    }

    /// An image of `width` by `height` pixels, if `samples` holds exactly
    /// four bytes for each.
    pub fn new(width: u32, height: u32, samples: Vec<u8>) -> (image: Option<RgbaPixels>)
        ensures
            image is Some <==> samples@.len() == 4 * width * height,
            image matches Some(img) ==> img.wf() && img.spec_width() == width && img.spec_height()
                == height && img.spec_samples() == samples@,
    {
        assert(width * height <= 0xffff_ffff * 0xffff_ffff) by (nonlinear_arith)
            requires
                0 <= width <= 0xffff_ffff,
                0 <= height <= 0xffff_ffff,
        ;
        let pixels: u64 = width as u64 * height as u64;
        let expected: u128 = 4 * pixels as u128;
        assert(expected == 4 * width * height) by (nonlinear_arith)
            requires
                expected == 4 * (width as int * height as int),
        ;
        if samples.len() as u128 == expected {
            Some(RgbaPixels { width, height, samples })
        } else {
            None
        }
    }

    /// The data hidden in the image: the alpha byte of every pixel, row by
    /// row.
    pub fn hidden_data(self) -> (data: Vec<u8>)
        requires
            self.wf(),
        ensures
            data@ == alpha_channel(self.spec_samples()),
            data@.len() == self.spec_width() * self.spec_height(),
    {
        let ghost samples = self.samples@;
        let count: usize = self.samples.len();
        assert(samples.len() / 4 == self.spec_width() * self.spec_height()) by (nonlinear_arith)
            requires
                samples.len() == 4 * self.spec_width() * self.spec_height(),
        ;
        match decode_alpha(self.width, self.height, self.samples) {
            Some(data) => data,
            None => {
                // An image too wide to be made has no rows, and so no pixels.
                assert(self.spec_height() == 0) by (nonlinear_arith)
                    requires
                        4 * self.spec_width() * self.spec_height() == samples.len(),
                        samples.len() == count,
                        count <= usize::MAX,
                        4 * self.spec_width() > usize::MAX,
                ;
                assert(samples.len() == 0) by (nonlinear_arith)
                    requires
                        4 * self.spec_width() * self.spec_height() == samples.len(),
                        self.spec_height() == 0,
                ;
                let data: Vec<u8> = Vec::new();
                assert(data@ =~= alpha_channel(samples));
                data
            },
        }
    }
}

} // verus!
