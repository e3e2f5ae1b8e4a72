//! The interface that every filter offers, and the host logic that applies one
//! to an image.
use crate::blur;
use crate::error::ProcessorError;
use crate::mirror;
use vstd::prelude::*;
use vstd::string::StringSliceAdditionalSpecFns;
use vstd::utf8::encode_utf8;

verus! {

/// A filter: one operation that transforms an RGBA8 image in place.
pub trait ImageFilter {
    /// Transforms `rgba`, a `width x height` RGBA image, as the parameter
    /// string `params` asks. Returns `0` or more on success and a negative
    /// status on failure, after which the bytes need not mean anything. The
    /// buffer keeps its size, and the call is one that `outcome` admits.
    fn process_image(&self, width: u32, height: u32, rgba: &mut Vec<u8>, params: &str) -> (r: i32)
        ensures
            final(rgba)@.len() == old(rgba)@.len(),
            self.outcome(width, height, old(rgba)@, params@, r, final(rgba)@),
    ;

    /// Whether a call on a `width x height` image holding `before`, with the
    /// parameter text `params`, may end with `status` and the image `after`.
    /// A filter that states nothing of its calls admits every outcome.
    open spec fn outcome(&self, width: u32, height: u32, before: Seq<u8>, params: Seq<char>, status: i32, after: Seq<u8>) -> bool {
        true
    }
}

/// The iterated box blur, with its settings in JSON.
#[derive(Clone, Copy, Debug, PartialEq, Eq, Structural)]
pub struct BoxBlur;

/// Horizontal and vertical mirroring, with its settings in JSON.
#[derive(Clone, Copy, Debug, PartialEq, Eq, Structural)]
pub struct Mirror;

impl ImageFilter for BoxBlur {
    open spec fn outcome(&self, width: u32, height: u32, before: Seq<u8>, params: Seq<char>, status: i32, after: Seq<u8>) -> bool {
        blur::blur_outcome(width, height, before, params, status, after)
    }

    fn process_image(&self, width: u32, height: u32, rgba: &mut Vec<u8>, params: &str) -> (r: i32) {
        blur::process_image(width, height, rgba, params)
    }
}

impl ImageFilter for Mirror {
    open spec fn outcome(&self, width: u32, height: u32, before: Seq<u8>, params: Seq<char>, status: i32, after: Seq<u8>) -> bool {
        mirror::mirror_outcome(width, height, before, params, status, after)
    }

    fn process_image(&self, width: u32, height: u32, rgba: &mut Vec<u8>, params: &str) -> (r: i32) {
        mirror::process_image(width, height, rgba, params)
    }
}

/// An RGBA8 image: `width * height` pixels of four bytes, row by row.
#[derive(Clone, Debug, PartialEq, Eq)]
pub struct PixelBuffer {
    width: u32,
    height: u32,
    data: Vec<u8>,
}

impl PixelBuffer {
    /// The buffer holds four bytes for each pixel.
    pub open spec fn wf(&self) -> bool {
        self.spec_data().len() == self.spec_width() * self.spec_height() * 4
    }

    /// Width in pixels.
    pub closed spec fn spec_width(&self) -> u32 {
        self.width
    }

    /// Height in pixels.
    pub closed spec fn spec_height(&self) -> u32 {
        self.height
    }

    /// The bytes, row by row.
    pub closed spec fn spec_data(&self) -> Seq<u8> {
        self.data@
    }

    /// An image of `width x height` pixels held in `data`; `None` where `data`
    /// does not hold exactly four bytes for each pixel.
    pub fn new(width: u32, height: u32, data: Vec<u8>) -> (r: Option<PixelBuffer>)
        ensures
            r is Some <==> data@.len() == width * height * 4,
            r matches Some(b) ==> b.wf() && b.spec_width() == width && b.spec_height() == height
                && b.spec_data() == data@,
    {
        proof {
            assert(width * height <= u32::MAX * u32::MAX) by (nonlinear_arith)
                requires
                    width <= u32::MAX,
                    height <= u32::MAX,
            ;
        }
        let pixels: u128 = width as u128 * height as u128;
        if data.len() as u128 != pixels * 4 {
            return None;
        }
        Some(PixelBuffer { width, height, data })
    }

    /// Width in pixels.
    pub fn width(&self) -> (r: u32)
        ensures
            r == self.spec_width(),
    {
        self.width
    }

    /// Height in pixels.
    pub fn height(&self) -> (r: u32)
        ensures
            r == self.spec_height(),
    {
        self.height
    }

    /// The bytes, row by row.
    pub fn as_bytes(&self) -> (r: &Vec<u8>)
        ensures
            r@ == self.spec_data(),
    {
        &self.data
    }

    /// Gives up the image and hands back its bytes.
    pub fn into_bytes(self) -> (r: Vec<u8>)
        ensures
            r@ == self.spec_data(),
    {
        self.data
    }
}

/// Whether the bytes `b` hold a zero byte, which a C string cannot carry.
pub open spec fn has_nul(b: Seq<u8>) -> bool {
    exists|i: int| 0 <= i < b.len() && b[i] == 0
}

/// Finds a zero byte in `s`.
fn contains_nul(s: &str) -> (r: bool)
    ensures
        r == has_nul(encode_utf8(s@)),
{
    let b = s.as_bytes();
    let mut i: usize = 0;
    while i < b.len()
        invariant
            i <= b@.len(),
            b@ == s.spec_bytes(),
            forall|j: int| 0 <= j < i ==> b@[j] != 0,
        decreases b@.len() - i,
    {
        if b[i] == 0 {
            return true;
        }
        i = i + 1;
    }
    false
}

/// `r` is a failure of the filter call with the message `msg`.
pub open spec fn is_ffi_error(r: Result<(), ProcessorError>, msg: Seq<char>) -> bool {
    r matches Err(ProcessorError::FFI(m)) && m@ == msg
}

/// Message of the error for a filter that reported failure.
pub open spec fn failed_call_message() -> Seq<char> {
    "error processing image"@
}

/// Message of the error for parameters that cannot be handed over as a C string.
pub open spec fn bad_params_message() -> Seq<char> {
    "cannot convert params to c_str"@
}

/// `r` is what a filter call that ended with `status` gives: success for `0`
/// or more, else the failure of the call.
pub open spec fn follows_status(r: Result<(), ProcessorError>, status: i32) -> bool {
    if status >= 0 {
        r is Ok
    } else {
        is_ffi_error(r, failed_call_message())
    }
}

/// The result of a call that ended with the status `status`: success for `0`
/// or more, a failure of the call for a negative status.
pub fn status_result(status: i32) -> (r: Result<(), ProcessorError>)
    ensures
        follows_status(r, status),
{
    if status < 0 {
        let m = "error processing image".to_string();
        proof {
            reveal_strlit("error processing image");
        }
        Err(ProcessorError::FFI(m))
    } else {
        Ok(())
    }
}

/// Applies `filter` to `img` with the parameter string `params`. Fails with
/// the bad-parameters error, and leaves `img` as it was, exactly where `params`
/// holds a zero byte and so cannot be handed over as a C string. Otherwise hands
/// the image's width, height and bytes and `params` to the filter once, and
/// gives what the status it returned calls for. The image keeps its dimensions.
pub fn process_image<F: ImageFilter>(img: &mut PixelBuffer, filter: &F, params: String) -> (r: Result<
    (),
    ProcessorError,
>)
    requires
        old(img).wf(),
    ensures
        final(img).wf(),
        final(img).spec_width() == old(img).spec_width(),
        final(img).spec_height() == old(img).spec_height(),
        is_ffi_error(r, bad_params_message()) <==> has_nul(encode_utf8(params@)),
        has_nul(encode_utf8(params@)) ==> *final(img) == *old(img),
        !has_nul(encode_utf8(params@)) ==> exists|status: i32|
            filter.outcome(
                old(img).spec_width(),
                old(img).spec_height(),
                old(img).spec_data(),
                params@,
                status,
                final(img).spec_data(),
            ) && follows_status(r, status),
{
    proof {
        reveal_strlit("error processing image");
        reveal_strlit("cannot convert params to c_str");
        assert(failed_call_message().len() != bad_params_message().len());
    }
    if contains_nul(params.as_str()) {
        let m = "cannot convert params to c_str".to_string();
        return Err(ProcessorError::FFI(m));
    }
    let status = filter.process_image(img.width, img.height, &mut img.data, params.as_str());
    let r = status_result(status);
    assert(follows_status(r, status));
    r
}

} // verus!
