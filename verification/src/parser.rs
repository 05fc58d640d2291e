pub use crate::renderer::split_utf8_unit;

use crate::error::RepcError;
use crate::string::bin_of;
use crate::string::hex_of;
use crate::string::pad_left;
use crate::string::padded_with;
use crate::unicode::header_mask_of;
use crate::unicode::payload_seq;
use crate::unicode::scalar_of;
use crate::unicode::scalar_prefix;
use vstd::prelude::*;
use vstd::string::StrSliceExecFns;
use vstd::string::StringSliceAdditionalSpecFns;
use vstd::utf8::is_ascii_chars;

verus! {

/// One decoded character: the text it came from, its raw encoded bytes,
/// the recovered Unicode scalar value, and the payload bytes with their
/// framing bits stripped.
#[derive(Debug)]
pub struct Representaion {
    pub input: String,
    pub hu8: Vec<u8>,
    pub unicode: u32,
    pub utf8_frags: Vec<u8>,
}

impl Representaion {
    /// The fields agree with one decode of `hu8`: a raw length of one to
    /// four bytes, the scalar value assembled from the payload bytes, and
    /// one payload byte per raw byte.
    pub open spec fn wf(self) -> bool {
        &&& 1 <= self.hu8@.len() <= 4
        &&& self.unicode == scalar_of(self.hu8@)
        &&& self.utf8_frags@ == payload_seq(self.hu8@)
    }
}

/// The one-line boxed row the display shows for a decoded character:
/// the input, the code point zero-padded to at least four hex digits,
/// and the three colored byte views, between vertical bars.
pub open spec fn row_text(rep: Representaion) -> Seq<char> {
    "\u{2502}"@ + rep.input@ + "\u{2502}U+"@ + pad_left(hex_of(rep.unicode as nat), 4)
        + "\u{2502}"@ + crate::renderer::bcp_text(rep) + "\u{2502}"@
        + crate::renderer::bu8_text(rep) + "\u{2502}"@ + crate::renderer::hu8_text(rep)
        + "\u{2502}\n"@
}

impl Representaion {
    /// Writes the boxed row for this character, ending in a newline.
    pub fn display_row(&self) -> (r: String)
        requires
            self.wf(),
        ensures
            r@ == row_text(*self),
    {
        let mut r = String::from_str("\u{2502}");
        r.append(self.input.as_str());
        r.append("\u{2502}U+");
        r.append(crate::string::hex_padded(self.unicode, 4).as_str());
        r.append("\u{2502}");
        let (bcp, _width) = crate::renderer::render_bcp(self.unicode, self.hu8.len());
        r.append(bcp.as_str());
        r.append("\u{2502}");
        r.append(
            crate::renderer::render_bu8(self.utf8_frags.as_slice(), self.hu8.len()).as_str(),
        );
        r.append("\u{2502}");
        r.append(crate::renderer::render_hu8(self.hu8.as_slice()).as_str());
        r.append("\u{2502}\n");
        proof {
            assert(r@ =~= row_text(*self));
        }
        r
    }
}

/// The little-endian bytes of a 32-bit value, least significant first.
pub open spec fn le_bytes(v: u32) -> Seq<u8> {
    seq![v as u8, (v >> 8u32) as u8, (v >> 16u32) as u8, (v >> 24u32) as u8]
}

/// Splits a 32-bit value into its four bytes, least significant first.
pub fn u32_as_u8(src: u32) -> (r: Vec<u8>)
    ensures
        r@ == le_bytes(src),
{
    let mut r: Vec<u8> = Vec::new();
    r.push(#[verifier::truncate] (src as u8));
    r.push(#[verifier::truncate] ((src >> 8) as u8));
    r.push(#[verifier::truncate] ((src >> 16) as u8));
    r.push((src >> 24) as u8);
    proof {
        assert(r@ =~= le_bytes(src));
    }
    r
}

/// The lower-case hexadecimal digit string of a byte, without leading
/// zeros.
pub fn to_hexadecimal_string(n: u8) -> (r: String)
    ensures
        r@ == hex_of(n as nat),
        is_ascii_chars(r@),
{
    crate::string::to_hexadecimal_string(n as u32)
}

/// Zero-padded renderings of a byte, used for the eight-bit binary view.
pub trait Padding {
    /// The byte in binary, zero-padded to eight digits.
    fn with_padding(self) -> (r: String) where Self: Sized;

    /// The byte rendered through `stringifier`, zero-padded on the left
    /// to at least `num` bytes.
    fn with_padding_to<F: Fn(Self) -> String>(self, stringifier: F, num: usize) -> (r: String) where
        Self: Sized
        requires
            call_requires(stringifier, (self,)),
        ensures
            exists|s: String|
                call_ensures(stringifier, (self,), s) && r@ == padded_with(s, num as nat),
    ;
}

impl Padding for u8 {
    fn with_padding(self) -> (r: String)
        ensures
            r@ == pad_left(bin_of(self as nat), 8),
            is_ascii_chars(r@),
    {
        crate::string::binary_padded(self, 8)
    }

    fn with_padding_to<F: Fn(u8) -> String>(self, stringifier: F, num: usize) -> (r: String) {
        crate::string::Padding::with_padding(self, stringifier, num)
    }
}

/// Recovers the Unicode scalar value and the payload bytes from the raw
/// bytes of one encoded character. A sequence whose length is outside one
/// to four bytes is rejected; framing bits are stripped without being
/// checked, so ill-framed input yields a well-defined but wrong value.
pub fn decode_bytes(bytes: &[u8]) -> (r: Result<(u32, Vec<u8>), RepcError>)
    ensures
        (r is Ok) <==> (1 <= bytes@.len() <= 4),
        r matches Ok(p) ==> p.0 == scalar_of(bytes@) && p.1@ == payload_seq(bytes@),
{
    let len = bytes.len();
    if len < 1 || len > 4 {
        return Err(RepcError);
    }
    let mut frags: Vec<u8> = Vec::new();
    let mut unicode: u32 = 0;
    let mut i: usize = 0;
    while i < len
        invariant
            1 <= len <= 4,
            len == bytes@.len(),
            i <= len,
            unicode == scalar_prefix(bytes@, i as int),
            frags@ == payload_seq(bytes@).take(i as int),
        decreases len - i,
    {
        let b = bytes[i];
        let stripped = if i == 0 {
            b ^ header_mask_of(len)
        } else {
            b ^ 0x80
        };
        frags.push(stripped);
        let sh = 6 * (len - 1 - i);
        unicode = unicode | ((stripped as u32) << (sh as u32));
        i = i + 1;
        proof {
            assert(frags@ =~= payload_seq(bytes@).take(i as int));
        }
    }
    proof {
        assert(frags@ =~= payload_seq(bytes@));
    }
    Ok((unicode, frags))
}

/// Decodes the UTF-8 bytes of `input` as one encoded character: the
/// scalar value and the framing-stripped payload bytes.
pub fn utf8_to_unicode(input: &str) -> (r: Result<(u32, Vec<u8>), RepcError>)
    ensures
        (r is Ok) <==> (1 <= input.spec_bytes().len() <= 4),
        r matches Ok(p) ==> p.0 == scalar_of(input.spec_bytes()) && p.1@ == payload_seq(
            input.spec_bytes(),
        ),
{
    decode_bytes(input.as_bytes())
}

/// Decodes `input` into the full representation of one character: its
/// text, raw bytes, scalar value and payload bytes. Input whose UTF-8
/// byte length is outside one to four bytes is rejected.
pub fn decode(input: &str) -> (r: Result<Representaion, RepcError>)
    ensures
        (r is Ok) <==> (1 <= input.spec_bytes().len() <= 4),
        r matches Ok(rep) ==> rep.wf() && rep.hu8@ == input.spec_bytes() && rep.input@
            == input@,
{
    let (unicode, utf8_frags) = match utf8_to_unicode(input) {
        Ok(p) => p,
        Err(e) => {
            return Err(e);
        },
    };
    let hu8: Vec<u8> = input.as_bytes_vec();
    Ok(
        Representaion {
            input: input.to_owned(),
            hu8,
            unicode,
            utf8_frags,
        },
    )
}

} // verus!
