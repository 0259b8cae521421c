use vstd::prelude::*;
use vstd::slice::slice_to_vec;
use vstd::string::StringSliceAdditionalSpecFns;
use vstd::utf8::{decode_utf8, valid_utf8};
use crate::chunk::{Chunk, ChunkModel};
use crate::chunk_type::{is_type_code, ChunkType};
use crate::error::PngError;
use crate::png::{has_type, is_first_of_type, models, parse_png, png_bytes, Png};

verus! {

/// `r` is what reading `d` as UTF-8 text gives.
pub open spec fn text_outcome(d: Seq<u8>, r: Result<String, PngError>) -> bool {
    match r {
        Ok(s) => valid_utf8(d) && s@ == decode_utf8(d),
        Err(e) => !valid_utf8(d) && e == PngError::InvalidEncoding,
    }
}

/// Hides `message` in a new chunk of type `chunk_type` at the end of the file `file`,
/// and returns the new file.
pub fn encode_bytes(file: &[u8], chunk_type: &str, message: &str) -> (r: Result<
    Vec<u8>,
    PngError,
>)
    requires
        message.spec_bytes().len() <= u32::MAX,
    ensures
        !is_type_code(chunk_type.spec_bytes()) ==> r is Err && r->Err_0
            == PngError::InvalidTypeCode,
        is_type_code(chunk_type.spec_bytes()) ==> match parse_png(file@) {
            Err(e) => r is Err && r->Err_0 == e,
            Ok(cs) => r is Ok && r->Ok_0@ == png_bytes(
                cs.push(ChunkModel { kind: chunk_type.spec_bytes(), data: message.spec_bytes() }),
            ),
        },
{
    let kind = match ChunkType::from_str(chunk_type) {
        Ok(t) => t,
        Err(e) => {
            return Err(e);
        },
    };
    let data = slice_to_vec(message.as_bytes());
    let chunk = Chunk::new(kind, data);
    let mut png = match Png::try_from(file) {
        Ok(p) => p,
        Err(e) => {
            return Err(e);
        },
    };
    let ghost before = png@;
    png.append_chunk(chunk);
    assert(models(png@) =~= models(before).push(chunk@));
    Ok(png.as_bytes())
}

/// Reads the text held by the first chunk of type `chunk_type` in the file `file`.
pub fn decode_bytes(file: &[u8], chunk_type: &str) -> (r: Result<String, PngError>)
    ensures
        match parse_png(file@) {
            Err(e) => r is Err && r->Err_0 == e,
            Ok(cs) => if has_type(cs, chunk_type.spec_bytes()) {
                exists|i: int|
                    is_first_of_type(cs, chunk_type.spec_bytes(), i) && text_outcome(
                        cs[i].data,
                        r,
                    )
            } else {
                r is Err && r->Err_0 == PngError::NotFound
            },
        },
{
    let png = match Png::try_from(file) {
        Ok(p) => p,
        Err(e) => {
            return Err(e);
        },
    };
    match png.chunk_by_type(chunk_type) {
        Some(c) => c.data_as_string(),
        None => Err(PngError::NotFound),
    }
}

/// Removes the first chunk of type `chunk_type` from the file `file`; returns the new
/// file and the removed chunk.
pub fn remove_bytes(file: &[u8], chunk_type: &str) -> (r: Result<(Vec<u8>, Chunk), PngError>)
    ensures
        match parse_png(file@) {
            Err(e) => r is Err && r->Err_0 == e,
            Ok(cs) => if has_type(cs, chunk_type.spec_bytes()) {
                exists|i: int|
                    is_first_of_type(cs, chunk_type.spec_bytes(), i) && r is Ok && r->Ok_0.1@
                        == cs[i] && r->Ok_0.0@ == png_bytes(cs.remove(i))
            } else {
                r is Err && r->Err_0 == PngError::NotFound
            },
        },
{
    let mut png = match Png::try_from(file) {
        Ok(p) => p,
        Err(e) => {
            return Err(e);
        },
    };
    let ghost before = png@;
    match png.remove_first_chunk(chunk_type) {
        Ok(c) => {
            proof {
                let i = choose|i: int|
                    is_first_of_type(models(before), chunk_type.spec_bytes(), i) && c == before[i]
                        && png@ == before.remove(i);
                assert(models(png@) =~= models(before).remove(i));
            }
            Ok((png.as_bytes(), c))
        },
        Err(e) => Err(e),
    }
}

} // verus!
