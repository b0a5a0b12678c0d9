use vstd::prelude::*;
use vstd::string::StringSliceAdditionalSpecFns;

use crate::chunk::{crc32_of, Chunk, ChunkView};
use crate::chunk_type::{type_from_text, ChunkType};
use crate::error::PngError;
use crate::png::{first_of_type, png_encoded, png_from_bytes, Png};

verus! {

/// Reads a whole file, appends a chunk of type `chunk_type` whose payload
/// is the UTF-8 text of `message`, and writes the file out again.
pub fn insert_message(file: &[u8], chunk_type: &str, message: &str) -> (r: Result<
    Vec<u8>,
    PngError,
>)
    requires
        message.spec_bytes().len() <= u32::MAX,
    ensures
        match png_from_bytes(file@) {
            Err(e) => r == Err::<Vec<u8>, PngError>(e),
            Ok(cs) => match type_from_text(chunk_type@) {
                Err(e) => r == Err::<Vec<u8>, PngError>(e),
                Ok(t) => r matches Ok(out) && out@ == png_encoded(
                    cs.push(
                        ChunkView {
                            length: message.spec_bytes().len() as u32,
                            chunk_type: t,
                            data: message.spec_bytes(),
                            crc: crc32_of(t + message.spec_bytes()),
                        },
                    ),
                ),
            },
        },
{
    let mut png = match Png::try_from(file) {
        Ok(p) => p,
        Err(e) => {
            return Err(e);
        },
    };
    let t = match ChunkType::from_str(chunk_type) {
        Ok(t) => t,
        Err(e) => {
            return Err(e);
        },
    };
    let text = message.as_bytes();
    let mut data: Vec<u8> = Vec::new();
    let mut i: usize = 0;
    while i < text.len()
        invariant
            0 <= i <= text@.len(),
            data@ == text@.subrange(0, i as int),
        decreases text@.len() - i,
    {
        data.push(text[i]);
        i = i + 1;
        proof {
            assert(data@ =~= text@.subrange(0, i as int));
        }
    }
    proof {
        assert(data@ =~= text@);
    }
    let chunk = Chunk::new(t, data);
    let ghost v = chunk@;
    png.append_chunk(chunk);
    proof {
        assert(v == ChunkView {
            length: message.spec_bytes().len() as u32,
            chunk_type: t@,
            data: message.spec_bytes(),
            crc: crc32_of(t@ + message.spec_bytes()),
        });
    }
    Ok(png.as_bytes())
}

/// Reads a whole file, removes the first chunk whose type renders as
/// `chunk_type`, and writes the file out again.
pub fn remove_message(file: &[u8], chunk_type: &str) -> (r: Result<Vec<u8>, PngError>)
    ensures
        match png_from_bytes(file@) {
            Err(e) => r == Err::<Vec<u8>, PngError>(e),
            Ok(cs) => match first_of_type(cs, chunk_type@) {
                Some(i) => r matches Ok(out) && out@ == png_encoded(cs.remove(i)),
                None => r == Err::<Vec<u8>, PngError>(PngError::ChunkNotFound),
            },
        },
{
    let mut png = match Png::try_from(file) {
        Ok(p) => p,
        Err(e) => {
            return Err(e);
        },
    };
    match png.remove_chunk(chunk_type) {
        Ok(()) => Ok(png.as_bytes()),
        Err(e) => Err(e),
    }
}

} // verus!
