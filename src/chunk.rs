use vstd::prelude::*;
use vstd::utf8::{decode_utf8, valid_utf8};
use crate::checksum::{crc32, crc32_of, string_from_utf8};
use crate::chunk_type::{is_type_code, ChunkType};
use crate::error::PngError;
use crate::wire::{
    be_at, be_bytes, lemma_be_bytes_of_from_be, lemma_from_be_of_be_bytes, push_be_u32,
    read_be_u32,
};

verus! {

/// What a chunk is, mathematically: its type code and its payload.
/// The stored CRC is determined by these two.
pub struct ChunkModel {
    pub kind: Seq<u8>,
    pub data: Seq<u8>,
}

/// The serialized chunk: length, type, data, CRC over type and data.
pub open spec fn chunk_bytes(c: ChunkModel) -> Seq<u8> {
    be_bytes(c.data.len() as u32) + c.kind + c.data + be_bytes(crc32_of(c.kind + c.data))
}

/// The data length that the first four bytes of `b` declare.
pub open spec fn declared_len(b: Seq<u8>) -> int {
    be_at(b, 0) as int
}

/// The outcome of reading one chunk from the front of `b`; bytes after it are ignored.
pub open spec fn chunk_at_front(b: Seq<u8>) -> Result<ChunkModel, PngError> {
    if b.len() < 12 {
        Err(PngError::Truncated)
    } else if !is_type_code(b.subrange(4, 8)) {
        Err(PngError::InvalidTypeCode)
    } else if b.len() < 12 + declared_len(b) {
        Err(PngError::Truncated)
    } else if be_at(b, 8 + declared_len(b)) != crc32_of(b.subrange(4, 8 + declared_len(b))) {
        Err(PngError::ChecksumMismatch)
    } else {
        Ok(ChunkModel { kind: b.subrange(4, 8), data: b.subrange(8, 8 + declared_len(b)) })
    }
}

/// A chunk whose type code is valid and whose payload fits the length field.
pub open spec fn chunk_model_ok(c: ChunkModel) -> bool {
    is_type_code(c.kind) && c.data.len() <= u32::MAX
}

/// Reading back a serialized chunk gives the same chunk, whatever bytes follow it,
/// and uses exactly its serialized length.
pub proof fn lemma_chunk_round_trip(c: ChunkModel, rest: Seq<u8>)
    requires
        chunk_model_ok(c),
    ensures
        chunk_at_front(chunk_bytes(c) + rest) == Ok::<ChunkModel, PngError>(c),
        chunk_bytes(c).len() == 12 + c.data.len(),
{
    let b = chunk_bytes(c) + rest;
    let n = c.data.len() as u32;
    let crc = crc32_of(c.kind + c.data);
    lemma_from_be_of_be_bytes(n);
    lemma_from_be_of_be_bytes(crc);
    assert(declared_len(b) == c.data.len());
    assert(b.subrange(4, 8) =~= c.kind);
    assert(b.subrange(8, 8 + declared_len(b)) =~= c.data);
    assert(b.subrange(4, 8 + declared_len(b)) =~= c.kind + c.data);
    let k = 8 + declared_len(b);
    assert(b[k] == be_bytes(crc)[0] && b[k + 1] == be_bytes(crc)[1] && b[k + 2] == be_bytes(crc)[2]
        && b[k + 3] == be_bytes(crc)[3]);
}

/// Whatever `chunk_at_front` accepts is exactly the serialization of what it returns,
/// followed by the bytes it did not read.
pub proof fn lemma_chunk_at_front_prefix(b: Seq<u8>)
    requires
        chunk_at_front(b) is Ok,
    ensures
        chunk_model_ok(chunk_at_front(b)->Ok_0),
        b == chunk_bytes(chunk_at_front(b)->Ok_0) + b.subrange(
            12 + declared_len(b),
            b.len() as int,
        ),
        chunk_at_front(b)->Ok_0.data.len() == declared_len(b),
{
    let c = chunk_at_front(b)->Ok_0;
    let l = declared_len(b);
    lemma_be_bytes_of_from_be(b[0], b[1], b[2], b[3]);
    lemma_be_bytes_of_from_be(b[8 + l], b[9 + l], b[10 + l], b[11 + l]);
    assert(c.data.len() as u32 == be_at(b, 0));
    assert(c.kind + c.data =~= b.subrange(4, 8 + l));
    assert(b =~= chunk_bytes(c) + b.subrange(12 + l, b.len() as int));
}

/// A serialized chunk whose type or data bytes were altered is rejected: with
/// `InvalidTypeCode` when the type is no longer four letters, and otherwise with
/// `ChecksumMismatch` whenever the altered type and data have another CRC than the
/// original ones.
pub proof fn lemma_altered_chunk_rejected(c: ChunkModel, k: int, v: u8)
    requires
        chunk_model_ok(c),
        4 <= k < 8 + c.data.len(),
        v != chunk_bytes(c)[k],
        is_type_code(chunk_bytes(c).update(k, v).subrange(4, 8)) ==> crc32_of(
            chunk_bytes(c).update(k, v).subrange(4, 8 + c.data.len() as int),
        ) != crc32_of(c.kind + c.data),
    ensures
        chunk_at_front(chunk_bytes(c).update(k, v)) == (if is_type_code(
            chunk_bytes(c).update(k, v).subrange(4, 8),
        ) {
            Err::<ChunkModel, PngError>(PngError::ChecksumMismatch)
        } else {
            Err::<ChunkModel, PngError>(PngError::InvalidTypeCode)
        }),
{
    let b = chunk_bytes(c);
    let b2 = b.update(k, v);
    let crc = crc32_of(c.kind + c.data);
    lemma_from_be_of_be_bytes(c.data.len() as u32);
    lemma_from_be_of_be_bytes(crc);
    assert(declared_len(b2) == c.data.len());
    let m: int = 8 + c.data.len() as int;
    assert(b2[m] == be_bytes(crc)[0] && b2[m + 1] == be_bytes(crc)[1] && b2[m + 2] == be_bytes(
        crc,
    )[2] && b2[m + 3] == be_bytes(crc)[3]);
}

/// One length-prefixed, typed and checksummed record of a PNG file.
#[derive(Debug, PartialEq, Eq)]
pub struct Chunk {
    chunk_type: ChunkType,
    data: Vec<u8>,
    crc: u32,
}

impl View for Chunk {
    type V = ChunkModel;

    closed spec fn view(&self) -> ChunkModel {
        ChunkModel { kind: self.chunk_type@, data: self.data@ }
    }
}

impl Clone for Chunk {
    fn clone(&self) -> (r: Chunk)
        ensures
            r@ == self@,
    {
        proof {
            use_type_invariant(self);
        }
        Chunk { chunk_type: self.chunk_type, data: self.data.clone(), crc: self.crc }
    }
}

impl Chunk {
    #[verifier::type_invariant]
    spec fn consistent(self) -> bool {
        &&& self.data@.len() <= u32::MAX
        &&& self.crc == crc32_of(self.chunk_type@ + self.data@)
    }

    /// The CRC of a type code followed by a payload.
    fn calc_crc(chunk_type: &ChunkType, data: &[u8]) -> (r: u32)
        ensures
            r == crc32_of(chunk_type@ + data@),
    {
        let code = chunk_type.bytes();
        let mut covered: Vec<u8> = Vec::new();
        let mut i: usize = 0;
        while i < 4
            invariant
                i <= 4,
                code@.len() == 4,
                covered@ == code@.subrange(0, i as int),
            decreases 4 - i,
        {
            covered.push(code[i]);
            i = i + 1;
            assert(covered@ =~= code@.subrange(0, i as int));
        }
        let mut j: usize = 0;
        while j < data.len()
            invariant
                j <= data@.len(),
                covered@ == code@ + data@.subrange(0, j as int),
            decreases data@.len() - j,
        {
            covered.push(data[j]);
            j = j + 1;
            assert(covered@ =~= code@ + data@.subrange(0, j as int));
        }
        assert(data@.subrange(0, data@.len() as int) =~= data@);
        crc32(covered.as_slice())
    }

    /// Builds a chunk from a type code and a payload; the CRC is computed here.
    pub fn new(chunk_type: ChunkType, data: Vec<u8>) -> (r: Chunk)
        requires
            data@.len() <= u32::MAX,
        ensures
            r@ == (ChunkModel { kind: chunk_type@, data: data@ }),
    {
        let crc = Self::calc_crc(&chunk_type, data.as_slice());
        Chunk { chunk_type, data, crc }
    }

    /// The payload length in bytes.
    pub fn length(&self) -> (r: u32)
        ensures
            r == self@.data.len(),
    {
        proof {
            use_type_invariant(self);
        }
        self.data.len() as u32
    }

    /// The type code.
    pub fn chunk_type(&self) -> (r: &ChunkType)
        ensures
            r@ == self@.kind,
    {
        &self.chunk_type
    }

    /// The payload.
    pub fn data(&self) -> (r: &[u8])
        ensures
            r@ == self@.data,
    {
        self.data.as_slice()
    }

    /// The CRC over type code and payload.
    pub fn crc(&self) -> (r: u32)
        ensures
            r == crc32_of(self@.kind + self@.data),
    {
        proof {
            use_type_invariant(self);
        }
        self.crc
    }

    /// The payload read as UTF-8 text.
    pub fn data_as_string(&self) -> (r: Result<String, PngError>)
        ensures
            r is Ok <==> valid_utf8(self@.data),
            r is Ok ==> r->Ok_0@ == decode_utf8(self@.data),
            r is Err ==> r->Err_0 == PngError::InvalidEncoding,
    {
        match string_from_utf8(self.data.clone()) {
            Some(s) => Ok(s),
            None => Err(PngError::InvalidEncoding),
        }
    }

    /// The serialized chunk: length, type, data and CRC.
    pub fn as_bytes(&self) -> (r: Vec<u8>)
        ensures
            r@ == chunk_bytes(self@),
    {
        let mut out: Vec<u8> = Vec::new();
        self.write_to(&mut out);
        assert(out@ =~= chunk_bytes(self@));
        out
    }

    /// Appends the serialized chunk to `out`.
    pub fn write_to(&self, out: &mut Vec<u8>)
        ensures
            final(out)@ == old(out)@ + chunk_bytes(self@),
    {
        proof {
            use_type_invariant(self);
        }
        let ghost start = out@;
        push_be_u32(out, self.length());
        let code = self.chunk_type.bytes();
        let mut i: usize = 0;
        while i < 4
            invariant
                i <= 4,
                code@.len() == 4,
                out@ == start + be_bytes(self.data@.len() as u32) + code@.subrange(0, i as int),
            decreases 4 - i,
        {
            out.push(code[i]);
            i = i + 1;
            assert(out@ =~= start + be_bytes(self.data@.len() as u32) + code@.subrange(
                0,
                i as int,
            ));
        }
        assert(code@.subrange(0, 4) =~= code@);
        let ghost mid = out@;
        let mut j: usize = 0;
        while j < self.data.len()
            invariant
                j <= self.data@.len(),
                out@ == mid + self.data@.subrange(0, j as int),
            decreases self.data@.len() - j,
        {
            out.push(self.data[j]);
            j = j + 1;
            assert(out@ =~= mid + self.data@.subrange(0, j as int));
        }
        assert(self.data@.subrange(0, self.data@.len() as int) =~= self.data@);
        push_be_u32(out, self.crc);
        assert(final(out)@ =~= old(out)@ + chunk_bytes(self@));
    }

    /// Reads one chunk from `bytes` starting at `at`; bytes after it are ignored.
    pub fn read_at(bytes: &[u8], at: usize) -> (r: Result<Chunk, PngError>)
        requires
            at <= bytes@.len(),
        ensures
            match r {
                Ok(c) => chunk_at_front(bytes@.subrange(at as int, bytes@.len() as int)) == Ok::<ChunkModel, PngError>(c@),
                Err(e) => chunk_at_front(bytes@.subrange(at as int, bytes@.len() as int)) == Err::<ChunkModel, PngError>(e),
            },
    {
        let ghost b = bytes@.subrange(at as int, bytes@.len() as int);
        let avail = bytes.len() - at;
        if avail < 12 {
            return Err(PngError::Truncated);
        }
        let len = read_be_u32(bytes, at);
        assert(len == be_at(b, 0));
        let code: [u8; 4] = [bytes[at + 4], bytes[at + 5], bytes[at + 6], bytes[at + 7]];
        assert(code@ =~= b.subrange(4, 8));
        let chunk_type = match ChunkType::try_from(code) {
            Ok(t) => t,
            Err(e) => {
                return Err(e);
            },
        };
        let n = len as usize;
        if n > avail - 12 {
            return Err(PngError::Truncated);
        }
        let start = at + 8;
        let mut data: Vec<u8> = Vec::new();
        let total = bytes.len();
        let mut i: usize = 0;
        while i < n
            invariant
                i <= n,
                total == bytes@.len(),
                start + n + 4 <= total,
                data@ == bytes@.subrange(start as int, start + i),
            decreases n - i,
        {
            data.push(bytes[start + i]);
            i = i + 1;
            assert(data@ =~= bytes@.subrange(start as int, start + i));
        }
        assert(data@ =~= b.subrange(8, 8 + declared_len(b)));
        let stored = read_be_u32(bytes, start + n);
        assert(stored == be_at(b, 8 + declared_len(b)));
        let computed = Self::calc_crc(&chunk_type, data.as_slice());
        assert(chunk_type@ + data@ =~= b.subrange(4, 8 + declared_len(b)));
        if stored != computed {
            return Err(PngError::ChecksumMismatch);
        }
        Ok(Chunk { chunk_type, data, crc: stored })
    }

    /// Reads one chunk from the front of `bytes`; bytes after it are ignored.
    pub fn try_from(bytes: &[u8]) -> (r: Result<Chunk, PngError>)
        ensures
            match r {
                Ok(c) => chunk_at_front(bytes@) == Ok::<ChunkModel, PngError>(c@),
                Err(e) => chunk_at_front(bytes@) == Err::<ChunkModel, PngError>(e),
            },
    {
        assert(bytes@.subrange(0, bytes@.len() as int) =~= bytes@);
        Self::read_at(bytes, 0)
    }
}

} // verus!
