use vstd::prelude::*;
use vstd::string::StringSliceAdditionalSpecFns;
use crate::chunk::{
    chunk_at_front, chunk_bytes, chunk_model_ok, lemma_chunk_at_front_prefix,
    lemma_chunk_round_trip, Chunk, ChunkModel,
};
use crate::error::PngError;

verus! {

/// The eight bytes that open every PNG file.
pub open spec fn signature() -> Seq<u8> {
    seq![137u8, 80u8, 78u8, 71u8, 13u8, 10u8, 26u8, 10u8]
}

/// The models of a sequence of chunks.
pub open spec fn models(cs: Seq<Chunk>) -> Seq<ChunkModel> {
    cs.map_values(|c: Chunk| c@)
}

/// The chunks serialized one after another.
pub open spec fn chunks_bytes(cs: Seq<ChunkModel>) -> Seq<u8>
    decreases cs.len(),
{
    if cs.len() == 0 {
        Seq::empty()
    } else {
        chunk_bytes(cs[0]) + chunks_bytes(cs.drop_first())
    }
}

/// A whole file: the signature, then the chunks.
pub open spec fn png_bytes(cs: Seq<ChunkModel>) -> Seq<u8> {
    signature() + chunks_bytes(cs)
}

/// `r` with `cs` put in front of its chunks, errors passed on.
pub open spec fn prepend(
    cs: Seq<ChunkModel>,
    r: Result<Seq<ChunkModel>, PngError>,
) -> Result<Seq<ChunkModel>, PngError> {
    match r {
        Ok(rest) => Ok(cs + rest),
        Err(e) => Err(e),
    }
}

/// The outcome of reading chunks one after another until `b` is used up.
pub open spec fn parse_chunks(b: Seq<u8>) -> Result<Seq<ChunkModel>, PngError>
    decreases b.len(),
{
    if b.len() == 0 {
        Ok(Seq::empty())
    } else {
        match chunk_at_front(b) {
            Ok(c) => prepend(seq![c], parse_chunks(b.subrange(12 + c.data.len() as int, b.len() as int))),
            Err(e) => Err(e),
        }
    }
}

/// The outcome of reading a whole file.
pub open spec fn parse_png(b: Seq<u8>) -> Result<Seq<ChunkModel>, PngError> {
    if b.len() < 8 || b.subrange(0, 8) != signature() {
        Err(PngError::BadSignature)
    } else {
        parse_chunks(b.subrange(8, b.len() as int))
    }
}

/// Chunk `i` is the first whose type code is `t`.
pub open spec fn is_first_of_type(cs: Seq<ChunkModel>, t: Seq<u8>, i: int) -> bool {
    &&& 0 <= i < cs.len()
    &&& cs[i].kind == t
    &&& forall|j: int| 0 <= j < i ==> (#[trigger] cs[j]).kind != t
}

/// Some chunk has type code `t`.
pub open spec fn has_type(cs: Seq<ChunkModel>, t: Seq<u8>) -> bool {
    exists|i: int| 0 <= i < cs.len() && (#[trigger] cs[i]).kind == t
}

pub proof fn lemma_chunks_bytes_push(cs: Seq<ChunkModel>, c: ChunkModel)
    ensures
        chunks_bytes(cs.push(c)) == chunks_bytes(cs) + chunk_bytes(c),
    decreases cs.len(),
{
    if cs.len() == 0 {
        assert(cs.push(c).drop_first() =~= Seq::<ChunkModel>::empty());
        assert(cs.push(c)[0] == c);
        assert(chunks_bytes(cs.push(c).drop_first()) == Seq::<u8>::empty());
        assert(chunks_bytes(cs) == Seq::<u8>::empty());
        assert(chunks_bytes(cs.push(c)) =~= chunks_bytes(cs) + chunk_bytes(c));
    } else {
        lemma_chunks_bytes_push(cs.drop_first(), c);
        assert(cs.push(c).drop_first() =~= cs.drop_first().push(c));
        assert(chunks_bytes(cs.push(c)) =~= chunks_bytes(cs) + chunk_bytes(c));
    }
}

/// Every chunk has a valid type code and a payload that fits the length field.
pub open spec fn all_ok(cs: Seq<ChunkModel>) -> bool {
    forall|i: int| 0 <= i < cs.len() ==> chunk_model_ok(#[trigger] cs[i])
}

proof fn lemma_parse_chunks_bytes(cs: Seq<ChunkModel>)
    requires
        all_ok(cs),
    ensures
        parse_chunks(chunks_bytes(cs)) == Ok::<Seq<ChunkModel>, PngError>(cs),
    decreases cs.len(),
{
    if cs.len() == 0 {
        assert(cs =~= Seq::<ChunkModel>::empty());
    } else {
        let c = cs[0];
        let rest = cs.drop_first();
        assert(all_ok(rest)) by {
            assert forall|i: int| 0 <= i < rest.len() implies chunk_model_ok(#[trigger] rest[i]) by {
                assert(rest[i] == cs[i + 1]);
            }
        }
        lemma_parse_chunks_bytes(rest);
        let b = chunks_bytes(cs);
        let tail = chunks_bytes(rest);
        assert(b == chunk_bytes(c) + tail);
        lemma_chunk_round_trip(c, tail);
        assert(chunk_at_front(b) == Ok::<ChunkModel, PngError>(c));
        assert(b.len() > 0);
        assert(b.subrange(12 + c.data.len() as int, b.len() as int) =~= tail);
        assert(parse_chunks(b) == prepend(seq![c], parse_chunks(tail)));
        assert(seq![c] + rest =~= cs);
    }
}

proof fn lemma_parsed_chunks_bytes(b: Seq<u8>)
    requires
        parse_chunks(b) is Ok,
    ensures
        chunks_bytes(parse_chunks(b)->Ok_0) == b,
        all_ok(parse_chunks(b)->Ok_0),
    decreases b.len(),
{
    if b.len() == 0 {
        assert(chunks_bytes(Seq::<ChunkModel>::empty()) =~= b);
    } else {
        lemma_chunk_at_front_prefix(b);
        let c = chunk_at_front(b)->Ok_0;
        let tail = b.subrange(12 + c.data.len() as int, b.len() as int);
        lemma_parsed_chunks_bytes(tail);
        let cs = parse_chunks(b)->Ok_0;
        let rest = parse_chunks(tail)->Ok_0;
        assert(cs == seq![c] + rest);
        assert(cs[0] == c);
        assert(cs.drop_first() =~= rest);
        assert(all_ok(cs)) by {
            assert forall|i: int| 0 <= i < cs.len() implies chunk_model_ok(#[trigger] cs[i]) by {
                if i > 0 {
                    assert(cs[i] == rest[i - 1]);
                }
            }
        }
    }
}

/// Reading a file serialized from valid chunks gives back exactly those chunks.
pub proof fn lemma_png_round_trip(cs: Seq<ChunkModel>)
    requires
        all_ok(cs),
    ensures
        parse_png(png_bytes(cs)) == Ok::<Seq<ChunkModel>, PngError>(cs),
{
    let b = png_bytes(cs);
    assert(b.subrange(0, 8) =~= signature());
    assert(b.subrange(8, b.len() as int) =~= chunks_bytes(cs));
    lemma_parse_chunks_bytes(cs);
}

/// Serializing what was read from a buffer reproduces the buffer byte for byte.
pub proof fn lemma_png_reserializes(b: Seq<u8>)
    requires
        parse_png(b) is Ok,
    ensures
        png_bytes(parse_png(b)->Ok_0) == b,
        all_ok(parse_png(b)->Ok_0),
{
    lemma_parsed_chunks_bytes(b.subrange(8, b.len() as int));
    assert(b =~= signature() + b.subrange(8, b.len() as int));
}

/// After appending a chunk whose type code no earlier chunk has, a lookup of that
/// type finds the appended chunk; removing it again leaves no chunk of that type.
pub proof fn lemma_append_lookup_remove(cs: Seq<ChunkModel>, c: ChunkModel)
    requires
        !has_type(cs, c.kind),
    ensures
        is_first_of_type(cs.push(c), c.kind, cs.len() as int),
        forall|i: int| is_first_of_type(cs.push(c), c.kind, i) ==> i == cs.len(),
        cs.push(c).remove(cs.len() as int) == cs,
        !has_type(cs.push(c).remove(cs.len() as int), c.kind),
{
    let cs2 = cs.push(c);
    assert forall|j: int| 0 <= j < cs.len() implies (#[trigger] cs2[j]).kind != c.kind by {
        assert(cs2[j] == cs[j]);
    }
    assert(cs2.remove(cs.len() as int) =~= cs);
}

/// An in-memory PNG file: the signature is implied, the chunks are kept in file order.
#[derive(Debug)]
pub struct Png {
    chunks: Vec<Chunk>,
}

impl View for Png {
    type V = Seq<Chunk>;

    closed spec fn view(&self) -> Seq<Chunk> {
        self.chunks@
    }
}

impl Png {
    /// The PNG signature.
    pub fn header() -> (r: [u8; 8])
        ensures
            r@ == signature(),
    {
        let r: [u8; 8] = [137, 80, 78, 71, 13, 10, 26, 10];
        assert(r@ =~= signature());
        r
    }

    /// A file holding the given chunks in the given order.
    pub fn from_chunks(chunks: Vec<Chunk>) -> (r: Png)
        ensures
            r@ == chunks@,
    {
        Png { chunks }
    }

    /// The chunks in file order.
    pub fn chunks(&self) -> (r: &[Chunk])
        ensures
            r@ == self@,
    {
        self.chunks.as_slice()
    }

    /// Adds a chunk at the end.
    pub fn append_chunk(&mut self, chunk: Chunk)
        ensures
            final(self)@ == old(self)@.push(chunk),
    {
        self.chunks.push(chunk);
    }

    /// The index of the first chunk whose type code is `t`.
    fn position_of(&self, t: &[u8]) -> (r: Option<usize>)
        ensures
            match r {
                Some(i) => is_first_of_type(models(self@), t@, i as int),
                None => !has_type(models(self@), t@),
            },
    {
        let ghost ms = models(self.chunks@);
        let mut i: usize = 0;
        while i < self.chunks.len()
            invariant
                i <= self.chunks@.len(),
                ms == models(self.chunks@),
                forall|j: int| 0 <= j < i ==> (#[trigger] ms[j]).kind != t@,
            decreases self.chunks@.len() - i,
        {
            assert(ms[i as int] == self.chunks@[i as int]@);
            if self.chunks[i].chunk_type().is_code(t) {
                return Some(i);
            }
            i = i + 1;
        }
        None
    }

    /// The first chunk whose type code reads `chunk_type`, if there is one.
    pub fn chunk_by_type(&self, chunk_type: &str) -> (r: Option<&Chunk>)
        ensures
            r is None <==> !has_type(models(self@), chunk_type.spec_bytes()),
            r is Some ==> exists|i: int|
                is_first_of_type(models(self@), chunk_type.spec_bytes(), i) && *r->Some_0
                    == self@[i],
    {
        match self.position_of(chunk_type.as_bytes()) {
            Some(i) => Some(&self.chunks[i]),
            None => None,
        }
    }

    /// Removes and returns the first chunk whose type code reads `chunk_type`;
    /// the others keep their order.
    pub fn remove_first_chunk(&mut self, chunk_type: &str) -> (r: Result<Chunk, PngError>)
        ensures
            r is Err <==> !has_type(models(old(self)@), chunk_type.spec_bytes()),
            match r {
                Ok(c) => exists|i: int|
                    is_first_of_type(models(old(self)@), chunk_type.spec_bytes(), i) && c == old(
                        self,
                    )@[i]
                        && final(self)@ == old(self)@.remove(i),
                Err(e) => e == PngError::NotFound && final(self)@ == old(self)@,
            },
    {
        match self.position_of(chunk_type.as_bytes()) {
            Some(i) => Ok(self.chunks.remove(i)),
            None => Err(PngError::NotFound),
        }
    }

    /// The whole file: signature, then each chunk in order.
    pub fn as_bytes(&self) -> (r: Vec<u8>)
        ensures
            r@ == png_bytes(models(self@)),
    {
        let header = Png::header();
        let mut out: Vec<u8> = Vec::new();
        let mut k: usize = 0;
        while k < 8
            invariant
                k <= 8,
                header@ == signature(),
                out@ == signature().subrange(0, k as int),
            decreases 8 - k,
        {
            out.push(header[k]);
            k = k + 1;
            assert(out@ =~= signature().subrange(0, k as int));
        }
        assert(signature().subrange(0, 8) =~= signature());
        let ghost ms = models(self.chunks@);
        let mut i: usize = 0;
        while i < self.chunks.len()
            invariant
                i <= self.chunks@.len(),
                ms == models(self.chunks@),
                out@ == signature() + chunks_bytes(ms.subrange(0, i as int)),
            decreases self.chunks@.len() - i,
        {
            let ghost before = out@;
            self.chunks[i].write_to(&mut out);
            proof {
                lemma_chunks_bytes_push(ms.subrange(0, i as int), ms[i as int]);
                assert(ms.subrange(0, i as int).push(ms[i as int]) =~= ms.subrange(0, i + 1));
            }
            i = i + 1;
            assert(out@ =~= signature() + chunks_bytes(ms.subrange(0, i as int)));
        }
        assert(ms.subrange(0, self.chunks@.len() as int) =~= ms);
        out
    }

    /// Reads a whole file: the signature, then chunks until the input is used up.
    pub fn try_from(bytes: &[u8]) -> (r: Result<Png, PngError>)
        ensures
            match r {
                Ok(p) => parse_png(bytes@) == Ok::<Seq<ChunkModel>, PngError>(models(p@)),
                Err(e) => parse_png(bytes@) == Err::<Seq<ChunkModel>, PngError>(e),
            },
    {
        let total = bytes.len();
        let header = Png::header();
        if total < 8 {
            return Err(PngError::BadSignature);
        }
        let mut k: usize = 0;
        while k < 8
            invariant
                k <= 8,
                total == bytes@.len(),
                8 <= total,
                header@ == signature(),
                forall|j: int| 0 <= j < k ==> bytes@[j] == signature()[j],
            decreases 8 - k,
        {
            if bytes[k] != header[k] {
                assert(bytes@.subrange(0, 8)[k as int] != signature()[k as int]);
                return Err(PngError::BadSignature);
            }
            k = k + 1;
        }
        assert(bytes@.subrange(0, 8) =~= signature());
        let ghost all = bytes@.subrange(8, total as int);
        let mut chunks: Vec<Chunk> = Vec::new();
        let mut pos: usize = 8;
        assert(models(chunks@) =~= Seq::<ChunkModel>::empty());
        assert(prepend(Seq::empty(), parse_chunks(all)) == parse_chunks(all)) by {
            match parse_chunks(all) {
                Ok(rest) => {
                    assert(Seq::<ChunkModel>::empty() + rest =~= rest);
                },
                Err(e) => {},
            }
        }
        while pos < total
            invariant
                8 <= pos <= total,
                total == bytes@.len(),
                bytes@.subrange(0, 8) == signature(),
                all == bytes@.subrange(8, total as int),
                parse_chunks(all) == prepend(
                    models(chunks@),
                    parse_chunks(bytes@.subrange(pos as int, total as int)),
                ),
            decreases total - pos,
        {
            let ghost rest = bytes@.subrange(pos as int, total as int);
            let c = match Chunk::read_at(bytes, pos) {
                Ok(c) => c,
                Err(e) => {
                    assert(parse_chunks(rest) == Err::<Seq<ChunkModel>, PngError>(e));
                    return Err(e);
                },
            };
            let size = c.length() as usize;
            let next = pos + 12 + size;
            proof {
                let tail = bytes@.subrange(next as int, total as int);
                assert(rest.subrange(12 + c@.data.len() as int, rest.len() as int) =~= tail);
                let ms = models(chunks@);
                assert(models(chunks@.push(c)) =~= ms.push(c@));
                match parse_chunks(tail) {
                    Ok(t) => {
                        assert(ms + (seq![c@] + t) =~= ms.push(c@) + t);
                    },
                    Err(e) => {},
                }
            }
            chunks.push(c);
            pos = next;
        }
        assert(bytes@.subrange(pos as int, total as int) =~= Seq::<u8>::empty());
        assert(models(chunks@) + Seq::<ChunkModel>::empty() =~= models(chunks@));
        Ok(Png { chunks })
    }
}

} // verus!
