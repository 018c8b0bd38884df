//! Writing to a sink that may refuse: the stream is handed out one piece at
//! a time, and the first refusal ends the session.
use crate::array::{ArrayModel, NpyArray};
use crate::bytes::{le_u16, push_uint, Order};
use crate::header::{padding, push_bytes};
use crate::writer::{
    concat, header_fits, header_of, header_parts, lemma_chunks_make_stream, lemma_concat_append, npy_bytes, write_chunks, NpyError,
};
use vstd::prelude::*;

verus! {

/// The bytes of each piece.
pub open spec fn chunk_views(v: Seq<Vec<u8>>) -> Seq<Seq<u8>> {
    v.map_values(|c: Vec<u8>| c@)
}

/// What a session is: its pieces, how many the sink took, and whether the
/// sink refused one.
pub struct SessionModel {
    pub chunks: Seq<Seq<u8>>,
    pub next: nat,
    pub failed: bool,
}

/// The bytes that the sink has taken.
pub open spec fn sent(s: SessionModel) -> Seq<u8> {
    concat(s.chunks.subrange(0, s.next as int))
}

/// The session has a piece for the sink.
pub open spec fn may_write(s: SessionModel) -> bool {
    !s.failed && s.next < s.chunks.len()
}

/// What the sink has taken is always the start of the whole stream, and
/// once the sink refused a piece nothing more is handed out.
pub proof fn lemma_sent_is_prefix(s: SessionModel)
    requires
        s.next <= s.chunks.len(),
    ensures
        sent(s).len() <= concat(s.chunks).len(),
        concat(s.chunks).subrange(0, sent(s).len() as int) == sent(s),
        s.failed ==> !may_write(s),
{
    let a = s.chunks.subrange(0, s.next as int);
    let b = s.chunks.subrange(s.next as int, s.chunks.len() as int);
    assert(a + b =~= s.chunks);
    lemma_concat_append(a, b);
    assert(concat(s.chunks).subrange(0, sent(s).len() as int) =~= sent(s));
}

/// A session for array `m` whose sink took the header pieces and the first
/// `j` elements has handed out exactly the stream of an array with the same
/// kind and shape and only those `j` elements; where the sink then refused a
/// piece, nothing more is handed out.
pub proof fn lemma_sent_after_elements(o: Order, m: ArrayModel, s: SessionModel, j: nat)
    requires
        s.chunks == write_chunks(o, m),
        j <= m.data.len(),
        s.next == 4 + padding(header_of(o, m).len()) + j,
    ensures
        sent(s) == npy_bytes(o, ArrayModel { data: m.data.subrange(0, j as int), ..m }),
        s.failed ==> !may_write(s),
{
    let m2 = ArrayModel { data: m.data.subrange(0, j as int), ..m };
    assert(header_of(o, m2) == header_of(o, m));
    assert(s.chunks.subrange(0, s.next as int) =~= write_chunks(o, m2));
    lemma_chunks_make_stream(o, m2);
}

/// The stream of an array, written piece by piece to a sink.
pub struct WriteSession {
    chunks: Vec<Vec<u8>>,
    next: usize,
    failed: bool,
}

impl View for WriteSession {
    type V = SessionModel;

    closed spec fn view(&self) -> SessionModel {
        SessionModel {
            chunks: chunk_views(self.chunks@),
            next: self.next as nat,
            failed: self.failed,
        }
    }
}

impl WriteSession {
    #[verifier::type_invariant]
    spec fn inv(&self) -> bool {
        self.next <= self.chunks@.len()
    }

    /// A session that writes `array` in byte order `o`; `HeaderTooLarge`
    /// before anything is handed out where the header does not fit.
    pub fn start(array: &NpyArray, o: Order) -> (r: Result<WriteSession, NpyError>)
        ensures
            r is Err <==> !header_fits(array@),
            r is Err ==> r == Err::<WriteSession, NpyError>(NpyError::HeaderTooLarge),
            r is Ok ==> ({
                let s = r.unwrap()@;
                &&& s.chunks == write_chunks(o, array@)
                &&& concat(s.chunks) == npy_bytes(o, array@)
                &&& s.next == 0
                &&& !s.failed
            }),
    {
        array.lemma_wf();
        let ghost m = array@;
        let (header, pad, total) = match header_parts(array, o) {
            Ok(p) => p,
            Err(e) => return Err(e),
        };
        let mut chunks: Vec<Vec<u8>> = Vec::new();
        let magic_bytes: [u8; 6] = [147u8, 78, 85, 77, 80, 89];
        let version_bytes: [u8; 2] = [1u8, 0];
        let mut magic_chunk: Vec<u8> = Vec::new();
        push_bytes(&mut magic_chunk, magic_bytes.as_slice());
        let mut version_chunk: Vec<u8> = Vec::new();
        push_bytes(&mut version_chunk, version_bytes.as_slice());
        assert(magic_chunk@ =~= crate::writer::magic());
        assert(version_chunk@ =~= crate::writer::version());
        chunks.push(magic_chunk);
        chunks.push(version_chunk);
        let mut len_bytes: Vec<u8> = Vec::new();
        push_bytes(&mut len_bytes, le_u16(total).as_slice());
        chunks.push(len_bytes);
        chunks.push(header);
        let ghost head = chunk_views(chunks@);
        let mut i: usize = 0;
        while i < pad
            invariant
                i <= pad,
                chunk_views(chunks@) == head + Seq::new(
                    i as nat,
                    |j: int| seq![32u8],
                ),
            decreases pad - i,
        {
            let mut sp: Vec<u8> = Vec::new();
            sp.push(32u8);
            assert(sp@ =~= seq![32u8]);
            let ghost before = chunks@;
            chunks.push(sp);
            i = i + 1;
            assert(chunks@ == before.push(sp));
            assert(chunk_views(chunks@) =~= chunk_views(before).push(seq![32u8]));
            assert(chunk_views(chunks@) =~= head + Seq::new(
                i as nat,
                |j: int| seq![32u8],
            ));
        }
        let ghost padded = chunk_views(chunks@);
        let d = array.dtype();
        let w = d.width();
        let data = array.data();
        let mut k: usize = 0;
        while k < data.len()
            invariant
                k <= data@.len(),
                data@ == m.data,
                d == m.dtype,
                w as nat == crate::dtype::dtype_width(d),
                forall|i: int| 0 <= i < m.data.len() ==> crate::dtype::fits_dtype(d, #[trigger] m.data[i]),
                chunk_views(chunks@) == padded + m.data.subrange(0, k as int).map_values(
                    |x: u64| crate::writer::element_chunk(o, d, x),
                ),
            decreases data@.len() - k,
        {
            let mut c: Vec<u8> = Vec::new();
            assert(crate::dtype::fits_dtype(d, m.data[k as int]));
            push_uint(&mut c, o, data[k], w);
            let ghost before = chunks@;
            chunks.push(c);
            k = k + 1;
            assert(chunks@ == before.push(c));
            assert(chunk_views(chunks@) =~= chunk_views(before).push(c@));
            assert(m.data.subrange(0, k as int) =~= m.data.subrange(0, k - 1).push(m.data[k - 1]));
            assert(chunk_views(chunks@) =~= padded + m.data.subrange(0, k as int).map_values(
                |x: u64| crate::writer::element_chunk(o, d, x),
            ));
        }
        assert(m.data.subrange(0, m.data.len() as int) =~= m.data);
        assert(chunk_views(chunks@) =~= write_chunks(o, m));
        proof { lemma_chunks_make_stream(o, m); }
        Ok(WriteSession { chunks, next: 0, failed: false })
    }

    /// The next piece for the sink; `None` once all were taken or one was
    /// refused.
    pub fn pending(&self) -> (r: Option<&Vec<u8>>)
        ensures
            r is Some <==> may_write(self@),
            r is Some ==> r.unwrap()@ == self@.chunks[self@.next as int],
    {
        proof { use_type_invariant(self); }
        if !self.failed && self.next < self.chunks.len() {
            Some(&self.chunks[self.next])
        } else {
            None
        }
    }

    /// The sink took the pending piece.
    pub fn on_written(&mut self)
        requires
            may_write(old(self)@),
        ensures
            final(self)@ == (SessionModel { next: old(self)@.next + 1, ..old(self)@ }),
            sent(final(self)@) == sent(old(self)@) + old(self)@.chunks[old(self)@.next as int],
    {
        proof { use_type_invariant(&*self); }
        let n = self.chunks.len();
        assert(self.next < n);
        self.next = self.next + 1;
        proof {
            let s = final(self)@;
            assert(s.chunks.subrange(0, s.next as int).drop_last() =~= s.chunks.subrange(0, s.next - 1));
        }
    }

    /// The sink refused the pending piece: nothing more is handed out.
    pub fn on_failed(&mut self)
        ensures
            final(self)@ == (SessionModel { failed: true, ..old(self)@ }),
            !may_write(final(self)@),
    {
        proof { use_type_invariant(&*self); }
        self.failed = true;
    }

    /// `None` while pieces remain; then `Ok` once the sink took them all, or
    /// `IoFailure` once it refused one.
    pub fn outcome(&self) -> (r: Option<Result<(), NpyError>>)
        ensures
            self@.failed ==> r == Some(Err::<(), NpyError>(NpyError::IoFailure)),
            !self@.failed && self@.next >= self@.chunks.len() ==> r == Some(Ok::<(), NpyError>(())),
            !self@.failed && self@.next < self@.chunks.len() ==> r is None,
    {
        if self.failed {
            Some(Err(NpyError::IoFailure))
        } else if self.next >= self.chunks.len() {
            Some(Ok(()))
        } else {
            None
        }
    }
}

} // verus!
