use vstd::prelude::*;

verus! {

/// The size of a chunk when the caller names none: one mebibyte.
pub const DEFAULT_CHUNK_SIZE: usize = 1048576;

/// Number of chunks that `len` bytes make at chunk size `c`: `ceil(len / c)`.
pub open spec fn chunk_count(len: nat, c: nat) -> nat
    recommends
        c > 0,
{
    ((len + c - 1) as nat / c) as nat
}

/// End (exclusive) of the `i`-th chunk of `len` bytes at chunk size `c`.
pub open spec fn chunk_end(i: int, len: int, c: int) -> int {
    if (i + 1) * c <= len {
        (i + 1) * c
    } else {
        len
    }
}

/// The chunks of `data` at size `c`: chunk `i` holds the bytes `[i*c, min((i+1)*c, len))`.
pub open spec fn chunks_of(data: Seq<u8>, c: nat) -> Seq<Seq<u8>> {
    Seq::new(
        chunk_count(data.len(), c),
        |i: int| data.subrange(i * c, chunk_end(i, data.len() as int, c as int)),
    )
}

/// Concatenation of byte buffers, in order.
pub open spec fn flatten(chunks: Seq<Seq<u8>>) -> Seq<u8>
    decreases chunks.len(),
{
    if chunks.len() == 0 {
        Seq::empty()
    } else {
        flatten(chunks.drop_last()) + chunks.last()
    }
}

/// The byte contents of a list of buffers.
pub open spec fn buffers_view(v: Seq<Vec<u8>>) -> Seq<Seq<u8>> {
    Seq::new(v.len(), |i: int| v[i]@)
}

/// Every buffer but the last holds exactly `c` bytes; the last holds between 1 and `c`.
pub open spec fn well_chunked(chunks: Seq<Seq<u8>>, c: nat) -> bool {
    &&& forall|i: int| 0 <= i < chunks.len() - 1 ==> (#[trigger] chunks[i]).len() == c
    &&& chunks.len() > 0 ==> 1 <= chunks.last().len() <= c
}

proof fn lemma_count_bounds(n: int, b: int, c: int)
    requires
        c > 0,
        n >= 0,
        0 <= b < c,
    ensures
        chunk_count((n * c + b) as nat, c as nat) == if b > 0 { n + 1 } else { n },
{
    let len = n * c + b;
    assert(n * c >= 0) by (nonlinear_arith)
        requires
            n >= 0,
            c > 0,
    ;
    if b > 0 {
        assert((n * c + b + c - 1) / c == n + 1) by (nonlinear_arith)
            requires
                c > 0,
                0 < b < c,
                n >= 0,
        ;
    } else {
        assert((n * c + c - 1) / c == n) by (nonlinear_arith)
            requires
                c > 0,
                n >= 0,
        ;
    }
}

proof fn lemma_mul_step(i: int, n: int, c: int)
    requires
        0 <= i < n,
        c > 0,
    ensures
        (i + 1) * c <= n * c,
        i * c + c == (i + 1) * c,
        0 <= i * c,
{
    assert((i + 1) * c <= n * c) by (nonlinear_arith)
        requires
            i + 1 <= n,
            c > 0,
    ;
    assert(i * c + c == (i + 1) * c) by (nonlinear_arith);
    assert(0 <= i * c) by (nonlinear_arith)
        requires
            i >= 0,
            c > 0,
    ;
}

/// The first `k` chunks flatten to the first `min(k*c, len)` bytes.
proof fn lemma_prefix_flattens(data: Seq<u8>, c: nat, n: int, b: int, k: int)
    requires
        c > 0,
        data.len() == n * c + b,
        0 <= b < c,
        n >= 0,
        chunks_of(data, c).len() == if b > 0 { n + 1 } else { n },
        0 <= k <= chunks_of(data, c).len(),
    ensures
        flatten(chunks_of(data, c).take(k)) == data.take(chunk_end(k - 1, data.len() as int, c as int)),
        k == 0 ==> chunk_end(k - 1, data.len() as int, c as int) == 0,
    decreases k,
{
    let cs = chunks_of(data, c);
    let len = data.len() as int;
    let ci = c as int;
    if k == 0 {
        assert(cs.take(0) =~= Seq::<Seq<u8>>::empty());
        assert(data.take(0) =~= Seq::<u8>::empty());
    } else {
        let j = k - 1;
        lemma_prefix_flattens(data, c, n, b, j);
        assert(cs.take(k).drop_last() == cs.take(j));
        if j < n {
            lemma_mul_step(j, n, ci);
        } else {
            assert(j * ci == n * ci);
            assert((j + 1) * ci == n * ci + ci) by (nonlinear_arith)
                requires
                    j == n,
            ;
        }
        if j > 0 {
            lemma_mul_step(j - 1, n, ci);
        }
        assert(cs[j] == data.subrange(j * ci, chunk_end(j, len, ci)));
        assert(chunk_end(j - 1, len, ci) == j * ci);
        assert(data.take(chunk_end(j - 1, len, ci)) + cs[j] =~= data.take(chunk_end(j, len, ci)));
    }
}

/// Chunking then concatenating gives the input back; the chunks are well formed and there are
/// `ceil(len / c)` of them (none for empty input).
pub proof fn lemma_chunks_of_sound(data: Seq<u8>, c: nat)
    requires
        c > 0,
    ensures
        flatten(chunks_of(data, c)) == data,
        well_chunked(chunks_of(data, c), c),
        chunks_of(data, c).len() == chunk_count(data.len(), c),
        data.len() == 0 <==> chunks_of(data, c).len() == 0,
{
    let cs = chunks_of(data, c);
    let len = data.len() as int;
    let ci = c as int;
    let n = len / ci;
    let b = len % ci;
    assert(len == n * ci + b) by (nonlinear_arith)
        requires
            ci > 0,
            n == len / ci,
            b == len % ci,
    ;
    assert(n >= 0) by (nonlinear_arith)
        requires
            ci > 0,
            len >= 0,
            n == len / ci,
    ;
    lemma_count_bounds(n, b, ci);
    lemma_prefix_flattens(data, c, n, b, cs.len() as int);
    assert(cs.take(cs.len() as int) == cs);
    if cs.len() > 0 {
        let m = cs.len() - 1;
        if b > 0 {
            assert(chunk_end(m, len, ci) == len) by (nonlinear_arith)
                requires
                    m == n,
                    len == n * ci + b,
                    0 < b < ci,
            ;
        } else {
            lemma_mul_step(m, n, ci);
        }
    } else {
        assert(b == 0 && n == 0);
        assert(len == 0);
    }
    assert(data.take(len) == data);
    assert forall|i: int| 0 <= i < cs.len() - 1 implies (#[trigger] cs[i]).len() == c by {
        lemma_mul_step(i, n, ci);
    }
    if cs.len() > 0 {
        let m = cs.len() - 1;
        if b > 0 {
            assert(m * ci == n * ci);
        } else {
            lemma_mul_step(m, n, ci);
        }
    }
}

/// Splits a byte stream into chunks of `chunk_size` bytes as the pieces of the stream arrive.
/// Bytes accumulate in a buffer; each time it reaches `chunk_size` it becomes a chunk.
pub struct Chunker {
    chunk_size: usize,
    chunks: Vec<Vec<u8>>,
    buffer: Vec<u8>,
    total: usize,
    consumed: Ghost<Seq<u8>>,
}

impl Chunker {
    /// All bytes fed so far, in order.
    pub closed spec fn consumed(&self) -> Seq<u8> {
        self.consumed@
    }

    /// The chunk size this chunker was made with.
    pub closed spec fn size(&self) -> nat {
        self.chunk_size as nat
    }

    pub closed spec fn wf(&self) -> bool {
        let c = self.chunk_size as int;
        let n = self.chunks@.len() as int;
        let data = self.consumed@;
        &&& c > 0
        &&& self.total == data.len()
        &&& data.len() == n * c + self.buffer@.len()
        &&& self.buffer@.len() < c
        &&& self.buffer@ == data.subrange(n * c, data.len() as int)
        &&& forall|i: int|
            0 <= i < n ==> (#[trigger] self.chunks@[i])@ == data.subrange(i * c, (i + 1) * c)
    }

    /// A chunker that has seen no bytes yet.
    pub fn new(chunk_size: usize) -> (r: Chunker)
        requires
            chunk_size > 0,
        ensures
            r.wf(),
            r.size() == chunk_size,
            r.consumed() == Seq::<u8>::empty(),
    {
        let r = Chunker {
            chunk_size,
            chunks: Vec::new(),
            buffer: Vec::new(),
            total: 0,
            consumed: Ghost(Seq::empty()),
        };
        assert(r.buffer@ =~= r.consumed@.subrange(0, 0));
        r
    }

    /// Number of bytes fed so far.
    pub fn len(&self) -> (r: usize)
        requires
            self.wf(),
        ensures
            r == self.consumed().len(),
    {
        self.total
    }

    /// Takes the next piece of the stream.
    pub fn feed(&mut self, piece: &[u8])
        requires
            old(self).wf(),
            old(self).consumed().len() + piece@.len() <= usize::MAX,
        ensures
            final(self).wf(),
            final(self).size() == old(self).size(),
            final(self).consumed() == old(self).consumed() + piece@,
    {
        let ghost start = self.consumed@;
        let mut j: usize = 0;
        while j < piece.len()
            invariant
                self.wf(),
                self.chunk_size == old(self).chunk_size,
                j <= piece@.len(),
                start == old(self).consumed(),
                self.consumed@ == start + piece@.take(j as int),
                start.len() + piece@.len() <= usize::MAX,
            decreases piece@.len() - j,
        {
            let ghost c = self.chunk_size as int;
            let ghost n = self.chunks@.len() as int;
            let ghost before = self.consumed@;
            self.buffer.push(piece[j]);
            self.total = self.total + 1;
            self.consumed = Ghost(before.push(piece@[j as int]));
            assert(piece@.take(j as int + 1) == piece@.take(j as int).push(piece@[j as int]));
            let ghost data = self.consumed@;
            assert(self.buffer@ =~= data.subrange(n * c, data.len() as int));
            assert forall|i: int| 0 <= i < n implies (#[trigger] self.chunks@[i])@
                == data.subrange(i * c, (i + 1) * c) by {
                lemma_mul_step(i, n, c);
                assert(before.subrange(i * c, (i + 1) * c) =~= data.subrange(i * c, (i + 1) * c));
            }
            if self.buffer.len() == self.chunk_size {
                let mut full: Vec<u8> = Vec::new();
                std::mem::swap(&mut full, &mut self.buffer);
                self.chunks.push(full);
                assert(n * c + c == (n + 1) * c) by (nonlinear_arith);
                assert(self.buffer@ =~= data.subrange((n + 1) * c, data.len() as int));
            }
            j = j + 1;
        }
        assert(piece@.take(piece@.len() as int) == piece@);
    }

    /// Ends the stream: the full chunks, then the remaining bytes as a last, shorter chunk when
    /// there are any.
    pub fn finish(self) -> (r: Vec<Vec<u8>>)
        requires
            self.wf(),
        ensures
            buffers_view(r@) == chunks_of(self.consumed(), self.size()),
    {
        let ghost c = self.chunk_size as int;
        let ghost n = self.chunks@.len() as int;
        let ghost data = self.consumed@;
        let ghost b = self.buffer@.len() as int;
        let mut chunks = self.chunks;
        if self.buffer.len() > 0 {
            chunks.push(self.buffer);
        }
        proof {
            lemma_count_bounds(n, b, c);
            let want = chunks_of(data, c as nat);
            assert forall|i: int| 0 <= i < chunks@.len() implies #[trigger] buffers_view(
                chunks@,
            )[i] == want[i] by {
                if i < n {
                    lemma_mul_step(i, n, c);
                } else {
                    assert(i * c == n * c);
                    assert((i + 1) * c == n * c + c) by (nonlinear_arith)
                        requires
                            i == n,
                    ;
                }
            }
            assert(buffers_view(chunks@) =~= want);
        }
        chunks
    }
}

/// Splits `data` into chunks of `chunk_size` bytes, the last one holding the remainder.
pub fn chunk_bytes(data: &[u8], chunk_size: usize) -> (r: Vec<Vec<u8>>)
    requires
        chunk_size > 0,
    ensures
        buffers_view(r@) == chunks_of(data@, chunk_size as nat),
{
    let _len: usize = data.len();
    let mut chunker = Chunker::new(chunk_size);
    chunker.feed(data);
    chunker.finish()
}

} // verus!
