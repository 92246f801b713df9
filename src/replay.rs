//! The per-agent replay buffer: the most recent output bytes of an agent, bounded by
//! a fixed cap, kept so that a viewer that attaches late sees the tail of the session.
use vstd::prelude::*;

verus! {

/// Largest number of bytes a replay buffer holds (1 MiB).
pub const PTY_BUFFER_MAX_BYTES: usize = 1048576;

/// `s` cut down to its last `PTY_BUFFER_MAX_BYTES` bytes.
pub open spec fn keep_tail(s: Seq<u8>) -> Seq<u8> {
    if s.len() > PTY_BUFFER_MAX_BYTES {
        s.subrange(s.len() - PTY_BUFFER_MAX_BYTES, s.len() as int)
    } else {
        s
    }
}

/// The last `n` bytes of `s`, or all of `s` when it is shorter.
pub open spec fn last_bytes(s: Seq<u8>, n: nat) -> Seq<u8> {
    if s.len() > n {
        s.subrange(s.len() - n, s.len() as int)
    } else {
        s
    }
}

/// The buffer's contents after each of `chunks` was appended in turn to `start`.
pub open spec fn append_all(start: Seq<u8>, chunks: Seq<Seq<u8>>) -> Seq<u8>
    decreases chunks.len(),
{
    if chunks.len() == 0 {
        start
    } else {
        keep_tail(append_all(start, chunks.drop_last()) + chunks.last())
    }
}

/// All of `chunks` joined in order.
pub open spec fn concat_all(chunks: Seq<Seq<u8>>) -> Seq<u8>
    decreases chunks.len(),
{
    if chunks.len() == 0 {
        Seq::empty()
    } else {
        concat_all(chunks.drop_last()) + chunks.last()
    }
}

/// A byte buffer that never holds more than `PTY_BUFFER_MAX_BYTES` bytes; appending
/// past the cap drops the oldest bytes.
pub struct ReplayBuffer {
    bytes: Vec<u8>,
}

impl View for ReplayBuffer {
    type V = Seq<u8>;

    closed spec fn view(&self) -> Seq<u8> {
        self.bytes@
    }
}

impl ReplayBuffer {
    #[verifier::type_invariant]
    spec fn bounded(&self) -> bool {
        self.bytes.len() <= PTY_BUFFER_MAX_BYTES
    }

    /// An empty buffer.
    pub fn new() -> (r: ReplayBuffer)
        ensures
            r@ == Seq::<u8>::empty(),
    {
        ReplayBuffer { bytes: Vec::new() }
    }

    /// A buffer seeded with `bytes`, cut to the cap.
    pub fn from_bytes(bytes: Vec<u8>) -> (r: ReplayBuffer)
        ensures
            r@ == keep_tail(bytes@),
            r@.len() <= PTY_BUFFER_MAX_BYTES,
    {
        let mut b = bytes;
        if b.len() > PTY_BUFFER_MAX_BYTES {
            let excess = b.len() - PTY_BUFFER_MAX_BYTES;
            b = b.split_off(excess);
        }
        ReplayBuffer { bytes: b }
    }

    /// Appends `chunk`; where the buffer would pass the cap, exactly the excess is
    /// dropped from the front.
    pub fn append(&mut self, chunk: &[u8])
        ensures
            final(self)@ == keep_tail(old(self)@ + chunk@),
            final(self)@.len() <= PTY_BUFFER_MAX_BYTES,
    {
        let mut b = Vec::new();
        std::mem::swap(&mut b, &mut self.bytes);
        b.extend_from_slice(chunk);
        if b.len() > PTY_BUFFER_MAX_BYTES {
            let excess = b.len() - PTY_BUFFER_MAX_BYTES;
            b = b.split_off(excess);
        }
        self.bytes = b;
    }

    /// A copy of the current contents.
    pub fn snapshot(&self) -> (r: Vec<u8>)
        ensures
            r@ == self@,
    {
        self.bytes.clone()
    }

    /// The last `n` bytes, or everything when fewer are held.
    pub fn tail(&self, n: usize) -> (r: Vec<u8>)
        ensures
            r@ == last_bytes(self@, n as nat),
    {
        let start: usize = if self.bytes.len() > n {
            self.bytes.len() - n
        } else {
            0
        };
        let mut out: Vec<u8> = Vec::new();
        let mut i: usize = start;
        while i < self.bytes.len()
            invariant
                start <= i <= self.bytes.len(),
                out@ == self.bytes@.subrange(start as int, i as int),
            decreases self.bytes.len() - i,
        {
            out.push(self.bytes[i]);
            i = i + 1;
            assert(out@ =~= self.bytes@.subrange(start as int, i as int));
        }
        assert(out@ =~= last_bytes(self@, n as nat));
        out
    }

    /// Empties the buffer.
    pub fn clear(&mut self)
        ensures
            final(self)@ == Seq::<u8>::empty(),
    {
        self.bytes = Vec::new();
    }

    /// Number of bytes held.
    pub fn len(&self) -> (r: usize)
        ensures
            r == self@.len(),
            r <= PTY_BUFFER_MAX_BYTES,
    {
        proof {
            use_type_invariant(self);
        }
        self.bytes.len()
    }
}

/// Cutting to the cap leaves any sequence within it.
pub proof fn lemma_keep_tail_bounded(s: Seq<u8>)
    ensures
        keep_tail(s).len() <= PTY_BUFFER_MAX_BYTES,
{
}

/// While everything appended fits under the cap, the buffer holds exactly what it
/// started with followed by every chunk, in order.
pub proof fn lemma_append_under_cap(start: Seq<u8>, chunks: Seq<Seq<u8>>)
    requires
        start.len() + concat_all(chunks).len() <= PTY_BUFFER_MAX_BYTES,
    ensures
        append_all(start, chunks) == start + concat_all(chunks),
    decreases chunks.len(),
{
    if chunks.len() > 0 {
        let before = chunks.drop_last();
        assert(concat_all(chunks) == concat_all(before) + chunks.last());
        lemma_append_under_cap(start, before);
        assert(start + concat_all(before) + chunks.last() =~= start + concat_all(chunks));
    }
}

/// `x` is how `s` ends.
pub open spec fn is_suffix(x: Seq<u8>, s: Seq<u8>) -> bool {
    x.len() <= s.len() && s.subrange(s.len() - x.len(), s.len() as int) == x
}

/// What a subscriber that joined after the first `m` chunks of a session has been
/// handed once the first `k` were broadcast: the replay snapshot taken when it joined,
/// then every later chunk in order.
pub open spec fn delivered(chunks: Seq<Seq<u8>>, m: int, k: int) -> Seq<u8> {
    append_all(Seq::empty(), chunks.subrange(0, m)) + concat_all(chunks.subrange(m, k))
}

proof fn lemma_suffix_extend(x: Seq<u8>, s: Seq<u8>, t: Seq<u8>)
    requires
        is_suffix(x, s),
    ensures
        is_suffix(x + t, s + t),
{
    assert((s + t).subrange((s + t).len() - (x + t).len(), (s + t).len() as int) =~= x + t);
}

proof fn lemma_keep_tail_suffix(x: Seq<u8>, s: Seq<u8>)
    requires
        is_suffix(x, s),
    ensures
        is_suffix(keep_tail(x), s),
{
    if x.len() > PTY_BUFFER_MAX_BYTES {
        let y = keep_tail(x);
        assert(s.subrange(s.len() - y.len(), s.len() as int) =~= y);
    }
}

/// The buffer of a session holds a suffix of everything appended to it.
pub proof fn lemma_buffer_is_suffix(chunks: Seq<Seq<u8>>)
    ensures
        is_suffix(append_all(Seq::empty(), chunks), concat_all(chunks)),
    decreases chunks.len(),
{
    if chunks.len() == 0 {
        assert(concat_all(chunks).subrange(0, 0) =~= Seq::<u8>::empty());
    } else {
        let before = chunks.drop_last();
        lemma_buffer_is_suffix(before);
        lemma_suffix_extend(append_all(Seq::empty(), before), concat_all(before), chunks.last());
        lemma_keep_tail_suffix(append_all(Seq::empty(), before) + chunks.last(), concat_all(chunks));
    }
}

proof fn lemma_concat_split(chunks: Seq<Seq<u8>>, m: int, k: int)
    requires
        0 <= m <= k <= chunks.len(),
    ensures
        concat_all(chunks.subrange(0, k)) == concat_all(chunks.subrange(0, m)) + concat_all(
            chunks.subrange(m, k),
        ),
    decreases k - m,
{
    if k == m {
        assert(chunks.subrange(m, k) =~= Seq::<Seq<u8>>::empty());
        assert(concat_all(chunks.subrange(0, m)) + Seq::<u8>::empty() =~= concat_all(chunks.subrange(0, m)));
    } else {
        lemma_concat_split(chunks, m, k - 1);
        assert(chunks.subrange(0, k).drop_last() =~= chunks.subrange(0, k - 1));
        assert(chunks.subrange(m, k).drop_last() =~= chunks.subrange(m, k - 1));
        assert(concat_all(chunks.subrange(0, m)) + concat_all(chunks.subrange(m, k - 1)) + chunks[k - 1]
            =~= concat_all(chunks.subrange(0, m)) + (concat_all(chunks.subrange(m, k - 1)) + chunks[k - 1]));
    }
}

/// Within one session, whatever a subscriber has been handed (its replay snapshot,
/// then the chunks that followed) is how the session's output so far ends: no byte is
/// reordered or invented, whenever the subscriber joined.
pub proof fn lemma_delivered_is_suffix(chunks: Seq<Seq<u8>>, m: int, k: int)
    requires
        0 <= m <= k <= chunks.len(),
    ensures
        is_suffix(delivered(chunks, m, k), concat_all(chunks.subrange(0, k))),
{
    lemma_buffer_is_suffix(chunks.subrange(0, m));
    lemma_suffix_extend(
        append_all(Seq::empty(), chunks.subrange(0, m)),
        concat_all(chunks.subrange(0, m)),
        concat_all(chunks.subrange(m, k)),
    );
    lemma_concat_split(chunks, m, k);
}

} // verus!
