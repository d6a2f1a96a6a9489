//! A vectored buffer: a FIFO of byte chunks presented as one contiguous
//! byte sequence, with a cached total length for cheap `remaining` checks.
//!
//! Chunks are [`bytes::Bytes`] handles, so splitting the front chunk and
//! handing out whole chunks never copies the underlying storage.

use std::collections::VecDeque;
use vstd::prelude::*;

verus! {

#[verifier::external_type_specification]
#[verifier::external_body]
pub struct ExBytes(bytes::Bytes);

/// The byte contents of a [`bytes::Bytes`] handle.
pub uninterp spec fn bytes_view(b: bytes::Bytes) -> Seq<u8>;

/// Relies on `Bytes::len`: the number of bytes the handle holds.
#[verifier::external_body]
pub fn bytes_len(b: &bytes::Bytes) -> (r: usize)
    ensures
        r == bytes_view(*b).len(),
{
    b.len()
}

/// Relies on `Bytes::as_ref` (the `AsRef<[u8]>` impl): a slice of the whole
/// contents.
#[verifier::external_body]
pub fn bytes_as_slice(b: &bytes::Bytes) -> (r: &[u8])
    ensures
        r@ == bytes_view(*b),
{
    b.as_ref()
}

/// Relies on `Bytes::split_to`: the first `at` bytes are returned and the
/// handle keeps the rest; the storage is shared, not copied.
#[verifier::external_body]
pub fn bytes_split_to(b: &mut bytes::Bytes, at: usize) -> (r: bytes::Bytes)
    requires
        at <= bytes_view(*old(b)).len(),
    ensures
        bytes_view(r) == bytes_view(*old(b)).take(at as int),
        bytes_view(*final(b)) == bytes_view(*old(b)).skip(at as int),
{
    b.split_to(at)
}

/// Relies on `<Bytes as From<Vec<u8>>>::from`: the handle holds exactly the
/// vector's bytes.
#[verifier::external_body]
pub fn bytes_from_vec(v: Vec<u8>) -> (r: bytes::Bytes)
    ensures
        bytes_view(r) == v@,
{
    bytes::Bytes::from(v)
}

/// A FIFO of byte chunks with a cached count of the bytes remaining.
pub struct BufList {
    bufs: VecDeque<bytes::Bytes>,
    remaining: usize,
}

impl BufList {
    /// The chunks still queued, front first, as byte sequences.
    pub closed spec fn chunks(&self) -> Seq<Seq<u8>> {
        self.bufs@.map_values(|b: bytes::Bytes| bytes_view(b))
    }

    /// All queued bytes in order, front chunk first.
    pub open spec fn flat(&self) -> Seq<u8> {
        self.chunks().flatten()
    }

    /// The cached byte count matches the chunks and no chunk is empty.
    pub closed spec fn wf(&self) -> bool {
        &&& self.remaining == self.flat().len()
        &&& forall|i: int| 0 <= i < self.chunks().len() ==> #[trigger] self.chunks()[i].len() > 0
    }

    pub fn with_capacity(cap: usize) -> (r: Self)
        ensures
            r.wf(),
            r.chunks() == Seq::<Seq<u8>>::empty(),
    {
        let r = Self { bufs: VecDeque::with_capacity(cap), remaining: 0 };
        proof {
            assert(r.chunks() =~= Seq::<Seq<u8>>::empty());
            reveal_with_fuel(Seq::<_>::flatten, 1);
        }
        r
    }

    pub fn new() -> (r: Self)
        ensures
            r.wf(),
            r.chunks() == Seq::<Seq<u8>>::empty(),
    {
        Self::with_capacity(0)
    }

    /// Queue a non-empty chunk at the back.
    pub fn push(&mut self, buf: bytes::Bytes)
        requires
            old(self).wf(),
            bytes_view(buf).len() > 0,
            old(self).flat().len() + bytes_view(buf).len() <= usize::MAX,
        ensures
            final(self).wf(),
            final(self).chunks() == old(self).chunks().push(bytes_view(buf)),
            final(self).flat() == old(self).flat() + bytes_view(buf),
    {
        proof {
            broadcast use vstd::seq_lib::group_seq_properties;

            old(self).chunks().lemma_flatten_push(bytes_view(buf));
        }
        self.remaining = self.remaining + bytes_len(&buf);
        self.bufs.push_back(buf);
        proof {
            assert(self.chunks() =~= old(self).chunks().push(bytes_view(buf)));
        }
    }

    /// How many chunks are queued.
    pub fn cnt(&self) -> (r: usize)
        ensures
            r == self.chunks().len(),
    {
        self.bufs.len()
    }

    /// How many bytes are queued over all chunks.
    pub fn remaining(&self) -> (r: usize)
        requires
            self.wf(),
        ensures
            r == self.flat().len(),
    {
        self.remaining
    }

    /// The front chunk, or an empty slice when nothing is queued.
    pub fn chunk(&self) -> (r: &[u8])
        ensures
            self.chunks().len() > 0 ==> r@ == self.chunks()[0],
            self.chunks().len() == 0 ==> r@ == Seq::<u8>::empty(),
    {
        if self.bufs.len() > 0 {
            bytes_as_slice(&self.bufs[0])
        } else {
            let empty: &[u8] = &[];
            empty
        }
    }

    /// The first chunks, front first, at most `dst` of them: what a vectored
    /// write would hand to the operating system in one call.
    pub fn chunks_vectored<'a>(&'a self, dst: usize) -> (r: Vec<&'a [u8]>)
        requires
            dst > 0,
        ensures
            r@.len() == if dst < self.chunks().len() {
                dst as int
            } else {
                self.chunks().len() as int
            },
            forall|i: int| 0 <= i < r@.len() ==> #[trigger] r@[i]@ == self.chunks()[i],
    {
        let n = self.bufs.len();
        let lim = if dst < n {
            dst
        } else {
            n
        };
        let mut vecs: Vec<&[u8]> = Vec::new();
        let mut i: usize = 0;
        while i < lim
            invariant
                lim <= self.bufs@.len(),
                i <= lim,
                vecs@.len() == i,
                forall|j: int| 0 <= j < i ==> #[trigger] vecs@[j]@ == self.chunks()[j],
            decreases lim - i,
        {
            vecs.push(bytes_as_slice(&self.bufs[i]));
            i = i + 1;
        }
        vecs
    }

    /// Drop the first `cnt` queued bytes: whole chunks are popped and a
    /// partly consumed front chunk is split in place.
    #[verifier::loop_isolation(false)]
    pub fn advance(&mut self, cnt: usize)
        requires
            old(self).wf(),
            cnt <= old(self).flat().len(),
        ensures
            final(self).wf(),
            final(self).flat() == old(self).flat().skip(cnt as int),
    {
        self.remaining = self.remaining - cnt;
        let ghost target = old(self).flat().skip(cnt as int);
        let ghost total = old(self).flat().len() - cnt;
        let mut cnt = cnt;
        while cnt > 0
            invariant
                cnt <= self.flat().len(),
                self.flat().skip(cnt as int) == target,
                self.remaining == total,
                total == self.flat().len() - cnt,
                forall|i: int|
                    0 <= i < self.chunks().len() ==> #[trigger] self.chunks()[i].len() > 0,
            decreases cnt,
        {
            proof {
                lemma_flatten_nonempty(self.chunks());
            }
            let ghost pre = *self;
            let front_opt = self.bufs.pop_front();
            let mut front = front_opt.unwrap();
            let rem = bytes_len(&front);
            proof {
                assert(pre.chunks()[0] == bytes_view(front));
                assert(self.chunks() =~= pre.chunks().drop_first());
            }
            if rem > cnt {
                let dropped = bytes_split_to(&mut front, cnt);
                self.bufs.push_front(front);
                proof {
                    assert(self.chunks() =~= pre.chunks().drop_first().insert(
                        0,
                        bytes_view(front),
                    ));
                    lemma_flatten_first(self.chunks());
                    assert(self.chunks().drop_first() =~= pre.chunks().drop_first());
                    assert(self.flat() =~= pre.flat().skip(cnt as int));
                }
                return ;
            } else {
                proof {
                    assert(self.flat() =~= pre.flat().skip(rem as int));
                    vstd::seq_lib::lemma_seq_skip_of_skip(
                        pre.flat(),
                        rem as int,
                        (cnt - rem) as int,
                    );
                }
                cnt = cnt - rem;
            }
        }
    }

    /// Take the first `len` queued bytes as one chunk. When the front chunk
    /// holds at least `len` bytes the result shares its storage; otherwise
    /// the bytes are gathered into a fresh allocation.
    #[verifier::loop_isolation(false)]
    pub fn copy_to_bytes(&mut self, len: usize) -> (r: bytes::Bytes)
        requires
            old(self).wf(),
            len <= old(self).flat().len(),
        ensures
            final(self).wf(),
            bytes_view(r) == old(self).flat().take(len as int),
            final(self).flat() == old(self).flat().skip(len as int),
    {
        if self.bufs.len() > 0 {
            proof {
                lemma_flatten_first(self.chunks());
            }
            let flen = bytes_len(&self.bufs[0]);
            if flen == len {
                let front_opt = self.bufs.pop_front();
                let front = front_opt.unwrap();
                self.remaining = self.remaining - len;
                proof {
                    assert(self.chunks() =~= old(self).chunks().drop_first());
                    assert(bytes_view(front) =~= old(self).flat().take(len as int));
                    assert(self.flat() =~= old(self).flat().skip(len as int));
                }
                return front;
            } else if flen > len {
                let front_opt = self.bufs.pop_front();
                let mut front = front_opt.unwrap();
                let taken = bytes_split_to(&mut front, len);
                self.bufs.push_front(front);
                self.remaining = self.remaining - len;
                proof {
                    assert(self.chunks() =~= old(self).chunks().drop_first().insert(
                        0,
                        bytes_view(front),
                    ));
                    lemma_flatten_first(self.chunks());
                    assert(self.chunks().drop_first() =~= old(self).chunks().drop_first());
                    assert(bytes_view(taken) =~= old(self).flat().take(len as int));
                    assert(self.flat() =~= old(self).flat().skip(len as int));
                }
                return taken;
            }
        }
        let ghost orig = self.flat();
        let mut out: Vec<u8> = Vec::with_capacity(len);
        while out.len() < len
            invariant
                self.wf(),
                out@.len() <= len <= out@.len() + self.flat().len(),
                out@ == orig.take(out@.len() as int),
                self.flat() == orig.skip(out@.len() as int),
            decreases len - out.len(),
        {
            proof {
                lemma_flatten_nonempty(self.chunks());
            }
            let ghost pre = *self;
            let ghost done = out@.len() as int;
            let front_opt = self.bufs.pop_front();
            let mut front = front_opt.unwrap();
            let flen = bytes_len(&front);
            let need = len - out.len();
            proof {
                assert(pre.chunks()[0] == bytes_view(front));
                assert(self.chunks() =~= pre.chunks().drop_first());
            }
            if flen <= need {
                let s = bytes_as_slice(&front);
                extend_from_slice(&mut out, s);
                self.remaining = self.remaining - flen;
                proof {
                    assert(self.flat() =~= pre.flat().skip(flen as int));
                    assert(bytes_view(front) =~= orig.skip(done).take(flen as int));
                    assert(orig.take(done) + orig.skip(done).take(flen as int) =~= orig.take(
                        done + flen,
                    ));
                    assert(out@ =~= orig.take(out@.len() as int));
                    assert(self.flat() =~= orig.skip(out@.len() as int));
                }
            } else {
                let part = bytes_split_to(&mut front, need);
                let s = bytes_as_slice(&part);
                extend_from_slice(&mut out, s);
                self.bufs.push_front(front);
                self.remaining = self.remaining - need;
                proof {
                    assert(self.chunks() =~= pre.chunks().drop_first().insert(
                        0,
                        bytes_view(front),
                    ));
                    lemma_flatten_first(self.chunks());
                    assert(self.chunks().drop_first() =~= pre.chunks().drop_first());
                    assert(self.flat() =~= pre.flat().skip(need as int));
                    assert(bytes_view(part) =~= orig.skip(done).take(need as int));
                    assert(orig.take(done) + orig.skip(done).take(need as int) =~= orig.take(
                        done + need,
                    ));
                    assert(out@ =~= orig.take(out@.len() as int));
                    assert(self.flat() =~= orig.skip(out@.len() as int));
                }
            }
        }
        proof {
            assert(out@ =~= orig.take(len as int));
            assert(self.flat() =~= orig.skip(len as int));
        }
        bytes_from_vec(out)
    }
}

/// Append every byte of `s` to `out`.
#[verifier::loop_isolation(false)]
pub(crate) fn extend_from_slice(out: &mut Vec<u8>, s: &[u8])
    ensures
        final(out)@ == old(out)@ + s@,
{
    let mut i: usize = 0;
    while i < s.len()
        invariant
            i <= s@.len(),
            out@ == old(out)@ + s@.take(i as int),
        decreases s@.len() - i,
    {
        let b = s[i];
        out.push(b);
        proof {
            assert(out@ =~= old(out)@ + s@.take(i as int + 1));
        }
        i = i + 1;
    }
    proof {
        assert(out@ =~= old(out)@ + s@);
    }
}

/// A non-empty sequence of sequences flattens to its first element followed
/// by the flattening of the rest.
proof fn lemma_flatten_first(s: Seq<Seq<u8>>)
    requires
        s.len() > 0,
    ensures
        s.flatten() == s[0] + s.drop_first().flatten(),
{
    reveal_with_fuel(Seq::<_>::flatten, 2);
}

/// A sequence of sequences whose flattening is non-empty is itself
/// non-empty, and flattens to its first element followed by the rest.
proof fn lemma_flatten_nonempty(s: Seq<Seq<u8>>)
    requires
        s.flatten().len() > 0,
    ensures
        s.len() > 0,
        s.flatten() == s[0] + s.drop_first().flatten(),
{
    reveal_with_fuel(Seq::<_>::flatten, 2);
}

} // verus!
