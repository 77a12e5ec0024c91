//! Splits a stream of byte buffers into lines.
use std::collections::VecDeque;
use vstd::prelude::*;

verus! {

/// The bytes of all chunks, one after the other.
pub open spec fn flat(chunks: Seq<Seq<u8>>) -> Seq<u8>
    decreases chunks.len(),
{
    if chunks.len() == 0 {
        Seq::empty()
    } else {
        chunks[0] + flat(chunks.drop_first())
    }
}

/// The chunks that are left once the first `n` bytes have been read. A chunk goes away when its
/// last byte is read; an empty chunk goes away when a byte behind it is read.
pub open spec fn advance(chunks: Seq<Seq<u8>>, n: int) -> Seq<Seq<u8>>
    decreases chunks.len(),
{
    if n <= 0 || chunks.len() == 0 {
        chunks
    } else if n >= chunks[0].len() {
        advance(chunks.drop_first(), n - chunks[0].len())
    } else {
        chunks.update(0, chunks[0].skip(n))
    }
}

/// Whether `bytes` holds a newline.
pub open spec fn has_newline(bytes: Seq<u8>) -> bool {
    bytes.contains(10u8)
}

/// The number of bytes up to and with the first newline of `bytes`.
pub open spec fn line_len(bytes: Seq<u8>) -> int
    decreases bytes.len(),
{
    if bytes.len() == 0 {
        0
    } else if bytes[0] == 10u8 {
        1
    } else {
        1 + line_len(bytes.drop_first())
    }
}

/// The index of the first chunk that holds a newline, or the number of chunks.
pub open spec fn newline_chunk(chunks: Seq<Seq<u8>>) -> int
    decreases chunks.len(),
{
    if chunks.len() == 0 {
        0
    } else if has_newline(chunks[0]) {
        0
    } else {
        1 + newline_chunk(chunks.drop_first())
    }
}

/// A line that runs over several chunks has a byte in each of them.
pub open spec fn line_is_joinable(chunks: Seq<Seq<u8>>) -> bool {
    let last = newline_chunk(chunks);
    0 < last < chunks.len() ==> forall|i: int| 0 <= i <= last ==> (#[trigger] chunks[i]).len() > 0
}


/// Flattening a concatenation concatenates the flattened parts.
proof fn lemma_flat_add(a: Seq<Seq<u8>>, b: Seq<Seq<u8>>)
    ensures
        flat(a + b) == flat(a) + flat(b),
    decreases a.len(),
{
    if a.len() == 0 {
        assert(a + b =~= b);
        assert(flat(a) + flat(b) =~= flat(b));
    } else {
        assert((a + b).drop_first() =~= a.drop_first() + b);
        lemma_flat_add(a.drop_first(), b);
        assert(flat(a + b) =~= flat(a) + flat(b));
    }
}

/// Byte `j` of chunk `i` stands behind the bytes of the chunks before it.
proof fn lemma_flat_at(c: Seq<Seq<u8>>, i: int)
    requires
        0 <= i < c.len(),
    ensures
        flat(c.take(i + 1)) == flat(c.take(i)) + c[i],
        flat(c) == flat(c.take(i)) + c[i] + flat(c.skip(i + 1)),
{
    assert(c.take(i + 1) =~= c.take(i) + seq![c[i]]);
    lemma_flat_add(c.take(i), seq![c[i]]);
    assert(seq![c[i]].drop_first() =~= Seq::<Seq<u8>>::empty());
    assert(flat(seq![c[i]]) =~= c[i]) by {
        reveal_with_fuel(flat, 2);
    }
    assert(c =~= c.take(i + 1) + c.skip(i + 1));
    lemma_flat_add(c.take(i + 1), c.skip(i + 1));
}

/// Reading `n` bytes leaves the bytes behind them.
pub proof fn lemma_advance_flat(c: Seq<Seq<u8>>, n: int)
    requires
        0 <= n <= flat(c).len(),
    ensures
        flat(advance(c, n)) == flat(c).skip(n),
    decreases c.len(),
{
    if n == 0 || c.len() == 0 {
        assert(flat(c).skip(n) =~= flat(c));
    } else if n >= c[0].len() {
        lemma_advance_flat(c.drop_first(), n - c[0].len());
        assert(flat(c).skip(n) =~= flat(c.drop_first()).skip(n - c[0].len()));
    } else {
        let d = c.update(0, c[0].skip(n));
        assert(d.drop_first() =~= c.drop_first());
        assert(flat(d) =~= flat(c).skip(n));
    }
}

/// Reading `a` bytes and then `b` bytes is reading `a + b` bytes.
pub proof fn lemma_advance_add(c: Seq<Seq<u8>>, a: int, b: int)
    requires
        0 <= a,
        0 <= b,
    ensures
        advance(advance(c, a), b) == advance(c, a + b),
    decreases c.len(),
{
    if a == 0 || b == 0 || c.len() == 0 {
    } else if a >= c[0].len() {
        lemma_advance_add(c.drop_first(), a - c[0].len(), b);
    } else {
        let d = c.update(0, c[0].skip(a));
        assert(d.drop_first() =~= c.drop_first());
        if a + b < c[0].len() {
            assert(c[0].skip(a).skip(b) =~= c[0].skip(a + b));
            assert(d.update(0, d[0].skip(b)) =~= c.update(0, c[0].skip(a + b)));
        }
    }
}

/// Appending a chunk behind bytes that were read in full or in part leaves it unread.
proof fn lemma_advance_push(c: Seq<Seq<u8>>, n: int, b: Seq<u8>)
    requires
        0 <= n <= flat(c).len(),
    ensures
        advance(c.push(b), n) == advance(c, n).push(b),
    decreases c.len(),
{
    if n == 0 {
    } else if n >= c[0].len() {
        assert(c.push(b).drop_first() =~= c.drop_first().push(b));
        lemma_advance_push(c.drop_first(), n - c[0].len(), b);
    } else {
        assert(c.push(b).update(0, c[0].skip(n)) =~= c.update(0, c[0].skip(n)).push(b));
    }
}

/// The line ends right behind the first newline.
pub proof fn lemma_line_len(s: Seq<u8>, k: int)
    requires
        0 <= k < s.len(),
        s[k] == 10u8,
        forall|i: int| 0 <= i < k ==> s[i] != 10u8,
    ensures
        has_newline(s),
        line_len(s) == k + 1,
    decreases k,
{
    if k > 0 {
        let t = s.drop_first();
        assert forall|i: int| 0 <= i < k - 1 implies t[i] != 10u8 by {
            assert(t[i] == s[i + 1]);
        }
        lemma_line_len(t, k - 1);
    }
}

proof fn lemma_newline_chunk(c: Seq<Seq<u8>>, k: int)
    requires
        0 <= k <= c.len(),
        forall|i: int| 0 <= i < k ==> !has_newline(#[trigger] c[i]),
        k < c.len() ==> has_newline(c[k]),
    ensures
        newline_chunk(c) == k,
    decreases c.len(),
{
    if c.len() > 0 && k > 0 {
        let d = c.drop_first();
        assert forall|i: int| 0 <= i < k - 1 implies !has_newline(#[trigger] d[i]) by {
            assert(d[i] == c[i + 1]);
        }
        if k < c.len() {
            assert(d[k - 1] == c[k]);
        }
        lemma_newline_chunk(d, k - 1);
    }
}

/// The first chunks hold the first bytes.
proof fn lemma_take_flat(c: Seq<Seq<u8>>, i: int, j: int)
    requires
        0 <= i <= j <= c.len(),
    ensures
        flat(c.take(i)).len() <= flat(c.take(j)).len(),
        forall|p: int|
            0 <= p < flat(c.take(i)).len() ==> #[trigger] flat(c.take(j))[p] == flat(c.take(i))[p],
{
    assert(c.take(j) =~= c.take(i) + c.subrange(i, j));
    lemma_flat_add(c.take(i), c.subrange(i, j));
}

/// What is left of the chunks where the first of them holds the read position.
proof fn lemma_advance_head(c: Seq<Seq<u8>>, n: int)
    requires
        c.len() > 0,
        n == 0 || 0 < n < c[0].len(),
    ensures
        advance(c, n) == c.update(0, c[0].skip(n)),
{
    if n == 0 {
        assert(c[0].skip(0) =~= c[0]);
        assert(c.update(0, c[0].skip(0)) =~= c);
    }
}

/// A chunk none of whose unread bytes is a newline has no newline left.
proof fn lemma_chunk_clear(c: Seq<Seq<u8>>, i: int, n: int)
    requires
        0 <= i < c.len(),
        n == 0 || 0 < n < c[0].len(),
        forall|p: int|
            n <= p < flat(c.take(i)).len() + c[i].len() ==> #[trigger] flat(c)[p] != 10u8,
    ensures
        !has_newline(advance(c, n)[i]),
{
    lemma_advance_head(c, n);
    lemma_flat_at(c, i);
    lemma_flat_at(c, 0);
    assert(c.take(0) =~= Seq::<Seq<u8>>::empty());
    let left = advance(c, n)[i];
    if i > 0 {
        lemma_take_flat(c, 1, i);
        assert(c.take(1) =~= c.take(0) + seq![c[0]]);
    }
    if has_newline(left) {
        let j = choose|j: int| 0 <= j < left.len() && left[j] == 10u8;
        let p = flat(c.take(i)).len() + j + if i == 0 { n } else { 0 };
        assert(flat(c)[p] == left[j]);
    }
}

/// Skipping bytes of the first chunk shortens every run of first chunks by as much.
proof fn lemma_flat_update(c: Seq<Seq<u8>>, n: int, k: int)
    requires
        0 < k <= c.len(),
        0 <= n <= c[0].len(),
    ensures
        flat(c.update(0, c[0].skip(n)).take(k)).len() == flat(c.take(k)).len() - n,
{
    let d = c.update(0, c[0].skip(n));
    assert(d.take(k).drop_first() =~= c.take(k).drop_first());
    assert(d.take(k)[0] == c[0].skip(n));
    assert(c.take(k)[0] == c[0]);
}

/// Reads lines out of a queue of byte buffers.
#[derive(Debug)]
pub struct LineReader {
    queue: VecDeque<Vec<u8>>,
    // Read position into the queue in bytes
    read_pos: usize,
    // Offset into the queue where we have to look for a newline.
    // All previous items don't contain an unread newline
    search_pos: usize,
    buf: Vec<u8>,
}

impl LineReader {
    spec fn buffers(&self) -> Seq<Seq<u8>> {
        self.queue@.map_values(|v: Vec<u8>| v@)
    }

    /// The unread bytes, in the chunks in which they were pushed.
    pub closed spec fn chunks(&self) -> Seq<Seq<u8>> {
        advance(self.buffers(), self.read_pos as int)
    }

    spec fn searched(&self) -> Seq<u8> {
        flat(self.buffers().take(self.search_pos as int))
    }

    /// The reader's invariant.
    pub closed spec fn wf(&self) -> bool {
        &&& self.read_pos <= flat(self.buffers()).len() <= usize::MAX
        &&& self.search_pos <= self.queue@.len()
        &&& forall|p: int|
            self.read_pos <= p < self.searched().len() ==> #[trigger] self.searched()[p] != 10u8
    }

    /// The first buffer holds the read position.
    spec fn trimmed(&self) -> bool {
        self.read_pos == 0 || (self.queue@.len() > 0 && self.read_pos < self.queue@[0]@.len())
    }

    /// How many bytes the reader holds, with those of the line that was returned last.
    pub closed spec fn held(&self) -> nat {
        flat(self.buffers()).len()
    }

    /// An empty reader.
    pub fn new() -> (r: LineReader)
        ensures
            r.wf(),
            r.chunks() == Seq::<Seq<u8>>::empty(),
            r.held() == 0,
    {
        let r = LineReader { queue: VecDeque::new(), read_pos: 0, search_pos: 0, buf: Vec::new() };
        assert(r.buffers() =~= Seq::<Seq<u8>>::empty());
        assert(r.buffers().take(0) =~= Seq::<Seq<u8>>::empty());
        r
    }

    /// Appends a buffer to the unread bytes.
    pub fn push(&mut self, b: Vec<u8>)
        requires
            old(self).wf(),
            old(self).held() + b@.len() <= usize::MAX,
        ensures
            final(self).wf(),
            final(self).chunks() == old(self).chunks().push(b@),
            final(self).held() == old(self).held() + b@.len(),
    {
        let ghost bytes = b@;
        self.queue.push_back(b);
        proof {
            let was = old(self).buffers();
            assert(self.buffers() =~= was.push(bytes));
            lemma_advance_push(was, self.read_pos as int, bytes);
            lemma_flat_at(was.push(bytes), was.len() as int);
            assert(was.push(bytes).take(was.len() as int) =~= was);
            assert(was.push(bytes).skip(was.len() as int + 1) =~= Seq::<Seq<u8>>::empty());
            assert(was.push(bytes).take(self.search_pos as int) =~= was.take(
                self.search_pos as int,
            ));
            assert(self.searched() == old(self).searched());
            assert(flat(self.buffers()).len() == flat(was).len() + bytes.len());
        }
    }

    /// Drops everything from the internal queue that was previously returned, i.e.
    /// if previously a line was returned we drop this whole line so that we can
    /// proceed with the next line
    fn drop_previous_line(&mut self)
        requires
            old(self).wf(),
        ensures
            final(self).wf(),
            final(self).chunks() == old(self).chunks(),
            final(self).held() <= old(self).held(),
            final(self).trimmed(),
            final(self).buf@.len() == 0,
    {
        // Drop everything we read the last time now
        while self.read_pos > 0 && self.read_pos >= self.queue[0].len()
            invariant
                self.wf(),
                self.chunks() == old(self).chunks(),
                self.held() <= old(self).held(),
            decreases self.queue@.len(),
        {
            proof {
                lemma_flat_at(self.buffers(), 0);
                assert(self.queue@.len() > 0);
            }
            let ghost was = self.buffers();
            let ghost was_searched = self.searched();
            let ghost was_search_pos = self.search_pos;
            self.read_pos -= self.queue[0].len();
            let _ = self.queue.pop_front();
            if self.search_pos > 0 {
                self.search_pos -= 1;
            }
            proof {
                assert(self.buffers() =~= was.drop_first());
                if was_search_pos > 0 {
                    assert(was.take(was_search_pos as int).drop_first() =~= was.drop_first().take(
                        was_search_pos - 1,
                    ));
                    assert(was_searched =~= was[0] + self.searched());
                    assert forall|p: int|
                        self.read_pos <= p
                            < self.searched().len() implies #[trigger] self.searched()[p]
                        != 10u8 by {
                        assert(was_searched[p + was[0].len()] == self.searched()[p]);
                    }
                } else {
                    assert(self.buffers().take(0) =~= Seq::<Seq<u8>>::empty());
                }
            }
        }

        let ghost kept = *self;
        self.buf.clear();
        assert(self.buffers() == kept.buffers() && self.searched() == kept.searched());
    }

    /// Searches the first newline in the currently queued buffers and returns the index in buffers
    /// inside the queue and the index in bytes from the beginning of the queue, or None.
    ///
    /// Also updates the search_pos so that we don't look again in the previous buffers on the next
    /// call
    fn find_newline(&mut self) -> (r: Option<(usize, usize)>)
        requires
            old(self).wf(),
            old(self).trimmed(),
        ensures
            final(self).wf(),
            final(self).queue == old(self).queue,
            final(self).read_pos == old(self).read_pos,
            final(self).buf == old(self).buf,
            r is Some <==> has_newline(flat(old(self).chunks())),
            r matches Some((idx, pos)) ==> {
                &&& idx == newline_chunk(old(self).chunks()) < old(self).queue@.len()
                &&& pos == old(self).read_pos + line_len(flat(old(self).chunks()))
                &&& final(self).search_pos == idx
                &&& flat(old(self).buffers().take(idx as int)).len() < pos <= flat(
                    old(self).buffers().take(idx + 1),
                ).len()
                &&& old(self).read_pos < pos <= flat(old(self).buffers()).len()
            },
            r is None ==> newline_chunk(old(self).chunks()) == old(self).queue@.len()
                && final(self).search_pos == old(self).queue@.len(),
    {
        let ghost buffers = self.buffers();
        let ghost all = flat(buffers);
        let ghost chunks = self.chunks();
        let ghost start = self.read_pos as int;
        proof {
            lemma_advance_flat(buffers, start);
            assert(buffers.take(0) =~= Seq::<Seq<u8>>::empty());
        }
        let mut offset: usize = 0;
        let mut idx: usize = 0;
        while idx < self.queue.len()
            invariant
                self.wf(),
                self.queue == old(self).queue,
                self.read_pos == old(self).read_pos == start,
                self.buf == old(self).buf,
                self.trimmed(),
                buffers == self.buffers(),
                all == flat(buffers),
                chunks == old(self).chunks(),
                chunks == self.chunks(),
                flat(chunks) == all.skip(start),
                idx <= self.queue@.len(),
                offset == flat(buffers.take(idx as int)).len(),
                idx >= old(self).search_pos ==> self.search_pos == idx,
                idx < old(self).search_pos ==> self.search_pos == old(self).search_pos,
                forall|p: int| start <= p < offset ==> #[trigger] all[p] != 10u8,
                forall|i: int| 0 <= i < idx ==> !has_newline(#[trigger] chunks[i]),
            decreases self.queue@.len() - idx,
        {
            let buf: &Vec<u8> = &self.queue[idx];
            proof {
                lemma_flat_at(buffers, idx as int);
                assert(buf@ == buffers[idx as int]);
            }
            // Fast skip-ahead
            if idx < self.search_pos {
                proof {
                    lemma_take_flat(buffers, idx + 1, self.search_pos as int);
                    lemma_take_flat(buffers, self.search_pos as int, buffers.len() as int);
                    assert(buffers.take(buffers.len() as int) =~= buffers);
                    assert forall|p: int| start <= p < offset + buf@.len() implies #[trigger] all[p]
                        != 10u8 by {
                        assert(self.searched()[p] == all[p]);
                    }
                    lemma_chunk_clear(buffers, idx as int, start);
                }
                offset += buf.len();
                idx += 1;
                continue ;
            }
            let skip: usize = if idx == 0 {
                self.read_pos
            } else {
                0
            };
            let mut pos: usize = skip;
            while pos < buf.len() && buf[pos] != 10u8
                invariant
                    skip <= pos <= buf@.len(),
                    forall|j: int| skip <= j < pos ==> buf@[j] != 10u8,
                decreases buf@.len() - pos,
            {
                pos += 1;
            }
            proof {
                lemma_advance_head(buffers, start);
                assert forall|p: int| start <= p < offset + pos implies #[trigger] all[p]
                    != 10u8 by {
                    if p >= offset {
                        assert(all[p] == buf@[p - offset]);
                    }
                }
            }
            if pos < buf.len() {
                // On the next call we have to search in this buffer again
                // as it might contain a second newline
                self.search_pos = idx;
                proof {
                    let at = offset + pos;
                    assert(all[at] == 10u8);
                    assert forall|i: int| 0 <= i < at - start implies flat(chunks)[i] != 10u8 by {
                        assert(flat(chunks)[i] == all[i + start]);
                    }
                    assert(flat(chunks)[at - start] == all[at]);
                    lemma_line_len(flat(chunks), at - start);
                    assert(chunks[idx as int][pos - skip] == 10u8);
                    lemma_newline_chunk(chunks, idx as int);
                    assert forall|p: int|
                        self.read_pos <= p
                            < self.searched().len() implies #[trigger] self.searched()[p]
                        != 10u8 by {
                        assert(self.searched()[p] == all[p]);
                    }
                }
                return Some((idx, offset + pos + 1));
            }
            // This buffer did not contain a newline so we don't have to look
            // in it again next time

            self.search_pos = idx + 1;
            proof {
                assert(self.buffers() == buffers);
                assert forall|p: int|
                    self.read_pos <= p < self.searched().len() implies #[trigger] self.searched()[p]
                    != 10u8 by {
                    assert(self.searched()[p] == all[p]);
                }
                lemma_chunk_clear(buffers, idx as int, start);
            }
            offset += buf.len();
            idx += 1;
        }
        proof {
            assert(buffers.take(buffers.len() as int) =~= buffers);
            lemma_newline_chunk(chunks, idx as int);
            assert(!has_newline(flat(chunks))) by {
                if has_newline(flat(chunks)) {
                    let i = choose|i: int| 0 <= i < flat(chunks).len() && flat(chunks)[i] == 10u8;
                    assert(all[i + start] == flat(chunks)[i]);
                }
            }
        }
        None
    }

    /// Copies length bytes from all buffers from the beginning until last_idx into our internal
    /// buffer, and skips the first offset bytes from the first buffer.
    fn copy_into_internal_buffer(&mut self, last_idx: usize, offset: usize, len: usize)
        requires
            last_idx < old(self).queue@.len(),
            old(self).buf@.len() == 0,
            offset == 0 || offset < old(self).buffers()[0].len(),
            forall|i: int|
                0 <= i <= last_idx ==> (#[trigger] advance(
                    old(self).buffers(),
                    offset as int,
                )[i]).len() > 0,
            flat(advance(old(self).buffers(), offset as int).take(last_idx as int)).len() < len
                <= flat(advance(old(self).buffers(), offset as int).take(last_idx + 1)).len(),
        ensures
            final(self).queue == old(self).queue,
            final(self).read_pos == old(self).read_pos,
            final(self).search_pos == old(self).search_pos,
            final(self).buf@ == flat(advance(old(self).buffers(), offset as int)).take(len as int),
    {
        let ghost chunks = advance(self.buffers(), offset as int);
        proof {
            lemma_advance_head(self.buffers(), offset as int);
            lemma_flat_at(chunks, last_idx as int);
            assert(chunks.take(0) =~= Seq::<Seq<u8>>::empty());
            assert(self.buf@ =~= Seq::<u8>::empty());
        }
        // Iterate over all buffers inside the queue until the one that contains
        // the newline character
        let buffers: usize = self.queue.len();
        let mut idx: usize = 0;
        while idx <= last_idx
            invariant
                idx <= last_idx + 1,
                last_idx < buffers == self.queue@.len(),
                self.queue == old(self).queue,
                self.read_pos == old(self).read_pos,
                self.search_pos == old(self).search_pos,
                chunks == self.buffers().update(0, self.buffers()[0].skip(offset as int)),
                offset == 0 || offset < self.buffers()[0].len(),
                forall|i: int| 0 <= i <= last_idx ==> (#[trigger] chunks[i]).len() > 0,
                flat(chunks.take(last_idx as int)).len() < len <= flat(
                    chunks.take(last_idx + 1),
                ).len(),
                idx <= last_idx ==> self.buf@ == flat(chunks.take(idx as int)),
                idx > last_idx ==> self.buf@ == flat(chunks.take(idx as int)).take(len as int),
            decreases last_idx + 1 - idx,
        {
            let buf: &Vec<u8> = &self.queue[idx];
            proof {
                lemma_flat_at(chunks, idx as int);
                assert(chunks[idx as int] =~= buf@.skip(if idx == 0 { offset as int } else { 0 }));
                assert(chunks[idx as int].len() > 0);
                lemma_take_flat(chunks, idx as int, last_idx as int);
                if idx < last_idx {
                    lemma_take_flat(chunks, idx + 1, last_idx as int);
                }
            }
            // Calculate how much data we still have to copy
            let rem: usize = len - self.buf.len();

            // For the first index we need to take into account the offset. The first
            // bytes might have to be skipped and as such we have fewer bytes available
            // than the whole length of the buffer
            let buf_len: usize = if idx == 0 {
                buf.len() - offset
            } else {
                buf.len()
            };

            // Calculate how much we can copy from this buffer. At most the size of the buffer
            // itself, but never more than the amount we still have to copy overall
            let copy_len: usize = if rem > buf_len {
                buf_len
            } else {
                rem
            };
            let ghost copied = self.buf@;
            let from: usize = if idx == 0 {
                offset
            } else {
                0
            };
            self.buf.extend_from_slice(&buf[from..from + copy_len]);
            proof {
                assert(self.buf@ =~= copied + chunks[idx as int].take(copy_len as int));
                if idx < last_idx {
                    assert(chunks[idx as int].take(copy_len as int) =~= chunks[idx as int]);
                } else {
                    assert(self.buf@ =~= flat(chunks.take(idx + 1)).take(len as int));
                }
            }
            idx += 1;
        }
        proof {
            assert(flat(chunks.take(last_idx + 1)).take(len as int) =~= flat(chunks).take(
                len as int,
            ));
        }
    }

    /// The next line with its newline, if a whole one is there. Otherwise, where `drain` is set
    /// and anything is queued, all that is left.
    ///
    /// What is returned counts as read.
    pub fn line_with_drain(&mut self, drain: bool) -> (r: Option<&[u8]>)
        requires
            old(self).wf(),
            line_is_joinable(old(self).chunks()),
        ensures
            final(self).wf(),
            final(self).held() <= old(self).held(),
            r is Some <==> has_newline(flat(old(self).chunks())) || (drain
                && old(self).chunks().len() > 0),
            r matches Some(bytes) ==> {
                &&& bytes@ == if has_newline(flat(old(self).chunks())) {
                    flat(old(self).chunks()).take(line_len(flat(old(self).chunks())))
                } else {
                    flat(old(self).chunks())
                }
                &&& final(self).chunks() == advance(old(self).chunks(), bytes@.len() as int)
            },
            r is None ==> final(self).chunks() == old(self).chunks(),
    {
        // Drop all data from the previous line
        self.drop_previous_line();
        let ghost buffers = self.buffers();
        let ghost chunks = self.chunks();
        let ghost start = self.read_pos as int;
        proof {
            lemma_advance_flat(buffers, start);
            if buffers.len() > 0 {
                lemma_advance_head(buffers, start);
            }
        }

        // Find the next newline character from our previous position
        if let Some((idx, pos)) = self.find_newline() {
            // We now need to copy everything from the old read_pos to the new
            // pos, and on the next call we have to start from the new pos
            let old_read_pos: usize = self.read_pos;
            self.read_pos = pos;
            proof {
                assert(self.buffers() == buffers);
                assert(self.searched() == flat(buffers.take(idx as int)));
                lemma_advance_add(buffers, start, pos - start);
                lemma_flat_at(buffers, 0);
                assert(buffers.take(0) =~= Seq::<Seq<u8>>::empty());
            }

            // If the newline is found in the first buffer in our queue, we can directly return
            // the slice from it without doing any copying.
            //
            // On average this should be the most common case.
            if idx == 0 {
                let buf: &Vec<u8> = &self.queue[0];
                assert(buf@.subrange(start, pos as int) =~= flat(chunks).take(pos - start));
                return Some(&buf[old_read_pos..pos]);
            } else {
                // Copy into our internal buffer as the current line spans multiple buffers
                let len: usize = pos - old_read_pos;
                proof {
                    lemma_flat_update(buffers, start, idx as int);
                    lemma_flat_update(buffers, start, idx + 1);
                }
                self.copy_into_internal_buffer(idx, old_read_pos, len);
                proof {
                    assert(self.buffers() == buffers);
                    assert(self.searched() == flat(buffers.take(idx as int)));
                    assert(self.buf@.subrange(0, len as int) =~= self.buf@);
                }
                return Some(&self.buf[0..len]);
            }
        }
        // No newline found above and we're not draining, so let's wait until
        // more data is available that might contain a newline character

        if !drain {
            return None;
        }
        if self.queue.len() == 0 {
            return None;
        }
        proof {
            lemma_advance_add(buffers, start, flat(chunks).len() as int);
            assert(buffers.take(buffers.len() as int) =~= buffers);
            assert(self.buffers() == buffers);
        }

        // When draining and we only have a single buffer in the queue we can
        // directly return a slice into it
        if self.queue.len() == 1 {
            proof {
                lemma_flat_at(buffers, 0);
                assert(buffers.take(0) =~= Seq::<Seq<u8>>::empty());
                assert(buffers.skip(1) =~= Seq::<Seq<u8>>::empty());
            }
            let from: usize = self.read_pos;
            let to: usize = self.queue[0].len();
            self.read_pos = to;
            self.search_pos = 1;
            proof {
                assert(self.buffers() == buffers);
                assert(self.searched() == flat(buffers));
                assert(self.queue@[0]@.subrange(from as int, to as int) =~= flat(chunks));
            }
            let buf: &Vec<u8> = &self.queue[0];
            return Some(&buf[from..to]);
        }
        // Otherwise we have to copy everything that is remaining into our
        // internal buffer and then return a slice from that

        let mut idx: usize = 0;
        proof {
            assert(chunks.take(0) =~= Seq::<Seq<u8>>::empty());
            assert(self.buf@ =~= Seq::<u8>::empty());
        }
        while idx < self.queue.len()
            invariant
                idx <= self.queue@.len(),
                self.buffers() == buffers,
                self.read_pos == start,
                start <= buffers[0].len(),
                buffers.len() == chunks.len(),
                chunks == buffers.update(0, buffers[0].skip(start)),
                self.buf@ == flat(chunks.take(idx as int)),
            decreases self.queue@.len() - idx,
        {
            let buf: &Vec<u8> = &self.queue[idx];
            let from: usize = if idx == 0 {
                self.read_pos
            } else {
                0
            };
            proof {
                assert(buf@ == buffers[idx as int]);
                lemma_flat_at(chunks, idx as int);
                assert(buf@.subrange(from as int, buf@.len() as int) =~= chunks[idx as int]);
            }
            self.buf.extend_from_slice(&buf[from..buf.len()]);
            assert(self.buffers() == buffers);
            idx += 1;
        }
        assert(chunks.take(idx as int) =~= chunks);
        self.read_pos = self.read_pos + self.buf.len();
        self.search_pos = self.queue.len();
        proof {
            assert(self.buffers() == buffers);
            assert(self.searched() == flat(buffers));
        }
        Some(self.buf.as_slice())
    }

    /// The next line, or all that is left where no whole line is.
    pub fn line_or_drain(&mut self) -> (r: Option<&[u8]>)
        requires
            old(self).wf(),
            line_is_joinable(old(self).chunks()),
        ensures
            final(self).wf(),
            final(self).held() <= old(self).held(),
            r is Some <==> old(self).chunks().len() > 0,
            r matches Some(bytes) ==> {
                &&& bytes@ == if has_newline(flat(old(self).chunks())) {
                    flat(old(self).chunks()).take(line_len(flat(old(self).chunks())))
                } else {
                    flat(old(self).chunks())
                }
                &&& final(self).chunks() == advance(old(self).chunks(), bytes@.len() as int)
            },
            r is None ==> final(self).chunks() == old(self).chunks(),
    {
        self.line_with_drain(true)
    }

    /// The next line with its newline, if a whole one is there.
    pub fn line(&mut self) -> (r: Option<&[u8]>)
        requires
            old(self).wf(),
            line_is_joinable(old(self).chunks()),
        ensures
            final(self).wf(),
            final(self).held() <= old(self).held(),
            r is Some <==> has_newline(flat(old(self).chunks())),
            r matches Some(bytes) ==> {
                &&& bytes@ == flat(old(self).chunks()).take(line_len(flat(old(self).chunks())))
                &&& final(self).chunks() == advance(old(self).chunks(), bytes@.len() as int)
            },
            r is None ==> final(self).chunks() == old(self).chunks(),
    {
        self.line_with_drain(false)
    }

    /// Forgets everything that was pushed.
    pub fn clear(&mut self)
        ensures
            final(self).wf(),
            final(self).chunks() == Seq::<Seq<u8>>::empty(),
            final(self).held() == 0,
    {
        self.queue.clear();
        self.read_pos = 0;
        self.search_pos = 0;
        self.buf.clear();
        assert(self.buffers() =~= Seq::<Seq<u8>>::empty());
        assert(self.buffers().take(0) =~= Seq::<Seq<u8>>::empty());
    }
}

/// What was read, followed by what is left, is what was there: no byte is lost, repeated or
/// moved, whatever number of bytes a call returns.
pub proof fn law_no_byte_lost(chunks: Seq<Seq<u8>>, n: int)
    requires
        0 <= n <= flat(chunks).len(),
    ensures
        flat(chunks).take(n) + flat(advance(chunks, n)) == flat(chunks),
{
    lemma_advance_flat(chunks, n);
    assert(flat(chunks).take(n) + flat(chunks).skip(n) =~= flat(chunks));
}

/// A line is not empty, ends with a newline and holds no other.
pub proof fn law_line_shape(bytes: Seq<u8>)
    requires
        has_newline(bytes),
    ensures
        0 < line_len(bytes) <= bytes.len(),
        bytes[line_len(bytes) - 1] == 10u8,
        !has_newline(bytes.take(line_len(bytes) - 1)),
    decreases bytes.len(),
{
    if bytes[0] != 10u8 {
        let i = choose|i: int| 0 <= i < bytes.len() && bytes[i] == 10u8;
        assert(bytes.drop_first()[i - 1] == 10u8);
        law_line_shape(bytes.drop_first());
        let rest = bytes.drop_first();
        let head = bytes.take(line_len(bytes) - 1);
        assert(head =~= seq![bytes[0]] + rest.take(line_len(rest) - 1));
        if has_newline(head) {
            let j = choose|j: int| 0 <= j < head.len() && head[j] == 10u8;
            assert(rest.take(line_len(rest) - 1)[j - 1] == 10u8);
        }
    }
}

} // verus!
