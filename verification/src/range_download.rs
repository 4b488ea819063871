use vstd::prelude::*;

verus! {

/// The bytes of the chunks at `order`, one after another.
pub open spec fn flatten_chunks(order: Seq<u64>, chunks: Map<u64, Seq<u8>>) -> Seq<u8>
    decreases order.len(),
{
    if order.len() == 0 {
        Seq::<u8>::empty()
    } else {
        flatten_chunks(order.drop_last(), chunks) + chunks[order.last()]
    }
}

/// The bytes of the chunks, one after another.
pub open spec fn flatten_vecs(chunks: Seq<Vec<u8>>) -> Seq<u8>
    decreases chunks.len(),
{
    if chunks.len() == 0 {
        Seq::<u8>::empty()
    } else {
        flatten_vecs(chunks.drop_last()) + chunks.last()@
    }
}

proof fn lemma_flatten_insert(order: Seq<u64>, chunks: Map<u64, Seq<u8>>, k: u64, v: Seq<u8>)
    requires
        forall|i: int| 0 <= i < order.len() ==> #[trigger] order[i] != k,
    ensures
        flatten_chunks(order, chunks.insert(k, v)) == flatten_chunks(order, chunks),
    decreases order.len(),
{
    if order.len() > 0 {
        lemma_flatten_insert(order.drop_last(), chunks, k, v);
        assert(order[order.len() - 1] != k);
    }
}

/// A download that reads a file of known size in ranges, several at a time, and writes
/// what arrives in file order: reads are requested one range after another from offset 0,
/// at most `window` at once, each `read_size` long but the last; a range that arrives
/// before the ones ahead of it waits until they have been written.
pub struct RangeDownload {
    total: u64,
    read_size: u64,
    window: usize,
    next_request: u64,
    next_write: u64,
    in_flight: Vec<u64>,
    pending: Vec<(u64, Vec<u8>)>,
    /// Every offset a read was requested at.
    issued: Ghost<Set<u64>>,
    /// Every range that arrived, by offset.
    received: Ghost<Map<u64, Seq<u8>>>,
    /// The offsets of the ranges written, in the order they were written.
    order: Ghost<Seq<u64>>,
}

/// One range handed out: the download stays consistent and what was handed out grows by
/// the range.
proof fn lemma_drain_step(mid: RangeDownload, now: RangeDownload, j: int)
    requires
        mid.consistent(),
        0 <= j < mid.pending@.len(),
        mid.pending@[j].0 == mid.next_write,
        now.total == mid.total,
        now.read_size == mid.read_size,
        now.window == mid.window,
        now.next_request == mid.next_request,
        now.in_flight == mid.in_flight,
        now.issued == mid.issued,
        now.received == mid.received,
        now.pending@ == mid.pending@.remove(j),
        now.next_write == mid.next_write + mid.pending@[j].1@.len(),
        now.order@ == mid.order@.push(mid.next_write),
    ensures
        now.consistent(),
        now.written() == mid.written() + mid.pending@[j].1@,
{
    let w = mid.next_write;
    let chunk = mid.pending@[j].1@;
    assert(mid.received@.contains_key(w));
    assert(mid.received@[w] == chunk);
    assert(mid.issued@.contains(w));
    assert forall|c: u64| #[trigger] mid.pending_has(c) && c != w implies now.pending_has(c) by {
        let i = choose|i: int| 0 <= i < mid.pending@.len() && #[trigger] mid.pending@[i].0 == c;
        if i < j {
            assert(now.pending@[i].0 == c);
        } else {
            assert(i != j);
            assert(now.pending@[i - 1].0 == c);
        }
    }
    assert forall|i: int| 0 <= i < now.pending@.len() implies #[trigger] now.pending@[i].0 >= now.next_write by {
        let c = now.pending@[i].0;
        let i0 = if i < j { i } else { i + 1 };
        assert(mid.pending@[i0].0 == c);
        assert(c != w);
        assert(mid.issued@.contains(c));
    }
    assert forall|i: int| 0 <= i < now.in_flight@.len() implies #[trigger] now.in_flight@[i] >= now.next_write by {
        let c = now.in_flight@[i];
        assert(mid.issued@.contains(c));
        assert(!mid.received@.contains_key(c));
    }
    assert forall|c: u64| #[trigger] now.issued@.contains(c) && now.next_write <= c implies (now.in_flight@.contains(c)
        || now.pending_has(c)) by {
        assert(mid.in_flight@.contains(c) || mid.pending_has(c));
    }
    assert forall|i: int| 0 <= i < now.order@.len() - 1 implies #[trigger] now.order@[i + 1] == now.order@[i]
        + now.received@[now.order@[i]].len() by {
        if i < mid.order@.len() - 1 {
            assert(mid.order@[i + 1] == mid.order@[i] + mid.received@[mid.order@[i]].len());
        }
    }
    assert forall|i: int, k: int| 0 <= i < k < now.pending@.len() implies #[trigger] now.pending@[i].0
        != #[trigger] now.pending@[k].0 by {
        let i0 = if i < j { i } else { i + 1 };
        let k0 = if k < j { k } else { k + 1 };
        assert(now.pending@[i] == mid.pending@[i0]);
        assert(now.pending@[k] == mid.pending@[k0]);
    }
    assert forall|i: int| 0 <= i < now.pending@.len() implies {
        let (c, d) = #[trigger] now.pending@[i];
        &&& now.received@.contains_key(c)
        &&& now.received@[c] == d@
    } by {
        let i0 = if i < j { i } else { i + 1 };
        assert(now.pending@[i] == mid.pending@[i0]);
    }
    assert(now.order@.drop_last() =~= mid.order@);
    assert(now.order@.last() == w);
    let received = now.received@;
    let order = now.order@;
    assert(chunk.len() > 0);
    assert forall|i: int| 0 <= i < order.len() implies #[trigger] received.contains_key(order[i]) && order[i] < now.next_write by {
        if i < mid.order@.len() {
            assert(order[i] == mid.order@[i]);
        } else {
            assert(order[i] == w);
        }
    }
    assert(order.len() > 0 ==> order[0] == 0 && now.next_write == order.last() + received[order.last()].len());
}

impl RangeDownload {
    pub closed spec fn total(&self) -> u64 {
        self.total
    }

    pub closed spec fn read_size(&self) -> u64 {
        self.read_size
    }

    pub closed spec fn window(&self) -> usize {
        self.window
    }

    /// Where the next read starts.
    pub closed spec fn next_request_offset(&self) -> u64 {
        self.next_request
    }

    /// How many bytes have been handed out to be written.
    pub closed spec fn next_write_offset(&self) -> u64 {
        self.next_write
    }

    /// The offsets of the reads requested and not yet arrived.
    pub closed spec fn in_flight_offsets(&self) -> Seq<u64> {
        self.in_flight@
    }

    /// Every range that arrived, by offset.
    pub closed spec fn received(&self) -> Map<u64, Seq<u8>> {
        self.received@
    }

    /// Everything handed out to be written, in order.
    pub closed spec fn written(&self) -> Seq<u8> {
        flatten_chunks(self.order@, self.received@)
    }

    /// The length of the range read at `offset`.
    pub open spec fn range_len(&self, offset: u64) -> u64 {
        if self.total() - offset < self.read_size() {
            (self.total() - offset) as u64
        } else {
            self.read_size()
        }
    }

    pub closed spec fn pending_has(&self, offset: u64) -> bool {
        exists|i: int| 0 <= i < self.pending@.len() && #[trigger] self.pending@[i].0 == offset
    }

    /// What holds of a download at all times, also while arrived ranges are handed out.
    pub closed spec fn consistent(&self) -> bool {
        let issued = self.issued@;
        let received = self.received@;
        let order = self.order@;
        &&& 0 < self.read_size
        &&& 0 < self.window
        &&& self.next_write <= self.next_request <= self.total
        &&& self.in_flight@.len() <= self.window
        &&& self.in_flight@.no_duplicates()
        &&& forall|i: int|
            0 <= i < self.in_flight@.len() ==> {
                let c = #[trigger] self.in_flight@[i];
                &&& issued.contains(c)
                &&& !received.contains_key(c)
                &&& self.next_write <= c
            }
        &&& forall|i: int, j: int|
            0 <= i < j < self.pending@.len() ==> #[trigger] self.pending@[i].0 != #[trigger] self.pending@[j].0
        &&& forall|i: int|
            0 <= i < self.pending@.len() ==> {
                let (c, d) = #[trigger] self.pending@[i];
                &&& received.contains_key(c)
                &&& received[c] == d@
                &&& self.next_write <= c
            }
        &&& forall|c: u64| #[trigger]
            received.contains_key(c) ==> issued.contains(c) && received[c].len() == self.range_len(c)
        &&& forall|c: u64| #[trigger]
            issued.contains(c) ==> {
                &&& c < self.next_request
                &&& c + self.range_len(c) <= self.next_request
                &&& self.range_len(c) > 0
                &&& (c + self.range_len(c) < self.next_request ==> issued.contains((c + self.range_len(c)) as u64))
                &&& (self.next_write <= c ==> (self.in_flight@.contains(c) || self.pending_has(c)))
            }
        &&& forall|c: u64, d: u64| #[trigger] issued.contains(c) && #[trigger] issued.contains(d) && c < d ==> c
            + self.range_len(c) <= d
        &&& self.next_write < self.next_request ==> issued.contains(self.next_write)
        &&& forall|i: int| 0 <= i < order.len() ==> #[trigger] received.contains_key(order[i]) && order[i] < self.next_write
        &&& order.len() == 0 ==> self.next_write == 0
        &&& order.len() > 0 ==> order[0] == 0 && self.next_write == order.last() + received[order.last()].len()
        &&& forall|i: int| 0 <= i < order.len() - 1 ==> #[trigger] order[i + 1] == order[i] + received[order[i]].len()
    }

    /// A download between steps: every range that could be written has been, and the read
    /// of the next bytes to write is out whenever some are left.
    pub closed spec fn wf(&self) -> bool {
        &&& self.consistent()
        &&& !self.pending_has(self.next_write)
        &&& self.next_write < self.next_request ==> self.in_flight@.contains(self.next_write)
    }

    /// A download of `total` bytes read `read_size` bytes at a time, with at most `window`
    /// reads at once.
    pub fn new(total: u64, read_size: u64, window: usize) -> (d: Self)
        requires
            read_size > 0,
            window > 0,
        ensures
            d.wf(),
            d.total() == total,
            d.read_size() == read_size,
            d.window() == window,
            d.next_request_offset() == 0,
            d.next_write_offset() == 0,
            d.in_flight_offsets().len() == 0,
            d.received() == Map::<u64, Seq<u8>>::empty(),
            d.written() == Seq::<u8>::empty(),
    {
        RangeDownload {
            total,
            read_size,
            window,
            next_request: 0,
            next_write: 0,
            in_flight: Vec::new(),
            pending: Vec::new(),
            issued: Ghost(Set::empty()),
            received: Ghost(Map::empty()),
            order: Ghost(Seq::empty()),
        }
    }

    /// Whether everything has been handed out to be written.
    pub fn finished(&self) -> (done: bool)
        requires
            self.wf(),
        ensures
            done == (self.next_write_offset() >= self.total()),
    {
        self.next_write >= self.total
    }

    /// How many bytes have been handed out to be written.
    pub fn written_len(&self) -> (n: u64)
        ensures
            n == self.next_write_offset(),
    {
        self.next_write
    }

    /// The next read to start, as an offset and a length, while fewer than `window` reads
    /// are out and bytes are left to request.
    pub fn next_request(&mut self) -> (request: Option<(u64, u64)>)
        requires
            old(self).wf(),
        ensures
            final(self).wf(),
            final(self).total() == old(self).total(),
            final(self).read_size() == old(self).read_size(),
            final(self).window() == old(self).window(),
            final(self).next_write_offset() == old(self).next_write_offset(),
            final(self).received() == old(self).received(),
            final(self).written() == old(self).written(),
            match request {
                Some((offset, len)) => {
                    &&& old(self).in_flight_offsets().len() < old(self).window()
                    &&& old(self).next_request_offset() < old(self).total()
                    &&& offset == old(self).next_request_offset()
                    &&& len == old(self).range_len(offset)
                    &&& final(self).next_request_offset() == offset + len
                    &&& final(self).in_flight_offsets() == old(self).in_flight_offsets().push(offset)
                },
                None => {
                    &&& (old(self).in_flight_offsets().len() >= old(self).window() || old(self).next_request_offset()
                        >= old(self).total())
                    &&& final(self).next_request_offset() == old(self).next_request_offset()
                    &&& final(self).in_flight_offsets() == old(self).in_flight_offsets()
                },
            },
    {
        if self.in_flight.len() >= self.window || self.next_request >= self.total {
            return None;
        }
        let offset = self.next_request;
        let len = if self.total - offset < self.read_size {
            self.total - offset
        } else {
            self.read_size
        };
        let ghost before = *self;
        assert(len == self.range_len(offset));
        self.next_request = offset + len;
        self.in_flight.push(offset);
        self.issued = Ghost(self.issued@.insert(offset));
        proof {
            assert(forall|i: int| 0 <= i < before.in_flight@.len() ==> self.in_flight@[i] == before.in_flight@[i]);
            assert(self.in_flight@[self.in_flight@.len() - 1] == offset);
            assert(!before.issued@.contains(offset));
            assert forall|c: u64| #[trigger] self.issued@.contains(c) implies {
                &&& c < self.next_request
                &&& c + self.range_len(c) <= self.next_request
                &&& self.range_len(c) > 0
                &&& (self.next_write <= c ==> (self.in_flight@.contains(c) || self.pending_has(c)))
            } by {
                if c != offset {
                    if before.in_flight@.contains(c) {
                        let k = choose|k: int| 0 <= k < before.in_flight@.len() && before.in_flight@[k] == c;
                        assert(self.in_flight@[k] == c);
                    }
                    if before.pending_has(c) {
                        let k = choose|k: int| 0 <= k < before.pending@.len() && #[trigger] before.pending@[k].0 == c;
                        assert(self.pending@[k].0 == c);
                    }
                } else {
                    assert(self.in_flight@[self.in_flight@.len() - 1] == c);
                }
            }
        }
        Some((offset, len))
    }

    /// Takes the range read at `offset` and hands back, in file order, the ranges that can
    /// now be written: this one and those that arrived before it and follow it, as long as
    /// the next range to write is there.
    #[verifier::rlimit(40)]
    pub fn complete(&mut self, offset: u64, data: Vec<u8>) -> (ready: Vec<Vec<u8>>)
        requires
            old(self).wf(),
            old(self).in_flight_offsets().contains(offset),
            data@.len() == old(self).range_len(offset),
        ensures
            final(self).wf(),
            final(self).total() == old(self).total(),
            final(self).read_size() == old(self).read_size(),
            final(self).window() == old(self).window(),
            final(self).next_request_offset() == old(self).next_request_offset(),
            final(self).received() == old(self).received().insert(offset, data@),
            final(self).in_flight_offsets().len() == old(self).in_flight_offsets().len() - 1,
            forall|c: u64|
                #[trigger] final(self).in_flight_offsets().contains(c) <==> (old(self).in_flight_offsets().contains(c) && c
                    != offset),
            final(self).written() == old(self).written() + flatten_vecs(ready@),
            final(self).next_write_offset() == old(self).next_write_offset() + flatten_vecs(ready@).len(),
    {
        let ghost before = *self;
        let mut k: usize = 0;
        while k < self.in_flight.len() && self.in_flight[k] != offset
            invariant
                k <= self.in_flight@.len(),
                *self == before,
                before.in_flight@.contains(offset),
                forall|j: int| 0 <= j < k ==> self.in_flight@[j] != offset,
            decreases self.in_flight@.len() - k,
        {
            k += 1;
        }
        assert(k < self.in_flight@.len());
        proof {
            assert(before.issued@.contains(offset));
            assert(!before.received@.contains_key(offset));
            lemma_flatten_insert(before.order@, before.received@, offset, data@);
            assert forall|i: int| 0 <= i < before.pending@.len() implies #[trigger] before.pending@[i].0 != offset by {
                assert(before.received@.contains_key(before.pending@[i].0));
            }
        }
        self.in_flight.remove(k);
        self.received = Ghost(self.received@.insert(offset, data@));
        self.pending.push((offset, data));
        proof {
            let after = *self;
            assert(after.in_flight@ == before.in_flight@.remove(k as int));
            assert forall|c: u64| #[trigger] after.in_flight@.contains(c) <==> (before.in_flight@.contains(c) && c != offset) by {
                if after.in_flight@.contains(c) {
                    let j = choose|j: int| 0 <= j < after.in_flight@.len() && after.in_flight@[j] == c;
                    if j < k {
                        assert(before.in_flight@[j] == c);
                    } else {
                        assert(before.in_flight@[j + 1] == c);
                    }
                }
                if before.in_flight@.contains(c) && c != offset {
                    let j = choose|j: int| 0 <= j < before.in_flight@.len() && before.in_flight@[j] == c;
                    if j < k {
                        assert(after.in_flight@[j] == c);
                    } else {
                        assert(j != k);
                        assert(after.in_flight@[j - 1] == c);
                    }
                }
            }
            assert(after.pending@.last() == (offset, after.pending@.last().1));
            assert forall|c: u64| #[trigger] before.pending_has(c) implies after.pending_has(c) by {
                let j = choose|j: int| 0 <= j < before.pending@.len() && #[trigger] before.pending@[j].0 == c;
                assert(after.pending@[j].0 == c);
            }
            assert(after.pending_has(offset)) by {
                assert(after.pending@[after.pending@.len() - 1].0 == offset);
            }
            assert(after.consistent());
        }
        let mut ready: Vec<Vec<u8>> = Vec::new();
        loop
            invariant
                self.consistent(),
                self.total == before.total,
                self.read_size == before.read_size,
                self.window == before.window,
                self.next_request == before.next_request,
                self.received@ == before.received@.insert(offset, data@),
                forall|c: u64| #[trigger] self.in_flight@.contains(c) <==> (before.in_flight@.contains(c) && c != offset),
                self.in_flight@.len() == before.in_flight@.len() - 1,
                self.written() == before.written() + flatten_vecs(ready@),
                self.next_write == before.next_write + flatten_vecs(ready@).len(),
            ensures
                !self.pending_has(self.next_write),
            decreases self.pending@.len(),
        {
            let mut j: usize = 0;
            while j < self.pending.len() && self.pending[j].0 != self.next_write
                invariant
                    j <= self.pending@.len(),
                    forall|i: int| 0 <= i < j ==> self.pending@[i].0 != self.next_write,
                decreases self.pending@.len() - j,
            {
                j += 1;
            }
            if j == self.pending.len() {
                break;
            }
            let ghost mid = *self;
            let (w, chunk) = self.pending.remove(j);
            proof {
                assert(mid.pending@[j as int] == (w, chunk));
                assert(mid.received@.contains_key(w));
                assert(mid.received@[w] == chunk@);
                assert(mid.issued@.contains(w));
            }
            self.next_write = w + chunk.len() as u64;
            self.order = Ghost(self.order@.push(w));
            let ghost chunk_view = chunk@;
            let ghost ready_before = ready@;
            ready.push(chunk);
            proof {
                let now = *self;
                assert(now.pending@ == mid.pending@.remove(j as int));
                lemma_drain_step(mid, now, j as int);
                assert(flatten_vecs(ready@) == flatten_vecs(ready_before) + chunk_view) by {
                    assert(ready@.last()@ == chunk_view);
                    assert(ready@.drop_last() =~= ready_before);
                }
            }
        }
        ready
    }

    /// Whether a read at `offset` of `len` bytes is one this download waits for.
    pub fn awaits(&self, offset: u64, len: usize) -> (expected: bool)
        requires
            self.wf(),
        ensures
            expected == (self.in_flight_offsets().contains(offset) && len == self.range_len(offset)),
    {
        let mut i: usize = 0;
        while i < self.in_flight.len()
            invariant
                i <= self.in_flight@.len(),
                self.wf(),
                forall|k: int| 0 <= k < i ==> self.in_flight@[k] != offset,
            decreases self.in_flight@.len() - i,
        {
            if self.in_flight[i] == offset {
                assert(self.issued@.contains(self.in_flight@[i as int]));
                let expected_len = if self.total - offset < self.read_size {
                    self.total - offset
                } else {
                    self.read_size
                };
                return len as u64 == expected_len;
            }
            i += 1;
        }
        false
    }
}

proof fn lemma_chain_prefix(order: Seq<u64>, chunks: Map<u64, Seq<u8>>, file: Seq<u8>, k: int)
    requires
        0 <= k <= order.len(),
        order.len() > 0 ==> order[0] == 0,
        forall|i: int| 0 <= i < order.len() - 1 ==> #[trigger] order[i + 1] == order[i] + chunks[order[i]].len(),
        forall|i: int| 0 <= i < order.len() ==> #[trigger] chunks.contains_key(order[i]),
        forall|c: u64| #[trigger]
            chunks.contains_key(c) ==> c + chunks[c].len() <= file.len() && chunks[c] == file.subrange(
                c as int,
                c + chunks[c].len(),
            ),
    ensures
        k == 0 ==> flatten_chunks(order.take(k), chunks) == Seq::<u8>::empty(),
        k > 0 ==> flatten_chunks(order.take(k), chunks) == file.subrange(0, order[k - 1] + chunks[order[k - 1]].len()),
    decreases k,
{
    if k > 0 {
        lemma_chain_prefix(order, chunks, file, k - 1);
        assert(order.take(k).drop_last() =~= order.take(k - 1));
        assert(order.take(k).last() == order[k - 1]);
        let c = order[k - 1];
        assert(chunks.contains_key(c));
        if k == 1 {
            assert(c == 0);
            assert(Seq::<u8>::empty() + chunks[c] =~= file.subrange(0, c + chunks[c].len()));
        } else {
            let i = k - 2;
            assert(order[i + 1] == order[i] + chunks[order[i]].len());
            assert(file.subrange(0, c as int) + file.subrange(c as int, c + chunks[c].len()) =~= file.subrange(
                0,
                c + chunks[c].len(),
            ));
        }
    }
}

/// Whatever order the reads arrive in, what a download hands out to be written is the
/// start of the file: when every range that arrived holds the file's bytes at its
/// offset, the bytes handed out are the file's first bytes, as many as were handed out.
pub proof fn lemma_written_is_file_prefix(d: RangeDownload, file: Seq<u8>)
    requires
        d.wf(),
        forall|c: u64| #[trigger]
            d.received().contains_key(c) ==> c + d.received()[c].len() <= file.len() && d.received()[c]
                == file.subrange(c as int, c + d.received()[c].len()),
    ensures
        d.written() == file.subrange(0, d.next_write_offset() as int),
{
    let order = d.order@;
    assert(d.received() == d.received@);
    lemma_chain_prefix(order, d.received@, file, order.len() as int);
    assert(order.take(order.len() as int) =~= order);
}

/// A download never has more reads out than its window.
pub proof fn lemma_window_respected(d: RangeDownload)
    requires
        d.wf(),
    ensures
        d.in_flight_offsets().len() <= d.window(),
{
}

/// A download never stalls: while requested bytes are left to write, the read of the next
/// bytes to write is out; so once no read is out and every byte has been requested, every
/// byte has been handed out.
pub proof fn lemma_no_stall(d: RangeDownload)
    requires
        d.wf(),
    ensures
        d.next_write_offset() < d.next_request_offset() ==> d.in_flight_offsets().contains(d.next_write_offset()),
        d.in_flight_offsets().len() == 0 && d.next_request_offset() == d.total() ==> d.next_write_offset() == d.total(),
{
    if d.in_flight_offsets().len() == 0 && d.next_write_offset() < d.next_request_offset() {
        assert(d.in_flight@.contains(d.next_write));
    }
}

/// Once a download has finished, it has handed out the whole file, in order.
pub proof fn lemma_finished_download_is_the_file(d: RangeDownload, file: Seq<u8>)
    requires
        d.wf(),
        d.next_write_offset() >= d.total(),
        file.len() == d.total(),
        forall|c: u64| #[trigger]
            d.received().contains_key(c) ==> c + d.received()[c].len() <= file.len() && d.received()[c]
                == file.subrange(c as int, c + d.received()[c].len()),
    ensures
        d.written() == file,
{
    lemma_written_is_file_prefix(d, file);
    assert(file.subrange(0, file.len() as int) =~= file);
}

} // verus!
