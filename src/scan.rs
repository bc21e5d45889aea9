use vstd::prelude::*;
use crate::keys::{key_views, lemma_views_push};

verus! {

/// The batch size hint used unless another is configured.
pub const DEFAULT_BATCH_SIZE: usize = 1000;

/// What the driver of a scan does next.
pub enum ScanAction {
    /// Ask the store for the batch after `cursor`, of about `count` keys.
    Fetch { cursor: u64, count: usize },
    /// The scan has come back to cursor 0: every batch has been received.
    Done,
}

/// A cursor-based enumeration of a store's keys, in progress.
///
/// The scan starts at cursor 0 and ends when a batch comes back with cursor 0.
/// Keys are kept in the order the batches brought them, duplicates included.
pub struct KeyScan {
    cursor: u64,
    batch_size: usize,
    finished: bool,
    keys: Vec<String>,
}

impl KeyScan {
    /// The cursor to send with the next request.
    pub closed spec fn cursor(&self) -> u64 {
        self.cursor
    }

    /// The batch size hint sent with each request.
    pub closed spec fn batch_size(&self) -> usize {
        self.batch_size
    }

    /// Whether the store has reported the end of the scan.
    pub closed spec fn is_finished(&self) -> bool {
        self.finished
    }

    /// The keys received so far, in order.
    pub closed spec fn received(&self) -> Seq<Seq<char>> {
        key_views(self.keys@)
    }

    /// The batch size hint is at least 1.
    pub closed spec fn wf(&self) -> bool {
        self.batch_size >= 1
    }

    /// A scan that has received nothing and asks first for cursor 0.
    pub fn new(batch_size: usize) -> (r: KeyScan)
        requires
            batch_size >= 1,
        ensures
            r.wf(),
            r.cursor() == 0,
            r.batch_size() == batch_size,
            !r.is_finished(),
            r.received() == Seq::<Seq<char>>::empty(),
    {
        let r = KeyScan { cursor: 0, batch_size, finished: false, keys: Vec::new() };
        assert(key_views(r.keys@) =~= Seq::<Seq<char>>::empty());
        r
    }

    /// The request to make next, or `Done` once the scan has ended.
    pub fn next_action(&self) -> (r: ScanAction)
        ensures
            self.is_finished() ==> r is Done,
            !self.is_finished() ==> r == (ScanAction::Fetch {
                cursor: self.cursor(),
                count: self.batch_size(),
            }),
    {
        if self.finished {
            ScanAction::Done
        } else {
            ScanAction::Fetch { cursor: self.cursor, count: self.batch_size }
        }
    }

    /// Takes in the store's answer to the last request: the next cursor and
    /// a batch of keys. A next cursor of 0 ends the scan.
    pub fn on_batch(&mut self, next_cursor: u64, batch: Vec<String>)
        requires
            old(self).wf(),
            !old(self).is_finished(),
        ensures
            final(self).wf(),
            final(self).received() == old(self).received() + key_views(batch@),
            final(self).cursor() == next_cursor,
            final(self).batch_size() == old(self).batch_size(),
            final(self).is_finished() == (next_cursor == 0),
    {
        let mut batch = batch;
        let ghost before = self.keys@;
        let ghost incoming = batch@;
        self.keys.append(&mut batch);
        assert(key_views(self.keys@) =~= key_views(before) + key_views(incoming));
        self.cursor = next_cursor;
        self.finished = next_cursor == 0;
    }

    /// The keys received, in order.
    pub fn into_keys(self) -> (r: Vec<String>)
        ensures
            key_views(r@) == self.received(),
    {
        self.keys
    }
}

/// The keys of a sequence of batches, one batch after another.
pub open spec fn joined(batches: Seq<Seq<Seq<char>>>) -> Seq<Seq<char>>
    decreases batches.len(),
{
    if batches.len() == 0 {
        Seq::empty()
    } else {
        joined(batches.drop_last()) + batches.last()
    }
}

proof fn lemma_joined_contains(batches: Seq<Seq<Seq<char>>>, x: Seq<char>)
    ensures
        joined(batches).contains(x) <==> exists|i: int|
            0 <= i < batches.len() && (#[trigger] batches[i]).contains(x),
    decreases batches.len(),
{
    if batches.len() > 0 {
        let init = batches.drop_last();
        let last = batches.last();
        lemma_joined_contains(init, x);
        let j = joined(batches);
        if j.contains(x) {
            let k = choose|k: int| 0 <= k < j.len() && j[k] == x;
            if k < joined(init).len() {
                assert(joined(init)[k] == x);
                let i = choose|i: int| 0 <= i < init.len() && (#[trigger] init[i]).contains(x);
                assert(batches[i] == init[i]);
            } else {
                assert(last[k - joined(init).len()] == x);
                assert(batches[batches.len() - 1] == last);
            }
        }
        if exists|i: int| 0 <= i < batches.len() && (#[trigger] batches[i]).contains(x) {
            let i = choose|i: int| 0 <= i < batches.len() && (#[trigger] batches[i]).contains(x);
            if i < init.len() {
                assert(init[i] == batches[i]);
                let k = choose|k: int| 0 <= k < joined(init).len() && joined(init)[k] == x;
                assert(j[k] == x);
            } else {
                let k = choose|k: int| 0 <= k < last.len() && last[k] == x;
                assert(j[joined(init).len() + k] == x);
            }
        }
    }
}

/// A scan whose batches hold only keys of the store, and between them every
/// key of the store, has received exactly the store's key set. A `KeyScan`
/// fed those batches through `on_batch` holds `joined` of them.
pub proof fn lemma_scan_complete(batches: Seq<Seq<Seq<char>>>, store: Set<Seq<char>>)
    requires
        forall|i: int, j: int|
            0 <= i < batches.len() && 0 <= j < batches[i].len() ==> store.contains(
                #[trigger] batches[i][j],
            ),
        forall|x: Seq<char>|
            store.contains(x) ==> exists|i: int|
                0 <= i < batches.len() && (#[trigger] batches[i]).contains(x),
    ensures
        joined(batches).to_set() == store,
{
    assert forall|x: Seq<char>| joined(batches).to_set().contains(x) <==> store.contains(x) by {
        lemma_joined_contains(batches, x);
        if joined(batches).contains(x) {
            let i = choose|i: int| 0 <= i < batches.len() && (#[trigger] batches[i]).contains(x);
            let j = choose|j: int| 0 <= j < batches[i].len() && batches[i][j] == x;
            assert(store.contains(batches[i][j]));
        }
    }
    assert(joined(batches).to_set() =~= store);
}

/// Where a batch of at most `count` keys from position `cursor` ends, in a
/// store of `len` keys.
pub open spec fn batch_end(len: nat, cursor: nat, count: nat) -> int {
    if cursor + count >= len {
        len as int
    } else {
        (cursor + count) as int
    }
}

/// A store held in memory that answers the cursor-based scan protocol: the
/// cursor is the position of the next key, and 0 is sent back once the last
/// key has been handed out.
pub struct MemStore {
    keys: Vec<String>,
}

impl MemStore {
    /// The store's keys, in scan order.
    pub closed spec fn contents(&self) -> Seq<Seq<char>> {
        key_views(self.keys@)
    }

    pub fn new(keys: Vec<String>) -> (r: MemStore)
        ensures
            r.contents() == key_views(keys@),
    {
        MemStore { keys }
    }

    /// Answers a scan request: up to `count` keys from position `cursor`,
    /// and the cursor to ask for next (0 at the end). A cursor past the end
    /// gives an empty, final batch.
    pub fn scan(&self, cursor: u64, count: usize) -> (r: (u64, Vec<String>))
        ensures
            cursor >= self.contents().len() ==> r.0 == 0 && r.1@.len() == 0,
            cursor < self.contents().len() ==> key_views(r.1@) == self.contents().subrange(
                cursor as int,
                batch_end(self.contents().len(), cursor as nat, count as nat),
            ),
            cursor < self.contents().len() ==> r.0 == if batch_end(
                self.contents().len(),
                cursor as nat,
                count as nat,
            ) == self.contents().len() {
                0
            } else {
                batch_end(self.contents().len(), cursor as nat, count as nat)
            },
    {
        let n = self.keys.len();
        if cursor >= n as u64 {
            return (0, Vec::new());
        }
        let start = cursor as usize;
        let end = if count >= n - start {
            n
        } else {
            start + count
        };
        let mut batch: Vec<String> = Vec::new();
        let mut i: usize = start;
        while i < end
            invariant
                start <= i <= end <= n == self.keys.len(),
                key_views(batch@) == key_views(self.keys@).subrange(start as int, i as int),
            decreases end - i,
        {
            let ghost before = batch@;
            batch.push(self.keys[i].clone());
            proof {
                lemma_views_push(before, self.keys@[i as int]);
            }
            assert(key_views(batch@) =~= key_views(self.keys@).subrange(start as int, i + 1));
            i = i + 1;
        }
        let next: u64 = if end == n {
            0
        } else {
            end as u64
        };
        (next, batch)
    }
}

/// Enumerates every key of `store` by driving a scan to its end.
pub fn enumerate(store: &MemStore, batch_size: usize) -> (r: Vec<String>)
    requires
        batch_size >= 1,
    ensures
        key_views(r@) == store.contents(),
{
    let mut scan = KeyScan::new(batch_size);
    let ghost n = store.contents().len();
    loop
        invariant
            n == store.contents().len(),
            scan.wf(),
            scan.batch_size() == batch_size,
            scan.is_finished() ==> scan.received() == store.contents(),
            !scan.is_finished() ==> scan.cursor() < n || scan.cursor() == 0,
            !scan.is_finished() ==> scan.received() == store.contents().subrange(
                0,
                scan.cursor() as int,
            ),
        ensures
            scan.received() == store.contents(),
        decreases
            if scan.is_finished() {
                0
            } else {
                n - scan.cursor() + 1
            },
    {
        match scan.next_action() {
            ScanAction::Done => break,
            ScanAction::Fetch { cursor, count } => {
                let (next, batch) = store.scan(cursor, count);
                let ghost before = scan.received();
                let ghost got = key_views(batch@);
                scan.on_batch(next, batch);
                proof {
                    let all = store.contents();
                    if cursor < n {
                        let end = batch_end(n, cursor as nat, count as nat);
                        assert(before == all.subrange(0, cursor as int));
                        assert(got == all.subrange(cursor as int, end));
                        assert(scan.received() =~= all.subrange(0, end));
                        if end == n {
                            assert(all.subrange(0, end) =~= all);
                        }
                    } else {
                        assert(scan.received() =~= all);
                    }
                }
            },
        }
    }
    scan.into_keys()
}

} // verus!
