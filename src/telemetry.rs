//! The bookkeeping of the telemetry sink: rows wait in bounded sub-queues
//! until a batch is full or a flush is due; a busy sub-queue refuses rows,
//! and rows that every sub-queue refused wait in an overflow list. Sending a
//! batch is the caller's work: it takes the batch these methods hand out and
//! reports back with the rows to retry.

use vstd::prelude::*;

verus! {

/// One sub-queue: rows collected, and whether a batch of it is being sent.
#[derive(Debug)]
pub struct LoggerQueue<T> {
    pub rows: Vec<T>,
    pub inserting: bool,
    pub batch_capacity: usize,
}

impl<T> LoggerQueue<T> {
    pub fn new(batch_capacity: usize) -> (r: LoggerQueue<T>)
        ensures
            r.rows@.len() == 0,
            !r.inserting,
            r.batch_capacity == batch_capacity,
    {
        LoggerQueue { rows: Vec::new(), inserting: false, batch_capacity }
    }

    /// Whether the queue takes rows now.
    pub fn is_ready(&self) -> (r: bool)
        ensures
            r == !self.inserting,
    {
        !self.inserting
    }

    /// Whether nothing waits and nothing is being sent.
    pub fn is_idle(&self) -> (r: bool)
        ensures
            r == (self.rows@.len() == 0 && !self.inserting),
    {
        self.rows.len() == 0 && !self.inserting
    }

    pub fn len(&self) -> (r: usize)
        ensures
            r == self.rows@.len(),
    {
        self.rows.len()
    }

    /// Adds a row unless a batch is being sent (then the row comes back).
    /// When the row fills the batch, the batch is handed out to be sent.
    pub fn try_write(&mut self, row: T) -> (r: Result<Option<Vec<T>>, T>)
        ensures
            final(self).batch_capacity == old(self).batch_capacity,
            old(self).inserting ==> r == Err::<Option<Vec<T>>, T>(row) && *final(self) == *old(self),
            !old(self).inserting ==> {
                let all = old(self).rows@.push(row);
                if all.len() >= old(self).batch_capacity {
                    &&& r matches Ok(Some(batch)) && batch@ == all
                    &&& final(self).rows@.len() == 0
                    &&& final(self).inserting
                } else {
                    &&& r == Ok::<Option<Vec<T>>, T>(None)
                    &&& final(self).rows@ == all
                    &&& !final(self).inserting
                }
            },
    {
        if self.inserting {
            return Err(row);
        }
        self.rows.push(row);
        if self.rows.len() >= self.batch_capacity {
            self.inserting = true;
            let mut batch: Vec<T> = Vec::new();
            std::mem::swap(&mut batch, &mut self.rows);
            Ok(Some(batch))
        } else {
            Ok(None)
        }
    }

    /// Hands out the waiting rows to be sent, unless a batch is already
    /// being sent or nothing waits.
    pub fn flush_now(&mut self) -> (r: Option<Vec<T>>)
        ensures
            final(self).batch_capacity == old(self).batch_capacity,
            (old(self).inserting || old(self).rows@.len() == 0) ==> r is None && *final(self) == *old(self),
            !(old(self).inserting || old(self).rows@.len() == 0) ==> (r matches Some(batch) && batch@ == old(self).rows@
                && final(self).rows@.len() == 0 && final(self).inserting),
    {
        if self.inserting || self.rows.len() == 0 {
            return None;
        }
        self.inserting = true;
        let mut batch: Vec<T> = Vec::new();
        std::mem::swap(&mut batch, &mut self.rows);
        Some(batch)
    }

    /// A batch was sent; `retries` are its rows that the sink did not take.
    pub fn flush_done(&mut self, retries: Vec<T>)
        ensures
            final(self).batch_capacity == old(self).batch_capacity,
            !final(self).inserting,
            final(self).rows@ == old(self).rows@ + retries@,
    {
        self.inserting = false;
        let mut retries = retries;
        self.rows.append(&mut retries);
    }
}

/// The sub-queues and the overflow list. Without sub-queues the sink is a
/// stand-in that takes everything and keeps nothing.
#[derive(Debug)]
pub struct Logger<T> {
    pub queues: Vec<LoggerQueue<T>>,
    pub overflow: Vec<T>,
}

pub open spec fn some_ready<T>(queues: Seq<LoggerQueue<T>>) -> bool {
    exists|i: int| 0 <= i < queues.len() && !(#[trigger] queues[i]).inserting
}

/// The rows waiting in the sub-queues.
pub open spec fn queued<T>(qs: Seq<LoggerQueue<T>>) -> nat
    decreases qs.len(),
{
    if qs.len() == 0 {
        0
    } else {
        queued(qs.drop_last()) + qs.last().rows@.len()
    }
}

/// The rows in handed-out batches.
pub open spec fn batched<T>(bs: Seq<(usize, Vec<T>)>) -> nat
    decreases bs.len(),
{
    if bs.len() == 0 {
        0
    } else {
        batched(bs.drop_last()) + bs.last().1@.len()
    }
}

proof fn lemma_queued_update<T>(qs: Seq<LoggerQueue<T>>, i: int, q: LoggerQueue<T>)
    requires
        0 <= i < qs.len(),
    ensures
        queued(qs.update(i, q)) + qs[i].rows@.len() == queued(qs) + q.rows@.len(),
    decreases qs.len(),
{
    let u = qs.update(i, q);
    if i == qs.len() - 1 {
        assert(u.drop_last() =~= qs.drop_last());
    } else {
        assert(u.drop_last() =~= qs.drop_last().update(i, q));
        lemma_queued_update(qs.drop_last(), i, q);
    }
}

/// The rows in a handed-out batch, if any.
pub open spec fn out_rows<T>(out: Option<(usize, Vec<T>)>) -> nat {
    match out {
        Some((_, b)) => b@.len(),
        None => 0,
    }
}

/// Queue `i` is the first that takes rows.
pub open spec fn first_ready<T>(qs: Seq<LoggerQueue<T>>, i: int) -> bool {
    &&& 0 <= i < qs.len()
    &&& !qs[i].inserting
    &&& forall|k: int| 0 <= k < i ==> (#[trigger] qs[k]).inserting
}

/// The first ready queue of `old_q` took `row`: it now holds it, or it
/// handed out the batch that `row` filled as `out`; the others are as they
/// were.
pub open spec fn wrote_row<T>(
    old_q: Seq<LoggerQueue<T>>,
    new_q: Seq<LoggerQueue<T>>,
    row: T,
    out: Option<(usize, Vec<T>)>,
) -> bool {
    exists|i: int|
        first_ready(old_q, i) && new_q.len() == old_q.len() && (forall|k: int|
            0 <= k < old_q.len() && k != i ==> (#[trigger] new_q[k]) == old_q[k])
            && new_q[i].batch_capacity == old_q[i].batch_capacity && match out {
            Some((j, b)) => {
                &&& j == i
                &&& b@ == old_q[i].rows@.push(row)
                &&& new_q[i].rows@.len() == 0
                &&& new_q[i].inserting
            },
            None => {
                &&& new_q[i].rows@ == old_q[i].rows@.push(row)
                &&& !new_q[i].inserting
            },
        }
}

proof fn lemma_wrote_row_count<T>(
    old_q: Seq<LoggerQueue<T>>,
    new_q: Seq<LoggerQueue<T>>,
    row: T,
    out: Option<(usize, Vec<T>)>,
)
    requires
        wrote_row(old_q, new_q, row, out),
    ensures
        queued(new_q) + out_rows(out) == queued(old_q) + 1,
{
    let i = choose|i: int|
        first_ready(old_q, i) && new_q.len() == old_q.len() && (forall|k: int|
            0 <= k < old_q.len() && k != i ==> (#[trigger] new_q[k]) == old_q[k])
            && new_q[i].batch_capacity == old_q[i].batch_capacity && match out {
            Some((j, b)) => {
                &&& j == i
                &&& b@ == old_q[i].rows@.push(row)
                &&& new_q[i].rows@.len() == 0
                &&& new_q[i].inserting
            },
            None => {
                &&& new_q[i].rows@ == old_q[i].rows@.push(row)
                &&& !new_q[i].inserting
            },
        };
    assert(new_q =~= old_q.update(i, new_q[i]));
    lemma_queued_update(old_q, i, new_q[i]);
}

impl<T> Logger<T> {
    pub fn new(queue_count: usize, batch_capacity: usize) -> (r: Logger<T>)
        ensures
            r.queues@.len() == queue_count,
            forall|i: int| 0 <= i < queue_count ==> (#[trigger] r.queues@[i]).rows@.len() == 0
                && !r.queues@[i].inserting && r.queues@[i].batch_capacity == batch_capacity,
            r.overflow@.len() == 0,
    {
        let mut queues: Vec<LoggerQueue<T>> = Vec::new();
        let mut i: usize = 0;
        while i < queue_count
            invariant
                i <= queue_count,
                queues@.len() == i,
                forall|k: int| 0 <= k < i ==> (#[trigger] queues@[k]).rows@.len() == 0
                    && !queues@[k].inserting && queues@[k].batch_capacity == batch_capacity,
            decreases queue_count - i,
        {
            queues.push(LoggerQueue::new(batch_capacity));
            i += 1;
        }
        Logger { queues, overflow: Vec::new() }
    }

    pub fn is_dummy(&self) -> (r: bool)
        ensures
            r == (self.queues@.len() == 0),
    {
        self.queues.len() == 0
    }

    /// Whether a row can be taken now: always for the stand-in, else when
    /// some sub-queue is ready. When it cannot, the telemetry stage rejects
    /// the packet as busy.
    pub fn is_available(&self) -> (r: bool)
        ensures
            r == (self.queues@.len() == 0 || some_ready(self.queues@)),
    {
        if self.queues.len() == 0 {
            return true;
        }
        let mut i: usize = 0;
        while i < self.queues.len()
            invariant
                i <= self.queues@.len(),
                forall|k: int| 0 <= k < i ==> (#[trigger] self.queues@[k]).inserting,
            decreases self.queues.len() - i,
        {
            if self.queues[i].is_ready() {
                return true;
            }
            i += 1;
        }
        false
    }

    /// Offers a row to the sub-queues in order; the first ready one takes
    /// it. Gives the row back when none is ready, and otherwise the batch it
    /// filled, if any, with the index of its sub-queue.
    pub fn try_write(&mut self, row: T) -> (r: Result<Option<(usize, Vec<T>)>, T>)
        ensures
            final(self).overflow@ == old(self).overflow@,
            final(self).queues@.len() == old(self).queues@.len(),
            r is Err <==> !some_ready(old(self).queues@),
            r matches Err(x) ==> x == row && final(self).queues@ == old(self).queues@,
            r matches Ok(out) ==> wrote_row(old(self).queues@, final(self).queues@, row, out),
    {
        let mut i: usize = 0;
        while i < self.queues.len()
            invariant
                i <= self.queues@.len(),
                self.queues@ == old(self).queues@,
                self.overflow@ == old(self).overflow@,
                forall|k: int| 0 <= k < i ==> (#[trigger] self.queues@[k]).inserting,
            decreases self.queues.len() - i,
        {
            if self.queues[i].is_ready() {
                let ghost before = self.queues@;
                let mut q = self.queues.remove(i);
                let written = q.try_write(row);
                self.queues.insert(i, q);
                assert forall|k: int| 0 <= k < self.queues@.len() && k != i implies (#[trigger] self.queues@[k]) == before[k] by {}
                assert(first_ready(before, i as int));
                let out = match written {
                    Ok(Some(batch)) => Some((i, batch)),
                    Ok(None) => None,
                    Err(x) => {
                        assert(false);
                        return Err(x);
                    },
                };
                assert(wrote_row(before, self.queues@, row, out));
                return Ok(out);
            }
            i += 1;
        }
        Err(row)
    }

    /// Writes a row: into the first ready sub-queue if there is one, else
    /// into the overflow list. The stand-in drops it.
    pub fn write(&mut self, row: T) -> (r: Option<(usize, Vec<T>)>)
        ensures
            old(self).queues@.len() == 0 ==> r is None && final(self).overflow@ == old(self).overflow@
                && final(self).queues@ == old(self).queues@,
            old(self).queues@.len() > 0 && !some_ready(old(self).queues@) ==> r is None
                && final(self).overflow@ == old(self).overflow@.push(row) && final(self).queues@ == old(self).queues@,
            old(self).queues@.len() > 0 && some_ready(old(self).queues@) ==> final(self).overflow@ == old(self).overflow@
                && wrote_row(old(self).queues@, final(self).queues@, row, r),
            final(self).queues@.len() == old(self).queues@.len(),
    {
        if self.queues.len() == 0 {
            return None;
        }
        match self.try_write(row) {
            Ok(batch) => batch,
            Err(row) => {
                self.overflow.push(row);
                None
            },
        }
    }

    /// Moves rows from the end of the overflow list into the sub-queues
    /// until one is refused; hands out the batches filled on the way, each
    /// with the index of its sub-queue.
    pub fn clean(&mut self) -> (r: Vec<(usize, Vec<T>)>)
        ensures
            final(self).queues@.len() == old(self).queues@.len(),
            final(self).overflow@.len() <= old(self).overflow@.len(),
            final(self).overflow@ == old(self).overflow@.subrange(0, final(self).overflow@.len() as int),
            final(self).overflow@.len() > 0 ==> !some_ready(final(self).queues@),
            forall|k: int| 0 <= k < r@.len() ==> (#[trigger] r@[k]).0 < old(self).queues@.len(),
            queued(final(self).queues@) + batched(r@) == queued(old(self).queues@) + old(self).overflow@.len()
                - final(self).overflow@.len(),
    {
        let mut batches: Vec<(usize, Vec<T>)> = Vec::new();
        let n = self.queues.len();
        while self.overflow.len() > 0
            invariant
                self.queues@.len() == n,
                n == old(self).queues@.len(),
                self.overflow@.len() <= old(self).overflow@.len(),
                self.overflow@ == old(self).overflow@.subrange(0, self.overflow@.len() as int),
                forall|k: int| 0 <= k < batches@.len() ==> (#[trigger] batches@[k]).0 < n,
                queued(self.queues@) + batched(batches@) == queued(old(self).queues@) + old(self).overflow@.len()
                    - self.overflow@.len(),
            decreases self.overflow@.len(),
        {
            let ghost before = self.overflow@;
            let ghost qs0 = self.queues@;
            let ghost bs0 = batches@;
            let row = self.overflow.pop().unwrap();
            let ghost row_g = row;
            let written = self.try_write(row);
            proof {
                if written is Ok {
                    lemma_wrote_row_count(qs0, self.queues@, row_g, written->Ok_0);
                }
            }
            match written {
                Ok(Some(batch)) => {
                    batches.push(batch);
                    assert(batches@.drop_last() =~= bs0);
                },
                Ok(None) => {},
                Err(row) => {
                    self.overflow.push(row);
                    assert(self.overflow@ =~= before);
                    return batches;
                },
            }
            assert(self.overflow@ =~= old(self).overflow@.subrange(0, self.overflow@.len() as int));
        }
        batches
    }
}

/// What the sink records of a fulfilled packet.
#[derive(Clone, Debug, PartialEq, Eq)]
pub struct RowData {
    pub account: String,
    /// The destination without its connection tag.
    pub destination: Vec<u8>,
    pub amount: u64,
    /// Milliseconds since the Unix epoch.
    pub fulfill_time: i64,
}

} // verus!
