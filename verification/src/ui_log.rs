//! Recent log records, for clients that connect later.

use std::collections::VecDeque;
use vstd::prelude::*;

verus! {

/// One log record.
#[derive(Debug)]
pub struct LogEvent {
    pub ts_ms: i64,
    pub level: String,
    pub target: String,
    pub message: String,
}

impl Clone for LogEvent {
    fn clone(&self) -> (out: Self)
        ensures
            out == *self,
    {
        LogEvent {
            ts_ms: self.ts_ms,
            level: self.level.clone(),
            target: self.target.clone(),
            message: self.message.clone(),
        }
    }
}

/// `kept` with `item` behind it; the oldest entry goes first once `cap` are
/// kept. Where none is to be kept, nothing is.
pub open spec fn evicting_push<T>(kept: Seq<T>, cap: nat, item: T) -> Seq<T> {
    if cap == 0 {
        kept
    } else if kept.len() >= cap {
        kept.drop_first().push(item)
    } else {
        kept.push(item)
    }
}

/// A buffer never holds more than its capacity, and where it has any, it ends
/// with the latest entry.
pub proof fn buffer_stays_bounded<T>(kept: Seq<T>, cap: nat, item: T)
    requires
        kept.len() <= cap,
    ensures
        evicting_push(kept, cap, item).len() <= cap,
        0 < cap ==> evicting_push(kept, cap, item).last() == item,
{
}

/// The latest records, oldest first.
#[derive(Debug)]
pub struct LogBuffer {
    pub kept: VecDeque<LogEvent>,
    pub cap: usize,
}

impl View for LogBuffer {
    type V = Seq<LogEvent>;

    open spec fn view(&self) -> Seq<LogEvent> {
        self.kept@
    }
}

impl LogBuffer {
    pub fn new(cap: usize) -> (out: Self)
        ensures
            out@ == Seq::<LogEvent>::empty(),
            out.cap == cap,
    {
        LogBuffer { kept: VecDeque::new(), cap }
    }

    pub fn push(&mut self, ev: LogEvent)
        ensures
            final(self).cap == old(self).cap,
            final(self)@ == evicting_push(old(self)@, old(self).cap as nat, ev),
    {
        if self.cap == 0 {
            return;
        }
        let ghost before = self.kept@;
        if self.kept.len() >= self.cap {
            let _ = self.kept.pop_front();
            assert(self.kept@ =~= before.drop_first());
        }
        self.kept.push_back(ev);
    }

    pub fn snapshot(&self) -> (out: Vec<LogEvent>)
        ensures
            out@ == self@,
    {
        let mut out: Vec<LogEvent> = Vec::new();
        let mut i: usize = 0;
        while i < self.kept.len()
            invariant
                i <= self@.len(),
                out@ == self@.take(i as int),
            decreases self@.len() - i,
        {
            out.push(self.kept[i].clone());
            i = i + 1;
            assert(out@ =~= self@.take(i as int));
        }
        assert(out@ =~= self@);
        out
    }
}

impl Default for LogBuffer {
    fn default() -> (out: Self)
        ensures
            out@ == Seq::<LogEvent>::empty(),
            out.cap == 0,
    {
        LogBuffer::new(0)
    }
}

/// A new record keeps the others in order, and only the oldest makes room, once
/// the capacity is reached.
pub proof fn older_records_keep_their_order<T>(kept: Seq<T>, cap: nat, item: T)
    requires
        kept.len() <= cap,
    ensures
        ({
            let after = evicting_push(kept, cap, item);
            &&& kept.len() < cap ==> after.len() == kept.len() + 1
            &&& kept.len() == cap ==> after.len() == cap
            &&& forall|back: int|
                1 <= back < after.len() ==> #[trigger] after[after.len() - 1 - back]
                    == kept[kept.len() - back]
        }),
{
}

} // verus!
