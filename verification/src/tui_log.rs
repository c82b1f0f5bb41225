//! Recent log lines, for a terminal.

use std::collections::VecDeque;
use vstd::prelude::*;

verus! {

/// The latest lines, oldest first.
#[derive(Debug)]
pub struct LogBuffer {
    pub kept: VecDeque<String>,
    pub cap: usize,
}

impl View for LogBuffer {
    type V = Seq<String>;

    open spec fn view(&self) -> Seq<String> {
        self.kept@
    }
}

/// `kept` with `line` behind it; where `cap` lines are kept already, the oldest
/// makes room. The latest line stays whatever the capacity is.
pub open spec fn lines_after(kept: Seq<String>, cap: nat, line: String) -> Seq<String> {
    if kept.len() > 0 && kept.len() >= cap {
        kept.drop_first().push(line)
    } else {
        kept.push(line)
    }
}

/// A terminal log never holds more than its capacity, but for the latest line,
/// with which it always ends.
pub proof fn latest_line_stays(kept: Seq<String>, cap: nat, line: String)
    requires
        kept.len() <= cap || kept.len() <= 1,
    ensures
        lines_after(kept, cap, line).len() <= cap || lines_after(kept, cap, line).len() == 1,
        lines_after(kept, cap, line).last() == line,
{
}

impl LogBuffer {
    pub fn new(cap: usize) -> (out: Self)
        ensures
            out@ == Seq::<String>::empty(),
            out.cap == cap,
    {
        LogBuffer { kept: VecDeque::new(), cap }
    }

    pub fn push(&mut self, line: String)
        ensures
            final(self).cap == old(self).cap,
            final(self)@ == lines_after(old(self)@, old(self).cap as nat, line),
    {
        let ghost before = self.kept@;
        if self.kept.len() >= self.cap {
            let _ = self.kept.pop_front();
            assert(before.len() > 0 ==> self.kept@ =~= before.drop_first());
            assert(before.len() == 0 ==> self.kept@ =~= before);
        }
        self.kept.push_back(line);
    }

    pub fn lines(&self) -> (out: Vec<String>)
        ensures
            out@ == self@,
    {
        let mut out: Vec<String> = Vec::new();
        let mut i: usize = 0;
        while i < self.kept.len()
            invariant
                i <= self@.len(),
                out@ == self@.take(i as int),
            decreases self@.len() - i,
        {
            out.push(self.kept[i].clone());
            i = i + 1;
            assert(out@ =~= self@.take(i as int));
        }
        assert(out@ =~= self@);
        out
    }
}

impl Default for LogBuffer {
    fn default() -> (out: Self)
        ensures
            out@ == Seq::<String>::empty(),
            out.cap == 0,
    {
        LogBuffer::new(0)
    }
}

/// A new line keeps the others in order, and only the oldest makes room, once
/// the capacity is reached.
pub proof fn older_lines_keep_their_order(kept: Seq<String>, cap: nat, line: String)
    requires
        kept.len() <= cap,
        0 < cap,
    ensures
        ({
            let after = lines_after(kept, cap, line);
            &&& kept.len() < cap ==> after.len() == kept.len() + 1
            &&& kept.len() == cap ==> after.len() == cap
            &&& forall|back: int|
                1 <= back < after.len() ==> #[trigger] after[after.len() - 1 - back]
                    == kept[kept.len() - back]
        }),
{
}

} // verus!
