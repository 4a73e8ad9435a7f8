//! The capped FIFO line buffer that holds a rolling window of one task's
//! output, and the batch buffer that bounds the rate of output events.

use std::collections::VecDeque;
use vstd::prelude::*;

verus! {

/// The most lines an output buffer keeps; inserting into a full buffer
/// evicts the oldest line.
pub const MAX_OUTPUT_LINES: usize = 10000;

/// The line sequence `lines` joined with a newline between lines.
pub open spec fn join_lines(lines: Seq<Seq<char>>) -> Seq<char>
    decreases lines.len(),
{
    if lines.len() == 0 {
        Seq::empty()
    } else if lines.len() == 1 {
        lines[0]
    } else {
        lines[0] + seq!['\n'] + join_lines(lines.drop_first())
    }
}

/// Joining after appending a line appends the line after a newline.
pub proof fn lemma_join_lines_push(lines: Seq<Seq<char>>, x: Seq<char>)
    ensures
        join_lines(lines.push(x)) == if lines.len() == 0 {
            x
        } else {
            join_lines(lines) + seq!['\n'] + x
        },
    decreases lines.len(),
{
    let p = lines.push(x);
    if lines.len() == 0 {
        assert(p.len() == 1);
        assert(p[0] == x);
    } else if lines.len() == 1 {
        assert(p.len() == 2);
        assert(p.drop_first() =~= seq![x]);
        assert(join_lines(p.drop_first()) == x);
        assert(p[0] == lines[0]);
    } else {
        assert(p.drop_first() =~= lines.drop_first().push(x));
        lemma_join_lines_push(lines.drop_first(), x);
        assert(join_lines(p) == lines[0] + seq!['\n'] + (join_lines(lines.drop_first())
            + seq!['\n'] + x));
        assert(lines[0] + seq!['\n'] + (join_lines(lines.drop_first()) + seq!['\n'] + x) =~= (
        lines[0] + seq!['\n'] + join_lines(lines.drop_first())) + seq!['\n'] + x);
    }
}

/// A capped FIFO buffer of output lines: at most `MAX_OUTPUT_LINES` are
/// kept, and a line appended to a full buffer evicts the oldest one, so
/// the most recent window survives.
pub struct TaskOutput {
    lines: VecDeque<String>,
}

impl View for TaskOutput {
    type V = Seq<Seq<char>>;

    closed spec fn view(&self) -> Seq<Seq<char>> {
        self.lines@.map_values(|s: String| s@)
    }
}

impl TaskOutput {
    /// The buffer never holds more than `MAX_OUTPUT_LINES` lines.
    pub open spec fn wf(&self) -> bool {
        self@.len() <= MAX_OUTPUT_LINES
    }

    /// An empty buffer.
    pub fn new() -> (r: Self)
        ensures
            r@ == Seq::<Seq<char>>::empty(),
            r.wf(),
    {
        TaskOutput { lines: VecDeque::with_capacity(MAX_OUTPUT_LINES) }
    }

    /// The number of buffered lines.
    pub fn len(&self) -> (n: usize)
        ensures
            n == self@.len(),
    {
        self.lines.len()
    }

    /// Appends a line; a full buffer first drops its oldest line, so the
    /// buffer never exceeds `MAX_OUTPUT_LINES` lines.
    pub fn append(&mut self, line: String)
        requires
            old(self).wf(),
        ensures
            final(self).wf(),
            final(self)@ == if old(self)@.len() < MAX_OUTPUT_LINES {
                old(self)@.push(line@)
            } else {
                old(self)@.drop_first().push(line@)
            },
    {
        let ghost pre = self@;
        if self.lines.len() >= MAX_OUTPUT_LINES {
            let _ = self.lines.pop_front();
            proof {
                assert(self@ =~= pre.drop_first());
            }
        }
        let ghost mid = self@;
        self.lines.push_back(line);
        proof {
            assert(self@ =~= mid.push(line@));
        }
    }

    /// The buffered lines joined with newlines, oldest first.
    pub fn to_string(&self) -> (r: String)
        ensures
            r@ == join_lines(self@),
    {
        let n = self.lines.len();
        let mut r = String::new();
        let mut i: usize = 0;
        while i < n
            invariant
                i <= n,
                n == self@.len(),
                r@ == join_lines(self@.take(i as int)),
            decreases n - i,
        {
            if i > 0 {
                r.append("\n");
                proof {
                    reveal_strlit("\n");
                }
            }
            r.append(self.lines[i].as_str());
            proof {
                assert(self@.take(i + 1 as int) =~= self@.take(i as int).push(self@[i as int]));
                lemma_join_lines_push(self@.take(i as int), self@[i as int]);
                assert(self@[i as int] == self.lines@[i as int]@);
            }
            i = i + 1;
        }
        proof {
            assert(self@.take(n as int) =~= self@);
        }
        r
    }
}

/// Accumulates lines between periodic flushes; a flush hands the joined
/// batch out and empties the buffer, so batched events never reorder
/// lines within a stream.
pub struct OutputBatcher {
    pending: VecDeque<String>,
}

impl View for OutputBatcher {
    type V = Seq<Seq<char>>;

    closed spec fn view(&self) -> Seq<Seq<char>> {
        self.pending@.map_values(|s: String| s@)
    }
}

impl OutputBatcher {
    /// An empty batch buffer.
    pub fn new() -> (r: Self)
        ensures
            r@ == Seq::<Seq<char>>::empty(),
    {
        OutputBatcher { pending: VecDeque::new() }
    }

    /// Adds a line to the pending batch.
    pub fn push(&mut self, line: String)
        ensures
            final(self)@ == old(self)@.push(line@),
    {
        let ghost pre = self@;
        self.pending.push_back(line);
        proof {
            assert(self@ =~= pre.push(line@));
        }
    }

    /// Takes the pending batch as one newline-joined event, or `None` when
    /// nothing is pending; the buffer is empty afterwards.
    pub fn flush(&mut self) -> (r: Option<String>)
        ensures
            final(self)@ == Seq::<Seq<char>>::empty(),
            match r {
                Some(s) => old(self)@.len() > 0 && s@ == join_lines(old(self)@),
                None => old(self)@.len() == 0,
            },
    {
        if self.pending.len() == 0 {
            proof {
                assert(self@ =~= Seq::<Seq<char>>::empty());
            }
            return None;
        }
        let ghost pre = self@;
        let n = self.pending.len();
        let mut r = String::new();
        let mut i: usize = 0;
        while i < n
            invariant
                i <= n,
                n == self@.len(),
                self@ == pre,
                r@ == join_lines(self@.take(i as int)),
            decreases n - i,
        {
            if i > 0 {
                r.append("\n");
                proof {
                    reveal_strlit("\n");
                }
            }
            r.append(self.pending[i].as_str());
            proof {
                assert(self@.take(i + 1 as int) =~= self@.take(i as int).push(self@[i as int]));
                lemma_join_lines_push(self@.take(i as int), self@[i as int]);
                assert(self@[i as int] == self.pending@[i as int]@);
            }
            i = i + 1;
        }
        self.pending.clear();
        proof {
            assert(self@ =~= Seq::<Seq<char>>::empty());
            assert(pre.take(n as int) =~= pre);
        }
        Some(r)
    }
}

} // verus!
