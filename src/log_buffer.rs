//! Append-only text buffers that keep only the most recent lines.

use crate::text::texts;
use vstd::prelude::*;

verus! {

/// The lines that a buffer bounded by `max` keeps of everything appended to
/// it: the last `min(max, s.len())` lines of `s`, in order.
pub open spec fn keep_last(s: Seq<Seq<char>>, max: nat) -> Seq<Seq<char>> {
    if s.len() <= max {
        s
    } else {
        s.subrange(s.len() - max, s.len() as int)
    }
}

/// The lines of `s` from position `index` on; nothing when `index` is past the end.
pub open spec fn lines_since(s: Seq<Seq<char>>, index: nat) -> Seq<Seq<char>> {
    if index < s.len() {
        s.subrange(index as int, s.len() as int)
    } else {
        Seq::empty()
    }
}

/// The contents of a buffer bounded by `max` that held `start` after each of
/// `lines` has been appended to it in order, as `LogBuffer::append` states.
pub open spec fn after_appends(start: Seq<Seq<char>>, lines: Seq<Seq<char>>, max: nat) -> Seq<
    Seq<char>,
>
    decreases lines.len(),
{
    if lines.len() == 0 {
        start
    } else {
        keep_last(after_appends(start, lines.drop_last(), max).push(lines.last()), max)
    }
}

/// Trimming twice to the same bound is trimming once.
proof fn lemma_keep_last_push(s: Seq<Seq<char>>, x: Seq<char>, max: nat)
    ensures
        keep_last(keep_last(s, max).push(x), max) == keep_last(s.push(x), max),
{
    let k = keep_last(s, max);
    assert(keep_last(k.push(x), max) =~= keep_last(s.push(x), max));
}

/// For every sequence of lines appended one by one to an empty buffer bounded
/// by `max`, the buffer then holds at most `max` lines, and they are the last
/// `min(max, lines.len())` of the appended lines, in order.
pub proof fn lemma_appends_keep_latest(lines: Seq<Seq<char>>, max: nat)
    ensures
        after_appends(Seq::empty(), lines, max) == keep_last(lines, max),
        after_appends(Seq::empty(), lines, max).len() <= max,
    decreases lines.len(),
{
    if lines.len() > 0 {
        let prefix = lines.drop_last();
        lemma_appends_keep_latest(prefix, max);
        lemma_keep_last_push(prefix, lines.last(), max);
        assert(prefix.push(lines.last()) =~= lines);
    }
}

/// An ordered sequence of log lines. Lines are never changed once appended;
/// eviction removes only from the front.
pub struct LogBuffer {
    lines: Vec<String>,
}

impl View for LogBuffer {
    type V = Seq<Seq<char>>;

    closed spec fn view(&self) -> Seq<Seq<char>> {
        texts(self.lines@)
    }
}

impl LogBuffer {
    /// An empty buffer.
    pub fn new() -> (r: LogBuffer)
        ensures
            r@ == Seq::<Seq<char>>::empty(),
    {
        let r = LogBuffer { lines: Vec::new() };
        assert(r@ =~= Seq::<Seq<char>>::empty());
        r
    }

    /// The number of lines held.
    pub fn len(&self) -> (r: usize)
        ensures
            r == self@.len(),
    {
        self.lines.len()
    }

    /// Appends `line`, then drops the oldest lines until at most `max_lines`
    /// remain.
    pub fn append(&mut self, line: String, max_lines: usize)
        ensures
            final(self)@ == keep_last(old(self)@.push(line@), max_lines as nat),
            final(self)@.len() <= max_lines,
    {
        let ghost full = old(self)@.push(line@);
        self.lines.push(line);
        assert(self@ =~= full);
        let ghost mut dropped: int = 0;
        while self.lines.len() > max_lines
            invariant
                0 <= dropped <= full.len(),
                self.lines@.len() == full.len() - dropped,
                texts(self.lines@) =~= full.subrange(dropped, full.len() as int),
                full.len() > max_lines ==> dropped <= full.len() - max_lines,
                full.len() <= max_lines ==> dropped == 0,
            decreases self.lines.len(),
        {
            let ghost before = self.lines@;
            self.lines.remove(0);
            proof {
                dropped = dropped + 1;
                assert forall|j: int| 0 <= j < self.lines@.len() implies #[trigger] texts(
                    self.lines@,
                )[j] == full[dropped + j] by {
                    assert(self.lines@[j] == before[j + 1]);
                    assert(texts(before)[j + 1] == full[dropped - 1 + j + 1]);
                }
            }
            assert(texts(self.lines@) =~= full.subrange(dropped, full.len() as int));
        }
        assert(self@ =~= keep_last(full, max_lines as nat));
    }

    /// A copy of the lines from position `index` to the end; an empty vector
    /// when `index` is at or past the end.
    pub fn read_since(&self, index: usize) -> (r: Vec<String>)
        ensures
            texts(r@) == lines_since(self@, index as nat),
    {
        let mut r: Vec<String> = Vec::new();
        let n = self.lines.len();
        let mut i: usize = index;
        if i >= n {
            assert(texts(r@) =~= lines_since(self@, index as nat));
            return r;
        }
        while i < n
            invariant
                index <= i <= n,
                n == self.lines@.len(),
                r@.len() == i - index,
                texts(r@) =~= texts(self.lines@).subrange(index as int, i as int),
            decreases n - i,
        {
            let line = self.lines[i].clone();
            let ghost prev = r@;
            r.push(line);
            proof {
                assert(r@ == prev.push(self.lines@[i as int]));
                assert(texts(r@)[i - index] == texts(self.lines@)[i as int]);
            }
            i = i + 1;
            assert(texts(r@) =~= texts(self.lines@).subrange(index as int, i as int));
        }
        r
    }
}

} // verus!
