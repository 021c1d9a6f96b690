//! A run-length encoded line map: consecutive instruction bytes from the
//! same source line share one entry instead of repeating it.
//!
//! The abstraction is the flat sequence of lines, one per recorded byte
//! ([`expand`]): pushing appends one line to that sequence, and lookup by
//! offset reads it, whatever the run-length grouping underneath.

use vstd::prelude::*;

verus! {

/// One run: a source line and how many consecutive bytes carry it.
#[derive(Debug, PartialEq, Eq, Structural, Copy, Clone)]
pub struct ChunkLine {
    pub line_number: usize,
    pub counter: usize,
}

/// The flat line-per-byte sequence a run list stands for.
pub open spec fn expand(entries: Seq<ChunkLine>) -> Seq<usize>
    decreases entries.len(),
{
    if entries.len() == 0 {
        Seq::empty()
    } else {
        Seq::new(entries[0].counter as nat, |i: int| entries[0].line_number) + expand(
            entries.subrange(1, entries.len() as int),
        )
    }
}

/// Every run covers at least one byte.
pub open spec fn runs_wf(entries: Seq<ChunkLine>) -> bool {
    forall|k: int| 0 <= k < entries.len() ==> (#[trigger] entries[k]).counter >= 1
}

/// The last run never covers more bytes than the whole map records.
proof fn lemma_expand_last_counter(entries: Seq<ChunkLine>)
    requires
        entries.len() > 0,
    ensures
        entries.last().counter <= expand(entries).len(),
    decreases entries.len(),
{
    if entries.len() > 1 {
        let rest = entries.subrange(1, entries.len() as int);
        lemma_expand_last_counter(rest);
        assert(rest.last() == entries.last());
    }
}

/// Raising the last run's count by one appends its line once.
proof fn lemma_expand_bump_last(entries: Seq<ChunkLine>, bumped: Seq<ChunkLine>)
    requires
        entries.len() > 0,
        bumped =~= entries.update(
            entries.len() - 1,
            ChunkLine {
                line_number: entries.last().line_number,
                counter: (entries.last().counter + 1) as usize,
            },
        ),
        entries.last().counter < usize::MAX,
    ensures
        expand(bumped) =~= expand(entries) + seq![entries.last().line_number],
    decreases entries.len(),
{
    if entries.len() == 1 {
        let e = entries[0];
        assert(bumped.subrange(1, 1) =~= Seq::<ChunkLine>::empty());
        assert(entries.subrange(1, 1) =~= Seq::<ChunkLine>::empty());
        assert(expand(Seq::<ChunkLine>::empty()) == Seq::<usize>::empty());
        assert(expand(bumped) =~= Seq::new((e.counter + 1) as nat, |i: int| e.line_number));
        assert(expand(entries) =~= Seq::new(e.counter as nat, |i: int| e.line_number));
        assert(expand(bumped) =~= expand(entries) + seq![e.line_number]);
    } else {
        let rest = entries.subrange(1, entries.len() as int);
        let brest = bumped.subrange(1, bumped.len() as int);
        assert(brest =~= rest.update(
            rest.len() - 1,
            ChunkLine {
                line_number: rest.last().line_number,
                counter: (rest.last().counter + 1) as usize,
            },
        ));
        lemma_expand_bump_last(rest, brest);
        assert(bumped[0] == entries[0]);
        assert(expand(bumped) =~= Seq::new(entries[0].counter as nat, |i: int| entries[0].line_number)
            + expand(brest));
        assert(Seq::new(entries[0].counter as nat, |i: int| entries[0].line_number) + (expand(rest)
            + seq![entries.last().line_number]) =~= (Seq::new(
            entries[0].counter as nat,
            |i: int| entries[0].line_number,
        ) + expand(rest)) + seq![entries.last().line_number]);
    }
}

/// Opening a fresh run of one appends its line once.
proof fn lemma_expand_push(entries: Seq<ChunkLine>, line: usize)
    ensures
        expand(entries + seq![ChunkLine { line_number: line, counter: 1 }]) =~= expand(entries)
            + seq![line],
    decreases entries.len(),
{
    let new = entries + seq![ChunkLine { line_number: line, counter: 1 }];
    if entries.len() == 0 {
        assert(new.subrange(1, 1) =~= Seq::<ChunkLine>::empty());
        assert(expand(Seq::<ChunkLine>::empty()) == Seq::<usize>::empty());
        assert(expand(new) =~= Seq::new(1, |i: int| line));
        assert(expand(new) =~= expand(entries) + seq![line]);
    } else {
        let rest = entries.subrange(1, entries.len() as int);
        lemma_expand_push(rest, line);
        assert(new.subrange(1, new.len() as int) =~= rest + seq![ChunkLine {
            line_number: line,
            counter: 1,
        }]);
        assert(new[0] == entries[0]);
        assert(Seq::new(entries[0].counter as nat, |i: int| entries[0].line_number) + (expand(rest)
            + seq![line]) =~= (Seq::new(entries[0].counter as nat, |i: int| entries[0].line_number)
            + expand(rest)) + seq![line]);
    }
}

/// A line map grouped into runs.
pub struct ChunkLines {
    pub lines: Vec<ChunkLine>,
}

impl ChunkLines {
    /// The flat line-per-byte sequence this map records.
    pub open spec fn line_seq(self) -> Seq<usize> {
        expand(self.lines@)
    }

    pub open spec fn wf(self) -> bool {
        runs_wf(self.lines@)
    }

    pub fn new() -> (r: Self)
        ensures
            r.wf(),
            r.line_seq() == Seq::<usize>::empty(),
    {
        ChunkLines { lines: Vec::new() }
    }

    /// Records the line of one more instruction byte: extends the current
    /// run when the line repeats, else opens a fresh run.
    pub fn push_line(&mut self, line_number: usize)
        requires
            old(self).wf(),
            old(self).line_seq().len() < usize::MAX,
        ensures
            final(self).wf(),
            final(self).line_seq() =~= old(self).line_seq() + seq![line_number],
    {
        let n = self.lines.len();
        if n > 0 {
            let last = self.lines[n - 1];
            if last.line_number == line_number {
                proof {
                    lemma_expand_last_counter(self.lines@);
                }
                let bumped = ChunkLine { line_number, counter: last.counter + 1 };
                self.lines[n - 1] = bumped;
                proof {
                    lemma_expand_bump_last(old(self).lines@, self.lines@);
                    assert forall|k: int| 0 <= k < self.lines@.len() implies (#[trigger] self.lines@[
                    k]).counter >= 1 by {
                        if k < n - 1 {
                            assert(self.lines@[k] == old(self).lines@[k]);
                        }
                    }
                }
                return ;
            }
        }
        self.lines.push(ChunkLine { line_number, counter: 1 });
        proof {
            assert(self.lines@ =~= old(self).lines@ + seq![ChunkLine {
                line_number,
                counter: 1,
            }]);
            lemma_expand_push(old(self).lines@, line_number);
            assert forall|k: int| 0 <= k < self.lines@.len() implies (#[trigger] self.lines@[
            k]).counter >= 1 by {
                if k < self.lines@.len() - 1 {
                    assert(self.lines@[k] == old(self).lines@[k]);
                }
            }
        }
    }

    /// The line recorded for the byte at `offset`, or `None` past the end
    /// of the map.
    #[verifier::loop_isolation(false)]
    pub fn get_line(&self, offset: usize) -> (r: Option<usize>)
        requires
            self.wf(),
        ensures
            r == (if offset < self.line_seq().len() {
                Some(self.line_seq()[offset as int])
            } else {
                None::<usize>
            }),
    {
        let mut remain = offset;
        let mut k: usize = 0;
        proof {
            assert(self.lines@.skip(0) =~= self.lines@);
        }
        while k < self.lines.len()
            invariant
                k <= self.lines@.len(),
                remain <= offset,
                expand(self.lines@.skip(k as int)) =~= self.line_seq().skip(
                    offset - remain,
                ),
                offset - remain <= self.line_seq().len(),
            decreases self.lines@.len() - k,
        {
            let item = self.lines[k];
            proof {
                assert(self.lines@.skip(k as int)[0] == self.lines@[k as int]);
                assert(self.lines@.skip(k as int).subrange(
                    1,
                    self.lines@.skip(k as int).len() as int,
                ) =~= self.lines@.skip(k as int + 1));
                assert(expand(self.lines@.skip(k as int)) =~= Seq::new(
                    item.counter as nat,
                    |i: int| item.line_number,
                ) + expand(self.lines@.skip(k as int + 1)));
            }
            if remain < item.counter {
                proof {
                    let consumed = offset - remain;
                    assert(self.line_seq().skip(consumed)[remain as int] == self.line_seq()[
                    offset as int]);
                }
                return Some(item.line_number);
            }
            proof {
                let consumed = offset - remain;
                assert(self.line_seq().skip(consumed).skip(item.counter as int) =~= self.line_seq()
                    .skip(consumed + item.counter));
                assert(self.line_seq().skip(consumed).skip(item.counter as int) =~= expand(
                    self.lines@.skip(k as int + 1),
                ));
            }
            remain = remain - item.counter;
            k = k + 1;
        }
        proof {
            assert(self.lines@.skip(k as int) =~= Seq::<ChunkLine>::empty());
        }
        None
    }
}

} // verus!
