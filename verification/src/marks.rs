//! The blank rows a reader asked for.
use crate::output::LogId;
use vstd::prelude::*;

verus! {

/// The lines that a list of marks is about.
pub open spec fn marked_ids(marks: Seq<(LogId, u16)>) -> Seq<LogId> {
    Seq::new(marks.len(), |i: int| marks[i].0)
}

/// The map that a list of marks on distinct lines stands for.
pub open spec fn marks_map(marks: Seq<(LogId, u16)>) -> Map<LogId, u16> {
    Map::new(
        |id: LogId| marked_ids(marks).contains(id),
        |id: LogId| marks[marked_ids(marks).index_of(id)].1,
    )
}

/// How many blank rows follow a line.
pub open spec fn blank_rows(marks: Map<LogId, u16>, id: LogId) -> int {
    if marks.contains_key(id) {
        marks[id] as int
    } else {
        0
    }
}

/// Blank rows by the line they follow. They are not lines of the stream and
/// take no number from it.
pub struct BlankMarks {
    marks: Vec<(LogId, u16)>,
}

impl View for BlankMarks {
    type V = Map<LogId, u16>;

    closed spec fn view(&self) -> Map<LogId, u16> {
        marks_map(self.marks@)
    }
}

proof fn lemma_mark(marks: Seq<(LogId, u16)>, i: int)
    requires
        marked_ids(marks).no_duplicates(),
        0 <= i < marks.len(),
    ensures
        marks_map(marks).contains_key(marks[i].0),
        marks_map(marks)[marks[i].0] == marks[i].1,
{
    let ids = marked_ids(marks);
    assert(ids[i] == marks[i].0);
    let j = ids.index_of(marks[i].0);
    assert(ids[j] == ids[i]);
}

impl BlankMarks {
    #[verifier::type_invariant]
    spec fn distinct(self) -> bool {
        marked_ids(self.marks@).no_duplicates()
    }

    /// No marks.
    pub fn new() -> (r: BlankMarks)
        ensures
            r@ == Map::<LogId, u16>::empty(),
    {
        let r = BlankMarks { marks: Vec::new() };
        assert(marked_ids(r.marks@) =~= Seq::<LogId>::empty());
        assert(r@ =~= Map::<LogId, u16>::empty());
        r
    }

    fn find(&self, id: LogId) -> (r: Option<usize>)
        ensures
            match r {
                Some(at) => at < self.marks@.len() && self.marks@[at as int].0 == id,
                None => !marked_ids(self.marks@).contains(id),
            },
    {
        let mut i: usize = 0;
        while i < self.marks.len()
            invariant
                i <= self.marks@.len(),
                forall|j: int| 0 <= j < i ==> (#[trigger] self.marks@[j]).0 != id,
            decreases self.marks@.len() - i,
        {
            if self.marks[i].0.0 == id.0 {
                return Some(i);
            }
            i += 1;
        }
        None
    }

    /// How many blank rows follow a line.
    pub fn count(&self, id: LogId) -> (r: u16)
        ensures
            r as int == blank_rows(self@, id),
    {
        proof {
            use_type_invariant(self);
        }
        match self.find(id) {
            Some(at) => {
                proof {
                    lemma_mark(self.marks@, at as int);
                }
                self.marks[at].1
            },
            None => 0,
        }
    }

    /// The marked lines, in the order they were first marked.
    pub fn ids(&self) -> (r: Vec<LogId>)
        ensures
            r@.no_duplicates(),
            forall|id: LogId| r@.contains(id) <==> self@.contains_key(id),
    {
        proof {
            use_type_invariant(self);
        }
        let mut out: Vec<LogId> = Vec::new();
        let mut i: usize = 0;
        while i < self.marks.len()
            invariant
                i <= self.marks@.len(),
                out@ == marked_ids(self.marks@).take(i as int),
            decreases self.marks@.len() - i,
        {
            out.push(self.marks[i].0);
            assert(out@ =~= marked_ids(self.marks@).take(i + 1));
            i += 1;
        }
        assert(out@ =~= marked_ids(self.marks@));
        out
    }

    /// Whether no line is marked.
    pub fn is_empty(&self) -> (r: bool)
        ensures
            r == (self@ == Map::<LogId, u16>::empty()),
    {
        proof {
            if self.marks@.len() == 0 {
                assert(marked_ids(self.marks@) =~= Seq::<LogId>::empty());
                assert(self@ =~= Map::<LogId, u16>::empty());
            } else {
                use_type_invariant(self);
                lemma_mark(self.marks@, 0);
            }
        }
        self.marks.len() == 0
    }

    /// One more blank row after a line, up to the most a count can hold.
    pub fn mark(&mut self, id: LogId)
        ensures
            final(self)@ == old(self)@.insert(
                id,
                (if blank_rows(old(self)@, id) == u16::MAX {
                    u16::MAX as int
                } else {
                    blank_rows(old(self)@, id) + 1
                }) as u16,
            ),
    {
        proof {
            use_type_invariant(&*self);
        }
        let at = self.find(id);
        let mut marks: Vec<(LogId, u16)> = Vec::new();
        std::mem::swap(&mut marks, &mut self.marks);
        let ghost before = marks@;
        match at {
            Some(at) => {
                let more: u16 = marks[at].1.saturating_add(1);
                marks.set(at, (id, more));
                proof {
                    lemma_mark(before, at as int);
                    assert(marked_ids(marks@) =~= marked_ids(before));
                    assert(marked_ids(before)[at as int] == id);
                    assert forall|k: LogId| #[trigger]
                        marks_map(marks@).contains_key(k) implies marks_map(marks@)[k]
                        == marks_map(before).insert(id, more)[k] by {
                        let i = marked_ids(marks@).index_of(k);
                        assert(marked_ids(marks@)[i] == k);
                        lemma_mark(marks@, i);
                        lemma_mark(before, i);
                    }
                    assert(marks_map(marks@) =~= marks_map(before).insert(id, more));
                }
            },
            None => {
                marks.push((id, 1));
                proof {
                    assert(marked_ids(marks@) =~= marked_ids(before).push(id));
                    let n = before.len() as int;
                    assert forall|k: LogId|
                        marked_ids(marks@).contains(k) <==> marked_ids(before).contains(k) || k
                            == id by {
                        assert(marked_ids(marks@)[n] == id);
                        if marked_ids(before).contains(k) {
                            let i = marked_ids(before).index_of(k);
                            assert(marked_ids(marks@)[i] == k);
                        }
                        if marked_ids(marks@).contains(k) {
                            let i = marked_ids(marks@).index_of(k);
                            if i < n {
                                assert(marked_ids(before)[i] == k);
                            }
                        }
                    }
                    assert forall|k: LogId| #[trigger]
                        marks_map(marks@).contains_key(k) implies marks_map(marks@)[k]
                        == marks_map(before).insert(id, 1u16)[k] by {
                        let i = marked_ids(marks@).index_of(k);
                        assert(marked_ids(marks@)[i] == k);
                        lemma_mark(marks@, i);
                        if i < n {
                            assert(marked_ids(before)[i] == k);
                            lemma_mark(before, i);
                        }
                    }
                    assert(marks_map(marks@) =~= marks_map(before).insert(id, 1u16));
                }
            },
        }
        self.marks = marks;
    }

    /// Forgets the marks on lines before `oldest`, or all of them when there
    /// is no line left.
    pub fn prune(&mut self, oldest: Option<LogId>)
        ensures
            final(self)@ == (match oldest {
                Some(oldest) => old(self)@.restrict(Set::new(|id: LogId| id.0 >= oldest.0)),
                None => Map::<LogId, u16>::empty(),
            }),
    {
        proof {
            use_type_invariant(&*self);
        }
        let mut kept: Vec<(LogId, u16)> = Vec::new();
        match oldest {
            Some(oldest) => {
                let mut i: usize = 0;
                assert(marked_ids(kept@) =~= Seq::<LogId>::empty());
                while i < self.marks.len()
                    invariant
                        i <= self.marks@.len(),
                        marked_ids(self.marks@).no_duplicates(),
                        marked_ids(kept@).no_duplicates(),
                        forall|k: int| 0 <= k < kept@.len() ==> (#[trigger] kept@[k]).0.0 >= oldest.0,
                        forall|k: int|
                            0 <= k < kept@.len() ==> exists|j: int|
                                0 <= j < i && #[trigger] self.marks@[j] == #[trigger] kept@[k],
                        forall|j: int|
                            0 <= j < i && (#[trigger] self.marks@[j]).0.0 >= oldest.0
                                ==> kept@.contains(self.marks@[j]),
                    decreases self.marks@.len() - i,
                {
                    let mark = self.marks[i];
                    let ghost before = kept@;
                    if mark.0.0 >= oldest.0 {
                        kept.push(mark);
                        proof {
                            assert forall|k: int| 0 <= k < before.len() implies marked_ids(
                                before,
                            )[k] != mark.0 by {
                                let j = choose|j: int|
                                    0 <= j < i && #[trigger] self.marks@[j] == before[k];
                                assert(marked_ids(self.marks@)[j] != marked_ids(
                                    self.marks@,
                                )[i as int]);
                            }
                            assert(marked_ids(kept@) =~= marked_ids(before).push(mark.0));
                            assert(kept@[before.len() as int] == self.marks@[i as int]);
                            assert forall|k: int| 0 <= k < kept@.len() implies exists|j: int|
                                0 <= j < i + 1 && #[trigger] self.marks@[j]
                                    == #[trigger] kept@[k] by {
                                if k < before.len() {
                                    assert(kept@[k] == before[k]);
                                }
                            }
                            assert forall|j: int|
                                0 <= j < i + 1 && (#[trigger] self.marks@[j]).0.0
                                    >= oldest.0 implies kept@.contains(self.marks@[j]) by {
                                if j < i {
                                    let k = before.index_of(self.marks@[j]);
                                    assert(kept@[k] == self.marks@[j]);
                                }
                            }
                        }
                    }
                    i += 1;
                }
                proof {
                    let want = self@.restrict(Set::new(|id: LogId| id.0 >= oldest.0));
                    assert forall|id: LogId|
                        marks_map(kept@).contains_key(id) <==> want.contains_key(id) by {
                        if marks_map(kept@).contains_key(id) {
                            let k = marked_ids(kept@).index_of(id);
                            assert(kept@[k].0 == id);
                            let j = choose|j: int|
                                0 <= j < self.marks@.len() && #[trigger] self.marks@[j]
                                    == kept@[k];
                            lemma_mark(self.marks@, j);
                        }
                        if want.contains_key(id) {
                            let j = marked_ids(self.marks@).index_of(id);
                            assert(self.marks@[j].0 == id);
                            let k = kept@.index_of(self.marks@[j]);
                            assert(marked_ids(kept@)[k] == id);
                        }
                    }
                    assert forall|id: LogId| #[trigger]
                        marks_map(kept@).contains_key(id) implies marks_map(kept@)[id]
                        == want[id] by {
                        let k = marked_ids(kept@).index_of(id);
                        assert(kept@[k].0 == id);
                        lemma_mark(kept@, k);
                        let j = choose|j: int|
                            0 <= j < self.marks@.len() && #[trigger] self.marks@[j] == kept@[k];
                        lemma_mark(self.marks@, j);
                    }
                    assert(marks_map(kept@) =~= want);
                }
            },
            None => {
                assert(marked_ids(kept@) =~= Seq::<LogId>::empty());
                assert(marks_map(kept@) =~= Map::<LogId, u16>::empty());
            },
        }
        self.marks = kept;
    }
}

} // verus!
