//! The undo journal of a registry transaction: the first snapshot of every
//! file the transaction touches and the renames it made, and what has to be
//! done to undo them when it ends without being committed.

use vstd::prelude::*;
use crate::text::{chars_equal, chars_of};

verus! {

/// One step of undoing an uncommitted transaction.
#[derive(Debug)]
pub enum RestoreStep {
    /// Move `from` back to `to` (a rename undone).
    RenameBack { from: String, to: String },
    /// Put the bytes a file held before the transaction back.
    WriteBack { path: String, bytes: Vec<u8> },
    /// Delete a file the transaction created.
    Delete { path: String },
}

pub enum StepView {
    RenameBack { from: Seq<char>, to: Seq<char> },
    WriteBack { path: Seq<char>, bytes: Seq<u8> },
    Delete { path: Seq<char> },
}

pub open spec fn step_view(s: RestoreStep) -> StepView {
    match s {
        RestoreStep::RenameBack { from, to } => StepView::RenameBack { from: from@, to: to@ },
        RestoreStep::WriteBack { path, bytes } => StepView::WriteBack { path: path@, bytes: bytes@ },
        RestoreStep::Delete { path } => StepView::Delete { path: path@ },
    }
}

pub open spec fn step_views(v: Seq<RestoreStep>) -> Seq<StepView> {
    v.map_values(|s: RestoreStep| step_view(s))
}

pub struct JournalView {
    /// Each captured path with what it held first (`None`: it did not exist).
    pub originals: Seq<(Seq<char>, Option<Seq<u8>>)>,
    /// Each rename made, as (original, destination), in order.
    pub renames: Seq<(Seq<char>, Seq<char>)>,
    pub committed: bool,
}

pub open spec fn snapshot_view(o: (String, Option<Vec<u8>>)) -> (Seq<char>, Option<Seq<u8>>) {
    (
        o.0@,
        match o.1 {
            Some(b) => Some(b@),
            None => None,
        },
    )
}

/// The journal of one registry transaction.
pub struct Journal {
    originals: Vec<(String, Option<Vec<u8>>)>,
    renames: Vec<(String, String)>,
    committed: bool,
}

impl View for Journal {
    type V = JournalView;

    closed spec fn view(&self) -> JournalView {
        JournalView {
            originals: self.originals@.map_values(|o: (String, Option<Vec<u8>>)| snapshot_view(o)),
            renames: self.renames@.map_values(|r: (String, String)| (r.0@, r.1@)),
            committed: self.committed,
        }
    }
}

/// Whether `path` has a snapshot.
pub open spec fn captured(j: JournalView, path: Seq<char>) -> bool {
    exists|i: int| 0 <= i < j.originals.len() && #[trigger] j.originals[i].0 == path
}

/// Each path is snapshotted at most once.
pub open spec fn distinct_paths(j: JournalView) -> bool {
    forall|a: int, b: int| 0 <= a < b < j.originals.len() ==> #[trigger] j.originals[a].0 != #[trigger] j.originals[b].0
}

/// The step that puts one snapshot back.
pub open spec fn restore_of(o: (Seq<char>, Option<Seq<u8>>)) -> StepView {
    match o.1 {
        Some(b) => StepView::WriteBack { path: o.0, bytes: b },
        None => StepView::Delete { path: o.0 },
    }
}

/// Undoing an uncommitted transaction: the renames undone latest first, then
/// every snapshot put back. A committed transaction has nothing to undo.
pub open spec fn rollback_steps(j: JournalView) -> Seq<StepView> {
    if j.committed {
        Seq::empty()
    } else {
        Seq::new(
            j.renames.len(),
            |k: int| {
                let r = j.renames[j.renames.len() - 1 - k];
                StepView::RenameBack { from: r.1, to: r.0 }
            },
        ) + j.originals.map_values(|o: (Seq<char>, Option<Seq<u8>>)| restore_of(o))
    }
}

impl Journal {
    #[verifier::type_invariant]
    closed spec fn paths_distinct(self) -> bool {
        forall|a: int, b: int|
            0 <= a < b < self.originals@.len() ==> #[trigger] self.originals@[a].0@
                != #[trigger] self.originals@[b].0@
    }

    proof fn lemma_view_distinct(&self)
        requires
            self.paths_distinct(),
        ensures
            distinct_paths(self@),
    {
        assert forall|a: int, b: int| 0 <= a < b < self@.originals.len() implies #[trigger] self@.originals[a].0
            != #[trigger] self@.originals[b].0 by {
            assert(self@.originals[a].0 == self.originals@[a].0@);
            assert(self@.originals[b].0 == self.originals@[b].0@);
        }
    }

    pub fn new() -> (j: Self)
        ensures
            j@.originals.len() == 0,
            j@.renames.len() == 0,
            !j@.committed,
    {
        let j = Journal { originals: Vec::new(), renames: Vec::new(), committed: false };
        assert(j@.originals =~= Seq::<(Seq<char>, Option<Seq<u8>>)>::empty());
        j
    }

    /// Whether `path` already has a snapshot (a later one is not taken).
    pub fn is_captured(&self, path: &str) -> (b: bool)
        ensures
            b == captured(self@, path@),
    {
        let p = chars_of(path);
        let mut k: usize = 0;
        while k < self.originals.len()
            invariant
                0 <= k <= self.originals.len(),
                p@ == path@,
                forall|i: int| 0 <= i < k ==> #[trigger] self@.originals[i].0 != path@,
            decreases self.originals.len() - k,
        {
            if chars_equal(&chars_of(self.originals[k].0.as_str()), &p) {
                assert(self@.originals[k as int].0 == path@);
                return true;
            }
            assert(self@.originals[k as int].0 == self.originals@[k as int].0@);
            k = k + 1;
        }
        false
    }

    /// Keeps `original` as what `path` held before the transaction, unless a
    /// snapshot of it was taken already: the first snapshot wins.
    pub fn record_original(&mut self, path: String, original: Option<Vec<u8>>)
        ensures
            captured(old(self)@, path@) ==> final(self)@ == old(self)@,
            !captured(old(self)@, path@) ==> final(self)@.originals == old(self)@.originals.push(
                snapshot_view((path, original)),
            ) && final(self)@.renames == old(self)@.renames && final(self)@.committed
                == old(self)@.committed,
    {
        proof {
            use_type_invariant(&*self);
        }
        if self.is_captured(path.as_str()) {
            return;
        }
        let ghost before = self@;
        let ghost item = snapshot_view((path, original));
        let mut originals: Vec<(String, Option<Vec<u8>>)> = Vec::new();
        std::mem::swap(&mut originals, &mut self.originals);
        originals.push((path, original));
        proof {
            assert(originals@.map_values(|o: (String, Option<Vec<u8>>)| snapshot_view(o)) =~= before.originals.push(item));
            assert forall|a: int, b: int| 0 <= a < b < originals@.len() implies #[trigger] originals@[a].0@
                != #[trigger] originals@[b].0@ by {
                if b == originals@.len() - 1 {
                    assert(before.originals[a].0 == originals@[a].0@);
                    assert(originals@[b].0@ == item.0);
                } else {
                    assert(before.originals[a].0 == originals@[a].0@);
                    assert(before.originals[b].0 == originals@[b].0@);
                }
            }
        }
        self.originals = originals;
    }

    /// Notes that `original` was renamed to `destination`.
    pub fn record_rename(&mut self, original: String, destination: String)
        ensures
            final(self)@.renames == old(self)@.renames.push((original@, destination@)),
            final(self)@.originals == old(self)@.originals,
            final(self)@.committed == old(self)@.committed,
    {
        proof {
            use_type_invariant(&*self);
        }
        let ghost before = self@;
        let ghost item = (original@, destination@);
        let mut renames: Vec<(String, String)> = Vec::new();
        std::mem::swap(&mut renames, &mut self.renames);
        renames.push((original, destination));
        self.renames = renames;
        assert(self@.renames =~= before.renames.push(item));
    }

    /// Marks the transaction committed: nothing is undone any more.
    pub fn commit(&mut self)
        ensures
            final(self)@.committed,
            final(self)@.originals == old(self)@.originals,
            final(self)@.renames == old(self)@.renames,
    {
        proof {
            use_type_invariant(&*self);
        }
        self.committed = true;
    }

    /// What undoing the transaction takes.
    pub fn rollback_plan(&self) -> (r: Vec<RestoreStep>)
        ensures
            step_views(r@) == rollback_steps(self@),
            distinct_paths(self@),
    {
        proof {
            use_type_invariant(self);
            self.lemma_view_distinct();
        }
        let mut out: Vec<RestoreStep> = Vec::new();
        if self.committed {
            assert(step_views(out@) =~= rollback_steps(self@));
            return out;
        }
        let ghost j = self@;
        let n = self.renames.len();
        let mut k: usize = 0;
        while k < n
            invariant
                0 <= k <= n == self.renames.len(),
                j == self@,
                !j.committed,
                step_views(out@) =~= Seq::new(
                    k as nat,
                    |t: int| {
                        let r = j.renames[j.renames.len() - 1 - t];
                        StepView::RenameBack { from: r.1, to: r.0 }
                    },
                ),
            decreases n - k,
        {
            let r = &self.renames[n - 1 - k];
            let step = RestoreStep::RenameBack { from: r.1.clone(), to: r.0.clone() };
            let ghost before = step_views(out@);
            out.push(step);
            proof {
                assert(j.renames[n - 1 - k] == (r.0@, r.1@));
                assert(step_views(out@) =~= before.push(StepView::RenameBack { from: r.1@, to: r.0@ }));
            }
            k = k + 1;
        }
        let ghost head = step_views(out@);
        let mut i: usize = 0;
        while i < self.originals.len()
            invariant
                0 <= i <= self.originals.len(),
                j == self@,
                step_views(out@) =~= head + j.originals.take(i as int).map_values(
                    |o: (Seq<char>, Option<Seq<u8>>)| restore_of(o),
                ),
            decreases self.originals.len() - i,
        {
            let o = &self.originals[i];
            let step = match &o.1 {
                Some(bytes) => {
                    let copy = bytes.clone();
                    assert(copy@ =~= bytes@);
                    RestoreStep::WriteBack { path: o.0.clone(), bytes: copy }
                },
                None => RestoreStep::Delete { path: o.0.clone() },
            };
            let ghost before = step_views(out@);
            proof {
                assert(j.originals[i as int] == snapshot_view(self.originals@[i as int]));
            }
            out.push(step);
            proof {
                assert(step_view(step) == restore_of(j.originals[i as int]));
                assert(j.originals.take(i as int + 1) =~= j.originals.take(i as int).push(j.originals[i as int]));
                assert(step_views(out@) =~= before.push(restore_of(j.originals[i as int])));
            }
            i = i + 1;
        }
        assert(j.originals.take(j.originals.len() as int) =~= j.originals);
        out
    }
}

/// Undoing an uncommitted transaction puts every touched file back exactly
/// once, to what it held before its first change; a committed transaction
/// undoes nothing.
pub proof fn lemma_rollback_restores_each_file(j: JournalView, path: Seq<char>)
    requires
        distinct_paths(j),
    ensures
        j.committed ==> rollback_steps(j).len() == 0,
        !j.committed && captured(j, path) ==> exists|k: int|
            0 <= k < rollback_steps(j).len() && #[trigger] rollback_steps(j)[k] == restore_of(
                j.originals[k - j.renames.len()],
            ) && j.originals[k - j.renames.len()].0 == path,
        forall|a: int, b: int|
            j.renames.len() <= a < b < rollback_steps(j).len() ==> #[trigger] rollback_steps(j)[a]
                != #[trigger] rollback_steps(j)[b],
{
    if !j.committed {
        let steps = rollback_steps(j);
        let n = j.renames.len();
        if captured(j, path) {
            let i = choose|i: int| 0 <= i < j.originals.len() && #[trigger] j.originals[i].0 == path;
            assert(steps[n + i] == restore_of(j.originals[i]));
        }
        assert forall|a: int, b: int| n <= a < b < steps.len() implies #[trigger] steps[a] != #[trigger] steps[b] by {
            assert(steps[a] == restore_of(j.originals[a - n]));
            assert(steps[b] == restore_of(j.originals[b - n]));
            assert(j.originals[a - n].0 != j.originals[b - n].0);
        }
    }
}

} // verus!
