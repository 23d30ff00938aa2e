//! Waiting for the other nodes of a network: which configurations are still
//! missing, and when to stop looking for them.

use vstd::prelude::*;

verus! {

/// What to do next while waiting.
#[derive(Clone, Copy, Debug, PartialEq, Eq, Structural)]
pub enum Step {
    /// Look which of the awaited items are there.
    Look,
    /// Pause, then ask again.
    Sleep,
    /// Everything awaited is there.
    Finish,
    /// The attempts are used up.
    GiveUp,
}

/// The labels that are still awaited and the number of looks that are left.
#[derive(Debug)]
pub struct Waiting {
    pending: Vec<String>,
    attempts_left: u16,
}

/// The contents of a list of labels.
pub open spec fn labels_view(labels: Seq<String>) -> Seq<Seq<char>> {
    Seq::new(labels.len(), |i: int| labels[i]@)
}

/// The labels of `labels`, each once and in the order of first occurrence,
/// without `own`.
pub open spec fn others(labels: Seq<Seq<char>>, own: Seq<char>) -> Seq<Seq<char>>
    decreases labels.len(),
{
    if labels.len() == 0 {
        Seq::empty()
    } else {
        let before = others(labels.drop_last(), own);
        if labels.last() == own || before.contains(labels.last()) {
            before
        } else {
            before.push(labels.last())
        }
    }
}

/// The labels of `pending` that are not marked as present, in their order.
/// A label without a mark counts as absent.
pub open spec fn still_missing(pending: Seq<Seq<char>>, present: Seq<bool>) -> Seq<Seq<char>>
    decreases pending.len(),
{
    if pending.len() == 0 {
        Seq::empty()
    } else {
        let before = still_missing(pending.drop_last(), present);
        let i = pending.len() - 1;
        if i < present.len() && present[i] {
            before
        } else {
            before.push(pending.last())
        }
    }
}

/// Tells whether `label` is among `list`.
fn is_listed(list: &Vec<String>, label: &String) -> (listed: bool)
    ensures
        listed == labels_view(list@).contains(label@),
{
    let mut i: usize = 0;
    while i < list.len()
        invariant
            i <= list.len(),
            forall|k: int| 0 <= k < i ==> labels_view(list@)[k] != label@,
        decreases list.len() - i,
    {
        if list[i] == *label {
            assert(labels_view(list@)[i as int] == label@);
            return true;
        }
        i = i + 1;
    }
    false
}

impl Waiting {
    /// The labels that are still awaited.
    pub closed spec fn pending(&self) -> Seq<Seq<char>> {
        labels_view(self.pending@)
    }

    /// The number of looks that are left.
    pub closed spec fn attempts_left(&self) -> nat {
        self.attempts_left as nat
    }

    /// Starts to wait for `pending`, with `attempts` looks at most.
    pub fn new(pending: Vec<String>, attempts: u16) -> (waiting: Waiting)
        ensures
            waiting.pending() == labels_view(pending@),
            waiting.attempts_left() == attempts,
    {
        Waiting { pending, attempts_left: attempts }
    }

    /// Starts to wait for the nodes with the labels `labels`, the node `own`
    /// excepted, with `attempts` looks at most.
    pub fn for_nodes(labels: &Vec<String>, own: &String, attempts: u16) -> (waiting: Waiting)
        ensures
            waiting.pending() == others(labels_view(labels@), own@),
            waiting.attempts_left() == attempts,
    {
        let mut pending: Vec<String> = Vec::new();
        let mut i: usize = 0;
        assert(labels_view(labels@).take(0) =~= Seq::empty());
        assert(labels_view(pending@) =~= Seq::empty());
        while i < labels.len()
            invariant
                i <= labels.len(),
                labels_view(pending@) == others(labels_view(labels@).take(i as int), own@),
            decreases labels.len() - i,
        {
            let ghost all = labels_view(labels@);
            assert(all.take(i as int + 1).drop_last() =~= all.take(i as int));
            assert(all.take(i as int + 1).last() == labels@[i as int]@);
            if !(labels[i] == *own) && !is_listed(&pending, &labels[i]) {
                let ghost before = labels_view(pending@);
                pending.push(labels[i].clone());
                assert(labels_view(pending@) =~= before.push(labels@[i as int]@));
            }
            i = i + 1;
        }
        assert(labels_view(labels@).take(i as int) =~= labels_view(labels@));
        Waiting { pending, attempts_left: attempts }
    }

    /// A copy of the labels that are still awaited.
    pub fn awaited(&self) -> (labels: Vec<String>)
        ensures
            labels_view(labels@) == self.pending(),
    {
        let mut labels: Vec<String> = Vec::new();
        let mut i: usize = 0;
        while i < self.pending.len()
            invariant
                i <= self.pending.len(),
                labels@.len() == i,
                forall|k: int| 0 <= k < i ==> (#[trigger] labels@[k])@ == self.pending@[k]@,
            decreases self.pending.len() - i,
        {
            labels.push(self.pending[i].clone());
            i = i + 1;
        }
        assert(labels_view(labels@) =~= self.pending());
        labels
    }

    /// Tells what to do now: to look, or to give up once no look is left.
    pub fn step(&self) -> (step: Step)
        ensures
            step == if self.attempts_left() == 0 {
                Step::GiveUp
            } else {
                Step::Look
            },
    {
        if self.attempts_left == 0 {
            Step::GiveUp
        } else {
            Step::Look
        }
    }

    /// Takes note of a look: `present` tells for each awaited label, in
    /// order, whether it is there now. Those that are there are no longer
    /// awaited. Where none is left, the waiting is over; otherwise one look
    /// is used up and a pause is due.
    pub fn looked(&mut self, present: &Vec<bool>) -> (step: Step)
        ensures
            final(self).pending() == still_missing(old(self).pending(), present@),
            step == if final(self).pending().len() == 0 {
                Step::Finish
            } else {
                Step::Sleep
            },
            final(self).attempts_left() == if step == Step::Sleep && old(self).attempts_left()
                > 0 {
                (old(self).attempts_left() - 1) as nat
            } else {
                old(self).attempts_left()
            },
    {
        let ghost awaited = self.pending();
        let mut missing: Vec<String> = Vec::new();
        let mut i: usize = 0;
        assert(awaited.take(0) =~= Seq::empty());
        assert(labels_view(missing@) =~= Seq::empty());
        while i < self.pending.len()
            invariant
                i <= self.pending.len(),
                awaited == labels_view(self.pending@),
                labels_view(missing@) == still_missing(awaited.take(i as int), present@),
            decreases self.pending.len() - i,
        {
            assert(awaited.take(i as int + 1).drop_last() =~= awaited.take(i as int));
            assert(awaited.take(i as int + 1).last() == self.pending@[i as int]@);
            if !(i < present.len() && present[i]) {
                let ghost before = labels_view(missing@);
                missing.push(self.pending[i].clone());
                assert(labels_view(missing@) =~= before.push(self.pending@[i as int]@));
            }
            i = i + 1;
        }
        assert(awaited.take(i as int) =~= awaited);
        self.pending = missing;
        if self.pending.len() == 0 {
            Step::Finish
        } else {
            if self.attempts_left > 0 {
                self.attempts_left = self.attempts_left - 1;
            }
            Step::Sleep
        }
    }
}

} // verus!
