use vstd::prelude::*;

verus! {

/// A value that can be copied with the same content, as the history does when it
/// hands back a saved document.
pub trait Snapshot: View + Sized {
    fn snapshot(&self) -> (r: Self)
        ensures
            r@ == self@;
}

impl Snapshot for String {
    fn snapshot(&self) -> (r: Self) {
        self.clone()
    }
}

/// One undoable edit: what it was called, and the document before and after it.
pub struct Step<S> {
    pub description: Seq<char>,
    pub before: S,
    pub after: S,
}

/// The abstract state of a `History`.
pub struct HistoryView<S> {
    pub undos: Seq<Step<S>>,
    pub redos: Seq<Step<S>>,
    pub max_depth: nat,
    pub pending: Option<(Seq<char>, S)>,
}

impl<S> HistoryView<S> {
    /// The stacks together never hold more than `max_depth` steps.
    pub open spec fn well_formed(self) -> bool {
        self.undos.len() + self.redos.len() <= self.max_depth
    }

    /// Record a new step: the redo stack empties and the oldest undo step is
    /// dropped when the undo stack would exceed `max_depth`.
    pub open spec fn after_push(self, description: Seq<char>, before: S, after: S) -> HistoryView<S> {
        let pushed = self.undos.push(Step { description, before, after });
        HistoryView {
            undos: if pushed.len() > self.max_depth { pushed.drop_first() } else { pushed },
            redos: Seq::empty(),
            ..self
        }
    }

    /// Move the newest undo step to the redo stack (no change when there is none).
    pub open spec fn after_undo(self) -> HistoryView<S> {
        if self.undos.len() == 0 {
            self
        } else {
            HistoryView {
                undos: self.undos.drop_last(),
                redos: self.redos.push(self.undos.last()),
                ..self
            }
        }
    }

    /// Move the newest redo step back to the undo stack (no change when there is none).
    pub open spec fn after_redo(self) -> HistoryView<S> {
        if self.redos.len() == 0 {
            self
        } else {
            HistoryView {
                undos: self.undos.push(self.redos.last()),
                redos: self.redos.drop_last(),
                ..self
            }
        }
    }

    /// A step with the same description as the newest undo step replaces that
    /// step's `after` state; any other step is pushed.
    pub open spec fn after_push_coalesced(self, description: Seq<char>, before: S, after: S) -> HistoryView<S> {
        if self.undos.len() > 0 && self.undos.last().description == description {
            let top = self.undos.last();
            HistoryView {
                undos: self.undos.update(
                    self.undos.len() - 1,
                    Step { description: top.description, before: top.before, after },
                ),
                ..self
            }
        } else {
            self.after_push(description, before, after)
        }
    }

    /// Finish a drag: the pending snapshot becomes the `before` of a pushed step.
    pub open spec fn after_end_drag(self, final_state: S) -> HistoryView<S> {
        match self.pending {
            Some((description, before)) => HistoryView { pending: None, ..self }.after_push(
                description,
                before,
                final_state,
            ),
            None => self,
        }
    }
}

struct UndoEntry<S> {
    description: String,
    sprite_before: S,
    sprite_after: S,
}

/// Undo/redo history of document snapshots.
pub struct History<S> {
    undo_stack: Vec<UndoEntry<S>>,
    redo_stack: Vec<UndoEntry<S>>,
    max_depth: usize,
    pending_drag: Option<(String, S)>,
}

impl<S> UndoEntry<S> {
    spec fn step(self) -> Step<S> {
        Step { description: self.description@, before: self.sprite_before, after: self.sprite_after }
    }
}

impl<S> View for History<S> {
    type V = HistoryView<S>;

    closed spec fn view(&self) -> HistoryView<S> {
        HistoryView {
            undos: self.undo_stack@.map_values(|e: UndoEntry<S>| e.step()),
            redos: self.redo_stack@.map_values(|e: UndoEntry<S>| e.step()),
            max_depth: self.max_depth as nat,
            pending: match self.pending_drag {
                Some((d, s)) => Some((d@, s)),
                None => None,
            },
        }
    }
}

impl<S> History<S> {
    #[verifier::type_invariant]
    spec fn bounded(self) -> bool {
        self.undo_stack.len() + self.redo_stack.len() <= self.max_depth
    }
}

impl<S: Snapshot> History<S> {
    /// An empty history that keeps at most `max_depth` steps.
    pub fn new(max_depth: usize) -> (h: Self)
        ensures
            h@.undos.len() == 0,
            h@.redos.len() == 0,
            h@.max_depth == max_depth,
            h@.pending is None,
    {
        let h = Self { undo_stack: Vec::new(), redo_stack: Vec::new(), max_depth, pending_drag: None };
        assert(h@.undos =~= Seq::<Step<S>>::empty());
        assert(h@.redos =~= Seq::<Step<S>>::empty());
        h
    }

    /// Record an edit; clears the redo stack.
    pub fn push(&mut self, description: String, before: S, after: S)
        ensures
            final(self)@ == old(self)@.after_push(description@, before, after),
            final(self)@.well_formed(),
    {
        proof { use_type_invariant(&*self); }
        let ghost old_view = self@;
        self.redo_stack = Vec::new();
        let mut undo: Vec<UndoEntry<S>> = Vec::new();
        std::mem::swap(&mut undo, &mut self.undo_stack);
        undo.push(UndoEntry { description, sprite_before: before, sprite_after: after });
        if undo.len() > self.max_depth {
            undo.remove(0);
        }
        std::mem::swap(&mut undo, &mut self.undo_stack);
        proof {
            let v = old_view.after_push(description@, before, after);
            assert(self@.undos =~= v.undos);
            assert(self@.redos =~= v.redos);
        }
    }

    /// Undo the newest step: `current` becomes a copy of its `before` state.
    /// Returns whether there was a step to undo.
    pub fn undo(&mut self, current_sprite: &mut S) -> (done: bool)
        ensures
            done == (old(self)@.undos.len() > 0),
            final(self)@ == old(self)@.after_undo(),
            done ==> final(current_sprite)@ == old(self)@.undos.last().before@,
            !done ==> *final(current_sprite) == *old(current_sprite),
    {
        proof { use_type_invariant(&*self); }
        let ghost old_view = self@;
        let mut undo: Vec<UndoEntry<S>> = Vec::new();
        std::mem::swap(&mut undo, &mut self.undo_stack);
        let mut redo: Vec<UndoEntry<S>> = Vec::new();
        std::mem::swap(&mut redo, &mut self.redo_stack);
        if let Some(entry) = undo.pop() {
            *current_sprite = entry.sprite_before.snapshot();
            redo.push(entry);
            std::mem::swap(&mut redo, &mut self.redo_stack);
            std::mem::swap(&mut undo, &mut self.undo_stack);
            proof {
                let v = old_view.after_undo();
                assert(self@.undos =~= v.undos);
                assert(self@.redos =~= v.redos);
            }
            true
        } else {
            std::mem::swap(&mut redo, &mut self.redo_stack);
            std::mem::swap(&mut undo, &mut self.undo_stack);
            assert(self@ == old_view);
            false
        }
    }

    /// Redo the newest undone step: `current` becomes a copy of its `after` state.
    /// Returns whether there was a step to redo.
    pub fn redo(&mut self, current_sprite: &mut S) -> (done: bool)
        ensures
            done == (old(self)@.redos.len() > 0),
            final(self)@ == old(self)@.after_redo(),
            done ==> final(current_sprite)@ == old(self)@.redos.last().after@,
            !done ==> *final(current_sprite) == *old(current_sprite),
    {
        proof { use_type_invariant(&*self); }
        let ghost old_view = self@;
        let mut undo: Vec<UndoEntry<S>> = Vec::new();
        std::mem::swap(&mut undo, &mut self.undo_stack);
        let mut redo: Vec<UndoEntry<S>> = Vec::new();
        std::mem::swap(&mut redo, &mut self.redo_stack);
        if let Some(entry) = redo.pop() {
            *current_sprite = entry.sprite_after.snapshot();
            undo.push(entry);
            std::mem::swap(&mut undo, &mut self.undo_stack);
            std::mem::swap(&mut redo, &mut self.redo_stack);
            proof {
                let v = old_view.after_redo();
                assert(self@.undos =~= v.undos);
                assert(self@.redos =~= v.redos);
            }
            true
        } else {
            std::mem::swap(&mut undo, &mut self.undo_stack);
            std::mem::swap(&mut redo, &mut self.redo_stack);
            assert(self@ == old_view);
            false
        }
    }

    pub fn can_undo(&self) -> (r: bool)
        ensures
            r == (self@.undos.len() > 0),
    {
        !self.undo_stack.is_empty()
    }

    pub fn can_redo(&self) -> (r: bool)
        ensures
            r == (self@.redos.len() > 0),
    {
        !self.redo_stack.is_empty()
    }

    /// Number of steps that can be undone.
    pub fn undo_len(&self) -> (n: usize)
        ensures
            n == self@.undos.len(),
    {
        self.undo_stack.len()
    }

    /// Coalescing push: an edit with the same description as the newest undo step
    /// only replaces that step's `after` state (merging slider drags into one step).
    pub fn push_coalesced(&mut self, description: String, before: S, after: S)
        ensures
            final(self)@ == old(self)@.after_push_coalesced(description@, before, after),
            final(self)@.well_formed(),
            // folding into the newest step keeps that step's `before` state
            old(self)@.undos.len() > 0 && old(self)@.undos.last().description == description@ ==> {
                &&& final(self)@.undos.len() == old(self)@.undos.len()
                &&& final(self)@.undos.last() == (Step { description: description@, before: old(self)@.undos.last().before, after })
                &&& final(self)@.undos.drop_last() == old(self)@.undos.drop_last()
                &&& final(self)@.redos == old(self)@.redos
            },
    {
        proof {
            if self@.undos.len() > 0 && self@.undos.last().description == description@ {
                lemma_coalesced_keeps_first_before(self@, description@, before, after);
            }
        }
        proof { use_type_invariant(&*self); }
        let ghost old_view = self@;
        let n = self.undo_stack.len();
        if n > 0 && self.undo_stack[n - 1].description == description {
            let mut undo: Vec<UndoEntry<S>> = Vec::new();
            std::mem::swap(&mut undo, &mut self.undo_stack);
            let top = undo.pop().unwrap();
            undo.push(UndoEntry { description: top.description, sprite_before: top.sprite_before, sprite_after: after });
            std::mem::swap(&mut undo, &mut self.undo_stack);
            proof {
                let v = old_view.after_push_coalesced(description@, before, after);
                assert(self@.undos =~= v.undos);
                assert(self@.redos =~= v.redos);
            }
            return;
        }
        self.push(description, before, after);
    }

    pub fn is_dragging(&self) -> (r: bool)
        ensures
            r == (self@.pending is Some),
    {
        self.pending_drag.is_some()
    }

    /// Start a drag: remember the snapshot taken before it.
    pub fn begin_drag(&mut self, description: String, snapshot: S)
        ensures
            final(self)@ == (HistoryView { pending: Some((description@, snapshot)), ..old(self)@ }),
    {
        proof { use_type_invariant(&*self); }
        self.pending_drag = Some((description, snapshot));
    }

    /// Finish a drag, recording one step from the snapshot to `final_state`.
    pub fn end_drag(&mut self, final_state: S)
        ensures
            final(self)@ == old(self)@.after_end_drag(final_state),
            final(self)@.well_formed(),
    {
        proof { use_type_invariant(&*self); }
        let mut pending: Option<(String, S)> = None;
        std::mem::swap(&mut pending, &mut self.pending_drag);
        if let Some((description, before)) = pending {
            self.push(description, before, final_state);
        }
    }

    /// Forget a pending drag without recording it.
    pub fn cancel_drag(&mut self)
        ensures
            final(self)@ == (HistoryView { pending: None, ..old(self)@ }),
    {
        proof { use_type_invariant(&*self); }
        self.pending_drag = None;
    }
}

/// What a step holds, its documents taken by their contents.
pub struct StepContent<V> {
    pub description: Seq<char>,
    pub before: V,
    pub after: V,
}

/// What a history holds, its documents taken by their contents.
pub struct HistoryContent<V> {
    pub undos: Seq<StepContent<V>>,
    pub redos: Seq<StepContent<V>>,
    pub max_depth: nat,
    pub pending: Option<(Seq<char>, V)>,
}

pub open spec fn step_content<S: View>(st: Step<S>) -> StepContent<S::V> {
    StepContent { description: st.description, before: st.before@, after: st.after@ }
}

impl<S: View> HistoryView<S> {
    pub open spec fn content(self) -> HistoryContent<S::V> {
        HistoryContent {
            undos: self.undos.map_values(|st: Step<S>| step_content(st)),
            redos: self.redos.map_values(|st: Step<S>| step_content(st)),
            max_depth: self.max_depth,
            pending: match self.pending {
                Some((d, s)) => Some((d, s@)),
                None => None,
            },
        }
    }
}

/// Recording the same step with documents of the same contents gives a history of
/// the same contents.
pub proof fn lemma_push_same_content<S: View>(v: HistoryView<S>, description: Seq<char>, b1: S, a1: S, b2: S, a2: S)
    requires
        b1@ == b2@,
        a1@ == a2@,
    ensures
        v.after_push(description, b1, a1).content() == v.after_push(description, b2, a2).content(),
{
    let p1 = v.after_push(description, b1, a1);
    let p2 = v.after_push(description, b2, a2);
    assert(p1.content().undos =~= p2.content().undos);
    assert(p1.content().redos =~= p2.content().redos);
}

/// Undo right after recording an edit brings back the state before it, and
/// leaves that edit ready to redo (when the history keeps at least one step).
pub proof fn lemma_undo_after_push<S>(v: HistoryView<S>, description: Seq<char>, before: S, after: S)
    requires
        v.max_depth > 0,
    ensures
        v.after_push(description, before, after).undos.len() > 0,
        v.after_push(description, before, after).undos.last() == (Step { description, before, after }),
        v.after_push(description, before, after).after_undo().redos
            == seq![Step { description, before, after }],
{
    let pushed = v.undos.push(Step { description, before, after });
    if pushed.len() > v.max_depth {
        assert(pushed.drop_first().last() == pushed.last());
    }
    assert(seq![Step { description, before, after }] =~= Seq::<Step<S>>::empty().push(Step { description, before, after }));
}

/// Redo undoes an undo, and undo undoes a redo.
pub proof fn lemma_undo_redo_inverse<S>(v: HistoryView<S>)
    ensures
        v.undos.len() > 0 ==> v.after_undo().after_redo() == v,
        v.redos.len() > 0 ==> v.after_redo().after_undo() == v,
{
    if v.undos.len() > 0 {
        assert(v.after_undo().after_redo().undos =~= v.undos);
        assert(v.after_undo().after_redo().redos =~= v.redos);
    }
    if v.redos.len() > 0 {
        assert(v.after_redo().after_undo().undos =~= v.undos);
        assert(v.after_redo().after_undo().redos =~= v.redos);
    }
}

/// Recording a new edit discards everything that could be redone.
pub proof fn lemma_push_clears_redo<S>(v: HistoryView<S>, description: Seq<char>, before: S, after: S)
    ensures
        v.after_push(description, before, after).redos.len() == 0,
        v.after_push(description, before, after).after_redo() == v.after_push(description, before, after),
{
}

/// Every operation keeps the history within its depth limit.
pub proof fn lemma_operations_keep_depth<S>(v: HistoryView<S>, description: Seq<char>, before: S, after: S)
    requires
        v.well_formed(),
    ensures
        v.after_push(description, before, after).well_formed(),
        v.after_push(description, before, after).undos.len() <= v.max_depth,
        v.after_undo().well_formed(),
        v.after_redo().well_formed(),
        v.after_push_coalesced(description, before, after).well_formed(),
        v.after_end_drag(after).well_formed(),
{
}


/// A coalesced push of an edit with the same description as the newest undo step
/// folds into that step: the step keeps its description and its `before` state (the
/// document before the whole run of edits) and takes the new `after` state; the
/// other steps and the redo stack stay as they are.
pub proof fn lemma_coalesced_keeps_first_before<S>(v: HistoryView<S>, description: Seq<char>, before: S, after: S)
    requires
        v.undos.len() > 0,
        v.undos.last().description == description,
    ensures
        v.after_push_coalesced(description, before, after).undos.len() == v.undos.len(),
        v.after_push_coalesced(description, before, after).undos.last()
            == (Step { description, before: v.undos.last().before, after }),
        v.after_push_coalesced(description, before, after).undos.drop_last() == v.undos.drop_last(),
        v.after_push_coalesced(description, before, after).redos == v.redos,
{
    let w = v.after_push_coalesced(description, before, after);
    assert(w.undos.drop_last() =~= v.undos.drop_last());
}

/// Recording an edit and then coalescing a second edit with the same description
/// leaves one step, from the state before the first edit to the state after the
/// second: undoing it goes back to where the run of edits started.
pub proof fn lemma_push_then_coalesce<S>(v: HistoryView<S>, description: Seq<char>, s0: S, s1: S, s2: S)
    requires
        v.max_depth > 0,
    ensures
        v.after_push(description, s0, s1).after_push_coalesced(description, s1, s2).undos.len()
            == v.after_push(description, s0, s1).undos.len(),
        v.after_push(description, s0, s1).after_push_coalesced(description, s1, s2).undos.last()
            == (Step { description, before: s0, after: s2 }),
        v.after_push(description, s0, s1).after_push_coalesced(description, s1, s2).after_undo().redos.last()
            == (Step { description, before: s0, after: s2 }),
{
    let p = v.after_push(description, s0, s1);
    lemma_undo_after_push(v, description, s0, s1);
    lemma_coalesced_keeps_first_before(p, description, s1, s2);
}

} // verus!
