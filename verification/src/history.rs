//! Undo/redo, as a self-contained abstraction `Editor::update` delegates to.

use vstd::prelude::*;

use crate::action::Action;

verus! {

/// Where an action being applied came from — decides which stack (if any) its inverse belongs on
/// once it's known.
#[derive(Debug, Clone, Copy, PartialEq, Eq, Structural)]
pub enum Origin {
    /// A brand new action, not a replay.
    Fresh,
    /// Replaying the top of the undo stack.
    Undo,
    /// Replaying the top of the redo stack.
    Redo,
}

/// Two stacks of inverse actions, plus the decision of what an incoming action actually means.
///
/// `Editor::update` has exactly one job left once this exists: apply one concrete action and
/// report its inverse (if any) — deciding *which* concrete action to apply (a fresh one, or
/// whatever `Undo`/`Redo` should replay) and *where the inverse goes* both live here instead.
#[derive(Debug, Clone)]
pub struct History {
    undo: Vec<Action>,
    redo: Vec<Action>,
}

/// A resolved action, ready to apply, and a receipt to settle once its inverse is known.
pub struct Resolved {
    /// The concrete action to actually apply.
    pub action: Action,
    /// Which stack, if any, the action came from.
    pub origin: Origin,
}

impl History {
    /// The inverses waiting to be undone, the next one last.
    pub closed spec fn undo_stack(&self) -> Seq<Action> {
        self.undo@
    }

    /// The inverses waiting to be redone, the next one last.
    pub closed spec fn redo_stack(&self) -> Seq<Action> {
        self.redo@
    }

    /// Turn a requested action into the concrete action to apply.
    ///
    /// For `Undo`/`Redo`, that's whatever is on top of the corresponding stack — `None` if it's
    /// empty, there's nothing to replay. For anything else, it's `action` itself, unchanged.
    pub fn resolve(&mut self, action: Action) -> (r: Option<Resolved>)
        ensures
            match action {
                Action::Undo => if old(self).undo_stack().len() == 0 {
                    r is None && final(self).undo_stack() == old(self).undo_stack()
                } else {
                    r matches Some(res) && res.action == old(self).undo_stack().last() && res.origin
                        == Origin::Undo && final(self).undo_stack() == old(self).undo_stack().drop_last()
                },
                Action::Redo => if old(self).redo_stack().len() == 0 {
                    r is None && final(self).redo_stack() == old(self).redo_stack()
                } else {
                    r matches Some(res) && res.action == old(self).redo_stack().last() && res.origin
                        == Origin::Redo && final(self).redo_stack() == old(self).redo_stack().drop_last()
                },
                _ => r == Some(Resolved { action, origin: Origin::Fresh }) && final(self).undo_stack()
                    == old(self).undo_stack(),
            },
            action != Action::Undo ==> final(self).undo_stack() == old(self).undo_stack(),
            action != Action::Redo ==> final(self).redo_stack() == old(self).redo_stack(),
    {
        match action {
            Action::Undo => match self.undo.pop() {
                Some(undone) => Some(Resolved { action: undone, origin: Origin::Undo }),
                None => None,
            },
            Action::Redo => match self.redo.pop() {
                Some(redone) => Some(Resolved { action: redone, origin: Origin::Redo }),
                None => None,
            },
            other => Some(Resolved { action: other, origin: Origin::Fresh }),
        }
    }

    /// Record the inverse of whatever was just applied, in whichever stack `resolved` came from.
    ///
    /// A fresh action's inverse goes on the undo stack (clearing redo — a fresh edit abandons
    /// whatever was available to redo); undoing something pushes what *that* undoes onto redo,
    /// and vice versa. Nothing to do if the action wasn't undoable (`inverse` is `None`).
    pub fn settle(&mut self, resolved: &Resolved, inverse: Option<Action>)
        ensures
            match inverse {
                None => final(self).undo_stack() == old(self).undo_stack() && final(self).redo_stack()
                    == old(self).redo_stack(),
                Some(x) => match resolved.origin {
                    Origin::Fresh => final(self).undo_stack() == old(self).undo_stack().push(x)
                        && final(self).redo_stack() == Seq::<Action>::empty(),
                    Origin::Undo => final(self).undo_stack() == old(self).undo_stack()
                        && final(self).redo_stack() == old(self).redo_stack().push(x),
                    Origin::Redo => final(self).undo_stack() == old(self).undo_stack().push(x)
                        && final(self).redo_stack() == old(self).redo_stack(),
                },
            },
    {
        match inverse {
            None => {},
            Some(inverse) => match resolved.origin {
                Origin::Fresh => {
                    self.redo.clear();
                    self.undo.push(inverse);
                },
                Origin::Undo => self.redo.push(inverse),
                Origin::Redo => self.undo.push(inverse),
            },
        }
    }
}

impl Default for History {
    /// Nothing to undo or redo.
    fn default() -> (h: History)
        ensures
            h.undo_stack() == Seq::<Action>::empty(),
            h.redo_stack() == Seq::<Action>::empty(),
    {
        History { undo: Vec::new(), redo: Vec::new() }
    }
}

} // verus!
