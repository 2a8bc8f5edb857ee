//! Edit commands and the bounded undo/redo history that records them.
use vstd::prelude::*;
use crate::state::ClipData;

verus! {

/// One reversible edit, as recorded in the history. Times are microseconds.
#[derive(Debug)]
pub enum EditCommand {
    AddClip { clip: ClipData },
    RemoveClip { clip: ClipData },
    MoveClip {
        clip_id: u64,
        old_start_time: i64,
        new_start_time: i64,
        old_track_idx: usize,
        new_track_idx: usize,
    },
    TrimClip {
        clip_id: u64,
        old_in_point: i64,
        old_out_point: i64,
        old_duration: i64,
        new_in_point: i64,
        new_out_point: i64,
        new_duration: i64,
    },
    SplitClip { original_clip: ClipData, new_clip: ClipData },
}

impl Clone for EditCommand {
    fn clone(&self) -> (r: Self)
        ensures
            r == *self,
    {
        match self {
            EditCommand::AddClip { clip } => EditCommand::AddClip { clip: clip.clone() },
            EditCommand::RemoveClip { clip } => EditCommand::RemoveClip { clip: clip.clone() },
            EditCommand::MoveClip { clip_id, old_start_time, new_start_time, old_track_idx, new_track_idx } =>
                EditCommand::MoveClip {
                    clip_id: *clip_id,
                    old_start_time: *old_start_time,
                    new_start_time: *new_start_time,
                    old_track_idx: *old_track_idx,
                    new_track_idx: *new_track_idx,
                },
            EditCommand::TrimClip {
                clip_id,
                old_in_point,
                old_out_point,
                old_duration,
                new_in_point,
                new_out_point,
                new_duration,
            } => EditCommand::TrimClip {
                clip_id: *clip_id,
                old_in_point: *old_in_point,
                old_out_point: *old_out_point,
                old_duration: *old_duration,
                new_in_point: *new_in_point,
                new_out_point: *new_out_point,
                new_duration: *new_duration,
            },
            EditCommand::SplitClip { original_clip, new_clip } => EditCommand::SplitClip {
                original_clip: original_clip.clone(),
                new_clip: new_clip.clone(),
            },
        }
    }
}

/// The abstract value of a history: the commands that can be undone (most
/// recent last), those that can be redone (most recently undone last), and
/// the most commands the undo side keeps.
pub struct UndoView {
    pub undo: Seq<EditCommand>,
    pub redo: Seq<EditCommand>,
    pub max_depth: usize,
}

impl UndoView {
    /// After recording a new command: it goes on top of the undo side (the
    /// oldest command is dropped when the side grows past `max_depth`), and
    /// the redo side is emptied.
    pub open spec fn pushed(self, cmd: EditCommand) -> UndoView {
        let u = self.undo.push(cmd);
        UndoView {
            undo: if u.len() > self.max_depth { u.drop_first() } else { u },
            redo: Seq::empty(),
            max_depth: self.max_depth,
        }
    }

    /// After an undo, and the command undone: the top of the undo side moves
    /// to the redo side.
    pub open spec fn undone(self) -> (UndoView, Option<EditCommand>) {
        if self.undo.len() == 0 {
            (self, None)
        } else {
            (UndoView { undo: self.undo.drop_last(), redo: self.redo.push(self.undo.last()), ..self }, Some(self.undo.last()))
        }
    }

    /// After a redo, and the command redone: the top of the redo side moves
    /// back to the undo side.
    pub open spec fn redone(self) -> (UndoView, Option<EditCommand>) {
        if self.redo.len() == 0 {
            (self, None)
        } else {
            (UndoView { undo: self.undo.push(self.redo.last()), redo: self.redo.drop_last(), ..self }, Some(self.redo.last()))
        }
    }

    /// Both sides together hold at most `max_depth` commands.
    pub open spec fn within_depth(self) -> bool {
        self.undo.len() + self.redo.len() <= self.max_depth
    }
}

/// The undo/redo history.
#[derive(Debug)]
pub struct UndoStack {
    undo_stack: Vec<EditCommand>,
    redo_stack: Vec<EditCommand>,
    max_depth: usize,
}

impl View for UndoStack {
    type V = UndoView;

    closed spec fn view(&self) -> UndoView {
        UndoView { undo: self.undo_stack@, redo: self.redo_stack@, max_depth: self.max_depth }
    }
}

impl UndoStack {
    /// An empty history keeping at most `max_depth` commands.
    pub fn new(max_depth: usize) -> (r: UndoStack)
        ensures
            r@ == (UndoView { undo: Seq::empty(), redo: Seq::empty(), max_depth }),
    {
        UndoStack { undo_stack: Vec::new(), redo_stack: Vec::new(), max_depth }
    }

    /// Records a new command.
    pub fn push(&mut self, cmd: EditCommand)
        ensures
            final(self)@ == old(self)@.pushed(cmd),
    {
        self.undo_stack.push(cmd);
        if self.undo_stack.len() > self.max_depth {
            self.undo_stack.remove(0);
            assert(self.undo_stack@ =~= old(self)@.undo.push(cmd).drop_first());
        }
        self.redo_stack.clear();
    }

    /// Takes back the most recent command, if any.
    pub fn undo(&mut self) -> (r: Option<EditCommand>)
        ensures
            (final(self)@, r) == old(self)@.undone(),
    {
        match self.undo_stack.pop() {
            None => None,
            Some(cmd) => {
                let result = cmd.clone();
                self.redo_stack.push(cmd);
                Some(result)
            },
        }
    }

    /// Re-applies the most recently undone command, if any.
    pub fn redo(&mut self) -> (r: Option<EditCommand>)
        ensures
            (final(self)@, r) == old(self)@.redone(),
    {
        match self.redo_stack.pop() {
            None => None,
            Some(cmd) => {
                let result = cmd.clone();
                self.undo_stack.push(cmd);
                Some(result)
            },
        }
    }

    pub fn can_undo(&self) -> (r: bool)
        ensures
            r == (self@.undo.len() > 0),
    {
        self.undo_stack.len() > 0
    }

    pub fn can_redo(&self) -> (r: bool)
        ensures
            r == (self@.redo.len() > 0),
    {
        self.redo_stack.len() > 0
    }
}

/// A command just recorded is the one an undo takes back (when the history
/// keeps at least one command).
pub proof fn lemma_push_then_undo(h: UndoView, cmd: EditCommand)
    requires
        h.max_depth >= 1,
    ensures
        h.pushed(cmd).undone().1 == Some(cmd),
{
}

/// A redo right after an undo gives back the same command and restores the
/// history.
pub proof fn lemma_undo_then_redo(h: UndoView)
    requires
        h.undone().1 is Some,
    ensures
        h.undone().0.redone() == (h, h.undone().1),
{
    assert(h.undo.drop_last().push(h.undo.last()) =~= h.undo);
    assert(h.redo.push(h.undo.last()).drop_last() =~= h.redo);
}

/// An undo right after a redo gives back the same command and restores the
/// history.
pub proof fn lemma_redo_then_undo(h: UndoView)
    requires
        h.redone().1 is Some,
    ensures
        h.redone().0.undone() == (h, h.redone().1),
{
    assert(h.redo.drop_last().push(h.redo.last()) =~= h.redo);
    assert(h.undo.push(h.redo.last()).drop_last() =~= h.undo);
}

/// Recording, undoing and redoing never let the history hold more than
/// `max_depth` commands.
pub proof fn lemma_within_depth(h: UndoView, cmd: EditCommand)
    requires
        h.within_depth(),
    ensures
        h.pushed(cmd).within_depth(),
        h.undone().0.within_depth(),
        h.redone().0.within_depth(),
{
}

} // verus!
