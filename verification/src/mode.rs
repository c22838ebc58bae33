//! Editing modes and the text cursor of the edit mode.

use std::collections::BTreeSet;
use vstd::std_specs::iter::IteratorSpec;
use vstd::prelude::*;

use crate::cues::{CuesView, SubtitleCues};

verus! {

broadcast use {vstd::std_specs::btree::group_btree_axioms, vstd::laws_cmp::group_laws_cmp};

/// The smaller of two numbers.
pub open spec fn min_nat(a: int, b: int) -> int {
    if a <= b { a } else { b }
}

/// `a - b`, or `0` where that is negative.
pub open spec fn saturating_sub_spec(a: int, b: int) -> int {
    if a >= b { a - b } else { 0 }
}

/// Whether `set` has a member below `bound`.
pub open spec fn has_member_below(set: Set<usize>, bound: usize) -> bool {
    exists|c: usize| set.contains(c) && c < bound
}

/// Whether `set` has a member above `bound`.
pub open spec fn has_member_above(set: Set<usize>, bound: usize) -> bool {
    exists|c: usize| set.contains(c) && c > bound
}

/// The position of the text cursor in edit mode: the cue it is on, the column
/// it stands at, and the column it returns to when moving between lines.
#[derive(Debug, Clone, Copy, PartialEq, Eq, Structural)]
pub struct Cursor {
    pub cue_index: usize,
    pub active_column: usize,
    pub target_column: usize,
}

impl Cursor {
    /// The cursor one line up, its column going back towards the target
    /// column on a line of `new_line_length` characters.
    pub open spec fn up_to(self, new_line_length: usize) -> Cursor {
        Cursor {
            cue_index: saturating_sub_spec(self.cue_index as int, 1) as usize,
            active_column: min_nat(self.target_column as int, new_line_length as int) as usize,
            target_column: self.target_column,
        }
    }

    /// The cursor one line down, stopping at the last of `line_count` lines,
    /// its column going back towards the target column on a line of
    /// `new_line_length` characters.
    pub open spec fn down_to(self, new_line_length: usize, line_count: usize) -> Cursor {
        Cursor {
            cue_index: min_nat(
                if self.cue_index < usize::MAX { self.cue_index + 1 } else { usize::MAX as int },
                saturating_sub_spec(line_count as int, 1),
            ) as usize,
            active_column: min_nat(self.target_column as int, new_line_length as int) as usize,
            target_column: self.target_column,
        }
    }

    /// A cursor at the end of a line of `line_length` characters.
    pub fn new(cue_index: usize, line_length: usize) -> (r: Self)
        ensures
            r.cue_index == cue_index,
            r.active_column == line_length,
            r.target_column == line_length,
    {
        Self { cue_index, active_column: line_length, target_column: line_length }
    }

    /// One column to the left, stopping at the first column.
    pub fn move_left(&mut self)
        ensures
            final(self).cue_index == old(self).cue_index,
            final(self).active_column == saturating_sub_spec(old(self).active_column as int, 1),
            final(self).target_column == final(self).active_column,
    {
        self.active_column = self.active_column.saturating_sub(1);
        self.target_column = self.active_column;
    }

    /// One column to the right, stopping at the end of the line.
    pub fn move_right(&mut self, line_length: usize)
        requires
            old(self).active_column < usize::MAX,
        ensures
            final(self).cue_index == old(self).cue_index,
            final(self).active_column == min_nat(old(self).active_column + 1, line_length as int),
            final(self).target_column == final(self).active_column,
    {
        self.active_column = if self.active_column + 1 <= line_length {
            self.active_column + 1
        } else {
            line_length
        };
        self.target_column = self.active_column;
    }

    /// Up one line; the column goes back towards the target column.
    pub fn move_up(&mut self, new_line_length: usize)
        ensures
            *final(self) == old(self).up_to(new_line_length),
            final(self).cue_index == saturating_sub_spec(old(self).cue_index as int, 1),
            final(self).active_column == min_nat(
                old(self).target_column as int,
                new_line_length as int,
            ),
            final(self).target_column == old(self).target_column,
    {
        self.cue_index = self.cue_index.saturating_sub(1);
        self.active_column = if self.target_column <= new_line_length {
            self.target_column
        } else {
            new_line_length
        };
    }

    /// Down one line, stopping at the last of `line_count` lines.
    pub fn move_down(&mut self, new_line_length: usize, line_count: usize)
        ensures
            *final(self) == old(self).down_to(new_line_length, line_count),
            final(self).cue_index == min_nat(
                if old(self).cue_index < usize::MAX {
                    old(self).cue_index + 1
                } else {
                    usize::MAX as int
                },
                saturating_sub_spec(line_count as int, 1),
            ),
            final(self).active_column == min_nat(
                old(self).target_column as int,
                new_line_length as int,
            ),
            final(self).target_column == old(self).target_column,
    {
        let next = self.cue_index.saturating_add(1);
        let last = line_count.saturating_sub(1);
        self.cue_index = if next <= last { next } else { last };
        self.active_column = if self.target_column <= new_line_length {
            self.target_column
        } else {
            new_line_length
        };
    }

    /// To the nearest selected cue above, if there is one.
    pub fn jump_up(&mut self, new_line_length: usize, selected_cues: &BTreeSet<usize>)
        ensures
            has_member_below(selected_cues@, old(self).cue_index) ==> {
                &&& selected_cues@.contains(final(self).cue_index)
                &&& final(self).cue_index < old(self).cue_index
                &&& forall|c: usize|
                    selected_cues@.contains(c) && c < old(self).cue_index ==> c
                        <= final(self).cue_index
            },
            !has_member_below(selected_cues@, old(self).cue_index) ==> final(self).cue_index
                == old(self).cue_index,
            final(self).active_column == min_nat(
                old(self).target_column as int,
                new_line_length as int,
            ),
            final(self).target_column == old(self).target_column,
    {
        let current = self.cue_index;
        let mut found: Option<usize> = None;
        let ghost full = vstd::std_specs::btree::spec_btree_keys_iter(selected_cues).remaining();
        proof {
            assert(full.unref().to_set() == selected_cues@);
        }
        for c in it: selected_cues.iter()
            invariant
                it.seq() == full,
                full.unref().to_set() == selected_cues@,
                match found {
                    Some(f) => {
                        &&& selected_cues@.contains(f)
                        &&& f < current
                        &&& forall|i: int|
                            0 <= i < it.index() && *it.seq()[i] < current ==> *it.seq()[i] <= f
                    },
                    None => forall|i: int| 0 <= i < it.index() ==> *it.seq()[i] >= current,
                },
        {
            if *c < current {
                let better = match found {
                    Some(f) => f < *c,
                    None => true,
                };
                if better {
                    found = Some(*c);
                }
                proof {
                    assert(it.seq().unref()[it.index()] == *c);
                    assert(it.seq().unref().contains(*c));
                }
            }
        }
        proof {
            assert forall|c: usize| selected_cues@.contains(c) implies exists|i: int|
                0 <= i < full.len() && *full[i] == c by {
                assert(full.unref().contains(c));
                let i = choose|i: int| 0 <= i < full.unref().len() && full.unref()[i] == c;
                assert(*full[i] == c);
            }
        }
        self.cue_index = match found {
            Some(f) => f,
            None => current,
        };
        self.active_column = if self.target_column <= new_line_length {
            self.target_column
        } else {
            new_line_length
        };
    }

    /// To the nearest selected cue below, if there is one.
    pub fn jump_down(&mut self, new_line_length: usize, selected_cues: &BTreeSet<usize>)
        ensures
            has_member_above(selected_cues@, old(self).cue_index) ==> {
                &&& selected_cues@.contains(final(self).cue_index)
                &&& final(self).cue_index > old(self).cue_index
                &&& forall|c: usize|
                    selected_cues@.contains(c) && c > old(self).cue_index ==> c
                        >= final(self).cue_index
            },
            !has_member_above(selected_cues@, old(self).cue_index) ==> final(self).cue_index
                == old(self).cue_index,
            final(self).active_column == min_nat(
                old(self).target_column as int,
                new_line_length as int,
            ),
            final(self).target_column == old(self).target_column,
    {
        let current = self.cue_index;
        let mut found: Option<usize> = None;
        let ghost full = vstd::std_specs::btree::spec_btree_keys_iter(selected_cues).remaining();
        proof {
            assert(full.unref().to_set() == selected_cues@);
        }
        for c in it: selected_cues.iter()
            invariant
                it.seq() == full,
                full.unref().to_set() == selected_cues@,
                match found {
                    Some(f) => {
                        &&& selected_cues@.contains(f)
                        &&& f > current
                        &&& forall|i: int|
                            0 <= i < it.index() && *it.seq()[i] > current ==> *it.seq()[i] >= f
                    },
                    None => forall|i: int| 0 <= i < it.index() ==> *it.seq()[i] <= current,
                },
        {
            if *c > current {
                let better = match found {
                    Some(f) => *c < f,
                    None => true,
                };
                if better {
                    found = Some(*c);
                }
                proof {
                    assert(it.seq().unref()[it.index()] == *c);
                    assert(it.seq().unref().contains(*c));
                }
            }
        }
        proof {
            assert forall|c: usize| selected_cues@.contains(c) implies exists|i: int|
                0 <= i < full.len() && *full[i] == c by {
                assert(full.unref().contains(c));
                let i = choose|i: int| 0 <= i < full.unref().len() && full.unref()[i] == c;
                assert(*full[i] == c);
            }
        }
        self.cue_index = match found {
            Some(f) => f,
            None => current,
        };
        self.active_column = if self.target_column <= new_line_length {
            self.target_column
        } else {
            new_line_length
        };
    }
}

/// A cue taking part in an edit, with its content from before the edit.
pub struct EditCue {
    pub index: usize,
    pub original_content: SubtitleCues,
}

/// What an edited cue holds, as plain values.
pub struct EditCueView {
    pub index: usize,
    pub original_content: CuesView,
}

impl DeepView for EditCue {
    type V = EditCueView;

    open spec fn deep_view(&self) -> EditCueView {
        EditCueView { index: self.index, original_content: self.original_content.deep_view() }
    }
}

impl Clone for EditCue {
    fn clone(&self) -> (r: Self)
        ensures
            r.deep_view() == self.deep_view(),
    {
        EditCue { index: self.index, original_content: self.original_content.clone() }
    }
}

/// The mode the editor is in.
pub enum AppMode {
    /// Following playback.
    Normal,
    /// A cue is current and some cues may be selected.
    Select { cue_index: usize, selected_cues: Vec<usize> },
    /// Text is edited at the cursor.
    Edit { cursor: Cursor, selected_cues: Vec<EditCue> },
}

/// The mode, as plain values.
pub enum ModeView {
    Normal,
    Select { cue_index: usize, selected_cues: Seq<usize> },
    Edit { cursor: Cursor, selected_cues: Seq<EditCueView> },
}

impl DeepView for AppMode {
    type V = ModeView;

    open spec fn deep_view(&self) -> ModeView {
        match self {
            AppMode::Normal => ModeView::Normal,
            AppMode::Select { cue_index, selected_cues } => ModeView::Select {
                cue_index: *cue_index,
                selected_cues: selected_cues@,
            },
            AppMode::Edit { cursor, selected_cues } => ModeView::Edit {
                cursor: *cursor,
                selected_cues: selected_cues.deep_view(),
            },
        }
    }
}

impl Clone for AppMode {
    fn clone(&self) -> (r: Self)
        ensures
            r.deep_view() == self.deep_view(),
    {
        match self {
            AppMode::Normal => AppMode::Normal,
            AppMode::Select { cue_index, selected_cues } => {
                let s = selected_cues.clone();
                assert(s@ =~= selected_cues@);
                AppMode::Select { cue_index: *cue_index, selected_cues: s }
            },
            AppMode::Edit { cursor, selected_cues } => AppMode::Edit {
                cursor: *cursor,
                selected_cues: crate::seqs::clone_vec(selected_cues),
            },
        }
    }
}

/// How the mode is shown: `normal`, `select cue: <index>`, or
/// `cursor index: <index>, active_column: <column>`.
pub open spec fn mode_text(m: ModeView) -> Seq<char> {
    match m {
        ModeView::Normal => "normal"@,
        ModeView::Select { cue_index, .. } => "select cue: "@ + crate::cues::decimal(cue_index as nat),
        ModeView::Edit { cursor, .. } => "cursor index: "@ + crate::cues::decimal(cursor.cue_index as nat)
            + ", active_column: "@ + crate::cues::decimal(cursor.active_column as nat),
    }
}

impl AppMode {
    /// How the mode is shown (see `mode_text`).
    pub fn describe(&self) -> (r: String)
        ensures
            r@ == mode_text(self.deep_view()),
    {
        match self {
            AppMode::Normal => String::from_str("normal"),
            AppMode::Select { cue_index, .. } => {
                let mut r = String::from_str("select cue: ");
                let n = crate::cues::usize_to_string(*cue_index);
                crate::cues::append_str(&mut r, n.as_str());
                r
            },
            AppMode::Edit { cursor, .. } => {
                let mut r = String::from_str("cursor index: ");
                let n = crate::cues::usize_to_string(cursor.cue_index);
                crate::cues::append_str(&mut r, n.as_str());
                crate::cues::append_str(&mut r, ", active_column: ");
                let c = crate::cues::usize_to_string(cursor.active_column);
                crate::cues::append_str(&mut r, c.as_str());
                r
            },
        }
    }
}

} // verus!
