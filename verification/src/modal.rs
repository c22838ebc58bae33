//! The pop-up dialogs of the editor: choosing a translation, choosing a level
//! of alignment.

use vstd::prelude::*;

use crate::app::App;
use crate::cues::{CuesView, Language, SubtitleCues};
use crate::keyboard::{quit_state, KeyCode, KeyPress};
use crate::state::{AppStateView, SubtitleVariant, VariantView};
use vstd::string::StrSliceExecFns;

verus! {

/// What went wrong in a dialog.
#[derive(Debug, Clone, Copy, PartialEq, Eq, Structural)]
pub enum ModalError {
    InvalidVariant,
    TranslationFailed,
}

/// How finely a document is synchronised, from not at all to word by word.
#[derive(Debug, Clone, Copy, PartialEq, Eq, Structural)]
pub enum SyncLevel {
    Empty,
    Line,
    Cue,
    Word,
}

impl SyncLevel {
    /// The position of the level, coarsest first.
    pub open spec fn spec_rank(self) -> nat {
        match self {
            SyncLevel::Empty => 0,
            SyncLevel::Line => 1,
            SyncLevel::Cue => 2,
            SyncLevel::Word => 3,
        }
    }

    /// The position of the level, coarsest first.
    pub fn rank(&self) -> (r: u8)
        ensures
            r == self.spec_rank(),
    {
        match self {
            SyncLevel::Empty => 0,
            SyncLevel::Line => 1,
            SyncLevel::Cue => 2,
            SyncLevel::Word => 3,
        }
    }

    /// The next finer level, the finest followed by the coarsest.
    pub fn next_cyclic(&self) -> (r: SyncLevel)
        ensures
            r.spec_rank() == (self.spec_rank() + 1) % 4,
    {
        match self {
            SyncLevel::Empty => SyncLevel::Line,
            SyncLevel::Line => SyncLevel::Cue,
            SyncLevel::Cue => SyncLevel::Word,
            SyncLevel::Word => SyncLevel::Empty,
        }
    }

    /// The next coarser level, the coarsest followed by the finest.
    pub fn previous_cyclic(&self) -> (r: SyncLevel)
        ensures
            r.spec_rank() == (self.spec_rank() + 3) % 4,
    {
        match self {
            SyncLevel::Empty => SyncLevel::Word,
            SyncLevel::Line => SyncLevel::Empty,
            SyncLevel::Cue => SyncLevel::Line,
            SyncLevel::Word => SyncLevel::Cue,
        }
    }
}

/// A dialog.
pub enum Modal {
    /// Choosing the variant to show, or the language to translate to.
    Translate {
        input: String,
        input_variant: Option<SubtitleVariant>,
        new_variant: Option<SubtitleVariant>,
        error: Option<ModalError>,
    },
    /// Choosing the level of alignment.
    Alignment { new_alignment: SyncLevel, error: Option<ModalError> },
}

/// A dialog, as plain values.
pub enum ModalView {
    Translate {
        input: Seq<char>,
        input_variant: Option<VariantView>,
        new_variant: Option<VariantView>,
        error: Option<ModalError>,
    },
    Alignment { new_alignment: SyncLevel, error: Option<ModalError> },
}

impl DeepView for Modal {
    type V = ModalView;

    open spec fn deep_view(&self) -> ModalView {
        match self {
            Modal::Translate { input, input_variant, new_variant, error } => ModalView::Translate {
                input: input@,
                input_variant: input_variant.deep_view(),
                new_variant: new_variant.deep_view(),
                error: *error,
            },
            Modal::Alignment { new_alignment, error } => ModalView::Alignment {
                new_alignment: *new_alignment,
                error: *error,
            },
        }
    }
}

/// The level of synchronisation of cues.
pub open spec fn level_of(c: CuesView) -> SyncLevel {
    match c {
        CuesView::Word(_) => SyncLevel::Word,
        CuesView::Cue(_) => SyncLevel::Cue,
        CuesView::Line(_) => SyncLevel::Line,
        CuesView::Empty => SyncLevel::Empty,
    }
}

impl SubtitleCues {
    /// The level of synchronisation of the cues.
    pub fn sync_level(&self) -> (r: SyncLevel)
        ensures
            r == level_of(self.deep_view()),
    {
        match self {
            SubtitleCues::Word(_) => SyncLevel::Word,
            SubtitleCues::Cue(_) => SyncLevel::Cue,
            SubtitleCues::Line(_) => SyncLevel::Line,
            SubtitleCues::Empty => SyncLevel::Empty,
        }
    }
}

/// `c` is the lower-case ASCII letter `w`, or its upper case.
pub open spec fn same_letter(c: char, w: char) -> bool {
    c == w || (c as u32) + 32 == (w as u32)
}

/// The text reads "original", in any case.
pub open spec fn is_original_word(s: Seq<char>) -> bool {
    &&& s.len() == 8
    &&& forall|i: int| 0 <= i < 8 ==> same_letter(#[trigger] s[i], seq!['o', 'r', 'i', 'g', 'i', 'n', 'a', 'l'][i])
}

/// The text is a language code: two or three ASCII letters.
pub open spec fn is_language_code(s: Seq<char>) -> bool {
    &&& 2 <= s.len() <= 3
    &&& forall|i: int| 0 <= i < s.len() ==> (('a' <= #[trigger] s[i] && s[i] <= 'z') || ('A' <= s[i] && s[i] <= 'Z'))
}

/// The variant a typed text names: the original, or the translation into
/// the language it is the code of.
pub open spec fn parsed_variant(s: Seq<char>) -> Option<VariantView> {
    if is_original_word(s) {
        Some(VariantView::Original)
    } else if is_language_code(s) {
        Some(VariantView::Translated(s))
    } else {
        None
    }
}

/// The variant `input` names (see `parsed_variant`).
pub fn parse_variant(input: &String) -> (r: Option<SubtitleVariant>)
    ensures
        r.deep_view() == parsed_variant(input@),
{
    let t = input.as_str();
    let n = t.unicode_len();
    if n == 8 {
        let word = ['o', 'r', 'i', 'g', 'i', 'n', 'a', 'l'];
        let mut i: usize = 0;
        let mut same = true;
        while i < 8
            invariant
                n == 8,
                n == t@.len(),
                t@ == input@,
                i <= 8,
                word@ == seq!['o', 'r', 'i', 'g', 'i', 'n', 'a', 'l'],
                same == forall|k: int| 0 <= k < i ==> same_letter(#[trigger] t@[k], seq!['o', 'r', 'i', 'g', 'i', 'n', 'a', 'l'][k]),
            decreases 8 - i,
        {
            let c = t.get_char(i);
            let w = word[i];
            same = same && (c == w || (c as u32) + 32 == (w as u32));
            i = i + 1;
        }
        if same {
            return Some(SubtitleVariant::Original);
        }
        assert(!is_original_word(input@));
        return None;
    }
    assert(!is_original_word(input@));
    if n < 2 || n > 3 {
        return None;
    }
    let mut i: usize = 0;
    while i < n
        invariant
            t@ == input@,
            n == t@.len(),
            i <= n,
            forall|k: int| 0 <= k < i ==> (('a' <= #[trigger] t@[k] && t@[k] <= 'z') || ('A' <= t@[k] && t@[k] <= 'Z')),
        decreases n - i,
    {
        let c = t.get_char(i);
        if !(('a' <= c && c <= 'z') || ('A' <= c && c <= 'Z')) {
            return None;
        }
        i = i + 1;
    }
    Some(SubtitleVariant::Translated(Language { code: input.clone() }))
}

/// What the front end does after a key in a dialog.
pub enum ModalAction {
    Nothing,
    /// Translate the active document into this language.
    StartTranslation(Language),
    /// Bring the active document down to this level of synchronisation.
    Downgrade(SyncLevel),
    /// Align the active document to this level of synchronisation.
    StartAlignment(SyncLevel),
}

/// What the front end is asked to do, as plain values.
pub enum ModalActionView {
    Nothing,
    StartTranslation(Seq<char>),
    Downgrade(SyncLevel),
    StartAlignment(SyncLevel),
}

impl DeepView for ModalAction {
    type V = ModalActionView;

    open spec fn deep_view(&self) -> ModalActionView {
        match self {
            ModalAction::Nothing => ModalActionView::Nothing,
            ModalAction::StartTranslation(l) => ModalActionView::StartTranslation(l.code@),
            ModalAction::Downgrade(l) => ModalActionView::Downgrade(*l),
            ModalAction::StartAlignment(l) => ModalActionView::StartAlignment(*l),
        }
    }
}

impl AppStateView {
    /// The same state with another dialog (or none).
    pub open spec fn with_modal(self, modal: Option<ModalView>) -> AppStateView {
        AppStateView { modal, ..self }
    }

    /// The same state showing the document of variant `v`.
    pub open spec fn with_active(self, v: VariantView) -> AppStateView {
        AppStateView { documents: crate::state::DocumentsView { active: Some(v), ..self.documents }, ..self }
    }

    /// The level of the active document (none without one).
    pub open spec fn active_level(self) -> SyncLevel {
        match self.active_cues() {
            Some(c) => level_of(c),
            None => SyncLevel::Empty,
        }
    }

    /// The state once a key is pressed in the dialog, and what the front end
    /// is asked to do.
    pub open spec fn after_modal_key(self, key: KeyPress) -> (AppStateView, ModalActionView) {
        match self.modal {
            None => (self, ModalActionView::Nothing),
            Some(ModalView::Translate { input, input_variant, new_variant, error }) => match key.code {
                KeyCode::Char(ch) => if key.ctrl && ch == 'c' {
                    (quit_state(self), ModalActionView::Nothing)
                } else {
                    let i2 = input.push(ch);
                    (self.with_modal(Some(ModalView::Translate { input: i2, input_variant: parsed_variant(i2), new_variant, error })), ModalActionView::Nothing)
                },
                KeyCode::Backspace => {
                    let i2 = if input.len() > 0 { input.drop_last() } else { input };
                    (self.with_modal(Some(ModalView::Translate { input: i2, input_variant: parsed_variant(i2), new_variant, error })), ModalActionView::Nothing)
                },
                KeyCode::Esc => (self.with_modal(None), ModalActionView::Nothing),
                KeyCode::Tab => (
                    self.with_modal(Some(ModalView::Alignment { new_alignment: self.active_level(), error: None })),
                    ModalActionView::Nothing,
                ),
                KeyCode::Enter => match input_variant {
                    Some(v) => (
                        self.with_modal(Some(ModalView::Translate { input: Seq::empty(), input_variant: None, new_variant: Some(v), error })),
                        ModalActionView::Nothing,
                    ),
                    None => match new_variant {
                        None => (self, ModalActionView::Nothing),
                        Some(v) => if self.documents.contains(v) {
                            (self.with_active(v).with_modal(None), ModalActionView::Nothing)
                        } else {
                            match v {
                                VariantView::Original => (
                                    self.with_modal(Some(ModalView::Translate {
                                        input,
                                        input_variant,
                                        new_variant: Some(v),
                                        error: Some(ModalError::InvalidVariant),
                                    })),
                                    ModalActionView::Nothing,
                                ),
                                VariantView::Translated(l) => (self, ModalActionView::StartTranslation(l)),
                            }
                        },
                    },
                },
                _ => (self, ModalActionView::Nothing),
            },
            Some(ModalView::Alignment { new_alignment, error }) => match key.code {
                KeyCode::Char(ch) => if key.ctrl && ch == 'c' {
                    (quit_state(self), ModalActionView::Nothing)
                } else {
                    (self, ModalActionView::Nothing)
                },
                KeyCode::Esc => (self.with_modal(None), ModalActionView::Nothing),
                KeyCode::Tab => (
                    self.with_modal(Some(ModalView::Translate { input: Seq::empty(), input_variant: None, new_variant: None, error: None })),
                    ModalActionView::Nothing,
                ),
                KeyCode::Up => (
                    self.with_modal(Some(ModalView::Alignment { new_alignment: next_level(new_alignment), error: None })),
                    ModalActionView::Nothing,
                ),
                KeyCode::Down => (
                    self.with_modal(Some(ModalView::Alignment { new_alignment: previous_level(new_alignment), error: None })),
                    ModalActionView::Nothing,
                ),
                KeyCode::Enter => if self.documents.active is None {
                    (self, ModalActionView::Nothing)
                } else if new_alignment.spec_rank() <= self.active_level().spec_rank() {
                    (self.with_modal(None), ModalActionView::Downgrade(new_alignment))
                } else {
                    (self, ModalActionView::StartAlignment(new_alignment))
                },
                _ => (self, ModalActionView::Nothing),
            },
        }
    }
}

/// The next finer level, the finest followed by the coarsest.
pub open spec fn next_level(l: SyncLevel) -> SyncLevel {
    match l {
        SyncLevel::Empty => SyncLevel::Line,
        SyncLevel::Line => SyncLevel::Cue,
        SyncLevel::Cue => SyncLevel::Word,
        SyncLevel::Word => SyncLevel::Empty,
    }
}

/// The next coarser level, the coarsest followed by the finest.
pub open spec fn previous_level(l: SyncLevel) -> SyncLevel {
    match l {
        SyncLevel::Empty => SyncLevel::Word,
        SyncLevel::Line => SyncLevel::Empty,
        SyncLevel::Cue => SyncLevel::Line,
        SyncLevel::Word => SyncLevel::Cue,
    }
}

impl App {
    /// Handles a key in the open dialog (see `after_modal_key`).
    pub fn handle_modal_key(&mut self, key: KeyPress) -> (r: ModalAction)
        requires
            old(self).wf(),
        ensures
            final(self).wf(),
            final(self).keeps_engine(*old(self)),
            (final(self).state.deep_view(), r.deep_view()) == old(self).state.deep_view().after_modal_key(key),
    {
        let ghost s = self.state.deep_view();
        let modal = match self.state.modal.take() {
            Some(m) => m,
            None => return ModalAction::Nothing,
        };
        match modal {
            Modal::Translate { input, input_variant, new_variant, error } => match key.code {
                KeyCode::Char(ch) => {
                    if key.ctrl && ch == 'c' {
                        self.state.modal = Some(Modal::Translate { input, input_variant, new_variant, error });
                        self.state.quit = true;
                    } else {
                        let mut i2 = input;
                        crate::cues::edit_text(&mut i2, Some(ch));
                        let v2 = parse_variant(&i2);
                        self.state.modal = Some(Modal::Translate { input: i2, input_variant: v2, new_variant, error });
                    }
                    ModalAction::Nothing
                },
                KeyCode::Backspace => {
                    let mut i2 = input;
                    crate::cues::edit_text(&mut i2, None);
                    let v2 = parse_variant(&i2);
                    self.state.modal = Some(Modal::Translate { input: i2, input_variant: v2, new_variant, error });
                    ModalAction::Nothing
                },
                KeyCode::Esc => ModalAction::Nothing,
                KeyCode::Tab => {
                    let level = self.active_sync_level();
                    self.state.modal = Some(Modal::Alignment { new_alignment: level, error: None });
                    ModalAction::Nothing
                },
                KeyCode::Enter => match input_variant {
                    Some(v) => {
                        self.state.modal = Some(Modal::Translate {
                            input: String::new(),
                            input_variant: None,
                            new_variant: Some(v),
                            error,
                        });
                        assert(self.state.deep_view().modal == Some(ModalView::Translate {
                            input: Seq::<char>::empty(), input_variant: None, new_variant: Some(v.deep_view()), error }));
                        ModalAction::Nothing
                    },
                    None => match new_variant {
                        None => {
                            self.state.modal = Some(Modal::Translate { input, input_variant: None, new_variant: None, error });
                            ModalAction::Nothing
                        },
                        Some(v) => {
                            let copy = v.clone();
                            if self.state.subtitle_documents.set_language(copy) {
                                ModalAction::Nothing
                            } else {
                                match v {
                                    SubtitleVariant::Original => {
                                        self.state.modal = Some(Modal::Translate {
                                            input,
                                            input_variant: None,
                                            new_variant: Some(SubtitleVariant::Original),
                                            error: Some(ModalError::InvalidVariant),
                                        });
                                        ModalAction::Nothing
                                    },
                                    SubtitleVariant::Translated(l) => {
                                        let l2 = l.clone();
                                        self.state.modal = Some(Modal::Translate {
                                            input,
                                            input_variant: None,
                                            new_variant: Some(SubtitleVariant::Translated(l)),
                                            error,
                                        });
                                        ModalAction::StartTranslation(l2)
                                    },
                                }
                            }
                        },
                    },
                },
                _ => {
                    self.state.modal = Some(Modal::Translate { input, input_variant, new_variant, error });
                    ModalAction::Nothing
                },
            },
            Modal::Alignment { new_alignment, error } => match key.code {
                KeyCode::Char(ch) => {
                    self.state.modal = Some(Modal::Alignment { new_alignment, error });
                    if key.ctrl && ch == 'c' {
                        self.state.quit = true;
                    }
                    ModalAction::Nothing
                },
                KeyCode::Esc => ModalAction::Nothing,
                KeyCode::Tab => {
                    self.state.modal = Some(Modal::Translate {
                        input: String::new(),
                        input_variant: None,
                        new_variant: None,
                        error: None,
                    });
                    assert(self.state.deep_view().modal == Some(ModalView::Translate {
                        input: Seq::<char>::empty(), input_variant: None, new_variant: None, error: None }));
                    ModalAction::Nothing
                },
                KeyCode::Up => {
                    self.state.modal = Some(Modal::Alignment { new_alignment: new_alignment.next_cyclic(), error: None });
                    ModalAction::Nothing
                },
                KeyCode::Down => {
                    self.state.modal = Some(Modal::Alignment { new_alignment: new_alignment.previous_cyclic(), error: None });
                    ModalAction::Nothing
                },
                KeyCode::Enter => {
                    if self.state.subtitle_documents.active_variant.is_none() {
                        self.state.modal = Some(Modal::Alignment { new_alignment, error });
                        return ModalAction::Nothing;
                    }
                    let current = self.active_sync_level();
                    if new_alignment.rank() <= current.rank() {
                        ModalAction::Downgrade(new_alignment)
                    } else {
                        self.state.modal = Some(Modal::Alignment { new_alignment, error });
                        ModalAction::StartAlignment(new_alignment)
                    }
                },
                _ => {
                    self.state.modal = Some(Modal::Alignment { new_alignment, error });
                    ModalAction::Nothing
                },
            },
        }
    }

    /// The level of the active document (none without one).
    fn active_sync_level(&self) -> (r: SyncLevel)
        requires
            self.wf(),
        ensures
            r == self.state.deep_view().active_level(),
    {
        match self.state.subtitle_documents.active_index() {
            Some(i) => self.state.subtitle_documents.documents[i].state.document.cues.sync_level(),
            None => SyncLevel::Empty,
        }
    }
}

/// Up in the alignment dialog picks the next finer level (after the finest,
/// the coarsest) and down the next coarser one; one undoes the other.
pub proof fn law_levels_cycle(l: SyncLevel)
    ensures
        next_level(l).spec_rank() == (l.spec_rank() + 1) % 4,
        previous_level(l).spec_rank() == (l.spec_rank() + 3) % 4,
        previous_level(next_level(l)) == l,
        next_level(previous_level(l)) == l,
{
}

/// In the translation dialog a character (but control-c) is added to the
/// typed text and Backspace takes its last one off; the variant the text names
/// is kept with it. In the alignment dialog, Up then Down gives back the level
/// first shown. Enter there, with a document shown, asks to downgrade to a
/// level no finer than the document's, and to align for a finer one.
pub proof fn law_modal_keys(s: AppStateView, ch: char, ctrl: bool)
    requires
        s.modal is Some,
    ensures
        match s.modal->0 {
            ModalView::Translate { input, new_variant, error, .. } => {
                &&& !(ctrl && ch == 'c') ==> s.after_modal_key((KeyPress { code: KeyCode::Char(ch), ctrl })).0.modal
                    == Some(ModalView::Translate { input: input.push(ch), input_variant: parsed_variant(input.push(ch)), new_variant, error })
                &&& s.after_modal_key((KeyPress { code: KeyCode::Backspace, ctrl })).0.modal matches Some(ModalView::Translate { input: i2, .. })
                    && (input.len() > 0 ==> i2 == input.subrange(0, input.len() - 1))
                    && (input.len() == 0 ==> i2 == input)
                &&& s.after_modal_key((KeyPress { code: KeyCode::Esc, ctrl })).0.modal is None
            },
            ModalView::Alignment { new_alignment, .. } => {
                &&& s.after_modal_key((KeyPress { code: KeyCode::Up, ctrl })).0
                    .after_modal_key((KeyPress { code: KeyCode::Down, ctrl })).0.modal
                    == Some(ModalView::Alignment { new_alignment, error: None })
                &&& s.documents.active is Some ==> s.after_modal_key((KeyPress { code: KeyCode::Enter, ctrl })).1 == if new_alignment.spec_rank()
                    <= s.active_level().spec_rank() {
                    ModalActionView::Downgrade(new_alignment)
                } else {
                    ModalActionView::StartAlignment(new_alignment)
                }
                &&& s.after_modal_key((KeyPress { code: KeyCode::Esc, ctrl })).0.modal is None
            },
        },
{
    match s.modal->0 {
        ModalView::Translate { input, .. } => {
            if input.len() > 0 {
                assert(input.drop_last() =~= input.subrange(0, input.len() - 1));
            }
        },
        ModalView::Alignment { new_alignment, .. } => {
            law_levels_cycle(new_alignment);
        },
    }
}

/// A typed text names the original where it reads "original" in any case, and
/// the translation into a language where it is two or three ASCII letters.
pub proof fn law_parsed_variant(s: Seq<char>)
    ensures
        s =~= seq!['o', 'r', 'i', 'g', 'i', 'n', 'a', 'l'] ==> parsed_variant(s) == Some(VariantView::Original),
        s =~= seq!['O', 'R', 'I', 'G', 'I', 'N', 'A', 'L'] ==> parsed_variant(s) == Some(VariantView::Original),
        (s.len() == 2 || s.len() == 3) && (forall|i: int| 0 <= i < s.len() ==> 'a' <= #[trigger] s[i] <= 'z')
            ==> parsed_variant(s) == Some(VariantView::Translated(s)),
        s.len() == 0 || s.len() == 1 || s.len() > 8 ==> parsed_variant(s) is None,
{
    if s =~= seq!['O', 'R', 'I', 'G', 'I', 'N', 'A', 'L'] {
        assert forall|i: int| 0 <= i < 8 implies same_letter(#[trigger] s[i], seq!['o', 'r', 'i', 'g', 'i', 'n', 'a', 'l'][i]) by {
            assert(('O' as u32) + 32 == ('o' as u32));
            assert(('R' as u32) + 32 == ('r' as u32));
            assert(('I' as u32) + 32 == ('i' as u32));
            assert(('G' as u32) + 32 == ('g' as u32));
            assert(('N' as u32) + 32 == ('n' as u32));
            assert(('A' as u32) + 32 == ('a' as u32));
            assert(('L' as u32) + 32 == ('l' as u32));
        }
    }
    if (s.len() == 2 || s.len() == 3) && (forall|i: int| 0 <= i < s.len() ==> 'a' <= #[trigger] s[i] <= 'z') {
        assert(!is_original_word(s));
    }
}

} // verus!
