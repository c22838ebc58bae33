//! The documents of the current track, one per variant, and the state of the
//! editor as a whole.

use vstd::prelude::*;

use crate::cues::{DocumentView, Language, SubtitleDocument};
use crate::history::{EditHistory, HistoryView};
use crate::modal::{Modal, ModalView};
use crate::mode::{AppMode, ModeView};

verus! {

/// A document together with its edit history and whether it has unsaved changes.
pub struct SubtitleDocumentState {
    pub document: SubtitleDocument,
    pub edit_history: EditHistory,
    pub unsaved_changes: bool,
}

/// A document state, as plain values.
pub struct DocumentStateView {
    pub document: DocumentView,
    pub edit_history: HistoryView,
    pub unsaved_changes: bool,
}

impl DeepView for SubtitleDocumentState {
    type V = DocumentStateView;

    open spec fn deep_view(&self) -> DocumentStateView {
        DocumentStateView {
            document: self.document.deep_view(),
            edit_history: self.edit_history.deep_view(),
            unsaved_changes: self.unsaved_changes,
        }
    }
}

impl Clone for SubtitleDocumentState {
    fn clone(&self) -> (r: Self)
        ensures
            r.deep_view() == self.deep_view(),
    {
        SubtitleDocumentState {
            document: self.document.clone(),
            edit_history: self.edit_history.clone(),
            unsaved_changes: self.unsaved_changes,
        }
    }
}

impl SubtitleDocumentState {
    /// A freshly loaded document: no history, nothing unsaved.
    pub fn new(document: SubtitleDocument) -> (r: Self)
        ensures
            r.deep_view().document == document.deep_view(),
            r.deep_view().edit_history.undo.len() == 0,
            r.deep_view().edit_history.redo.len() == 0,
            !r.unsaved_changes,
    {
        SubtitleDocumentState { document, edit_history: EditHistory::new(), unsaved_changes: false }
    }

    pub fn mark_modified(&mut self)
        ensures
            final(self).deep_view() == (DocumentStateView {
                unsaved_changes: true,
                ..old(self).deep_view()
            }),
    {
        self.unsaved_changes = true;
    }

    pub fn mark_saved(&mut self)
        ensures
            final(self).deep_view() == (DocumentStateView {
                unsaved_changes: false,
                ..old(self).deep_view()
            }),
    {
        self.unsaved_changes = false;
    }
}

/// Which document of a track: the original, or a translation.
pub enum SubtitleVariant {
    Original,
    Translated(Language),
}

/// A variant, as plain values.
pub enum VariantView {
    Original,
    Translated(Seq<char>),
}

impl DeepView for SubtitleVariant {
    type V = VariantView;

    open spec fn deep_view(&self) -> VariantView {
        match self {
            SubtitleVariant::Original => VariantView::Original,
            SubtitleVariant::Translated(l) => VariantView::Translated(l.code@),
        }
    }
}

impl Clone for SubtitleVariant {
    fn clone(&self) -> (r: Self)
        ensures
            r.deep_view() == self.deep_view(),
    {
        match self {
            SubtitleVariant::Original => SubtitleVariant::Original,
            SubtitleVariant::Translated(l) => SubtitleVariant::Translated(l.clone()),
        }
    }
}

impl SubtitleVariant {
    /// Whether two variants name the same document.
    pub fn same(&self, other: &SubtitleVariant) -> (r: bool)
        ensures
            r == (self.deep_view() == other.deep_view()),
    {
        match (self, other) {
            (SubtitleVariant::Original, SubtitleVariant::Original) => true,
            (SubtitleVariant::Translated(a), SubtitleVariant::Translated(b)) => a.code == b.code,
            _ => false,
        }
    }
}

/// A document of the track, with the variant it is.
pub struct DocumentEntry {
    pub variant: SubtitleVariant,
    pub state: SubtitleDocumentState,
}

/// An entry, as plain values.
pub struct EntryView {
    pub variant: VariantView,
    pub state: DocumentStateView,
}

impl DeepView for DocumentEntry {
    type V = EntryView;

    open spec fn deep_view(&self) -> EntryView {
        EntryView { variant: self.variant.deep_view(), state: self.state.deep_view() }
    }
}

impl Clone for DocumentEntry {
    fn clone(&self) -> (r: Self)
        ensures
            r.deep_view() == self.deep_view(),
    {
        DocumentEntry { variant: self.variant.clone(), state: self.state.clone() }
    }
}

/// The documents of the current track, at most one per variant, and the
/// variant that is shown and edited.
pub struct SubtitleDocuments {
    pub documents: Vec<DocumentEntry>,
    pub active_variant: Option<SubtitleVariant>,
}

/// The documents, as plain values.
pub struct DocumentsView {
    pub entries: Seq<EntryView>,
    pub active: Option<VariantView>,
}

impl DocumentsView {
    /// Whether a document of variant `v` is held.
    pub open spec fn contains(self, v: VariantView) -> bool {
        exists|i: int| 0 <= i < self.entries.len() && self.entries[i].variant == v
    }

    /// Where the document of variant `v` is held.
    pub open spec fn index_of(self, v: VariantView) -> int {
        choose|i: int| 0 <= i < self.entries.len() && self.entries[i].variant == v
    }

    /// The document of variant `v`, if held.
    pub open spec fn get(self, v: VariantView) -> Option<DocumentStateView> {
        if self.contains(v) {
            Some(self.entries[self.index_of(v)].state)
        } else {
            None
        }
    }

    /// The active document, if any.
    pub open spec fn active_state(self) -> Option<DocumentStateView> {
        match self.active {
            Some(v) => self.get(v),
            None => None,
        }
    }

    /// Where the active document is held, if there is one.
    pub open spec fn active_index(self) -> Option<int> {
        match self.active {
            Some(v) => if self.contains(v) {
                Some(self.index_of(v))
            } else {
                None
            },
            None => None,
        }
    }

    /// No variant is held twice, and the active variant is held.
    pub open spec fn wf(self) -> bool {
        &&& forall|i: int, j: int|
            0 <= i < j < self.entries.len() ==> self.entries[i].variant != self.entries[j].variant
        &&& (self.active matches Some(v) ==> self.contains(v))
    }

    /// The same documents, the one of variant `v` replaced by `s` or added.
    pub open spec fn insert(self, v: VariantView, s: DocumentStateView) -> DocumentsView {
        if self.contains(v) {
            DocumentsView {
                entries: self.entries.update(self.index_of(v), EntryView { variant: v, state: s }),
                ..self
            }
        } else {
            DocumentsView { entries: self.entries.push(EntryView { variant: v, state: s }), ..self }
        }
    }
}

impl DeepView for SubtitleDocuments {
    type V = DocumentsView;

    open spec fn deep_view(&self) -> DocumentsView {
        DocumentsView {
            entries: self.documents.deep_view(),
            active: self.active_variant.deep_view(),
        }
    }
}

impl Clone for SubtitleDocuments {
    fn clone(&self) -> (r: Self)
        ensures
            r.deep_view() == self.deep_view(),
    {
        SubtitleDocuments {
            documents: crate::seqs::clone_vec(&self.documents),
            active_variant: match &self.active_variant {
                Some(v) => Some(v.clone()),
                None => None,
            },
        }
    }
}

impl SubtitleDocuments {
    pub open spec fn wf(&self) -> bool {
        self.deep_view().wf()
    }

    /// No documents.
    pub fn new() -> (r: Self)
        ensures
            r.deep_view().entries.len() == 0,
            r.deep_view().active is None,
            r.wf(),
    {
        let r = SubtitleDocuments { documents: Vec::new(), active_variant: None };
        assert(r.documents.deep_view() =~= Seq::<EntryView>::empty());
        r
    }

    /// Where the document of `variant` is held.
    pub(crate) fn position(&self, variant: &SubtitleVariant) -> (r: Option<usize>)
        requires
            self.wf(),
        ensures
            r matches Some(i) ==> i < self.deep_view().entries.len() && i == self.deep_view().index_of(
                variant.deep_view(),
            ),
            r is Some <==> self.deep_view().contains(variant.deep_view()),
    {
        let mut i: usize = 0;
        while i < self.documents.len()
            invariant
                self.wf(),
                i <= self.documents@.len(),
                forall|k: int| 0 <= k < i ==> self.deep_view().entries[k].variant != variant.deep_view(),
            decreases self.documents@.len() - i,
        {
            if self.documents[i].variant.same(variant) {
                proof {
                    let d = self.deep_view();
                    assert(d.entries[i as int].variant == variant.deep_view());
                    assert(d.contains(variant.deep_view()));
                    let j = d.index_of(variant.deep_view());
                    assert(j == i as int) by {
                        if j < i {
                            assert(d.entries[j].variant != d.entries[i as int].variant);
                        } else if j > i {
                            assert(d.entries[i as int].variant != d.entries[j].variant);
                        }
                    }
                }
                return Some(i);
            }
            i = i + 1;
        }
        None
    }

    /// Where the active document is held.
    pub fn active_index(&self) -> (r: Option<usize>)
        requires
            self.wf(),
        ensures
            r matches Some(i) ==> i < self.documents@.len() && self.deep_view().active_index()
                == Some(i as int),
            r is None <==> self.deep_view().active_index() is None,
    {
        match &self.active_variant {
            Some(v) => self.position(v),
            None => None,
        }
    }

    /// Shows the original document where there is one, else nothing.
    pub fn select_default(&mut self)
        requires
            old(self).wf(),
        ensures
            final(self).wf(),
            final(self).deep_view().entries == old(self).deep_view().entries,
            final(self).deep_view().active == if old(self).deep_view().contains(VariantView::Original) {
                Some(VariantView::Original)
            } else {
                None
            },
    {
        let original = SubtitleVariant::Original;
        self.active_variant = match self.position(&original) {
            Some(_) => Some(original),
            None => None,
        };
    }

    /// Drops all documents.
    pub fn clear(&mut self)
        ensures
            final(self).wf(),
            final(self).deep_view().entries.len() == 0,
            final(self).deep_view().active is None,
    {
        self.documents = Vec::new();
        self.active_variant = None;
        assert(self.documents.deep_view() =~= Seq::<EntryView>::empty());
    }

    /// The active document, if any.
    pub fn active(&self) -> (r: Option<&SubtitleDocumentState>)
        requires
            self.wf(),
        ensures
            match r {
                Some(s) => self.deep_view().active_state() == Some(s.deep_view()),
                None => self.deep_view().active_state() is None,
            },
    {
        match self.active_index() {
            Some(i) => {
                let r = &self.documents[i].state;
                proof {
                    let d = self.deep_view();
                    let v = d.active->0;
                    assert(d.contains(v));
                    let k = d.index_of(v);
                    assert(r.deep_view() == d.entries[i as int].state);
                }
                Some(r)
            },
            None => None,
        }
    }

    /// The active variant, if any.
    pub fn active_variant(&self) -> (r: Option<SubtitleVariant>)
        ensures
            r.deep_view() == self.deep_view().active,
    {
        match &self.active_variant {
            Some(v) => Some(v.clone()),
            None => None,
        }
    }

    /// Shows the document of `language`, where there is one; says whether
    /// there was.
    pub fn set_language(&mut self, language: SubtitleVariant) -> (r: bool)
        requires
            old(self).wf(),
        ensures
            final(self).wf(),
            r == old(self).deep_view().contains(language.deep_view()),
            final(self).deep_view().entries == old(self).deep_view().entries,
            final(self).deep_view().active == if r {
                Some(language.deep_view())
            } else {
                old(self).deep_view().active
            },
    {
        if self.position(&language).is_some() {
            self.active_variant = Some(language);
            true
        } else {
            false
        }
    }

    /// Holds `document_state` as the document of `subtitle_variant`,
    /// replacing the one held before.
    pub fn insert(&mut self, subtitle_variant: SubtitleVariant, document_state: SubtitleDocumentState)
        requires
            old(self).wf(),
        ensures
            final(self).wf(),
            final(self).deep_view() == old(self).deep_view().insert(
                subtitle_variant.deep_view(),
                document_state.deep_view(),
            ),
    {
        let ghost v = subtitle_variant.deep_view();
        let ghost s = document_state.deep_view();
        let ghost d = old(self).deep_view();
        match self.position(&subtitle_variant) {
            Some(i) => {
                let entry = DocumentEntry { variant: subtitle_variant, state: document_state };
                self.documents[i] = entry;
                proof {
                    assert(self.documents.deep_view() =~= d.entries.update(i as int, EntryView { variant: v, state: s }));
                    let e = self.deep_view();
                    assert forall|a: VariantView| #[trigger] d.contains(a) implies e.contains(a) by {
                        let k = choose|k: int| 0 <= k < d.entries.len() && d.entries[k].variant == a;
                        assert(e.entries[k].variant == a);
                    }
                }
            },
            None => {
                let entry = DocumentEntry { variant: subtitle_variant, state: document_state };
                self.documents.push(entry);
                proof {
                    assert(self.documents.deep_view() =~= d.entries.push(EntryView { variant: v, state: s }));
                    let e = self.deep_view();
                    assert forall|a: VariantView| #[trigger] d.contains(a) implies e.contains(a) by {
                        let k = choose|k: int| 0 <= k < d.entries.len() && d.entries[k].variant == a;
                        assert(e.entries[k].variant == a);
                    }
                }
            },
        }
    }
}

/// What the media player reports of its playback.
#[derive(Debug, Clone, Copy, PartialEq, Eq, Structural)]
pub enum PlaybackStatus {
    Playing,
    Paused,
    Stopped,
    Unknown,
}

/// What the media player reports.
pub enum PlayerEvent {
    TrackChanged(Track),
    PlaybackChanged(PlaybackStatus),
    /// Playback jumped to this position, in microseconds.
    Seeked(i64),
}

/// The track the media player plays.
pub struct Track {
    pub album: Option<String>,
    pub disc_number: Option<u32>,
    pub title: String,
    pub track_number: Option<u32>,
    /// Length of the track, in microseconds.
    pub duration: i64,
    pub id: Option<String>,
    pub genres: Vec<String>,
    pub artists: Vec<String>,
    pub album_artists: Vec<String>,
    pub file_path: Option<String>,
}

/// A track, as plain values.
pub struct TrackView {
    pub album: Option<Seq<char>>,
    pub disc_number: Option<u32>,
    pub title: Seq<char>,
    pub track_number: Option<u32>,
    pub duration: i64,
    pub id: Option<Seq<char>>,
    pub genres: Seq<Seq<char>>,
    pub artists: Seq<Seq<char>>,
    pub album_artists: Seq<Seq<char>>,
    pub file_path: Option<Seq<char>>,
}

impl DeepView for Track {
    type V = TrackView;

    open spec fn deep_view(&self) -> TrackView {
        TrackView {
            album: self.album.deep_view(),
            disc_number: self.disc_number,
            title: self.title@,
            track_number: self.track_number,
            duration: self.duration,
            id: self.id.deep_view(),
            genres: self.genres.deep_view(),
            artists: self.artists.deep_view(),
            album_artists: self.album_artists.deep_view(),
            file_path: self.file_path.deep_view(),
        }
    }
}

/// The state of the editor.
pub struct AppState {
    pub track: Option<Track>,
    pub subtitle_documents: SubtitleDocuments,
    pub playback_state: PlaybackStatus,
    pub quit: bool,
    pub automatic_scroll_offset: usize,
    pub app_mode: AppMode,
    pub alignment_running: bool,
    pub translation_running: bool,
    pub modal: Option<Modal>,
}

/// The state of the editor, as plain values.
pub struct AppStateView {
    pub track: Option<TrackView>,
    pub documents: DocumentsView,
    pub playback_state: PlaybackStatus,
    pub quit: bool,
    pub automatic_scroll_offset: usize,
    pub mode: ModeView,
    pub alignment_running: bool,
    pub translation_running: bool,
    pub modal: Option<ModalView>,
}

impl DeepView for AppState {
    type V = AppStateView;

    open spec fn deep_view(&self) -> AppStateView {
        AppStateView {
            track: self.track.deep_view(),
            documents: self.subtitle_documents.deep_view(),
            playback_state: self.playback_state,
            quit: self.quit,
            automatic_scroll_offset: self.automatic_scroll_offset,
            mode: self.app_mode.deep_view(),
            alignment_running: self.alignment_running,
            translation_running: self.translation_running,
            modal: self.modal.deep_view(),
        }
    }
}

impl AppStateView {
    /// The same state with the alignment marked as running or not.
    pub open spec fn with_alignment_running(self, running: bool) -> AppStateView {
        AppStateView { alignment_running: running, ..self }
    }

    /// The same state in another mode.
    pub open spec fn with_mode(self, mode: ModeView) -> AppStateView {
        AppStateView { mode, ..self }
    }

    /// The state as it is once a missing track has sent the editor back to
    /// the normal mode.
    pub open spec fn normal_without_track(self) -> AppStateView {
        if self.track is None {
            self.with_mode(ModeView::Normal)
        } else {
            self
        }
    }

    /// The cues of the active document.
    pub open spec fn active_cues(self) -> Option<crate::cues::CuesView> {
        match self.documents.active_index() {
            Some(i) => Some(self.documents.entries[i].state.document.cues),
            None => None,
        }
    }

    /// The same state, the cues of the active document replaced.
    pub open spec fn with_active_cues(self, cues: crate::cues::CuesView) -> AppStateView {
        match self.documents.active_index() {
            Some(i) => {
                let e = self.documents.entries[i];
                let document = crate::cues::DocumentView { cues, ..e.state.document };
                let state = DocumentStateView { document, ..e.state };
                AppStateView {
                    documents: DocumentsView {
                        entries: self.documents.entries.update(i, EntryView { state, ..e }),
                        ..self.documents
                    },
                    ..self
                }
            },
            None => self,
        }
    }
}

impl AppStateView {
    /// The same state, the active document's state (cues, history, flag)
    /// replaced.
    pub open spec fn with_active_state(self, st: DocumentStateView) -> AppStateView {
        match self.documents.active_index() {
            Some(i) => {
                let e = self.documents.entries[i];
                AppStateView {
                    documents: DocumentsView {
                        entries: self.documents.entries.update(i, EntryView { state: st, ..e }),
                        ..self.documents
                    },
                    ..self
                }
            },
            None => self,
        }
    }

    /// The active document's state, if there is one.
    pub open spec fn active_doc(self) -> Option<DocumentStateView> {
        match self.documents.active_index() {
            Some(i) => Some(self.documents.entries[i].state),
            None => None,
        }
    }
}

impl AppStateView {
    /// The state once an alignment completes with the document `d`: none
    /// shown where there is none; else `d` replaces the shown document (its
    /// history kept), or, with none shown, is held and shown as the
    /// original.
    pub open spec fn after_alignment_complete(self, d: Option<DocumentView>) -> AppStateView {
        match d {
            None => AppStateView { documents: DocumentsView { active: None, ..self.documents }, ..self },
            Some(doc) => match self.active_doc() {
                Some(st) => self.with_active_state(DocumentStateView { document: doc, ..st }),
                None => AppStateView {
                    documents: DocumentsView {
                        active: Some(VariantView::Original),
                        ..self.documents.insert(VariantView::Original, fresh_state(doc))
                    },
                    ..self
                },
            },
        }
    }
}

/// Replacing the state of the active document keeps the documents
/// consistent, and the active document where it was.
pub proof fn lemma_with_active_state(s: AppStateView, st: DocumentStateView)
    requires
        s.documents.wf(),
    ensures
        s.with_active_state(st).documents.wf(),
        s.with_active_state(st).documents.active_index() == s.documents.active_index(),
        s.active_doc() is Some ==> s.with_active_state(st).active_doc() == Some(st),
        s.with_active_state(st).documents.entries.len() == s.documents.entries.len(),
{
    let t = s.with_active_state(st);
    let d = s.documents;
    let e = t.documents;
    assert forall|a: VariantView| d.contains(a) == e.contains(a) by {
        if d.contains(a) {
            let k = choose|k: int| 0 <= k < d.entries.len() && d.entries[k].variant == a;
            assert(e.entries[k].variant == a);
        }
        if e.contains(a) {
            let k = choose|k: int| 0 <= k < e.entries.len() && e.entries[k].variant == a;
            assert(d.entries[k].variant == a);
        }
    }
    if let Some(v) = d.active {
        if d.contains(v) {
            let i = d.index_of(v);
            let j = e.index_of(v);
            assert(e.entries[i].variant == v);
            assert(j == i) by {
                if j < i {
                    assert(e.entries[j].variant != e.entries[i].variant);
                } else if j > i {
                    assert(e.entries[i].variant != e.entries[j].variant);
                }
            }
        }
    }
}

/// Replacing the cues of the active document keeps the documents consistent,
/// and the active document where it was.
pub proof fn lemma_with_active_cues(s: AppStateView, c: crate::cues::CuesView)
    requires
        s.documents.wf(),
    ensures
        s.with_active_cues(c).documents.wf(),
        s.with_active_cues(c).documents.active == s.documents.active,
        s.with_active_cues(c).documents.active_index() == s.documents.active_index(),
        s.active_cues() is Some ==> s.with_active_cues(c).active_cues() == Some(c),
        s.with_active_cues(c).documents.entries.len() == s.documents.entries.len(),
        forall|k: int| 0 <= k < s.documents.entries.len() ==> #[trigger] s.with_active_cues(c).documents.entries[k].variant == s.documents.entries[k].variant,
{
    let t = s.with_active_cues(c);
    let d = s.documents;
    let e = t.documents;
    assert forall|a: VariantView| d.contains(a) == e.contains(a) by {
        if d.contains(a) {
            let k = choose|k: int| 0 <= k < d.entries.len() && d.entries[k].variant == a;
            assert(e.entries[k].variant == a);
        }
        if e.contains(a) {
            let k = choose|k: int| 0 <= k < e.entries.len() && e.entries[k].variant == a;
            assert(d.entries[k].variant == a);
        }
    }
    if let Some(v) = d.active {
        if d.contains(v) {
            let i = d.index_of(v);
            let j = e.index_of(v);
            assert(e.entries[i].variant == v);
            assert(j == i) by {
                if j < i {
                    assert(e.entries[j].variant != e.entries[i].variant);
                } else if j > i {
                    assert(e.entries[i].variant != e.entries[j].variant);
                }
            }
        }
    }
}

/// Putting the cues of the active document back after replacing them gives
/// the documents back.
pub proof fn lemma_with_active_cues_back(s: AppStateView, c: crate::cues::CuesView)
    requires
        s.documents.wf(),
        s.active_cues() is Some,
    ensures
        s.with_active_cues(c).with_active_cues(s.active_cues()->0).documents == s.documents,
{
    lemma_with_active_cues(s, c);
    let i = s.documents.active_index()->0;
    let t = s.with_active_cues(c).with_active_cues(s.active_cues()->0);
    assert(t.documents.entries[i] == s.documents.entries[i]);
    assert(t.documents.entries =~= s.documents.entries);
}

/// Holding a document and then looking up its variant gives it back; the
/// documents of other variants stay as they were, and still no variant is
/// held twice.
pub proof fn law_insert_then_get(d: DocumentsView, v: VariantView, st: DocumentStateView, w: VariantView)
    requires
        d.wf(),
    ensures
        d.insert(v, st).wf(),
        d.insert(v, st).get(v) == Some(st),
        w != v ==> d.insert(v, st).get(w) == d.get(w),
{
    let e = d.insert(v, st);
    if d.contains(v) {
        let i = d.index_of(v);
        assert(e.entries[i].variant == v);
        assert(e.contains(v));
        let j = e.index_of(v);
        assert(j == i) by {
            if j != i {
                assert(e.entries[j].variant == d.entries[j].variant);
            }
        }
        assert forall|a: VariantView| d.contains(a) == e.contains(a) by {
            if d.contains(a) {
                let k = choose|k: int| 0 <= k < d.entries.len() && d.entries[k].variant == a;
                assert(e.entries[k].variant == a);
            }
            if e.contains(a) {
                let k = choose|k: int| 0 <= k < e.entries.len() && e.entries[k].variant == a;
                assert(d.entries[k].variant == a);
            }
        }
        if w != v && d.contains(w) {
            let k = d.index_of(w);
            assert(e.entries[k].variant == w);
            let m = e.index_of(w);
            assert(m == k) by {
                if m != k {
                    assert(e.entries[m].variant == d.entries[m].variant);
                }
            }
        }
    } else {
        let n = d.entries.len() as int;
        assert(e.entries[n].variant == v);
        assert(e.contains(v));
        let j = e.index_of(v);
        assert(j == n) by {
            if j < n {
                assert(d.entries[j].variant == v);
            }
        }
        assert forall|a: VariantView| a != v implies d.contains(a) == e.contains(a) by {
            if d.contains(a) {
                let k = choose|k: int| 0 <= k < d.entries.len() && d.entries[k].variant == a;
                assert(e.entries[k].variant == a);
            }
            if e.contains(a) {
                let k = choose|k: int| 0 <= k < e.entries.len() && e.entries[k].variant == a;
                assert(k < n);
                assert(d.entries[k].variant == a);
            }
        }
        if w != v && d.contains(w) {
            let k = d.index_of(w);
            assert(e.entries[k].variant == w);
            let m = e.index_of(w);
            assert(m == k) by {
                if m != k {
                    if m < n {
                        assert(d.entries[m].variant == w);
                    }
                }
            }
        }
    }
}

/// A document just loaded: no history, nothing unsaved.
pub open spec fn fresh_state(doc: DocumentView) -> DocumentStateView {
    DocumentStateView {
        document: doc,
        edit_history: HistoryView { undo: Seq::empty(), redo: Seq::empty() },
        unsaved_changes: false,
    }
}

/// The documents held once the loaded ones are taken in, in order (a later
/// one of a variant replacing an earlier one); none shown.
pub open spec fn loaded(items: Seq<(VariantView, DocumentView)>) -> DocumentsView
    decreases items.len(),
{
    if items.len() == 0 {
        DocumentsView { entries: Seq::empty(), active: None }
    } else {
        loaded(items.drop_last()).insert(items.last().0, fresh_state(items.last().1))
    }
}

/// The loaded documents, the original shown where there is one.
pub open spec fn reloaded(items: Seq<(VariantView, DocumentView)>) -> DocumentsView {
    let d = loaded(items);
    DocumentsView {
        active: if d.contains(VariantView::Original) { Some(VariantView::Original) } else { None },
        ..d
    }
}

impl AppState {
    /// No track, no documents, normal mode.
    pub fn new() -> (r: Self)
        ensures
            r.track is None,
            r.deep_view().documents.entries.len() == 0,
            r.deep_view().documents.active is None,
            r.subtitle_documents.wf(),
            r.playback_state == PlaybackStatus::Unknown,
            !r.quit,
            r.automatic_scroll_offset == 0,
            r.app_mode is Normal,
            !r.alignment_running,
            !r.translation_running,
            r.modal is None,
    {
        AppState {
            track: None,
            subtitle_documents: SubtitleDocuments::new(),
            playback_state: PlaybackStatus::Unknown,
            quit: false,
            automatic_scroll_offset: 0,
            app_mode: AppMode::Normal,
            alignment_running: false,
            translation_running: false,
            modal: None,
        }
    }

    /// Follows another track, or none.
    pub fn update_track(&mut self, current_track: Option<Track>)
        ensures
            final(self).deep_view() == (AppStateView {
                track: current_track.deep_view(),
                ..old(self).deep_view()
            }),
    {
        self.track = current_track;
    }

    pub fn is_normal_mode(&self) -> (r: bool)
        ensures
            r == (self.app_mode is Normal),
    {
        match self.app_mode {
            AppMode::Normal => true,
            _ => false,
        }
    }

    pub fn is_select_mode(&self) -> (r: bool)
        ensures
            r == (self.app_mode is Select),
    {
        match self.app_mode {
            AppMode::Select { .. } => true,
            _ => false,
        }
    }

    pub fn is_edit_mode(&self) -> (r: bool)
        ensures
            r == (self.app_mode is Edit),
    {
        match self.app_mode {
            AppMode::Edit { .. } => true,
            _ => false,
        }
    }
}

fn same_text(a: &String, b: &String) -> (r: bool)
    ensures
        r == (a@ == b@),
{
    *a == *b
}

fn same_optional_text(a: &Option<String>, b: &Option<String>) -> (r: bool)
    ensures
        r == (a.deep_view() == b.deep_view()),
{
    match (a, b) {
        (Some(x), Some(y)) => same_text(x, y),
        (None, None) => true,
        _ => false,
    }
}

fn same_texts(a: &Vec<String>, b: &Vec<String>) -> (r: bool)
    ensures
        r == (a.deep_view() == b.deep_view()),
{
    if a.len() != b.len() {
        assert(a.deep_view().len() != b.deep_view().len());
        return false;
    }
    let mut i: usize = 0;
    while i < a.len()
        invariant
            a@.len() == b@.len(),
            i <= a@.len(),
            forall|k: int| 0 <= k < i ==> a.deep_view()[k] == b.deep_view()[k],
        decreases a@.len() - i,
    {
        if !same_text(&a[i], &b[i]) {
            assert(a.deep_view()[i as int] != b.deep_view()[i as int]);
            return false;
        }
        i = i + 1;
    }
    assert(a.deep_view() =~= b.deep_view());
    true
}

/// Whether two tracks are the same in every field.
pub fn same_track(a: &Track, b: &Track) -> (r: bool)
    ensures
        r == (a.deep_view() == b.deep_view()),
{
    same_optional_text(&a.album, &b.album) && a.disc_number == b.disc_number && same_text(&a.title, &b.title)
        && a.track_number == b.track_number && a.duration == b.duration && same_optional_text(&a.id, &b.id)
        && same_texts(&a.genres, &b.genres) && same_texts(&a.artists, &b.artists)
        && same_texts(&a.album_artists, &b.album_artists) && same_optional_text(&a.file_path, &b.file_path)
}

impl AppState {
    /// Follows a new track: the normal mode where it is another track. The
    /// documents are then loaded again (by the caller, from disk).
    pub fn on_track_changed(&mut self, track: Track)
        ensures
            final(self).deep_view() == (AppStateView {
                track: Some(track.deep_view()),
                mode: if old(self).deep_view().track == Some(track.deep_view()) {
                    old(self).deep_view().mode
                } else {
                    ModeView::Normal
                },
                ..old(self).deep_view()
            }),
            final(self).subtitle_documents == old(self).subtitle_documents,
    {
        let same = match &self.track {
            Some(t) => same_track(t, &track),
            None => false,
        };
        if !same {
            self.app_mode = AppMode::Normal;
        }
        self.track = Some(track);
    }

    /// Takes the player's new playback status; says whether the player has
    /// stopped (and another one is to be looked for).
    pub fn on_playback_changed(&mut self, status: PlaybackStatus) -> (r: bool)
        ensures
            final(self).deep_view() == (AppStateView { playback_state: status, ..old(self).deep_view() }),
            final(self).subtitle_documents == old(self).subtitle_documents,
            r == (status == PlaybackStatus::Stopped),
    {
        self.playback_state = status;
        match status {
            PlaybackStatus::Stopped => true,
            _ => false,
        }
    }

    /// Replaces the documents by those just loaded from disk (a later one
    /// of a variant replacing an earlier one) and shows the original.
    pub fn reload_subtitle_documents(&mut self, items: Vec<(SubtitleVariant, SubtitleDocument)>)
        requires
            old(self).subtitle_documents.wf(),
        ensures
            final(self).subtitle_documents.wf(),
            final(self).deep_view() == (AppStateView { documents: reloaded(items.deep_view()), ..old(self).deep_view() }),
    {
        let ghost all = items.deep_view();
        self.subtitle_documents.clear();
        assert(all.take(0).len() == 0);
        assert(self.subtitle_documents.deep_view().entries =~= Seq::<EntryView>::empty());
        assert(self.subtitle_documents.deep_view() == loaded(all.take(0)));
        let n = items.len();
        let mut rest = items;
        let mut i: usize = 0;
        while i < n
            invariant
                n == all.len(),
                i <= n,
                rest.deep_view() == all.skip(i as int),
                self.subtitle_documents.wf(),
                self.subtitle_documents.deep_view() == loaded(all.take(i as int)),
                self.subtitle_documents.deep_view().active is None,
                self.track == old(self).track,
                self.playback_state == old(self).playback_state,
                self.quit == old(self).quit,
                self.automatic_scroll_offset == old(self).automatic_scroll_offset,
                self.app_mode == old(self).app_mode,
                self.alignment_running == old(self).alignment_running,
                self.translation_running == old(self).translation_running,
                self.modal == old(self).modal,
            decreases n - i,
        {
            assert(rest.deep_view().len() == rest@.len());
            assert(rest.deep_view()[0] == all[i as int]);
            let (v, doc) = crate::seqs::remove_at(&mut rest, 0);
            assert(rest.deep_view() =~= all.skip(i as int + 1));
            let st = SubtitleDocumentState::new(doc);
            assert(st.deep_view() == fresh_state(all[i as int].1)) by {
                assert(st.deep_view().edit_history.undo =~= Seq::<crate::history::EditView>::empty());
                assert(st.deep_view().edit_history.redo =~= Seq::<crate::history::EditView>::empty());
            }
            self.subtitle_documents.insert(v, st);
            proof {
                let pre = all.take(i as int + 1);
                assert(pre.drop_last() =~= all.take(i as int));
                assert(pre.last() == all[i as int]);
            }
            i = i + 1;
        }
        assert(all.take(n as int) =~= all);
        self.subtitle_documents.select_default();
    }
}

/// What the front end does after the player's report.
#[derive(Debug, Clone, Copy, PartialEq, Eq, Structural)]
pub enum StateUpdate {
    Nothing,
    /// Load the documents of the new track.
    ReloadDocuments,
    /// The player stopped: look for a player again and ask it its status.
    Reconnect,
}

impl AppStateView {
    /// The state after the player's report, and what the front end does
    /// next: a new track is followed (the normal mode where it is another
    /// track) and its documents are to be loaded; a new playback status is
    /// kept, and a stopped player is to be looked for again; a jump changes
    /// nothing here.
    pub open spec fn after_player_event(self, event: PlayerEvent) -> (AppStateView, StateUpdate) {
        match event {
            PlayerEvent::TrackChanged(t) => (
                AppStateView {
                    track: Some(t.deep_view()),
                    mode: if self.track == Some(t.deep_view()) { self.mode } else { ModeView::Normal },
                    ..self
                },
                StateUpdate::ReloadDocuments,
            ),
            PlayerEvent::PlaybackChanged(st) => (
                AppStateView { playback_state: st, ..self },
                if st == PlaybackStatus::Stopped { StateUpdate::Reconnect } else { StateUpdate::Nothing },
            ),
            PlayerEvent::Seeked(_) => (self, StateUpdate::Nothing),
        }
    }
}

impl AppState {
    /// Takes the player's report (see `after_player_event`); says what the
    /// front end does next.
    pub fn update(&mut self, event: PlayerEvent) -> (r: StateUpdate)
        ensures
            final(self).subtitle_documents == old(self).subtitle_documents,
            (final(self).deep_view(), r) == old(self).deep_view().after_player_event(event),
    {
        match event {
            PlayerEvent::TrackChanged(t) => {
                self.on_track_changed(t);
                StateUpdate::ReloadDocuments
            },
            PlayerEvent::PlaybackChanged(st) => {
                if self.on_playback_changed(st) {
                    StateUpdate::Reconnect
                } else {
                    StateUpdate::Nothing
                }
            },
            PlayerEvent::Seeked(_) => StateUpdate::Nothing,
        }
    }
}

} // verus!
