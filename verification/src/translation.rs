//! Translating the active document into another language: the request
//! handed to the translator, and its answer.

use vstd::prelude::*;

use crate::app::App;
use crate::cues::{Language, SubtitleDocument};

verus! {

/// What can go wrong when translating.
#[derive(Debug)]
pub enum TranslationError {
    NoSubtitles,
    /// The translator failed, with its message.
    ServiceError(String),
}

/// A document to translate into a language.
pub struct TranslationTask {
    pub language: Language,
    pub subtitle_document: SubtitleDocument,
}

/// A request to the translator.
pub enum TranslationRequest {
    Translate(TranslationTask),
}

/// The translator's answer.
pub enum TranslationResult {
    Complete(Option<SubtitleDocument>),
    Cancelled,
    Failed(TranslationError),
}

impl App {
    /// What to hand to the translator: nothing while a translation runs; an
    /// error without an active document; else the language and a copy of the
    /// active document.
    pub fn prepare_translation(&self, new_language: Language) -> (r: Result<Option<TranslationTask>, TranslationError>)
        requires
            self.wf(),
        ensures
            self.state.translation_running ==> r matches Ok(None),
            !self.state.translation_running ==> match self.state.deep_view().active_doc() {
                None => r matches Err(TranslationError::NoSubtitles),
                Some(st) => (r matches Ok(Some(task)) && task.language.deep_view() == new_language.deep_view()
                    && task.subtitle_document.deep_view() == st.document),
            },
    {
        if self.state.translation_running {
            return Ok(None);
        }
        match self.state.subtitle_documents.active_index() {
            Some(i) => {
                let document = self.state.subtitle_documents.documents[i].state.document.clone();
                Ok(Some(TranslationTask { language: new_language, subtitle_document: document }))
            },
            None => Err(TranslationError::NoSubtitles),
        }
    }

    /// Starts a translation: what `prepare_translation` gives; where there
    /// is a task (for the caller to hand to the translator), the state is
    /// then marked as it is at the start of an alignment, the flag that
    /// this editor sets here.
    pub fn start_translation(&mut self, new_language: Language) -> (r: Result<Option<TranslationTask>, TranslationError>)
        requires
            old(self).wf(),
        ensures
            final(self).wf(),
            final(self).keeps_engine(*old(self)),
            final(self).state.subtitle_documents == old(self).state.subtitle_documents,
            old(self).state.translation_running ==> r matches Ok(None),
            !old(self).state.translation_running ==> match old(self).state.deep_view().active_doc() {
                None => r matches Err(TranslationError::NoSubtitles),
                Some(st) => (r matches Ok(Some(task)) && task.language.deep_view() == new_language.deep_view()
                    && task.subtitle_document.deep_view() == st.document),
            },
            r matches Ok(Some(_)) ==> final(self).state.deep_view() == old(self).state.deep_view().with_alignment_running(true),
            !(r matches Ok(Some(_))) ==> final(self).state.deep_view() == old(self).state.deep_view(),
    {
        let r = self.prepare_translation(new_language);
        match &r {
            Ok(Some(_)) => {
                self.state.alignment_running = true;
            },
            _ => {},
        }
        r
    }

    /// Takes the translator's answer: the translation is over (the
    /// translated document itself is not taken in); a failure is handed on.
    pub fn handle_translation_event(&mut self, event: TranslationResult) -> (r: Result<(), TranslationError>)
        ensures
            final(self).state.deep_view() == (crate::state::AppStateView {
                translation_running: false,
                ..old(self).state.deep_view()
            }),
            final(self).state.subtitle_documents == old(self).state.subtitle_documents,
            final(self).synchronizer == old(self).synchronizer,
            match event {
                TranslationResult::Failed(e) => r == Err::<(), TranslationError>(e),
                _ => r is Ok,
            },
    {
        self.state.translation_running = false;
        match event {
            TranslationResult::Failed(e) => Err(e),
            _ => Ok(()),
        }
    }
}

} // verus!
