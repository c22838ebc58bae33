//! Aligning a document to the audio of its track: what is handed to the
//! aligner, and how its answer becomes a document again.

use vstd::prelude::*;

use crate::app::App;
use crate::cues::{AlignedCue, AlignedCueView, Cue, CueView, CuesView, SubtitleCues, SubtitleDocument, SubtitleMetadata, Word, WordView};
use crate::synchronizer::SynchronizerMode;

verus! {

/// What can go wrong when aligning.
#[derive(Debug)]
pub enum AlignmentError {
    NoAudioFilePath,
    NoSubtitles,
    InvalidAudioPath,
    NoLanguageCode,
    AlreadyAligned,
    /// The aligner failed, with its message.
    PythonError(String),
}

/// A document to align to the audio file at a path.
pub struct AlignmentTask {
    pub audio_file_path: String,
    pub subtitle_document: SubtitleDocument,
}

/// A request to the aligner.
pub enum AlignmentRequest {
    Align(AlignmentTask),
}

/// The aligner's answer.
pub enum AlignmentResult {
    Complete(Option<SubtitleDocument>),
    Cancelled,
    Failed(AlignmentError),
}

/// A duration given as days, seconds and microseconds, in microseconds
/// (where that fits in an `i64`).
pub open spec fn timedelta_micros(days: i64, seconds: i64, micros: i64) -> int {
    days * 86_400_000_000 + seconds * 1_000_000 + micros
}

/// A duration given as days, seconds and microseconds, in microseconds;
/// `None` where it does not fit in an `i64`.
pub fn timedelta_to_duration(days: i64, seconds: i64, micros: i64) -> (r: Option<i64>)
    ensures
        match r {
            Some(t) => t == timedelta_micros(days, seconds, micros),
            None => !(i64::MIN <= timedelta_micros(days, seconds, micros) <= i64::MAX),
        },
{
    let d = days as i128 * 86_400_000_000i128;
    let s = seconds as i128 * 1_000_000i128;
    let t = d + s + micros as i128;
    if t < i64::MIN as i128 || t > i64::MAX as i128 {
        None
    } else {
        Some(t as i64)
    }
}

/// The identities of the cues, in order (none for no cues).
pub open spec fn ids_of(c: CuesView) -> Option<Seq<u128>> {
    match c {
        CuesView::Word(s) => Some(s.map_values(|x: AlignedCueView| x.id)),
        CuesView::Cue(s) => Some(s.map_values(|x: CueView| x.id)),
        CuesView::Line(s) => Some(s.map_values(|x: crate::cues::LineView| x.id)),
        CuesView::Empty => None,
    }
}

/// The identities of the cues, in order; an error for no cues.
pub fn cue_ids(cues: &SubtitleCues) -> (r: Result<Vec<u128>, AlignmentError>)
    ensures
        match ids_of(cues.deep_view()) {
            Some(ids) => (r matches Ok(v) && v@ == ids),
            None => r matches Err(AlignmentError::NoSubtitles),
        },
{
    match cues {
        SubtitleCues::Word(v) => {
            let mut r: Vec<u128> = Vec::new();
            let mut i: usize = 0;
            while i < v.len()
                invariant
                    i <= v@.len(),
                    r@ == v.deep_view().map_values(|x: AlignedCueView| x.id).take(i as int),
                decreases v@.len() - i,
            {
                r.push(v[i].id);
                i = i + 1;
                assert(r@ =~= v.deep_view().map_values(|x: AlignedCueView| x.id).take(i as int));
            }
            assert(v.deep_view().map_values(|x: AlignedCueView| x.id).take(v@.len() as int) =~= v.deep_view().map_values(|x: AlignedCueView| x.id));
            Ok(r)
        },
        SubtitleCues::Cue(v) => {
            let mut r: Vec<u128> = Vec::new();
            let mut i: usize = 0;
            while i < v.len()
                invariant
                    i <= v@.len(),
                    r@ == v.deep_view().map_values(|x: CueView| x.id).take(i as int),
                decreases v@.len() - i,
            {
                r.push(v[i].id);
                i = i + 1;
                assert(r@ =~= v.deep_view().map_values(|x: CueView| x.id).take(i as int));
            }
            assert(v.deep_view().map_values(|x: CueView| x.id).take(v@.len() as int) =~= v.deep_view().map_values(|x: CueView| x.id));
            Ok(r)
        },
        SubtitleCues::Line(v) => {
            let mut r: Vec<u128> = Vec::new();
            let mut i: usize = 0;
            while i < v.len()
                invariant
                    i <= v@.len(),
                    r@ == v.deep_view().map_values(|x: crate::cues::LineView| x.id).take(i as int),
                decreases v@.len() - i,
            {
                r.push(v[i].id);
                i = i + 1;
                assert(r@ =~= v.deep_view().map_values(|x: crate::cues::LineView| x.id).take(i as int));
            }
            assert(v.deep_view().map_values(|x: crate::cues::LineView| x.id).take(v@.len() as int) =~= v.deep_view().map_values(|x: crate::cues::LineView| x.id));
            Ok(r)
        },
        SubtitleCues::Empty => Err(AlignmentError::NoSubtitles),
    }
}

/// The language the document is in: the first of its languages.
pub fn language_code(document: &SubtitleDocument) -> (r: Result<String, AlignmentError>)
    ensures
        document.metadata.languages@.len() == 0 ==> r matches Err(AlignmentError::NoLanguageCode),
        document.metadata.languages@.len() > 0 ==> (r matches Ok(c) && c@ == document.metadata.languages@[0].code@),
{
    if document.metadata.languages.len() == 0 {
        Err(AlignmentError::NoLanguageCode)
    } else {
        Ok(document.metadata.languages[0].code.clone())
    }
}

/// A cue as the aligner takes it: its times and text.
pub struct CueText {
    pub start: i64,
    pub end: i64,
    pub content: String,
}

/// The cues as the aligner takes them (cues without times from 0 to 0); an
/// error where the cues are timed word by word already.
pub open spec fn texts_of(c: CuesView) -> Result<Seq<(i64, i64, Seq<char>)>, ()> {
    match c {
        CuesView::Word(_) => Err(()),
        CuesView::Cue(s) => Ok(s.map_values(|x: CueView| (x.start, x.end, x.content))),
        CuesView::Line(s) => Ok(s.map_values(|x: crate::cues::LineView| (0i64, 0i64, x.content))),
        CuesView::Empty => Ok(Seq::empty()),
    }
}

/// A cue text, as plain values.
pub open spec fn cue_text_view(t: CueText) -> (i64, i64, Seq<char>) {
    (t.start, t.end, t.content@)
}

/// The cues as the aligner takes them (see `texts_of`).
pub fn alignment_inputs(cues: &SubtitleCues) -> (r: Result<Vec<CueText>, AlignmentError>)
    ensures
        match texts_of(cues.deep_view()) {
            Ok(t) => (r matches Ok(v) && v@.map_values(|x: CueText| cue_text_view(x)) == t),
            Err(()) => r matches Err(AlignmentError::AlreadyAligned),
        },
{
    let mut r: Vec<CueText> = Vec::new();
    match cues {
        SubtitleCues::Word(_) => Err(AlignmentError::AlreadyAligned),
        SubtitleCues::Cue(v) => {
            let mut i: usize = 0;
            while i < v.len()
                invariant
                    i <= v@.len(),
                    r@.len() == i,
                    r@.map_values(|x: CueText| cue_text_view(x)) == v.deep_view().map_values(|x: CueView| (x.start, x.end, x.content)).take(i as int),
                decreases v@.len() - i,
            {
                let ghost before = r@;
                assert(v.deep_view()[i as int] == v@[i as int].deep_view());
                r.push(CueText { start: v[i].start, end: v[i].end, content: v[i].content.clone() });
                assert(r@ == before.push(r@[i as int]));
                i = i + 1;
                assert(r@.map_values(|x: CueText| cue_text_view(x)) =~= v.deep_view().map_values(|x: CueView| (x.start, x.end, x.content)).take(i as int));
            }
            assert(v.deep_view().map_values(|x: CueView| (x.start, x.end, x.content)).take(v@.len() as int)
                =~= v.deep_view().map_values(|x: CueView| (x.start, x.end, x.content)));
            Ok(r)
        },
        SubtitleCues::Line(v) => {
            let mut i: usize = 0;
            while i < v.len()
                invariant
                    i <= v@.len(),
                    r@.len() == i,
                    r@.map_values(|x: CueText| cue_text_view(x)) == v.deep_view().map_values(|x: crate::cues::LineView| (0i64, 0i64, x.content)).take(i as int),
                decreases v@.len() - i,
            {
                let ghost before = r@;
                assert(v.deep_view()[i as int] == v@[i as int].deep_view());
                r.push(CueText { start: 0, end: 0, content: v[i].content.clone() });
                assert(r@ == before.push(r@[i as int]));
                i = i + 1;
                assert(r@.map_values(|x: CueText| cue_text_view(x)) =~= v.deep_view().map_values(|x: crate::cues::LineView| (0i64, 0i64, x.content)).take(i as int));
            }
            assert(v.deep_view().map_values(|x: crate::cues::LineView| (0i64, 0i64, x.content)).take(v@.len() as int)
                =~= v.deep_view().map_values(|x: crate::cues::LineView| (0i64, 0i64, x.content)));
            Ok(r)
        },
        SubtitleCues::Empty => {
            assert(r@.map_values(|x: CueText| cue_text_view(x)) =~= Seq::<(i64, i64, Seq<char>)>::empty());
            Ok(r)
        },
    }
}

/// A cue as the aligner gives it back, timed word by word.
pub struct AlignedRecord {
    pub start: i64,
    pub end: i64,
    pub words: Vec<Word>,
}

/// The aligned cues, each with the identity of the cue at its place.
pub open spec fn word_cues_from(ids: Seq<u128>, records: Seq<(i64, i64, Seq<WordView>)>) -> Seq<AlignedCueView> {
    Seq::new(records.len(), |i: int| AlignedCueView { id: ids[i], start: records[i].0, end: records[i].1, words: records[i].2 })
}

impl DeepView for AlignedRecord {
    type V = (i64, i64, Seq<WordView>);

    open spec fn deep_view(&self) -> (i64, i64, Seq<WordView>) {
        (self.start, self.end, self.words.deep_view())
    }
}

/// The aligned cues, each with the identity of the cue at its place (there
/// are at least as many identities as records).
pub fn word_level_cues(ids: &Vec<u128>, records: Vec<AlignedRecord>) -> (r: Vec<AlignedCue>)
    requires
        records@.len() <= ids@.len(),
    ensures
        r.deep_view() == word_cues_from(ids@, records.deep_view()),
{
    let ghost rs = records.deep_view();
    let n = records.len();
    let mut rest = records;
    let mut r: Vec<AlignedCue> = Vec::new();
    let mut i: usize = 0;
    while i < n
        invariant
            n == rs.len(),
            n <= ids@.len(),
            i <= n,
            rest.deep_view() == rs.skip(i as int),
            r.deep_view() == word_cues_from(ids@, rs).take(i as int),
        decreases n - i,
    {
        assert(rest.deep_view().len() == rest@.len());
        let rec = crate::seqs::remove_at(&mut rest, 0);
        assert(rest.deep_view() =~= rs.skip(i as int + 1));
        assert(rec.deep_view() == rs[i as int]);
        let ghost before = r.deep_view();
        r.push(AlignedCue { id: ids[i], start: rec.start, end: rec.end, words: rec.words });
        assert(r.deep_view() =~= before.push(word_cues_from(ids@, rs)[i as int]));
        i = i + 1;
        assert(r.deep_view() =~= word_cues_from(ids@, rs).take(i as int));
    }
    assert(word_cues_from(ids@, rs).take(n as int) =~= word_cues_from(ids@, rs));
    r
}

/// The place of the last `c` in `s`; -1 where there is none.
pub open spec fn last_index_of(s: Seq<char>, c: char) -> int
    decreases s.len(),
{
    if s.len() == 0 {
        -1
    } else if s.last() == c {
        s.len() - 1
    } else {
        last_index_of(s.drop_last(), c)
    }
}

/// The file name of a path: what follows its last `/`.
pub open spec fn file_name_of(p: Seq<char>) -> Seq<char> {
    p.subrange(last_index_of(p, '/') + 1, p.len() as int)
}

/// A path read the same way on every platform: no `\\` and no `:`, and a
/// file name after its last `/` that is neither empty, `.` nor `..`.
pub open spec fn plain_file_path(p: Seq<char>) -> bool {
    &&& !p.contains('\\')
    &&& !p.contains(':')
    &&& file_name_of(p).len() > 0
    &&& file_name_of(p) != seq!['.']
    &&& file_name_of(p) != seq!['.', '.']
}

/// Where the stem of the file name of `p` ends: at the last `.` of the name
/// where that is not its first character, else at the end of the path.
pub open spec fn stem_end(p: Seq<char>) -> int {
    let k = last_index_of(file_name_of(p), '.');
    if k > 0 {
        last_index_of(p, '/') + 1 + k
    } else {
        p.len() as int
    }
}

/// The path `p` with the extension of its file name replaced by
/// `extension` (removed where `extension` is empty).
pub open spec fn path_with_extension(p: Seq<char>, extension: Seq<char>) -> Seq<char> {
    p.subrange(0, stem_end(p)) + if extension.len() > 0 {
        seq!['.'] + extension
    } else {
        Seq::<char>::empty()
    }
}

/// `PathBuf::set_extension` on the path `path`: the file stem kept, then a
/// dot and `extension` (nothing for an empty one). The extension holds no
/// path separator, on which the call panics. Where the path is one that
/// platforms read differently (it holds `\\` or `:`, or has no ordinary
/// file name), no clause states the result.
#[verifier::external_body]
pub(crate) fn with_extension(path: &String, extension: &str) -> (r: String)
    requires
        !extension@.contains('/'),
        !extension@.contains('\\'),
    ensures
        plain_file_path(path@) ==> r@ == path_with_extension(path@, extension@),
{
    let mut p = std::path::PathBuf::from(path.as_str());
    p.set_extension(extension);
    p.to_string_lossy().into_owned()
}

/// The metadata of an aligned document: that of `subtitle_document`, the
/// file path given the `elrc` extension.
pub fn generate_aligned_metadata(subtitle_document: SubtitleDocument) -> (r: SubtitleMetadata)
    ensures
        r.album.deep_view() == subtitle_document.metadata.album.deep_view(),
        r.title.deep_view() == subtitle_document.metadata.title.deep_view(),
        r.artists.deep_view() == subtitle_document.metadata.artists.deep_view(),
        r.languages.deep_view() == subtitle_document.metadata.languages.deep_view(),
        r.file_path is Some <==> subtitle_document.metadata.file_path is Some,
        subtitle_document.metadata.file_path matches Some(p) ==> plain_file_path(p@)
            ==> (r.file_path matches Some(q) && q@ == path_with_extension(p@, seq!['e', 'l', 'r', 'c'])),
{
    proof {
        reveal_strlit("elrc");
    }
    let metadata = subtitle_document.metadata;
    let file_path = match &metadata.file_path {
        Some(p) => Some(with_extension(p, "elrc")),
        None => None,
    };
    SubtitleMetadata { file_path, ..metadata }
}

/// The aligned cues (line by line), each with the identity of the cue at
/// its place.
pub open spec fn line_cues_from(ids: Seq<u128>, records: Seq<(i64, i64, Seq<char>)>) -> Seq<CueView> {
    Seq::new(records.len(), |i: int| CueView { id: ids[i], start: records[i].0, end: records[i].1, content: records[i].2 })
}

/// The aligned cues (line by line), each with the identity of the cue at its
/// place (there are at least as many identities as records).
pub fn line_level_cues(ids: &Vec<u128>, records: Vec<CueText>) -> (r: Vec<Cue>)
    requires
        records@.len() <= ids@.len(),
    ensures
        r.deep_view() == line_cues_from(ids@, records@.map_values(|x: CueText| cue_text_view(x))),
{
    let ghost rs = records@.map_values(|x: CueText| cue_text_view(x));
    let n = records.len();
    let mut r: Vec<Cue> = Vec::new();
    let mut i: usize = 0;
    while i < n
        invariant
            n == rs.len(),
            n == records@.len(),
            rs == records@.map_values(|x: CueText| cue_text_view(x)),
            n <= ids@.len(),
            i <= n,
            r.deep_view() == line_cues_from(ids@, rs).take(i as int),
        decreases n - i,
    {
        let rec = &records[i];
        assert(cue_text_view(*rec) == rs[i as int]);
        let ghost before = r.deep_view();
        r.push(Cue { id: ids[i], start: rec.start, end: rec.end, content: rec.content.clone() });
        assert(r.deep_view() =~= before.push(line_cues_from(ids@, rs)[i as int]));
        i = i + 1;
    }
    assert(line_cues_from(ids@, rs).take(n as int) =~= line_cues_from(ids@, rs));
    r
}

/// What the aligner is handed for a document: its language and its cues
/// (an error without a language, or for cues timed word by word already).
pub fn alignment_request(document: &SubtitleDocument) -> (r: Result<(String, Vec<CueText>), AlignmentError>)
    ensures
        document.metadata.languages@.len() == 0 ==> r matches Err(AlignmentError::NoLanguageCode),
        document.metadata.languages@.len() > 0 ==> match texts_of(document.cues.deep_view()) {
            Ok(t) => (r matches Ok((l, v)) && l@ == document.metadata.languages@[0].code@
                && v@.map_values(|x: CueText| cue_text_view(x)) == t),
            Err(()) => r matches Err(AlignmentError::AlreadyAligned),
        },
{
    let language = match language_code(document) {
        Ok(l) => l,
        Err(e) => return Err(e),
    };
    match alignment_inputs(&document.cues) {
        Ok(v) => Ok((language, v)),
        Err(e) => Err(e),
    }
}

/// The aligner's answer timed word by word, as cues of `subtitle_document`:
/// each record takes the identity of the cue at its place; an error for a
/// document without cues.
pub fn convert_py_cues_to_word_level_cues(records: Vec<AlignedRecord>, subtitle_document: &SubtitleDocument) -> (r: Result<SubtitleCues, AlignmentError>)
    requires
        records@.len() <= crate::app::deletion::cues_len(subtitle_document.cues.deep_view()),
    ensures
        match ids_of(subtitle_document.cues.deep_view()) {
            None => r matches Err(AlignmentError::NoSubtitles),
            Some(ids) => (r matches Ok(c) && c.deep_view() == CuesView::Word(word_cues_from(ids, records.deep_view()))),
        },
{
    let ids = match cue_ids(&subtitle_document.cues) {
        Ok(ids) => ids,
        Err(e) => return Err(e),
    };
    Ok(SubtitleCues::Word(word_level_cues(&ids, records)))
}

/// The aligner's answer timed line by line, as cues of `subtitle_document`:
/// each record takes the identity of the cue at its place; an error for a
/// document without cues.
pub fn convert_py_cues_to_line_level_cues(records: Vec<CueText>, subtitle_document: &SubtitleDocument) -> (r: Result<SubtitleCues, AlignmentError>)
    requires
        records@.len() <= crate::app::deletion::cues_len(subtitle_document.cues.deep_view()),
    ensures
        match ids_of(subtitle_document.cues.deep_view()) {
            None => r matches Err(AlignmentError::NoSubtitles),
            Some(ids) => (r matches Ok(c) && c.deep_view() == CuesView::Cue(line_cues_from(ids, records@.map_values(|x: CueText| cue_text_view(x))))),
        },
{
    let ids = match cue_ids(&subtitle_document.cues) {
        Ok(ids) => ids,
        Err(e) => return Err(e),
    };
    Ok(SubtitleCues::Cue(line_level_cues(&ids, records)))
}

/// The document the aligner's answer makes of `subtitle_document`: its cues
/// timed word by word (see `convert_py_cues_to_word_level_cues`) and its
/// metadata for an aligned file.
pub fn convert_py_cues_to_word_aligned_subtitle_document(records: Vec<AlignedRecord>, subtitle_document: SubtitleDocument) -> (r: Result<Option<SubtitleDocument>, AlignmentError>)
    requires
        records@.len() <= crate::app::deletion::cues_len(subtitle_document.cues.deep_view()),
    ensures
        match ids_of(subtitle_document.cues.deep_view()) {
            None => r matches Err(AlignmentError::NoSubtitles),
            Some(ids) => (r matches Ok(Some(d)) && d.cues.deep_view() == CuesView::Word(word_cues_from(ids, records.deep_view()))
                && d.metadata.title.deep_view() == subtitle_document.metadata.title.deep_view()
                && d.metadata.album.deep_view() == subtitle_document.metadata.album.deep_view()
                && d.metadata.artists.deep_view() == subtitle_document.metadata.artists.deep_view()
                && d.metadata.languages.deep_view() == subtitle_document.metadata.languages.deep_view()
                && (d.metadata.file_path is Some <==> subtitle_document.metadata.file_path is Some)
                && (subtitle_document.metadata.file_path matches Some(p) ==> plain_file_path(p@)
                    ==> (d.metadata.file_path matches Some(q) && q@ == path_with_extension(p@, seq!['e', 'l', 'r', 'c'])))),
        },
{
    let cues = match convert_py_cues_to_word_level_cues(records, &subtitle_document) {
        Ok(c) => c,
        Err(e) => return Err(e),
    };
    let metadata = generate_aligned_metadata(subtitle_document);
    Ok(Some(SubtitleDocument { metadata, cues }))
}

/// The document the aligner's answer makes of `subtitle_document`: its cues
/// timed line by line (see `convert_py_cues_to_line_level_cues`) and its
/// metadata for an aligned file.
pub fn convert_py_cues_to_line_aligned_subtitle_document(records: Vec<CueText>, subtitle_document: SubtitleDocument) -> (r: Result<Option<SubtitleDocument>, AlignmentError>)
    requires
        records@.len() <= crate::app::deletion::cues_len(subtitle_document.cues.deep_view()),
    ensures
        match ids_of(subtitle_document.cues.deep_view()) {
            None => r matches Err(AlignmentError::NoSubtitles),
            Some(ids) => (r matches Ok(Some(d)) && d.cues.deep_view() == CuesView::Cue(line_cues_from(ids, records@.map_values(|x: CueText| cue_text_view(x))))
                && d.metadata.title.deep_view() == subtitle_document.metadata.title.deep_view()
                && d.metadata.album.deep_view() == subtitle_document.metadata.album.deep_view()
                && d.metadata.artists.deep_view() == subtitle_document.metadata.artists.deep_view()
                && d.metadata.languages.deep_view() == subtitle_document.metadata.languages.deep_view()
                && (d.metadata.file_path is Some <==> subtitle_document.metadata.file_path is Some)
                && (subtitle_document.metadata.file_path matches Some(p) ==> plain_file_path(p@)
                    ==> (d.metadata.file_path matches Some(q) && q@ == path_with_extension(p@, seq!['e', 'l', 'r', 'c'])))),
        },
{
    let cues = match convert_py_cues_to_line_level_cues(records, &subtitle_document) {
        Ok(c) => c,
        Err(e) => return Err(e),
    };
    let metadata = generate_aligned_metadata(subtitle_document);
    Ok(Some(SubtitleDocument { metadata, cues }))
}

impl App {
    /// What to hand to the aligner: nothing while an alignment runs; an
    /// error without a track (or its file) or without an active document;
    /// else the track's file and a copy of the active document.
    pub fn prepare_alignment(&self) -> (r: Result<Option<AlignmentTask>, AlignmentError>)
        requires
            self.wf(),
        ensures
            self.state.alignment_running ==> r matches Ok(None),
            !self.state.alignment_running ==> match (self.state.track, self.state.deep_view().active_doc()) {
                (None, _) => r matches Err(AlignmentError::NoAudioFilePath),
                (Some(_), None) => r matches Err(AlignmentError::NoSubtitles),
                (Some(t), Some(st)) => match t.file_path {
                    None => r matches Err(AlignmentError::NoAudioFilePath),
                    Some(p) => (r matches Ok(Some(task)) && task.audio_file_path@ == p@
                        && task.subtitle_document.deep_view() == st.document),
                },
            },
    {
        if self.state.alignment_running {
            return Ok(None);
        }
        let track = match &self.state.track {
            Some(t) => t,
            None => return Err(AlignmentError::NoAudioFilePath),
        };
        let i = match self.state.subtitle_documents.active_index() {
            Some(i) => i,
            None => return Err(AlignmentError::NoSubtitles),
        };
        let path = match &track.file_path {
            Some(p) => p.clone(),
            None => return Err(AlignmentError::NoAudioFilePath),
        };
        let document = self.state.subtitle_documents.documents[i].state.document.clone();
        Ok(Some(AlignmentTask { audio_file_path: path, subtitle_document: document }))
    }

    /// Starts an alignment: what `prepare_alignment` gives, the alignment
    /// then marked as running where there is a task (for the caller to
    /// hand to the aligner; where it cannot, it ends the alignment with
    /// `AlignmentResult::Cancelled`).
    pub fn start_alignment(&mut self) -> (r: Result<Option<AlignmentTask>, AlignmentError>)
        requires
            old(self).wf(),
        ensures
            final(self).wf(),
            final(self).keeps_engine(*old(self)),
            final(self).state.subtitle_documents == old(self).state.subtitle_documents,
            old(self).state.alignment_running ==> r matches Ok(None),
            !old(self).state.alignment_running ==> match (old(self).state.track, old(self).state.deep_view().active_doc()) {
                (None, _) => r matches Err(AlignmentError::NoAudioFilePath),
                (Some(_), None) => r matches Err(AlignmentError::NoSubtitles),
                (Some(t), Some(st)) => match t.file_path {
                    None => r matches Err(AlignmentError::NoAudioFilePath),
                    Some(p) => (r matches Ok(Some(task)) && task.audio_file_path@ == p@
                        && task.subtitle_document.deep_view() == st.document),
                },
            },
            r matches Ok(Some(_)) ==> final(self).state.deep_view() == old(self).state.deep_view().with_alignment_running(true),
            !(r matches Ok(Some(_))) ==> final(self).state.deep_view() == old(self).state.deep_view(),
    {
        let r = self.prepare_alignment();
        match &r {
            Ok(Some(_)) => {
                self.state.alignment_running = true;
            },
            _ => {},
        }
        r
    }

    /// Takes the aligner's answer: the alignment is over; a completed
    /// alignment makes the aligned document the one shown (see
    /// `after_alignment_complete`) and the synchroniser follows words; a
    /// failure is handed on.
    pub fn handle_alignment_event(&mut self, event: AlignmentResult) -> (r: Result<(), AlignmentError>)
        requires
            old(self).wf(),
        ensures
            final(self).wf(),
            !final(self).state.alignment_running,
            match event {
                AlignmentResult::Complete(d) => {
                    &&& r is Ok
                    &&& final(self).synchronizer.mode == SynchronizerMode::Word
                    &&& final(self).state.deep_view() == old(self).state.deep_view().after_alignment_complete(
                        d.deep_view(),
                    ).with_alignment_running(false)
                },
                AlignmentResult::Cancelled => r is Ok && final(self).state.deep_view()
                    == old(self).state.deep_view().with_alignment_running(false) && final(self).synchronizer == old(self).synchronizer,
                AlignmentResult::Failed(e) => r == Err::<(), AlignmentError>(e) && final(self).state.deep_view()
                    == old(self).state.deep_view().with_alignment_running(false) && final(self).synchronizer == old(self).synchronizer,
            },
    {
        let ghost s = self.state.deep_view();
        match event {
            AlignmentResult::Complete(d) => {
                match d {
                    Some(doc) => match self.state.subtitle_documents.active_index() {
                        Some(i) => {
                            let ghost dv = doc.deep_view();
                            self.state.subtitle_documents.documents[i].state.document = doc;
                            proof {
                                let st = s.active_doc()->0;
                                let st2 = crate::state::DocumentStateView { document: dv, ..st };
                                crate::state::lemma_with_active_state(s, st2);
                                assert(self.state.deep_view().documents.entries =~= s.with_active_state(st2).documents.entries);
                            }
                        },
                        None => {
                            let ghost dv = doc.deep_view();
                            let st = crate::state::SubtitleDocumentState::new(doc);
                            assert(st.deep_view() == crate::state::fresh_state(dv)) by {
                                assert(st.deep_view().edit_history.undo =~= Seq::<crate::history::EditView>::empty());
                                assert(st.deep_view().edit_history.redo =~= Seq::<crate::history::EditView>::empty());
                            }
                            self.state.subtitle_documents.insert(crate::state::SubtitleVariant::Original, st);
                            proof {
                                crate::state::law_insert_then_get(
                                    s.documents,
                                    crate::state::VariantView::Original,
                                    crate::state::fresh_state(dv),
                                    crate::state::VariantView::Original,
                                );
                            }
                            let _ = self.state.subtitle_documents.set_language(crate::state::SubtitleVariant::Original);
                        },
                    },
                    None => {
                        self.state.subtitle_documents.active_variant = None;
                    },
                }
                self.state.alignment_running = false;
                self.synchronizer.mode = SynchronizerMode::Word;
                Ok(())
            },
            AlignmentResult::Cancelled => {
                self.state.alignment_running = false;
                Ok(())
            },
            AlignmentResult::Failed(e) => {
                self.state.alignment_running = false;
                Err(e)
            },
        }
    }
}

} // verus!
