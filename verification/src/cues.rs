//! Subtitle documents: their cues at the three levels of synchronisation
//! (plain lines, timed cues, cues timed word by word).
//!
//! Times are microseconds from the start of the track.

use vstd::prelude::*;
use vstd::string::StrSliceExecFns;

verus! {

/// A language, kept as the code it was named by (such as `es`).
pub struct Language {
    pub code: String,
}

impl DeepView for Language {
    type V = Seq<char>;

    open spec fn deep_view(&self) -> Seq<char> {
        self.code@
    }
}

impl Clone for Language {
    fn clone(&self) -> (r: Self)
        ensures
            r.deep_view() == self.deep_view(),
    {
        Language { code: self.code.clone() }
    }
}

/// One word of a word-aligned cue, with its own timing.
pub struct Word {
    pub start: i64,
    pub end: i64,
    pub content: String,
}

/// What a word holds, as plain values.
pub struct WordView {
    pub start: i64,
    pub end: i64,
    pub content: Seq<char>,
}

impl DeepView for Word {
    type V = WordView;

    open spec fn deep_view(&self) -> WordView {
        WordView { start: self.start, end: self.end, content: self.content@ }
    }
}

impl Clone for Word {
    fn clone(&self) -> (r: Self)
        ensures
            r.deep_view() == self.deep_view(),
    {
        Word { start: self.start, end: self.end, content: self.content.clone() }
    }
}

/// The text `t` with `ch` appended, or, for `None`, with its last character
/// taken off (where it has one).
pub open spec fn text_edited(t: Seq<char>, ch: Option<char>) -> Seq<char> {
    match ch {
        Some(c) => t.push(c),
        None => if t.len() > 0 { t.drop_last() } else { t },
    }
}

/// `String::push`: appends `c` to the end of the string.
#[verifier::external_body]
fn string_push(s: &mut String, c: char)
    ensures
        final(s)@ == old(s)@.push(c),
{
    s.push(c)
}

/// `String::pop`: takes the last character off the string and returns it;
/// `None`, and the string unchanged, where it is empty.
#[verifier::external_body]
fn string_pop(s: &mut String) -> (r: Option<char>)
    ensures
        old(s)@.len() == 0 ==> r is None && final(s)@ == old(s)@,
        old(s)@.len() > 0 ==> r == Some(old(s)@.last()) && final(s)@ == old(s)@.drop_last(),
{
    s.pop()
}

/// The character of the decimal digit `d`.
pub open spec fn digit_char(d: nat) -> char {
    (('0' as u32) + d) as char
}

/// The decimal digits of `n`, most significant first.
pub open spec fn decimal(n: nat) -> Seq<char>
    decreases n,
{
    if n < 10 {
        seq![digit_char(n)]
    } else {
        decimal(n / 10).push(digit_char(n % 10))
    }
}

/// `usize::to_string`: the decimal digits of `n`.
#[verifier::external_body]
pub(crate) fn usize_to_string(n: usize) -> (r: String)
    ensures
        r@ == decimal(n as nat),
{
    n.to_string()
}

/// Appends the text `t` to `s`.
pub fn append_str(s: &mut String, t: &str)
    ensures
        final(s)@ == old(s)@ + t@,
{
    let n = t.unicode_len();
    let mut i: usize = 0;
    while i < n
        invariant
            n == t@.len(),
            i <= n,
            s@ == old(s)@ + t@.subrange(0, i as int),
        decreases n - i,
    {
        string_push(s, t.get_char(i));
        i = i + 1;
        assert(s@ =~= old(s)@ + t@.subrange(0, i as int));
    }
    assert(t@.subrange(0, n as int) =~= t@);
}

/// Appends `ch` to `s`, or, for `None`, takes its last character off.
pub fn edit_text(s: &mut String, ch: Option<char>)
    ensures
        final(s)@ == text_edited(old(s)@, ch),
{
    match ch {
        Some(c) => string_push(s, c),
        None => {
            let _ = string_pop(s);
        },
    }
}

/// A cue whose words are timed one by one.
pub struct AlignedCue {
    pub id: u128,
    pub start: i64,
    pub end: i64,
    pub words: Vec<Word>,
}

/// What an aligned cue holds, as plain values.
pub struct AlignedCueView {
    pub id: u128,
    pub start: i64,
    pub end: i64,
    pub words: Seq<WordView>,
}

impl DeepView for AlignedCue {
    type V = AlignedCueView;

    open spec fn deep_view(&self) -> AlignedCueView {
        AlignedCueView { id: self.id, start: self.start, end: self.end, words: self.words.deep_view() }
    }
}

impl Clone for AlignedCue {
    fn clone(&self) -> (r: Self)
        ensures
            r.deep_view() == self.deep_view(),
    {
        let words = crate::seqs::clone_vec(&self.words);
        AlignedCue { id: self.id, start: self.start, end: self.end, words }
    }
}

/// A timed line of text.
pub struct Cue {
    pub id: u128,
    pub start: i64,
    pub end: i64,
    pub content: String,
}

/// What a timed cue holds, as plain values.
pub struct CueView {
    pub id: u128,
    pub start: i64,
    pub end: i64,
    pub content: Seq<char>,
}

impl DeepView for Cue {
    type V = CueView;

    open spec fn deep_view(&self) -> CueView {
        CueView { id: self.id, start: self.start, end: self.end, content: self.content@ }
    }
}

impl Clone for Cue {
    fn clone(&self) -> (r: Self)
        ensures
            r.deep_view() == self.deep_view(),
    {
        Cue { id: self.id, start: self.start, end: self.end, content: self.content.clone() }
    }
}

/// A line of text without timing.
pub struct Line {
    pub id: u128,
    pub content: String,
}

/// What a line holds, as plain values.
pub struct LineView {
    pub id: u128,
    pub content: Seq<char>,
}

impl DeepView for Line {
    type V = LineView;

    open spec fn deep_view(&self) -> LineView {
        LineView { id: self.id, content: self.content@ }
    }
}

impl Clone for Line {
    fn clone(&self) -> (r: Self)
        ensures
            r.deep_view() == self.deep_view(),
    {
        Line { id: self.id, content: self.content.clone() }
    }
}

/// The cues of a document, all at one level of synchronisation.
pub enum SubtitleCues {
    Word(Vec<AlignedCue>),
    Cue(Vec<Cue>),
    Line(Vec<Line>),
    Empty,
}

/// What the cues of a document hold, as plain values.
pub enum CuesView {
    Word(Seq<AlignedCueView>),
    Cue(Seq<CueView>),
    Line(Seq<LineView>),
    Empty,
}

impl DeepView for SubtitleCues {
    type V = CuesView;

    open spec fn deep_view(&self) -> CuesView {
        match self {
            SubtitleCues::Word(v) => CuesView::Word(v.deep_view()),
            SubtitleCues::Cue(v) => CuesView::Cue(v.deep_view()),
            SubtitleCues::Line(v) => CuesView::Line(v.deep_view()),
            SubtitleCues::Empty => CuesView::Empty,
        }
    }
}

impl Clone for SubtitleCues {
    fn clone(&self) -> (r: Self)
        ensures
            r.deep_view() == self.deep_view(),
    {
        match self {
            SubtitleCues::Word(v) => {
                let c = crate::seqs::clone_vec(v);
                SubtitleCues::Word(c)
            },
            SubtitleCues::Cue(v) => {
                let c = crate::seqs::clone_vec(v);
                SubtitleCues::Cue(c)
            },
            SubtitleCues::Line(v) => {
                let c = crate::seqs::clone_vec(v);
                SubtitleCues::Line(c)
            },
            SubtitleCues::Empty => SubtitleCues::Empty,
        }
    }
}

/// Byte length of the text `s` holds, as `str::len` reports it.
pub open spec fn text_len(s: Seq<char>) -> nat {
    (vstd::utf8::encode_utf8(s).len() as usize) as nat
}

/// Byte length of the words of `words` joined with single spaces.
pub open spec fn joined_len(words: Seq<WordView>) -> nat
    decreases words.len(),
{
    if words.len() == 0 {
        0
    } else if words.len() == 1 {
        text_len(words[0].content)
    } else {
        joined_len(words.drop_last()) + 1 + text_len(words.last().content)
    }
}

/// The byte length of the text of cue `index` of `c`, the words of a
/// word-aligned cue counted with the spaces between them (0 where there is no
/// such cue).
pub open spec fn cue_len_of(c: CuesView, index: int) -> nat {
    match c {
        CuesView::Word(s) => if 0 <= index < s.len() { joined_len(s[index].words) } else { 0 },
        CuesView::Cue(s) => if 0 <= index < s.len() { text_len(s[index].content) } else { 0 },
        CuesView::Line(s) => if 0 <= index < s.len() { text_len(s[index].content) } else { 0 },
        CuesView::Empty => 0,
    }
}

/// Cue `index` of `c` alone, at the level of `c`.
pub open spec fn single_of(c: CuesView, index: int) -> CuesView {
    match c {
        CuesView::Word(s) => CuesView::Word(seq![s[index]]),
        CuesView::Cue(s) => CuesView::Cue(seq![s[index]]),
        CuesView::Line(s) => CuesView::Line(seq![s[index]]),
        CuesView::Empty => CuesView::Empty,
    }
}

impl SubtitleCues {
    /// The number of cues.
    pub open spec fn spec_len(&self) -> nat {
        match self {
            SubtitleCues::Word(v) => v@.len(),
            SubtitleCues::Cue(v) => v@.len(),
            SubtitleCues::Line(v) => v@.len(),
            SubtitleCues::Empty => 0,
        }
    }

    /// The byte length of the text of cue `index` (0 where there is none).
    pub open spec fn spec_cue_len(&self, index: int) -> nat {
        cue_len_of(self.deep_view(), index)
    }

    /// A copy of cue `index` alone, at the same level.
    pub fn single(&self, index: usize) -> (r: SubtitleCues)
        requires
            !(self is Empty) ==> index < self.spec_len(),
        ensures
            r.deep_view() == single_of(self.deep_view(), index as int),
    {
        match self {
            SubtitleCues::Word(v) => {
                let r = vec![v[index].clone()];
                assert(r.deep_view() =~= seq![v.deep_view()[index as int]]);
                SubtitleCues::Word(r)
            },
            SubtitleCues::Cue(v) => {
                let r = vec![v[index].clone()];
                assert(r.deep_view() =~= seq![v.deep_view()[index as int]]);
                SubtitleCues::Cue(r)
            },
            SubtitleCues::Line(v) => {
                let r = vec![v[index].clone()];
                assert(r.deep_view() =~= seq![v.deep_view()[index as int]]);
                SubtitleCues::Line(r)
            },
            SubtitleCues::Empty => SubtitleCues::Empty,
        }
    }

    /// Whether the document has no level (no cues at all).
    pub fn is_empty_level(&self) -> (r: bool)
        ensures
            r == (self.deep_view() is Empty),
    {
        match self {
            SubtitleCues::Empty => true,
            _ => false,
        }
    }

    /// The number of cues.
    pub fn len(&self) -> (r: usize)
        ensures
            r == self.spec_len(),
    {
        match self {
            SubtitleCues::Word(v) => v.len(),
            SubtitleCues::Cue(v) => v.len(),
            SubtitleCues::Line(v) => v.len(),
            SubtitleCues::Empty => 0,
        }
    }

    /// The byte length of the text of cue `index`, the words of a word-aligned
    /// cue counted with the spaces between them; 0 where there is no such cue.
    /// A length beyond `usize::MAX` is reported as `usize::MAX`.
    pub fn cue_len(&self, index: usize) -> (r: usize)
        ensures
            r == if self.spec_cue_len(index as int) <= usize::MAX {
                self.spec_cue_len(index as int)
            } else {
                usize::MAX as nat
            },
    {
        if index >= self.len() {
            return 0;
        }
        match self {
            SubtitleCues::Word(v) => {
                assert(v.deep_view()[index as int].words == v@[index as int].words.deep_view());
                joined_words_len(&v[index].words)
            },
            SubtitleCues::Cue(v) => v[index].content.as_str().len(),
            SubtitleCues::Line(v) => v[index].content.as_str().len(),
            SubtitleCues::Empty => 0,
        }
    }
}

/// The byte length of `words` joined with single spaces, at most `usize::MAX`.
pub fn joined_words_len(words: &Vec<Word>) -> (r: usize)
    ensures
        r == if joined_len(words.deep_view()) <= usize::MAX {
            joined_len(words.deep_view())
        } else {
            usize::MAX as nat
        },
{
    let mut total: usize = 0;
    let mut i: usize = 0;
    while i < words.len()
        invariant
            i <= words@.len(),
            total == if joined_len(words.deep_view().take(i as int)) <= usize::MAX {
                joined_len(words.deep_view().take(i as int))
            } else {
                usize::MAX as nat
            },
        decreases words@.len() - i,
    {
        let l = words[i].content.as_str().len();
        proof {
            let t = words.deep_view().take(i as int + 1);
            assert(t.drop_last() =~= words.deep_view().take(i as int));
            assert(t.last() == words.deep_view()[i as int]);
            assert(l == text_len(words@[i as int].content@));
        }
        if i == 0 {
            total = l;
        } else {
            total = total.saturating_add(1).saturating_add(l);
        }
        i = i + 1;
    }
    assert(words.deep_view().take(words@.len() as int) =~= words.deep_view());
    total
}

/// Metadata of a subtitle document.
pub struct SubtitleMetadata {
    pub album: Option<String>,
    pub title: Option<String>,
    pub artists: Vec<String>,
    pub languages: Vec<Language>,
    pub file_path: Option<String>,
}

/// What the metadata of a document holds, as plain values.
pub struct MetadataView {
    pub album: Option<Seq<char>>,
    pub title: Option<Seq<char>>,
    pub artists: Seq<Seq<char>>,
    pub languages: Seq<Seq<char>>,
    pub file_path: Option<Seq<char>>,
}

impl DeepView for SubtitleMetadata {
    type V = MetadataView;

    open spec fn deep_view(&self) -> MetadataView {
        MetadataView {
            album: self.album.deep_view(),
            title: self.title.deep_view(),
            artists: self.artists.deep_view(),
            languages: self.languages.deep_view(),
            file_path: self.file_path.deep_view(),
        }
    }
}

impl Clone for SubtitleMetadata {
    fn clone(&self) -> (r: Self)
        ensures
            r.deep_view() == self.deep_view(),
    {
        let artists = crate::seqs::clone_vec(&self.artists);
        let languages = crate::seqs::clone_vec(&self.languages);
        SubtitleMetadata {
            album: match &self.album {
                Some(a) => Some(a.clone()),
                None => None,
            },
            title: match &self.title {
                Some(t) => Some(t.clone()),
                None => None,
            },
            artists,
            languages,
            file_path: match &self.file_path {
                Some(p) => Some(p.clone()),
                None => None,
            },
        }
    }
}

/// A subtitle document: its metadata and its cues.
pub struct SubtitleDocument {
    pub metadata: SubtitleMetadata,
    pub cues: SubtitleCues,
}

/// What a document holds, as plain values.
pub struct DocumentView {
    pub metadata: MetadataView,
    pub cues: CuesView,
}

impl DeepView for SubtitleDocument {
    type V = DocumentView;

    open spec fn deep_view(&self) -> DocumentView {
        DocumentView { metadata: self.metadata.deep_view(), cues: self.cues.deep_view() }
    }
}

impl Clone for SubtitleDocument {
    fn clone(&self) -> (r: Self)
        ensures
            r.deep_view() == self.deep_view(),
    {
        SubtitleDocument { metadata: self.metadata.clone(), cues: self.cues.clone() }
    }
}

/// A cue of any level: it has an identity and a blank cue can be made
/// in its place.
pub trait CueItem: DeepView + Sized {
    /// The identity of a cue.
    spec fn view_id(v: Self::V) -> u128;

    /// A cue with identity `id` and no text, timed (where the level has times)
    /// from the start of `start_from` to the end of `end_from`.
    spec fn view_blank(id: u128, start_from: Self::V, end_from: Self::V) -> Self::V;

    fn id(&self) -> (r: u128)
        ensures
            r == Self::view_id(self.deep_view()),
    ;

    fn blank(id: u128, start_from: &Self, end_from: &Self) -> (r: Self)
        ensures
            r.deep_view() == Self::view_blank(id, start_from.deep_view(), end_from.deep_view()),
    ;

    /// Whether cues of this level have times.
    spec fn timed() -> bool;

    /// A blank cue with identity `id`, timed (where the level has times) from
    /// the start of cue `start_index` of `cues` to the end of cue `end_index`.
    fn blank_at(cues: &Vec<Self>, id: u128, start_index: usize, end_index: usize) -> (r: Self)
        requires
            Self::timed() ==> start_index < cues@.len() && end_index < cues@.len(),
        ensures
            r.deep_view() == Self::view_blank(
                id,
                cues.deep_view()[start_index as int],
                cues.deep_view()[end_index as int],
            ),
    ;

    /// Byte length of the text of the cue (at most `usize::MAX`).
    spec fn view_text_len(v: Self::V) -> nat;

    fn text_len(&self) -> (r: usize)
        ensures
            r == Self::view_text_len(self.deep_view()),
    ;

    /// The cue with its text edited (`text_edited`; for cues timed word by
    /// word, the text of the last word, where there is one).
    spec fn view_text_edited(v: Self::V, ch: Option<char>) -> Self::V;

    fn edit_last_text(&mut self, ch: Option<char>)
        ensures
            final(self).deep_view() == Self::view_text_edited(old(self).deep_view(), ch),
    ;

    /// The cues of `c`, where they are of this level.
    spec fn view_of_kind(c: CuesView) -> Option<Seq<Self::V>>;

    /// A clone of the first cue of `c`, where `c` holds cues of this level.
    fn first_of(c: &SubtitleCues) -> (r: Option<Self>)
        requires
            Self::view_of_kind(c.deep_view()) matches Some(s) ==> s.len() > 0,
        ensures
            match Self::view_of_kind(c.deep_view()) {
                Some(s) => r matches Some(x) && x.deep_view() == s[0],
                None => r is None,
            },
    ;
}

/// `n`, or `usize::MAX` where it is larger.
pub open spec fn saturate(n: nat) -> nat {
    if n <= usize::MAX {
        n
    } else {
        usize::MAX as nat
    }
}

/// A cue with a start and an end time.
pub trait TimedCue: CueItem + crate::sort::SortKey {
    spec fn view_start(v: Self::V) -> i64;

    spec fn view_end(v: Self::V) -> i64;

    /// The cue `v` with its times replaced.
    spec fn view_with_times(v: Self::V, start: i64, end: i64) -> Self::V;

    proof fn lemma_with_times(v: Self::V, start: i64, end: i64)
        ensures
            Self::view_start(Self::view_with_times(v, start, end)) == start,
            Self::view_end(Self::view_with_times(v, start, end)) == end,
            Self::view_id(Self::view_with_times(v, start, end)) == Self::view_id(v),
            Self::view_with_times(v, Self::view_start(v), Self::view_end(v)) == v,
            forall|a: i64, b: i64| #[trigger] Self::view_with_times(Self::view_with_times(v, a, b), start, end) == Self::view_with_times(v, start, end),
    ;

    /// Cues are sorted by their start.
    proof fn lemma_key_is_start(v: Self::V)
        ensures
            Self::key_of(v) == Self::view_start(v) as int,
    ;

    fn start(&self) -> (r: i64)
        ensures
            r == Self::view_start(self.deep_view()),
    ;

    fn end(&self) -> (r: i64)
        ensures
            r == Self::view_end(self.deep_view()),
    ;

    fn set_times(&mut self, start: i64, end: i64)
        ensures
            final(self).deep_view() == Self::view_with_times(old(self).deep_view(), start, end),
    ;
}

impl CueItem for AlignedCue {
    open spec fn view_id(v: AlignedCueView) -> u128 {
        v.id
    }

    open spec fn view_blank(id: u128, start_from: AlignedCueView, end_from: AlignedCueView) -> AlignedCueView {
        AlignedCueView { id, start: start_from.start, end: end_from.end, words: Seq::empty() }
    }

    fn id(&self) -> (r: u128) {
        self.id
    }

    fn blank(id: u128, start_from: &Self, end_from: &Self) -> (r: Self) {
        let r = AlignedCue { id, start: start_from.start, end: end_from.end, words: Vec::new() };
        assert(r.words.deep_view() =~= Seq::<WordView>::empty());
        r
    }

    open spec fn timed() -> bool {
        true
    }

    fn blank_at(cues: &Vec<Self>, id: u128, start_index: usize, end_index: usize) -> (r: Self) {
        Self::blank(id, &cues[start_index], &cues[end_index])
    }

    open spec fn view_text_len(v: AlignedCueView) -> nat {
        saturate(joined_len(v.words))
    }

    fn text_len(&self) -> (r: usize) {
        joined_words_len(&self.words)
    }

    open spec fn view_text_edited(v: AlignedCueView, ch: Option<char>) -> AlignedCueView {
        if v.words.len() > 0 {
            let w = v.words.last();
            AlignedCueView {
                words: v.words.update(v.words.len() - 1, WordView { content: text_edited(w.content, ch), ..w }),
                ..v
            }
        } else {
            v
        }
    }

    fn edit_last_text(&mut self, ch: Option<char>) {
        let n = self.words.len();
        if n > 0 {
            let ghost before = self.words.deep_view();
            let w = &mut self.words[n - 1];
            edit_text(&mut w.content, ch);
            assert(self.words.deep_view() =~= before.update(
                n - 1,
                WordView { content: text_edited(before[n - 1].content, ch), ..before[n - 1] },
            ));
        }
    }

    open spec fn view_of_kind(c: CuesView) -> Option<Seq<AlignedCueView>> {
        match c {
            CuesView::Word(s) => Some(s),
            _ => None,
        }
    }

    fn first_of(c: &SubtitleCues) -> (r: Option<Self>) {
        match c {
            SubtitleCues::Word(v) => Some(v[0].clone()),
            _ => None,
        }
    }
}

impl crate::sort::SortKey for AlignedCue {
    open spec fn key_of(v: AlignedCueView) -> int {
        v.start as int
    }

    fn key_greater(&self, other: &Self) -> (r: bool) {
        self.start > other.start
    }
}

impl TimedCue for AlignedCue {
    open spec fn view_start(v: AlignedCueView) -> i64 {
        v.start
    }

    open spec fn view_end(v: AlignedCueView) -> i64 {
        v.end
    }

    open spec fn view_with_times(v: AlignedCueView, start: i64, end: i64) -> AlignedCueView {
        AlignedCueView { start, end, ..v }
    }

    proof fn lemma_with_times(v: AlignedCueView, start: i64, end: i64) {
    }

    proof fn lemma_key_is_start(v: AlignedCueView) {
    }

    fn start(&self) -> (r: i64) {
        self.start
    }

    fn end(&self) -> (r: i64) {
        self.end
    }

    fn set_times(&mut self, start: i64, end: i64) {
        self.start = start;
        self.end = end;
    }
}

impl CueItem for Cue {
    open spec fn view_id(v: CueView) -> u128 {
        v.id
    }

    open spec fn view_blank(id: u128, start_from: CueView, end_from: CueView) -> CueView {
        CueView { id, start: start_from.start, end: end_from.end, content: Seq::empty() }
    }

    fn id(&self) -> (r: u128) {
        self.id
    }

    fn blank(id: u128, start_from: &Self, end_from: &Self) -> (r: Self) {
        Cue { id, start: start_from.start, end: end_from.end, content: String::new() }
    }

    open spec fn timed() -> bool {
        true
    }

    fn blank_at(cues: &Vec<Self>, id: u128, start_index: usize, end_index: usize) -> (r: Self) {
        Self::blank(id, &cues[start_index], &cues[end_index])
    }

    open spec fn view_text_len(v: CueView) -> nat {
        text_len(v.content)
    }

    fn text_len(&self) -> (r: usize) {
        self.content.as_str().len()
    }

    open spec fn view_text_edited(v: CueView, ch: Option<char>) -> CueView {
        CueView { content: text_edited(v.content, ch), ..v }
    }

    fn edit_last_text(&mut self, ch: Option<char>) {
        edit_text(&mut self.content, ch);
    }

    open spec fn view_of_kind(c: CuesView) -> Option<Seq<CueView>> {
        match c {
            CuesView::Cue(s) => Some(s),
            _ => None,
        }
    }

    fn first_of(c: &SubtitleCues) -> (r: Option<Self>) {
        match c {
            SubtitleCues::Cue(v) => Some(v[0].clone()),
            _ => None,
        }
    }
}

impl crate::sort::SortKey for Cue {
    open spec fn key_of(v: CueView) -> int {
        v.start as int
    }

    fn key_greater(&self, other: &Self) -> (r: bool) {
        self.start > other.start
    }
}

impl TimedCue for Cue {
    open spec fn view_start(v: CueView) -> i64 {
        v.start
    }

    open spec fn view_end(v: CueView) -> i64 {
        v.end
    }

    open spec fn view_with_times(v: CueView, start: i64, end: i64) -> CueView {
        CueView { start, end, ..v }
    }

    proof fn lemma_with_times(v: CueView, start: i64, end: i64) {
    }

    proof fn lemma_key_is_start(v: CueView) {
    }

    fn start(&self) -> (r: i64) {
        self.start
    }

    fn end(&self) -> (r: i64) {
        self.end
    }

    fn set_times(&mut self, start: i64, end: i64) {
        self.start = start;
        self.end = end;
    }
}

impl CueItem for Line {
    open spec fn view_id(v: LineView) -> u128 {
        v.id
    }

    open spec fn view_blank(id: u128, start_from: LineView, end_from: LineView) -> LineView {
        LineView { id, content: Seq::empty() }
    }

    fn id(&self) -> (r: u128) {
        self.id
    }

    fn blank(id: u128, start_from: &Self, end_from: &Self) -> (r: Self) {
        Line { id, content: String::new() }
    }

    open spec fn timed() -> bool {
        false
    }

    fn blank_at(cues: &Vec<Self>, id: u128, start_index: usize, end_index: usize) -> (r: Self) {
        Line { id, content: String::new() }
    }

    open spec fn view_text_len(v: LineView) -> nat {
        text_len(v.content)
    }

    fn text_len(&self) -> (r: usize) {
        self.content.as_str().len()
    }

    open spec fn view_text_edited(v: LineView, ch: Option<char>) -> LineView {
        LineView { content: text_edited(v.content, ch), ..v }
    }

    fn edit_last_text(&mut self, ch: Option<char>) {
        edit_text(&mut self.content, ch);
    }

    open spec fn view_of_kind(c: CuesView) -> Option<Seq<LineView>> {
        match c {
            CuesView::Line(s) => Some(s),
            _ => None,
        }
    }

    fn first_of(c: &SubtitleCues) -> (r: Option<Self>) {
        match c {
            SubtitleCues::Line(v) => Some(v[0].clone()),
            _ => None,
        }
    }
}

/// The version and variant bits of a random (version 4) UUID.
pub open spec fn is_random_uuid(id: u128) -> bool {
    id & 0x0000_0000_0000_f000_c000_0000_0000_0000u128 == 0x0000_0000_0000_4000_8000_0000_0000_0000u128
}

/// A fresh identity for a new cue: `uuid::Uuid::new_v4`, as a number.
///
/// The value is random; what is stated is only what `new_v4` sets in every
/// outcome: the version bits read 4 and the variant bits read `10`.
#[verifier::external_body]
pub(crate) fn new_cue_id() -> (id: u128)
    ensures
        is_random_uuid(id),
{
    uuid::Uuid::new_v4().as_u128()
}

} // verus!
