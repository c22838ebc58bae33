//! Which cues (or words) are active at the current playback position.

use vstd::prelude::*;

use crate::cues::{AlignedCueView, CuesView, SubtitleCues, WordView};

verus! {

/// A cue, by its index in the document.
#[derive(Debug, Clone, Copy, PartialEq, Eq, Structural)]
pub struct CueIndex {
    pub cue: usize,
}

impl CueIndex {
    pub fn cue_index(&self) -> (r: CueIndex)
        ensures
            r == *self,
    {
        *self
    }
}

/// A word, by the index of its cue and its index in the cue.
#[derive(Debug, Clone, Copy, PartialEq, Eq, Structural)]
pub struct WordIndex {
    pub cue: usize,
    pub word: usize,
}

impl WordIndex {
    pub fn cue_index(&self) -> (r: CueIndex)
        ensures
            r.cue == self.cue,
    {
        CueIndex { cue: self.cue }
    }
}

/// An active cue or word.
#[derive(Debug, Clone, Copy, PartialEq, Eq, Structural)]
pub enum ActiveIndex {
    Cue(CueIndex),
    Word(WordIndex),
}

impl ActiveIndex {
    /// The cue the index points into.
    pub open spec fn spec_cue(self) -> usize {
        match self {
            ActiveIndex::Cue(c) => c.cue,
            ActiveIndex::Word(w) => w.cue,
        }
    }

    /// The cue the index points into.
    pub fn cue_index(&self) -> (r: CueIndex)
        ensures
            r.cue == self.spec_cue(),
    {
        match self {
            ActiveIndex::Word(w) => w.cue_index(),
            ActiveIndex::Cue(c) => c.cue_index(),
        }
    }
}

impl Default for ActiveIndex {
    /// The first cue.
    fn default() -> (r: ActiveIndex)
        ensures
            r == ActiveIndex::Cue(CueIndex { cue: 0 }),
    {
        ActiveIndex::Cue(CueIndex { cue: 0 })
    }
}

/// Whether cues, words or nothing are followed.
#[derive(Debug, Clone, Copy, PartialEq, Eq, Structural)]
pub enum SynchronizerMode {
    Cue,
    Word,
    Inactive,
}

/// Follows the active cues.
pub struct CueSynchronizer {
    pub active: Vec<CueIndex>,
}

/// Follows the active words.
pub struct WordSynchronizer {
    pub active: Vec<WordIndex>,
}

impl CueSynchronizer {
    /// Nothing active yet.
    pub fn new() -> (r: Self)
        ensures
            r.active@.len() == 0,
    {
        CueSynchronizer { active: Vec::new() }
    }

    pub fn get_active_indices(&self) -> (r: Vec<CueIndex>)
        ensures
            r@ == self.active@,
    {
        let r = self.active.clone();
        assert(r@ =~= self.active@);
        r
    }
}

impl WordSynchronizer {
    /// Nothing active yet.
    pub fn new() -> (r: Self)
        ensures
            r.active@.len() == 0,
    {
        WordSynchronizer { active: Vec::new() }
    }

    pub fn get_active_indices(&self) -> (r: Vec<WordIndex>)
        ensures
            r@ == self.active@,
    {
        let r = self.active.clone();
        assert(r@ =~= self.active@);
        r
    }
}

/// The cue and the word synchroniser, and which of them is followed.
pub struct AppSynchronizer {
    pub cue_synchronizer: CueSynchronizer,
    pub word_synchronizer: WordSynchronizer,
    pub mode: SynchronizerMode,
}

impl AppSynchronizer {
    /// Following cues, nothing active yet.
    pub fn new() -> (r: Self)
        ensures
            r.mode == SynchronizerMode::Cue,
            r.cue_synchronizer.active@.len() == 0,
            r.word_synchronizer.active@.len() == 0,
    {
        AppSynchronizer {
            cue_synchronizer: CueSynchronizer::new(),
            word_synchronizer: WordSynchronizer::new(),
            mode: SynchronizerMode::Cue,
        }
    }

    /// The active indices of the followed synchroniser.
    pub open spec fn spec_active_indices(&self) -> Seq<ActiveIndex> {
        match self.mode {
            SynchronizerMode::Word => self.word_synchronizer.active@.map_values(
                |w: WordIndex| ActiveIndex::Word(w),
            ),
            SynchronizerMode::Cue => self.cue_synchronizer.active@.map_values(
                |c: CueIndex| ActiveIndex::Cue(c),
            ),
            SynchronizerMode::Inactive => Seq::empty(),
        }
    }

    /// The cue of the first active index, or the first cue when none is active.
    pub open spec fn spec_first_active_cue(&self) -> usize {
        if self.spec_active_indices().len() > 0 {
            self.spec_active_indices()[0].spec_cue()
        } else {
            0
        }
    }

    /// The active indices of the followed synchroniser.
    pub fn get_active_indices(&self) -> (r: Vec<ActiveIndex>)
        ensures
            r@ == self.spec_active_indices(),
    {
        let mut r: Vec<ActiveIndex> = Vec::new();
        match self.mode {
            SynchronizerMode::Word => {
                let a = &self.word_synchronizer.active;
                let mut i: usize = 0;
                while i < a.len()
                    invariant
                        i <= a@.len(),
                        r@ == a@.take(i as int).map_values(|w: WordIndex| ActiveIndex::Word(w)),
                    decreases a@.len() - i,
                {
                    r.push(ActiveIndex::Word(a[i]));
                    i = i + 1;
                    assert(r@ =~= a@.take(i as int).map_values(|w: WordIndex| ActiveIndex::Word(w)));
                }
                assert(a@.take(a@.len() as int) =~= a@);
            },
            SynchronizerMode::Cue => {
                let a = &self.cue_synchronizer.active;
                let mut i: usize = 0;
                while i < a.len()
                    invariant
                        i <= a@.len(),
                        r@ == a@.take(i as int).map_values(|c: CueIndex| ActiveIndex::Cue(c)),
                    decreases a@.len() - i,
                {
                    r.push(ActiveIndex::Cue(a[i]));
                    i = i + 1;
                    assert(r@ =~= a@.take(i as int).map_values(|c: CueIndex| ActiveIndex::Cue(c)));
                }
                assert(a@.take(a@.len() as int) =~= a@);
            },
            SynchronizerMode::Inactive => {
                assert(r@ =~= Seq::<ActiveIndex>::empty());
            },
        }
        r
    }

    /// The cue of the first active index, or the first cue when none is active.
    pub fn first_active_cue(&self) -> (r: usize)
        ensures
            r == self.spec_first_active_cue(),
    {
        let indices = self.get_active_indices();
        if indices.len() > 0 {
            indices[0].cue_index().cue
        } else {
            0
        }
    }
}

// ---------------------------------------------------------------------------
// Following the position.

/// What changed in what is active: the cues or words now active.
pub enum SyncEvent {
    Word(Vec<WordIndex>),
    Cue(Vec<CueIndex>),
}

/// Cue `i` of `c` is under way at `p`: it has started and not ended (cues
/// without times never are).
pub open spec fn cue_active(c: CuesView, i: int, p: i64) -> bool {
    match c {
        CuesView::Word(s) => s[i].start <= p < s[i].end,
        CuesView::Cue(s) => s[i].start <= p < s[i].end,
        _ => false,
    }
}

/// The cues among the first `k` of `c` under way at `p`, in order.
pub open spec fn active_cues_upto(c: CuesView, p: i64, k: int) -> Seq<CueIndex>
    decreases k,
{
    if k <= 0 {
        Seq::empty()
    } else {
        let r = active_cues_upto(c, p, k - 1);
        if cue_active(c, k - 1, p) { r.push(CueIndex { cue: (k - 1) as usize }) } else { r }
    }
}

/// The cues of `c` under way at `p` (none without a position).
pub open spec fn active_cues_at(c: CuesView, p: Option<i64>) -> Seq<CueIndex> {
    match p {
        Some(p) => active_cues_upto(c, p, crate::app::deletion::cues_len(c) as int),
        None => Seq::empty(),
    }
}

/// The words among the first `k` of cue `i` under way at `p`, in order.
pub open spec fn active_words_in(w: Seq<WordView>, i: int, p: i64, k: int) -> Seq<WordIndex>
    decreases k,
{
    if k <= 0 {
        Seq::empty()
    } else {
        let r = active_words_in(w, i, p, k - 1);
        if w[k - 1].start <= p < w[k - 1].end {
            r.push(WordIndex { cue: i as usize, word: (k - 1) as usize })
        } else {
            r
        }
    }
}

/// The words of the first `k` cues of `c` under way at `p`, in order (none
/// for cues not timed word by word).
pub open spec fn active_words_upto(c: CuesView, p: i64, k: int) -> Seq<WordIndex>
    decreases k,
{
    if k <= 0 {
        Seq::empty()
    } else {
        match c {
            CuesView::Word(s) => active_words_upto(c, p, k - 1) + active_words_in(s[k - 1].words, k - 1, p, s[k - 1].words.len() as int),
            _ => Seq::empty(),
        }
    }
}

/// The words of `c` under way at `p` (none without a position).
pub open spec fn active_words_at(c: CuesView, p: Option<i64>) -> Seq<WordIndex> {
    match p {
        Some(p) => active_words_upto(c, p, crate::app::deletion::cues_len(c) as int),
        None => Seq::empty(),
    }
}

fn active_cues_exec(cues: &SubtitleCues, p: i64) -> (r: Vec<CueIndex>)
    ensures
        r@ == active_cues_upto(cues.deep_view(), p, crate::app::deletion::cues_len(cues.deep_view()) as int),
{
    let n = cues.len();
    let mut r: Vec<CueIndex> = Vec::new();
    let mut i: usize = 0;
    while i < n
        invariant
            n == crate::app::deletion::cues_len(cues.deep_view()),
            i <= n,
            r@ == active_cues_upto(cues.deep_view(), p, i as int),
        decreases n - i,
    {
        let on = match cues {
            SubtitleCues::Word(v) => {
                assert(v.deep_view()[i as int].start == v@[i as int].start);
                v[i].start <= p && p < v[i].end
            },
            SubtitleCues::Cue(v) => {
                assert(v.deep_view()[i as int].start == v@[i as int].start);
                v[i].start <= p && p < v[i].end
            },
            _ => false,
        };
        if on {
            r.push(CueIndex { cue: i });
        }
        i = i + 1;
    }
    r
}

fn active_words_exec(cues: &SubtitleCues, p: i64) -> (r: Vec<WordIndex>)
    ensures
        r@ == active_words_upto(cues.deep_view(), p, crate::app::deletion::cues_len(cues.deep_view()) as int),
{
    let mut r: Vec<WordIndex> = Vec::new();
    match cues {
        SubtitleCues::Word(v) => {
            let ghost c = cues.deep_view();
            let mut i: usize = 0;
            while i < v.len()
                invariant
                    c == cues.deep_view(),
                    c == CuesView::Word(v.deep_view()),
                    i <= v@.len(),
                    r@ == active_words_upto(c, p, i as int),
                decreases v@.len() - i,
            {
                let w = &v[i].words;
                let ghost wv = v.deep_view()[i as int].words;
                assert(wv == w.deep_view());
                let ghost before = r@;
                let mut j: usize = 0;
                while j < w.len()
                    invariant
                        wv == w.deep_view(),
                        j <= w@.len(),
                        r@ == before + active_words_in(wv, i as int, p, j as int),
                    decreases w@.len() - j,
                {
                    assert(wv[j as int].start == w@[j as int].start);
                    if w[j].start <= p && p < w[j].end {
                        r.push(WordIndex { cue: i, word: j });
                        assert(r@ =~= before + active_words_in(wv, i as int, p, j as int + 1));
                    } else {
                        assert(r@ =~= before + active_words_in(wv, i as int, p, j as int + 1));
                    }
                    j = j + 1;
                }
                i = i + 1;
            }
        },
        _ => {
            assert(r@ =~= active_words_upto(cues.deep_view(), p, crate::app::deletion::cues_len(cues.deep_view()) as int));
        },
    }
    r
}

/// Whether two lists of cues are the same.
fn same_cues(a: &Vec<CueIndex>, b: &Vec<CueIndex>) -> (r: bool)
    ensures
        r == (a@ == b@),
{
    if a.len() != b.len() {
        return false;
    }
    let mut i: usize = 0;
    while i < a.len()
        invariant
            a@.len() == b@.len(),
            i <= a@.len(),
            forall|k: int| 0 <= k < i ==> a@[k] == b@[k],
        decreases a@.len() - i,
    {
        if a[i].cue != b[i].cue {
            return false;
        }
        i = i + 1;
    }
    assert(a@ =~= b@);
    true
}

/// Whether two lists of words are the same.
fn same_words(a: &Vec<WordIndex>, b: &Vec<WordIndex>) -> (r: bool)
    ensures
        r == (a@ == b@),
{
    if a.len() != b.len() {
        return false;
    }
    let mut i: usize = 0;
    while i < a.len()
        invariant
            a@.len() == b@.len(),
            i <= a@.len(),
            forall|k: int| 0 <= k < i ==> a@[k] == b@[k],
        decreases a@.len() - i,
    {
        if a[i].cue != b[i].cue || a[i].word != b[i].word {
            return false;
        }
        i = i + 1;
    }
    assert(a@ =~= b@);
    true
}

impl CueSynchronizer {
    /// Follows the position: the cues under way become the active ones; the
    /// new active cues are reported where they changed.
    pub fn update(&mut self, cues: Option<&SubtitleCues>, position: Option<i64>) -> (r: Option<Vec<CueIndex>>)
        ensures
            final(self).active@ == match cues {
                Some(c) => active_cues_at(c.deep_view(), position),
                None => Seq::<CueIndex>::empty(),
            },
            match r {
                Some(v) => v@ == final(self).active@ && final(self).active@ != old(self).active@,
                None => final(self).active@ == old(self).active@,
            },
    {
        let now = match (cues, position) {
            (Some(c), Some(p)) => active_cues_exec(c, p),
            _ => {
                let v: Vec<CueIndex> = Vec::new();
                assert(v@ =~= Seq::<CueIndex>::empty());
                v
            },
        };
        if same_cues(&now, &self.active) {
            None
        } else {
            let report = now.clone();
            assert(report@ =~= now@);
            self.active = now;
            Some(report)
        }
    }
}

impl WordSynchronizer {
    /// Follows the position: the words under way become the active ones;
    /// the new active words are reported where they changed.
    pub fn update(&mut self, cues: Option<&SubtitleCues>, position: Option<i64>) -> (r: Option<Vec<WordIndex>>)
        ensures
            final(self).active@ == match cues {
                Some(c) => active_words_at(c.deep_view(), position),
                None => Seq::<WordIndex>::empty(),
            },
            match r {
                Some(v) => v@ == final(self).active@ && final(self).active@ != old(self).active@,
                None => final(self).active@ == old(self).active@,
            },
    {
        let now = match (cues, position) {
            (Some(c), Some(p)) => active_words_exec(c, p),
            _ => {
                let v: Vec<WordIndex> = Vec::new();
                assert(v@ =~= Seq::<WordIndex>::empty());
                v
            },
        };
        if same_words(&now, &self.active) {
            None
        } else {
            let report = now.clone();
            assert(report@ =~= now@);
            self.active = now;
            Some(report)
        }
    }
}

/// The mode followed for cues of `c`: words for cues timed word by word,
/// else cues.
pub open spec fn mode_for(c: CuesView) -> SynchronizerMode {
    if c is Word { SynchronizerMode::Word } else { SynchronizerMode::Cue }
}

impl AppSynchronizer {
    /// `self` is `before` after following `position` in `cues`, having
    /// reported `r` (see `update`).
    pub open spec fn followed(self, before: AppSynchronizer, cues: Option<CuesView>, position: Option<i64>, r: Option<SyncEvent>) -> bool {
        &&& self.mode == match cues {
            Some(c) => mode_for(c),
            None => before.mode,
        }
        &&& self.mode == SynchronizerMode::Word ==> self.cue_synchronizer == before.cue_synchronizer
            && self.word_synchronizer.active@ == match cues {
                Some(c) => active_words_at(c, position),
                None => Seq::<WordIndex>::empty(),
            }
            && match r {
                Some(SyncEvent::Word(v)) => v@ == self.word_synchronizer.active@
                    && self.word_synchronizer.active@ != before.word_synchronizer.active@,
                Some(SyncEvent::Cue(_)) => false,
                None => self.word_synchronizer.active@ == before.word_synchronizer.active@,
            }
        &&& self.mode == SynchronizerMode::Cue ==> self.word_synchronizer == before.word_synchronizer
            && self.cue_synchronizer.active@ == match cues {
                Some(c) => active_cues_at(c, position),
                None => Seq::<CueIndex>::empty(),
            }
            && match r {
                Some(SyncEvent::Cue(v)) => v@ == self.cue_synchronizer.active@
                    && self.cue_synchronizer.active@ != before.cue_synchronizer.active@,
                Some(SyncEvent::Word(_)) => false,
                None => self.cue_synchronizer.active@ == before.cue_synchronizer.active@,
            }
        &&& self.mode == SynchronizerMode::Inactive ==> r is None && self == before
    }

    /// Follows the position in the document's cues: the mode is chosen by
    /// the cues' level (kept without a document), then the followed
    /// synchroniser is updated; its report is handed on.
    pub fn update(&mut self, cues: Option<&SubtitleCues>, position: Option<i64>) -> (r: Option<SyncEvent>)
        ensures
            final(self).followed(*old(self), match cues { Some(c) => Some(c.deep_view()), None => None }, position, r),
    {
        match cues {
            Some(SubtitleCues::Word(_)) => self.mode = SynchronizerMode::Word,
            Some(_) => self.mode = SynchronizerMode::Cue,
            None => {},
        }
        match self.mode {
            SynchronizerMode::Word => match self.word_synchronizer.update(cues, position) {
                Some(v) => Some(SyncEvent::Word(v)),
                None => None,
            },
            SynchronizerMode::Cue => match self.cue_synchronizer.update(cues, position) {
                Some(v) => Some(SyncEvent::Cue(v)),
                None => None,
            },
            SynchronizerMode::Inactive => None,
        }
    }
}

/// The first `k` cues of `c`, `k` at most their number: the active ones are
/// exactly those that have started at `p` and not ended, listed in increasing
/// order.
pub proof fn law_active_cues_upto(c: CuesView, p: i64, k: int)
    requires
        0 <= k <= crate::app::deletion::cues_len(c),
        crate::app::deletion::cues_len(c) <= usize::MAX,
    ensures
        forall|j: usize| #[trigger] active_cues_upto(c, p, k).contains(CueIndex { cue: j }) <==> (j < k && match c {
            CuesView::Word(s) => s[j as int].start <= p < s[j as int].end,
            CuesView::Cue(s) => s[j as int].start <= p < s[j as int].end,
            _ => false,
        }),
        forall|a: int, b: int| 0 <= a < b < active_cues_upto(c, p, k).len()
            ==> active_cues_upto(c, p, k)[a].cue < active_cues_upto(c, p, k)[b].cue,
        forall|a: int| 0 <= a < active_cues_upto(c, p, k).len() ==> active_cues_upto(c, p, k)[a].cue < k,
    decreases k,
{
    if k > 0 {
        law_active_cues_upto(c, p, k - 1);
        let r = active_cues_upto(c, p, k - 1);
        let x = CueIndex { cue: (k - 1) as usize };
        if cue_active(c, k - 1, p) {
            assert(r.push(x)[r.len() as int] == x);
            assert forall|j: usize| #[trigger] r.push(x).contains(CueIndex { cue: j }) <==> (j < k && match c {
                CuesView::Word(s) => s[j as int].start <= p < s[j as int].end,
                CuesView::Cue(s) => s[j as int].start <= p < s[j as int].end,
                _ => false,
            }) by {
                if r.push(x).contains(CueIndex { cue: j }) {
                    let m = choose|m: int| 0 <= m < r.push(x).len() && r.push(x)[m] == CueIndex { cue: j };
                    if m < r.len() {
                        assert(r[m] == CueIndex { cue: j });
                        assert(r.contains(CueIndex { cue: j }));
                    }
                }
                if j < k - 1 && r.contains(CueIndex { cue: j }) {
                    let m = choose|m: int| 0 <= m < r.len() && r[m] == CueIndex { cue: j };
                    assert(r.push(x)[m] == CueIndex { cue: j });
                }
            }
        }
    }
}

/// The cues under way at a position are exactly those that have started and
/// not ended there, in increasing order; without a position, none.
pub proof fn law_active_cues_at(c: CuesView, p: Option<i64>)
    requires
        crate::app::deletion::cues_len(c) <= usize::MAX,
    ensures
        forall|j: usize| #[trigger] active_cues_at(c, p).contains(CueIndex { cue: j }) <==> (p matches Some(t) && j < crate::app::deletion::cues_len(c) && match c {
            CuesView::Word(s) => s[j as int].start <= t < s[j as int].end,
            CuesView::Cue(s) => s[j as int].start <= t < s[j as int].end,
            _ => false,
        }),
        forall|a: int, b: int| 0 <= a < b < active_cues_at(c, p).len()
            ==> active_cues_at(c, p)[a].cue < active_cues_at(c, p)[b].cue,
{
    if let Some(t) = p {
        law_active_cues_upto(c, t, crate::app::deletion::cues_len(c) as int);
    }
}

proof fn lemma_active_words_in(w: Seq<WordView>, i: int, p: i64, k: int)
    requires
        0 <= k <= w.len(),
        w.len() <= usize::MAX,
        0 <= i <= usize::MAX,
    ensures
        forall|x: WordIndex| #[trigger] active_words_in(w, i, p, k).contains(x) <==> (x.cue == i && x.word < k
            && w[x.word as int].start <= p < w[x.word as int].end),
    decreases k,
{
    if k > 0 {
        lemma_active_words_in(w, i, p, k - 1);
        let r = active_words_in(w, i, p, k - 1);
        let y = WordIndex { cue: i as usize, word: (k - 1) as usize };
        if w[k - 1].start <= p < w[k - 1].end {
            assert(r.push(y)[r.len() as int] == y);
            assert forall|x: WordIndex| #[trigger] r.push(y).contains(x) <==> (x.cue == i && x.word < k
                && w[x.word as int].start <= p < w[x.word as int].end) by {
                if r.push(y).contains(x) {
                    let m = choose|m: int| 0 <= m < r.push(y).len() && r.push(y)[m] == x;
                    if m < r.len() {
                        assert(r[m] == x);
                        assert(r.contains(x));
                    }
                }
                if x.word < k - 1 && r.contains(x) {
                    let m = choose|m: int| 0 <= m < r.len() && r[m] == x;
                    assert(r.push(y)[m] == x);
                }
            }
        }
    }
}

/// The words of the first `k` cues timed word by word that are under way at
/// `p` are exactly the words of those cues that have started there and not
/// ended.
pub proof fn law_active_words_upto(s: Seq<AlignedCueView>, p: i64, k: int)
    requires
        0 <= k <= s.len(),
        s.len() <= usize::MAX,
        forall|i: int| 0 <= i < s.len() ==> (#[trigger] s[i]).words.len() <= usize::MAX,
    ensures
        forall|x: WordIndex| #[trigger] active_words_upto(CuesView::Word(s), p, k).contains(x) <==> (x.cue < k
            && x.word < s[x.cue as int].words.len()
            && s[x.cue as int].words[x.word as int].start <= p < s[x.cue as int].words[x.word as int].end),
    decreases k,
{
    if k > 0 {
        law_active_words_upto(s, p, k - 1);
        let a = active_words_upto(CuesView::Word(s), p, k - 1);
        let ws = s[k - 1].words;
        lemma_active_words_in(ws, k - 1, p, ws.len() as int);
        let b = active_words_in(ws, k - 1, p, ws.len() as int);
        assert forall|x: WordIndex| #[trigger] (a + b).contains(x) <==> (a.contains(x) || b.contains(x)) by {
            if (a + b).contains(x) {
                let m = choose|m: int| 0 <= m < (a + b).len() && (a + b)[m] == x;
                if m < a.len() {
                    assert(a[m] == x);
                } else {
                    assert(b[m - a.len()] == x);
                }
            }
            if a.contains(x) {
                let m = choose|m: int| 0 <= m < a.len() && a[m] == x;
                assert((a + b)[m] == x);
            }
            if b.contains(x) {
                let m = choose|m: int| 0 <= m < b.len() && b[m] == x;
                assert((a + b)[a.len() + m] == x);
            }
        }
    }
}

} // verus!
