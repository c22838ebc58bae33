//! Finding the subtitle files of a track beside it: `song.lrc`,
//! `song.elrc`, `song.txt`, and translations such as `song.es.lrc`; for each
//! variant the file of the richest format is taken.

use vstd::prelude::*;

use crate::cues::Language;
use crate::modal::is_language_code;
use crate::state::{SubtitleVariant, VariantView};
use vstd::string::StrSliceExecFns;

verus! {

/// The format of a subtitle file, by its extension.
#[derive(Debug, Clone, Copy, PartialEq, Eq, Structural)]
pub enum SubtitleExtension {
    ELRC,
    LRC,
    TXT,
}

impl SubtitleExtension {
    /// How much the format is preferred: word timing over line timing over
    /// plain text.
    pub open spec fn spec_priority(self) -> u8 {
        match self {
            SubtitleExtension::ELRC => 3,
            SubtitleExtension::LRC => 2,
            SubtitleExtension::TXT => 1,
        }
    }

    /// How much the format is preferred: word timing over line timing over
    /// plain text.
    pub fn priority(&self) -> (r: u8)
        ensures
            r == self.spec_priority(),
    {
        match self {
            SubtitleExtension::ELRC => 3,
            SubtitleExtension::LRC => 2,
            SubtitleExtension::TXT => 1,
        }
    }
}

/// The first place of a dot in `s`, from `k` on.
pub open spec fn dot_from(s: Seq<char>, k: int) -> Option<int>
    decreases s.len() - k,
{
    if 0 <= k < s.len() {
        if s[k] == '.' { Some(k) } else { dot_from(s, k + 1) }
    } else {
        None
    }
}

/// What the part of a file name after `<track>.` says: `elrc`, `lrc`, `txt`
/// for the original, `<language>.lrc` or `<language>.txt` for a translation.
pub open spec fn classify_suffix(s: Seq<char>) -> Option<(VariantView, SubtitleExtension)> {
    match dot_from(s, 0) {
        None => if s == seq!['e', 'l', 'r', 'c'] {
            Some((VariantView::Original, SubtitleExtension::ELRC))
        } else if s == seq!['l', 'r', 'c'] {
            Some((VariantView::Original, SubtitleExtension::LRC))
        } else if s == seq!['t', 'x', 't'] {
            Some((VariantView::Original, SubtitleExtension::TXT))
        } else {
            None
        },
        Some(p) => {
            let lang = s.subrange(0, p);
            let ext = s.subrange(p + 1, s.len() as int);
            if dot_from(ext, 0) is Some || !is_language_code(lang) {
                None
            } else if ext == seq!['l', 'r', 'c'] {
                Some((VariantView::Translated(lang), SubtitleExtension::LRC))
            } else if ext == seq!['t', 'x', 't'] {
                Some((VariantView::Translated(lang), SubtitleExtension::TXT))
            } else {
                None
            }
        },
    }
}

/// What a file named `name` is for the track whose file is named `stem`
/// (without extension): the name is the stem, a dot, and a suffix.
pub open spec fn classified(name: Seq<char>, stem: Seq<char>) -> Option<(VariantView, SubtitleExtension)> {
    if name.len() > stem.len() && name.subrange(0, stem.len() as int) == stem && name[stem.len() as int] == '.' {
        classify_suffix(name.subrange(stem.len() as int + 1, name.len() as int))
    } else {
        None
    }
}

fn chars_of(t: &str) -> (r: Vec<char>)
    ensures
        r@ == t@,
{
    let n = t.unicode_len();
    let mut r: Vec<char> = Vec::new();
    let mut i: usize = 0;
    while i < n
        invariant
            n == t@.len(),
            i <= n,
            r@ == t@.subrange(0, i as int),
        decreases n - i,
    {
        r.push(t.get_char(i));
        i = i + 1;
        assert(r@ =~= t@.subrange(0, i as int));
    }
    assert(t@.subrange(0, n as int) =~= t@);
    r
}

/// Whether `v` from `from` to `to` is `w`.
fn range_is(v: &Vec<char>, from: usize, to: usize, w: &Vec<char>) -> (r: bool)
    requires
        from <= to <= v@.len(),
    ensures
        r == (v@.subrange(from as int, to as int) == w@),
{
    if to - from != w.len() {
        return false;
    }
    let mut i: usize = 0;
    while i < w.len()
        invariant
            from <= to <= v@.len(),
            to - from == w@.len(),
            i <= w@.len(),
            forall|k: int| 0 <= k < i ==> v@[from + k] == w@[k],
        decreases w@.len() - i,
    {
        if v[from + i] != w[i] {
            assert(v@.subrange(from as int, to as int)[i as int] != w@[i as int]);
            return false;
        }
        i = i + 1;
    }
    assert(v@.subrange(from as int, to as int) =~= w@);
    true
}

fn dot_from_exec(v: &Vec<char>, k: usize) -> (r: Option<usize>)
    ensures
        r matches Some(p) ==> dot_from(v@, k as int) == Some(p as int) && k <= p < v@.len(),
        r is None ==> dot_from(v@, k as int) is None,
{
    let mut m = k;
    while m < v.len()
        invariant
            k <= m,
            dot_from(v@, k as int) == dot_from(v@, m as int),
        decreases v@.len() - m,
    {
        if v[m] == '.' {
            return Some(m);
        }
        m = m + 1;
    }
    None
}

fn is_code(v: &Vec<char>, from: usize, to: usize) -> (r: bool)
    requires
        from <= to <= v@.len(),
    ensures
        r == is_language_code(v@.subrange(from as int, to as int)),
{
    let ghost l = v@.subrange(from as int, to as int);
    if to - from < 2 || to - from > 3 {
        return false;
    }
    let mut i = from;
    while i < to
        invariant
            from <= i <= to <= v@.len(),
            l == v@.subrange(from as int, to as int),
            forall|k: int| 0 <= k < i - from ==> (('a' <= #[trigger] l[k] && l[k] <= 'z') || ('A' <= l[k] && l[k] <= 'Z')),
        decreases to - i,
    {
        let c = v[i];
        if !(('a' <= c && c <= 'z') || ('A' <= c && c <= 'Z')) {
            assert(l[i - from] == c);
            return false;
        }
        i = i + 1;
    }
    true
}

/// What the file named `name` is for the track whose file name (without
/// extension) is `track_stem` (see `classified`).
pub fn classify_subtitle_file(name: &str, track_stem: &str) -> (r: Option<(SubtitleVariant, SubtitleExtension)>)
    ensures
        match r {
            Some((v, e)) => classified(name@, track_stem@) == Some((v.deep_view(), e)),
            None => classified(name@, track_stem@) is None,
        },
{
    let nv = chars_of(name);
    let sv = chars_of(track_stem);
    let n = nv.len();
    let k = sv.len();
    if !(n > k && range_is(&nv, 0, k, &sv) && nv[k] == '.') {
        return None;
    }
    let start = k + 1;
    let ghost s = nv@.subrange(start as int, n as int);
    let elrc = vec!['e', 'l', 'r', 'c'];
    let lrc = vec!['l', 'r', 'c'];
    let txt = vec!['t', 'x', 't'];
    match dot_from_exec(&nv, start) {
        None => {
            assert(dot_from(s, 0) is None) by {
                lemma_dot_shift(nv@, start as int, 0);
            }
            if range_is(&nv, start, n, &elrc) {
                Some((SubtitleVariant::Original, SubtitleExtension::ELRC))
            } else if range_is(&nv, start, n, &lrc) {
                Some((SubtitleVariant::Original, SubtitleExtension::LRC))
            } else if range_is(&nv, start, n, &txt) {
                Some((SubtitleVariant::Original, SubtitleExtension::TXT))
            } else {
                None
            }
        },
        Some(p) => {
            assert(dot_from(s, 0) == Some(p - start)) by {
                lemma_dot_shift(nv@, start as int, 0);
            }
            assert(s.subrange(0, p - start) =~= nv@.subrange(start as int, p as int));
            assert(s.subrange(p - start + 1, s.len() as int) =~= nv@.subrange(p + 1, n as int));
            let more = dot_from_exec(&nv, p + 1);
            proof {
                lemma_dot_shift(nv@, p + 1, 0);
            }
            if more.is_some() || !is_code(&nv, start, p) {
                return None;
            }
            let lang = name.substring_char(start, p).to_owned();
            if range_is(&nv, p + 1, n, &lrc) {
                Some((SubtitleVariant::Translated(Language { code: lang }), SubtitleExtension::LRC))
            } else if range_is(&nv, p + 1, n, &txt) {
                Some((SubtitleVariant::Translated(Language { code: lang }), SubtitleExtension::TXT))
            } else {
                None
            }
        },
    }
}

/// Looking for a dot in `s` from `a + k` is looking in `s` from `a` on,
/// from `k`.
proof fn lemma_dot_shift(s: Seq<char>, a: int, k: int)
    requires
        0 <= a <= s.len(),
        0 <= k,
    ensures
        match dot_from(s, a + k) {
            Some(p) => dot_from(s.subrange(a, s.len() as int), k) == Some(p - a),
            None => dot_from(s.subrange(a, s.len() as int), k) is None,
        },
    decreases s.len() - (a + k),
{
    let t = s.subrange(a, s.len() as int);
    if a + k < s.len() {
        assert(t[k] == s[a + k]);
        if s[a + k] != '.' {
            lemma_dot_shift(s, a, k + 1);
        }
    }
}

/// A file chosen for a variant: its format and its place in the listing.
pub struct Candidate {
    pub variant: SubtitleVariant,
    pub extension: SubtitleExtension,
    pub index: usize,
}

/// The first place of variant `v` among the chosen files.
pub open spec fn place_of(c: Seq<(VariantView, SubtitleExtension, int)>, v: VariantView) -> Option<int>
    decreases c.len(),
{
    if c.len() == 0 {
        None
    } else {
        match place_of(c.drop_last(), v) {
            Some(p) => Some(p),
            None => if c.last().0 == v { Some(c.len() - 1) } else { None },
        }
    }
}

/// The files chosen from the listing `files`, one per variant, in order of
/// the variant's first file: the first file of the most preferred format.
pub open spec fn candidates(files: Seq<Seq<char>>, stem: Seq<char>) -> Seq<(VariantView, SubtitleExtension, int)>
    decreases files.len(),
{
    if files.len() == 0 {
        Seq::empty()
    } else {
        let c = candidates(files.drop_last(), stem);
        let i = files.len() - 1;
        match classified(files.last(), stem) {
            None => c,
            Some((v, e)) => match place_of(c, v) {
                Some(p) => if c[p].1.spec_priority() >= e.spec_priority() { c } else { c.update(p, (v, e, i)) },
                None => c.push((v, e, i)),
            },
        }
    }
}

/// The chosen files, as plain values.
pub open spec fn candidates_view(c: Seq<Candidate>) -> Seq<(VariantView, SubtitleExtension, int)> {
    c.map_values(|x: Candidate| (x.variant.deep_view(), x.extension, x.index as int))
}

proof fn lemma_place_of(c: Seq<(VariantView, SubtitleExtension, int)>, v: VariantView)
    ensures
        place_of(c, v) matches Some(p) ==> 0 <= p < c.len() && c[p].0 == v && forall|q: int| 0 <= q < p ==> c[q].0 != v,
        place_of(c, v) is None ==> forall|q: int| 0 <= q < c.len() ==> c[q].0 != v,
    decreases c.len(),
{
    if c.len() > 0 {
        let d = c.drop_last();
        lemma_place_of(d, v);
        assert forall|q: int| 0 <= q < d.len() implies d[q] == c[q] by {}
    }
}

/// Of the subtitle files of a track, one is chosen per variant found: no
/// variant is chosen twice, each chosen file is one of the listing and of
/// its variant and format, and every file of the listing is of a variant
/// whose chosen file is of a format at least as preferred.
pub proof fn law_best_file_per_variant(files: Seq<Seq<char>>, stem: Seq<char>)
    ensures
        forall|p: int, q: int| 0 <= p < candidates(files, stem).len() && 0 <= q < candidates(files, stem).len() && p != q
            ==> (#[trigger] candidates(files, stem)[p]).0 != (#[trigger] candidates(files, stem)[q]).0,
        forall|p: int| 0 <= p < candidates(files, stem).len() ==> {
            &&& 0 <= (#[trigger] candidates(files, stem)[p]).2 < files.len()
            &&& classified(files[candidates(files, stem)[p].2], stem) == Some((candidates(files, stem)[p].0, candidates(files, stem)[p].1))
        },
        forall|i: int| 0 <= i < files.len() ==> (classified(#[trigger] files[i], stem) matches Some((v, e)) ==> exists|p: int|
            0 <= p < candidates(files, stem).len() && (#[trigger] candidates(files, stem)[p]).0 == v
                && candidates(files, stem)[p].1.spec_priority() >= e.spec_priority()),
    decreases files.len(),
{
    let c = candidates(files, stem);
    if files.len() > 0 {
        let u = files.drop_last();
        let n = files.len() - 1;
        let c0 = candidates(u, stem);
        law_best_file_per_variant(u, stem);
        assert forall|i: int| 0 <= i < n implies files[i] == u[i] by {}
        match classified(files.last(), stem) {
            None => {
                assert(c == c0);
                assert forall|i: int| 0 <= i < files.len() implies (classified(#[trigger] files[i], stem) matches Some((v, e)) ==> exists|p: int|
                    0 <= p < c.len() && (#[trigger] c[p]).0 == v && c[p].1.spec_priority() >= e.spec_priority()) by {
                    if i < n {
                        assert(files[i] == u[i]);
                    }
                }
            },
            Some((v, e)) => {
                lemma_place_of(c0, v);
                match place_of(c0, v) {
                    Some(p0) => {
                        if c0[p0].1.spec_priority() >= e.spec_priority() {
                            assert(c == c0);
                            assert forall|i: int| 0 <= i < files.len() implies (classified(#[trigger] files[i], stem) matches Some((v2, e2)) ==> exists|p: int|
                                0 <= p < c.len() && (#[trigger] c[p]).0 == v2 && c[p].1.spec_priority() >= e2.spec_priority()) by {
                                if i < n {
                                    assert(files[i] == u[i]);
                                } else {
                                    assert(c[p0].0 == v);
                                }
                            }
                        } else {
                            assert(c == c0.update(p0, (v, e, n)));
                            assert forall|p: int| 0 <= p < c.len() implies {
                                &&& 0 <= (#[trigger] c[p]).2 < files.len()
                                &&& classified(files[c[p].2], stem) == Some((c[p].0, c[p].1))
                            } by {
                                if p != p0 {
                                    assert(c[p] == c0[p]);
                                    assert(files[c0[p].2] == u[c0[p].2]);
                                }
                            }
                            assert forall|i: int| 0 <= i < files.len() implies (classified(#[trigger] files[i], stem) matches Some((v2, e2)) ==> exists|p: int|
                                0 <= p < c.len() && (#[trigger] c[p]).0 == v2 && c[p].1.spec_priority() >= e2.spec_priority()) by {
                                if i < n {
                                    assert(files[i] == u[i]);
                                    if let Some((v2, e2)) = classified(u[i], stem) {
                                        let w = choose|p: int| 0 <= p < c0.len() && (#[trigger] c0[p]).0 == v2
                                            && c0[p].1.spec_priority() >= e2.spec_priority();
                                        if w == p0 {
                                            assert(c[p0].0 == v2);
                                        } else {
                                            assert(c[w] == c0[w]);
                                        }
                                    }
                                } else {
                                    assert(c[p0].0 == v);
                                }
                            }
                        }
                    },
                    None => {
                        assert(c == c0.push((v, e, n)));
                        assert forall|p: int| 0 <= p < c.len() implies {
                            &&& 0 <= (#[trigger] c[p]).2 < files.len()
                            &&& classified(files[c[p].2], stem) == Some((c[p].0, c[p].1))
                        } by {
                            if p < c0.len() {
                                assert(c[p] == c0[p]);
                                assert(files[c0[p].2] == u[c0[p].2]);
                            }
                        }
                        assert forall|i: int| 0 <= i < files.len() implies (classified(#[trigger] files[i], stem) matches Some((v2, e2)) ==> exists|p: int|
                            0 <= p < c.len() && (#[trigger] c[p]).0 == v2 && c[p].1.spec_priority() >= e2.spec_priority()) by {
                            if i < n {
                                assert(files[i] == u[i]);
                                if let Some((v2, e2)) = classified(u[i], stem) {
                                    let w = choose|p: int| 0 <= p < c0.len() && (#[trigger] c0[p]).0 == v2
                                        && c0[p].1.spec_priority() >= e2.spec_priority();
                                    assert(c[w] == c0[w]);
                                }
                            } else {
                                assert(c[c0.len() as int].0 == v);
                            }
                        }
                    },
                }
            },
        }
    }
}

/// Chooses, from the file names of a directory, one file per variant of the
/// track's subtitles (see `candidates`).
pub fn choose_candidates(files: &Vec<String>, track_stem: &str) -> (r: Vec<Candidate>)
    ensures
        candidates_view(r@) == candidates(files.deep_view(), track_stem@),
{
    let ghost all = files.deep_view();
    let mut r: Vec<Candidate> = Vec::new();
    let mut i: usize = 0;
    assert(all.take(0) =~= Seq::<Seq<char>>::empty());
    while i < files.len()
        invariant
            all == files.deep_view(),
            i <= files@.len(),
            candidates_view(r@) == candidates(all.take(i as int), track_stem@),
        decreases files@.len() - i,
    {
        let ghost pre = all.take(i as int + 1);
        assert(pre.drop_last() =~= all.take(i as int));
        assert(pre.last() == files[i as int]@);
        let ghost c = candidates_view(r@);
        match classify_subtitle_file(files[i].as_str(), track_stem) {
            None => {},
            Some((v, e)) => {
                let mut p: usize = 0;
                while p < r.len() && !r[p].variant.same(&v)
                    invariant
                        p <= r@.len(),
                        c == candidates_view(r@),
                        forall|q: int| 0 <= q < p ==> c[q].0 != v.deep_view(),
                    decreases r@.len() - p,
                {
                    p = p + 1;
                }
                proof {
                    lemma_place_of(c, v.deep_view());
                }
                if p < r.len() {
                    assert(c[p as int].0 == v.deep_view());
                    assert(place_of(c, v.deep_view()) == Some(p as int)) by {
                        if place_of(c, v.deep_view()) != Some(p as int) {
                            let q = place_of(c, v.deep_view())->0;
                            assert(q < p || q > p);
                        }
                    }
                    if r[p].extension.priority() < e.priority() {
                        let ghost before = r@;
                        r.set(p, Candidate { variant: v, extension: e, index: i });
                        assert(candidates_view(r@) =~= c.update(p as int, (candidates_view(r@)[p as int].0, e, i as int)));
                    }
                } else {
                    r.push(Candidate { variant: v, extension: e, index: i });
                    assert(candidates_view(r@) =~= c.push((candidates_view(r@)[c.len() as int].0, e, i as int)));
                }
            },
        }
        i = i + 1;
    }
    assert(all.take(files@.len() as int) =~= all);
    r
}

} // verus!
