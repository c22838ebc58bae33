//! Lyrics found for a track: their text, its format, and where they came
//! from; and the services that look them up.

use vstd::prelude::*;
use vstd::string::StrSliceExecFns;

verus! {

/// The format of downloaded lyrics.
#[derive(Debug, Clone, Copy, PartialEq, Eq, Structural)]
pub enum LyricsFormat {
    /// Timed lines.
    Lrc,
    /// Plain text.
    Text,
}

/// Where lyrics came from.
#[derive(Debug, Clone, Copy, PartialEq, Eq, Structural)]
pub enum LyricsSource {
    Python,
    Lrclib,
}

/// Lyrics found for a track.
pub struct Lyrics {
    pub content: String,
    pub format: LyricsFormat,
    pub source: LyricsSource,
}

/// What went wrong when looking lyrics up.
#[derive(Debug)]
pub enum LyricsError {
    /// The lookup failed, with its message.
    PythonError(String),
}

impl LyricsError {
    /// How the error is shown: `Python error: ` and the message.
    pub fn describe(&self) -> (r: String)
        ensures
            r@ == "Python error: "@ + match self {
                LyricsError::PythonError(m) => m@,
            },
    {
        match self {
            LyricsError::PythonError(m) => {
                let mut r = String::from_str("Python error: ");
                crate::cues::append_str(&mut r, m.as_str());
                r
            },
        }
    }
}

/// The format a provider names: `lrc` or `text`.
pub open spec fn format_named(name: Seq<char>) -> Option<LyricsFormat> {
    if name == seq!['l', 'r', 'c'] {
        Some(LyricsFormat::Lrc)
    } else if name == seq!['t', 'e', 'x', 't'] {
        Some(LyricsFormat::Text)
    } else {
        None
    }
}

/// The source a provider names: `lrclib`.
pub open spec fn source_named(name: Seq<char>) -> Option<LyricsSource> {
    if name == seq!['l', 'r', 'c', 'l', 'i', 'b'] {
        Some(LyricsSource::Lrclib)
    } else {
        None
    }
}

fn is_text(s: &str, w: &Vec<char>) -> (r: bool)
    ensures
        r == (s@ == w@),
{
    let n = s.unicode_len();
    if n != w.len() {
        return false;
    }
    let mut i: usize = 0;
    while i < n
        invariant
            n == s@.len(),
            n == w@.len(),
            i <= n,
            forall|k: int| 0 <= k < i ==> s@[k] == w@[k],
        decreases n - i,
    {
        if s.get_char(i) != w[i] {
            return false;
        }
        i = i + 1;
    }
    assert(s@ =~= w@);
    true
}

/// The format a provider names; an error for any other name.
pub fn parse_format(name: &str) -> (r: Result<LyricsFormat, LyricsError>)
    ensures
        match format_named(name@) {
            Some(f) => r == Ok::<LyricsFormat, LyricsError>(f),
            None => r is Err,
        },
{
    if is_text(name, &vec!['l', 'r', 'c']) {
        Ok(LyricsFormat::Lrc)
    } else if is_text(name, &vec!['t', 'e', 'x', 't']) {
        Ok(LyricsFormat::Text)
    } else {
        Err(LyricsError::PythonError(String::from_str("unknown lyrics format")))
    }
}

/// The source a provider names; an error for any other name.
pub fn parse_source(name: &str) -> (r: Result<LyricsSource, LyricsError>)
    ensures
        match source_named(name@) {
            Some(s) => r == Ok::<LyricsSource, LyricsError>(s),
            None => r is Err,
        },
{
    if is_text(name, &vec!['l', 'r', 'c', 'l', 'i', 'b']) {
        Ok(LyricsSource::Lrclib)
    } else {
        Err(LyricsError::PythonError(String::from_str("unknown lyrics source")))
    }
}

/// Lyrics from what a provider gives back: the text, and the names of its
/// format and source.
pub fn lyrics_from(content: String, format: &str, source: &str) -> (r: Result<Lyrics, LyricsError>)
    ensures
        match (format_named(format@), source_named(source@)) {
            (Some(f), Some(s)) => (r matches Ok(l) && l.content@ == content@ && l.format == f && l.source == s),
            _ => r is Err,
        },
{
    let f = match parse_format(format) {
        Ok(f) => f,
        Err(e) => return Err(e),
    };
    let s = match parse_source(source) {
        Ok(s) => s,
        Err(e) => return Err(e),
    };
    Ok(Lyrics { content, format: f, source: s })
}

/// The lyrics services, by name.
pub struct LyricsService {
    pub providers: Vec<String>,
}

impl LyricsService {
    /// Whether a service of that name is known.
    pub fn has_provider(&self, name: &str) -> (r: bool)
        ensures
            r == exists|i: int| 0 <= i < self.providers@.len() && self.providers@[i]@ == name@,
    {
        let wanted = name.to_owned();
        let mut i: usize = 0;
        while i < self.providers.len()
            invariant
                wanted@ == name@,
                i <= self.providers@.len(),
                forall|k: int| 0 <= k < i ==> self.providers@[k]@ != name@,
            decreases self.providers@.len() - i,
        {
            if self.providers[i] == wanted {
                return true;
            }
            i = i + 1;
        }
        false
    }
}

impl Default for LyricsService {
    /// The lrclib service.
    fn default() -> (r: Self)
        ensures
            r.providers@.len() == 1,
            r.providers@[0]@ == seq!['l', 'r', 'c', 'l', 'i', 'b'],
    {
        let name = String::from_str("lrclib");
        proof {
            reveal_strlit("lrclib");
        }
        LyricsService { providers: vec![name] }
    }
}

/// Where timed lyrics downloaded for a track are kept: beside the track's
/// file, with the `lrc` extension (none without a file).
pub fn downloaded_lyrics_path(track_file_path: &Option<String>) -> (r: Option<String>)
    ensures
        r is Some <==> track_file_path is Some,
        track_file_path matches Some(p) ==> crate::alignment::plain_file_path(p@)
            ==> (r matches Some(q) && q@ == crate::alignment::path_with_extension(p@, seq!['l', 'r', 'c'])),
{
    proof {
        reveal_strlit("lrc");
    }
    match track_file_path {
        Some(p) => Some(crate::alignment::with_extension(p, "lrc")),
        None => None,
    }
}

} // verus!
