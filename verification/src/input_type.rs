//! What the user names as the source of the comments: a file, a folder, a
//! video, a season or an episode.
use vstd::prelude::*;
use vstd::slice::slice_subrange;
use vstd::utf8::encode_utf8;

use crate::number::{bounded_of, parse_u32, parse_unsigned};

verus! {

/// A source of comments.
#[derive(Debug, PartialEq, Eq)]
pub enum InputType {
    /// A file, by its path.
    File(String),
    /// A folder, by its path.
    Folder(String),
    /// A video, such as `https://www.bilibili.com/video/BV1z44y1E7m6`, and
    /// the page of it.
    BV { bv: String, p: Option<u32> },
    /// A season, such as `https://www.bilibili.com/bangumi/play/ss28296`.
    Season { season_id: u64 },
    /// An episode, such as `https://www.bilibili.com/bangumi/play/ep473502`.
    Episode { episode_id: u64 },
}

/// The mathematical value of an `InputType`.
pub enum InputTypeView {
    File(Seq<char>),
    Folder(Seq<char>),
    BV { bv: Seq<char>, p: Option<u32> },
    Season { season_id: u64 },
    Episode { episode_id: u64 },
}

impl View for InputType {
    type V = InputTypeView;

    open spec fn view(&self) -> InputTypeView {
        match *self {
            InputType::File(path) => InputTypeView::File(path@),
            InputType::Folder(path) => InputTypeView::Folder(path@),
            InputType::BV { bv, p } => InputTypeView::BV { bv: bv@, p },
            InputType::Season { season_id } => InputTypeView::Season { season_id },
            InputType::Episode { episode_id } => InputTypeView::Episode { episode_id },
        }
    }
}

/// Why a text names no source.
#[derive(Debug, Clone, Copy, PartialEq, Eq, Structural)]
pub enum InputError {
    /// The URL is not of the domain `www.bilibili.com`.
    UnsupportedDomain,
    /// The path of the URL ends before the segment that is looked for.
    MissingPathSegment,
    /// The path starts with `bangumi` and does not go on with `play`.
    NotBangumiPlay,
    /// The path starts with neither `video` nor `bangumi`.
    UnsupportedUrl,
    /// The text after `ss` or `ep` is no number.
    BadId,
    /// The text starts with neither `ss` nor `ep`.
    UnsupportedId,
}

/// What is read of a URL: its domain, the segments of its path and the
/// pairs of its query, each where it has one.
#[derive(Debug, PartialEq, Eq)]
pub struct UrlParts {
    pub domain: Option<String>,
    pub path_segments: Option<Vec<String>>,
    pub query_pairs: Vec<(String, String)>,
}

/// The mathematical value of `UrlParts`.
pub struct UrlView {
    pub domain: Option<Seq<char>>,
    pub path_segments: Option<Seq<Seq<char>>>,
    pub query_pairs: Seq<(Seq<char>, Seq<char>)>,
}

impl View for UrlParts {
    type V = UrlView;

    open spec fn view(&self) -> UrlView {
        UrlView {
            domain: match self.domain {
                Some(d) => Some(d@),
                None => None,
            },
            path_segments: match self.path_segments {
                Some(segments) => Some(segments@.map_values(|s: String| s@)),
                None => None,
            },
            query_pairs: self.query_pairs@.map_values(|pair: (String, String)| (pair.0@, pair.1@)),
        }
    }
}

/// The parts of the absolute URL that `s` is, as the crate `url` reads it;
/// `None` where `s` is no absolute URL.
pub uninterp spec fn url_of(s: Seq<char>) -> Option<UrlView>;

/// Reads `s` as an absolute URL and gives its parts.
///
/// Calls `url::Url::parse`, which fails where `s` is no absolute URL, and
/// then reads from the URL its domain with `Url::domain`, the segments of
/// its path with `Url::path_segments` and the decoded pairs of its query
/// with `Url::query_pairs`. All of this depends on `s` alone.
#[verifier::external_body]
fn parse_url(s: &str) -> (r: Option<UrlParts>)
    ensures
        r matches Some(parts) ==> url_of(s@) == Some(parts@),
        r is None ==> url_of(s@) is None,
{
    let url = url::Url::parse(s).ok()?;
    Some(
        UrlParts {
            domain: url.domain().map(|d| d.to_string()),
            path_segments: url.path_segments().map(|p| p.map(|x| x.to_string()).collect()),
            query_pairs: url.query_pairs().map(|(k, v)| (k.into_owned(), v.into_owned())).collect(),
        },
    )
}

/// Whether `s` starts with `prefix`.
pub open spec fn has_prefix(s: Seq<u8>, prefix: Seq<u8>) -> bool {
    prefix.len() <= s.len() && s.take(prefix.len() as int) == prefix
}

/// Whether `b` is an ASCII letter or digit.
pub open spec fn is_alphanumeric(b: u8) -> bool {
    0x30 <= b <= 0x39 || 0x41 <= b <= 0x5a || 0x61 <= b <= 0x7a
}

/// Whether `s` is made of ASCII letters and digits alone.
pub open spec fn all_alphanumeric(s: Seq<u8>) -> bool {
    forall|i: int| 0 <= i < s.len() ==> is_alphanumeric(#[trigger] s[i])
}

/// The season or episode that an id names, given in UTF-8: `ss` and a
/// number name a season, `ep` and a number an episode.
pub open spec fn id_of(s: Seq<u8>) -> Result<InputTypeView, InputError> {
    let ss = encode_utf8("ss"@);
    let ep = encode_utf8("ep"@);
    if has_prefix(s, ss) {
        match bounded_of(s.skip(ss.len() as int), u64::MAX as nat) {
            Some(v) => Ok(InputTypeView::Season { season_id: v as u64 }),
            None => Err(InputError::BadId),
        }
    } else if has_prefix(s, ep) {
        match bounded_of(s.skip(ep.len() as int), u64::MAX as nat) {
            Some(v) => Ok(InputTypeView::Episode { episode_id: v as u64 }),
            None => Err(InputError::BadId),
        }
    } else {
        Err(InputError::UnsupportedId)
    }
}

/// `i` is the first pair of `pairs` with the key `p`.
pub open spec fn is_first_page(pairs: Seq<(Seq<char>, Seq<char>)>, i: int) -> bool {
    &&& 0 <= i < pairs.len()
    &&& pairs[i].0 == "p"@
    &&& forall|j: int| 0 <= j < i ==> (#[trigger] pairs[j]).0 != "p"@
}

/// The page that a query asks for: the value of its first pair with the
/// key `p`, where that is a number.
pub open spec fn page_of(pairs: Seq<(Seq<char>, Seq<char>)>) -> Option<u32> {
    if exists|i: int| is_first_page(pairs, i) {
        match bounded_of(
            encode_utf8(pairs[choose|i: int| is_first_page(pairs, i)].1),
            u32::MAX as nat,
        ) {
            Some(v) => Some(v as u32),
            None => None,
        }
    } else {
        None
    }
}

/// The source that a URL names. It is of the domain `www.bilibili.com`, and
/// its path is `video` and the video, or `bangumi`, `play` and the id of a
/// season or an episode.
pub open spec fn input_of_url(url: UrlView) -> Result<InputTypeView, InputError> {
    if url.domain != Some("www.bilibili.com"@) {
        Err(InputError::UnsupportedDomain)
    } else {
        match url.path_segments {
            None => Err(InputError::MissingPathSegment),
            Some(segments) => if segments.len() == 0 {
                Err(InputError::MissingPathSegment)
            } else if segments[0] == "video"@ {
                if segments.len() < 2 {
                    Err(InputError::MissingPathSegment)
                } else {
                    Ok(InputTypeView::BV { bv: segments[1], p: page_of(url.query_pairs) })
                }
            } else if segments[0] == "bangumi"@ {
                if segments.len() < 2 || segments[1] != "play"@ {
                    Err(InputError::NotBangumiPlay)
                } else if segments.len() < 3 {
                    Err(InputError::MissingPathSegment)
                } else {
                    id_of(encode_utf8(segments[2]))
                }
            } else {
                Err(InputError::UnsupportedUrl)
            },
        }
    }
}

/// The source that a text names. A text that starts with `http` and is a
/// URL names what the URL names. A text of ASCII letters and digits names a
/// video where it starts with `BV`, else a season or an episode where it
/// is the id of one. Any other text is the path of a file.
pub open spec fn input_of(s: Seq<char>) -> Result<InputTypeView, InputError> {
    let bytes = encode_utf8(s);
    if has_prefix(bytes, encode_utf8("http"@)) && url_of(s) is Some {
        input_of_url(url_of(s)->0)
    } else if all_alphanumeric(bytes) && has_prefix(bytes, encode_utf8("BV"@)) {
        Ok(InputTypeView::BV { bv: s, p: None })
    } else if all_alphanumeric(bytes) && id_of(bytes) is Ok {
        id_of(bytes)
    } else {
        Ok(InputTypeView::File(s))
    }
}

/// The view of a result of reading a source.
pub open spec fn input_view(r: Result<InputType, InputError>) -> Result<InputTypeView, InputError> {
    match r {
        Ok(t) => Ok(t@),
        Err(e) => Err(e),
    }
}

/// Whether `s` starts with `prefix`.
pub fn starts_with(s: &[u8], prefix: &[u8]) -> (r: bool)
    ensures
        r == has_prefix(s@, prefix@),
{
    if prefix.len() > s.len() {
        return false;
    }
    let mut i: usize = 0;
    while i < prefix.len()
        invariant
            i <= prefix@.len() <= s@.len(),
            forall|j: int| 0 <= j < i ==> s@[j] == prefix@[j],
        decreases prefix@.len() - i,
    {
        if s[i] != prefix[i] {
            proof {
                assert(s@.take(prefix@.len() as int)[i as int] == s@[i as int]);
            }
            return false;
        }
        i += 1;
    }
    proof {
        assert(s@.take(prefix@.len() as int) =~= prefix@);
    }
    true
}

/// Whether `s` is made of ASCII letters and digits alone.
fn is_all_alphanumeric(s: &[u8]) -> (r: bool)
    ensures
        r == all_alphanumeric(s@),
{
    let mut i: usize = 0;
    while i < s.len()
        invariant
            i <= s@.len(),
            forall|j: int| 0 <= j < i ==> is_alphanumeric(#[trigger] s@[j]),
        decreases s@.len() - i,
    {
        let b: u8 = s[i];
        if !((0x30 <= b && b <= 0x39) || (0x41 <= b && b <= 0x5a) || (0x61 <= b && b <= 0x7a)) {
            return false;
        }
        i += 1;
    }
    true
}

/// Reads what follows the two letters of an id as a number.
fn parse_id_number(s: &[u8], prefix_len: usize) -> (r: Option<u64>)
    requires
        prefix_len <= s@.len(),
    ensures
        r matches Some(v) ==> bounded_of(s@.skip(prefix_len as int), u64::MAX as nat) == Some(
            v as nat,
        ),
        r is None ==> bounded_of(s@.skip(prefix_len as int), u64::MAX as nat) is None,
{
    let rest = slice_subrange(s, prefix_len, s.len());
    proof {
        assert(rest@ =~= s@.skip(prefix_len as int));
    }
    parse_unsigned(rest, 0xffff_ffff_ffff_ffff)
}

/// The page that the query asks for.
fn find_page(pairs: &Vec<(String, String)>) -> (r: Option<u32>)
    ensures
        r == page_of(pairs@.map_values(|pair: (String, String)| (pair.0@, pair.1@))),
{
    let ghost view = pairs@.map_values(|pair: (String, String)| (pair.0@, pair.1@));
    let key: String = "p".to_owned();
    let mut i: usize = 0;
    while i < pairs.len()
        invariant
            i <= pairs@.len(),
            key@ == "p"@,
            view == pairs@.map_values(|pair: (String, String)| (pair.0@, pair.1@)),
            forall|j: int| 0 <= j < i ==> (#[trigger] view[j]).0 != "p"@,
        decreases pairs@.len() - i,
    {
        assert(view[i as int] == (pairs@[i as int].0@, pairs@[i as int].1@));
        if pairs[i].0 == key {
            proof {
                assert(is_first_page(view, i as int));
                let c = choose|c: int| is_first_page(view, c);
                if c < i {
                    assert(view[c].0 != "p"@);
                } else if i < c {
                    assert(view[i as int].0 != "p"@);
                }
            }
            return parse_u32(pairs[i].1.as_str().as_bytes());
        }
        i += 1;
    }
    None
}

impl InputType {
    /// The source that the parts of a URL name.
    pub fn from_url(url: &UrlParts) -> (r: Result<InputType, InputError>)
        ensures
            input_view(r) == input_of_url(url@),
    {
        let domain_ok: bool = match &url.domain {
            Some(d) => *d == "www.bilibili.com".to_owned(),
            None => false,
        };
        if !domain_ok {
            return Err(InputError::UnsupportedDomain);
        }
        let segments: &Vec<String> = match &url.path_segments {
            Some(s) => s,
            None => {
                return Err(InputError::MissingPathSegment);
            },
        };
        let ghost view = segments@.map_values(|s: String| s@);
        if segments.len() == 0 {
            return Err(InputError::MissingPathSegment);
        }
        assert(view[0] == segments@[0]@);
        if segments[0] == "video".to_owned() {
            if segments.len() < 2 {
                return Err(InputError::MissingPathSegment);
            }
            assert(view[1] == segments@[1]@);
            let p: Option<u32> = find_page(&url.query_pairs);
            Ok(InputType::BV { bv: segments[1].clone(), p })
        } else if segments[0] == "bangumi".to_owned() {
            if segments.len() < 2 {
                return Err(InputError::NotBangumiPlay);
            }
            assert(view[1] == segments@[1]@);
            if segments[1] != "play".to_owned() {
                return Err(InputError::NotBangumiPlay);
            }
            if segments.len() < 3 {
                return Err(InputError::MissingPathSegment);
            }
            assert(view[2] == segments@[2]@);
            InputType::from_episode_or_season_str(segments[2].as_str())
        } else {
            Err(InputError::UnsupportedUrl)
        }
    }

    /// The season or episode that the id `s` names.
    pub fn from_episode_or_season_str(s: &str) -> (r: Result<InputType, InputError>)
        ensures
            input_view(r) == id_of(encode_utf8(s@)),
    {
        let bytes = s.as_bytes();
        let ss = "ss".as_bytes();
        let ep = "ep".as_bytes();
        if starts_with(bytes, ss) {
            match parse_id_number(bytes, ss.len()) {
                Some(season_id) => Ok(InputType::Season { season_id }),
                None => Err(InputError::BadId),
            }
        } else if starts_with(bytes, ep) {
            match parse_id_number(bytes, ep.len()) {
                Some(episode_id) => Ok(InputType::Episode { episode_id }),
                None => Err(InputError::BadId),
            }
        } else {
            Err(InputError::UnsupportedId)
        }
    }

    /// The source that the text `s` names. A path is given as a file; see
    /// `resolve_path` for folders.
    pub fn from_str(s: &str) -> (r: Result<InputType, InputError>)
        ensures
            input_view(r) == input_of(s@),
    {
        let bytes = s.as_bytes();
        if starts_with(bytes, "http".as_bytes()) {
            if let Some(url) = parse_url(s) {
                return InputType::from_url(&url);
            }
        }
        if is_all_alphanumeric(bytes) {
            if starts_with(bytes, "BV".as_bytes()) {
                return Ok(InputType::BV { bv: s.to_owned(), p: None });
            }
            let id = InputType::from_episode_or_season_str(s);
            if id.is_ok() {
                return id;
            }
        }
        Ok(InputType::File(s.to_owned()))
    }

    /// The source with what is known of its path: a file whose path is
    /// that of a directory is a folder. Any other source stays as it is.
    pub fn resolve_path(self, is_dir: bool) -> (r: InputType)
        ensures
            r@ == match self@ {
                InputTypeView::File(path) => if is_dir {
                    InputTypeView::Folder(path)
                } else {
                    InputTypeView::File(path)
                },
                other => other,
            },
    {
        match self {
            InputType::File(path) => if is_dir {
                InputType::Folder(path)
            } else {
                InputType::File(path)
            },
            other => other,
        }
    }
}

impl std::str::FromStr for InputType {
    type Err = InputError;

    /// The source that the text `s` names, as the method of the same name
    /// of `InputType` reads it.
    fn from_str(s: &str) -> (r: Result<InputType, InputError>)
        ensures
            input_view(r) == input_of(s@),
    {
        InputType::from_str(s)
    }
}

} // verus!
