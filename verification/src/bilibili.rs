//! What the comment service answers, and what is chosen from its answers.
use vstd::prelude::*;
use vstd::string::StringExecFns;

use crate::danmu::DanmuType;
use crate::input_type::{has_prefix, starts_with};

verus! {

/// Seconds of a video that one segment of its comments covers.
pub const SEGMENT_SECONDS: u64 = 360;

/// `a / b`, rounded up.
pub fn div_ceil(a: u64, b: u64) -> (r: u64)
    requires
        b > 0,
    ensures
        r == (a + b - 1) / (b as int),
{
    let whole: u64 = a / b;
    let left: u64 = a % b;
    proof {
        lemma_div_ceil(a as int, b as int);
    }
    if left == 0 {
        whole
    } else {
        whole + 1
    }
}

/// A quotient rounded up is the quotient, and one more where there is a
/// remainder.
proof fn lemma_div_ceil(a: int, b: int)
    by (nonlinear_arith)
    requires
        a >= 0,
        b > 0,
    ensures
        (a + b - 1) / b == a / b + (if a % b == 0 {
            0int
        } else {
            1int
        }),
        a / b <= a,
        a % b != 0 ==> a / b < a,
{
}

/// Number of segments that the comments of a video of `duration_sec`
/// seconds come in. The segments are numbered from one.
pub fn segment_count(duration_sec: u64) -> (r: u64)
    ensures
        r == (duration_sec + SEGMENT_SECONDS - 1) / (SEGMENT_SECONDS as int),
{
    div_ceil(duration_sec, SEGMENT_SECONDS)
}

/// What the service sends when it is asked for a segment of comments.
#[derive(Debug, Clone, Copy, PartialEq, Eq, Structural)]
pub enum SegmentBody {
    /// Nothing: the segment holds no comments.
    Empty,
    /// An envelope in JSON, which reports a fault.
    Fault,
    /// The comments of the segment, as a protocol buffer.
    Comments,
}

/// What an answer to a request for a segment holds, by its status and its
/// content type: nothing for the status 304, else a fault for a content
/// type that starts with `application/json`, else the comments.
pub open spec fn segment_body_of(status: u16, content_type: Option<Seq<u8>>) -> SegmentBody {
    if status == 304 {
        SegmentBody::Empty
    } else if content_type matches Some(t) && has_prefix(
        t,
        vstd::utf8::encode_utf8("application/json"@),
    ) {
        SegmentBody::Fault
    } else {
        SegmentBody::Comments
    }
}

/// What an answer to a request for a segment holds.
pub fn segment_body(status: u16, content_type: Option<&[u8]>) -> (r: SegmentBody)
    ensures
        r == segment_body_of(
            status,
            match content_type {
                Some(t) => Some(t@),
                None => None,
            },
        ),
{
    if status == 304 {
        return SegmentBody::Empty;
    }
    match content_type {
        Some(t) => if starts_with(t, "application/json".as_bytes()) {
            SegmentBody::Fault
        } else {
            SegmentBody::Comments
        },
        None => SegmentBody::Comments,
    }
}

/// The envelope of an answer of the service.
#[derive(Debug)]
pub struct BiliResponse<T> {
    pub code: i64,
    pub message: String,
    pub result: Option<T>,
}

/// Why an answer of the service gives nothing.
#[derive(Debug, PartialEq, Eq)]
pub enum ResponseError {
    /// The service reports a fault, with its code and its message.
    Service { code: i64, message: String },
    /// The service reports no fault and sends no result.
    NoResult,
}

impl<T> BiliResponse<T> {
    /// The result in the envelope: the fault that the service reports where
    /// its code is not zero, else what it sent.
    pub fn into_result(self) -> (r: Result<T, ResponseError>)
        ensures
            r == (if self.code != 0 {
                Err::<T, ResponseError>(
                    ResponseError::Service { code: self.code, message: self.message },
                )
            } else {
                match self.result {
                    Some(t) => Ok(t),
                    None => Err(ResponseError::NoResult),
                }
            }),
    {
        if self.code != 0 {
            return Err(ResponseError::Service { code: self.code, message: self.message });
        }
        match self.result {
            Some(t) => Ok(t),
            None => Err(ResponseError::NoResult),
        }
    }
}

/// A season with its episodes.
#[derive(Debug)]
pub struct Season {
    pub season_id: u64,
    pub season_title: String,
    pub media_id: u64,
    pub title: String,
    pub cover: String,
    pub episodes: Vec<Episode>,
}

/// An episode of a season.
#[derive(Debug)]
pub struct Episode {
    pub aid: u64,
    pub bvid: String,
    pub cid: u64,
    /// The id of the episode.
    pub id: u64,
    pub duration_ms: u64,
    pub title: String,
}

/// What is asked of a season: the season itself, or one episode of it.
#[derive(Debug, Clone, Copy, PartialEq, Eq, Structural)]
pub enum SeasonKey {
    SeasonId(u64),
    EpId(u64),
}

/// Why nothing is chosen from a list.
#[derive(Debug, Clone, Copy, PartialEq, Eq, Structural)]
pub enum SelectError {
    /// The season has no episode with this id.
    EpisodeNotFound(u64),
    /// The video has fewer pages than the one asked for.
    PageOutOfRange { pages: usize, asked: u32 },
}

/// `i` is the first episode of `episodes` with the id `id`.
pub open spec fn is_first_episode(episodes: Seq<Episode>, id: u64, i: int) -> bool {
    &&& 0 <= i < episodes.len()
    &&& episodes[i].id == id
    &&& forall|j: int| 0 <= j < i ==> (#[trigger] episodes[j]).id != id
}

/// The first episode of `episodes` with the id `id`, if there is one.
pub open spec fn first_episode(episodes: Seq<Episode>, id: u64) -> Option<int> {
    if exists|i: int| is_first_episode(episodes, id, i) {
        Some(choose|i: int| is_first_episode(episodes, id, i))
    } else {
        None
    }
}

impl Episode {
    /// The length of the episode in whole seconds.
    pub fn duration_sec(&self) -> (r: u64)
        ensures
            r == self.duration_ms / 1000,
    {
        self.duration_ms / 1000
    }
}

impl Season {
    /// The episode that `key` asks for and the title to give its comments:
    /// for a season its first episode under the title of the season, for an
    /// episode the first one with that id under the title of the season, a
    /// dash and its own title.
    pub fn select(self, key: SeasonKey) -> (r: Result<(String, Episode), SelectError>)
        requires
            key is SeasonId ==> self.episodes@.len() > 0,
        ensures
            match key {
                SeasonKey::SeasonId(_) => {
                    &&& r matches Ok((title, episode))
                    &&& title == self.title
                    &&& episode == self.episodes@[0]
                },
                SeasonKey::EpId(id) => match first_episode(self.episodes@, id) {
                    Some(i) => {
                        &&& r matches Ok((title, episode))
                        &&& episode == self.episodes@[i]
                        &&& title@ == self.title@ + " - "@ + episode.title@
                    },
                    None => r == Err::<(String, Episode), SelectError>(
                        SelectError::EpisodeNotFound(id),
                    ),
                },
            },
    {
        let mut episodes = self.episodes;
        match key {
            SeasonKey::SeasonId(_) => {
                let first = episodes.swap_remove(0);
                Ok((self.title, first))
            },
            SeasonKey::EpId(id) => {
                let mut i: usize = 0;
                while i < episodes.len()
                    invariant
                        i <= episodes@.len(),
                        key == SeasonKey::EpId(id),
                        episodes@ == self.episodes@,
                        forall|j: int| 0 <= j < i ==> (#[trigger] episodes@[j]).id != id,
                    decreases episodes@.len() - i,
                {
                    if episodes[i].id == id {
                        proof {
                            assert(is_first_episode(self.episodes@, id, i as int));
                            let c = choose|c: int| is_first_episode(self.episodes@, id, c);
                            if c < i {
                                assert(self.episodes@[c].id != id);
                            } else if i < c {
                                assert(self.episodes@[i as int].id != id);
                            }
                        }
                        let episode = episodes.swap_remove(i);
                        let title = self.title.concat(" - ").concat(episode.title.as_str());
                        return Ok((title, episode));
                    }
                    i += 1;
                }
                Err(SelectError::EpisodeNotFound(id))
            },
        }
    }
}

/// The index of the page of a video that is asked for, among `pages`
/// pages: pages are counted from one, and the first is meant where none is
/// asked for.
pub fn select_page(p: Option<u32>, pages: usize) -> (r: Result<usize, SelectError>)
    requires
        p != Some(0u32),
    ensures
        r == ({
            let asked = match p {
                Some(n) => n,
                None => 1u32,
            };
            if asked > pages {
                Err::<usize, SelectError>(SelectError::PageOutOfRange { pages, asked })
            } else {
                Ok((asked - 1) as usize)
            }
        }),
{
    let asked: u32 = match p {
        Some(n) => n,
        None => 1,
    };
    if asked as u64 > pages as u64 {
        return Err(SelectError::PageOutOfRange { pages, asked });
    }
    Ok((asked - 1) as usize)
}

/// One comment as the service sends it.
#[derive(Debug, PartialEq, Eq)]
pub struct DanmakuElem {
    /// Playback time at which the comment appears, in milliseconds.
    pub progress: i32,
    /// The number of the type of the comment.
    pub mode: i32,
    pub fontsize: i32,
    /// The colour as `0xRRGGBB`.
    pub color: u32,
    pub content: String,
}

/// The type that the number `mode` of a comment of the service names; a
/// number that names none stands for a scrolling comment.
pub open spec fn type_of_mode(mode: i32) -> DanmuType {
    if mode == 4 {
        DanmuType::Bottom
    } else if mode == 5 {
        DanmuType::Top
    } else if mode == 6 {
        DanmuType::Reverse
    } else {
        DanmuType::Float
    }
}

impl DanmakuElem {
    /// The type of the comment, as `type_of_mode` defines it.
    pub fn kind(&self) -> (r: DanmuType)
        ensures
            r == type_of_mode(self.mode),
    {
        if self.mode == 4 {
            DanmuType::Bottom
        } else if self.mode == 5 {
            DanmuType::Top
        } else if self.mode == 6 {
            DanmuType::Reverse
        } else {
            DanmuType::Float
        }
    }

    /// The font size of the comment in pixels; a size below zero counts as
    /// zero.
    pub fn font_size(&self) -> (r: u32)
        ensures
            r == (if self.fontsize < 0 {
                0int
            } else {
                self.fontsize as int
            }),
    {
        if self.fontsize < 0 {
            0
        } else {
            self.fontsize as u32
        }
    }

    /// The colour of the comment: of the number, the low 24 bits count.
    pub fn rgb(&self) -> (r: (u8, u8, u8))
        ensures
            r == (
                (self.color / 0x1_0000 % 0x100) as u8,
                (self.color / 0x100 % 0x100) as u8,
                (self.color % 0x100) as u8,
            ),
    {
        (
            (self.color / 0x1_0000 % 0x100) as u8,
            (self.color / 0x100 % 0x100) as u8,
            (self.color % 0x100) as u8,
        )
    }
}

/// Whether the comments of `v` are in the order of their time.
pub open spec fn in_time_order(v: Seq<DanmakuElem>) -> bool {
    forall|i: int, j: int| 0 <= i <= j < v.len() ==> v[i].progress <= v[j].progress
}

/// Puts the comments of `v` in the order of their time.
///
/// Calls `slice::sort_unstable_by_key` of the standard library with the
/// time of a comment as the key. It rearranges the comments so that their
/// keys ascend, and leaves open the order of comments with the same key.
#[verifier::external_body]
fn sort_by_progress(v: &mut Vec<DanmakuElem>)
    ensures
        in_time_order(final(v)@),
        final(v)@.to_multiset() == old(v)@.to_multiset(),
{
    v.sort_unstable_by_key(|d| d.progress);
}

/// The comments of `segments`, one segment after the other.
pub open spec fn flattened(segments: Seq<Vec<DanmakuElem>>) -> Seq<DanmakuElem>
    decreases segments.len(),
{
    if segments.len() == 0 {
        Seq::empty()
    } else {
        flattened(segments.drop_last()) + segments.last()@
    }
}

/// The comments of all segments of a video in the order of their time.
/// Comments of the same time come in any order.
pub fn merge_segments(segments: Vec<Vec<DanmakuElem>>) -> (r: Vec<DanmakuElem>)
    ensures
        in_time_order(r@),
        r@.to_multiset() == flattened(segments@).to_multiset(),
{
    let mut all: Vec<DanmakuElem> = Vec::new();
    let mut segments = segments;
    let ghost given = segments@;
    let mut i: usize = 0;
    while i < segments.len()
        invariant
            i <= segments@.len(),
            segments@.len() == given.len(),
            forall|j: int| i <= j < given.len() ==> segments@[j] == given[j],
            all@ == flattened(given.take(i as int)),
        decreases segments@.len() - i,
    {
        let mut segment: Vec<DanmakuElem> = Vec::new();
        std::mem::swap(&mut segments[i], &mut segment);
        proof {
            assert(given.take(i + 1).drop_last() =~= given.take(i as int));
            assert(given.take(i + 1).last() == given[i as int]);
        }
        all.append(&mut segment);
        i += 1;
    }
    proof {
        assert(given.take(given.len() as int) =~= given);
    }
    sort_by_progress(&mut all);
    all
}

} // verus!
