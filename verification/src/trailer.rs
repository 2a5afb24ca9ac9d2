//! Trailer selection: merging the two language variants of the videos
//! sub-resource and the deterministic tie-break that picks the best
//! candidate — officially-flagged first, then "Trailer" before
//! "Teaser" before anything else, then original response order.

use vstd::prelude::*;
use vstd::string::StrSliceExecFns;
use vstd::string::StringExecFns;
use crate::model::TmdbErr;

verus! {

/// One video as the catalog's videos sub-resource lists it.
#[derive(Debug, PartialEq, Eq)]
pub struct Video {
    pub key: String,
    pub site: String,
    pub video_type: String,
    pub official: Option<bool>,
}

impl Clone for Video {
    fn clone(&self) -> (r: Self)
        ensures
            r == *self,
    {
        Video {
            key: self.key.clone(),
            site: self.site.clone(),
            video_type: self.video_type.clone(),
            official: self.official,
        }
    }
}

/// Ghost image of a video.
pub struct VideoView {
    pub key: Seq<char>,
    pub site: Seq<char>,
    pub video_type: Seq<char>,
    pub official: Option<bool>,
}

impl View for Video {
    type V = VideoView;

    open spec fn view(&self) -> VideoView {
        VideoView {
            key: self.key@,
            site: self.site@,
            video_type: self.video_type@,
            official: self.official,
        }
    }
}

/// A character's code point with ASCII upper case folded to lower.
pub open spec fn fold_ascii(c: char) -> int {
    let u = c as u32;
    if 65 <= u && u <= 90 {
        u + 32
    } else {
        u as int
    }
}

/// Character sequences equal up to ASCII case.
pub open spec fn eq_ignore_ascii(a: Seq<char>, b: Seq<char>) -> bool {
    a.len() == b.len() && forall|i: int| 0 <= i < a.len() ==> fold_ascii(a[i]) == fold_ascii(b[i])
}

/// A video is a candidate when it is hosted on the one supported site.
pub open spec fn is_youtube(v: VideoView) -> bool {
    eq_ignore_ascii(v.site, "YouTube"@)
}

/// The tie-break rank: lower is better. Officially-flagged videos come
/// before unofficial; "Trailer" before "Teaser" before any other type.
pub open spec fn video_rank(v: VideoView) -> int {
    let official: int = if v.official == Option::Some(true) {
        0
    } else {
        1
    };
    let typ: int = if v.video_type == "Trailer"@ {
        0
    } else if v.video_type == "Teaser"@ {
        1
    } else {
        2
    };
    official * 3 + typ
}

/// The canonical watch URL for a video key.
pub open spec fn spec_watch_url(key: Seq<char>) -> Seq<char> {
    "https://www.youtube.com/watch?v="@ + key
}

/// Decides whether two strings are equal up to ASCII case.
fn eq_ignore_ascii_exec(a: &str, b: &str) -> (r: bool)
    ensures
        r == eq_ignore_ascii(a@, b@),
{
    let alen = a.unicode_len();
    let blen = b.unicode_len();
    if alen != blen {
        return false;
    }
    let mut i: usize = 0;
    while i < alen
        invariant
            alen == a@.len(),
            blen == b@.len(),
            alen == blen,
            i <= alen,
            forall|j: int| 0 <= j < i as int ==> fold_ascii(a@[j]) == fold_ascii(b@[j]),
        decreases alen - i,
    {
        let ca = a.get_char(i) as u32;
        let cb = b.get_char(i) as u32;
        let fa = if 65 <= ca && ca <= 90 {
            ca + 32
        } else {
            ca
        };
        let fb = if 65 <= cb && cb <= 90 {
            cb + 32
        } else {
            cb
        };
        if fa != fb {
            return false;
        }
        i += 1;
    }
    true
}

/// The tie-break rank of one video, as executable code.
fn rank_of(v: &Video) -> (r: u8)
    ensures
        r as int == video_rank(v@),
{
    let official: u8 = match v.official {
        Option::Some(true) => 0,
        _ => 1,
    };
    let trailer = String::from_str("Trailer");
    let teaser = String::from_str("Teaser");
    let typ: u8 = if v.video_type == trailer {
        0
    } else if v.video_type == teaser {
        1
    } else {
        2
    };
    official * 3 + typ
}

/// Merges the outcomes of the two language queries: if both failed,
/// the last error is surfaced; if at least one succeeded, the
/// collected candidates (first language's first) proceed to selection,
/// the failed language contributing none.
pub fn merge_video_fetches(r1: Result<Vec<Video>, TmdbErr>, r2: Result<Vec<Video>, TmdbErr>) -> (r:
    Result<Vec<Video>, TmdbErr>)
    ensures
        match (r1, r2) {
            (Result::Ok(a), Result::Ok(b)) => r matches Result::Ok(v) && v@ == a@ + b@,
            (Result::Ok(a), Result::Err(_)) => r matches Result::Ok(v) && v@ == a@,
            (Result::Err(_), Result::Ok(b)) => r matches Result::Ok(v) && v@ == b@,
            (Result::Err(_), Result::Err(e2)) => r matches Result::Err(e) && e == e2,
        },
{
    match (r1, r2) {
        (Result::Ok(mut a), Result::Ok(mut b)) => {
            a.append(&mut b);
            Result::Ok(a)
        },
        (Result::Ok(a), Result::Err(_)) => Result::Ok(a),
        (Result::Err(_), Result::Ok(b)) => Result::Ok(b),
        (Result::Err(_), Result::Err(e2)) => Result::Err(e2),
    }
}

/// Selects the best candidate among the collected videos and returns
/// its canonical watch URL: the first video, in response order, of the
/// lowest tie-break rank among those hosted on the supported site;
/// nothing if no video qualifies.
pub fn best_trailer_url_from(videos: &Vec<Video>) -> (r: Option<String>)
    ensures
        match r {
            Option::None => forall|i: int| 0 <= i < videos@.len() ==> !is_youtube(videos@[i]@),
            Option::Some(url) => exists|i: int|
                {
                    &&& 0 <= i < videos@.len()
                    &&& is_youtube(videos@[i]@)
                    &&& forall|j: int|
                        0 <= j < videos@.len() && is_youtube(videos@[j]@) ==> video_rank(
                            videos@[i]@,
                        ) <= video_rank(#[trigger] videos@[j]@)
                    &&& forall|j: int|
                        0 <= j < i && is_youtube(videos@[j]@) ==> video_rank(#[trigger] videos@[j]@)
                            > video_rank(videos@[i]@)
                    &&& url@ == spec_watch_url(videos@[i]@.key)
                },
        },
{
    let mut best: Option<usize> = Option::None;
    let mut best_rank: u8 = 255;
    let mut k: usize = 0;
    while k < videos.len()
        invariant
            k <= videos@.len(),
            match best {
                Option::None => (best_rank == 255 && forall|j: int|
                    0 <= j < k as int ==> !is_youtube(videos@[j]@)),
                Option::Some(b) => ({
                    &&& b < k
                    &&& is_youtube(videos@[b as int]@)
                    &&& best_rank as int == video_rank(videos@[b as int]@)
                    &&& best_rank < 255
                    &&& forall|j: int|
                        0 <= j < k as int && is_youtube(videos@[j]@) ==> best_rank as int
                            <= video_rank(#[trigger] videos@[j]@)
                    &&& forall|j: int|
                        0 <= j < b as int && is_youtube(videos@[j]@) ==> video_rank(
                            #[trigger] videos@[j]@,
                        ) > best_rank as int
                }),
            },
        decreases videos@.len() - k as int,
    {
        if eq_ignore_ascii_exec(videos[k].site.as_str(), "YouTube") {
            let rk = rank_of(&videos[k]);
            match best {
                Option::None => {
                    best = Option::Some(k);
                    best_rank = rk;
                },
                Option::Some(_) => {
                    if rk < best_rank {
                        best = Option::Some(k);
                        best_rank = rk;
                    }
                },
            }
        }
        k += 1;
    }
    match best {
        Option::None => Option::None,
        Option::Some(b) => {
            let mut url = String::from_str("https://www.youtube.com/watch?v=");
            url.append(videos[b].key.as_str());
            Option::Some(url)
        },
    }
}

} // verus!
