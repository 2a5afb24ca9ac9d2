//! The catalog client's computable parts: request URLs, normalization
//! of wire shapes, and the per-kind detail decision. The transport loop
//! around them performs the HTTP calls and drives the retry policy.

use vstd::prelude::*;
use vstd::string::StringExecFns;
use crate::model::{MediaKind, MultiNorm, SearchMultiDto, spec_kind_str};
use crate::numfmt::spec_u64_chars;
use crate::text::push_char;

verus! {

/// What urlencoding::encode returns for a given text: a pure function
/// of the characters alone.
pub uninterp spec fn url_encoded_of(s: Seq<char>) -> Seq<char>;

/// Relies on urlencoding::encode: percent-encodes every byte except
/// ASCII alphanumerics and '-', '_', '.', '~', reading nothing but its
/// argument.
#[verifier::external_body]
fn url_encode(s: &str) -> (r: String)
    ensures
        r@ == url_encoded_of(s@),
{
    urlencoding::encode(s).into_owned()
}

/// Appends the decimal rendering of an unsigned value to a string.
pub fn append_u64(out: &mut String, n: u64)
    ensures
        final(out)@ == old(out)@ + spec_u64_chars(n as int),
{
    let mut digits: Vec<char> = Vec::new();
    crate::numfmt::push_u64_chars(n, &mut digits);
    let mut i: usize = 0;
    proof {
        assert(old(out)@ + digits@.take(0) =~= old(out)@);
    }
    while i < digits.len()
        invariant
            i <= digits@.len(),
            digits@ == spec_u64_chars(n as int),
            out@ == old(out)@ + digits@.take(i as int),
        decreases digits@.len() - i as int,
    {
        push_char(out, digits[i]);
        proof {
            assert(digits@.take(i as int).push(digits@[i as int]) =~= digits@.take(i as int + 1));
            assert(out@ =~= old(out)@ + digits@.take(i as int + 1));
        }
        i += 1;
    }
    proof {
        assert(digits@.take(digits@.len() as int) =~= digits@);
    }
}

/// The multi-type search request URL for a query.
pub open spec fn spec_search_url(q: Seq<char>) -> Seq<char> {
    "https://api.themoviedb.org/3/search/multi?query="@ + url_encoded_of(q)
        + "&language=ru-RU&include_adult=false&page=1"@
}

/// Builds the multi-type search request URL.
pub fn search_url(query: &str) -> (r: String)
    ensures
        r@ == spec_search_url(query@),
{
    let mut u = String::from_str("https://api.themoviedb.org/3/search/multi?query=");
    let enc = url_encode(query);
    u.append(enc.as_str());
    u.append("&language=ru-RU&include_adult=false&page=1");
    u
}

/// The detail request URL for one title.
pub open spec fn spec_details_url(kind: MediaKind, id: int) -> Seq<char> {
    "https://api.themoviedb.org/3/"@ + spec_kind_str(kind) + seq!['/'] + spec_u64_chars(id)
        + "?language=ru-RU"@
}

/// The videos sub-resource URL for one title in one language.
pub open spec fn spec_videos_url(kind: MediaKind, id: int, lang: Seq<char>) -> Seq<char> {
    "https://api.themoviedb.org/3/"@ + spec_kind_str(kind) + seq!['/'] + spec_u64_chars(id)
        + "/videos?language="@ + lang
}

/// The poster image URL for a relative image path: the fixed base, the
/// fixed size segment, then the path as the catalog returned it.
pub open spec fn spec_image_url(path: Seq<char>) -> Seq<char> {
    "https://image.tmdb.org/t/p/w500"@ + path
}

/// Builds the detail request URL.
pub fn details_url(kind: MediaKind, id: u64) -> (r: String)
    ensures
        r@ == spec_details_url(kind, id as int),
{
    let mut u = String::from_str("https://api.themoviedb.org/3/");
    u.append(kind.as_str());
    push_char(&mut u, '/');
    append_u64(&mut u, id);
    u.append("?language=ru-RU");
    proof {
        assert(u@ =~= spec_details_url(kind, id as int));
    }
    u
}

/// Builds the videos sub-resource URL.
pub fn videos_url(kind: MediaKind, id: u64, lang: &str) -> (r: String)
    ensures
        r@ == spec_videos_url(kind, id as int, lang@),
{
    let mut u = String::from_str("https://api.themoviedb.org/3/");
    u.append(kind.as_str());
    push_char(&mut u, '/');
    append_u64(&mut u, id);
    u.append("/videos?language=");
    u.append(lang);
    proof {
        assert(u@ =~= spec_videos_url(kind, id as int, lang@));
    }
    u
}

/// Builds the poster image URL.
pub fn image_url(path: &str) -> (r: String)
    ensures
        r@ == spec_image_url(path@),
{
    let mut u = String::from_str("https://image.tmdb.org/t/p/w500");
    u.append(path);
    u
}

/// A search entry that can stand in a shortlist: a movie or a series,
/// not a person.
pub open spec fn is_title_kind(d: SearchMultiDto) -> bool {
    d is Movie || d is Tv
}

/// The normalized item for a title-kind search entry.
pub open spec fn spec_norm_of(d: SearchMultiDto) -> MultiNorm {
    match d {
        SearchMultiDto::Movie { id, title, original_title, overview, poster_path, release_date } => MultiNorm {
            id,
            media_type: MediaKind::Movie,
            title,
            original_title,
            overview,
            release_date,
            image_path: poster_path,
        },
        SearchMultiDto::Tv { id, name, original_name, overview, poster_path, first_air_date } => MultiNorm {
            id,
            media_type: MediaKind::Tv,
            title: name,
            original_title: original_name,
            overview,
            release_date: first_air_date,
            image_path: poster_path,
        },
        SearchMultiDto::Person { .. } => arbitrary(),
    }
}

/// The first `limit` title-kind entries, normalized, in response
/// order; person entries are dropped.
pub open spec fn spec_normalize(rs: Seq<SearchMultiDto>, limit: int) -> Seq<MultiNorm>
    decreases rs.len(),
{
    if rs.len() == 0 || limit <= 0 {
        Seq::empty()
    } else if is_title_kind(rs[0]) {
        seq![spec_norm_of(rs[0])] + spec_normalize(rs.drop_first(), limit - 1)
    } else {
        spec_normalize(rs.drop_first(), limit)
    }
}

/// Normalizes a search response: keeps the first `limit` movie or
/// series entries, tagged and reshaped, and drops person entries.
pub fn normalize_search(results: Vec<SearchMultiDto>, limit: usize) -> (r: Vec<MultiNorm>)
    ensures
        r@ == spec_normalize(results@, limit as int),
    decreases results@.len(),
{
    let mut rs = results;
    if rs.len() == 0 || limit == 0 {
        Vec::new()
    } else {
        let ghost orig = rs@;
        let d = rs.remove(0);
        proof {
            assert(rs@ =~= orig.drop_first());
        }
        let title_kind = match &d {
            SearchMultiDto::Movie { .. } => true,
            SearchMultiDto::Tv { .. } => true,
            SearchMultiDto::Person { .. } => false,
        };
        if title_kind {
            let m = MultiNorm::from_search(d);
            let mut rest = normalize_search(rs, limit - 1);
            rest.insert(0, m);
            proof {
                assert(rest@ =~= seq![spec_norm_of(orig[0])] + spec_normalize(
                    orig.drop_first(),
                    limit as int - 1,
                ));
            }
            rest
        } else {
            normalize_search(rs, limit)
        }
    }
}

/// The per-kind detail decision: a person has no detail page in this
/// domain, so it yields a defined unsupported result rather than a
/// request; a movie or series yields its detail URL.
pub enum DetailsPlan {
    Unsupported,
    Fetch(String),
}

/// Plans a detail lookup for one item.
pub fn details_plan(id: u64, media_type: MediaKind) -> (r: DetailsPlan)
    ensures
        match media_type {
            MediaKind::Person => r is Unsupported,
            _ => r matches DetailsPlan::Fetch(u) && u@ == spec_details_url(media_type, id as int),
        },
{
    match media_type {
        MediaKind::Person => DetailsPlan::Unsupported,
        _ => DetailsPlan::Fetch(details_url(media_type, id)),
    }
}

} // verus!
