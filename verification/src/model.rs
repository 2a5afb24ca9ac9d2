//! Core data types: catalog items as the remote service reports them,
//! the normalized internal item shape, the durable shortlist entry, and
//! the client's error taxonomy.

use vstd::prelude::*;

verus! {

/// The kind of a catalog item: a movie, a series, or a person.
#[derive(Clone, Copy, Debug, PartialEq, Eq, Structural)]
pub enum MediaKind {
    Movie,
    Tv,
    Person,
}

/// The path segment the remote catalog uses for each kind.
pub open spec fn spec_kind_str(k: MediaKind) -> Seq<char> {
    match k {
        MediaKind::Movie => "movie"@,
        MediaKind::Tv => "tv"@,
        MediaKind::Person => "person"@,
    }
}

impl MediaKind {
    /// The remote service's name for this kind, used in request paths.
    pub fn as_str(&self) -> (r: &'static str)
        ensures
            r@ == spec_kind_str(*self),
    {
        match self {
            MediaKind::Movie => "movie",
            MediaKind::Tv => "tv",
            MediaKind::Person => "person",
        }
    }
}

/// The catalog client's error taxonomy. Transient conditions
/// (`Net`, `RateLimited`, `Server`) are retried before being surfaced;
/// the rest fail fast.
#[derive(Clone, Copy, Debug, PartialEq, Eq, Structural)]
pub enum TmdbErr {
    Net,
    RateLimited,
    Auth,
    Forbidden,
    NotFound,
    Server(u16),
    Unexpected(u16),
}

/// The stable user-facing message for each error kind.
pub open spec fn spec_user_msg(e: TmdbErr) -> Seq<char> {
    match e {
        TmdbErr::Net => "TMDb сейчас не отвечает. Попробуйте ещё раз через минуту."@,
        TmdbErr::RateLimited => "Слишком часто спрашиваем TMDb. Подождите немного и повторите."@,
        TmdbErr::Auth => "Неверный TMDB_API_KEY на сервере бота. Сообщите администратору."@,
        TmdbErr::Forbidden => "TMDb отклонил запрос (403). Попробуйте другой фильм."@,
        TmdbErr::NotFound => "Ничего не нашлось в TMDb."@,
        TmdbErr::Server(_) => "TMDb временно недоступен. Повторите позже."@,
        TmdbErr::Unexpected(_) => "Неожиданный ответ TMDb. Попробуйте ещё раз."@,
    }
}

impl TmdbErr {
    /// The short notice shown to the user for this error kind.
    pub fn user_msg(&self) -> (r: &'static str)
        ensures
            r@ == spec_user_msg(*self),
    {
        match self {
            TmdbErr::Net => "TMDb сейчас не отвечает. Попробуйте ещё раз через минуту.",
            TmdbErr::RateLimited => "Слишком часто спрашиваем TMDb. Подождите немного и повторите.",
            TmdbErr::Auth => "Неверный TMDB_API_KEY на сервере бота. Сообщите администратору.",
            TmdbErr::Forbidden => "TMDb отклонил запрос (403). Попробуйте другой фильм.",
            TmdbErr::NotFound => "Ничего не нашлось в TMDb.",
            TmdbErr::Server(_) => "TMDb временно недоступен. Повторите позже.",
            TmdbErr::Unexpected(_) => "Неожиданный ответ TMDb. Попробуйте ещё раз.",
        }
    }
}

/// One page of search results as the remote service returns them.
#[derive(Debug)]
pub struct SearchResp<T> {
    pub page: u32,
    pub results: Vec<T>,
    pub total_pages: u32,
    pub total_results: u32,
}

/// One entry of a multi-type search response: a closed sum with one
/// variant per kind, each carrying the fields that kind actually has.
#[derive(Debug, Clone)]
pub enum SearchMultiDto {
    Movie {
        id: u64,
        title: String,
        original_title: String,
        overview: String,
        poster_path: Option<String>,
        release_date: Option<String>,
    },
    Tv {
        id: u64,
        name: String,
        original_name: String,
        overview: String,
        poster_path: Option<String>,
        first_air_date: Option<String>,
    },
    Person {
        id: u64,
        name: String,
        profile_path: Option<String>,
    },
}

/// Detail response for a series.
#[derive(Debug, Clone)]
pub struct TvDetailsDto {
    pub id: u64,
    pub name: String,
    pub original_name: String,
    pub overview: String,
    pub poster_path: Option<String>,
    pub first_air_date: Option<String>,
}

/// Detail response for a movie.
#[derive(Debug, Clone)]
pub struct MovieDetailsDto {
    pub id: u64,
    pub title: String,
    pub original_title: String,
    pub overview: String,
    pub poster_path: Option<String>,
    pub release_date: Option<String>,
}

/// The normalized internal catalog item: every wire shape is mapped
/// into this one shape immediately, so downstream code never branches
/// on the wire shape again.
#[derive(Debug, PartialEq, Eq)]
pub struct MultiNorm {
    pub id: u64,
    pub media_type: MediaKind,
    pub title: String,
    pub original_title: String,
    pub overview: String,
    pub release_date: Option<String>,
    pub image_path: Option<String>,
}

/// A durable shortlist entry: the subset of a catalog item that is
/// persisted. The synopsis is deliberately not persisted; it is
/// re-fetched on demand.
#[derive(Debug, PartialEq, Eq)]
pub struct StoredMovie {
    pub id: u64,
    pub title: String,
    pub original_title: String,
    pub poster_path: Option<String>,
    pub release_date: Option<String>,
}

/// Ghost image of a stored entry, with strings as character sequences.
pub struct MovieView {
    pub id: u64,
    pub title: Seq<char>,
    pub original_title: Seq<char>,
    pub poster_path: Option<Seq<char>>,
    pub release_date: Option<Seq<char>>,
}

/// The view of an optional string.
pub open spec fn opt_view(o: Option<String>) -> Option<Seq<char>> {
    match o {
        Option::Some(s) => Option::Some(s@),
        Option::None => Option::None,
    }
}

impl View for StoredMovie {
    type V = MovieView;

    open spec fn view(&self) -> MovieView {
        MovieView {
            id: self.id,
            title: self.title@,
            original_title: self.original_title@,
            poster_path: opt_view(self.poster_path),
            release_date: opt_view(self.release_date),
        }
    }
}

/// Clones an optional string, keeping its value.
pub fn clone_opt_string(o: &Option<String>) -> (r: Option<String>)
    ensures
        r == o,
{
    match o {
        Option::Some(s) => Option::Some(s.clone()),
        Option::None => Option::None,
    }
}

impl Clone for StoredMovie {
    fn clone(&self) -> (r: Self)
        ensures
            r == *self,
    {
        StoredMovie {
            id: self.id,
            title: self.title.clone(),
            original_title: self.original_title.clone(),
            poster_path: clone_opt_string(&self.poster_path),
            release_date: clone_opt_string(&self.release_date),
        }
    }
}

impl Clone for MultiNorm {
    fn clone(&self) -> (r: Self)
        ensures
            r == *self,
    {
        MultiNorm {
            id: self.id,
            media_type: self.media_type,
            title: self.title.clone(),
            original_title: self.original_title.clone(),
            overview: self.overview.clone(),
            release_date: clone_opt_string(&self.release_date),
            image_path: clone_opt_string(&self.image_path),
        }
    }
}

impl MultiNorm {
    /// Normalizes one multi-type search entry. The kind is always set;
    /// a person's display name stands in for both title fields, and a
    /// missing synopsis becomes the empty string.
    pub fn from_search(x: SearchMultiDto) -> (r: MultiNorm)
        ensures
            match x {
                SearchMultiDto::Movie { id, title, original_title, overview, poster_path, release_date } => {
                    &&& r.id == id
                    &&& r.media_type == MediaKind::Movie
                    &&& r.title == title
                    &&& r.original_title == original_title
                    &&& r.overview == overview
                    &&& r.release_date == release_date
                    &&& r.image_path == poster_path
                },
                SearchMultiDto::Tv { id, name, original_name, overview, poster_path, first_air_date } => {
                    &&& r.id == id
                    &&& r.media_type == MediaKind::Tv
                    &&& r.title == name
                    &&& r.original_title == original_name
                    &&& r.overview == overview
                    &&& r.release_date == first_air_date
                    &&& r.image_path == poster_path
                },
                SearchMultiDto::Person { id, name, profile_path } => {
                    &&& r.id == id
                    &&& r.media_type == MediaKind::Person
                    &&& r.title@ == name@
                    &&& r.original_title@ == name@
                    &&& r.overview@ == Seq::<char>::empty()
                    &&& r.release_date is None
                    &&& r.image_path == profile_path
                },
            },
    {
        match x {
            SearchMultiDto::Movie { id, title, original_title, overview, poster_path, release_date } => {
                MultiNorm {
                    id,
                    media_type: MediaKind::Movie,
                    title,
                    original_title,
                    overview,
                    release_date,
                    image_path: poster_path,
                }
            },
            SearchMultiDto::Tv { id, name, original_name, overview, poster_path, first_air_date } => {
                MultiNorm {
                    id,
                    media_type: MediaKind::Tv,
                    title: name,
                    original_title: original_name,
                    overview,
                    release_date: first_air_date,
                    image_path: poster_path,
                }
            },
            SearchMultiDto::Person { id, name, profile_path } => {
                MultiNorm {
                    id,
                    media_type: MediaKind::Person,
                    title: name.clone(),
                    original_title: name,
                    overview: String::new(),
                    release_date: Option::None,
                    image_path: profile_path,
                }
            },
        }
    }

    /// Normalizes a series detail response.
    pub fn from_tv_details(tv: TvDetailsDto) -> (r: MultiNorm)
        ensures
            r.id == tv.id,
            r.media_type == MediaKind::Tv,
            r.title == tv.name,
            r.original_title == tv.original_name,
            r.overview == tv.overview,
            r.release_date == tv.first_air_date,
            r.image_path == tv.poster_path,
    {
        MultiNorm {
            id: tv.id,
            media_type: MediaKind::Tv,
            title: tv.name,
            original_title: tv.original_name,
            overview: tv.overview,
            release_date: tv.first_air_date,
            image_path: tv.poster_path,
        }
    }

    /// Normalizes a movie detail response.
    pub fn from_movie_details(m: MovieDetailsDto) -> (r: MultiNorm)
        ensures
            r.id == m.id,
            r.media_type == MediaKind::Movie,
            r.title == m.title,
            r.original_title == m.original_title,
            r.overview == m.overview,
            r.release_date == m.release_date,
            r.image_path == m.poster_path,
    {
        MultiNorm {
            id: m.id,
            media_type: MediaKind::Movie,
            title: m.title,
            original_title: m.original_title,
            overview: m.overview,
            release_date: m.release_date,
            image_path: m.poster_path,
        }
    }

    /// The durable subset of this item, as it is persisted in a shortlist.
    pub fn to_stored(&self) -> (r: StoredMovie)
        ensures
            r.id == self.id,
            r.title == self.title,
            r.original_title == self.original_title,
            r.poster_path == self.image_path,
            r.release_date == self.release_date,
    {
        StoredMovie {
            id: self.id,
            title: self.title.clone(),
            original_title: self.original_title.clone(),
            poster_path: clone_opt_string(&self.image_path),
            release_date: clone_opt_string(&self.release_date),
        }
    }
}

} // verus!
