use movie_shortlist::client::{
    details_url, details_plan, image_url, normalize_search, search_url, videos_url, DetailsPlan,
};
use movie_shortlist::coord::SearchCache;
use movie_shortlist::flow::{
    add_buttons, add_notice, compose_vote, delete_notice, handle_add, is_blank, list_buttons,
    list_view_text, make_block, one_line_title, one_line_title_stored, parse_token, trailer_line,
    AddOutcome, ParsedToken, VotePlan,
};
use movie_shortlist::model::{
    MediaKind, MovieDetailsDto, MultiNorm, SearchMultiDto, StoredMovie, TmdbErr, TvDetailsDto,
};
use movie_shortlist::retry::{
    backoff_ms, classify, retry_step, AttemptOutcome, Classified, RetryDecision,
};
use movie_shortlist::store::{Document, DeleteOutcome};
use movie_shortlist::text::{clip, html_escape, join_blocks, split_by_chars};
use movie_shortlist::flow::album_plan;
use movie_shortlist::trailer::{best_trailer_url_from, merge_video_fetches, Video};

fn norm(id: u64, title: &str, date: Option<&str>) -> MultiNorm {
    MultiNorm {
        id,
        media_type: MediaKind::Movie,
        title: title.to_string(),
        original_title: title.to_string(),
        overview: String::new(),
        release_date: date.map(|d| d.to_string()),
        image_path: None,
    }
}

fn stored(id: u64, title: &str, date: Option<&str>) -> StoredMovie {
    StoredMovie {
        id,
        title: title.to_string(),
        original_title: title.to_string(),
        poster_path: None,
        release_date: date.map(|d| d.to_string()),
    }
}

fn video(key: &str, site: &str, kind: &str, official: Option<bool>) -> Video {
    Video {
        key: key.to_string(),
        site: site.to_string(),
        video_type: kind.to_string(),
        official,
    }
}

#[test]
fn retry_policy_two_server_errors_then_success() {
    assert_eq!(
        retry_step(1, AttemptOutcome::Status(500)),
        RetryDecision::SleepThenRetry(300)
    );
    assert_eq!(
        retry_step(2, AttemptOutcome::Status(500)),
        RetryDecision::SleepThenRetry(800)
    );
    assert_eq!(retry_step(3, AttemptOutcome::Status(200)), RetryDecision::Deliver);
}

#[test]
fn retry_policy_exhaustion_surfaces_last_error() {
    assert_eq!(
        retry_step(3, AttemptOutcome::Status(503)),
        RetryDecision::Surface(TmdbErr::Server(503))
    );
}

#[test]
fn bad_credential_never_retries() {
    assert_eq!(
        retry_step(1, AttemptOutcome::Status(401)),
        RetryDecision::Surface(TmdbErr::Auth)
    );
}

#[test]
fn classification_covers_the_taxonomy() {
    assert_eq!(classify(AttemptOutcome::TransportFailure), Classified::Retryable(TmdbErr::Net));
    assert_eq!(
        classify(AttemptOutcome::Status(429)),
        Classified::Retryable(TmdbErr::RateLimited)
    );
    assert_eq!(classify(AttemptOutcome::Status(403)), Classified::FailFast(TmdbErr::Forbidden));
    assert_eq!(classify(AttemptOutcome::Status(404)), Classified::FailFast(TmdbErr::NotFound));
    assert_eq!(
        classify(AttemptOutcome::Status(302)),
        Classified::FailFast(TmdbErr::Unexpected(302))
    );
    assert_eq!(classify(AttemptOutcome::Status(200)), Classified::Success);
    assert_eq!(backoff_ms(1), 300);
    assert_eq!(backoff_ms(2), 800);
    assert_eq!(backoff_ms(3), 1500);
}

#[test]
fn trailer_tie_break_picks_official_trailer() {
    let candidates = vec![
        video("k1", "YouTube", "Teaser", Some(false)),
        video("k2", "YouTube", "Trailer", Some(true)),
        video("k3", "YouTube", "Teaser", Some(true)),
    ];
    assert_eq!(
        best_trailer_url_from(&candidates),
        Some("https://www.youtube.com/watch?v=k2".to_string())
    );
}

#[test]
fn trailer_selection_skips_other_sites_and_keeps_order() {
    let candidates = vec![
        video("v1", "Vimeo", "Trailer", Some(true)),
        video("y1", "youtube", "Trailer", Some(true)),
        video("y2", "YouTube", "Trailer", Some(true)),
    ];
    assert_eq!(
        best_trailer_url_from(&candidates),
        Some("https://www.youtube.com/watch?v=y1".to_string())
    );
    let none: Vec<Video> = vec![video("v1", "Vimeo", "Trailer", Some(true))];
    assert_eq!(best_trailer_url_from(&none), None);
    assert_eq!(best_trailer_url_from(&Vec::new()), None);
}

#[test]
fn merging_language_fetches_prefers_any_success() {
    let ok = vec![video("a", "YouTube", "Trailer", None)];
    let merged = merge_video_fetches(Ok(ok.clone()), Err(TmdbErr::NotFound)).unwrap();
    assert_eq!(merged.len(), 1);
    let merged2 =
        merge_video_fetches(Ok(ok.clone()), Ok(vec![video("b", "YouTube", "Teaser", None)]))
            .unwrap();
    assert_eq!(merged2.len(), 2);
    assert_eq!(merged2[0].key, "a");
    assert_eq!(merged2[1].key, "b");
    let both_failed = merge_video_fetches(Err(TmdbErr::Net), Err(TmdbErr::Server(500)));
    assert_eq!(both_failed, Err(TmdbErr::Server(500)));
}

#[test]
fn compose_vote_needs_at_least_two() {
    let one = vec![stored(1, "Solo", None)];
    assert!(matches!(compose_vote(&one), VotePlan::NeedAtLeastTwo));
    let two = vec![stored(1, "Solaris", Some("1972-03-20")), stored(2, "Stalker", None)];
    match compose_vote(&two) {
        VotePlan::Poll { options } => {
            assert_eq!(options.len(), 2);
            assert_eq!(options[0], "Solaris (1972)");
            assert_eq!(options[1], "Stalker");
        }
        VotePlan::NeedAtLeastTwo => panic!("two entries must yield a poll"),
    }
}

#[test]
fn add_token_resolves_only_against_this_conversations_search() {
    let mut cache = SearchCache::new();
    cache.record_search(111, vec![norm(5, "Found", None)]);
    let mut doc = Document::empty();
    let outcome = handle_add(&mut doc, &cache, 222, 5);
    assert_eq!(outcome, AddOutcome::NotInLastSearch);
    assert!(doc.get(222).is_empty());
    let outcome2 = handle_add(&mut doc, &cache, 111, 5);
    assert_eq!(outcome2, AddOutcome::Added);
    assert_eq!(doc.get(111)[0].id, 5);
}

#[test]
fn add_token_duplicate_and_full_outcomes() {
    let mut cache = SearchCache::new();
    let items: Vec<MultiNorm> = (1..=11).map(|i| norm(i, "m", None)).collect();
    cache.record_search(1, items);
    let mut doc = Document::empty();
    for i in 1..=10u64 {
        assert_eq!(handle_add(&mut doc, &cache, 1, i), AddOutcome::Added);
    }
    assert_eq!(handle_add(&mut doc, &cache, 1, 10), AddOutcome::AlreadyInList);
    assert_eq!(handle_add(&mut doc, &cache, 1, 11), AddOutcome::ListFull);
    assert_eq!(add_notice(AddOutcome::ListFull), "В списке уже 10 фильмов");
    assert_eq!(add_notice(AddOutcome::NotInLastSearch), "Не нашёл фильм в последнем поиске");
}

#[test]
fn cleared_cache_no_longer_resolves() {
    let mut cache = SearchCache::new();
    cache.record_search(1, vec![norm(5, "x", None)]);
    cache.clear(1);
    assert_eq!(cache.resolve(1, 5), None);
}

#[test]
fn record_search_replaces_wholesale() {
    let mut cache = SearchCache::new();
    cache.record_search(1, vec![norm(5, "old", None)]);
    cache.record_search(1, vec![norm(6, "new", None)]);
    assert_eq!(cache.resolve(1, 5), None);
    assert_eq!(cache.resolve(1, 6).map(|m| m.id), Some(6));
}

#[test]
fn token_parsing_covers_actions_and_garbage() {
    assert_eq!(parse_token("add:17"), ParsedToken::AddId(17));
    assert_eq!(parse_token("del:5"), ParsedToken::DelId(5));
    assert_eq!(parse_token("show:9"), ParsedToken::ShowId(9));
    assert_eq!(parse_token("zap:9"), ParsedToken::Unknown);
    assert_eq!(parse_token("add:"), ParsedToken::Unknown);
    assert_eq!(parse_token("add:9x"), ParsedToken::Unknown);
    assert_eq!(parse_token("no separator"), ParsedToken::Unknown);
    assert_eq!(parse_token("add:99999999999999999999999"), ParsedToken::Unknown);
}

#[test]
fn request_urls_are_exact() {
    assert_eq!(
        search_url("hello world"),
        "https://api.themoviedb.org/3/search/multi?query=hello%20world&language=ru-RU&include_adult=false&page=1"
    );
    assert_eq!(details_url(MediaKind::Movie, 42), "https://api.themoviedb.org/3/movie/42?language=ru-RU");
    assert_eq!(details_url(MediaKind::Tv, 7), "https://api.themoviedb.org/3/tv/7?language=ru-RU");
    assert_eq!(
        videos_url(MediaKind::Movie, 42, "en-US"),
        "https://api.themoviedb.org/3/movie/42/videos?language=en-US"
    );
    assert_eq!(image_url("/abc.jpg"), "https://image.tmdb.org/t/p/w500/abc.jpg");
}

#[test]
fn person_details_are_unsupported_not_an_error() {
    assert!(matches!(details_plan(1, MediaKind::Person), DetailsPlan::Unsupported));
    match details_plan(42, MediaKind::Movie) {
        DetailsPlan::Fetch(u) => assert_eq!(u, "https://api.themoviedb.org/3/movie/42?language=ru-RU"),
        DetailsPlan::Unsupported => panic!("a movie has a detail page"),
    }
}

#[test]
fn normalization_drops_persons_and_respects_the_limit() {
    let results = vec![
        SearchMultiDto::Person { id: 1, name: "Actor".to_string(), profile_path: None },
        SearchMultiDto::Movie {
            id: 2,
            title: "Фильм".to_string(),
            original_title: "Film".to_string(),
            overview: "о чём-то".to_string(),
            poster_path: Some("/p.jpg".to_string()),
            release_date: Some("2020-01-01".to_string()),
        },
        SearchMultiDto::Tv {
            id: 3,
            name: "Сериал".to_string(),
            original_name: "Series".to_string(),
            overview: String::new(),
            poster_path: None,
            first_air_date: None,
        },
        SearchMultiDto::Movie {
            id: 4,
            title: "Поздний".to_string(),
            original_title: "Late".to_string(),
            overview: String::new(),
            poster_path: None,
            release_date: None,
        },
    ];
    let items = normalize_search(results, 2);
    assert_eq!(items.len(), 2);
    assert_eq!(items[0].id, 2);
    assert_eq!(items[0].media_type, MediaKind::Movie);
    assert_eq!(items[0].title, "Фильм");
    assert_eq!(items[0].image_path.as_deref(), Some("/p.jpg"));
    assert_eq!(items[1].id, 3);
    assert_eq!(items[1].media_type, MediaKind::Tv);
    assert_eq!(items[1].title, "Сериал");
}

#[test]
fn person_normalization_uses_the_display_name() {
    let person = SearchMultiDto::Person {
        id: 9,
        name: "Тарковский".to_string(),
        profile_path: Some("/t.jpg".to_string()),
    };
    let m = MultiNorm::from_search(person);
    assert_eq!(m.media_type, MediaKind::Person);
    assert_eq!(m.title, "Тарковский");
    assert_eq!(m.original_title, "Тарковский");
    assert_eq!(m.overview, "");
    assert_eq!(m.release_date, None);
    assert_eq!(m.image_path.as_deref(), Some("/t.jpg"));
}

#[test]
fn detail_responses_normalize_with_their_kind() {
    let tv = TvDetailsDto {
        id: 1,
        name: "N".to_string(),
        original_name: "ON".to_string(),
        overview: "o".to_string(),
        poster_path: None,
        first_air_date: Some("1999-01-01".to_string()),
    };
    let m = MultiNorm::from_tv_details(tv);
    assert_eq!(m.media_type, MediaKind::Tv);
    assert_eq!(m.release_date.as_deref(), Some("1999-01-01"));
    let mv = MovieDetailsDto {
        id: 2,
        title: "T".to_string(),
        original_title: "OT".to_string(),
        overview: String::new(),
        poster_path: Some("/x.jpg".to_string()),
        release_date: None,
    };
    let n = MultiNorm::from_movie_details(mv);
    assert_eq!(n.media_type, MediaKind::Movie);
    assert_eq!(n.image_path.as_deref(), Some("/x.jpg"));
}

#[test]
fn title_lines_show_the_year_when_known() {
    assert_eq!(one_line_title_stored(&stored(1, "Сталкер", Some("1979-05-25"))), "Сталкер (1979)");
    assert_eq!(one_line_title_stored(&stored(1, "Сталкер", None)), "Сталкер");
    assert_eq!(one_line_title_stored(&stored(1, "X", Some("79"))), "X");
    assert_eq!(one_line_title(&norm(1, "Solaris", Some("1972-03-20"))), "Solaris (1972)");
}

#[test]
fn caption_block_escapes_and_clips() {
    let mut m = norm(1, "A<B", Some("2020-01-01"));
    m.overview = "x&y".to_string();
    assert_eq!(make_block(&m, 600), "<b>A&lt;B</b> (2020)\n\nx&amp;y");
    let mut blank = norm(2, "T", None);
    blank.overview = "   ".to_string();
    assert_eq!(make_block(&blank, 600), "<b>T</b>\n\n<i>нет описания</i>");
    let mut long = norm(3, "L", None);
    long.overview = "abcdef".to_string();
    assert_eq!(make_block(&long, 3), "<b>L</b>\n\nabc…");
}

#[test]
fn text_helpers_match_their_contracts() {
    assert_eq!(html_escape("a&<b>"), "a&amp;&lt;b&gt;");
    assert_eq!(clip("hello", 10), "hello");
    assert_eq!(clip("hello", 3), "hel…");
    assert_eq!(split_by_chars("abcdefg", 3), vec!["abc", "def", "g"]);
    assert_eq!(split_by_chars("ab", 3), vec!["ab"]);
    assert_eq!(split_by_chars("", 3), vec![""]);
    let blocks = vec!["aaa".to_string(), "bbb".to_string(), "ccc".to_string()];
    assert_eq!(join_blocks(blocks, 9), "aaa\n\nbbb\n\nccc");
    let blocks2 = vec!["aaa".to_string(), "bbb".to_string(), "ccc".to_string()];
    assert_eq!(join_blocks(blocks2, 7), "aaa\n\nbbb");
    assert!(is_blank(" \t\n"));
    assert!(!is_blank(" x "));
}

#[test]
fn keyboards_carry_labels_and_tokens() {
    let results = vec![norm(5, "Film", Some("2001-02-03"))];
    let buttons = add_buttons(&results);
    assert_eq!(buttons.len(), 1);
    assert_eq!(buttons[0].label, "➕ Film (2001)");
    assert_eq!(buttons[0].token, "add:5");
    let list = vec![stored(7, "Kept", None)];
    let rows = list_buttons(&list);
    assert_eq!(rows.len(), 1);
    assert_eq!(rows[0].show_label, "🎬 Kept");
    assert_eq!(rows[0].show_token, "show:7");
    assert_eq!(rows[0].del_label, "🗑");
    assert_eq!(rows[0].del_token, "del:7");
}

#[test]
fn list_view_counts_places_and_lists_lines() {
    let list = vec![stored(1, "A", Some("2020-01-01")), stored(2, "B", None)];
    assert_eq!(list_view_text(&list), "<b>В списке (2/10):</b>\nA (2020)\nB");
}

#[test]
fn album_plan_takes_first_ten_posters() {
    let mut list = Vec::new();
    for i in 0..12u64 {
        let mut m = stored(i + 1, "m", None);
        if i != 1 {
            m.poster_path = Some(format!("/p{}.jpg", i));
        }
        list.push(m);
    }
    let plan = album_plan(&list);
    assert_eq!(plan.len(), 9);
    assert_eq!(plan[0].index, 0);
    assert_eq!(plan[0].url, "https://image.tmdb.org/t/p/w500/p0.jpg");
    assert!(plan.iter().all(|p| p.index < 10 && p.index != 1));
}

#[test]
fn trailer_line_escapes_both_parts() {
    assert_eq!(
        trailer_line("A&B", "https://e.example/?a=1&b=2"),
        "• <b>A&amp;B</b>: https://e.example/?a=1&amp;b=2"
    );
}

#[test]
fn user_messages_and_kind_names_are_stable() {
    assert_eq!(TmdbErr::NotFound.user_msg(), "Ничего не нашлось в TMDb.");
    assert_eq!(TmdbErr::Server(502).user_msg(), "TMDb временно недоступен. Повторите позже.");
    assert_eq!(TmdbErr::Auth.user_msg(), "Неверный TMDB_API_KEY на сервере бота. Сообщите администратору.");
    assert_eq!(MediaKind::Movie.as_str(), "movie");
    assert_eq!(MediaKind::Tv.as_str(), "tv");
    assert_eq!(MediaKind::Person.as_str(), "person");
    assert_eq!(delete_notice(DeleteOutcome::Removed), "Удалено");
    assert_eq!(delete_notice(DeleteOutcome::NotFound), "Не найдено в списке");
}
