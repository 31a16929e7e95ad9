use anisearch::anime::{
    extract_genres, format_airing_line, format_episodes, format_media_format,
    format_media_source, format_media_status, format_next_airing_time, format_title,
    AiringEpisode, Media, MediaFormat, MediaSource, MediaStatus, MediaTitle,
};
use anisearch::character::{extract_appearances, format_name, Character, PersonName};
use anisearch::choices::MediaType;
use anisearch::service::{
    extract_character_names, extract_media_titles, extract_staff_names, extract_studio_names, filter_genres, filter_tags, flatten, next_random_request, pick_random,
    random_pick, random_request, search_term, suggestions_from_cache,
    truncate_autocomplete_results, MediaTag, RandomRequest,
};
use anisearch::staff::{extract_character_roles, extract_staff_roles, Staff};
use anisearch::studio::{extract_image, extract_productions, format_production, Studio};

fn s(text: &str) -> String {
    text.to_string()
}

fn media(id: i64) -> Media {
    Media {
        id,
        id_mal: None,
        type_: Some(MediaType::ANIME),
        title: None,
        format: None,
        status: None,
        source: None,
        episodes: None,
        next_airing_episode: None,
        genres: None,
        is_adult: None,
        cover_image: None,
    }
}

fn titled(id: i64, romaji: &str) -> Media {
    Media { title: Some(MediaTitle { romaji: Some(s(romaji)), english: None }), ..media(id) }
}

fn name(full: Option<&str>) -> PersonName {
    PersonName {
        full: full.map(s),
        native: None,
        alternative: None,
        alternative_spoiler: None,
    }
}

#[test]
fn titles() {
    assert_eq!(format_title(None, None), None);
    assert_eq!(format_title(None, Some(&s("Attack on Titan"))), None);
    assert_eq!(format_title(Some(&s("Naruto")), None), Some(s("Naruto")));
    assert_eq!(format_title(Some(&s("Naruto")), Some(&s("Naruto"))), Some(s("Naruto")));
    assert_eq!(
        format_title(Some(&s("Shingeki no Kyojin")), Some(&s("Attack on Titan"))),
        Some(s("Shingeki no Kyojin (Attack on Titan)"))
    );
}

#[test]
fn names() {
    assert_eq!(format_name(None, None), None);
    assert_eq!(format_name(Some(&s("Luffy")), None), Some(s("Luffy")));
    assert_eq!(format_name(None, Some(&s("ルフィ"))), Some(s("ルフィ")));
    assert_eq!(format_name(Some(&s("Luffy")), Some(&s("Luffy"))), Some(s("Luffy")));
    assert_eq!(format_name(Some(&s("Luffy")), Some(&s("ルフィ"))), Some(s("Luffy (ルフィ)")));
}

#[test]
fn airing_time_for_the_chat_client() {
    assert_eq!(format_next_airing_time(1700000000), Some(s("<t:1700000000:R>")));
    assert_eq!(format_next_airing_time(0), Some(s("<t:0:R>")));
    assert_eq!(format_next_airing_time(-86400), Some(s("<t:-86400:R>")));
    assert_eq!(format_next_airing_time(9_000_000_000_000_000), None);
    assert_eq!(format_next_airing_time(-9_000_000_000_000_000), None);
    assert_eq!(format_next_airing_time(i64::MAX), None);
    assert_eq!(format_next_airing_time(i64::MIN), None);
}

#[test]
fn episode_lines() {
    let mut m = media(1);
    assert_eq!(format_episodes(&m), None);
    m.episodes = Some(12);
    assert_eq!(format_episodes(&m), Some(s("12")));
    m.status = Some(MediaStatus::RELEASING);
    assert_eq!(format_episodes(&m), Some(s("12")));
    m.next_airing_episode = Some(AiringEpisode { episode: 5, airing_at: 1700000000 });
    assert_eq!(format_episodes(&m), Some(s("4/12 (Next <t:1700000000:R>)")));
    m.episodes = None;
    assert_eq!(format_episodes(&m), Some(s("4 (Next <t:1700000000:R>)")));
    m.next_airing_episode = Some(AiringEpisode { episode: 1, airing_at: i64::MAX });
    assert_eq!(format_episodes(&m), Some(s("0 (Next Unknown)")));
    m.status = Some(MediaStatus::FINISHED);
    assert_eq!(format_episodes(&m), None);
    assert_eq!(format_airing_line(3, Some(10), None), "2/10 (Next Unknown)");
    assert_eq!(format_airing_line(3, None, Some(s("soon"))), "2 (Next soon)");
    assert_eq!(
        format_airing_line(i64::MIN, None, Some(s("x"))),
        "-9223372036854775808 (Next x)"
    );
}

#[test]
fn genres() {
    let mut m = media(1);
    assert_eq!(extract_genres(&m), None);
    m.genres = Some(vec![]);
    assert_eq!(extract_genres(&m), None);
    m.genres = Some(vec![None, None]);
    assert_eq!(extract_genres(&m), None);
    m.genres = Some(vec![Some(s("Action")), None, Some(s("Drama"))]);
    assert_eq!(extract_genres(&m), Some(vec![s("`Action`"), s("`Drama`")]));
}

#[test]
fn words_for_catalog_terms() {
    assert_eq!(format_media_format(Some(&MediaFormat::TV)), "TV");
    assert_eq!(format_media_format(Some(&MediaFormat::TV_SHORT)), "TV Short");
    assert_eq!(format_media_format(Some(&MediaFormat::MOVIE)), "Movie");
    assert_eq!(format_media_format(Some(&MediaFormat::SPECIAL)), "Special");
    assert_eq!(format_media_format(Some(&MediaFormat::OVA)), "OVA");
    assert_eq!(format_media_format(Some(&MediaFormat::ONA)), "ONA");
    assert_eq!(format_media_format(Some(&MediaFormat::MUSIC)), "Music");
    assert_eq!(format_media_format(Some(&MediaFormat::MANGA)), "Manga");
    assert_eq!(format_media_format(Some(&MediaFormat::NOVEL)), "Novel");
    assert_eq!(format_media_format(Some(&MediaFormat::ONE_SHOT)), "One Shot");
    assert_eq!(format_media_format(Some(&MediaFormat::Unrecognized)), "Unknown");
    assert_eq!(format_media_format(None), "Unknown");
    assert_eq!(format_media_status(Some(&MediaStatus::FINISHED)), "Finished");
    assert_eq!(format_media_status(Some(&MediaStatus::RELEASING)), "Releasing");
    assert_eq!(format_media_status(Some(&MediaStatus::NOT_YET_RELEASED)), "Not Yet Released");
    assert_eq!(format_media_status(Some(&MediaStatus::CANCELLED)), "Cancelled");
    assert_eq!(format_media_status(Some(&MediaStatus::HIATUS)), "Hiatus");
    assert_eq!(format_media_status(Some(&MediaStatus::Unrecognized)), "Unknown");
    assert_eq!(format_media_status(None), "Unknown");
    let sources = [
        (MediaSource::ORIGINAL, "Original"),
        (MediaSource::MANGA, "Manga"),
        (MediaSource::LIGHT_NOVEL, "Light Novel"),
        (MediaSource::VISUAL_NOVEL, "Visual Novel"),
        (MediaSource::VIDEO_GAME, "Video Game"),
        (MediaSource::OTHER, "Other"),
        (MediaSource::NOVEL, "Novel"),
        (MediaSource::DOUJINSHI, "Doujinshi"),
        (MediaSource::ANIME, "Anime"),
        (MediaSource::WEB_NOVEL, "Web Novel"),
        (MediaSource::LIVE_ACTION, "Live Action"),
        (MediaSource::GAME, "Game"),
        (MediaSource::COMIC, "Comic"),
        (MediaSource::MULTIMEDIA_PROJECT, "Multimedia Project"),
        (MediaSource::PICTURE_BOOK, "Picture Book"),
        (MediaSource::Unrecognized, "Unknown"),
    ];
    for (source, word) in sources {
        assert_eq!(format_media_source(Some(&source)), word);
    }
    assert_eq!(format_media_source(None), "Unknown");
}

#[test]
fn character_synonyms() {
    let mut c = Character { id: 1, name: None, media: None };
    assert_eq!(anisearch::character::extract_synonyms(&c), None);
    c.name = Some(name(Some("L")));
    assert_eq!(anisearch::character::extract_synonyms(&c), None);
    c.name = Some(PersonName {
        full: Some(s("L")),
        native: None,
        alternative: Some(vec![Some(s("Ryuzaki")), None, Some(s("Hideki"))]),
        alternative_spoiler: Some(vec![Some(s("L Lawliet"))]),
    });
    assert_eq!(
        anisearch::character::extract_synonyms(&c),
        Some(vec![s("`Ryuzaki`"), s("`Hideki`"), s("||`L Lawliet`||")])
    );
    c.name = Some(PersonName {
        full: None,
        native: None,
        alternative: None,
        alternative_spoiler: Some(vec![None, Some(s("X"))]),
    });
    assert_eq!(anisearch::character::extract_synonyms(&c), Some(vec![s("||`X`||")]));
}

#[test]
fn character_appearances() {
    let mut c = Character { id: 1, name: None, media: None };
    assert_eq!(extract_appearances(&c), None);
    c.media = Some(vec![]);
    assert_eq!(extract_appearances(&c), None);
    let adult = Media { is_adult: Some(true), ..titled(3, "Hidden") };
    let manga = Media { type_: Some(MediaType::MANGA), is_adult: Some(false), ..titled(4, "Nana") };
    let untyped = Media { type_: None, ..titled(6, "Typeless") };
    c.media = Some(vec![Some(titled(2, "Naruto")), None, Some(adult), Some(media(5)), Some(manga), Some(untyped)]);
    assert_eq!(
        extract_appearances(&c),
        Some(vec![
            s("[Naruto](https://anilist.co/anime/2)"),
            s("[Nana](https://anilist.co/manga/4)"),
        ])
    );
}

#[test]
fn staff_lines() {
    let mut staff = Staff { id: 1, name: None, staff_media: None, characters: None };
    assert_eq!(anisearch::staff::extract_synonyms(&staff), None);
    assert_eq!(extract_staff_roles(&staff), None);
    assert_eq!(extract_character_roles(&staff), None);
    staff.name = Some(PersonName {
        full: None,
        native: None,
        alternative: Some(vec![Some(s("Kana")), None]),
        alternative_spoiler: Some(vec![Some(s("ignored"))]),
    });
    assert_eq!(anisearch::staff::extract_synonyms(&staff), Some(vec![s("`Kana`")]));
    staff.name = Some(PersonName { alternative: Some(vec![None]), ..name(None) });
    assert_eq!(anisearch::staff::extract_synonyms(&staff), None);
    let adult = Media { is_adult: Some(true), ..titled(3, "Hidden") };
    staff.staff_media = Some(vec![Some(titled(1, "Bleach")), Some(adult), None, Some(media(9))]);
    assert_eq!(extract_staff_roles(&staff), Some(vec![s("Bleach")]));
    staff.characters = Some(vec![
        Some(Character { id: 1, name: Some(name(Some("Ichigo"))), media: None }),
        Some(Character { id: 2, name: None, media: None }),
        None,
        Some(Character { id: 3, name: Some(name(None)), media: None }),
        Some(Character { id: 4, name: Some(name(Some("Rukia"))), media: None }),
    ]);
    assert_eq!(extract_character_roles(&staff), Some(vec![s("Ichigo"), s("Rukia")]));
}

#[test]
fn studio_picture_is_first_shown_cover() {
    assert_eq!(extract_image(&None), None);
    assert_eq!(extract_image(&Some(vec![])), None);
    let adult = Media { is_adult: Some(true), cover_image: Some(s("adult.png")), ..media(1) };
    let plain = Media { cover_image: Some(s("cover.png")), ..media(2) };
    let later = Media { cover_image: Some(s("later.png")), ..media(3) };
    let nodes = Some(vec![None, Some(adult), Some(plain), Some(later)]);
    assert_eq!(extract_image(&nodes), Some(&s("cover.png")));
    let bare = Some(vec![Some(media(1)), Some(Media { cover_image: Some(s("x")), ..media(2) })]);
    assert_eq!(extract_image(&bare), None);
}

#[test]
fn studio_productions() {
    let tv = Media { format: Some(MediaFormat::TV), episodes: Some(24), ..titled(1, "K-On!") };
    assert_eq!(
        format_production(&tv),
        Some(s("[K-On!](https://anilist.co/anime/1) » **TV** • Episodes: **24**"))
    );
    assert_eq!(
        format_production(&titled(2, "Film")),
        Some(s("[Film](https://anilist.co/anime/2) » **Unknown** • Episodes: **Unknown**"))
    );
    assert_eq!(format_production(&media(3)), None);
    assert_eq!(extract_productions(&None), None);
    let adult = Media { is_adult: Some(true), ..titled(4, "Hidden") };
    assert_eq!(extract_productions(&Some(vec![Some(adult), None, Some(media(5))])), None);
    let adult = Media { is_adult: Some(true), ..titled(4, "Hidden") };
    assert_eq!(
        extract_productions(&Some(vec![Some(adult), Some(tv), None])),
        Some(vec![s("[K-On!](https://anilist.co/anime/1) » **TV** • Episodes: **24**")])
    );
}

#[test]
fn suggestions_are_cut() {
    let many: Vec<String> = (0..40).map(|i| format!("t{i}")).collect();
    let cut = truncate_autocomplete_results(many.clone());
    assert_eq!(cut.len(), 25);
    assert_eq!(cut, many[..25].to_vec());
    let long = "é".repeat(150);
    let cut = truncate_autocomplete_results(vec![long, s("short")]);
    assert_eq!(cut, vec!["é".repeat(100), s("short")]);
    assert!(truncate_autocomplete_results(vec![]).is_empty());
    assert_eq!(suggestions_from_cache(vec![]), None);
    assert_eq!(suggestions_from_cache(vec![s("a")]), Some(vec![s("a")]));
}

#[test]
fn media_titles_for_suggestions() {
    let both = Media {
        title: Some(MediaTitle { romaji: Some(s("Shingeki")), english: Some(s("Attack")) }),
        ..media(1)
    };
    let same = Media {
        title: Some(MediaTitle { romaji: Some(s("Naruto")), english: Some(s("Naruto")) }),
        ..media(2)
    };
    let english_only = Media {
        title: Some(MediaTitle { romaji: None, english: Some(s("Lost")) }),
        ..media(3)
    };
    let list = vec![both, media(4), same, english_only, titled(5, "Bleach")];
    assert_eq!(
        extract_media_titles(&list),
        vec![s("Shingeki"), s("Attack"), s("Naruto"), s("Bleach")]
    );
    assert!(extract_media_titles(&vec![]).is_empty());
}

#[test]
fn answers_are_flattened() {
    assert_eq!(flatten::<i32>(vec![]), None);
    assert_eq!(flatten::<i32>(vec![None, None]), None);
    assert_eq!(flatten(vec![Some(1), None, Some(2), Some(3), None]), Some(vec![1, 2, 3]));
    assert_eq!(search_term(s("")), None);
    assert_eq!(search_term(s("x")), Some(s("x")));
}

#[test]
fn filtered_genres_and_tags() {
    assert_eq!(
        filter_genres(&vec![Some(s("Action")), Some(s("Hentai")), None, Some(s("Drama"))]),
        vec![s("Action"), s("Drama")]
    );
    assert_eq!(filter_genres(&vec![Some(s("hentai"))]), vec![s("hentai")]);
    let tags = vec![
        Some(MediaTag { name: s("Isekai"), is_adult: Some(false) }),
        Some(MediaTag { name: s("Nudity"), is_adult: Some(true) }),
        None,
        Some(MediaTag { name: s("Time Skip"), is_adult: None }),
    ];
    assert_eq!(filter_tags(&tags), vec![s("Isekai"), s("Time Skip")]);
}

#[test]
fn random_attempts() {
    assert_eq!(random_request(0, 900), RandomRequest { page: 900, per_page: 1 });
    assert_eq!(random_request(1, 900), RandomRequest { page: 300, per_page: 1 });
    assert_eq!(random_request(1, 2), RandomRequest { page: 0, per_page: 1 });
    assert_eq!(random_request(2, 900), RandomRequest { page: 1, per_page: 50 });
    assert_eq!(random_pick(0, 0, 0), None);
    assert_eq!(random_pick(0, 5, 3), Some(0));
    assert_eq!(random_pick(1, 5, 3), Some(0));
    assert_eq!(random_pick(2, 5, 3), Some(3));
    assert_eq!(random_pick(2, 5, 5), None);
}

#[test]
fn random_draws_stay_in_range() {
    for _ in 0..200 {
        let (page, request) = next_random_request(0, None);
        assert!((1..=1000).contains(&page));
        assert_eq!(request, RandomRequest { page, per_page: 1 });
        let (same, second) = next_random_request(1, Some(page));
        assert_eq!(same, page);
        assert_eq!(second, RandomRequest { page: page / 3, per_page: 1 });
        let index = pick_random(2, 7).unwrap();
        assert!(index < 7);
        assert_eq!(pick_random(0, 7), Some(0));
        assert_eq!(pick_random(1, 7), Some(0));
        assert_eq!(pick_random(2, 0), None);
        assert_eq!(pick_random(2, 1), Some(0));
    }
}

#[test]
fn names_for_suggestions() {
    let characters = vec![
        Character { id: 1, name: Some(name(Some("Ichigo"))), media: None },
        Character { id: 2, name: None, media: None },
        Character { id: 3, name: Some(name(None)), media: None },
        Character { id: 4, name: Some(name(Some("Rukia"))), media: None },
    ];
    assert_eq!(extract_character_names(&characters), vec![s("Ichigo"), s("Rukia")]);
    let staff = vec![
        Staff { id: 1, name: None, staff_media: None, characters: None },
        Staff { id: 2, name: Some(name(Some("Kubo"))), staff_media: None, characters: None },
    ];
    assert_eq!(extract_staff_names(&staff), vec![s("Kubo")]);
    let studios = vec![
        Studio { id: 1, name: s("Pierrot"), is_animation_studio: true, media: None },
        Studio { id: 2, name: s(""), is_animation_studio: false, media: None },
    ];
    assert_eq!(extract_studio_names(&studios), vec![s("Pierrot"), s("")]);
    assert!(extract_character_names(&vec![]).is_empty());
}
