//! How a catalog entry for an anime or a manga is worded.
use crate::format::{text_or_unknown, UNKNOWN_EMBED_FIELD};
use crate::choices::MediaType;
use crate::text::{
    filter_map, lemma_filter_map_none, lemma_filter_map_some, signed_decimal,
    signed_decimal_string, texts,
};
use vstd::prelude::*;
use vstd::string::StringExecFns;

verus! {

/// The titles of an entry.
pub struct MediaTitle {
    pub romaji: Option<String>,
    pub english: Option<String>,
}

/// The next episode of a show that is on air.
pub struct AiringEpisode {
    pub episode: i64,
    pub airing_at: i64,
}

/// The form in which an entry was released. `Unrecognized` stands for a
/// form that the catalog names and this library does not know.
#[allow(non_camel_case_types)]
#[derive(Clone, Copy, Debug, PartialEq, Eq, Structural)]
pub enum MediaFormat {
    TV,
    TV_SHORT,
    MOVIE,
    SPECIAL,
    OVA,
    ONA,
    MUSIC,
    MANGA,
    NOVEL,
    ONE_SHOT,
    Unrecognized,
}

#[allow(non_camel_case_types)]
#[derive(Clone, Copy, Debug, PartialEq, Eq, Structural)]
pub enum MediaStatus {
    FINISHED,
    RELEASING,
    NOT_YET_RELEASED,
    CANCELLED,
    HIATUS,
    Unrecognized,
}

#[allow(non_camel_case_types)]
#[derive(Clone, Copy, Debug, PartialEq, Eq, Structural)]
pub enum MediaSource {
    ORIGINAL,
    MANGA,
    LIGHT_NOVEL,
    VISUAL_NOVEL,
    VIDEO_GAME,
    OTHER,
    NOVEL,
    DOUJINSHI,
    ANIME,
    WEB_NOVEL,
    LIVE_ACTION,
    GAME,
    COMIC,
    MULTIMEDIA_PROJECT,
    PICTURE_BOOK,
    Unrecognized,
}

/// What the library reads of a catalog entry.
pub struct Media {
    pub id: i64,
    pub id_mal: Option<i64>,
    pub type_: Option<MediaType>,
    pub title: Option<MediaTitle>,
    pub format: Option<MediaFormat>,
    pub status: Option<MediaStatus>,
    pub source: Option<MediaSource>,
    pub episodes: Option<i64>,
    pub next_airing_episode: Option<AiringEpisode>,
    pub genres: Option<Vec<Option<String>>>,
    pub is_adult: Option<bool>,
    pub cover_image: Option<String>,
}

/// The title line: the romaji title, followed by the English title in
/// brackets where there is one and it differs. Without a romaji title there
/// is no title line.
pub open spec fn title_text(romaji: Option<Seq<char>>, english: Option<Seq<char>>) -> Option<
    Seq<char>,
> {
    match romaji {
        None => None,
        Some(r) => match english {
            Some(e) => if e != r {
                Some(r + " ("@ + e + ")"@)
            } else {
                Some(r)
            },
            None => Some(r),
        },
    }
}

/// The character sequence of an optional string.
pub open spec fn opt_text(text: Option<&String>) -> Option<Seq<char>> {
    match text {
        Some(t) => Some(t@),
        None => None,
    }
}

pub fn format_title(romaji: Option<&String>, english: Option<&String>) -> (r: Option<String>)
    ensures
        crate::format::option_text(r) == title_text(opt_text(romaji), opt_text(english)),
{
    let romaji = match romaji {
        Some(r) => r,
        None => {
            return None;
        },
    };
    match english {
        Some(english) => {
            if *english != *romaji {
                let mut text = romaji.clone();
                text.append(" (");
                text.append(english.as_str());
                text.append(")");
                Some(text)
            } else {
                Some(romaji.clone())
            }
        },
        None => Some(romaji.clone()),
    }
}

/// The moment that the chat platform makes of a number of seconds since
/// 1970, again in seconds since 1970, or `None` where it takes the number
/// for invalid.
pub uninterp spec fn platform_timestamp(secs: i64) -> Option<i64>;

/// The moments whose milliseconds since 1970 fit in 64 bits.
pub open spec fn airing_in_reach(airing_at: i64) -> bool {
    -9223372036854775 <= airing_at <= 9223372036854775
}

/// Has the chat platform's library check a moment. Trusted:
/// `Timestamp::from_unix_timestamp` of `serenity`, as `poise` hands it on,
/// and `Timestamp::unix_timestamp` on what it gives. The first multiplies
/// the seconds by a thousand, so moments for which that overflows are left
/// out. A moment that is taken for valid is given back as it came; which
/// moments are, the contract leaves to the name.
#[verifier::external_body]
fn check_timestamp(secs: i64) -> (r: Option<i64>)
    requires
        airing_in_reach(secs),
    ensures
        r == platform_timestamp(secs),
        r matches Some(s) ==> s == secs,
{
    match poise::serenity_prelude::Timestamp::from_unix_timestamp(secs) {
        Ok(moment) => Some(moment.unix_timestamp()),
        Err(_) => None,
    }
}

/// A moment as the chat client shows it relative to now.
pub open spec fn relative_time(secs: i64) -> Seq<char> {
    "<t:"@ + signed_decimal(secs as int) + ":R>"@
}

/// The text of the moment of airing, or `None` where it is out of reach or
/// the platform takes it for invalid.
pub open spec fn next_airing_text(airing_at: i64) -> Option<Seq<char>> {
    if airing_in_reach(airing_at) && platform_timestamp(airing_at) is Some {
        Some(relative_time(airing_at))
    } else {
        None
    }
}

/// Words a moment that the platform has checked.
pub fn format_relative_time(secs: i64) -> (r: String)
    ensures
        r@ == relative_time(secs),
{
    let mut text = String::from_str("<t:");
    text.append(signed_decimal_string(secs).as_str());
    text.append(":R>");
    text
}

pub fn format_next_airing_time(airing_at: i64) -> (r: Option<String>)
    ensures
        crate::format::option_text(r) == next_airing_text(airing_at),
{
    if -9223372036854775 <= airing_at && airing_at <= 9223372036854775 {
        match check_timestamp(airing_at) {
            Some(secs) => Some(format_relative_time(secs)),
            None => None,
        }
    } else {
        None
    }
}

/// The number of the episode before `episode`.
pub open spec fn episode_before(episode: i64) -> int {
    if episode > i64::MIN {
        episode - 1
    } else {
        episode as int
    }
}

/// The episode line of a show that is on air, from the text of the moment
/// at which the next episode airs: the episodes aired, of how many where
/// that is known, and when the next one comes.
pub open spec fn airing_line(episode: i64, total: Option<i64>, next_airing: Option<Seq<char>>) -> Seq<
    char,
> {
    let current = signed_decimal(episode_before(episode));
    let count = match total {
        Some(t) => current + "/"@ + signed_decimal(t as int),
        None => current,
    };
    count + " (Next "@ + (match next_airing {
        Some(t) => t,
        None => UNKNOWN_EMBED_FIELD@,
    }) + ")"@
}

/// Words the episode line of a show that is on air.
pub fn format_airing_line(episode: i64, total: Option<i64>, next_airing: Option<String>) -> (r:
    String)
    ensures
        r@ == airing_line(episode, total, crate::format::option_text(next_airing)),
{
    let current = if episode > i64::MIN {
        episode - 1
    } else {
        episode
    };
    let mut line = signed_decimal_string(current);
    match total {
        Some(t) => {
            line.append("/");
            line.append(signed_decimal_string(t).as_str());
        },
        None => {},
    }
    line.append(" (Next ");
    line.append(text_or_unknown(next_airing).as_str());
    line.append(")");
    line
}

/// The episode line of an entry: for a show that is on air and has a next
/// episode, what has aired and what comes; else the number of episodes,
/// where that is known.
pub open spec fn episodes_text(data: Media) -> Option<Seq<char>> {
    match (data.status, data.next_airing_episode) {
        (Some(MediaStatus::RELEASING), Some(next)) => Some(
            airing_line(next.episode, data.episodes, next_airing_text(next.airing_at)),
        ),
        _ => match data.episodes {
            Some(e) => Some(signed_decimal(e as int)),
            None => None,
        },
    }
}

pub fn format_episodes(data: &Media) -> (r: Option<String>)
    ensures
        crate::format::option_text(r) == episodes_text(*data),
{
    match (&data.status, &data.next_airing_episode) {
        (Some(MediaStatus::RELEASING), Some(next)) => {
            let next_airing = format_next_airing_time(next.airing_at);
            Some(format_airing_line(next.episode, data.episodes, next_airing))
        },
        _ => match data.episodes {
            Some(e) => Some(signed_decimal_string(e)),
            None => None,
        },
    }
}

/// A genre as it is shown: between backticks.
pub open spec fn quoted(text: Seq<char>) -> Seq<char> {
    "`"@ + text + "`"@
}

/// A genre as it is shown, where it is there.
pub open spec fn genre_text(genre: Option<String>) -> Option<Seq<char>> {
    match genre {
        Some(t) => Some(quoted(t@)),
        None => None,
    }
}

/// The genres that are there, each as it is shown.
pub open spec fn genre_texts(genres: Seq<Option<String>>) -> Seq<Seq<char>> {
    filter_map(genres, |g: Option<String>| genre_text(g))
}

/// The genre line of an entry: its genres, each between backticks. An entry
/// without a genre has no genre line.
pub fn extract_genres(data: &Media) -> (r: Option<Vec<String>>)
    ensures
        match data.genres {
            Some(genres) => match r {
                Some(list) => texts(list@) == genre_texts(genres@) && list@.len() > 0,
                None => genre_texts(genres@).len() == 0,
            },
            None => r is None,
        },
{
    let genres = match &data.genres {
        Some(g) => g,
        None => {
            return None;
        },
    };
    let mut list: Vec<String> = Vec::new();
    let mut i: usize = 0;
    assert(texts(list@) =~= genre_texts(genres@.take(0)));
    while i < genres.len()
        invariant
            i <= genres@.len(),
            texts(list@) == genre_texts(genres@.take(i as int)),
        decreases genres@.len() - i,
    {
        let ghost f = |g: Option<String>| genre_text(g);
        let ghost before = texts(list@);
        match &genres[i] {
            Some(g) => {
                let mut text = String::from_str("`");
                text.append(g.as_str());
                text.append("`");
                list.push(text);
                proof {
                    lemma_filter_map_some(genres@, f, i as int, quoted(g@));
                    assert(texts(list@) =~= before.push(quoted(g@)));
                }
            },
            None => {
                proof {
                    lemma_filter_map_none(genres@, f, i as int);
                }
            },
        }
        i += 1;
    }
    assert(genres@.take(i as int) =~= genres@);
    if list.len() == 0 {
        None
    } else {
        Some(list)
    }
}

pub fn format_media_format(format: Option<&MediaFormat>) -> (r: &'static str)
    ensures
        r@ == match format {
            Some(MediaFormat::TV) => "TV"@,
            Some(MediaFormat::TV_SHORT) => "TV Short"@,
            Some(MediaFormat::MOVIE) => "Movie"@,
            Some(MediaFormat::SPECIAL) => "Special"@,
            Some(MediaFormat::OVA) => "OVA"@,
            Some(MediaFormat::ONA) => "ONA"@,
            Some(MediaFormat::MUSIC) => "Music"@,
            Some(MediaFormat::MANGA) => "Manga"@,
            Some(MediaFormat::NOVEL) => "Novel"@,
            Some(MediaFormat::ONE_SHOT) => "One Shot"@,
            _ => UNKNOWN_EMBED_FIELD@,
        },
{
    match format {
        Some(MediaFormat::TV) => "TV",
        Some(MediaFormat::TV_SHORT) => "TV Short",
        Some(MediaFormat::MOVIE) => "Movie",
        Some(MediaFormat::SPECIAL) => "Special",
        Some(MediaFormat::OVA) => "OVA",
        Some(MediaFormat::ONA) => "ONA",
        Some(MediaFormat::MUSIC) => "Music",
        Some(MediaFormat::MANGA) => "Manga",
        Some(MediaFormat::NOVEL) => "Novel",
        Some(MediaFormat::ONE_SHOT) => "One Shot",
        _ => UNKNOWN_EMBED_FIELD,
    }
}

pub fn format_media_status(status: Option<&MediaStatus>) -> (r: &'static str)
    ensures
        r@ == match status {
            Some(MediaStatus::FINISHED) => "Finished"@,
            Some(MediaStatus::RELEASING) => "Releasing"@,
            Some(MediaStatus::NOT_YET_RELEASED) => "Not Yet Released"@,
            Some(MediaStatus::CANCELLED) => "Cancelled"@,
            Some(MediaStatus::HIATUS) => "Hiatus"@,
            _ => UNKNOWN_EMBED_FIELD@,
        },
{
    match status {
        Some(MediaStatus::FINISHED) => "Finished",
        Some(MediaStatus::RELEASING) => "Releasing",
        Some(MediaStatus::NOT_YET_RELEASED) => "Not Yet Released",
        Some(MediaStatus::CANCELLED) => "Cancelled",
        Some(MediaStatus::HIATUS) => "Hiatus",
        _ => UNKNOWN_EMBED_FIELD,
    }
}

pub fn format_media_source(source: Option<&MediaSource>) -> (r: &'static str)
    ensures
        r@ == match source {
            Some(MediaSource::ORIGINAL) => "Original"@,
            Some(MediaSource::MANGA) => "Manga"@,
            Some(MediaSource::LIGHT_NOVEL) => "Light Novel"@,
            Some(MediaSource::VISUAL_NOVEL) => "Visual Novel"@,
            Some(MediaSource::VIDEO_GAME) => "Video Game"@,
            Some(MediaSource::OTHER) => "Other"@,
            Some(MediaSource::NOVEL) => "Novel"@,
            Some(MediaSource::DOUJINSHI) => "Doujinshi"@,
            Some(MediaSource::ANIME) => "Anime"@,
            Some(MediaSource::WEB_NOVEL) => "Web Novel"@,
            Some(MediaSource::LIVE_ACTION) => "Live Action"@,
            Some(MediaSource::GAME) => "Game"@,
            Some(MediaSource::COMIC) => "Comic"@,
            Some(MediaSource::MULTIMEDIA_PROJECT) => "Multimedia Project"@,
            Some(MediaSource::PICTURE_BOOK) => "Picture Book"@,
            _ => UNKNOWN_EMBED_FIELD@,
        },
{
    match source {
        Some(MediaSource::ORIGINAL) => "Original",
        Some(MediaSource::MANGA) => "Manga",
        Some(MediaSource::LIGHT_NOVEL) => "Light Novel",
        Some(MediaSource::VISUAL_NOVEL) => "Visual Novel",
        Some(MediaSource::VIDEO_GAME) => "Video Game",
        Some(MediaSource::OTHER) => "Other",
        Some(MediaSource::NOVEL) => "Novel",
        Some(MediaSource::DOUJINSHI) => "Doujinshi",
        Some(MediaSource::ANIME) => "Anime",
        Some(MediaSource::WEB_NOVEL) => "Web Novel",
        Some(MediaSource::LIVE_ACTION) => "Live Action",
        Some(MediaSource::GAME) => "Game",
        Some(MediaSource::COMIC) => "Comic",
        Some(MediaSource::MULTIMEDIA_PROJECT) => "Multimedia Project",
        Some(MediaSource::PICTURE_BOOK) => "Picture Book",
        _ => UNKNOWN_EMBED_FIELD,
    }
}

} // verus!
