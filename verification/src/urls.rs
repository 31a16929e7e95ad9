//! Addresses of catalog pages.
use crate::choices::MediaType;
use crate::text::{signed_decimal, signed_decimal_string};
use vstd::prelude::*;
use vstd::string::StringExecFns;

verus! {

pub const ANILIST_LOGO: &'static str =
    "https://cdn.discordapp.com/attachments/978016869342658630/978033399107289189/anilist.png";

pub const ANILIST_EMOJI: u64 = 1391599698099572847;

pub const MYANIMELIST_EMOJI: u64 = 1391599739845480468;

pub const ANILIST_BASE_URL: &'static str = "https://anilist.co";

pub const MYANIMELIST_BASE_URL: &'static str = "https://myanimelist.net";

/// The address of the page of kind `kind` with number `id` on the site at
/// `base`: the three joined by slashes.
pub open spec fn page_url(base: Seq<char>, kind: Seq<char>, id: int) -> Seq<char> {
    base + "/"@ + kind + "/"@ + signed_decimal(id)
}

/// The word for a media type in an address.
pub open spec fn media_kind(media_type: MediaType) -> Seq<char> {
    match media_type {
        MediaType::ANIME => "anime"@,
        MediaType::MANGA => "manga"@,
    }
}

fn site_url(base: &str, kind: &str, id: i64) -> (r: String)
    ensures
        r@ == page_url(base@, kind@, id as int),
{
    let mut url = String::from_str(base);
    url.append("/");
    url.append(kind);
    url.append("/");
    url.append(signed_decimal_string(id).as_str());
    url
}

pub fn anilist_url(kind: &str, id: i64) -> (r: String)
    ensures
        r@ == page_url(ANILIST_BASE_URL@, kind@, id as int),
{
    site_url(ANILIST_BASE_URL, kind, id)
}

pub fn anilist_media_url(media_type: MediaType, id: i64) -> (r: String)
    ensures
        r@ == page_url(ANILIST_BASE_URL@, media_kind(media_type), id as int),
{
    match media_type {
        MediaType::ANIME => anilist_anime_url(id),
        MediaType::MANGA => anilist_manga_url(id),
    }
}

pub fn anilist_anime_url(id: i64) -> (r: String)
    ensures
        r@ == page_url(ANILIST_BASE_URL@, "anime"@, id as int),
{
    anilist_url("anime", id)
}

pub fn anilist_manga_url(id: i64) -> (r: String)
    ensures
        r@ == page_url(ANILIST_BASE_URL@, "manga"@, id as int),
{
    anilist_url("manga", id)
}

pub fn anilist_character_url(id: i64) -> (r: String)
    ensures
        r@ == page_url(ANILIST_BASE_URL@, "character"@, id as int),
{
    anilist_url("character", id)
}

pub fn anilist_staff_url(id: i64) -> (r: String)
    ensures
        r@ == page_url(ANILIST_BASE_URL@, "staff"@, id as int),
{
    anilist_url("staff", id)
}

pub fn anilist_studio_url(id: i64) -> (r: String)
    ensures
        r@ == page_url(ANILIST_BASE_URL@, "studio"@, id as int),
{
    anilist_url("studio", id)
}

pub fn myanimelist_url(kind: &str, id: i64) -> (r: String)
    ensures
        r@ == page_url(MYANIMELIST_BASE_URL@, kind@, id as int),
{
    site_url(MYANIMELIST_BASE_URL, kind, id)
}

pub fn myanimelist_media_url(media_type: MediaType, id: i64) -> (r: String)
    ensures
        r@ == page_url(MYANIMELIST_BASE_URL@, media_kind(media_type), id as int),
{
    match media_type {
        MediaType::ANIME => myanimelist_anime_url(id),
        MediaType::MANGA => myanimelist_manga_url(id),
    }
}

pub fn myanimelist_anime_url(id: i64) -> (r: String)
    ensures
        r@ == page_url(MYANIMELIST_BASE_URL@, "anime"@, id as int),
{
    myanimelist_url("anime", id)
}

pub fn myanimelist_manga_url(id: i64) -> (r: String)
    ensures
        r@ == page_url(MYANIMELIST_BASE_URL@, "manga"@, id as int),
{
    myanimelist_url("manga", id)
}

} // verus!
