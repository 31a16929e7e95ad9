//! How a catalog entry for a studio is worded.
use crate::anime::{format_media_format, Media, MediaFormat};
use crate::character::link_text;
use crate::format::{option_text, UNKNOWN_EMBED_FIELD};
use crate::text::{
    filter_map, lemma_filter_map_none, lemma_filter_map_some, signed_decimal,
    signed_decimal_string, texts,
};
use crate::urls::{anilist_media_url, media_kind, page_url, ANILIST_BASE_URL};
use vstd::prelude::*;
use vstd::string::StringExecFns;

verus! {

/// What the library reads of a studio.
pub struct Studio {
    pub id: i64,
    pub name: String,
    pub is_animation_studio: bool,
    pub media: Option<Vec<Option<Media>>>,
}

/// Whether an entry may be shown to everybody.
pub open spec fn is_shown(media: Option<Media>) -> bool {
    media matches Some(m) && m.is_adult != Some(true)
}

/// The position of the first entry that may be shown to everybody, or the
/// length of the list where there is none.
pub open spec fn first_shown(nodes: Seq<Option<Media>>) -> int
    decreases nodes.len(),
{
    if nodes.len() == 0 {
        0
    } else if is_shown(nodes[0]) {
        0
    } else {
        1 + first_shown(nodes.skip(1))
    }
}

/// The picture of a studio: the cover of its first production that may be
/// shown to everybody, where that has one.
pub open spec fn image_of(nodes: Seq<Option<Media>>) -> Option<String> {
    let at = first_shown(nodes);
    if 0 <= at < nodes.len() {
        match nodes[at] {
            Some(m) => m.cover_image,
            None => None,
        }
    } else {
        None
    }
}

proof fn lemma_first_shown(nodes: Seq<Option<Media>>, at: int)
    requires
        0 <= at <= nodes.len(),
        forall|j: int| 0 <= j < at ==> !is_shown(#[trigger] nodes[j]),
        at < nodes.len() ==> is_shown(nodes[at]),
    ensures
        first_shown(nodes) == at,
    decreases at,
{
    if at > 0 {
        assert(!is_shown(nodes[0]));
        assert forall|j: int| 0 <= j < at - 1 implies !is_shown(#[trigger] nodes.skip(1)[j]) by {
            assert(nodes.skip(1)[j] == nodes[j + 1]);
        }
        lemma_first_shown(nodes.skip(1), at - 1);
    }
}

pub fn extract_image(media: &Option<Vec<Option<Media>>>) -> (r: Option<&String>)
    ensures
        match *media {
            Some(nodes) => match image_of(nodes@) {
                Some(cover) => r == Some(&cover),
                None => r is None,
            },
            None => r is None,
        },
{
    let nodes = match media {
        Some(n) => n,
        None => {
            return None;
        },
    };
    let mut i: usize = 0;
    while i < nodes.len()
        invariant
            *media == Some(*nodes),
            i <= nodes@.len(),
            forall|j: int| 0 <= j < i ==> !is_shown(#[trigger] nodes@[j]),
        decreases nodes@.len() - i,
    {
        match &nodes[i] {
            Some(m) => {
                let adult = match m.is_adult {
                    Some(true) => true,
                    _ => false,
                };
                if !adult {
                    proof {
                        lemma_first_shown(nodes@, i as int);
                    }
                    return match &m.cover_image {
                        Some(cover) => Some(cover),
                        None => None,
                    };
                }
            },
            None => {},
        }
        i += 1;
    }
    proof {
        lemma_first_shown(nodes@, i as int);
    }
    None
}

/// The text of a number that may be missing.
pub open spec fn count_text(count: Option<i64>) -> Seq<char> {
    match count {
        Some(c) => signed_decimal(c as int),
        None => UNKNOWN_EMBED_FIELD@,
    }
}

/// The word for a form of release.
pub open spec fn format_word(format: Option<MediaFormat>) -> Seq<char> {
    match format {
        Some(MediaFormat::TV) => "TV"@,
        Some(MediaFormat::TV_SHORT) => "TV Short"@,
        Some(MediaFormat::MOVIE) => "Movie"@,
        Some(MediaFormat::SPECIAL) => "Special"@,
        Some(MediaFormat::OVA) => "OVA"@,
        Some(MediaFormat::ONA) => "ONA"@,
        Some(MediaFormat::MUSIC) => "Music"@,
        Some(MediaFormat::MANGA) => "Manga"@,
        Some(MediaFormat::NOVEL) => "Novel"@,
        Some(MediaFormat::ONE_SHOT) => "One Shot"@,
        _ => UNKNOWN_EMBED_FIELD@,
    }
}

/// The line of one production: its romaji title as a link, its form and
/// the number of its episodes. A production without a romaji title or
/// without a type has no line.
pub open spec fn production_text(media: Media) -> Option<Seq<char>> {
    match (media.title, media.type_) {
        (Some(t), Some(kind)) => match t.romaji {
            Some(r) => Some(
                link_text(r@, page_url(ANILIST_BASE_URL@, media_kind(kind), media.id as int))
                    + " » **"@ + format_word(media.format) + "** • Episodes: **"@ + count_text(
                    media.episodes,
                ) + "**"@,
            ),
            None => None,
        },
        _ => None,
    }
}

pub fn format_production(media: &Media) -> (r: Option<String>)
    ensures
        option_text(r) == production_text(*media),
{
    let title = match &media.title {
        Some(t) => t,
        None => {
            return None;
        },
    };
    let romaji = match &title.romaji {
        Some(r) => r,
        None => {
            return None;
        },
    };
    let kind = match media.type_ {
        Some(k) => k,
        None => {
            return None;
        },
    };
    let format = match &media.format {
        Some(f) => format_media_format(Some(f)),
        None => format_media_format(None),
    };
    let mut text = String::from_str("[");
    text.append(romaji.as_str());
    text.append("](");
    text.append(anilist_media_url(kind, media.id).as_str());
    text.append(")");
    text.append(" » **");
    text.append(format);
    text.append("** • Episodes: **");
    match media.episodes {
        Some(e) => {
            text.append(signed_decimal_string(e).as_str());
        },
        None => {
            text.append(UNKNOWN_EMBED_FIELD);
        },
    }
    text.append("**");
    Some(text)
}

/// The line of a production in a studio's list, where it is listed:
/// productions for adults are not.
pub open spec fn listed_production(media: Option<Media>) -> Option<Seq<char>> {
    match media {
        Some(m) => if m.is_adult == Some(true) {
            None
        } else {
            production_text(m)
        },
        None => None,
    }
}

/// The productions of a studio, one line each. A studio without one that is
/// listed has no such lines.
pub fn extract_productions(media: &Option<Vec<Option<Media>>>) -> (r: Option<Vec<String>>)
    ensures
        match *media {
            Some(nodes) => {
                let all = filter_map(nodes@, |m: Option<Media>| listed_production(m));
                match r {
                    Some(list) => texts(list@) == all && all.len() > 0,
                    None => all.len() == 0,
                }
            },
            None => r is None,
        },
{
    let nodes = match media {
        Some(n) => n,
        None => {
            return None;
        },
    };
    let mut productions: Vec<String> = Vec::new();
    let mut i: usize = 0;
    proof {
        assert(nodes@.take(0) =~= Seq::<Option<Media>>::empty());
        assert(texts(productions@) =~= Seq::<Seq<char>>::empty());
    }
    while i < nodes.len()
        invariant
            i <= nodes@.len(),
            texts(productions@) == filter_map(
                nodes@.take(i as int),
                |m: Option<Media>| listed_production(m),
            ),
        decreases nodes@.len() - i,
    {
        let ghost before = texts(productions@);
        let ghost f = |m: Option<Media>| listed_production(m);
        let line = match &nodes[i] {
            Some(m) => {
                let adult = match m.is_adult {
                    Some(true) => true,
                    _ => false,
                };
                if adult {
                    None
                } else {
                    format_production(m)
                }
            },
            None => None,
        };
        match line {
            Some(t) => {
                proof {
                    lemma_filter_map_some(nodes@, f, i as int, t@);
                }
                productions.push(t);
                assert(texts(productions@) =~= before.push(t@));
            },
            None => {
                proof {
                    lemma_filter_map_none(nodes@, f, i as int);
                }
            },
        }
        i += 1;
    }
    assert(nodes@.take(i as int) =~= nodes@);
    if productions.len() == 0 {
        None
    } else {
        Some(productions)
    }
}

} // verus!
