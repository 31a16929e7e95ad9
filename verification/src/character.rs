//! How a catalog entry for a character is worded.
use crate::anime::{opt_text, quoted, Media};
use crate::format::option_text;
use crate::text::{filter_map, lemma_filter_map_none, lemma_filter_map_some, texts};
use crate::urls::{anilist_media_url, media_kind, page_url, ANILIST_BASE_URL};
use vstd::prelude::*;
use vstd::string::StringExecFns;

verus! {

/// The names of a character or of a member of staff.
pub struct PersonName {
    pub full: Option<String>,
    pub native: Option<String>,
    pub alternative: Option<Vec<Option<String>>>,
    pub alternative_spoiler: Option<Vec<Option<String>>>,
}

/// What the library reads of a character.
pub struct Character {
    pub id: i64,
    pub name: Option<PersonName>,
    pub media: Option<Vec<Option<Media>>>,
}

/// The name line: the full name, followed by the native name in brackets
/// where there is one and it differs; the native name alone where there is
/// no full name; nothing where there is neither.
pub open spec fn name_text(full: Option<Seq<char>>, native: Option<Seq<char>>) -> Option<
    Seq<char>,
> {
    match (full, native) {
        (Some(f), Some(n)) => if f == n {
            Some(f)
        } else {
            Some(f + " ("@ + n + ")"@)
        },
        (Some(f), None) => Some(f),
        (None, Some(n)) => Some(n),
        (None, None) => None,
    }
}

pub fn format_name(full: Option<&String>, native: Option<&String>) -> (r: Option<String>)
    ensures
        option_text(r) == name_text(opt_text(full), opt_text(native)),
{
    match (full, native) {
        (Some(full), Some(native)) => {
            if *full == *native {
                Some(full.clone())
            } else {
                let mut text = full.clone();
                text.append(" (");
                text.append(native.as_str());
                text.append(")");
                Some(text)
            }
        },
        (Some(full), None) => Some(full.clone()),
        (None, Some(native)) => Some(native.clone()),
        (None, None) => None,
    }
}

/// Another name as it is shown, where it is there.
pub open spec fn synonym_text(name: Option<String>) -> Option<Seq<char>> {
    match name {
        Some(t) => Some(quoted(t@)),
        None => None,
    }
}

/// Another name that gives the plot away, as it is shown: hidden.
pub open spec fn spoiler_text(name: Option<String>) -> Option<Seq<char>> {
    match name {
        Some(t) => Some("||`"@ + t@ + "`||"@),
        None => None,
    }
}

/// The other names that are there, each between backticks.
pub open spec fn synonym_texts(names: Option<Vec<Option<String>>>) -> Seq<Seq<char>> {
    match names {
        Some(list) => filter_map(list@, |n: Option<String>| synonym_text(n)),
        None => Seq::empty(),
    }
}

/// The other names that give the plot away, each hidden.
pub open spec fn spoiler_texts(names: Option<Vec<Option<String>>>) -> Seq<Seq<char>> {
    match names {
        Some(list) => filter_map(list@, |n: Option<String>| spoiler_text(n)),
        None => Seq::empty(),
    }
}

/// Appends to `out` the names of `names` that are there, each between
/// `open` and `close`.
fn push_wrapped(out: &mut Vec<String>, names: &Vec<Option<String>>, spoiler: bool)
    ensures
        texts(final(out)@) == texts(old(out)@) + (if spoiler {
            filter_map(names@, |n: Option<String>| spoiler_text(n))
        } else {
            filter_map(names@, |n: Option<String>| synonym_text(n))
        }),
{
    let ghost base = texts(out@);
    let mut i: usize = 0;
    proof {
        assert(names@.take(0) =~= Seq::<Option<String>>::empty());
        assert(base + Seq::<Seq<char>>::empty() =~= base);
    }
    while i < names.len()
        invariant
            i <= names@.len(),
            base == texts(old(out)@),
            texts(out@) == base + (if spoiler {
                filter_map(names@.take(i as int), |n: Option<String>| spoiler_text(n))
            } else {
                filter_map(names@.take(i as int), |n: Option<String>| synonym_text(n))
            }),
        decreases names@.len() - i,
    {
        let ghost before = texts(out@);
        match &names[i] {
            Some(n) => {
                let mut text = if spoiler {
                    String::from_str("||`")
                } else {
                    String::from_str("`")
                };
                text.append(n.as_str());
                text.append(if spoiler {
                    "`||"
                } else {
                    "`"
                });
                out.push(text);
                proof {
                    assert(texts(out@) =~= before.push(text@));
                    if spoiler {
                        lemma_filter_map_some(
                            names@,
                            |n: Option<String>| spoiler_text(n),
                            i as int,
                            text@,
                        );
                        let part = filter_map(
                            names@.take(i as int),
                            |n: Option<String>| spoiler_text(n),
                        );
                        assert((base + part).push(text@) =~= base + part.push(text@));
                    } else {
                        lemma_filter_map_some(
                            names@,
                            |n: Option<String>| synonym_text(n),
                            i as int,
                            text@,
                        );
                        let part = filter_map(
                            names@.take(i as int),
                            |n: Option<String>| synonym_text(n),
                        );
                        assert((base + part).push(text@) =~= base + part.push(text@));
                    }
                }
            },
            None => {
                proof {
                    lemma_filter_map_none(names@, |n: Option<String>| spoiler_text(n), i as int);
                    lemma_filter_map_none(names@, |n: Option<String>| synonym_text(n), i as int);
                }
            },
        }
        i += 1;
    }
    assert(names@.take(i as int) =~= names@);
}

/// The synonym line of a character: the other names between backticks, then
/// those that give the plot away, hidden. A character without a name, or
/// without another name, has no synonym line.
pub fn extract_synonyms(data: &Character) -> (r: Option<Vec<String>>)
    ensures
        match data.name {
            Some(name) => {
                let all = synonym_texts(name.alternative) + spoiler_texts(
                    name.alternative_spoiler,
                );
                match r {
                    Some(list) => texts(list@) == all && all.len() > 0,
                    None => all.len() == 0,
                }
            },
            None => r is None,
        },
{
    let name = match &data.name {
        Some(n) => n,
        None => {
            return None;
        },
    };
    let mut synonyms: Vec<String> = Vec::new();
    assert(texts(synonyms@) =~= Seq::<Seq<char>>::empty());
    match &name.alternative {
        Some(alt) => {
            push_wrapped(&mut synonyms, alt, false);
        },
        None => {},
    }
    assert(texts(synonyms@) =~= synonym_texts(name.alternative));
    match &name.alternative_spoiler {
        Some(alt) => {
            push_wrapped(&mut synonyms, alt, true);
        },
        None => {
            assert(texts(synonyms@) + Seq::<Seq<char>>::empty() =~= texts(synonyms@));
        },
    }
    if synonyms.len() == 0 {
        None
    } else {
        Some(synonyms)
    }
}

/// A link as the chat client reads it: the text in square brackets, the
/// address in round ones.
pub open spec fn link_text(text: Seq<char>, url: Seq<char>) -> Seq<char> {
    "["@ + text + "]("@ + url + ")"@
}

/// An appearance as it is shown: the romaji title as a link to the entry.
/// Entries for adults, and those without a romaji title or without a type,
/// are not shown.
pub open spec fn appearance_text(media: Option<Media>) -> Option<Seq<char>> {
    match media {
        Some(m) => if m.is_adult == Some(true) {
            None
        } else {
            match (m.title, m.type_) {
                (Some(t), Some(kind)) => match t.romaji {
                    Some(r) => Some(
                        link_text(r@, page_url(ANILIST_BASE_URL@, media_kind(kind), m.id as int)),
                    ),
                    None => None,
                },
                _ => None,
            }
        },
        None => None,
    }
}

/// The appearances of a character: the entries it appears in, each as a
/// link. A character without one has no such line.
pub fn extract_appearances(data: &Character) -> (r: Option<Vec<String>>)
    ensures
        match data.media {
            Some(nodes) => {
                let all = filter_map(nodes@, |m: Option<Media>| appearance_text(m));
                match r {
                    Some(list) => texts(list@) == all && all.len() > 0,
                    None => all.len() == 0,
                }
            },
            None => r is None,
        },
{
    let nodes = match &data.media {
        Some(n) => n,
        None => {
            return None;
        },
    };
    let mut appearances: Vec<String> = Vec::new();
    let mut i: usize = 0;
    proof {
        assert(nodes@.take(0) =~= Seq::<Option<Media>>::empty());
        assert(texts(appearances@) =~= Seq::<Seq<char>>::empty());
    }
    while i < nodes.len()
        invariant
            i <= nodes@.len(),
            texts(appearances@) == filter_map(
                nodes@.take(i as int),
                |m: Option<Media>| appearance_text(m),
            ),
        decreases nodes@.len() - i,
    {
        let ghost before = texts(appearances@);
        let ghost f = |m: Option<Media>| appearance_text(m);
        let text = appearance(&nodes[i]);
        match text {
            Some(t) => {
                proof {
                    lemma_filter_map_some(nodes@, f, i as int, t@);
                }
                appearances.push(t);
                assert(texts(appearances@) =~= before.push(t@));
            },
            None => {
                proof {
                    lemma_filter_map_none(nodes@, f, i as int);
                }
            },
        }
        i += 1;
    }
    assert(nodes@.take(i as int) =~= nodes@);
    if appearances.len() == 0 {
        None
    } else {
        Some(appearances)
    }
}

/// One appearance as it is shown, where it is shown.
fn appearance(media: &Option<Media>) -> (r: Option<String>)
    ensures
        option_text(r) == appearance_text(*media),
{
    let m = match media {
        Some(m) => m,
        None => {
            return None;
        },
    };
    match m.is_adult {
        Some(true) => {
            return None;
        },
        _ => {},
    }
    let title = match &m.title {
        Some(t) => t,
        None => {
            return None;
        },
    };
    let romaji = match &title.romaji {
        Some(r) => r,
        None => {
            return None;
        },
    };
    let kind = match m.type_ {
        Some(k) => k,
        None => {
            return None;
        },
    };
    let mut text = String::from_str("[");
    text.append(romaji.as_str());
    text.append("](");
    text.append(anilist_media_url(kind, m.id).as_str());
    text.append(")");
    Some(text)
}

} // verus!
