//! What the catalog service decides between its requests: what to ask for,
//! what to keep of an answer, and what to suggest. Sending a request and
//! waiting for the answer is left to the caller.
use crate::anime::Media;
use crate::cache::AUTOCOMPLETE_LIMIT;
use crate::character::Character;
use crate::staff::Staff;
use crate::studio::Studio;
use crate::text::{
    filter_map, lemma_filter_map_none, lemma_filter_map_some, str_chars, string_from_chars, texts,
};
use vstd::prelude::*;
use vstd::string::StringExecFns;

verus! {

pub const DEFAULT_PAGE: i64 = 1;

pub const DEFAULT_SEARCH_LIMIT: usize = 10;

/// How many characters a suggestion has at most.
pub const MAX_AUTOCOMPLETE_LEN: usize = 100;

pub const TRENDING_LIMIT: usize = 15;

pub const SEASONAL_LIMIT: usize = 50;

/// The genre that is never suggested.
pub const FILTERED_GENRE: &'static str = "Hentai";

/// The first page from which a random entry is drawn lies in `1..=1000`.
pub const RANDOM_PAGES: i64 = 1000;

/// How many entries the last attempt at a random entry asks for.
pub const RANDOM_LAST_LIMIT: i64 = 50;

/// How many entries a search asks for: as many as the caller wants, or ten
/// where the caller does not say.
pub fn per_page(limit: Option<usize>) -> (r: usize)
    ensures
        r == match limit {
            Some(l) => l,
            None => DEFAULT_SEARCH_LIMIT,
        },
{
    match limit {
        Some(l) => l,
        None => DEFAULT_SEARCH_LIMIT,
    }
}

/// What the catalog is searched for: the text given, or nothing where no
/// text was given.
pub fn search_term(text: String) -> (r: Option<String>)
    ensures
        r == if text@.len() == 0 {
            None
        } else {
            Some(text)
        },
{
    if text.as_str().is_empty() {
        None
    } else {
        Some(text)
    }
}

/// The items of a list that are there, in order.
pub open spec fn present<T>(items: Seq<Option<T>>) -> Seq<T> {
    filter_map(items, |item: Option<T>| item)
}

/// The items of an answer that are there, in order, or `None` where there
/// is none.
pub fn flatten<T>(items: Vec<Option<T>>) -> (r: Option<Vec<T>>)
    ensures
        match r {
            Some(list) => list@ == present(items@) && list@.len() > 0,
            None => present(items@).len() == 0,
        },
{
    let mut items = items;
    let ghost all = items@;
    let mut list: Vec<T> = Vec::new();
    proof {
        assert(all.take(all.len() as int) =~= all);
    }
    // Items are taken from the back and put in order at the end.
    let mut back: Vec<T> = Vec::new();
    while items.len() > 0
        invariant
            items@ == all.take(items@.len() as int),
            items@.len() <= all.len(),
            present(all) == present(items@) + back@.reverse(),
        decreases items@.len(),
    {
        let ghost before = items@;
        let ghost rest = back@.reverse();
        let item = items.pop().unwrap();
        proof {
            assert(items@ =~= before.drop_last());
            assert(before.last() == item);
        }
        match item {
            Some(value) => {
                back.push(value);
                proof {
                    assert(back@.reverse() =~= seq![value] + rest);
                    assert(present(before) == present(items@) + seq![value]);
                    assert(present(all) =~= present(items@) + back@.reverse());
                }
            },
            None => {
                proof {
                    assert(present(before) =~= present(items@) + Seq::<T>::empty());
                    assert(present(all) =~= present(items@) + back@.reverse());
                }
            },
        }
    }
    proof {
        assert(items@ =~= Seq::<Option<T>>::empty());
        assert(present(all) =~= back@.reverse());
    }
    while back.len() > 0
        invariant
            present(all) == list@ + back@.reverse(),
        decreases back@.len(),
    {
        let ghost before = back@;
        let ghost done = list@;
        let value = back.pop().unwrap();
        list.push(value);
        proof {
            assert(back@ =~= before.drop_last());
            assert(before.reverse() =~= seq![value] + back@.reverse());
            assert(list@ + back@.reverse() =~= done + before.reverse());
        }
    }
    proof {
        assert(back@.reverse() =~= Seq::<T>::empty());
        assert(list@ + Seq::<T>::empty() =~= list@);
    }
    if list.len() == 0 {
        None
    } else {
        Some(list)
    }
}

/// A suggestion cut to the length that the chat client takes.
pub open spec fn shortened(text: Seq<char>) -> Seq<char> {
    text.take(
        if text.len() <= MAX_AUTOCOMPLETE_LEN {
            text.len() as int
        } else {
            MAX_AUTOCOMPLETE_LEN as int
        },
    )
}

/// The suggestions that are shown: the first twenty-five, each cut to a
/// hundred characters.
pub open spec fn truncated(results: Seq<Seq<char>>) -> Seq<Seq<char>> {
    results.take(
        if results.len() <= AUTOCOMPLETE_LIMIT {
            results.len() as int
        } else {
            AUTOCOMPLETE_LIMIT as int
        },
    ).map_values(|t: Seq<char>| shortened(t))
}

pub fn truncate_autocomplete_results(results: Vec<String>) -> (r: Vec<String>)
    ensures
        texts(r@) == truncated(texts(results@)),
{
    let keep = if results.len() <= AUTOCOMPLETE_LIMIT {
        results.len()
    } else {
        AUTOCOMPLETE_LIMIT
    };
    let mut out: Vec<String> = Vec::new();
    let mut i: usize = 0;
    while i < keep
        invariant
            i <= keep <= results@.len(),
            out@.len() == i,
            forall|j: int| 0 <= j < i ==> (#[trigger] out@[j])@ == shortened(results@[j]@),
        decreases keep - i,
    {
        let chars = str_chars(results[i].as_str());
        let len = if chars.len() <= MAX_AUTOCOMPLETE_LEN {
            chars.len()
        } else {
            MAX_AUTOCOMPLETE_LEN
        };
        let short = string_from_chars(&chars, 0, len);
        assert(short@ =~= shortened(results@[i as int]@));
        out.push(short);
        i += 1;
    }
    assert(texts(out@) =~= truncated(texts(results@)));
    out
}

/// The titles under which an entry is suggested: its romaji title, and its
/// English title where that differs. An entry without a romaji title is not
/// suggested.
pub open spec fn titles_of(media: Media) -> Seq<Seq<char>> {
    match media.title {
        Some(t) => match t.romaji {
            Some(r) => match t.english {
                Some(e) => if e@ != r@ {
                    seq![r@, e@]
                } else {
                    seq![r@]
                },
                None => seq![r@],
            },
            None => Seq::empty(),
        },
        None => Seq::empty(),
    }
}

/// The titles of a list of entries, entry by entry.
pub open spec fn media_titles(media: Seq<Media>) -> Seq<Seq<char>>
    decreases media.len(),
{
    if media.len() == 0 {
        Seq::empty()
    } else {
        media_titles(media.drop_last()) + titles_of(media.last())
    }
}

pub fn extract_media_titles(media: &Vec<Media>) -> (r: Vec<String>)
    ensures
        texts(r@) == media_titles(media@),
{
    let mut titles: Vec<String> = Vec::new();
    let mut i: usize = 0;
    proof {
        assert(media@.take(0) =~= Seq::<Media>::empty());
        assert(texts(titles@) =~= Seq::<Seq<char>>::empty());
    }
    while i < media.len()
        invariant
            i <= media@.len(),
            texts(titles@) == media_titles(media@.take(i as int)),
        decreases media@.len() - i,
    {
        let ghost before = texts(titles@);
        proof {
            assert(media@.take(i + 1).drop_last() =~= media@.take(i as int));
        }
        match &media[i].title {
            Some(title) => match &title.romaji {
                Some(romaji) => {
                    titles.push(romaji.clone());
                    assert(texts(titles@) =~= before + seq![romaji@]);
                    match &title.english {
                        Some(english) => {
                            if *english != *romaji {
                                titles.push(english.clone());
                                assert(texts(titles@) =~= before + seq![romaji@, english@]);
                            }
                        },
                        None => {},
                    }
                },
                None => {
                    assert(before + Seq::<Seq<char>>::empty() =~= before);
                },
            },
            None => {
                assert(before + Seq::<Seq<char>>::empty() =~= before);
            },
        }
        i += 1;
    }
    assert(media@.take(i as int) =~= media@);
    titles
}

/// The full name of a character, where it has one.
pub open spec fn character_name(character: Character) -> Option<Seq<char>> {
    match character.name {
        Some(n) => match n.full {
            Some(f) => Some(f@),
            None => None,
        },
        None => None,
    }
}

/// The names under which characters are suggested: their full names.
pub fn extract_character_names(characters: &Vec<Character>) -> (r: Vec<String>)
    ensures
        texts(r@) == filter_map(characters@, |c: Character| character_name(c)),
{
    let mut names: Vec<String> = Vec::new();
    let mut i: usize = 0;
    proof {
        assert(characters@.take(0) =~= Seq::<Character>::empty());
        assert(texts(names@) =~= Seq::<Seq<char>>::empty());
    }
    while i < characters.len()
        invariant
            i <= characters@.len(),
            texts(names@) == filter_map(
                characters@.take(i as int),
                |c: Character| character_name(c),
            ),
        decreases characters@.len() - i,
    {
        let ghost before = texts(names@);
        let ghost f = |c: Character| character_name(c);
        let full = match &characters[i].name {
            Some(n) => match &n.full {
                Some(f) => Some(f.clone()),
                None => None,
            },
            None => None,
        };
        match full {
            Some(name) => {
                proof {
                    lemma_filter_map_some(characters@, f, i as int, name@);
                }
                names.push(name);
                assert(texts(names@) =~= before.push(name@));
            },
            None => {
                proof {
                    lemma_filter_map_none(characters@, f, i as int);
                }
            },
        }
        i += 1;
    }
    assert(characters@.take(i as int) =~= characters@);
    names
}

/// The full name of a member of staff, where they have one.
pub open spec fn staff_name(staff: Staff) -> Option<Seq<char>> {
    match staff.name {
        Some(n) => match n.full {
            Some(f) => Some(f@),
            None => None,
        },
        None => None,
    }
}

/// The names under which staff are suggested: their full names.
pub fn extract_staff_names(staff: &Vec<Staff>) -> (r: Vec<String>)
    ensures
        texts(r@) == filter_map(staff@, |s: Staff| staff_name(s)),
{
    let mut names: Vec<String> = Vec::new();
    let mut i: usize = 0;
    proof {
        assert(staff@.take(0) =~= Seq::<Staff>::empty());
        assert(texts(names@) =~= Seq::<Seq<char>>::empty());
    }
    while i < staff.len()
        invariant
            i <= staff@.len(),
            texts(names@) == filter_map(staff@.take(i as int), |s: Staff| staff_name(s)),
        decreases staff@.len() - i,
    {
        let ghost before = texts(names@);
        let ghost f = |s: Staff| staff_name(s);
        let full = match &staff[i].name {
            Some(n) => match &n.full {
                Some(f) => Some(f.clone()),
                None => None,
            },
            None => None,
        };
        match full {
            Some(name) => {
                proof {
                    lemma_filter_map_some(staff@, f, i as int, name@);
                }
                names.push(name);
                assert(texts(names@) =~= before.push(name@));
            },
            None => {
                proof {
                    lemma_filter_map_none(staff@, f, i as int);
                }
            },
        }
        i += 1;
    }
    assert(staff@.take(i as int) =~= staff@);
    names
}

/// The names under which studios are suggested: their names, all of them.
pub fn extract_studio_names(studios: &Vec<Studio>) -> (r: Vec<String>)
    ensures
        texts(r@) == studios@.map_values(|s: Studio| s.name@),
{
    let mut names: Vec<String> = Vec::new();
    let mut i: usize = 0;
    while i < studios.len()
        invariant
            i <= studios@.len(),
            names@.len() == i,
            forall|j: int| 0 <= j < i ==> (#[trigger] names@[j])@ == studios@[j].name@,
        decreases studios@.len() - i,
    {
        names.push(studios[i].name.clone());
        i += 1;
    }
    assert(texts(names@) =~= studios@.map_values(|s: Studio| s.name@));
    names
}

/// A genre as it is suggested, where it is: every genre but the one that
/// is never suggested.
pub open spec fn offered_genre(genre: Option<String>) -> Option<Seq<char>> {
    match genre {
        Some(g) => if g@ == FILTERED_GENRE@ {
            None
        } else {
            Some(g@)
        },
        None => None,
    }
}

/// The genres of the catalog that are suggested.
pub fn filter_genres(genres: &Vec<Option<String>>) -> (r: Vec<String>)
    ensures
        texts(r@) == filter_map(genres@, |g: Option<String>| offered_genre(g)),
{
    let filtered = String::from_str(FILTERED_GENRE);
    let mut out: Vec<String> = Vec::new();
    let mut i: usize = 0;
    proof {
        assert(genres@.take(0) =~= Seq::<Option<String>>::empty());
        assert(texts(out@) =~= Seq::<Seq<char>>::empty());
    }
    while i < genres.len()
        invariant
            i <= genres@.len(),
            filtered@ == FILTERED_GENRE@,
            texts(out@) == filter_map(
                genres@.take(i as int),
                |g: Option<String>| offered_genre(g),
            ),
        decreases genres@.len() - i,
    {
        let ghost before = texts(out@);
        let ghost f = |g: Option<String>| offered_genre(g);
        let kept = match &genres[i] {
            Some(g) => if *g == filtered {
                None
            } else {
                Some(g.clone())
            },
            None => None,
        };
        match kept {
            Some(g) => {
                proof {
                    lemma_filter_map_some(genres@, f, i as int, g@);
                }
                out.push(g);
                assert(texts(out@) =~= before.push(g@));
            },
            None => {
                proof {
                    lemma_filter_map_none(genres@, f, i as int);
                }
            },
        }
        i += 1;
    }
    assert(genres@.take(i as int) =~= genres@);
    out
}

/// A tag of the catalog.
pub struct MediaTag {
    pub name: String,
    pub is_adult: Option<bool>,
}

/// A tag as it is suggested, where it is: tags for adults are not.
pub open spec fn offered_tag(tag: Option<MediaTag>) -> Option<Seq<char>> {
    match tag {
        Some(t) => if t.is_adult == Some(true) {
            None
        } else {
            Some(t.name@)
        },
        None => None,
    }
}

/// The tags of the catalog that are suggested.
pub fn filter_tags(tags: &Vec<Option<MediaTag>>) -> (r: Vec<String>)
    ensures
        texts(r@) == filter_map(tags@, |t: Option<MediaTag>| offered_tag(t)),
{
    let mut out: Vec<String> = Vec::new();
    let mut i: usize = 0;
    proof {
        assert(tags@.take(0) =~= Seq::<Option<MediaTag>>::empty());
        assert(texts(out@) =~= Seq::<Seq<char>>::empty());
    }
    while i < tags.len()
        invariant
            i <= tags@.len(),
            texts(out@) == filter_map(tags@.take(i as int), |t: Option<MediaTag>| offered_tag(t)),
        decreases tags@.len() - i,
    {
        let ghost before = texts(out@);
        let ghost f = |t: Option<MediaTag>| offered_tag(t);
        let kept = match &tags[i] {
            Some(t) => match t.is_adult {
                Some(true) => None,
                _ => Some(t.name.clone()),
            },
            None => None,
        };
        match kept {
            Some(name) => {
                proof {
                    lemma_filter_map_some(tags@, f, i as int, name@);
                }
                out.push(name);
                assert(texts(out@) =~= before.push(name@));
            },
            None => {
                proof {
                    lemma_filter_map_none(tags@, f, i as int);
                }
            },
        }
        i += 1;
    }
    assert(tags@.take(i as int) =~= tags@);
    out
}

/// What one attempt at a random entry asks the catalog for.
#[derive(Clone, Copy, Debug, PartialEq, Eq, Structural)]
pub struct RandomRequest {
    pub page: i64,
    pub per_page: i64,
}

/// The request of attempt `attempt` (counted from zero) for the first page
/// `first_page`: the page itself, then a third of it, then the fifty most
/// popular entries.
pub open spec fn random_request_spec(attempt: u8, first_page: i64) -> RandomRequest {
    if attempt == 0 {
        RandomRequest { page: first_page, per_page: 1 }
    } else if attempt == 1 {
        RandomRequest { page: (first_page / 3) as i64, per_page: 1 }
    } else {
        RandomRequest { page: 1, per_page: RANDOM_LAST_LIMIT }
    }
}

pub fn random_request(attempt: u8, first_page: i64) -> (r: RandomRequest)
    requires
        first_page >= 0,
    ensures
        r == random_request_spec(attempt, first_page),
{
    if attempt == 0 {
        RandomRequest { page: first_page, per_page: 1 }
    } else if attempt == 1 {
        RandomRequest { page: first_page / 3, per_page: 1 }
    } else {
        RandomRequest { page: 1, per_page: RANDOM_LAST_LIMIT }
    }
}

/// Which entry of an answer with `len` entries is taken: the first one in
/// the first two attempts, and the one at `drawn` in the last.
pub fn random_pick(attempt: u8, len: usize, drawn: usize) -> (r: Option<usize>)
    ensures
        r == if len == 0 {
            None
        } else if attempt < 2 {
            Some(0usize)
        } else if drawn < len {
            Some(drawn)
        } else {
            None
        },
{
    if len == 0 {
        None
    } else if attempt < 2 {
        Some(0)
    } else if drawn < len {
        Some(drawn)
    } else {
        None
    }
}

/// Draws a number between `low` and `high`, both included. Trusted:
/// `Rng::random_range` of the `rand` crate on the thread's generator, which
/// gives a number of the range and panics on an empty range; which number
/// is left open.
#[verifier::external_body]
fn draw_between(low: i64, high: i64) -> (drawn: i64)
    requires
        low <= high,
    ensures
        low <= drawn <= high,
{
    rand::Rng::random_range(&mut rand::rng(), low..=high)
}

/// Draws a position in a list of `len` items. Trusted: `Rng::random_range`
/// of the `rand` crate on the thread's generator, which gives a number of
/// the range `0..len` and panics on an empty range; which number is left
/// open.
#[verifier::external_body]
fn draw_index(len: usize) -> (index: usize)
    requires
        len > 0,
    ensures
        index < len,
{
    rand::Rng::random_range(&mut rand::rng(), 0..len)
}

/// The request of attempt `attempt` at a random entry. The first attempt
/// draws the first page; the later ones are told it.
pub fn next_random_request(attempt: u8, first_page: Option<i64>) -> (r: (i64, RandomRequest))
    requires
        first_page matches Some(p) ==> p >= 0,
    ensures
        r.1 == random_request_spec(attempt, r.0),
        first_page matches Some(p) ==> r.0 == p,
        first_page is None ==> 1 <= r.0 <= RANDOM_PAGES,
{
    let page = match first_page {
        Some(p) => p,
        None => draw_between(1, RANDOM_PAGES),
    };
    (page, random_request(attempt, page))
}

/// The position of the entry that is taken from an answer with `len`
/// entries: none from an empty answer, the first in the first two attempts,
/// and a drawn one in the last.
pub fn pick_random(attempt: u8, len: usize) -> (r: Option<usize>)
    ensures
        len == 0 ==> r is None,
        len > 0 ==> (r matches Some(i) && i < len),
        len > 0 && attempt < 2 ==> r == Some(0usize),
{
    if len == 0 {
        None
    } else {
        random_pick(attempt, len, draw_index(len))
    }
}

/// What a suggestion request does after it has looked into the cache: with
/// cached suggestions, it shows them; without, it asks the catalog.
pub fn suggestions_from_cache(cached: Vec<String>) -> (r: Option<Vec<String>>)
    ensures
        match r {
            Some(list) => cached@.len() > 0 && texts(list@) == truncated(texts(cached@)),
            None => cached@.len() == 0,
        },
{
    if cached.len() > 0 {
        Some(truncate_autocomplete_results(cached))
    } else {
        None
    }
}

} // verus!
