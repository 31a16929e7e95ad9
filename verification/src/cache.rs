//! The autocomplete cache: one prefix tree per category of suggestions.
//! The categories share nothing, so that each can be kept behind a lock of
//! its own. The cache only grows: what a category holds stays in it. Genres
//! and tags are unknown until they have been loaded once.
use crate::text::texts;
use crate::trie::{is_selection, matching, Trie};
use vstd::prelude::*;

verus! {

/// How many suggestions a search gives at most.
pub const AUTOCOMPLETE_LIMIT: usize = 25;

/// The categories of suggestions.
#[derive(Clone, Copy, Debug, PartialEq, Eq, Structural)]
pub enum Category {
    AnimeTitles,
    MangaTitles,
    CharacterNames,
    StaffNames,
    StudioNames,
    Genres,
    Tags,
}

pub struct AniListAutocompleteCache {
    anime_titles: Trie,
    manga_titles: Trie,
    character_names: Trie,
    staff_names: Trie,
    studio_names: Trie,
    genres: Option<Trie>,
    tags: Option<Trie>,
}

/// What each category holds.
pub struct CacheView {
    pub anime_titles: Set<Seq<char>>,
    pub manga_titles: Set<Seq<char>>,
    pub character_names: Set<Seq<char>>,
    pub staff_names: Set<Seq<char>>,
    pub studio_names: Set<Seq<char>>,
    pub genres: Option<Set<Seq<char>>>,
    pub tags: Option<Set<Seq<char>>>,
}

/// The set of words in a list.
pub open spec fn word_set(words: Seq<String>) -> Set<Seq<char>> {
    texts(words).to_set()
}

/// What a category that may be unknown holds after `words` were added to
/// it: what it held, if it was known, and the words.
pub open spec fn grown(held: Option<Set<Seq<char>>>, words: Set<Seq<char>>) -> Set<Seq<char>> {
    match held {
        Some(h) => h.union(words),
        None => words,
    }
}

/// What a search of a category that may be unknown gives.
pub open spec fn is_optional_selection(
    result: Option<Vec<String>>,
    from: Option<Set<Seq<char>>>,
    prefix: Seq<char>,
) -> bool {
    match from {
        Some(words) => result matches Some(list) && is_selection(
            texts(list@),
            matching(words, prefix),
            AUTOCOMPLETE_LIMIT as nat,
        ),
        None => result is None,
    }
}

/// What a category that may be unknown holds.
pub open spec fn optional_words(trie: Option<Trie>) -> Option<Set<Seq<char>>> {
    match trie {
        Some(t) => Some(t@),
        None => None,
    }
}

/// What a search of a category that may be unknown returns, in the order
/// in which it returns it.
pub open spec fn optional_found(trie: Option<Trie>, prefix: Seq<char>) -> Option<Seq<Seq<char>>> {
    match trie {
        Some(t) => Some(t.found(prefix, AUTOCOMPLETE_LIMIT as nat)),
        None => None,
    }
}

/// The character sequences of a list of strings that may be missing.
pub open spec fn option_texts(list: Option<Vec<String>>) -> Option<Seq<Seq<char>>> {
    match list {
        Some(l) => Some(texts(l@)),
        None => None,
    }
}

impl View for AniListAutocompleteCache {
    type V = CacheView;

    closed spec fn view(&self) -> CacheView {
        CacheView {
            anime_titles: self.anime_titles@,
            manga_titles: self.manga_titles@,
            character_names: self.character_names@,
            staff_names: self.staff_names@,
            studio_names: self.studio_names@,
            genres: optional_words(self.genres),
            tags: optional_words(self.tags),
        }
    }
}

/// Searches a category that may be unknown: `None` while it is unknown.
pub fn search_option(trie: &Option<Trie>, word: &str) -> (r: Option<Vec<String>>)
    requires
        *trie matches Some(t) ==> t.wf(),
    ensures
        is_optional_selection(r, optional_words(*trie), word@),
        option_texts(r) == optional_found(*trie, word@),
{
    match trie {
        Some(t) => Some(t.search(word, AUTOCOMPLETE_LIMIT)),
        None => None,
    }
}

/// Adds `words` to a category that may be unknown. The category is known
/// afterwards, and holds what it held before as well.
pub fn insert_option(slot: &mut Option<Trie>, words: &Vec<String>)
    requires
        *old(slot) matches Some(t) ==> t.wf(),
    ensures
        *final(slot) matches Some(t) && t.wf() && t@ == grown(
            optional_words(*old(slot)),
            word_set(words@),
        ),
{
    let mut trie = match slot.take() {
        Some(t) => t,
        None => Trie::new(),
    };
    trie.insert_all(words);
    proof {
        if *old(slot) is None {
            assert(trie@ =~= word_set(words@));
        }
    }
    *slot = Some(trie);
}

impl AniListAutocompleteCache {
    /// Every tree of the cache is well formed.
    pub closed spec fn wf(&self) -> bool {
        &&& self.anime_titles.wf()
        &&& self.manga_titles.wf()
        &&& self.character_names.wf()
        &&& self.staff_names.wf()
        &&& self.studio_names.wf()
        &&& (self.genres matches Some(t) ==> t.wf())
        &&& (self.tags matches Some(t) ==> t.wf())
    }

    /// What a search of `category` for `prefix` returns, in the order in
    /// which it returns it: the same for every search of the same cache.
    /// `None` stands for a category that is unknown.
    pub closed spec fn found(&self, category: Category, prefix: Seq<char>) -> Option<
        Seq<Seq<char>>,
    > {
        match category {
            Category::AnimeTitles => optional_found(Some(self.anime_titles), prefix),
            Category::MangaTitles => optional_found(Some(self.manga_titles), prefix),
            Category::CharacterNames => optional_found(Some(self.character_names), prefix),
            Category::StaffNames => optional_found(Some(self.staff_names), prefix),
            Category::StudioNames => optional_found(Some(self.studio_names), prefix),
            Category::Genres => optional_found(self.genres, prefix),
            Category::Tags => optional_found(self.tags, prefix),
        }
    }

    /// A cache that holds nothing and knows neither genres nor tags.
    pub fn new() -> (cache: Self)
        ensures
            cache.wf(),
            cache@ == (CacheView {
                anime_titles: Set::empty(),
                manga_titles: Set::empty(),
                character_names: Set::empty(),
                staff_names: Set::empty(),
                studio_names: Set::empty(),
                genres: None,
                tags: None,
            }),
    {
        AniListAutocompleteCache {
            anime_titles: Trie::new(),
            manga_titles: Trie::new(),
            character_names: Trie::new(),
            staff_names: Trie::new(),
            studio_names: Trie::new(),
            genres: None,
            tags: None,
        }
    }

    pub fn search_anime_titles(&self, title: &str) -> (r: Vec<String>)
        requires
            self.wf(),
        ensures
            is_selection(
                texts(r@),
                matching(self@.anime_titles, title@),
                AUTOCOMPLETE_LIMIT as nat,
            ),
            Some(texts(r@)) == self.found(Category::AnimeTitles, title@),
    {
        self.anime_titles.search(title, AUTOCOMPLETE_LIMIT)
    }

    pub fn search_manga_titles(&self, title: &str) -> (r: Vec<String>)
        requires
            self.wf(),
        ensures
            is_selection(
                texts(r@),
                matching(self@.manga_titles, title@),
                AUTOCOMPLETE_LIMIT as nat,
            ),
            Some(texts(r@)) == self.found(Category::MangaTitles, title@),
    {
        self.manga_titles.search(title, AUTOCOMPLETE_LIMIT)
    }

    pub fn search_character_names(&self, name: &str) -> (r: Vec<String>)
        requires
            self.wf(),
        ensures
            is_selection(
                texts(r@),
                matching(self@.character_names, name@),
                AUTOCOMPLETE_LIMIT as nat,
            ),
            Some(texts(r@)) == self.found(Category::CharacterNames, name@),
    {
        self.character_names.search(name, AUTOCOMPLETE_LIMIT)
    }

    pub fn search_staff_names(&self, name: &str) -> (r: Vec<String>)
        requires
            self.wf(),
        ensures
            is_selection(
                texts(r@),
                matching(self@.staff_names, name@),
                AUTOCOMPLETE_LIMIT as nat,
            ),
            Some(texts(r@)) == self.found(Category::StaffNames, name@),
    {
        self.staff_names.search(name, AUTOCOMPLETE_LIMIT)
    }

    pub fn search_studio_names(&self, name: &str) -> (r: Vec<String>)
        requires
            self.wf(),
        ensures
            is_selection(
                texts(r@),
                matching(self@.studio_names, name@),
                AUTOCOMPLETE_LIMIT as nat,
            ),
            Some(texts(r@)) == self.found(Category::StudioNames, name@),
    {
        self.studio_names.search(name, AUTOCOMPLETE_LIMIT)
    }

    pub fn insert_anime_titles(&mut self, titles: Vec<String>)
        requires
            old(self).wf(),
        ensures
            final(self).wf(),
            final(self)@ == (CacheView {
                anime_titles: old(self)@.anime_titles.union(word_set(titles@)),
                ..old(self)@
            }),
    {
        self.anime_titles.insert_all(&titles);
    }

    pub fn insert_manga_titles(&mut self, titles: Vec<String>)
        requires
            old(self).wf(),
        ensures
            final(self).wf(),
            final(self)@ == (CacheView {
                manga_titles: old(self)@.manga_titles.union(word_set(titles@)),
                ..old(self)@
            }),
    {
        self.manga_titles.insert_all(&titles);
    }

    pub fn insert_character_names(&mut self, names: Vec<String>)
        requires
            old(self).wf(),
        ensures
            final(self).wf(),
            final(self)@ == (CacheView {
                character_names: old(self)@.character_names.union(word_set(names@)),
                ..old(self)@
            }),
    {
        self.character_names.insert_all(&names);
    }

    pub fn insert_staff_names(&mut self, names: Vec<String>)
        requires
            old(self).wf(),
        ensures
            final(self).wf(),
            final(self)@ == (CacheView {
                staff_names: old(self)@.staff_names.union(word_set(names@)),
                ..old(self)@
            }),
    {
        self.staff_names.insert_all(&names);
    }

    pub fn insert_studio_names(&mut self, names: Vec<String>)
        requires
            old(self).wf(),
        ensures
            final(self).wf(),
            final(self)@ == (CacheView {
                studio_names: old(self)@.studio_names.union(word_set(names@)),
                ..old(self)@
            }),
    {
        self.studio_names.insert_all(&names);
    }

    /// The genres that begin with `genre`, or `None` while the genres are
    /// unknown.
    pub fn search_genres(&self, genre: &str) -> (r: Option<Vec<String>>)
        requires
            self.wf(),
        ensures
            is_optional_selection(r, self@.genres, genre@),
            option_texts(r) == self.found(Category::Genres, genre@),
    {
        search_option(&self.genres, genre)
    }

    /// The tags that begin with `tag`, or `None` while the tags are unknown.
    pub fn search_tags(&self, tag: &str) -> (r: Option<Vec<String>>)
        requires
            self.wf(),
        ensures
            is_optional_selection(r, self@.tags, tag@),
            option_texts(r) == self.found(Category::Tags, tag@),
    {
        search_option(&self.tags, tag)
    }

    /// Adds `genres` to the genres that are known.
    pub fn insert_genres(&mut self, genres: Vec<String>)
        requires
            old(self).wf(),
        ensures
            final(self).wf(),
            final(self)@ == (CacheView {
                genres: Some(grown(old(self)@.genres, word_set(genres@))),
                ..old(self)@
            }),
    {
        insert_option(&mut self.genres, &genres);
    }

    /// Adds `tags` to the tags that are known.
    pub fn insert_tags(&mut self, tags: Vec<String>)
        requires
            old(self).wf(),
        ensures
            final(self).wf(),
            final(self)@ == (CacheView {
                tags: Some(grown(old(self)@.tags, word_set(tags@))),
                ..old(self)@
            }),
    {
        insert_option(&mut self.tags, &tags);
    }
}

/// The cache is additive: what a category that may be unknown held before
/// words were added, it holds afterwards.
pub proof fn lemma_grown_keeps(held: Set<Seq<char>>, words: Set<Seq<char>>, word: Seq<char>)
    requires
        held.contains(word),
    ensures
        grown(Some(held), words).contains(word),
        forall|w: Seq<char>| words.contains(w) ==> grown(Some(held), words).contains(w),
{
}

} // verus!
