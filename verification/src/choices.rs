//! The choices that a command offers, and the catalog terms they stand for.
use vstd::prelude::*;
use vstd::string::StringExecFns;

verus! {

/// The kind of a catalog entry.
#[allow(non_camel_case_types)]
#[derive(Clone, Copy, Debug, PartialEq, Eq, Structural)]
pub enum MediaType {
    ANIME,
    MANGA,
}

/// The season in which a show airs.
#[allow(non_camel_case_types)]
#[derive(Clone, Copy, Debug, PartialEq, Eq, Structural)]
pub enum MediaSeason {
    WINTER,
    SPRING,
    SUMMER,
    FALL,
}

/// An order in which the catalog lists its entries.
#[allow(non_camel_case_types)]
#[derive(Clone, Copy, Debug, PartialEq, Eq, Structural)]
pub enum MediaSort {
    POPULARITY_DESC,
    SCORE_DESC,
    START_DATE,
    TITLE_ROMAJI,
    TRENDING_DESC,
}

#[derive(Clone, Copy, Debug, PartialEq, Eq, Structural)]
pub enum MediaChoice {
    Anime,
    Manga,
}

impl MediaChoice {
    /// The name of the choice as it is shown.
    pub fn to_string(&self) -> (r: String)
        ensures
            r@ == match *self {
                MediaChoice::Anime => "Anime"@,
                MediaChoice::Manga => "Manga"@,
            },
    {
        match self {
            MediaChoice::Anime => String::from_str("Anime"),
            MediaChoice::Manga => String::from_str("Manga"),
        }
    }
}

impl From<MediaChoice> for MediaType {
    fn from(value: MediaChoice) -> (r: MediaType) {
        match value {
            MediaChoice::Anime => MediaType::ANIME,
            MediaChoice::Manga => MediaType::MANGA,
        }
    }
}

impl vstd::std_specs::convert::FromSpecImpl<MediaChoice> for MediaType {
    open spec fn obeys_from_spec() -> bool {
        true
    }

    open spec fn from_spec(value: MediaChoice) -> MediaType {
        match value {
            MediaChoice::Anime => MediaType::ANIME,
            MediaChoice::Manga => MediaType::MANGA,
        }
    }
}

#[derive(Clone, Copy, Debug, PartialEq, Eq, Structural)]
pub enum SeasonChoice {
    Winter,
    Spring,
    Summer,
    Fall,
}

impl From<SeasonChoice> for MediaSeason {
    fn from(value: SeasonChoice) -> (r: MediaSeason) {
        match value {
            SeasonChoice::Winter => MediaSeason::WINTER,
            SeasonChoice::Spring => MediaSeason::SPRING,
            SeasonChoice::Summer => MediaSeason::SUMMER,
            SeasonChoice::Fall => MediaSeason::FALL,
        }
    }
}

impl vstd::std_specs::convert::FromSpecImpl<SeasonChoice> for MediaSeason {
    open spec fn obeys_from_spec() -> bool {
        true
    }

    open spec fn from_spec(value: SeasonChoice) -> MediaSeason {
        match value {
            SeasonChoice::Winter => MediaSeason::WINTER,
            SeasonChoice::Spring => MediaSeason::SPRING,
            SeasonChoice::Summer => MediaSeason::SUMMER,
            SeasonChoice::Fall => MediaSeason::FALL,
        }
    }
}

#[derive(Clone, Copy, Debug, PartialEq, Eq, Structural)]
pub enum SortChoice {
    Popularity,
    Score,
    StartDate,
    Title,
}

impl SortChoice {
    /// The name of the choice as it is shown.
    pub fn name(&self) -> (r: &'static str)
        ensures
            r@ == match *self {
                SortChoice::Popularity => "Popularity"@,
                SortChoice::Score => "Score"@,
                SortChoice::StartDate => "Start Date"@,
                SortChoice::Title => "Title"@,
            },
    {
        match self {
            SortChoice::Popularity => "Popularity",
            SortChoice::Score => "Score",
            SortChoice::StartDate => "Start Date",
            SortChoice::Title => "Title",
        }
    }
}

impl From<SortChoice> for MediaSort {
    fn from(value: SortChoice) -> (r: MediaSort) {
        match value {
            SortChoice::Popularity => MediaSort::POPULARITY_DESC,
            SortChoice::Score => MediaSort::SCORE_DESC,
            SortChoice::StartDate => MediaSort::START_DATE,
            SortChoice::Title => MediaSort::TITLE_ROMAJI,
        }
    }
}

impl vstd::std_specs::convert::FromSpecImpl<SortChoice> for MediaSort {
    open spec fn obeys_from_spec() -> bool {
        true
    }

    open spec fn from_spec(value: SortChoice) -> MediaSort {
        match value {
            SortChoice::Popularity => MediaSort::POPULARITY_DESC,
            SortChoice::Score => MediaSort::SCORE_DESC,
            SortChoice::StartDate => MediaSort::START_DATE,
            SortChoice::Title => MediaSort::TITLE_ROMAJI,
        }
    }
}

} // verus!
