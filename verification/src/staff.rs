//! How a catalog entry for a member of staff is worded.
use crate::anime::Media;
use crate::character::{synonym_text, Character, PersonName};
use crate::text::{filter_map, lemma_filter_map_none, lemma_filter_map_some, texts};
use vstd::prelude::*;
use vstd::string::StringExecFns;

verus! {

/// What the library reads of a member of staff.
pub struct Staff {
    pub id: i64,
    pub name: Option<PersonName>,
    pub staff_media: Option<Vec<Option<Media>>>,
    pub characters: Option<Vec<Option<Character>>>,
}

/// The synonym line of a member of staff: the other names, each between
/// backticks. Without a name, without a list of other names or with an empty
/// one, there is no such line.
pub fn extract_synonyms(data: &Staff) -> (r: Option<Vec<String>>)
    ensures
        match data.name {
            Some(name) => match name.alternative {
                Some(alt) => {
                    let all = filter_map(alt@, |n: Option<String>| synonym_text(n));
                    match r {
                        Some(list) => texts(list@) == all && all.len() > 0,
                        None => all.len() == 0,
                    }
                },
                None => r is None,
            },
            None => r is None,
        },
{
    let name = match &data.name {
        Some(n) => n,
        None => {
            return None;
        },
    };
    let alt = match &name.alternative {
        Some(a) => a,
        None => {
            return None;
        },
    };
    let mut synonyms: Vec<String> = Vec::new();
    let mut i: usize = 0;
    proof {
        assert(alt@.take(0) =~= Seq::<Option<String>>::empty());
        assert(texts(synonyms@) =~= Seq::<Seq<char>>::empty());
    }
    while i < alt.len()
        invariant
            i <= alt@.len(),
            texts(synonyms@) == filter_map(
                alt@.take(i as int),
                |n: Option<String>| synonym_text(n),
            ),
        decreases alt@.len() - i,
    {
        let ghost before = texts(synonyms@);
        let ghost f = |n: Option<String>| synonym_text(n);
        match &alt[i] {
            Some(n) => {
                let mut text = String::from_str("`");
                text.append(n.as_str());
                text.append("`");
                proof {
                    lemma_filter_map_some(alt@, f, i as int, text@);
                }
                synonyms.push(text);
                assert(texts(synonyms@) =~= before.push(text@));
            },
            None => {
                proof {
                    lemma_filter_map_none(alt@, f, i as int);
                }
            },
        }
        i += 1;
    }
    assert(alt@.take(i as int) =~= alt@);
    if synonyms.len() == 0 {
        None
    } else {
        Some(synonyms)
    }
}

/// The title under which a work is listed among a person's roles: its
/// romaji title. Works for adults, and those without such a title, are not
/// listed.
pub open spec fn staff_role_text(media: Option<Media>) -> Option<Seq<char>> {
    match media {
        Some(m) => if m.is_adult == Some(true) {
            None
        } else {
            match m.title {
                Some(t) => match t.romaji {
                    Some(r) => Some(r@),
                    None => None,
                },
                None => None,
            }
        },
        None => None,
    }
}

/// The works a member of staff took part in, by title. Without one there is
/// no such line.
pub fn extract_staff_roles(data: &Staff) -> (r: Option<Vec<String>>)
    ensures
        match data.staff_media {
            Some(nodes) => {
                let all = filter_map(nodes@, |m: Option<Media>| staff_role_text(m));
                match r {
                    Some(list) => texts(list@) == all && all.len() > 0,
                    None => all.len() == 0,
                }
            },
            None => r is None,
        },
{
    let nodes = match &data.staff_media {
        Some(n) => n,
        None => {
            return None;
        },
    };
    let mut roles: Vec<String> = Vec::new();
    let mut i: usize = 0;
    proof {
        assert(nodes@.take(0) =~= Seq::<Option<Media>>::empty());
        assert(texts(roles@) =~= Seq::<Seq<char>>::empty());
    }
    while i < nodes.len()
        invariant
            i <= nodes@.len(),
            texts(roles@) == filter_map(
                nodes@.take(i as int),
                |m: Option<Media>| staff_role_text(m),
            ),
        decreases nodes@.len() - i,
    {
        let ghost before = texts(roles@);
        let ghost f = |m: Option<Media>| staff_role_text(m);
        match staff_role(&nodes[i]) {
            Some(t) => {
                proof {
                    lemma_filter_map_some(nodes@, f, i as int, t@);
                }
                roles.push(t);
                assert(texts(roles@) =~= before.push(t@));
            },
            None => {
                proof {
                    lemma_filter_map_none(nodes@, f, i as int);
                }
            },
        }
        i += 1;
    }
    assert(nodes@.take(i as int) =~= nodes@);
    if roles.len() == 0 {
        None
    } else {
        Some(roles)
    }
}

fn staff_role(media: &Option<Media>) -> (r: Option<String>)
    ensures
        crate::format::option_text(r) == staff_role_text(*media),
{
    let m = match media {
        Some(m) => m,
        None => {
            return None;
        },
    };
    match m.is_adult {
        Some(true) => {
            return None;
        },
        _ => {},
    }
    match &m.title {
        Some(t) => match &t.romaji {
            Some(r) => Some(r.clone()),
            None => None,
        },
        None => None,
    }
}

/// The name under which a character is listed among a person's roles: its
/// full name, where it has one.
pub open spec fn character_role_text(character: Option<Character>) -> Option<Seq<char>> {
    match character {
        Some(c) => match c.name {
            Some(n) => match n.full {
                Some(f) => Some(f@),
                None => None,
            },
            None => None,
        },
        None => None,
    }
}

/// The characters a member of staff gave a voice to, by full name. Without
/// one there is no such line.
pub fn extract_character_roles(data: &Staff) -> (r: Option<Vec<String>>)
    ensures
        match data.characters {
            Some(nodes) => {
                let all = filter_map(nodes@, |c: Option<Character>| character_role_text(c));
                match r {
                    Some(list) => texts(list@) == all && all.len() > 0,
                    None => all.len() == 0,
                }
            },
            None => r is None,
        },
{
    let nodes = match &data.characters {
        Some(n) => n,
        None => {
            return None;
        },
    };
    let mut roles: Vec<String> = Vec::new();
    let mut i: usize = 0;
    proof {
        assert(nodes@.take(0) =~= Seq::<Option<Character>>::empty());
        assert(texts(roles@) =~= Seq::<Seq<char>>::empty());
    }
    while i < nodes.len()
        invariant
            i <= nodes@.len(),
            texts(roles@) == filter_map(
                nodes@.take(i as int),
                |c: Option<Character>| character_role_text(c),
            ),
        decreases nodes@.len() - i,
    {
        let ghost before = texts(roles@);
        let ghost f = |c: Option<Character>| character_role_text(c);
        match character_role(&nodes[i]) {
            Some(t) => {
                proof {
                    lemma_filter_map_some(nodes@, f, i as int, t@);
                }
                roles.push(t);
                assert(texts(roles@) =~= before.push(t@));
            },
            None => {
                proof {
                    lemma_filter_map_none(nodes@, f, i as int);
                }
            },
        }
        i += 1;
    }
    assert(nodes@.take(i as int) =~= nodes@);
    if roles.len() == 0 {
        None
    } else {
        Some(roles)
    }
}

fn character_role(character: &Option<Character>) -> (r: Option<String>)
    ensures
        crate::format::option_text(r) == character_role_text(*character),
{
    match character {
        Some(c) => match &c.name {
            Some(n) => match &n.full {
                Some(f) => Some(f.clone()),
                None => None,
            },
            None => None,
        },
        None => None,
    }
}

} // verus!
