use anisearch::choices::{MediaChoice, MediaSeason, MediaSort, MediaType, SeasonChoice, SortChoice};
use anisearch::events::ExecutionStatus;
use anisearch::format::{
    classify_date, count_occurrences, format_date, format_opt, replace_chars,
    sanitize_cleaned, sanitize_description, text_or_unknown, DateShape, UNKNOWN_EMBED_FIELD,
};
use anisearch::text::{
    decimal_string, lowercase_chars, parse_usize, signed_decimal_string, str_chars,
    string_from_chars, to_lower,
};
use anisearch::urls::{
    anilist_anime_url, anilist_character_url, anilist_manga_url, anilist_media_url,
    anilist_staff_url, anilist_studio_url, anilist_url, myanimelist_anime_url,
    myanimelist_manga_url, myanimelist_media_url, myanimelist_url,
};
use anisearch::version;

fn chars(s: &str) -> Vec<char> {
    s.chars().collect()
}

fn replaced(s: &str, from: &str, to: &str) -> String {
    replace_chars(&chars(s), &chars(from), &chars(to)).into_iter().collect()
}

#[test]
fn decimal_numerals() {
    assert_eq!(decimal_string(0), "0");
    assert_eq!(decimal_string(7), "7");
    assert_eq!(decimal_string(10), "10");
    assert_eq!(decimal_string(1234567890), "1234567890");
    assert_eq!(decimal_string(u64::MAX), "18446744073709551615");
    assert_eq!(signed_decimal_string(0), "0");
    assert_eq!(signed_decimal_string(-1), "-1");
    assert_eq!(signed_decimal_string(2024), "2024");
    assert_eq!(signed_decimal_string(i64::MIN), "-9223372036854775808");
    assert_eq!(signed_decimal_string(i64::MAX), "9223372036854775807");
}

#[test]
fn parse_usize_agrees_with_std() {
    for text in [
        "0", "1", "+1", "007", "42", "", "+", "-", "-1", "+-1", "1 ", " 1", "1_000", "1a", "a",
        "٣", "18446744073709551615", "18446744073709551616", "99999999999999999999999",
    ] {
        assert_eq!(parse_usize(text), text.parse::<usize>().ok(), "{text:?}");
    }
}

#[test]
fn numerals_round_trip() {
    for n in [0u64, 1, 9, 10, 99, 100, 65535, 4294967295] {
        assert_eq!(parse_usize(&decimal_string(n)), Some(n as usize));
    }
}

#[test]
fn lower_case_of_ascii_letters() {
    assert_eq!(to_lower('A'), 'a');
    assert_eq!(to_lower('Z'), 'z');
    assert_eq!(to_lower('a'), 'a');
    assert_eq!(to_lower('@'), '@');
    assert_eq!(to_lower('['), '[');
    assert_eq!(to_lower('É'), 'É');
    let text = "Hello, WORLD! Éa";
    let lowered: String = lowercase_chars(text).into_iter().collect();
    assert_eq!(lowered, text.to_ascii_lowercase());
    assert_eq!(str_chars("añb"), vec!['a', 'ñ', 'b']);
    assert_eq!(string_from_chars(&chars("hello"), 1, 4), "ell");
}

#[test]
fn replace_agrees_with_std() {
    for (s, from, to) in [
        ("a**b**c", "**", ""),
        ("***", "**", ""),
        ("****", "**", "x"),
        ("aaa", "aa", "b"),
        ("~!~!", "~!", "||"),
        ("abc", "", "x"),
        ("", "ab", "x"),
        ("ab", "abc", "x"),
        ("xabx", "ab", "ab"),
        ("!~!~", "!~", "||"),
    ] {
        let expected = if from.is_empty() { s.to_string() } else { s.replace(from, to) };
        assert_eq!(replaced(s, from, to), expected, "{s:?} {from:?} {to:?}");
    }
}

#[test]
fn occurrences_are_counted_without_overlap() {
    let text = chars("||a||||b|||");
    let bars = chars("||");
    assert_eq!(count_occurrences(&text, text.len(), &bars), 4);
    assert_eq!("||a||||b|||".matches("||").count(), 4);
    assert_eq!(count_occurrences(&text, 3, &bars), 1);
    assert_eq!(count_occurrences(&text, 1, &bars), 0);
    assert_eq!(count_occurrences(&text, 0, &bars), 0);
    assert_eq!(count_occurrences(&text, text.len(), &chars("")), 0);
    assert_eq!(count_occurrences(&chars("|||"), 3, &bars), 1);
}

#[test]
fn description_loses_tags_and_emphasis() {
    assert_eq!(sanitize_description("<b>Hello</b> **world**", 400), "Hello world");
    assert_eq!(sanitize_description("a<br>b<i>c</i>", 400), "abc");
    assert_eq!(sanitize_description("__under__ <br/>line", 400), "under line");
    assert_eq!(sanitize_description("1 < 2 and 3 > 2", 400), "1  2");
    assert_eq!(sanitize_description("no tags", 400), "no tags");
    assert_eq!(sanitize_description("<unclosed", 400), "<unclosed");
}

#[test]
fn description_spoilers_are_rewritten() {
    assert_eq!(sanitize_description("~!secret!~", 400), "||secret||");
    assert_eq!(sanitize_cleaned("a ~!b!~ c", 400), "a ||b|| c");
}

#[test]
fn long_description_is_cut() {
    assert_eq!(sanitize_cleaned("abcdef", 3), "abc...");
    assert_eq!(sanitize_cleaned("abcdef", 6), "abcdef");
    assert_eq!(sanitize_cleaned("abcdef", 5), "abcde...");
    assert_eq!(sanitize_cleaned("abcdef", 0), "...");
    assert_eq!(sanitize_cleaned("", 0), "");
    assert_eq!(sanitize_description("<p>abcdef</p>", 3), "abc...");
}

#[test]
fn cut_inside_a_spoiler_closes_it() {
    assert_eq!(sanitize_cleaned("~!secret!~ text", 5), "||sec...||");
    assert_eq!(sanitize_cleaned("~!secret!~ text", 12), "||secret|| t...");
    assert_eq!(sanitize_cleaned("~!a!~~!bcdef!~", 8), "||a||||b...||");
}

#[test]
fn length_is_measured_in_bytes_and_cut_in_characters() {
    // four characters, twelve bytes
    assert_eq!(sanitize_cleaned("進撃の巨", 12), "進撃の巨");
    assert_eq!(sanitize_cleaned("進撃の巨", 11), "進撃の巨...");
    assert_eq!(sanitize_cleaned("進撃の巨", 3), "進撃の...");
    assert_eq!(sanitize_cleaned("進撃の巨", 2), "進撃...");
}

#[test]
fn missing_value_is_unknown() {
    assert_eq!(UNKNOWN_EMBED_FIELD, "Unknown");
    assert_eq!(format_opt::<i64>(None), "Unknown");
    assert_eq!(format_opt(Some(42i64)), "42");
    assert_eq!(format_opt(Some("text")), "text");
    assert_eq!(format_opt(Some("Female".to_string())), "Female");
    assert_eq!(text_or_unknown(None), "Unknown");
    assert_eq!(text_or_unknown(Some("x".to_string())), "x");
}

#[test]
fn dates_by_shape() {
    assert_eq!(format_date(Some(2020), Some(1), Some(5)), "Jan 05, 2020");
    assert_eq!(format_date(Some(1999), Some(12), Some(31)), "Dec 31, 1999");
    assert_eq!(format_date(Some(2020), Some(1), None), "Jan, 2020");
    assert_eq!(format_date(Some(2020), None, None), "2020");
    assert_eq!(format_date(Some(-5), None, None), "-5");
    assert_eq!(format_date(None, Some(7), Some(4)), "Jul 04");
    assert_eq!(format_date(None, Some(2), Some(29)), "Feb 29");
    assert_eq!(format_date(None, None, None), "Unknown");
    assert_eq!(format_date(None, Some(7), None), "Unknown");
    assert_eq!(format_date(None, None, Some(4)), "Unknown");
    assert_eq!(format_date(Some(2020), None, Some(4)), "Unknown");
}

#[test]
fn dates_that_do_not_exist_are_unknown() {
    assert_eq!(format_date(Some(2021), Some(2), Some(29)), "Unknown");
    assert_eq!(format_date(Some(2020), Some(2), Some(29)), "Feb 29, 2020");
    assert_eq!(format_date(Some(2020), Some(13), Some(1)), "Unknown");
    assert_eq!(format_date(Some(2020), Some(0), Some(1)), "Unknown");
    assert_eq!(format_date(Some(2020), Some(4), Some(31)), "Unknown");
    assert_eq!(format_date(Some(2020), Some(13), None), "Unknown");
    assert_eq!(format_date(None, Some(4), Some(31)), "Unknown");
    assert_eq!(format_date(Some(400000), Some(1), Some(1)), "Unknown");
    assert_eq!(format_date(Some(2020), Some(-1), Some(1)), "Unknown");
}

#[test]
fn date_shapes() {
    assert_eq!(
        classify_date(Some(1), Some(2), Some(3)),
        DateShape::Full { year: 1, month: 2, day: 3 }
    );
    assert_eq!(classify_date(Some(1), Some(2), None), DateShape::MonthYear { year: 1, month: 2 });
    assert_eq!(classify_date(Some(1), None, None), DateShape::Year { year: 1 });
    assert_eq!(classify_date(None, Some(2), Some(3)), DateShape::MonthDay { month: 2, day: 3 });
    assert_eq!(classify_date(Some(1), None, Some(3)), DateShape::Unknown);
    assert_eq!(classify_date(None, None, None), DateShape::Unknown);
}

#[test]
fn version_text() {
    assert_eq!(version("1.2.3", "", "2024-01-01"), "1.2.3");
    assert_eq!(version("1.2.3", "abc1234", "2024-01-01"), "1.2.3 (abc1234 2024-01-01)");
    assert_eq!(version("", "h", ""), " (h )");
}

#[test]
fn page_addresses() {
    assert_eq!(anilist_url("anime", 1), "https://anilist.co/anime/1");
    assert_eq!(anilist_anime_url(20), "https://anilist.co/anime/20");
    assert_eq!(anilist_manga_url(30002), "https://anilist.co/manga/30002");
    assert_eq!(anilist_character_url(17), "https://anilist.co/character/17");
    assert_eq!(anilist_staff_url(95011), "https://anilist.co/staff/95011");
    assert_eq!(anilist_studio_url(11), "https://anilist.co/studio/11");
    assert_eq!(anilist_media_url(MediaType::ANIME, 5), "https://anilist.co/anime/5");
    assert_eq!(anilist_media_url(MediaType::MANGA, 5), "https://anilist.co/manga/5");
    assert_eq!(myanimelist_url("anime", 1), "https://myanimelist.net/anime/1");
    assert_eq!(myanimelist_anime_url(20), "https://myanimelist.net/anime/20");
    assert_eq!(myanimelist_manga_url(2), "https://myanimelist.net/manga/2");
    assert_eq!(myanimelist_media_url(MediaType::ANIME, 9), "https://myanimelist.net/anime/9");
    assert_eq!(myanimelist_media_url(MediaType::MANGA, -9), "https://myanimelist.net/manga/-9");
}

#[test]
fn choices_become_catalog_terms() {
    assert_eq!(MediaType::from(MediaChoice::Anime), MediaType::ANIME);
    assert_eq!(MediaType::from(MediaChoice::Manga), MediaType::MANGA);
    assert_eq!(MediaSeason::from(SeasonChoice::Winter), MediaSeason::WINTER);
    assert_eq!(MediaSeason::from(SeasonChoice::Spring), MediaSeason::SPRING);
    assert_eq!(MediaSeason::from(SeasonChoice::Summer), MediaSeason::SUMMER);
    assert_eq!(MediaSeason::from(SeasonChoice::Fall), MediaSeason::FALL);
    assert_eq!(MediaSort::from(SortChoice::Popularity), MediaSort::POPULARITY_DESC);
    assert_eq!(MediaSort::from(SortChoice::Score), MediaSort::SCORE_DESC);
    assert_eq!(MediaSort::from(SortChoice::StartDate), MediaSort::START_DATE);
    assert_eq!(MediaSort::from(SortChoice::Title), MediaSort::TITLE_ROMAJI);
    assert_eq!(MediaChoice::Anime.to_string(), "Anime");
    assert_eq!(MediaChoice::Manga.to_string(), "Manga");
    assert_eq!(SortChoice::StartDate.name(), "Start Date");
    assert_eq!(SortChoice::Title.name(), "Title");
}

#[test]
fn execution_status_in_capitals() {
    assert_eq!(ExecutionStatus::Success.to_string(), "SUCCESS");
    assert_eq!(ExecutionStatus::Error.to_string(), "ERROR");
}

fn strip_by_rule(text: &str) -> String {
    let s: Vec<char> = text.chars().collect();
    let mut out = String::new();
    let mut i = 0;
    while i < s.len() {
        let mut end = None;
        if s[i] == '<' {
            let mut j = i + 1;
            while j < s.len() && s[j] != '\n' {
                if s[j] == '>' {
                    end = Some(j);
                    break;
                }
                j += 1;
            }
        }
        match end {
            Some(j) => i = j + 1,
            None => {
                out.push(s[i]);
                i += 1;
            }
        }
    }
    out
}

#[test]
fn tags_go_from_an_opening_bracket_to_the_next_closing_one_on_the_line() {
    for (text, expected) in [
        ("<>", ""),
        ("<<>", ""),
        ("<<a>>", ">"),
        ("a<b>c", "ac"),
        ("a<b\nc>d", "a<b\nc>d"),
        ("<a\n>", "<a\n>"),
        ("<\n><ok>x", "<\n>x"),
        ("><", "><"),
        ("x<y", "x<y"),
        ("<a>\n<b>", "\n"),
        ("<a\r>b", "b"),
        ("<é>ü<", "ü<"),
        ("< <\n> >", "< <\n> >"),
        ("a > b < c > d", "a > b  d"),
        ("", ""),
    ] {
        assert_eq!(sanitize_description(text, 4000), expected, "{text:?}");
        assert_eq!(strip_by_rule(text), expected, "{text:?}");
    }
    let alphabet = ['<', '>', '\n', 'a', ' '];
    for code in 0..5usize.pow(6) {
        let mut n = code;
        let mut text = String::new();
        for _ in 0..6 {
            text.push(alphabet[n % 5]);
            n /= 5;
        }
        assert_eq!(sanitize_description(&text, 4000), strip_by_rule(&text), "{text:?}");
    }
}
