use anisearch::navigation::{parse_page_number, NavigationCommand};
use anisearch::paginate::{
    ButtonStyle, Effect, InteractionResponse, Page, Paginator, PaginatorBuilder, Timeout,
    DEFAULT_TIMEOUT_SECS, FIRST_ID, LAST_ID, MODAL_ID, NEXT_ID, PAGE_FIRST_EMOJI,
    PAGE_ID, PAGE_LAST_EMOJI, PAGE_NEXT_EMOJI, PAGE_PREV_EMOJI, PREV_ID,
};

fn pages(n: usize) -> Vec<Page<String, String>> {
    (0..n).map(|i| Page::new(format!("page {i}"))).collect()
}

fn paginator(n: usize) -> Paginator<String, String> {
    let mut p = Paginator::builder().pages(pages(n)).build();
    p.create_custom_ids(42);
    p
}

#[test]
fn scenario_next_next_goto_previous() {
    let mut p = paginator(3);
    let mut shown = Vec::new();
    let mut effects = Vec::new();
    for command in [
        NavigationCommand::Next,
        NavigationCommand::Next,
        NavigationCommand::GoTo(5),
        NavigationCommand::Previous,
    ] {
        effects.push(p.apply(command));
        shown.push(p.current_index());
    }
    assert_eq!(shown, vec![1, 2, 2, 1]);
    assert_eq!(
        effects,
        vec![Effect::Rerender, Effect::Rerender, Effect::Unchanged, Effect::Rerender]
    );
}

#[test]
fn timeout_without_events_renders_once_disabled() {
    let mut p = paginator(3);
    assert_eq!(p.apply(NavigationCommand::Cancel), Effect::Finish);
    assert!(p.is_cancelled());
    assert_eq!(p.current_index(), 0);
    let reply = p.create_reply();
    let row = reply.components.navigation.expect("the navigation row is drawn");
    assert_eq!(row.len(), 5);
    assert!(row.iter().all(|b| b.disabled));
    assert_eq!(row[2].label.as_deref(), Some("1/3"));
}

#[test]
fn index_stays_in_range_under_any_commands() {
    let commands = [
        NavigationCommand::Previous,
        NavigationCommand::Last,
        NavigationCommand::Next,
        NavigationCommand::Next,
        NavigationCommand::GoTo(0),
        NavigationCommand::GoTo(usize::MAX),
        NavigationCommand::First,
        NavigationCommand::Previous,
        NavigationCommand::GoTo(4),
        NavigationCommand::Next,
    ];
    let mut p = paginator(4);
    for command in commands {
        p.apply(command);
        assert!(p.current_index() < 4);
        assert_eq!(p.page_count(), 4);
    }
}

#[test]
fn goto_outside_the_pages_changes_nothing() {
    let mut p = paginator(3);
    p.apply(NavigationCommand::Next);
    for n in [0usize, 4, 5, 100, usize::MAX] {
        assert_eq!(p.apply(NavigationCommand::GoTo(n)), Effect::Unchanged);
        assert_eq!(p.current_index(), 1);
    }
    for n in 1..=3usize {
        p.apply(NavigationCommand::GoTo(n));
        assert_eq!(p.current_index(), n - 1);
    }
}

#[test]
fn first_then_previous_stays_on_first_page() {
    for count in 1..5 {
        let mut p = paginator(3);
        p.apply(NavigationCommand::Last);
        p.apply(NavigationCommand::First);
        for _ in 0..count {
            assert_eq!(p.apply(NavigationCommand::Previous), Effect::Unchanged);
        }
        assert_eq!(p.current_index(), 0);
    }
}

#[test]
fn round_trip_equals_goto() {
    let n = 6;
    for k in 0..n - 1 {
        let mut a = paginator(n);
        a.apply(NavigationCommand::Last);
        a.apply(NavigationCommand::First);
        for _ in 0..k {
            a.apply(NavigationCommand::Next);
        }
        let mut b = paginator(n);
        b.apply(NavigationCommand::GoTo(k + 1));
        assert_eq!(a.current_index(), b.current_index());
        assert_eq!(a.current_index(), k);
    }
}

#[test]
fn next_stops_at_last_page() {
    let mut p = paginator(2);
    assert_eq!(p.apply(NavigationCommand::Next), Effect::Rerender);
    assert_eq!(p.apply(NavigationCommand::Next), Effect::Unchanged);
    assert_eq!(p.current_index(), 1);
    assert!(p.is_last_page());
    assert!(!p.is_first_page());
}

#[test]
fn cancelled_stays_cancelled() {
    let mut p = paginator(3);
    p.cancel();
    p.apply(NavigationCommand::Next);
    p.apply(NavigationCommand::First);
    assert!(p.is_cancelled());
}

#[test]
fn builder_defaults() {
    let p: Paginator<String, String> = PaginatorBuilder::default().pages(pages(1)).build();
    assert_eq!(p.timeout(), Timeout::from_secs(DEFAULT_TIMEOUT_SECS));
    assert_eq!(p.timeout(), Timeout { secs: 180, nanos: 0 });
    assert!(!p.is_ephemeral());
    assert!(!p.is_cancelled());
    assert_eq!(p.current_index(), 0);
    assert!(p.custom_ids().is_empty());
}

#[test]
fn builder_settings_are_kept() {
    let p: Paginator<String, String> =
        Paginator::builder().pages(pages(2)).timeout(Timeout::from_secs(30)).ephemeral(true).build();
    assert_eq!(p.timeout(), Timeout { secs: 30, nanos: 0 });
    let q: Paginator<String, String> = Paginator::builder()
        .pages(pages(1))
        .timeout(Timeout { secs: 0, nanos: 250_000_000 })
        .build();
    assert_eq!(q.timeout(), Timeout { secs: 0, nanos: 250_000_000 });
    assert!(p.is_ephemeral());
    assert_eq!(p.page_count(), 2);
}

#[test]
fn custom_ids_carry_the_token() {
    let mut p = paginator(2);
    p.create_custom_ids(18446744073709551615);
    let ids = p.custom_ids();
    assert_eq!(ids.len(), 6);
    assert_eq!(ids[FIRST_ID], "18446744073709551615_first");
    assert_eq!(ids[PREV_ID], "18446744073709551615_prev");
    assert_eq!(ids[NEXT_ID], "18446744073709551615_next");
    assert_eq!(ids[LAST_ID], "18446744073709551615_last");
    assert_eq!(ids[PAGE_ID], "18446744073709551615_page");
    assert_eq!(ids[MODAL_ID], "18446744073709551615_modal");
    p.create_custom_ids(0);
    assert_eq!(p.custom_ids()[FIRST_ID], "0_first");
}

#[test]
fn navigation_row_on_first_page() {
    let p = paginator(12);
    let components = p.render_components();
    let row = components.navigation.expect("more than one page");
    assert_eq!(row.len(), 5);
    assert_eq!(row[0].custom_id, "42_first");
    assert_eq!(row[1].custom_id, "42_prev");
    assert_eq!(row[2].custom_id, "42_page");
    assert_eq!(row[3].custom_id, "42_next");
    assert_eq!(row[4].custom_id, "42_last");
    assert_eq!(row[0].emoji, Some(PAGE_FIRST_EMOJI));
    assert_eq!(row[1].emoji, Some(PAGE_PREV_EMOJI));
    assert_eq!(row[2].emoji, None);
    assert_eq!(row[3].emoji, Some(PAGE_NEXT_EMOJI));
    assert_eq!(row[4].emoji, Some(PAGE_LAST_EMOJI));
    assert_eq!(row[2].label.as_deref(), Some("1/12"));
    assert!(row[0].label.is_none());
    assert_eq!(row[0].style, ButtonStyle::Secondary);
    assert_eq!(row[1].style, ButtonStyle::Primary);
    assert_eq!(row[2].style, ButtonStyle::Secondary);
    assert_eq!(row[3].style, ButtonStyle::Primary);
    assert_eq!(row[4].style, ButtonStyle::Secondary);
    let disabled: Vec<bool> = row.iter().map(|b| b.disabled).collect();
    assert_eq!(disabled, vec![true, true, false, false, false]);
}

#[test]
fn label_follows_the_page_shown() {
    let mut p = paginator(12);
    for (command, label, disabled) in [
        (NavigationCommand::Next, "2/12", [false, false, false, false, false]),
        (NavigationCommand::GoTo(10), "10/12", [false, false, false, false, false]),
        (NavigationCommand::Last, "12/12", [false, false, false, true, true]),
        (NavigationCommand::First, "1/12", [true, true, false, false, false]),
    ] {
        p.apply(command);
        let row = p.render_components().navigation.unwrap();
        assert_eq!(row[2].label.as_deref(), Some(label));
        let got: Vec<bool> = row.iter().map(|b| b.disabled).collect();
        assert_eq!(got, disabled.to_vec());
    }
}

#[test]
fn single_page_has_no_navigation_but_keeps_links() {
    let page = Page::new("only".to_string()).add_link_buttons(vec!["link".to_string()]);
    let mut p = Paginator::builder().pages(vec![page]).build();
    p.create_custom_ids(7);
    let reply = p.create_reply();
    assert!(reply.components.navigation.is_none());
    assert_eq!(reply.components.links, Some(&vec!["link".to_string()]));
    assert_eq!(reply.embed, "only");
    p.cancel();
    let closed = p.create_reply();
    assert!(closed.components.navigation.is_none());
    assert_eq!(closed.components.links, Some(&vec!["link".to_string()]));
}

#[test]
fn reply_shows_current_page_and_its_links() {
    let first = Page::new("a".to_string());
    let second = Page::new("b".to_string()).add_link_buttons(vec!["x".to_string(), "y".to_string()]);
    let mut p = Paginator::builder().pages(vec![first, second]).ephemeral(true).build();
    p.create_custom_ids(1);
    let reply = p.create_reply();
    assert_eq!(reply.embed, "a");
    assert!(reply.components.links.is_none());
    assert!(reply.ephemeral);
    p.apply(NavigationCommand::Next);
    assert_eq!(p.get_current_page().embed, "b");
    match p.create_interaction_response() {
        InteractionResponse::UpdateMessage(view) => {
            assert_eq!(view.embed, "b");
            assert_eq!(view.components.links.map(|l| l.len()), Some(2));
            assert!(view.ephemeral);
        }
        InteractionResponse::Acknowledge => panic!("a redraw was expected"),
    }
}

#[test]
fn final_view_keeps_links_and_disables_navigation() {
    let first = Page::new("a".to_string()).add_link_buttons(vec!["x".to_string()]);
    let second = Page::new("b".to_string());
    let mut p = Paginator::builder().pages(vec![first, second]).build();
    p.create_custom_ids(1);
    p.cancel();
    let reply = p.create_reply();
    assert!(reply.components.navigation.unwrap().iter().all(|b| b.disabled));
    assert_eq!(reply.components.links.map(|l| l.len()), Some(1));
}

#[test]
fn page_numbers_are_positive_decimal_numerals() {
    assert_eq!(parse_page_number("1"), Some(1));
    assert_eq!(parse_page_number("25"), Some(25));
    assert_eq!(parse_page_number("+7"), Some(7));
    assert_eq!(parse_page_number("007"), Some(7));
    assert_eq!(parse_page_number("0"), None);
    assert_eq!(parse_page_number("+0"), None);
    assert_eq!(parse_page_number(""), None);
    assert_eq!(parse_page_number("+"), None);
    assert_eq!(parse_page_number("-3"), None);
    assert_eq!(parse_page_number(" 3"), None);
    assert_eq!(parse_page_number("3 "), None);
    assert_eq!(parse_page_number("three"), None);
    assert_eq!(parse_page_number("1.5"), None);
    assert_eq!(parse_page_number("++1"), None);
    assert_eq!(parse_page_number(&usize::MAX.to_string()), Some(usize::MAX));
    assert_eq!(parse_page_number("99999999999999999999999999"), None);
}

#[test]
fn single_page_is_drawn_without_identifiers() {
    let page = Page::new("only".to_string()).add_link_buttons(vec!["link".to_string()]);
    let p: Paginator<String, String> = Paginator::builder().pages(vec![page]).build();
    assert!(p.custom_ids().is_empty());
    let reply = p.create_reply();
    assert!(reply.components.navigation.is_none());
    assert_eq!(reply.components.links.map(|l| l.len()), Some(1));
    assert!(p.render_components().navigation.is_none());
    assert!(matches!(p.create_interaction_response(), InteractionResponse::UpdateMessage(_)));
}
