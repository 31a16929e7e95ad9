//! The session controller of a paginated message: an ordered, never empty
//! list of pages, the page that is shown, and the controls that are drawn
//! under it. The controller decides; sending and editing the message is left
//! to the caller, who hands in one navigation command at a time.
use crate::navigation::{NavigationCommand, SessionState};
use crate::text::{decimal, decimal_string, push_decimal};
use vstd::prelude::*;
use vstd::string::StringExecFns;

verus! {

/// Seconds without a qualifying event after which a session ends, unless the
/// builder is told otherwise.
pub const DEFAULT_TIMEOUT_SECS: u64 = 180;

/// A span of time: whole seconds and the nanoseconds beyond them, as
/// `std::time::Duration` counts it.
#[derive(Clone, Copy, Debug, PartialEq, Eq, Structural)]
pub struct Timeout {
    pub secs: u64,
    pub nanos: u32,
}

impl Timeout {
    pub fn from_secs(secs: u64) -> (t: Timeout)
        ensures
            t == (Timeout { secs, nanos: 0 }),
    {
        Timeout { secs, nanos: 0 }
    }
}

/// The span after which a session ends by default.
pub open spec fn default_timeout() -> Timeout {
    Timeout { secs: DEFAULT_TIMEOUT_SECS, nanos: 0 }
}

pub const PAGE_PREV_EMOJI: u64 = 1393372751624011806;

pub const PAGE_NEXT_EMOJI: u64 = 1393372843039002656;

pub const PAGE_FIRST_EMOJI: u64 = 1393372856200597584;

pub const PAGE_LAST_EMOJI: u64 = 1393372866120122398;

/// Position of each control identifier in a session's list of identifiers.
pub const FIRST_ID: usize = 0;

pub const PREV_ID: usize = 1;

pub const NEXT_ID: usize = 2;

pub const LAST_ID: usize = 3;

pub const PAGE_ID: usize = 4;

pub const MODAL_ID: usize = 5;

/// One page: what is shown, and the caller's own controls that are drawn
/// below the navigation row.
pub struct Page<E, B> {
    pub embed: E,
    pub buttons: Option<Vec<B>>,
}

impl<E, B> Page<E, B> {
    pub fn new(embed: E) -> (page: Self)
        ensures
            page.embed == embed,
            page.buttons is None,
    {
        Page { embed, buttons: None }
    }

    pub fn add_link_buttons(self, buttons: Vec<B>) -> (page: Self)
        ensures
            page.embed == self.embed,
            page.buttons == Some(buttons),
    {
        Page { embed: self.embed, buttons: Some(buttons) }
    }
}

#[derive(Clone, Copy, Debug, PartialEq, Eq, Structural)]
pub enum ButtonStyle {
    Primary,
    Secondary,
}

/// One control of the navigation row.
pub struct NavButton {
    pub custom_id: String,
    pub emoji: Option<u64>,
    pub label: Option<String>,
    pub style: ButtonStyle,
    pub disabled: bool,
}

/// A navigation control with its texts as character sequences.
pub struct NavButtonView {
    pub custom_id: Seq<char>,
    pub emoji: Option<u64>,
    pub label: Option<Seq<char>>,
    pub style: ButtonStyle,
    pub disabled: bool,
}

impl View for NavButton {
    type V = NavButtonView;

    open spec fn view(&self) -> NavButtonView {
        NavButtonView {
            custom_id: self.custom_id@,
            emoji: self.emoji,
            label: match self.label {
                Some(l) => Some(l@),
                None => None,
            },
            style: self.style,
            disabled: self.disabled,
        }
    }
}

/// The controls under a page: the navigation row, where there is one, and
/// the page's own controls, where it has any.
pub struct Components<'a, B> {
    pub navigation: Option<Vec<NavButton>>,
    pub links: Option<&'a Vec<B>>,
}

/// Everything that is drawn for a session at one moment.
pub struct MessageView<'a, E, B> {
    pub embed: &'a E,
    pub components: Components<'a, B>,
    pub ephemeral: bool,
}

/// The answer to an interaction.
pub enum InteractionResponse<'a, E, B> {
    /// Redraw the message in place.
    UpdateMessage(MessageView<'a, E, B>),
    /// Confirm the interaction and change nothing.
    Acknowledge,
}

/// What the caller has to do after a command was applied.
#[derive(Clone, Copy, Debug, PartialEq, Eq, Structural)]
pub enum Effect {
    /// Another page is shown now: draw the message again.
    Rerender,
    /// The command changed nothing.
    Unchanged,
    /// The session has ended: draw the final view and stop.
    Finish,
}

/// The six control identifiers of the session with the given token: the
/// token's decimal numeral followed by a fixed suffix each.
pub open spec fn custom_ids_for(ctx_id: u64) -> Seq<Seq<char>> {
    seq![
        decimal(ctx_id as nat) + "_first"@,
        decimal(ctx_id as nat) + "_prev"@,
        decimal(ctx_id as nat) + "_next"@,
        decimal(ctx_id as nat) + "_last"@,
        decimal(ctx_id as nat) + "_page"@,
        decimal(ctx_id as nat) + "_modal"@,
    ]
}

/// The text of the page indicator: the one-based number of the page shown,
/// a slash, and the number of pages.
pub open spec fn page_label(state: SessionState) -> Seq<char> {
    decimal(state.index + 1) + seq!['/'] + decimal(state.len)
}

/// The navigation row of a session. The two controls that lead backwards are
/// disabled on the first page, the two that lead forwards on the last page,
/// and all five once the session has ended.
pub open spec fn navigation_row(state: SessionState, ids: Seq<Seq<char>>) -> Seq<NavButtonView> {
    let left = state.cancelled || state.index == 0;
    let right = state.cancelled || state.index + 1 == state.len;
    seq![
        NavButtonView {
            custom_id: ids[FIRST_ID as int],
            emoji: Some(PAGE_FIRST_EMOJI),
            label: None,
            style: ButtonStyle::Secondary,
            disabled: left,
        },
        NavButtonView {
            custom_id: ids[PREV_ID as int],
            emoji: Some(PAGE_PREV_EMOJI),
            label: None,
            style: ButtonStyle::Primary,
            disabled: left,
        },
        NavButtonView {
            custom_id: ids[PAGE_ID as int],
            emoji: None,
            label: Some(page_label(state)),
            style: ButtonStyle::Secondary,
            disabled: state.cancelled,
        },
        NavButtonView {
            custom_id: ids[NEXT_ID as int],
            emoji: Some(PAGE_NEXT_EMOJI),
            label: None,
            style: ButtonStyle::Primary,
            disabled: right,
        },
        NavButtonView {
            custom_id: ids[LAST_ID as int],
            emoji: Some(PAGE_LAST_EMOJI),
            label: None,
            style: ButtonStyle::Secondary,
            disabled: right,
        },
    ]
}

/// The views of a row of controls.
pub open spec fn row_view(row: Seq<NavButton>) -> Seq<NavButtonView> {
    row.map_values(|b: NavButton| b@)
}

/// What a command makes the caller do, given the state it was applied to.
pub open spec fn effect_of(state: SessionState, command: NavigationCommand) -> Effect {
    if command is Cancel {
        Effect::Finish
    } else if state.step(command) == state {
        Effect::Unchanged
    } else {
        Effect::Rerender
    }
}

/// A paginator as the contracts see it.
pub struct PaginatorView<E, B> {
    pub pages: Seq<Page<E, B>>,
    pub state: SessionState,
    pub timeout: Timeout,
    pub ephemeral: bool,
    pub custom_ids: Seq<Seq<char>>,
}

/// One interactive paginated message and its navigation state.
pub struct Paginator<E, B> {
    pages: Vec<Page<E, B>>,
    current_page: usize,
    timeout: Timeout,
    ephemeral: bool,
    custom_ids: Vec<String>,
    is_cancelled: bool,
}

impl<E, B> View for Paginator<E, B> {
    type V = PaginatorView<E, B>;

    closed spec fn view(&self) -> PaginatorView<E, B> {
        PaginatorView {
            pages: self.pages@,
            state: SessionState {
                len: self.pages@.len(),
                index: self.current_page as nat,
                cancelled: self.is_cancelled,
            },
            timeout: self.timeout,
            ephemeral: self.ephemeral,
            custom_ids: self.custom_ids@.map_values(|id: String| id@),
        }
    }
}

impl<E, B> Paginator<E, B> {
    /// The paginator has at least one page and shows one of them.
    pub open spec fn wf(&self) -> bool {
        self@.state.wf() && self@.state.len == self@.pages.len()
    }

    /// The paginator has its six control identifiers.
    pub open spec fn has_ids(&self) -> bool {
        self@.custom_ids.len() == 6
    }

    pub fn builder() -> (b: PaginatorBuilder<E, B>)
        ensures
            b@.pages.len() == 0,
            b@.timeout == default_timeout(),
            !b@.ephemeral,
    {
        PaginatorBuilder { pages: Vec::new(), timeout: Timeout::from_secs(DEFAULT_TIMEOUT_SECS), ephemeral: false }
    }

    /// Number of pages.
    pub fn page_count(&self) -> (n: usize)
        ensures
            n == self@.pages.len(),
            n == self@.state.len,
    {
        self.pages.len()
    }

    /// Zero-based index of the page shown.
    pub fn current_index(&self) -> (i: usize)
        ensures
            i == self@.state.index,
    {
        self.current_page
    }

    pub fn is_cancelled(&self) -> (c: bool)
        ensures
            c == self@.state.cancelled,
    {
        self.is_cancelled
    }

    /// The span without a qualifying event after which the session ends.
    pub fn timeout(&self) -> (t: Timeout)
        ensures
            t == self@.timeout,
    {
        self.timeout
    }

    pub fn is_ephemeral(&self) -> (e: bool)
        ensures
            e == self@.ephemeral,
    {
        self.ephemeral
    }

    /// The control identifiers, in the order of `FIRST_ID` to `MODAL_ID`.
    pub fn custom_ids(&self) -> (ids: &Vec<String>)
        ensures
            ids@.map_values(|id: String| id@) == self@.custom_ids,
    {
        &self.custom_ids
    }

    /// Derives the six control identifiers from the session's token.
    pub fn create_custom_ids(&mut self, ctx_id: u64)
        ensures
            final(self)@ == (PaginatorView { custom_ids: custom_ids_for(ctx_id), ..old(self)@ }),
            final(self).has_ids(),
    {
        let mut first = decimal_string(ctx_id);
        first.append("_first");
        let mut prev = decimal_string(ctx_id);
        prev.append("_prev");
        let mut next = decimal_string(ctx_id);
        next.append("_next");
        let mut last = decimal_string(ctx_id);
        last.append("_last");
        let mut page = decimal_string(ctx_id);
        page.append("_page");
        let mut modal = decimal_string(ctx_id);
        modal.append("_modal");
        let mut ids: Vec<String> = Vec::new();
        ids.push(first);
        ids.push(prev);
        ids.push(next);
        ids.push(last);
        ids.push(page);
        ids.push(modal);
        assert(ids@.map_values(|id: String| id@) == custom_ids_for(ctx_id));
        self.custom_ids = ids;
    }

    pub fn get_current_page(&self) -> (page: &Page<E, B>)
        requires
            self.wf(),
        ensures
            *page == self@.pages[self@.state.index as int],
    {
        &self.pages[self.current_page]
    }

    pub fn is_first_page(&self) -> (r: bool)
        ensures
            r == (self@.state.index == 0),
    {
        self.current_page == 0
    }

    pub fn is_last_page(&self) -> (r: bool)
        requires
            self.wf(),
        ensures
            r == (self@.state.index + 1 == self@.state.len),
    {
        self.current_page == self.pages.len() - 1
    }

    pub fn go_to_page(&mut self, page: usize)
        requires
            old(self).wf(),
        ensures
            final(self).wf(),
            final(self)@ == (PaginatorView {
                state: old(self)@.state.step(NavigationCommand::GoTo(page)),
                ..old(self)@
            }),
    {
        if page >= 1 && page <= self.pages.len() {
            self.current_page = page - 1;
        }
    }

    pub fn go_to_first_page(&mut self)
        requires
            old(self).wf(),
        ensures
            final(self).wf(),
            final(self)@ == (PaginatorView {
                state: old(self)@.state.step(NavigationCommand::First),
                ..old(self)@
            }),
    {
        self.current_page = 0;
    }

    pub fn go_to_previous_page(&mut self)
        requires
            old(self).wf(),
        ensures
            final(self).wf(),
            final(self)@ == (PaginatorView {
                state: old(self)@.state.step(NavigationCommand::Previous),
                ..old(self)@
            }),
    {
        if self.current_page > 0 {
            self.current_page -= 1;
        }
    }

    pub fn go_to_next_page(&mut self)
        requires
            old(self).wf(),
        ensures
            final(self).wf(),
            final(self)@ == (PaginatorView {
                state: old(self)@.state.step(NavigationCommand::Next),
                ..old(self)@
            }),
    {
        if self.current_page < self.pages.len() - 1 {
            self.current_page += 1;
        }
    }

    pub fn go_to_last_page(&mut self)
        requires
            old(self).wf(),
        ensures
            final(self).wf(),
            final(self)@ == (PaginatorView {
                state: old(self)@.state.step(NavigationCommand::Last),
                ..old(self)@
            }),
    {
        self.current_page = self.pages.len() - 1;
    }

    /// Whether `c` holds the controls that belong under the page shown: the
    /// navigation row of the current state, left out where the session has
    /// a single page, and the page's own controls.
    pub open spec fn renders(&self, c: Components<B>) -> bool {
        let state = self@.state;
        &&& match c.navigation {
            Some(row) => state.len > 1 && row_view(row@) == navigation_row(
                state,
                self@.custom_ids,
            ),
            None => state.len == 1,
        }
        &&& match c.links {
            Some(links) => self@.pages[state.index as int].buttons == Some(*links),
            None => self@.pages[state.index as int].buttons is None,
        }
    }

    /// Whether `m` is the message of the current state.
    pub open spec fn shows(&self, m: MessageView<E, B>) -> bool {
        &&& *m.embed == self@.pages[self@.state.index as int].embed
        &&& self.renders(m.components)
        &&& m.ephemeral == self@.ephemeral
    }

    /// The text of the page indicator.
    fn render_label(&self) -> (label: String)
        requires
            self.wf(),
        ensures
            label@ == page_label(self@.state),
    {
        let mut label = decimal_string((self.current_page + 1) as u64);
        proof {
            reveal_strlit("/");
        }
        label.append("/");
        assert("/"@ == seq!['/']);
        push_decimal(&mut label, self.pages.len() as u64);
        label
    }

    pub fn render_components(&self) -> (c: Components<'_, B>)
        requires
            self.wf(),
            self@.state.len > 1 ==> self.has_ids(),
        ensures
            self.renders(c),
    {
        let navigation = if self.pages.len() == 1 {
            None
        } else {
            let left_disabled = self.is_cancelled || self.is_first_page();
            let right_disabled = self.is_cancelled || self.is_last_page();
            let mut row: Vec<NavButton> = Vec::new();
            row.push(
                NavButton {
                    custom_id: self.custom_ids[FIRST_ID].clone(),
                    emoji: Some(PAGE_FIRST_EMOJI),
                    label: None,
                    style: ButtonStyle::Secondary,
                    disabled: left_disabled,
                },
            );
            row.push(
                NavButton {
                    custom_id: self.custom_ids[PREV_ID].clone(),
                    emoji: Some(PAGE_PREV_EMOJI),
                    label: None,
                    style: ButtonStyle::Primary,
                    disabled: left_disabled,
                },
            );
            row.push(
                NavButton {
                    custom_id: self.custom_ids[PAGE_ID].clone(),
                    emoji: None,
                    label: Some(self.render_label()),
                    style: ButtonStyle::Secondary,
                    disabled: self.is_cancelled,
                },
            );
            row.push(
                NavButton {
                    custom_id: self.custom_ids[NEXT_ID].clone(),
                    emoji: Some(PAGE_NEXT_EMOJI),
                    label: None,
                    style: ButtonStyle::Primary,
                    disabled: right_disabled,
                },
            );
            row.push(
                NavButton {
                    custom_id: self.custom_ids[LAST_ID].clone(),
                    emoji: Some(PAGE_LAST_EMOJI),
                    label: None,
                    style: ButtonStyle::Secondary,
                    disabled: right_disabled,
                },
            );
            assert(row_view(row@) == navigation_row(self@.state, self@.custom_ids));
            Some(row)
        };
        let links = match &self.pages[self.current_page].buttons {
            Some(buttons) => Some(buttons),
            None => None,
        };
        Components { navigation, links }
    }

    pub fn create_reply(&self) -> (m: MessageView<'_, E, B>)
        requires
            self.wf(),
            self@.state.len > 1 ==> self.has_ids(),
        ensures
            self.shows(m),
    {
        MessageView {
            embed: &self.pages[self.current_page].embed,
            components: self.render_components(),
            ephemeral: self.ephemeral,
        }
    }

    pub fn create_interaction_response(&self) -> (r: InteractionResponse<'_, E, B>)
        requires
            self.wf(),
            self@.state.len > 1 ==> self.has_ids(),
        ensures
            r matches InteractionResponse::UpdateMessage(m) && self.shows(m),
    {
        InteractionResponse::UpdateMessage(self.create_reply())
    }

    /// Ends the session. The pages and the page shown stay as they are.
    pub fn cancel(&mut self)
        ensures
            final(self)@ == (PaginatorView {
                state: old(self)@.state.step(NavigationCommand::Cancel),
                ..old(self)@
            }),
            final(self)@.state.cancelled,
    {
        self.is_cancelled = true;
    }

    /// Applies one command and says what the caller has to do about it.
    pub fn apply(&mut self, command: NavigationCommand) -> (effect: Effect)
        requires
            old(self).wf(),
        ensures
            final(self).wf(),
            final(self)@ == (PaginatorView {
                state: old(self)@.state.step(command),
                ..old(self)@
            }),
            effect == effect_of(old(self)@.state, command),
    {
        let before = self.current_page;
        match command {
            NavigationCommand::First => self.go_to_first_page(),
            NavigationCommand::Previous => self.go_to_previous_page(),
            NavigationCommand::Next => self.go_to_next_page(),
            NavigationCommand::Last => self.go_to_last_page(),
            NavigationCommand::GoTo(page) => self.go_to_page(page),
            NavigationCommand::Cancel => {
                self.cancel();
                return Effect::Finish;
            },
        }
        if self.current_page == before {
            Effect::Unchanged
        } else {
            Effect::Rerender
        }
    }
}

/// Collects the pages and settings of a paginator.
pub struct PaginatorBuilder<E, B> {
    pages: Vec<Page<E, B>>,
    timeout: Timeout,
    ephemeral: bool,
}

/// A builder as the contracts see it.
pub struct PaginatorBuilderView<E, B> {
    pub pages: Seq<Page<E, B>>,
    pub timeout: Timeout,
    pub ephemeral: bool,
}

impl<E, B> View for PaginatorBuilder<E, B> {
    type V = PaginatorBuilderView<E, B>;

    closed spec fn view(&self) -> PaginatorBuilderView<E, B> {
        PaginatorBuilderView {
            pages: self.pages@,
            timeout: self.timeout,
            ephemeral: self.ephemeral,
        }
    }
}

impl<E, B> PaginatorBuilder<E, B> {
    pub fn pages(self, pages: Vec<Page<E, B>>) -> (b: Self)
        ensures
            b@ == (PaginatorBuilderView { pages: pages@, ..self@ }),
    {
        PaginatorBuilder { pages, timeout: self.timeout, ephemeral: self.ephemeral }
    }

    /// Sets the span without a qualifying event after which the session
    /// ends.
    pub fn timeout(self, timeout: Timeout) -> (b: Self)
        ensures
            b@ == (PaginatorBuilderView { timeout, ..self@ }),
    {
        PaginatorBuilder { pages: self.pages, timeout, ephemeral: self.ephemeral }
    }

    pub fn ephemeral(self, ephemeral: bool) -> (b: Self)
        ensures
            b@ == (PaginatorBuilderView { ephemeral, ..self@ }),
    {
        PaginatorBuilder { pages: self.pages, timeout: self.timeout, ephemeral }
    }

    /// The paginator over the pages collected, showing the first of them. It
    /// is well formed exactly if there is at least one page.
    pub fn build(self) -> (p: Paginator<E, B>)
        ensures
            p@ == (PaginatorView {
                pages: self@.pages,
                state: SessionState { len: self@.pages.len(), index: 0, cancelled: false },
                timeout: self@.timeout,
                ephemeral: self@.ephemeral,
                custom_ids: Seq::<Seq<char>>::empty(),
            }),
            p.wf() <==> self@.pages.len() >= 1,
    {
        let p = Paginator {
            pages: self.pages,
            current_page: 0,
            timeout: self.timeout,
            ephemeral: self.ephemeral,
            custom_ids: Vec::new(),
            is_cancelled: false,
        };
        assert(p.custom_ids@.map_values(|id: String| id@) == Seq::<Seq<char>>::empty());
        assert(p.pages.len() <= usize::MAX);
        p
    }
}

impl<E, B> Default for PaginatorBuilder<E, B> {
    fn default() -> (b: Self)
        ensures
            b@.pages.len() == 0,
            b@.timeout == default_timeout(),
            !b@.ephemeral,
    {
        PaginatorBuilder { pages: Vec::new(), timeout: Timeout::from_secs(DEFAULT_TIMEOUT_SECS), ephemeral: false }
    }
}

} // verus!
