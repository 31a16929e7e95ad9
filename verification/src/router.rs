//! The interaction router of a paginated session: it looks at each inbound
//! event, keeps those of this session and of the one authorised user, and
//! turns them into navigation commands. The form behind the "go to page"
//! control is awaited by at most one sub-task at a time. The router decides;
//! listening, acknowledging and spawning are left to the caller.
use crate::navigation::{page_number, parse_page_number, NavigationCommand};
use crate::paginate::{FIRST_ID, LAST_ID, MODAL_ID, NEXT_ID, PAGE_ID, PREV_ID};
use crate::text::{chars_start_with, decimal, decimal_string, str_chars};
use vstd::prelude::*;

verus! {

/// The five controls of the navigation row.
#[derive(Clone, Copy, Debug, PartialEq, Eq, Structural)]
pub enum Control {
    First,
    Previous,
    Next,
    Last,
    GotoTrigger,
}

/// What reaches the router.
pub enum InteractionEvent {
    /// A user pressed a control.
    Component { user: u64, custom_id: String },
    /// A user submitted the "go to page" form.
    ModalSubmit { user: u64, custom_id: String, page: String },
    /// The form's sub-task ended without a submission.
    ModalClosed,
    /// No qualifying event came in time, or the event stream was closed.
    Timeout,
    /// The platform refused an acknowledgement, or a sub-task failed.
    Failed,
}

/// An event with its texts as character sequences.
pub enum InteractionEventView {
    Component { user: u64, custom_id: Seq<char> },
    ModalSubmit { user: u64, custom_id: Seq<char>, page: Seq<char> },
    ModalClosed,
    Timeout,
    Failed,
}

impl View for InteractionEvent {
    type V = InteractionEventView;

    open spec fn view(&self) -> InteractionEventView {
        match *self {
            InteractionEvent::Component { user, custom_id } => InteractionEventView::Component {
                user,
                custom_id: custom_id@,
            },
            InteractionEvent::ModalSubmit {
                user,
                custom_id,
                page,
            } => InteractionEventView::ModalSubmit { user, custom_id: custom_id@, page: page@ },
            InteractionEvent::ModalClosed => InteractionEventView::ModalClosed,
            InteractionEvent::Timeout => InteractionEventView::Timeout,
            InteractionEvent::Failed => InteractionEventView::Failed,
        }
    }
}

/// What the caller has to do about an event.
#[derive(Clone, Copy, Debug, PartialEq, Eq, Structural)]
pub enum RouterAction {
    /// Nothing: the event is not for this session, or there is nothing to do.
    Ignore,
    /// Hand the command to the session controller.
    Forward(NavigationCommand),
    /// Answer the control with the form. Start a sub-task that awaits the
    /// submission only where `spawn` is set.
    OpenModal { spawn: bool },
    /// Confirm the submission and change nothing.
    Acknowledge,
    /// Hand `Cancel` to the session controller and stop. Abort the form's
    /// sub-task where `abort_modal` is set.
    Terminate { abort_modal: bool },
}

/// What a router is made with and never changes.
pub struct RouterConfig {
    pub author: u64,
    pub namespace: Seq<char>,
    pub ids: Seq<Seq<char>>,
}

/// What a router keeps track of.
pub struct RouterState {
    pub modal_active: bool,
    pub terminated: bool,
}

/// A router as the contracts see it.
pub struct RouterView {
    pub config: RouterConfig,
    pub state: RouterState,
}

/// What every identifier of a session begins with: the session's token and
/// the separator that ends it.
pub open spec fn scope(namespace: Seq<char>) -> Seq<char> {
    namespace + seq!['_']
}

/// Whether an event of `user` on the control `custom_id` belongs to the
/// session: the user is the authorised one and the identifier begins with
/// the session's token and the separator. The separator keeps the sessions
/// apart whose tokens begin alike.
pub open spec fn qualifies(config: RouterConfig, user: u64, custom_id: Seq<char>) -> bool {
    user == config.author && scope(config.namespace).is_prefix_of(custom_id)
}

/// No identifier belongs to two sessions: what begins with the scope of one
/// token does not begin with the scope of another.
pub proof fn lemma_scopes_are_apart(a: u64, b: u64, custom_id: Seq<char>)
    requires
        scope(decimal(a as nat)).is_prefix_of(custom_id),
        scope(decimal(b as nat)).is_prefix_of(custom_id),
    ensures
        a == b,
{
    let x = decimal(a as nat);
    let y = decimal(b as nat);
    crate::text::lemma_decimal_denotes(a as nat);
    crate::text::lemma_decimal_denotes(b as nat);
    assert(scope(x) =~= custom_id.subrange(0, x.len() as int + 1));
    assert(scope(y) =~= custom_id.subrange(0, y.len() as int + 1));
    if x.len() < y.len() {
        assert(custom_id[x.len() as int] == scope(x)[x.len() as int]);
        assert(custom_id[x.len() as int] == scope(y)[x.len() as int]);
        assert(y[x.len() as int] == '_');
        assert(crate::text::is_digit(y[x.len() as int]));
    } else if y.len() < x.len() {
        assert(custom_id[y.len() as int] == scope(y)[y.len() as int]);
        assert(custom_id[y.len() as int] == scope(x)[y.len() as int]);
        assert(x[y.len() as int] == '_');
        assert(crate::text::is_digit(x[y.len() as int]));
    } else {
        assert(x =~= y) by {
            assert forall|i: int| 0 <= i < x.len() implies x[i] == y[i] by {
                assert(scope(x)[i] == custom_id[i]);
                assert(scope(y)[i] == custom_id[i]);
            }
        }
    }
}

/// The control that an identifier names, if any.
pub open spec fn classify(ids: Seq<Seq<char>>, custom_id: Seq<char>) -> Option<Control> {
    if custom_id == ids[FIRST_ID as int] {
        Some(Control::First)
    } else if custom_id == ids[PREV_ID as int] {
        Some(Control::Previous)
    } else if custom_id == ids[NEXT_ID as int] {
        Some(Control::Next)
    } else if custom_id == ids[LAST_ID as int] {
        Some(Control::Last)
    } else if custom_id == ids[PAGE_ID as int] {
        Some(Control::GotoTrigger)
    } else {
        None
    }
}

/// The router's transition: the state after an event and what the caller
/// has to do.
pub open spec fn route(config: RouterConfig, state: RouterState, event: InteractionEventView) -> (
    RouterState,
    RouterAction,
) {
    if state.terminated {
        (state, RouterAction::Ignore)
    } else {
        match event {
            InteractionEventView::Component { user, custom_id } => {
                if !qualifies(config, user, custom_id) {
                    (state, RouterAction::Ignore)
                } else {
                    match classify(config.ids, custom_id) {
                        Some(Control::First) => (
                            state,
                            RouterAction::Forward(NavigationCommand::First),
                        ),
                        Some(Control::Previous) => (
                            state,
                            RouterAction::Forward(NavigationCommand::Previous),
                        ),
                        Some(Control::Next) => (
                            state,
                            RouterAction::Forward(NavigationCommand::Next),
                        ),
                        Some(Control::Last) => (
                            state,
                            RouterAction::Forward(NavigationCommand::Last),
                        ),
                        Some(Control::GotoTrigger) => (
                            RouterState { modal_active: true, ..state },
                            RouterAction::OpenModal { spawn: !state.modal_active },
                        ),
                        None => (state, RouterAction::Ignore),
                    }
                }
            },
            InteractionEventView::ModalSubmit { user, custom_id, page } => {
                if state.modal_active && user == config.author && custom_id
                    == config.ids[MODAL_ID as int] {
                    (
                        RouterState { modal_active: false, ..state },
                        match page_number(page) {
                            Some(n) => RouterAction::Forward(NavigationCommand::GoTo(n)),
                            None => RouterAction::Acknowledge,
                        },
                    )
                } else {
                    (state, RouterAction::Ignore)
                }
            },
            InteractionEventView::ModalClosed => (
                RouterState { modal_active: false, ..state },
                RouterAction::Ignore,
            ),
            InteractionEventView::Timeout | InteractionEventView::Failed => (
                RouterState { modal_active: false, terminated: true },
                RouterAction::Terminate { abort_modal: state.modal_active },
            ),
        }
    }
}

/// The state after a sequence of events, handled from first to last.
pub open spec fn route_all(
    config: RouterConfig,
    state: RouterState,
    events: Seq<InteractionEventView>,
) -> RouterState
    decreases events.len(),
{
    if events.len() == 0 {
        state
    } else {
        route(config, route_all(config, state, events.drop_last()), events.last()).0
    }
}

/// How many of the form's sub-tasks are alive after a sequence of events: a
/// sub-task starts where the router says to spawn one, and ends with its
/// submission, with its own end, or when the router aborts it.
pub open spec fn live_modals(
    config: RouterConfig,
    state: RouterState,
    events: Seq<InteractionEventView>,
) -> int
    decreases events.len(),
{
    if events.len() == 0 {
        if state.modal_active {
            1
        } else {
            0
        }
    } else {
        let before = route_all(config, state, events.drop_last());
        let (after, action) = route(config, before, events.last());
        let started: int = if action == (RouterAction::OpenModal { spawn: true }) {
            1
        } else {
            0
        };
        let ended: int = if before.modal_active && !after.modal_active {
            1
        } else {
            0
        };
        live_modals(config, state, events.drop_last()) + started - ended
    }
}

/// Whatever events arrive, and however fast, at most one sub-task awaits the
/// form: the number alive is one while the router holds a form open and zero
/// otherwise.
pub proof fn lemma_at_most_one_modal(
    config: RouterConfig,
    state: RouterState,
    events: Seq<InteractionEventView>,
)
    ensures
        0 <= live_modals(config, state, events) <= 1,
        live_modals(config, state, events) == 1 <==> route_all(
            config,
            state,
            events,
        ).modal_active,
    decreases events.len(),
{
    if events.len() > 0 {
        lemma_at_most_one_modal(config, state, events.drop_last());
    }
}

/// A second "go to page" trigger while the form is open opens the form
/// again but starts no second sub-task.
pub proof fn lemma_second_trigger_spawns_nothing(
    config: RouterConfig,
    state: RouterState,
    first: InteractionEventView,
    second: InteractionEventView,
)
    requires
        route(config, state, first).1 is OpenModal,
        route(config, route(config, state, first).0, second).1 is OpenModal,
    ensures
        route(config, route(config, state, first).0, second).1 == (RouterAction::OpenModal {
            spawn: false,
        }),
{
}

/// A router that has stopped stays stopped and asks for nothing more.
pub proof fn lemma_terminated_is_final(
    config: RouterConfig,
    state: RouterState,
    event: InteractionEventView,
)
    requires
        state.terminated,
    ensures
        route(config, state, event) == (state, RouterAction::Ignore),
{
}

/// The interaction router of one session.
pub struct Router {
    author_id: u64,
    namespace: Vec<char>,
    custom_ids: Vec<String>,
    modal_active: bool,
    terminated: bool,
}

impl View for Router {
    type V = RouterView;

    closed spec fn view(&self) -> RouterView {
        RouterView {
            config: RouterConfig {
                author: self.author_id,
                namespace: self.namespace@,
                ids: self.custom_ids@.map_values(|id: String| id@),
            },
            state: RouterState { modal_active: self.modal_active, terminated: self.terminated },
        }
    }
}

/// Whether two strings hold the same characters.
fn same_text(a: &String, b: &String) -> (r: bool)
    ensures
        r == (a@ == b@),
{
    *a == *b
}

impl Router {
    /// A router holds the six control identifiers of its session.
    pub open spec fn wf(&self) -> bool {
        self@.config.ids.len() == 6
    }

    /// A listening router for the session with token `ctx_id`, its
    /// authorised user and its control identifiers.
    pub fn new(ctx_id: u64, author_id: u64, custom_ids: Vec<String>) -> (router: Router)
        requires
            custom_ids@.len() == 6,
        ensures
            router.wf(),
            router@ == (RouterView {
                config: RouterConfig {
                    author: author_id,
                    namespace: decimal(ctx_id as nat),
                    ids: custom_ids@.map_values(|id: String| id@),
                },
                state: RouterState { modal_active: false, terminated: false },
            }),
    {
        let token = decimal_string(ctx_id);
        Router {
            author_id,
            namespace: str_chars(token.as_str()),
            custom_ids,
            modal_active: false,
            terminated: false,
        }
    }

    pub fn is_terminated(&self) -> (r: bool)
        ensures
            r == self@.state.terminated,
    {
        self.terminated
    }

    /// Whether a sub-task awaits the form.
    pub fn is_modal_active(&self) -> (r: bool)
        ensures
            r == self@.state.modal_active,
    {
        self.modal_active
    }

    /// The identifier under which the form is submitted.
    pub fn modal_id(&self) -> (id: &String)
        requires
            self.wf(),
        ensures
            id@ == self@.config.ids[MODAL_ID as int],
    {
        &self.custom_ids[MODAL_ID]
    }

    /// Whether an event of `user` on the control `custom_id` belongs to this
    /// session.
    pub fn accepts(&self, user: u64, custom_id: &str) -> (r: bool)
        ensures
            r == qualifies(self@.config, user, custom_id@),
    {
        if user != self.author_id {
            return false;
        }
        let id = str_chars(custom_id);
        let len = self.namespace.len();
        let r = chars_start_with(&id, &self.namespace) && len < id.len() && id[len] == '_';
        proof {
            let ns = self.namespace@;
            if r {
                assert(scope(ns) =~= id@.subrange(0, ns.len() as int + 1));
            }
            if scope(ns).is_prefix_of(id@) {
                assert(scope(ns) =~= id@.subrange(0, ns.len() as int + 1));
                assert(ns =~= id@.subrange(0, ns.len() as int)) by {
                    assert forall|i: int| 0 <= i < ns.len() implies ns[i] == id@[i] by {
                        assert(scope(ns)[i] == ns[i]);
                    }
                }
                assert(scope(ns)[ns.len() as int] == '_');
            }
        }
        r
    }

    /// The control that `custom_id` names in this session, if any.
    pub fn control_of(&self, custom_id: &String) -> (r: Option<Control>)
        requires
            self.wf(),
        ensures
            r == classify(self@.config.ids, custom_id@),
    {
        if same_text(custom_id, &self.custom_ids[FIRST_ID]) {
            Some(Control::First)
        } else if same_text(custom_id, &self.custom_ids[PREV_ID]) {
            Some(Control::Previous)
        } else if same_text(custom_id, &self.custom_ids[NEXT_ID]) {
            Some(Control::Next)
        } else if same_text(custom_id, &self.custom_ids[LAST_ID]) {
            Some(Control::Last)
        } else if same_text(custom_id, &self.custom_ids[PAGE_ID]) {
            Some(Control::GotoTrigger)
        } else {
            None
        }
    }

    /// Handles one event: updates the router and says what the caller has to
    /// do.
    pub fn handle(&mut self, event: &InteractionEvent) -> (action: RouterAction)
        requires
            old(self).wf(),
        ensures
            final(self).wf(),
            final(self)@.config == old(self)@.config,
            (final(self)@.state, action) == route(old(self)@.config, old(self)@.state, event@),
    {
        if self.terminated {
            return RouterAction::Ignore;
        }
        match event {
            InteractionEvent::Component { user, custom_id } => {
                if !self.accepts(*user, custom_id.as_str()) {
                    return RouterAction::Ignore;
                }
                match self.control_of(custom_id) {
                    Some(Control::First) => RouterAction::Forward(NavigationCommand::First),
                    Some(Control::Previous) => RouterAction::Forward(NavigationCommand::Previous),
                    Some(Control::Next) => RouterAction::Forward(NavigationCommand::Next),
                    Some(Control::Last) => RouterAction::Forward(NavigationCommand::Last),
                    Some(Control::GotoTrigger) => {
                        let spawn = !self.modal_active;
                        self.modal_active = true;
                        RouterAction::OpenModal { spawn }
                    },
                    None => RouterAction::Ignore,
                }
            },
            InteractionEvent::ModalSubmit { user, custom_id, page } => {
                if self.modal_active && *user == self.author_id && same_text(
                    custom_id,
                    &self.custom_ids[MODAL_ID],
                ) {
                    self.modal_active = false;
                    match parse_page_number(page.as_str()) {
                        Some(n) => RouterAction::Forward(NavigationCommand::GoTo(n)),
                        None => RouterAction::Acknowledge,
                    }
                } else {
                    RouterAction::Ignore
                }
            },
            InteractionEvent::ModalClosed => {
                self.modal_active = false;
                RouterAction::Ignore
            },
            InteractionEvent::Timeout | InteractionEvent::Failed => {
                let abort_modal = self.modal_active;
                self.modal_active = false;
                self.terminated = true;
                RouterAction::Terminate { abort_modal }
            },
        }
    }
}

} // verus!
