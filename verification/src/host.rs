//! The decisions of the terminal host that runs PowerShell under a pseudo
//! terminal: what each message of the shell adapter, each key press and
//! each turn of the event loop does to the editing session, and which
//! requests, chords and bytes go to the shell. The loop itself, the pseudo
//! terminal and the screen model run around these steps.
use vstd::prelude::*;
use crate::config::{configured, Chord, Input, Key, KeyBindings};
use crate::input::{decimal_bytes, decimal_vec, event_input, translate, Event, InputView, KeyCode, KeyModifiers};
use crate::config::spec_configured;
use vstd::utf8::encode_utf8;
use crate::protocol::{is_utf16_boundary, utf16_boundary_at_byte, utf16_to_byte};
use crate::text::{
    byte_len, chars_contain, chars_eq, chars_of, has_char, is_alphanumeric, is_blank, is_blank_str, lower, lower_chars, push_char,
    str_eq, string_views, unicode_alphanumeric, utf8_len,
};
use crate::model::{InputContext, ShellCommand};

verus! {

/// Which configured shortcuts the shell adapter left public (a shortcut
/// that is not public is passed to the shell as an ordinary key).
#[derive(Debug, Clone, Copy, PartialEq, Eq, Structural)]
pub struct PublicKeys {
    pub trigger: bool,
    pub native: bool,
    pub details: bool,
    pub refresh: bool,
    pub reload: bool,
}

/// The editing session as the host tracks it between events.
#[derive(Debug, Clone, Copy)]
pub struct HostState {
    /// Bumped whenever the completion shown is no longer valid.
    pub revision: u64,
    /// The shell is at its prompt, reading a command line.
    pub prompt: bool,
    /// The shell adapter registered every handler the host relies on.
    pub ready: bool,
    /// The command line changed and should be asked for.
    pub dirty: bool,
    /// The user asked for completion explicitly.
    pub explicit: bool,
    /// The revision of a buffer query awaiting its reply.
    pub pending_query: Option<u64>,
    /// The menu was dismissed until the next edit.
    pub dismissed: bool,
    /// The command index was started.
    pub indexed: bool,
    /// The shell is in one of its own editing modes (history search).
    pub nested_edit: bool,
    /// The revision of an adapter request awaiting its reply.
    pub native_request: Option<u64>,
    pub native_ready: bool,
    pub metadata_ready: bool,
    /// The request in flight is a command metadata request.
    pub metadata_active: bool,
    /// A command's metadata is waiting to be asked for.
    pub metadata_pending: bool,
    pub paste_ready: bool,
    /// The number of the last paste handed to the shell.
    pub paste_sequence: u64,
    /// The menu shows the shell's own completion.
    pub native_menu: bool,
    pub menu_focus: bool,
    pub details: bool,
    pub detail_page: usize,
    pub searching: bool,
    pub enter_ready: bool,
    pub shift_enter_ready: bool,
    /// A native completion request is waiting to be sent.
    pub native_queued: bool,
    pub commands_pending: bool,
    pub commands_inflight: bool,
    pub commands_allowed: bool,
    /// New shortcuts wait to be registered with the shell.
    pub reset_pending: bool,
    pub history_ready: bool,
    pub history_pending: bool,
    pub adapter_diagnostic_shown: bool,
    /// The number of candidates in the menu, and the one selected.
    pub candidates: usize,
    pub selected: usize,
    pub selection_touched: bool,
    /// The revision an edit was sent under, until the shell answers it.
    pub pending_accept: Option<u64>,
    pub public_keys: PublicKeys,
    /// Completion opens by itself on a non-blank line.
    pub auto_trigger: bool,
    /// Up walks the shell's history unless the menu has the focus.
    pub up_arrow_history: bool,
    /// The most candidates a menu shows.
    pub max_results: usize,
}

/// A notice the host shows in place of the menu.
#[derive(Debug, Clone, Copy, PartialEq, Eq, Structural)]
pub enum Notice {
    AdapterUnavailable,
    PasteUnavailable,
    PasteTooLarge,
    NativeUnavailable,
    NativeFailed,
}

/// What a step asks the host loop to do, in order.
#[derive(Debug)]
pub enum HostAction {
    /// Cancel the completion work under way.
    CancelWork,
    /// Clear the notification shown.
    ClearNotification,
    /// Clear the menu's candidates.
    ClearCompletion,
    Notice(Notice),
    /// Show the adapter's error with this code.
    AdapterError(String),
    /// Reload what was learnt of accepted candidates.
    RefreshLearning,
    /// Drop cached data sources.
    InvalidateSources,
    /// Hand the new `PATH` to the command index, rescanning it when asked.
    Environment { refresh: bool },
    /// Start indexing commands.
    StartIndexing,
    /// Hand the shell's commands to the command index.
    ApplyCommands,
    /// Look whether the command being typed needs its metadata.
    ScheduleMetadata,
    /// The shell's command line and cursor (a byte offset).
    SetBuffer(String, usize),
    /// Ask for completion of the buffer under this revision.
    SendQuery(u64),
    /// Store the help page the shell sent.
    RecordHelp,
    /// The shell's history arrived.
    HistoryLoaded,
    /// Count the accepted candidate.
    LearnAccepted,
    /// Show the shell's own completion: line, cursor, replaced range (bytes).
    ShowNative { line: String, cursor: usize, start: usize, end: usize },
    /// Send the host's private key chord with this suffix.
    Chord(char),
    /// Write these bytes to the shell.
    Write(Vec<u8>),
    /// Accept the selected candidate.
    Accept,
    /// Resize the pseudo terminal to these columns and rows.
    Resize(u16, u16),
    /// Hand this text to the shell as paste number `sequence`.
    StorePaste { sequence: u64, text: String },
    /// Rescan the commands and register the shortcuts anew.
    RefreshCommands,
    /// Reload the configuration.
    Reload,
    /// Stop the host: the paste numbers ran out.
    Stop,
    /// Drop the notice not yet shown.
    DropNotice,
    /// A new prompt: forget the command line, its context and the commands
    /// whose metadata was asked for, and take the prompt's working
    /// directory and environment.
    PromptReady,
}

/// The value of a [`HostAction`].
pub enum HostActionView {
    CancelWork,
    ClearNotification,
    ClearCompletion,
    Notice(Notice),
    AdapterError(Seq<char>),
    RefreshLearning,
    InvalidateSources,
    Environment { refresh: bool },
    StartIndexing,
    ApplyCommands,
    ScheduleMetadata,
    SetBuffer(Seq<char>, usize),
    SendQuery(u64),
    RecordHelp,
    HistoryLoaded,
    LearnAccepted,
    ShowNative { line: Seq<char>, cursor: usize, start: usize, end: usize },
    Chord(char),
    Write(Seq<u8>),
    Accept,
    Resize(u16, u16),
    StorePaste { sequence: u64, text: Seq<char> },
    RefreshCommands,
    Reload,
    Stop,
    DropNotice,
    PromptReady,
}

impl View for HostAction {
    type V = HostActionView;

    open spec fn view(&self) -> HostActionView {
        match self {
            HostAction::CancelWork => HostActionView::CancelWork,
            HostAction::ClearNotification => HostActionView::ClearNotification,
            HostAction::ClearCompletion => HostActionView::ClearCompletion,
            HostAction::Notice(n) => HostActionView::Notice(*n),
            HostAction::AdapterError(c) => HostActionView::AdapterError(c@),
            HostAction::RefreshLearning => HostActionView::RefreshLearning,
            HostAction::InvalidateSources => HostActionView::InvalidateSources,
            HostAction::Environment { refresh } => HostActionView::Environment { refresh: *refresh },
            HostAction::StartIndexing => HostActionView::StartIndexing,
            HostAction::ApplyCommands => HostActionView::ApplyCommands,
            HostAction::ScheduleMetadata => HostActionView::ScheduleMetadata,
            HostAction::SetBuffer(l, c) => HostActionView::SetBuffer(l@, *c),
            HostAction::SendQuery(r) => HostActionView::SendQuery(*r),
            HostAction::RecordHelp => HostActionView::RecordHelp,
            HostAction::HistoryLoaded => HostActionView::HistoryLoaded,
            HostAction::LearnAccepted => HostActionView::LearnAccepted,
            HostAction::ShowNative { line, cursor, start, end } =>
                HostActionView::ShowNative { line: line@, cursor: *cursor, start: *start, end: *end },
            HostAction::Chord(c) => HostActionView::Chord(*c),
            HostAction::Write(b) => HostActionView::Write(b@),
            HostAction::Accept => HostActionView::Accept,
            HostAction::Resize(c, r) => HostActionView::Resize(*c, *r),
            HostAction::StorePaste { sequence, text } => HostActionView::StorePaste { sequence: *sequence, text: text@ },
            HostAction::RefreshCommands => HostActionView::RefreshCommands,
            HostAction::Reload => HostActionView::Reload,
            HostAction::Stop => HostActionView::Stop,
            HostAction::DropNotice => HostActionView::DropNotice,
            HostAction::PromptReady => HostActionView::PromptReady,
        }
    }
}

pub open spec fn action_views(v: Seq<HostAction>) -> Seq<HostActionView> {
    v.map_values(|a: HostAction| a@)
}

/// The session once the completion shown is given up: a new revision and
/// an empty menu.
pub open spec fn invalidated(s: HostState) -> HostState {
    HostState {
        revision: (s.revision + 1) as u64,
        candidates: 0,
        selected: 0,
        selection_touched: false,
        menu_focus: false,
        details: false,
        native_menu: false,
        ..s
    }
}

/// A selection inside the menu: none in an empty menu.
#[verifier::opaque]
pub open spec fn menu_wf(candidates: usize, selected: usize) -> bool {
    &&& candidates == 0 ==> selected == 0
    &&& candidates > 0 ==> selected < candidates
}

/// The session's own invariant: a selection inside the menu.
pub open spec fn host_wf(s: HostState) -> bool {
    menu_wf(s.candidates, s.selected)
}

/// A request the loop sends to the shell adapter after its events.
#[derive(Debug, Clone, Copy, PartialEq, Eq, Structural)]
pub enum HostRequest {
    /// The shell's history, for the workbench.
    History,
    /// The shell's own completion.
    Native,
    /// The command line and cursor.
    Buffer,
    /// Register the shortcuts anew and send the commands again.
    CommandsReset,
    /// The metadata of the command being typed.
    Metadata,
    /// The next batch of the shell's commands.
    CommandsNext,
}

/// No request is awaiting its reply.
pub open spec fn idle(s: HostState) -> bool {
    s.pending_query is None && s.native_request is None
}

/// The one request, if any, the loop sends after its events, in order of
/// priority, and the session after sending it. Nothing is sent away from
/// the prompt or while another request awaits its reply.
pub open spec fn spec_next_request(s: HostState) -> (HostState, Option<HostRequest>) {
    if s.history_pending && s.history_ready && s.ready && s.prompt && idle(s) && !s.commands_inflight {
        (HostState { native_request: Some(s.revision), ..s }, Some(HostRequest::History))
    } else if s.native_queued && !s.commands_inflight && s.ready && s.prompt && idle(s) {
        (HostState { native_queued: false, native_request: Some(s.revision), dirty: false, ..s }, Some(HostRequest::Native))
    } else if s.dirty && s.ready && s.prompt && idle(s) {
        (HostState { pending_query: Some(s.revision), dirty: false, ..s }, Some(HostRequest::Buffer))
    } else if s.reset_pending && !s.commands_inflight && s.ready && s.prompt && !s.nested_edit && idle(s) {
        (HostState { commands_inflight: true, reset_pending: false, commands_pending: false, ..s }, Some(HostRequest::CommandsReset))
    } else if s.metadata_pending && !s.commands_inflight && s.metadata_ready && s.prompt && !s.nested_edit && idle(s) {
        (HostState { metadata_pending: false, metadata_active: true, native_request: Some(s.revision), ..s }, Some(HostRequest::Metadata))
    } else if s.commands_pending && s.commands_allowed && s.ready && s.prompt && !s.nested_edit && idle(s) {
        (HostState { commands_inflight: true, commands_pending: false, ..s }, Some(HostRequest::CommandsNext))
    } else {
        (s, None)
    }
}

impl HostState {
    /// The session when the host starts: no prompt yet, nothing ready.
    #[verifier::spinoff_prover]
    pub fn new(auto_trigger: bool, up_arrow_history: bool, max_results: usize) -> (r: HostState)
        ensures
            host_wf(r),
            r.revision == 0,
            !r.prompt && !r.ready && !r.dirty && !r.explicit && !r.dismissed && !r.indexed,
            r.pending_query is None && r.native_request is None && r.pending_accept is None,
            !r.nested_edit && !r.native_ready && !r.metadata_ready && !r.metadata_active && !r.metadata_pending,
            !r.paste_ready && r.paste_sequence == 0 && !r.native_menu && !r.menu_focus && !r.details,
            r.detail_page == 0 && !r.searching && !r.enter_ready && !r.shift_enter_ready && !r.native_queued,
            !r.commands_pending && !r.commands_inflight && !r.commands_allowed && !r.reset_pending,
            !r.history_ready && !r.history_pending && !r.adapter_diagnostic_shown,
            r.candidates == 0 && r.selected == 0 && !r.selection_touched,
            r.public_keys == (PublicKeys { trigger: true, native: true, details: true, refresh: true, reload: true }),
            r.auto_trigger == auto_trigger,
            r.up_arrow_history == up_arrow_history,
            r.max_results == max_results,
    {
        reveal(menu_wf);
        HostState {
            revision: 0,
            prompt: false,
            ready: false,
            dirty: false,
            explicit: false,
            pending_query: None,
            dismissed: false,
            indexed: false,
            nested_edit: false,
            native_request: None,
            native_ready: false,
            metadata_ready: false,
            metadata_active: false,
            metadata_pending: false,
            paste_ready: false,
            paste_sequence: 0,
            native_menu: false,
            menu_focus: false,
            details: false,
            detail_page: 0,
            searching: false,
            enter_ready: false,
            shift_enter_ready: false,
            native_queued: false,
            commands_pending: false,
            commands_inflight: false,
            commands_allowed: false,
            reset_pending: false,
            history_ready: false,
            history_pending: false,
            adapter_diagnostic_shown: false,
            candidates: 0,
            selected: 0,
            selection_touched: false,
            pending_accept: None,
            public_keys: PublicKeys { trigger: true, native: true, details: true, refresh: true, reload: true },
            auto_trigger,
            up_arrow_history,
            max_results,
        }
    }

    /// Give up the completion shown.
    #[verifier::spinoff_prover]
    fn invalidate(&mut self, actions: &mut Vec<HostAction>)
        requires
            old(self).revision < u64::MAX,
        ensures
            *final(self) == invalidated(*old(self)),
            host_wf(*final(self)),
            action_views(final(actions)@) == action_views(old(actions)@).push(HostActionView::ClearCompletion),
    {
        reveal(menu_wf);
        let s = *self;
        *self = HostState {
            revision: s.revision + 1,
            candidates: 0,
            selected: 0,
            selection_touched: false,
            menu_focus: false,
            details: false,
            native_menu: false,
            ..s
        };
        actions.push(HostAction::ClearCompletion);
        assert(action_views(actions@) =~= action_views(old(actions)@).push(HostActionView::ClearCompletion));
    }

    /// The request the loop sends after its events, if any.
    #[verifier::spinoff_prover]
    pub fn next_request(&mut self) -> (r: Option<HostRequest>)
        ensures
            (*final(self), r) == spec_next_request(*old(self)),
    {
        let s = *self;
        let idle = s.pending_query.is_none() && s.native_request.is_none();
        if s.history_pending && s.history_ready && s.ready && s.prompt && idle && !s.commands_inflight {
            *self = HostState { native_request: Some(s.revision), ..s };
            Some(HostRequest::History)
        } else if s.native_queued && !s.commands_inflight && s.ready && s.prompt && idle {
            *self = HostState { native_queued: false, native_request: Some(s.revision), dirty: false, ..s };
            Some(HostRequest::Native)
        } else if s.dirty && s.ready && s.prompt && idle {
            *self = HostState { pending_query: Some(s.revision), dirty: false, ..s };
            Some(HostRequest::Buffer)
        } else if s.reset_pending && !s.commands_inflight && s.ready && s.prompt && !s.nested_edit && idle {
            *self = HostState { commands_inflight: true, reset_pending: false, commands_pending: false, ..s };
            Some(HostRequest::CommandsReset)
        } else if s.metadata_pending && !s.commands_inflight && s.metadata_ready && s.prompt && !s.nested_edit && idle {
            *self = HostState { metadata_pending: false, metadata_active: true, native_request: Some(s.revision), ..s };
            Some(HostRequest::Metadata)
        } else if s.commands_pending && s.commands_allowed && s.ready && s.prompt && !s.nested_edit && idle {
            *self = HostState { commands_inflight: true, commands_pending: false, ..s };
            Some(HostRequest::CommandsNext)
        } else {
            None
        }
    }
}

/// One request at a time, and only at the prompt: away from the prompt,
/// or while a buffer query or an adapter request awaits its reply, the
/// loop sends nothing and the session is left as it was.
pub proof fn law_one_request_at_a_time(s: HostState)
    requires
        !s.prompt || !idle(s),
    ensures
        spec_next_request(s) == (s, None::<HostRequest>),
{
}

/// A request sent is remembered: after a history, native or metadata
/// request the session awaits an adapter reply, after a buffer request a
/// buffer reply, so the next turn sends nothing until it comes.
pub proof fn law_request_is_awaited(s: HostState)
    requires
        spec_next_request(s).1 matches Some(q) && q != HostRequest::CommandsReset && q != HostRequest::CommandsNext,
    ensures
        !idle(spec_next_request(s).0),
        spec_next_request(spec_next_request(s).0).1 is None,
{
}


/// A message of the shell adapter, with the fields the host reads.
#[derive(Debug)]
pub enum HostMessage {
    /// What the adapter registered: its readiness flags, the key handlers
    /// it installed, and which shortcuts it left public.
    Capabilities {
        ready: bool,
        psreadline: bool,
        buffer: bool,
        apply: bool,
        commands: bool,
        enter: bool,
        shift_enter: bool,
        native: bool,
        paste: bool,
        metadata: bool,
        history: bool,
        public_keys: PublicKeys,
    },
    /// The shell starts drawing its prompt.
    PromptStart,
    /// The prompt is drawn, with the shell's `PATH` and `PATHEXT` when it
    /// sent both.
    PromptEnd { path: Option<(String, String)> },
    /// The command line is executed.
    Execute,
    /// The shell edits on; `continuation` when it reads a continued line.
    Editing { continuation: bool },
    /// A batch of the shell's commands: whether it completes the snapshot,
    /// or nothing when the batch was rejected.
    Commands { received: Option<bool> },
    /// The command line and the cursor in UTF-16 code units.
    Buffer { line: Option<String>, cursor: Option<usize> },
    /// A command's metadata, answering the request numbered `request`.
    CommandMetadata { request: Option<u64> },
    /// The shell's history, answering the request numbered `request`.
    History { request: Option<u64> },
    /// Whether the shell applied the edit numbered `request`.
    EditResult { request: Option<u64>, applied: bool },
    /// The shell's own completion: status, line, cursor and replaced range
    /// in UTF-16 code units, and how many candidates came (nothing when
    /// they could not be read).
    NativeCompletion {
        request: Option<u64>,
        ok: bool,
        line: Option<String>,
        cursor: Option<usize>,
        start: Option<usize>,
        end: Option<usize>,
        candidates: Option<usize>,
    },
    /// An adapter error with its code.
    Error { code: String },
    /// Anything else.
    Other,
}

/// The byte offset of a UTF-16 offset of `s`, when it is a boundary.
pub open spec fn utf16_byte(s: Seq<char>, u: int) -> Option<usize> {
    if is_utf16_boundary(s, u) {
        Some(choose|b: usize| utf16_boundary_at_byte(s, u, b as int))
    } else {
        None
    }
}

pub open spec fn env_view(e: Option<(String, String)>) -> Option<(Seq<char>, Seq<char>)> {
    match e {
        Some((p, x)) => Some((p@, x@)),
        None => None,
    }
}

/// The adapter error codes after which the adapter cannot serve the host.
pub open spec fn disables_adapter(code: Seq<char>) -> bool {
    code == "buffer_unavailable"@ || code == "key_chord_collision"@ || code == "key_handler_registration_failed"@
}

/// A buffer reply: it answers the query in flight (or, with none, the
/// current revision) and is taken only under the current revision at the
/// prompt. Completion is asked for unless the menu was dismissed, when
/// asked for explicitly or, with automatic completion, on a non-blank line.
#[verifier::opaque]
pub open spec fn after_buffer(s: HostState, line: Option<String>, cursor: Option<usize>) -> (HostState, Seq<HostActionView>) {
    let rev = match s.pending_query { Some(r) => r, None => s.revision };
    let s1 = HostState { pending_query: None, ..s };
    if rev != s.revision || !s.prompt {
        (s1, Seq::empty())
    } else {
        match (line, cursor) {
            (Some(l), Some(c)) => match utf16_byte(l@, c as int) {
                Some(b) => {
                    let ask = !s.dismissed && (s.explicit || (s.auto_trigger && !is_blank(l@)));
                    (HostState { explicit: false, ..s1 },
                        seq![HostActionView::SetBuffer(l@, b)] + if ask {
                            seq![HostActionView::ScheduleMetadata, HostActionView::SendQuery(rev)]
                        } else {
                            Seq::empty()
                        })
                },
                None => (s1, Seq::empty()),
            },
            _ => (s1, Seq::empty()),
        }
    }
}

/// The shell's own completion arriving: taken only as the answer to the
/// adapter request in flight; shown only under the current revision at the
/// prompt, with a readable line, cursor and ordered range, and at most the
/// menu's size of candidates.
#[verifier::opaque]
pub open spec fn after_native(
    s: HostState,
    request: Option<u64>,
    ok: bool,
    line: Option<String>,
    cursor: Option<usize>,
    start: Option<usize>,
    end: Option<usize>,
    candidates: Option<usize>,
) -> (HostState, Seq<HostActionView>) {
    if request != s.native_request {
        (s, Seq::empty())
    } else {
        let s1 = HostState { native_request: None, pending_query: None, ..s };
        if request != Some(s.revision) || !s.prompt {
            (HostState { dirty: s.prompt, ..s1 }, Seq::empty())
        } else if !ok {
            (s1, seq![HostActionView::Notice(Notice::NativeFailed)])
        } else {
            match (line, cursor, start, end, candidates) {
                (Some(l), Some(c), Some(a), Some(z), Some(n)) => {
                    match (utf16_byte(l@, c as int), utf16_byte(l@, a as int), utf16_byte(l@, z as int)) {
                        (Some(cb), Some(ab), Some(zb)) => if ab <= zb {
                            (HostState {
                                candidates: if n < s.max_results { n } else { s.max_results },
                                selected: 0,
                                native_menu: true,
                                menu_focus: true,
                                dismissed: false,
                                ..s1
                            }, seq![HostActionView::ShowNative { line: l@, cursor: cb, start: ab, end: zb }])
                        } else {
                            (s1, Seq::empty())
                        },
                        _ => (s1, Seq::empty()),
                    }
                },
                _ => (s1, Seq::empty()),
            }
        }
    }
}

/// The prompt drawn: the shell reads a new command line. The adapter's
/// commands are asked for again when it is ready; the first ready prompt
/// starts the command index; a changed `PATH` goes to the index, which
/// rescans when it already ran; an adapter that is not ready is reported
/// once.
#[verifier::opaque]
pub open spec fn after_prompt_end(s: HostState, env: Option<(Seq<char>, Seq<char>)>, path: Option<(String, String)>)
    -> (HostState, Option<(Seq<char>, Seq<char>)>, Seq<HostActionView>)
{
    let warn = !s.ready && !s.adapter_diagnostic_shown;
    let changed = env_view(path) != env;
    let start = !s.indexed && s.ready;
    (HostState {
        native_queued: false,
        prompt: true,
        commands_allowed: true,
        commands_pending: s.ready || start,
        commands_inflight: false,
        metadata_pending: false,
        adapter_diagnostic_shown: s.adapter_diagnostic_shown || warn,
        native_request: None,
        indexed: s.indexed || start,
        ..s
    },
    if changed { env_view(path) } else { env },
    seq![HostActionView::RefreshLearning, HostActionView::InvalidateSources]
        + (if warn { seq![HostActionView::Notice(Notice::AdapterUnavailable)] } else { Seq::empty() })
        + seq![HostActionView::PromptReady]
        + (if changed { seq![HostActionView::Environment { refresh: s.indexed }] } else { Seq::empty() })
        + (if start { seq![HostActionView::StartIndexing] } else { Seq::empty() }))
}

/// An adapter error: it is shown, the menu is given up, and after an
/// error that leaves the adapter unable to serve, the adapter is no longer
/// ready.
#[verifier::opaque]
pub open spec fn after_error(s: HostState, code: Seq<char>) -> (HostState, Seq<HostActionView>) {
    (
        HostState {
            ready: s.ready && !disables_adapter(code),
            ..invalidated(HostState { pending_query: None, dirty: false, dismissed: false, ..s })
        },
        seq![HostActionView::AdapterError(code), HostActionView::ClearCompletion],
    )
}

/// The adapter's capabilities: `ready` when it registered all it must.
#[verifier::opaque]
pub open spec fn after_capabilities(
    s: HostState,
    ready: bool,
    enter: bool,
    shift_enter: bool,
    native: bool,
    paste: bool,
    metadata: bool,
    history: bool,
    public_keys: PublicKeys,
) -> (HostState, Seq<HostActionView>) {
    (HostState {
        public_keys,
        enter_ready: enter,
        shift_enter_ready: shift_enter,
        native_ready: native,
        metadata_ready: metadata,
        history_ready: history,
        paste_ready: paste,
        ready,
        ..s
    }, if ready { seq![HostActionView::DropNotice] } else { Seq::empty() })
}

/// The prompt starts: the menu is given up and nothing is awaited.
#[verifier::opaque]
pub open spec fn after_prompt_start(s: HostState) -> HostState {
    HostState { pending_query: None, dirty: false, ..invalidated(HostState { prompt: false, ..s }) }
}

/// The command line is executed: the menu is given up, and no request or
/// command batch is awaited.
#[verifier::opaque]
pub open spec fn after_execute(s: HostState) -> HostState {
    HostState {
        native_request: None,
        commands_pending: false,
        commands_inflight: false,
        metadata_pending: false,
        ..invalidated(HostState { prompt: false, pending_query: None, dirty: false, ..s })
    }
}

/// Continued editing: the shell reads on at its prompt, and the line
/// will be asked for.
#[verifier::opaque]
pub open spec fn after_editing(s: HostState, continuation: bool) -> HostState {
    if continuation {
        HostState { prompt: true, native_request: None, pending_query: None, dirty: true, dismissed: false, ..s }
    } else {
        s
    }
}

/// A batch of commands: the next is asked for until the snapshot is
/// complete.
#[verifier::opaque]
pub open spec fn after_commands(s: HostState, received: Option<bool>) -> (HostState, Seq<HostActionView>) {
    (
        HostState {
            commands_inflight: false,
            commands_pending: if received is Some { !received->0 } else { s.commands_pending },
            ..s
        },
        if received is Some { seq![HostActionView::ApplyCommands, HostActionView::ScheduleMetadata] } else { Seq::empty() },
    )
}

/// Command metadata: it answers the request in flight when the numbers
/// agree.
#[verifier::opaque]
pub open spec fn after_metadata(s: HostState, request: Option<u64>) -> HostState {
    if request == s.native_request { HostState { native_request: None, metadata_active: false, ..s } } else { s }
}

/// The shell's history: it answers the request in flight when the numbers
/// agree, and the workbench no longer waits for it.
#[verifier::opaque]
pub open spec fn after_history(s: HostState, request: Option<u64>) -> HostState {
    HostState {
        native_request: if request == s.native_request { None } else { s.native_request },
        history_pending: false,
        ..s
    }
}

/// The answer to an edit: only the edit awaited counts. Applied, it is
/// learnt and completion reopens; refused, the line is asked for again.
#[verifier::opaque]
pub open spec fn after_edit_result(s: HostState, request: Option<u64>, applied: bool) -> (HostState, Seq<HostActionView>) {
    match s.pending_accept {
        Some(p) => if request == Some(p) {
            if applied {
                (HostState { pending_accept: None, dismissed: false, explicit: true, ..s }, seq![HostActionView::LearnAccepted])
            } else {
                (HostState { pending_accept: None, pending_query: None, dirty: true, ..s }, Seq::empty())
            }
        } else {
            (s, Seq::empty())
        },
        None => (s, Seq::empty()),
    }
}

/// What an adapter message does to the session and to the shell's
/// environment (`PATH`, `PATHEXT`), and what it asks the loop to do.
#[verifier::opaque]
pub open spec fn spec_message(s: HostState, env: Option<(Seq<char>, Seq<char>)>, m: HostMessage)
    -> (HostState, Option<(Seq<char>, Seq<char>)>, Seq<HostActionView>)
{
    match m {
        HostMessage::Capabilities {
            ready, psreadline, buffer, apply, commands, enter, shift_enter, native, paste, metadata, history, public_keys,
        } => {
            let (s2, a) = after_capabilities(s, ready && psreadline && buffer && apply && commands,
                enter, shift_enter, native, paste, metadata, history, public_keys);
            (s2, env, a)
        },
        HostMessage::PromptStart => (after_prompt_start(s), env,
            seq![HostActionView::ClearNotification, HostActionView::CancelWork, HostActionView::ClearCompletion]),
        HostMessage::PromptEnd { path } => after_prompt_end(s, env, path),
        HostMessage::Execute => (after_execute(s), env, seq![HostActionView::CancelWork, HostActionView::ClearCompletion]),
        HostMessage::Editing { continuation } => (after_editing(s, continuation), env, Seq::empty()),
        HostMessage::Commands { received } => {
            let (s2, a) = after_commands(s, received);
            (s2, env, a)
        },
        HostMessage::Buffer { line, cursor } => {
            let (s2, acts) = after_buffer(s, line, cursor);
            (s2, env, acts)
        },
        HostMessage::CommandMetadata { request } => (after_metadata(s, request), env, seq![HostActionView::RecordHelp]),
        HostMessage::History { request } => (after_history(s, request), env, seq![HostActionView::HistoryLoaded]),
        HostMessage::EditResult { request, applied } => {
            let (s2, a) = after_edit_result(s, request, applied);
            (s2, env, a)
        },
        HostMessage::NativeCompletion { request, ok, line, cursor, start, end, candidates } => {
            let (s2, acts) = after_native(s, request, ok, line, cursor, start, end, candidates);
            (s2, env, acts)
        },
        HostMessage::Error { code } => {
            let (s2, a) = after_error(s, code@);
            (s2, env, a)
        },
        HostMessage::Other => (s, env, Seq::empty()),
    }
}

/// The byte offset of a UTF-16 offset of `line`, when it is a boundary.
#[verifier::spinoff_prover]
fn byte_offset(line: &str, u: usize) -> (r: Option<usize>)
    ensures
        r == utf16_byte(line@, u as int),
{
    let r = utf16_to_byte(line, u);
    match r {
        Some(b) => {
            proof {
                let c = choose|b: usize| utf16_boundary_at_byte(line@, u as int, b as int);
                crate::protocol::lemma_utf16_byte_unique(line@, u as int, b as int, c as int);
            }
            r
        },
        None => r,
    }
}

#[verifier::spinoff_prover]
fn string_eq_opt(a: &Option<(String, String)>, b: &Option<(String, String)>) -> (r: bool)
    ensures
        r == (env_view(*a) == env_view(*b)),
{
    match (a, b) {
        (Some((p, x)), Some((q, y))) => str_eq(p.as_str(), q.as_str()) && str_eq(x.as_str(), y.as_str()),
        (None, None) => true,
        _ => false,
    }
}

#[verifier::spinoff_prover]
fn push_action(actions: &mut Vec<HostAction>, a: HostAction)
    ensures
        action_views(final(actions)@) == action_views(old(actions)@).push(a@),
{
    actions.push(a);
    assert(action_views(actions@) =~= action_views(old(actions)@).push(a@));
}

impl HostState {
    #[verifier::spinoff_prover]
    fn buffer_reply(&mut self, line: Option<String>, cursor: Option<usize>, actions: &mut Vec<HostAction>)
        ensures
            *final(self) == after_buffer(*old(self), line, cursor).0,
            action_views(final(actions)@) == action_views(old(actions)@) + after_buffer(*old(self), line, cursor).1,
            final(self).candidates == old(self).candidates,
            final(self).selected == old(self).selected,
    {
        reveal(after_buffer);
        let ghost a0 = action_views(actions@);
        assert(a0 + Seq::<HostActionView>::empty() =~= a0);
        let s = *self;
        let rev = match s.pending_query { Some(r) => r, None => s.revision };
        *self = HostState { pending_query: None, ..s };
        if rev != s.revision || !s.prompt {
            return;
        }
        if line.is_none() || cursor.is_none() {
            return;
        }
        let l = line.unwrap();
        let c = cursor.unwrap();
        let ghost lv = l@;
        let b = match byte_offset(l.as_str(), c) {
            Some(b) => b,
            None => { return; },
        };
        let ask = !s.dismissed && (s.explicit || (s.auto_trigger && !is_blank_str(l.as_str())));
        *self = HostState { explicit: false, pending_query: None, ..s };
        push_action(actions, HostAction::SetBuffer(l, b));
        if ask {
            push_action(actions, HostAction::ScheduleMetadata);
            push_action(actions, HostAction::SendQuery(rev));
            assert(action_views(actions@) =~= a0 + (seq![HostActionView::SetBuffer(lv, b)]
                + seq![HostActionView::ScheduleMetadata, HostActionView::SendQuery(rev)]));
        } else {
            assert(action_views(actions@) =~= a0 + (seq![HostActionView::SetBuffer(lv, b)] + Seq::<HostActionView>::empty()));
        }
    }

    #[verifier::spinoff_prover]
    fn native_reply(
        &mut self,
        request: Option<u64>,
        ok: bool,
        line: Option<String>,
        cursor: Option<usize>,
        start: Option<usize>,
        end: Option<usize>,
        candidates: Option<usize>,
        actions: &mut Vec<HostAction>,
    )
        requires
            host_wf(*old(self)),
        ensures
            *final(self) == after_native(*old(self), request, ok, line, cursor, start, end, candidates).0,
            action_views(final(actions)@)
                == action_views(old(actions)@) + after_native(*old(self), request, ok, line, cursor, start, end, candidates).1,
            host_wf(*final(self)),
    {
        reveal(after_native);
        reveal(menu_wf);
        let ghost a0 = action_views(actions@);
        assert(a0 + Seq::<HostActionView>::empty() =~= a0);
        let s = *self;
        if request != s.native_request {
            return;
        }
        let s1 = HostState { native_request: None, pending_query: None, ..s };
        *self = s1;
        if request != Some(s.revision) || !s.prompt {
            *self = HostState { dirty: s.prompt, ..s1 };
            return;
        }
        if !ok {
            push_action(actions, HostAction::Notice(Notice::NativeFailed));
            assert(action_views(actions@) =~= a0 + seq![HostActionView::Notice(Notice::NativeFailed)]);
            return;
        }
        match (line, cursor, start, end, candidates) {
            (Some(l), Some(c), Some(a), Some(z), Some(n)) => {
                let cb = byte_offset(l.as_str(), c);
                let ab = byte_offset(l.as_str(), a);
                let zb = byte_offset(l.as_str(), z);
                match (cb, ab, zb) {
                    (Some(cb), Some(ab), Some(zb)) => {
                        if ab <= zb {
                            let ghost lv = l@;
                            *self = HostState {
                                candidates: if n < s.max_results { n } else { s.max_results },
                                selected: 0,
                                native_menu: true,
                                menu_focus: true,
                                dismissed: false,
                                ..s1
                            };
                            push_action(actions, HostAction::ShowNative { line: l, cursor: cb, start: ab, end: zb });
                            assert(action_views(actions@)
                                =~= a0 + seq![HostActionView::ShowNative { line: lv, cursor: cb, start: ab, end: zb }]);
                        }
                    },
                    _ => {},
                }
            },
            _ => {},
        }
    }

    #[verifier::spinoff_prover]
    #[verifier::rlimit(100)]
    fn prompt_end(&mut self, environment: &mut Option<(String, String)>, path: Option<(String, String)>, actions: &mut Vec<HostAction>)
        requires
            host_wf(*old(self)),
            old(actions)@.len() == 0,
        ensures
            host_wf(*final(self)),
            *final(self) == after_prompt_end(*old(self), env_view(*old(environment)), path).0,
            env_view(*final(environment)) == after_prompt_end(*old(self), env_view(*old(environment)), path).1,
            action_views(final(actions)@) == after_prompt_end(*old(self), env_view(*old(environment)), path).2,
    {
        reveal(after_prompt_end);
        let ghost e0 = env_view(*environment);
        let s = *self;
        assert(action_views(actions@) =~= Seq::<HostActionView>::empty());
        let warn = !s.ready && !s.adapter_diagnostic_shown;
        let start = !s.indexed && s.ready;
        let changed = !string_eq_opt(&path, environment);
        let ghost pv = env_view(path);
        *self = HostState {
            native_queued: false,
            prompt: true,
            commands_allowed: true,
            commands_pending: s.ready || start,
            commands_inflight: false,
            metadata_pending: false,
            adapter_diagnostic_shown: s.adapter_diagnostic_shown || warn,
            native_request: None,
            indexed: s.indexed || start,
            ..s
        };
        push_action(actions, HostAction::RefreshLearning);
        push_action(actions, HostAction::InvalidateSources);
        let ghost a1 = action_views(actions@);
        if warn {
            push_action(actions, HostAction::Notice(Notice::AdapterUnavailable));
        }
        let ghost a2 = action_views(actions@);
        push_action(actions, HostAction::PromptReady);
        let ghost a3 = action_views(actions@);
        if changed {
            *environment = path;
            push_action(actions, HostAction::Environment { refresh: s.indexed });
        }
        let ghost a4 = action_views(actions@);
        if start {
            push_action(actions, HostAction::StartIndexing);
        }
        assert(a1 =~= seq![HostActionView::RefreshLearning, HostActionView::InvalidateSources]);
        assert(a2 =~= a1 + (if warn { seq![HostActionView::Notice(Notice::AdapterUnavailable)] } else { Seq::empty() }));
        assert(a3 =~= a2 + seq![HostActionView::PromptReady]);
        assert(a4 =~= a3 + (if changed { seq![HostActionView::Environment { refresh: s.indexed }] } else { Seq::empty() }));
        assert(action_views(actions@) =~= a4 + (if start { seq![HostActionView::StartIndexing] } else { Seq::empty() }));
        assert(env_view(*environment) == if changed { pv } else { e0 });
    }

    #[verifier::spinoff_prover]
    fn error(&mut self, code: String, actions: &mut Vec<HostAction>)
        requires
            old(self).revision < u64::MAX,
            old(actions)@.len() == 0,
        ensures
            host_wf(*final(self)),
            *final(self) == after_error(*old(self), code@).0,
            action_views(final(actions)@) == after_error(*old(self), code@).1,
    {
        reveal(after_error);
        proof {
            reveal_strlit("buffer_unavailable");
            reveal_strlit("key_chord_collision");
            reveal_strlit("key_handler_registration_failed");
        }
        let s = *self;
        let off = str_eq(code.as_str(), "buffer_unavailable") || str_eq(code.as_str(), "key_chord_collision")
            || str_eq(code.as_str(), "key_handler_registration_failed");
        let ghost cv = code@;
        push_action(actions, HostAction::AdapterError(code));
        *self = HostState { pending_query: None, dirty: false, dismissed: false, ..s };
        self.invalidate(actions);
        let t = *self;
        *self = HostState { ready: s.ready && !off, ..t };
        assert(action_views(actions@) =~= seq![HostActionView::AdapterError(cv), HostActionView::ClearCompletion]);
    }

    #[verifier::spinoff_prover]
    fn capabilities(
        &mut self,
        ready: bool,
        enter: bool,
        shift_enter: bool,
        native: bool,
        paste: bool,
        metadata: bool,
        history: bool,
        public_keys: PublicKeys,
    ) -> (r: Vec<HostAction>)
        requires
            host_wf(*old(self)),
        ensures
            host_wf(*final(self)),
            *final(self) == after_capabilities(*old(self), ready, enter, shift_enter, native, paste, metadata, history, public_keys).0,
            action_views(r@) == after_capabilities(*old(self), ready, enter, shift_enter, native, paste, metadata, history, public_keys).1,
    {
        reveal(after_capabilities);
        let s = *self;
        *self = HostState {
            public_keys,
            enter_ready: enter,
            shift_enter_ready: shift_enter,
            native_ready: native,
            metadata_ready: metadata,
            history_ready: history,
            paste_ready: paste,
            ready,
            ..s
        };
        let mut actions: Vec<HostAction> = Vec::new();
        if ready {
            actions.push(HostAction::DropNotice);
        }
        assert(action_views(actions@) =~= if ready { seq![HostActionView::DropNotice] } else { Seq::empty() });
        actions
    }

    #[verifier::spinoff_prover]
    fn prompt_start(&mut self) -> (r: Vec<HostAction>)
        requires
            host_wf(*old(self)),
            old(self).revision < u64::MAX,
        ensures
            host_wf(*final(self)),
            *final(self) == after_prompt_start(*old(self)),
            action_views(r@) == seq![HostActionView::ClearNotification, HostActionView::CancelWork, HostActionView::ClearCompletion],
    {
        reveal(after_prompt_start);
        let mut actions: Vec<HostAction> = Vec::new();
        let s = *self;
        push_action(&mut actions, HostAction::ClearNotification);
        push_action(&mut actions, HostAction::CancelWork);
        *self = HostState { prompt: false, ..s };
        self.invalidate(&mut actions);
        let t = *self;
        *self = HostState { pending_query: None, dirty: false, ..t };
        assert(action_views(actions@) =~= seq![HostActionView::ClearNotification, HostActionView::CancelWork, HostActionView::ClearCompletion]);
        actions
    }

    #[verifier::spinoff_prover]
    fn execute(&mut self) -> (r: Vec<HostAction>)
        requires
            host_wf(*old(self)),
            old(self).revision < u64::MAX,
        ensures
            host_wf(*final(self)),
            *final(self) == after_execute(*old(self)),
            action_views(r@) == seq![HostActionView::CancelWork, HostActionView::ClearCompletion],
    {
        reveal(after_execute);
        let mut actions: Vec<HostAction> = Vec::new();
        let s = *self;
        push_action(&mut actions, HostAction::CancelWork);
        *self = HostState { prompt: false, pending_query: None, dirty: false, ..s };
        self.invalidate(&mut actions);
        let t = *self;
        *self = HostState { native_request: None, commands_pending: false, commands_inflight: false, metadata_pending: false, ..t };
        assert(action_views(actions@) =~= seq![HostActionView::CancelWork, HostActionView::ClearCompletion]);
        actions
    }

    #[verifier::spinoff_prover]
    fn editing(&mut self, continuation: bool)
        requires
            host_wf(*old(self)),
        ensures
            host_wf(*final(self)),
            *final(self) == after_editing(*old(self), continuation),
    {
        reveal(after_editing);
        let s = *self;
        if continuation {
            *self = HostState { prompt: true, native_request: None, pending_query: None, dirty: true, dismissed: false, ..s };
        }
    }

    #[verifier::spinoff_prover]
    fn commands(&mut self, received: Option<bool>) -> (r: Vec<HostAction>)
        requires
            host_wf(*old(self)),
        ensures
            host_wf(*final(self)),
            *final(self) == after_commands(*old(self), received).0,
            action_views(r@) == after_commands(*old(self), received).1,
    {
        reveal(after_commands);
        let s = *self;
        let mut actions: Vec<HostAction> = Vec::new();
        let pending = match received { Some(complete) => !complete, None => s.commands_pending };
        *self = HostState { commands_inflight: false, commands_pending: pending, ..s };
        if received.is_some() {
            actions.push(HostAction::ApplyCommands);
            actions.push(HostAction::ScheduleMetadata);
        }
        assert(action_views(actions@) =~= after_commands(s, received).1);
        actions
    }

    #[verifier::spinoff_prover]
    fn metadata(&mut self, request: Option<u64>)
        requires
            host_wf(*old(self)),
        ensures
            host_wf(*final(self)),
            *final(self) == after_metadata(*old(self), request),
    {
        reveal(after_metadata);
        let s = *self;
        if request == s.native_request {
            *self = HostState { native_request: None, metadata_active: false, ..s };
        }
    }

    #[verifier::spinoff_prover]
    fn history(&mut self, request: Option<u64>)
        requires
            host_wf(*old(self)),
        ensures
            host_wf(*final(self)),
            *final(self) == after_history(*old(self), request),
    {
        reveal(after_history);
        let s = *self;
        *self = HostState {
            native_request: if request == s.native_request { None } else { s.native_request },
            history_pending: false,
            ..s
        };
    }

    #[verifier::spinoff_prover]
    fn edit_result(&mut self, request: Option<u64>, applied: bool) -> (r: Vec<HostAction>)
        requires
            host_wf(*old(self)),
        ensures
            host_wf(*final(self)),
            *final(self) == after_edit_result(*old(self), request, applied).0,
            action_views(r@) == after_edit_result(*old(self), request, applied).1,
    {
        reveal(after_edit_result);
        let s = *self;
        let mut actions: Vec<HostAction> = Vec::new();
        assert(action_views(actions@) =~= Seq::<HostActionView>::empty());
        match s.pending_accept {
            Some(p) => {
                if request == Some(p) {
                    if applied {
                        *self = HostState { pending_accept: None, dismissed: false, explicit: true, ..s };
                        push_action(&mut actions, HostAction::LearnAccepted);
                        assert(action_views(actions@) =~= seq![HostActionView::LearnAccepted]);
                    } else {
                        *self = HostState { pending_accept: None, pending_query: None, dirty: true, ..s };
                    }
                }
            },
            None => {},
        }
        actions
    }

    /// What an adapter message does: the session and the shell's `PATH` and
    /// `PATHEXT` change, and the loop is asked to act, as `spec_message`
    /// says.
    #[verifier::spinoff_prover]
    #[verifier::rlimit(100)]
    pub fn message(&mut self, environment: &mut Option<(String, String)>, message: HostMessage) -> (r: Vec<HostAction>)
        requires
            host_wf(*old(self)),
            old(self).revision < u64::MAX,
        ensures
            host_wf(*final(self)),
            *final(self) == spec_message(*old(self), env_view(*old(environment)), message).0,
            env_view(*final(environment)) == spec_message(*old(self), env_view(*old(environment)), message).1,
            action_views(r@) == spec_message(*old(self), env_view(*old(environment)), message).2,
    {
        let ghost e0 = env_view(*environment);
        let ghost s0 = *self;
        let ghost m = message;
        match message {
            HostMessage::PromptEnd { path } => {
                let ghost pv = path;
                let mut actions: Vec<HostAction> = Vec::new();
                self.prompt_end(environment, path, &mut actions);
                assert(spec_message(s0, e0, m) == after_prompt_end(s0, e0, pv)) by { reveal(spec_message); }
                actions
            },
            HostMessage::Buffer { line, cursor } => {
                let ghost (lv, cv) = (line, cursor);
                let mut actions: Vec<HostAction> = Vec::new();
                self.buffer_reply(line, cursor, &mut actions);
                assert(action_views(actions@) =~= after_buffer(s0, lv, cv).1);
                assert(spec_message(s0, e0, m) == (after_buffer(s0, lv, cv).0, e0, after_buffer(s0, lv, cv).1)) by {
                    reveal(spec_message);
                }
                actions
            },
            HostMessage::NativeCompletion { request, ok, line, cursor, start, end, candidates } => {
                let ghost (lv, cv, av, zv, nv) = (line, cursor, start, end, candidates);
                let mut actions: Vec<HostAction> = Vec::new();
                self.native_reply(request, ok, line, cursor, start, end, candidates, &mut actions);
                assert(action_views(actions@) =~= after_native(s0, request, ok, lv, cv, av, zv, nv).1);
                assert(spec_message(s0, e0, m) == (after_native(s0, request, ok, lv, cv, av, zv, nv).0, e0,
                    after_native(s0, request, ok, lv, cv, av, zv, nv).1)) by {
                    reveal(spec_message);
                }
                actions
            },
            HostMessage::Error { code } => {
                let ghost cv = code@;
                let mut actions: Vec<HostAction> = Vec::new();
                self.error(code, &mut actions);
                assert(spec_message(s0, e0, m) == (after_error(s0, cv).0, e0, after_error(s0, cv).1)) by {
                    reveal(spec_message);
                }
                actions
            },
            HostMessage::PromptStart => {
                let r = self.prompt_start();
                assert(spec_message(s0, e0, m) == (after_prompt_start(s0), e0,
                    seq![HostActionView::ClearNotification, HostActionView::CancelWork, HostActionView::ClearCompletion])) by {
                    reveal(spec_message);
                }
                r
            },
            HostMessage::Execute => {
                let r = self.execute();
                assert(spec_message(s0, e0, m) == (after_execute(s0), e0,
                    seq![HostActionView::CancelWork, HostActionView::ClearCompletion])) by {
                    reveal(spec_message);
                }
                r
            },
            HostMessage::Capabilities {
                ready, psreadline, buffer, apply, commands, enter, shift_enter, native, paste, metadata, history, public_keys,
            } => {
                let all = ready && psreadline && buffer && apply && commands;
                let r = self.capabilities(all, enter, shift_enter, native, paste, metadata, history, public_keys);
                assert(spec_message(s0, e0, m) == (after_capabilities(s0, all, enter, shift_enter, native, paste, metadata, history, public_keys).0,
                    e0, after_capabilities(s0, all, enter, shift_enter, native, paste, metadata, history, public_keys).1)) by {
                    reveal(spec_message);
                }
                r
            },
            HostMessage::Editing { continuation } => {
                self.editing(continuation);
                assert(spec_message(s0, e0, m) == (after_editing(s0, continuation), e0, Seq::<HostActionView>::empty())) by {
                    reveal(spec_message);
                }
                Vec::new()
            },
            HostMessage::Commands { received } => {
                let r = self.commands(received);
                assert(spec_message(s0, e0, m) == (after_commands(s0, received).0, e0, after_commands(s0, received).1)) by {
                    reveal(spec_message);
                }
                r
            },
            HostMessage::CommandMetadata { request } => {
                self.metadata(request);
                let mut r: Vec<HostAction> = Vec::new();
                push_action(&mut r, HostAction::RecordHelp);
                assert(action_views(r@) =~= seq![HostActionView::RecordHelp]);
                assert(spec_message(s0, e0, m) == (after_metadata(s0, request), e0, seq![HostActionView::RecordHelp])) by {
                    reveal(spec_message);
                }
                r
            },
            HostMessage::History { request } => {
                self.history(request);
                let mut r: Vec<HostAction> = Vec::new();
                push_action(&mut r, HostAction::HistoryLoaded);
                assert(action_views(r@) =~= seq![HostActionView::HistoryLoaded]);
                assert(spec_message(s0, e0, m) == (after_history(s0, request), e0, seq![HostActionView::HistoryLoaded])) by {
                    reveal(spec_message);
                }
                r
            },
            HostMessage::EditResult { request, applied } => {
                let r = self.edit_result(request, applied);
                assert(spec_message(s0, e0, m) == (after_edit_result(s0, request, applied).0, e0,
                    after_edit_result(s0, request, applied).1)) by {
                    reveal(spec_message);
                }
                r
            },
            HostMessage::Other => {
                let r: Vec<HostAction> = Vec::new();
                assert(action_views(r@) =~= Seq::<HostActionView>::empty());
                assert(spec_message(s0, e0, m) == (s0, e0, Seq::<HostActionView>::empty())) by {
                    reveal(spec_message);
                }
                r
            },
        }
    }
}


/// What the host knows of the screen when a key arrives: its size, the
/// shell's cursor-key and bracketed-paste modes, whether the console is
/// Windows', and the last page of the details view.
#[derive(Debug, Clone, Copy)]
pub struct Screen {
    pub cols: u16,
    pub rows: u16,
    pub application_cursor: bool,
    pub bracketed_paste: bool,
    pub windows: bool,
    pub last_detail_page: usize,
}

pub open spec fn no_modifiers(m: KeyModifiers) -> bool {
    !m.shift && !m.alt && !m.control
}

/// The shell's own editing modes (Ctrl+R, Ctrl+S searches) start and end
/// with these keys.
#[verifier::opaque]
pub open spec fn nested_after(nested: bool, code: KeyCode, m: KeyModifiers) -> bool {
    let started = if m.control && (code == KeyCode::Char('r') || code == KeyCode::Char('s')) && !m.alt { true } else { nested };
    if code == KeyCode::Esc || code == KeyCode::Enter || (m.control && (code == KeyCode::Char('c') || code == KeyCode::Char('g'))) {
        false
    } else {
        started
    }
}

/// A key after which the line is asked for: no Ctrl or Alt chord (but
/// Ctrl+Backspace, Ctrl+Delete), and Shift only with a character.
#[verifier::opaque]
pub open spec fn query_after(code: KeyCode, m: KeyModifiers) -> bool {
    &&& !((m.control || m.alt) && code != KeyCode::Backspace && code != KeyCode::Delete)
    &&& !(m.shift && !(code is Char))
}

/// The chord a key makes, if shortcuts can name it.
pub open spec fn spec_chord_of(code: KeyCode, m: KeyModifiers) -> Option<Chord> {
    let k = match code {
        KeyCode::Char(c) => Some(Key::Char(c)),
        KeyCode::Tab => Some(Key::Tab),
        KeyCode::Enter => Some(Key::Enter),
        KeyCode::Esc => Some(Key::Esc),
        KeyCode::F(n) => Some(Key::F(n)),
        _ => None,
    };
    match k {
        Some(key) => Some(Chord { key, ctrl: m.control, alt: m.alt, shift: m.shift }),
        None => None,
    }
}

/// Shortcut numbers: 0 native completion, 1 trigger, 2 details, 3
/// refresh, 4 reload.
pub open spec fn shortcut_input(k: u8) -> InputView {
    if k == 0 { InputView::Native } else if k == 1 { InputView::Trigger } else if k == 2 { InputView::Details }
    else if k == 3 { InputView::Refresh } else { InputView::Reload }
}

pub open spec fn is_public(p: PublicKeys, k: u8) -> bool {
    if k == 0 { p.native } else if k == 1 { p.trigger } else if k == 2 { p.details } else if k == 3 { p.refresh } else { p.reload }
}

/// A configured shortcut, at a ready prompt, when the adapter left it
/// public.
#[verifier::opaque]
pub open spec fn shortcut(s: HostState, code: KeyCode, m: KeyModifiers, keys: KeyBindings) -> Option<u8> {
    if s.prompt && s.ready {
        match spec_chord_of(code, m) {
            Some(ch) => match spec_configured(ch, keys) {
                Some(k) => if is_public(s.public_keys, k) { Some(k) } else { None },
                None => None,
            },
            None => None,
        }
    } else {
        None
    }
}

/// The bytes an input sends to the shell when the menu does not take it.
pub open spec fn input_bytes(iv: InputView, application_cursor: bool) -> Seq<u8> {
    match iv {
        InputView::Bytes(b) => b,
        InputView::Tab => seq![9u8],
        InputView::Previous => if application_cursor { seq![0x1bu8, 0x4fu8, 0x41u8] } else { seq![0x1bu8, 0x5bu8, 0x41u8] },
        InputView::BackTab => seq![0x1bu8, 0x5bu8, 0x5au8],
        InputView::Next => if application_cursor { seq![0x1bu8, 0x4fu8, 0x42u8] } else { seq![0x1bu8, 0x5bu8, 0x42u8] },
        InputView::Dismiss => seq![0x1bu8],
        InputView::Trigger => seq![0u8],
        InputView::Refresh => seq![0x1bu8, 3u8],
        InputView::Reload => seq![0x1bu8, 0x12u8],
        InputView::Native => seq![0u8],
        InputView::Details => seq![0x1bu8, 0x4fu8, 0x50u8],
        InputView::Resize(_, _) => Seq::empty(),
    }
}

/// Bytes that end the line being edited: CR, LF, Ctrl+C, Ctrl+D.
pub open spec fn ends_line(b: Seq<u8>) -> bool {
    exists|i: int| 0 <= i < b.len() && (b[i] == 13 || b[i] == 10 || b[i] == 3 || b[i] == 4)
}

/// A paste into a shell that asked for bracketed paste is framed by
/// `ESC [ 200 ~` and `ESC [ 201 ~`.
pub open spec fn framed(b: Seq<u8>, bracketed: bool) -> Seq<u8> {
    if bracketed {
        seq![0x1bu8, 0x5bu8, 0x32u8, 0x30u8, 0x30u8, 0x7eu8] + b + seq![0x1bu8, 0x5bu8, 0x32u8, 0x30u8, 0x31u8, 0x7eu8]
    } else {
        b
    }
}

pub open spec fn previous_index(s: HostState) -> usize {
    if s.selected == 0 { (s.candidates - 1) as usize } else { (s.selected - 1) as usize }
}

/// The menu or the host takes the input.
pub open spec fn menu_takes(s: HostState, iv: InputView) -> bool {
    let visible = s.candidates > 0 && !s.dismissed && s.prompt;
    match iv {
        InputView::Resize(_, _) => true,
        InputView::Tab => visible,
        InputView::Previous => visible && (s.menu_focus || !s.up_arrow_history),
        InputView::BackTab => visible,
        InputView::Next => visible,
        InputView::Dismiss => s.searching || visible,
        InputView::Trigger => s.prompt && s.ready,
        InputView::Refresh => s.prompt && s.ready,
        InputView::Details => visible,
        InputView::Native => s.prompt && s.ready,
        InputView::Reload => s.prompt,
        InputView::Bytes(_) => false,
    }
}

/// What an input does when it reaches the menu or the shell.
#[verifier::opaque]
pub open spec fn after_input(s: HostState, iv: InputView, screen: Screen, paste: bool, query: bool) -> (HostState, Seq<HostActionView>) {
    if menu_takes(s, iv) { after_menu(s, iv, screen) } else { after_send(s, iv, screen, paste, query) }
}

/// An input the menu or the host takes: Tab accepts, Up and Shift+Tab,
/// Down move the selection, Esc dismisses, while the menu is shown; the
/// shortcuts act at a ready prompt; a resize resizes the pseudo terminal.
pub open spec fn after_menu(s: HostState, iv: InputView, screen: Screen) -> (HostState, Seq<HostActionView>) {
    match iv {
        InputView::Resize(_, _) | InputView::Tab | InputView::Previous | InputView::BackTab | InputView::Next
        | InputView::Details => after_select(s, iv, screen),
        _ => after_command(s, iv),
    }
}

/// Moving through the menu: accept, select, the details view; and resizes.
#[verifier::opaque]
pub open spec fn after_select(s: HostState, iv: InputView, screen: Screen) -> (HostState, Seq<HostActionView>) {
    let visible = s.candidates > 0 && !s.dismissed && s.prompt;
    match iv {
        InputView::Resize(c, r) => (s, if r > 0 && c > 0 && (r != screen.rows || c != screen.cols) {
            seq![HostActionView::Resize(c, r)]
        } else {
            Seq::empty()
        }),
        InputView::Tab if visible => (s, seq![HostActionView::Accept]),
        InputView::Previous if visible && (s.menu_focus || !s.up_arrow_history) =>
            (HostState { selection_touched: true, detail_page: 0, selected: previous_index(s), ..s }, Seq::empty()),
        InputView::BackTab if visible =>
            (HostState { menu_focus: true, selection_touched: true, detail_page: 0, selected: previous_index(s), ..s }, Seq::empty()),
        InputView::Next if visible => (HostState {
            menu_focus: true,
            selection_touched: true,
            detail_page: 0,
            selected: ((s.selected + 1) % (s.candidates as int)) as usize,
            ..s
        }, Seq::empty()),
        InputView::Details if visible => (HostState { details: !s.details, detail_page: 0, ..s }, Seq::empty()),
        _ => (s, Seq::empty()),
    }
}

/// The native completion shortcut: refused when the adapter cannot serve
/// it, ignored while another adapter request is in flight, else the menu
/// is given up and a native request is queued.
pub open spec fn native_key_queues(s: HostState) -> bool {
    s.native_ready && !(s.native_request is Some && !s.metadata_active)
}

#[verifier::opaque]
pub open spec fn native_key_state(s: HostState) -> HostState {
    if native_key_queues(s) {
        HostState { native_queued: true, dirty: false, dismissed: false, ..invalidated(HostState { metadata_pending: false, ..s }) }
    } else {
        s
    }
}

pub open spec fn after_native_key(s: HostState) -> (HostState, Seq<HostActionView>) {
    (native_key_state(s), if !s.native_ready {
        seq![HostActionView::Notice(Notice::NativeUnavailable)]
    } else if native_key_queues(s) {
        seq![HostActionView::ClearCompletion, HostActionView::CancelWork]
    } else {
        Seq::empty()
    })
}

/// The host's commands: dismiss, trigger, refresh, native completion, reload.
#[verifier::opaque]
pub open spec fn after_command(s: HostState, iv: InputView) -> (HostState, Seq<HostActionView>) {
    let visible = s.candidates > 0 && !s.dismissed && s.prompt;
    match iv {
        InputView::Dismiss if s.searching =>
            (invalidated(HostState { searching: false, dismissed: true, ..s }), seq![HostActionView::ClearCompletion]),
        InputView::Dismiss if visible => (invalidated(HostState { dismissed: true, ..s }), seq![HostActionView::ClearCompletion]),
        InputView::Trigger if s.prompt && s.ready =>
            (HostState { menu_focus: true, explicit: true, dismissed: false, dirty: true, ..s }, Seq::empty()),
        InputView::Refresh if s.prompt && s.ready =>
            (HostState { commands_allowed: true, reset_pending: true, ..s }, seq![HostActionView::RefreshCommands]),
        InputView::Native if s.prompt && s.ready => after_native_key(s),
        InputView::Reload if s.prompt => (s, seq![HostActionView::Reload]),
        _ => (s, Seq::empty()),
    }
}

/// An input sent to the shell: the menu is given up; a line ending
/// leaves the prompt (unless it is pasted into a shell that reads pastes
/// bracketed), other bytes mark the line changed.
#[verifier::opaque]
pub open spec fn after_send(s: HostState, iv: InputView, screen: Screen, paste: bool, query: bool) -> (HostState, Seq<HostActionView>) {
    let b = input_bytes(iv, screen.application_cursor);
    let s3 = HostState { dismissed: false, ..invalidated(s) };
    let w = HostActionView::Write(framed(b, paste && screen.bracketed_paste));
    if ends_line(b) && !(paste && screen.bracketed_paste) {
        (HostState { prompt: false, searching: false, dirty: false, ..s3 },
            seq![HostActionView::ClearCompletion, HostActionView::CancelWork, w])
    } else if ends_line(b) {
        (HostState { dirty: s.prompt, ..s3 }, seq![HostActionView::ClearCompletion, w])
    } else {
        (HostState { dirty: s.prompt && query && !s.nested_edit, ..s3 }, seq![HostActionView::ClearCompletion, w])
    }
}

/// A paste at the prompt goes to the shell through its literal-text bridge
/// when the adapter offers it, as the next numbered paste.
#[verifier::opaque]
pub open spec fn after_paste(s: HostState, text: Seq<char>) -> (HostState, Seq<HostActionView>) {
    if !s.ready || !s.paste_ready {
        (s, seq![HostActionView::Notice(Notice::PasteUnavailable)])
    } else if s.paste_sequence == u64::MAX {
        (s, seq![HostActionView::Stop])
    } else {
        let n = (s.paste_sequence + 1) as u64;
        (HostState { paste_sequence: n, ..s }, seq![HostActionView::StorePaste { sequence: n, text }])
    }
}

/// Enter at a ready prompt runs the shell's own Enter (suffix `e`), and
/// Shift+Enter its Shift+Enter (`l`), when the adapter registered them.
#[verifier::opaque]
pub open spec fn enter_suffix(s: HostState, code: KeyCode, m: KeyModifiers) -> Option<char> {
    if s.prompt && s.ready && code == KeyCode::Enter && no_modifiers(m) && s.enter_ready {
        Some('e')
    } else if s.prompt && s.ready && code == KeyCode::Enter && m == (KeyModifiers { shift: true, alt: false, control: false })
        && s.shift_enter_ready {
        Some('l')
    } else {
        None
    }
}

/// A character beyond the Basic Multilingual Plane typed at a ready prompt
/// outside the shell's own editing modes goes through the paste bridge.
#[verifier::opaque]
pub open spec fn bridged(s: HostState, code: KeyCode, m: KeyModifiers) -> Option<char> {
    match code {
        KeyCode::Char(c) => if s.ready && s.prompt && !s.nested_edit && s.paste_ready && no_modifiers(m) && (c as u32) > 0xffff {
            Some(c)
        } else {
            None
        },
        _ => None,
    }
}

#[verifier::spinoff_prover]
fn chord_of(code: KeyCode, m: KeyModifiers) -> (r: Option<Chord>)
    ensures
        r == spec_chord_of(code, m),
{
    let k = match code {
        KeyCode::Char(c) => Some(Key::Char(c)),
        KeyCode::Tab => Some(Key::Tab),
        KeyCode::Enter => Some(Key::Enter),
        KeyCode::Esc => Some(Key::Esc),
        KeyCode::F(n) => Some(Key::F(n)),
        _ => None,
    };
    match k {
        Some(key) => Some(Chord { key, ctrl: m.control, alt: m.alt, shift: m.shift }),
        None => None,
    }
}

#[verifier::spinoff_prover]
fn shortcut_of(s: &HostState, code: KeyCode, m: KeyModifiers, keys: &KeyBindings) -> (r: Option<Input>)
    ensures
        match r {
            Some(i) => Some(i@),
            None => None,
        } == match shortcut(*s, code, m, *keys) {
            Some(k) => Some(shortcut_input(k)),
            None => None,
        },
{
    reveal(shortcut);
    if !(s.prompt && s.ready) {
        return None;
    }
    let ch = match chord_of(code, m) {
        Some(ch) => ch,
        None => { return None; },
    };
    let p = s.public_keys;
    match configured(ch, keys) {
        Some(Input::Native) => if p.native { Some(Input::Native) } else { None },
        Some(Input::Trigger) => if p.trigger { Some(Input::Trigger) } else { None },
        Some(Input::Details) => if p.details { Some(Input::Details) } else { None },
        Some(Input::Refresh) => if p.refresh { Some(Input::Refresh) } else { None },
        Some(Input::Reload) => if p.reload { Some(Input::Reload) } else { None },
        _ => None,
    }
}

#[verifier::spinoff_prover]
fn bytes_of_input(input: Input, application_cursor: bool) -> (r: Vec<u8>)
    ensures
        r@ == input_bytes(input@, application_cursor),
{
    match input {
        Input::Bytes(b) => b,
        Input::Tab => vec![9u8],
        Input::Previous => if application_cursor { vec![0x1bu8, 0x4fu8, 0x41u8] } else { vec![0x1bu8, 0x5bu8, 0x41u8] },
        Input::BackTab => vec![0x1bu8, 0x5bu8, 0x5au8],
        Input::Next => if application_cursor { vec![0x1bu8, 0x4fu8, 0x42u8] } else { vec![0x1bu8, 0x5bu8, 0x42u8] },
        Input::Dismiss => vec![0x1bu8],
        Input::Trigger => vec![0u8],
        Input::Refresh => vec![0x1bu8, 3u8],
        Input::Reload => vec![0x1bu8, 0x12u8],
        Input::Native => vec![0u8],
        Input::Details => vec![0x1bu8, 0x4fu8, 0x50u8],
        Input::Resize(_, _) => Vec::new(),
    }
}

#[verifier::spinoff_prover]
fn ends_line_exec(b: &Vec<u8>) -> (r: bool)
    ensures
        r == ends_line(b@),
{
    let mut i: usize = 0;
    while i < b.len()
        invariant
            i <= b@.len(),
            forall|j: int| 0 <= j < i ==> !(b@[j] == 13 || b@[j] == 10 || b@[j] == 3 || b@[j] == 4),
        decreases b@.len() - i,
    {
        if b[i] == 13 || b[i] == 10 || b[i] == 3 || b[i] == 4 {
            return true;
        }
        i = i + 1;
    }
    false
}

#[verifier::spinoff_prover]
fn framed_exec(b: Vec<u8>, bracketed: bool) -> (r: Vec<u8>)
    ensures
        r@ == framed(b@, bracketed),
{
    if !bracketed {
        return b;
    }
    let mut r: Vec<u8> = vec![0x1bu8, 0x5bu8, 0x32u8, 0x30u8, 0x30u8, 0x7eu8];
    let mut i: usize = 0;
    while i < b.len()
        invariant
            i <= b@.len(),
            r@ == seq![0x1bu8, 0x5bu8, 0x32u8, 0x30u8, 0x30u8, 0x7eu8] + b@.take(i as int),
        decreases b@.len() - i,
    {
        r.push(b[i]);
        assert(b@.take(i as int + 1) =~= b@.take(i as int).push(b@[i as int]));
        i = i + 1;
    }
    assert(b@.take(i as int) =~= b@);
    r.push(0x1bu8);
    r.push(0x5bu8);
    r.push(0x32u8);
    r.push(0x30u8);
    r.push(0x31u8);
    r.push(0x7eu8);
    assert(r@ =~= framed(b@, bracketed));
    r
}

impl HostState {
    #[verifier::spinoff_prover]
    fn select_input(&mut self, input: Input, screen: Screen) -> (r: Vec<HostAction>)
        requires
            host_wf(*old(self)),
            old(self).revision < u64::MAX,
            menu_takes(*old(self), input@),
            input@ is Resize || input@ is Tab || input@ is Previous || input@ is BackTab || input@ is Next || input@ is Details,
        ensures
            host_wf(*final(self)),
            *final(self) == after_select(*old(self), input@, screen).0,
            action_views(r@) == after_select(*old(self), input@, screen).1,
    {
        reveal(after_select);
        reveal(menu_wf);
        let s = *self;
        let ghost iv = input@;
        let mut actions: Vec<HostAction> = Vec::new();
        assert(action_views(actions@) =~= Seq::<HostActionView>::empty());
        let visible = s.candidates > 0 && !s.dismissed && s.prompt;
        match input {
            Input::Resize(c, r) => {
                if r > 0 && c > 0 && (r != screen.rows || c != screen.cols) {
                    push_action(&mut actions, HostAction::Resize(c, r));
                    assert(action_views(actions@) =~= seq![HostActionView::Resize(c, r)]);
                }
                return actions;
            },
            Input::Tab if visible => {
                push_action(&mut actions, HostAction::Accept);
                assert(action_views(actions@) =~= seq![HostActionView::Accept]);
                return actions;
            },
            Input::Previous if visible && (s.menu_focus || !s.up_arrow_history) => {
                let p = if s.selected == 0 { s.candidates - 1 } else { s.selected - 1 };
                *self = HostState { selection_touched: true, detail_page: 0, selected: p, ..s };
                return actions;
            },
            Input::BackTab if visible => {
                let p = if s.selected == 0 { s.candidates - 1 } else { s.selected - 1 };
                *self = HostState { menu_focus: true, selection_touched: true, detail_page: 0, selected: p, ..s };
                return actions;
            },
            Input::Next if visible => {
                *self = HostState {
                    menu_focus: true,
                    selection_touched: true,
                    detail_page: 0,
                    selected: (s.selected + 1) % s.candidates,
                    ..s
                };
                return actions;
            },
            Input::Details if visible => {
                *self = HostState { details: !s.details, detail_page: 0, ..s };
                return actions;
            },
            _ => {},
        }
        actions
    }


    #[verifier::spinoff_prover]
    fn native_key(&mut self) -> (r: Vec<HostAction>)
        requires
            host_wf(*old(self)),
            old(self).revision < u64::MAX,
        ensures
            host_wf(*final(self)),
            *final(self) == native_key_state(*old(self)),
            action_views(r@) == after_native_key(*old(self)).1,
    {
        reveal(native_key_state);
        let s = *self;
        let mut actions: Vec<HostAction> = Vec::new();
        let busy = match s.native_request { Some(_) => !s.metadata_active, None => false };
        if !s.native_ready {
            assert(!native_key_queues(s));
            actions.push(HostAction::Notice(Notice::NativeUnavailable));
            assert(action_views(actions@) =~= seq![HostActionView::Notice(Notice::NativeUnavailable)]);
            return actions;
        }
        if busy {
            assert(!native_key_queues(s));
            assert(action_views(actions@) =~= Seq::<HostActionView>::empty());
            return actions;
        }
        assert(native_key_queues(s));
        let ghost target = native_key_state(s);
        *self = HostState { metadata_pending: false, ..s };
        self.invalidate(&mut actions);
        let t = *self;
        *self = HostState { native_queued: true, dirty: false, dismissed: false, ..t };
        assert(*self == target);
        push_action(&mut actions, HostAction::CancelWork);
        assert(action_views(actions@) =~= seq![HostActionView::ClearCompletion, HostActionView::CancelWork]);
        actions
    }

    #[verifier::spinoff_prover]
    #[verifier::rlimit(60)]
    fn command_input(&mut self, input: Input) -> (r: Vec<HostAction>)
        requires
            host_wf(*old(self)),
            old(self).revision < u64::MAX,
            menu_takes(*old(self), input@),
            input@ is Dismiss || input@ is Trigger || input@ is Refresh || input@ is Native || input@ is Reload,
        ensures
            host_wf(*final(self)),
            *final(self) == after_command(*old(self), input@).0,
            action_views(r@) == after_command(*old(self), input@).1,
    {
        reveal(after_command);
        let s = *self;
        let mut actions: Vec<HostAction> = Vec::new();
        let visible = s.candidates > 0 && !s.dismissed && s.prompt;
        let is_dismiss = matches!(input, Input::Dismiss);
        let is_trigger = matches!(input, Input::Trigger);
        let is_refresh = matches!(input, Input::Refresh);
        let is_native = matches!(input, Input::Native);
        if is_dismiss {
            *self = HostState { searching: if s.searching { false } else { s.searching }, dismissed: true, ..s };
            self.invalidate(&mut actions);
            assert(action_views(actions@) =~= seq![HostActionView::ClearCompletion]);
        } else if is_trigger {
            *self = HostState { menu_focus: true, explicit: true, dismissed: false, dirty: true, ..s };
            assert(action_views(actions@) =~= Seq::<HostActionView>::empty());
        } else if is_refresh {
            *self = HostState { commands_allowed: true, reset_pending: true, ..s };
            push_action(&mut actions, HostAction::RefreshCommands);
            assert(action_views(actions@) =~= seq![HostActionView::RefreshCommands]);
        } else if is_native {
            actions = self.native_key();
        } else {
            push_action(&mut actions, HostAction::Reload);
            assert(action_views(actions@) =~= seq![HostActionView::Reload]);
        }
        actions
    }

    #[verifier::spinoff_prover]
    fn menu_input(&mut self, input: Input, screen: Screen) -> (r: Vec<HostAction>)
        requires
            host_wf(*old(self)),
            old(self).revision < u64::MAX,
            menu_takes(*old(self), input@),
        ensures
            host_wf(*final(self)),
            *final(self) == after_menu(*old(self), input@, screen).0,
            action_views(r@) == after_menu(*old(self), input@, screen).1,
    {
        match &input {
            Input::Resize(_, _) | Input::Tab | Input::Previous | Input::BackTab | Input::Next | Input::Details =>
                self.select_input(input, screen),
            _ => self.command_input(input),
        }
    }

    #[verifier::spinoff_prover]
    fn send_input(&mut self, input: Input, screen: Screen, paste: bool, query: bool) -> (r: Vec<HostAction>)
        requires
            host_wf(*old(self)),
            old(self).revision < u64::MAX,
        ensures
            host_wf(*final(self)),
            *final(self) == after_send(*old(self), input@, screen, paste, query).0,
            action_views(r@) == after_send(*old(self), input@, screen, paste, query).1,
    {
        reveal(after_send);
        let s = *self;
        let mut actions: Vec<HostAction> = Vec::new();
        let b = bytes_of_input(input, screen.application_cursor);
        let ends = ends_line_exec(&b);
        let ghost bv = b@;
        self.invalidate(&mut actions);
        let t = *self;
        let framed_bytes = framed_exec(b, paste && screen.bracketed_paste);
        let ghost w = HostActionView::Write(framed(bv, paste && screen.bracketed_paste));
        if ends && !(paste && screen.bracketed_paste) {
            *self = HostState { prompt: false, searching: false, dirty: false, dismissed: false, ..t };
            push_action(&mut actions, HostAction::CancelWork);
            push_action(&mut actions, HostAction::Write(framed_bytes));
            assert(action_views(actions@) =~= seq![HostActionView::ClearCompletion, HostActionView::CancelWork, w]);
        } else if ends {
            *self = HostState { dirty: s.prompt, dismissed: false, ..t };
            push_action(&mut actions, HostAction::Write(framed_bytes));
            assert(action_views(actions@) =~= seq![HostActionView::ClearCompletion, w]);
        } else {
            *self = HostState { dirty: s.prompt && query && !s.nested_edit, dismissed: false, ..t };
            push_action(&mut actions, HostAction::Write(framed_bytes));
            assert(action_views(actions@) =~= seq![HostActionView::ClearCompletion, w]);
        }
        actions
    }

    #[verifier::spinoff_prover]
    fn apply_input(&mut self, input: Input, screen: Screen, paste: bool, query: bool) -> (r: Vec<HostAction>)
        requires
            host_wf(*old(self)),
            old(self).revision < u64::MAX,
        ensures
            host_wf(*final(self)),
            *final(self) == after_input(*old(self), input@, screen, paste, query).0,
            action_views(r@) == after_input(*old(self), input@, screen, paste, query).1,
    {
        reveal(after_input);
        let s = *self;
        let visible = s.candidates > 0 && !s.dismissed && s.prompt;
        let takes = match &input {
            Input::Resize(_, _) => true,
            Input::Tab => visible,
            Input::Previous => visible && (s.menu_focus || !s.up_arrow_history),
            Input::BackTab => visible,
            Input::Next => visible,
            Input::Dismiss => s.searching || visible,
            Input::Trigger => s.prompt && s.ready,
            Input::Refresh => s.prompt && s.ready,
            Input::Details => visible,
            Input::Native => s.prompt && s.ready,
            Input::Reload => s.prompt,
            Input::Bytes(_) => false,
        };
        if takes {
            self.menu_input(input, screen)
        } else {
            self.send_input(input, screen, paste, query)
        }
    }
}


/// Enter and Shift+Enter handed to the shell's own handlers: the prompt is
/// left, the menu given up, the completion work cancelled.
#[verifier::opaque]
pub open spec fn after_enter(s: HostState, x: char) -> (HostState, Seq<HostActionView>) {
    (
        HostState { prompt: false, searching: false, dirty: false, native_queued: false, ..invalidated(s) },
        seq![HostActionView::ClearNotification, HostActionView::ClearCompletion, HostActionView::CancelWork, HostActionView::Chord(x)],
    )
}

/// What a pressed key sends, translated.
#[verifier::opaque]
pub open spec fn pressed_input(code: KeyCode, m: KeyModifiers, screen: Screen) -> Option<InputView> {
    event_input(Event::Key { code, modifiers: m, release: false }, screen.application_cursor, screen.windows)
}

/// A pressed key as the menu or the shell gets it: a public shortcut, or
/// the key translated.
#[verifier::opaque]
pub open spec fn key_input_spec(s: HostState, code: KeyCode, m: KeyModifiers, keys: KeyBindings, screen: Screen) -> Option<InputView> {
    match shortcut(s, code, m, keys) {
        Some(k) => Some(shortcut_input(k)),
        None => pressed_input(code, m, screen),
    }
}

#[verifier::spinoff_prover]
fn key_input_of(s: &HostState, code: KeyCode, m: KeyModifiers, keys: &KeyBindings, screen: Screen) -> (r: Option<Input>)
    ensures
        match r {
            Some(i) => Some(i@),
            None => None,
        } == key_input_spec(*s, code, m, *keys, screen),
{
    reveal(key_input_spec);
    reveal(pressed_input);
    match shortcut_of(s, code, m, keys) {
        Some(i) => Some(i),
        None => translate(Event::Key { code, modifiers: m, release: false }, screen.application_cursor, screen.windows),
    }
}

#[verifier::opaque]
pub open spec fn allowed(s1: HostState, q: bool) -> HostState {
    HostState { commands_allowed: q && !s1.nested_edit, ..s1 }
}

pub open spec fn pages(s2: HostState, code: KeyCode) -> bool {
    s2.details && s2.prompt && (code == KeyCode::PageDown || code == KeyCode::PageUp)
}

#[verifier::opaque]
pub open spec fn paged(s2: HostState, code: KeyCode, screen: Screen) -> HostState {
    HostState {
        detail_page: if code == KeyCode::PageDown {
            if s2.detail_page < screen.last_detail_page { (s2.detail_page + 1) as usize } else { screen.last_detail_page }
        } else if s2.detail_page > 0 {
            (s2.detail_page - 1) as usize
        } else {
            0
        },
        ..s2
    }
}

/// A key that neither pastes nor runs Enter: the details view pages with
/// PageUp and PageDown; else the key, as a shortcut or translated, reaches
/// the menu or the shell.
#[verifier::opaque]
pub open spec fn after_key_rest(s1: HostState, code: KeyCode, m: KeyModifiers, keys: KeyBindings, screen: Screen, q: bool)
    -> (HostState, Seq<HostActionView>)
{
    let s2 = allowed(s1, q);
    if pages(s2, code) {
        (paged(s2, code, screen), seq![HostActionView::ClearNotification])
    } else {
        match key_input_spec(s1, code, m, keys, screen) {
            Some(iv) => (after_input(s2, iv, screen, false, q).0,
                seq![HostActionView::ClearNotification] + after_input(s2, iv, screen, false, q).1),
            None => (s2, seq![HostActionView::ClearNotification]),
        }
    }
}

/// A key pressed (not released).
#[verifier::opaque]
pub open spec fn after_key_press(s: HostState, code: KeyCode, m: KeyModifiers, keys: KeyBindings, screen: Screen)
    -> (HostState, Seq<HostActionView>)
{
    let s1 = with_nested(s, code, m);
    match bridged(s1, code, m) {
        Some(c) => after_paste(s1, seq![c]),
        None => match enter_suffix(s1, code, m) {
            Some(x) => after_enter(s1, x),
            None => after_key_rest(s1, code, m, keys, screen, query_after(code, m)),
        },
    }
}

/// What a key press, paste or resize does at the shell's prompt (the
/// workbench and the mouse aside): the shell's editing modes are tracked,
/// pastes go through the paste bridge, Enter runs the shell's own Enter,
/// the details view pages, and shortcuts or translated keys reach the menu
/// or the shell.
pub open spec fn spec_key(s: HostState, e: Event, keys: KeyBindings, screen: Screen) -> (HostState, Seq<HostActionView>) {
    match e {
        Event::Key { code, modifiers, release } => if release {
            (s, Seq::empty())
        } else {
            after_key_press(s, code, modifiers, keys, screen)
        },
        Event::Paste(t) => if s.prompt {
            after_paste(s, t@)
        } else {
            let s2 = HostState { commands_allowed: !s.nested_edit, ..s };
            let (s3, a) = after_input(s2, InputView::Bytes(encode_utf8(t@)), screen, true, true);
            (s3, seq![HostActionView::ClearNotification] + a)
        },
        Event::Resize(c, r) => after_input(s, InputView::Resize(c, r), screen, false, true),
        Event::Other => (s, Seq::empty()),
    }
}

/// What a stored paste does: the shell is told to insert it and the line
/// will be asked for; a paste too large for the bridge is refused.
pub open spec fn after_paste_stored(s: HostState, stored: bool) -> (HostState, Seq<HostActionView>) {
    if stored {
        (HostState { dismissed: false, dirty: true, ..invalidated(s) }, seq![HostActionView::ClearCompletion, HostActionView::Chord('p')])
    } else {
        (s, seq![HostActionView::Notice(Notice::PasteTooLarge)])
    }
}

#[verifier::spinoff_prover]
fn append_actions(actions: &mut Vec<HostAction>, more: Vec<HostAction>)
    ensures
        action_views(final(actions)@) == action_views(old(actions)@) + action_views(more@),
{
    let ghost mv = more@;
    let mut more = more;
    actions.append(&mut more);
    assert(action_views(actions@) =~= action_views(old(actions)@) + action_views(mv));
}


#[verifier::opaque]
pub open spec fn set_nested(s: HostState, b: bool) -> HostState {
    HostState { nested_edit: b, ..s }
}

pub open spec fn with_nested(s: HostState, code: KeyCode, m: KeyModifiers) -> HostState {
    set_nested(s, nested_after(s.nested_edit, code, m))
}

proof fn lemma_press_bridged(s: HostState, code: KeyCode, m: KeyModifiers, keys: KeyBindings, screen: Screen, c: char)
    requires
        bridged(with_nested(s, code, m), code, m) == Some(c),
    ensures
        after_key_press(s, code, m, keys, screen).0 == after_paste(with_nested(s, code, m), seq![c]).0,
        after_key_press(s, code, m, keys, screen).1 == after_paste(with_nested(s, code, m), seq![c]).1,
{
    reveal(after_key_press);
}

proof fn lemma_press_enter(s: HostState, code: KeyCode, m: KeyModifiers, keys: KeyBindings, screen: Screen, x: char)
    requires
        bridged(with_nested(s, code, m), code, m) is None,
        enter_suffix(with_nested(s, code, m), code, m) == Some(x),
    ensures
        after_key_press(s, code, m, keys, screen).0 == after_enter(with_nested(s, code, m), x).0,
        after_key_press(s, code, m, keys, screen).1 == after_enter(with_nested(s, code, m), x).1,
{
    reveal(after_key_press);
}

proof fn lemma_press_rest(s: HostState, code: KeyCode, m: KeyModifiers, keys: KeyBindings, screen: Screen)
    requires
        bridged(with_nested(s, code, m), code, m) is None,
        enter_suffix(with_nested(s, code, m), code, m) is None,
    ensures
        after_key_press(s, code, m, keys, screen).0
            == after_key_rest(with_nested(s, code, m), code, m, keys, screen, query_after(code, m)).0,
        after_key_press(s, code, m, keys, screen).1
            == after_key_rest(with_nested(s, code, m), code, m, keys, screen, query_after(code, m)).1,
{
    reveal(after_key_press);
}





proof fn lemma_rest_page(s1: HostState, code: KeyCode, m: KeyModifiers, keys: KeyBindings, screen: Screen, q: bool)
    requires
        pages(allowed(s1, q), code),
    ensures
        after_key_rest(s1, code, m, keys, screen, q).0 == paged(allowed(s1, q), code, screen),
        after_key_rest(s1, code, m, keys, screen, q).1 == seq![HostActionView::ClearNotification],
{
    reveal(after_key_rest);
}

proof fn lemma_rest_some(s1: HostState, code: KeyCode, m: KeyModifiers, keys: KeyBindings, screen: Screen, q: bool, iv: InputView)
    requires
        !pages(allowed(s1, q), code),
        key_input_spec(s1, code, m, keys, screen) == Some(iv),
    ensures
        after_key_rest(s1, code, m, keys, screen, q).0 == after_input(allowed(s1, q), iv, screen, false, q).0,
        after_key_rest(s1, code, m, keys, screen, q).1
            == seq![HostActionView::ClearNotification] + after_input(allowed(s1, q), iv, screen, false, q).1,
{
    reveal(after_key_rest);
}

proof fn lemma_rest_none(s1: HostState, code: KeyCode, m: KeyModifiers, keys: KeyBindings, screen: Screen, q: bool)
    requires
        !pages(allowed(s1, q), code),
        key_input_spec(s1, code, m, keys, screen) is None,
    ensures
        after_key_rest(s1, code, m, keys, screen, q).0 == allowed(s1, q),
        after_key_rest(s1, code, m, keys, screen, q).1 == seq![HostActionView::ClearNotification],
{
    reveal(after_key_rest);
}

#[verifier::spinoff_prover]
fn allow_exec(s1: HostState, q: bool) -> (r: HostState)
    ensures
        r == allowed(s1, q),
        r.candidates == s1.candidates,
        r.selected == s1.selected,
        r.revision == s1.revision,
        r.details == s1.details,
        r.prompt == s1.prompt,
{
    reveal(allowed);
    HostState { commands_allowed: q && !s1.nested_edit, ..s1 }
}

#[verifier::spinoff_prover]
fn page_exec(s2: HostState, code: KeyCode, screen: Screen) -> (r: HostState)
    ensures
        r == paged(s2, code, screen),
        r.candidates == s2.candidates,
        r.selected == s2.selected,
{
    reveal(paged);
    let page = if code == KeyCode::PageDown {
        if s2.detail_page < screen.last_detail_page { s2.detail_page + 1 } else { screen.last_detail_page }
    } else if s2.detail_page > 0 {
        s2.detail_page - 1
    } else {
        0
    };
    HostState { detail_page: page, ..s2 }
}

#[verifier::spinoff_prover]
fn nested_exec(nested: bool, code: KeyCode, m: KeyModifiers) -> (r: bool)
    ensures
        r == nested_after(nested, code, m),
{
    reveal(nested_after);
    let started = if m.control && (code == KeyCode::Char('r') || code == KeyCode::Char('s')) && !m.alt { true } else { nested };
    if code == KeyCode::Esc || code == KeyCode::Enter || (m.control && (code == KeyCode::Char('c') || code == KeyCode::Char('g'))) {
        false
    } else {
        started
    }
}

#[verifier::spinoff_prover]
fn nested_state(s: HostState, code: KeyCode, m: KeyModifiers) -> (r: HostState)
    ensures
        r == with_nested(s, code, m),
        r.candidates == s.candidates,
        r.selected == s.selected,
        r.revision == s.revision,
{
    let nested = nested_exec(s.nested_edit, code, m);
    let r = set_nested_exec(s, nested);
    r
}

#[verifier::spinoff_prover]
fn set_nested_exec(s: HostState, b: bool) -> (r: HostState)
    ensures
        r == set_nested(s, b),
        r.candidates == s.candidates,
        r.selected == s.selected,
        r.revision == s.revision,
{
    reveal(set_nested);
    HostState { nested_edit: b, ..s }
}

#[verifier::spinoff_prover]
fn query_exec(code: KeyCode, m: KeyModifiers) -> (r: bool)
    ensures
        r == query_after(code, m),
{
    reveal(query_after);
    let is_char = match code { KeyCode::Char(_) => true, _ => false };
    !((m.control || m.alt) && code != KeyCode::Backspace && code != KeyCode::Delete) && !(m.shift && !is_char)
}

#[verifier::spinoff_prover]
fn bridged_exec(s: &HostState, code: KeyCode, m: KeyModifiers) -> (r: Option<char>)
    ensures
        r == bridged(*s, code, m),
{
    reveal(bridged);
    match code {
        KeyCode::Char(c) => if s.ready && s.prompt && !s.nested_edit && s.paste_ready && !m.shift && !m.alt && !m.control
            && (c as u32) > 0xffff {
            Some(c)
        } else {
            None
        },
        _ => None,
    }
}

#[verifier::spinoff_prover]
fn enter_suffix_exec(s: &HostState, code: KeyCode, m: KeyModifiers) -> (r: Option<char>)
    ensures
        r == enter_suffix(*s, code, m),
{
    reveal(enter_suffix);
    if s.prompt && s.ready && code == KeyCode::Enter && !m.shift && !m.alt && !m.control && s.enter_ready {
        Some('e')
    } else if s.prompt && s.ready && code == KeyCode::Enter && m.shift && !m.alt && !m.control && s.shift_enter_ready {
        Some('l')
    } else {
        None
    }
}

impl HostState {
    #[verifier::spinoff_prover]
    fn paste(&mut self, text: String) -> (r: Vec<HostAction>)
        requires
            host_wf(*old(self)),
        ensures
            host_wf(*final(self)),
            *final(self) == after_paste(*old(self), text@).0,
            action_views(r@) == after_paste(*old(self), text@).1,
    {
        reveal(after_paste);
        let s = *self;
        let mut actions: Vec<HostAction> = Vec::new();
        let ghost tv = text@;
        if !s.ready || !s.paste_ready {
            push_action(&mut actions, HostAction::Notice(Notice::PasteUnavailable));
            assert(action_views(actions@) =~= seq![HostActionView::Notice(Notice::PasteUnavailable)]);
        } else if s.paste_sequence == u64::MAX {
            push_action(&mut actions, HostAction::Stop);
            assert(action_views(actions@) =~= seq![HostActionView::Stop]);
        } else {
            let n = s.paste_sequence + 1;
            *self = HostState { paste_sequence: n, ..s };
            push_action(&mut actions, HostAction::StorePaste { sequence: n, text });
            assert(action_views(actions@) =~= seq![HostActionView::StorePaste { sequence: n, text: tv }]);
        }
        actions
    }

    /// After the loop stored a paste (`stored`) or found it too large for
    /// the bridge.
    #[verifier::spinoff_prover]
    pub fn paste_stored(&mut self, stored: bool) -> (r: Vec<HostAction>)
        requires
            host_wf(*old(self)),
            old(self).revision < u64::MAX,
        ensures
            host_wf(*final(self)),
            *final(self) == after_paste_stored(*old(self), stored).0,
            action_views(r@) == after_paste_stored(*old(self), stored).1,
    {
        let s = *self;
        let mut actions: Vec<HostAction> = Vec::new();
        if stored {
            self.invalidate(&mut actions);
            let t = *self;
            *self = HostState { dismissed: false, dirty: true, ..t };
            push_action(&mut actions, HostAction::Chord('p'));
            assert(action_views(actions@) =~= seq![HostActionView::ClearCompletion, HostActionView::Chord('p')]);
        } else {
            push_action(&mut actions, HostAction::Notice(Notice::PasteTooLarge));
            assert(action_views(actions@) =~= seq![HostActionView::Notice(Notice::PasteTooLarge)]);
        }
        actions
    }

    #[verifier::spinoff_prover]
    #[verifier::rlimit(100)]
    fn key_rest(&mut self, code: KeyCode, m: KeyModifiers, keys: &KeyBindings, screen: Screen, q: bool) -> (r: Vec<HostAction>)
        requires
            host_wf(*old(self)),
            old(self).revision < u64::MAX,
        ensures
            host_wf(*final(self)),
            *final(self) == after_key_rest(*old(self), code, m, *keys, screen, q).0,
            action_views(r@) == after_key_rest(*old(self), code, m, *keys, screen, q).1,
    {
        let s1 = *self;
        let s2 = allow_exec(s1, q);
        *self = s2;
        let mut actions: Vec<HostAction> = Vec::new();
        push_action(&mut actions, HostAction::ClearNotification);
        assert(action_views(actions@) =~= seq![HostActionView::ClearNotification]);
        if s2.details && s2.prompt && (code == KeyCode::PageDown || code == KeyCode::PageUp) {
            proof { lemma_rest_page(s1, code, m, *keys, screen, q); }
            *self = page_exec(s2, code, screen);
            return actions;
        }
        let input = key_input_of(&s1, code, m, keys, screen);
        match input {
            Some(i) => {
                proof { lemma_rest_some(s1, code, m, *keys, screen, q, i@); }
                let more = self.apply_input(i, screen, false, q);
                append_actions(&mut actions, more);
            },
            None => {
                proof { lemma_rest_none(s1, code, m, *keys, screen, q); }
            },
        }
        actions
    }

    #[verifier::spinoff_prover]
    fn paste_char(&mut self, c: char) -> (r: Vec<HostAction>)
        requires
            host_wf(*old(self)),
        ensures
            host_wf(*final(self)),
            *final(self) == after_paste(*old(self), seq![c]).0,
            action_views(r@) == after_paste(*old(self), seq![c]).1,
    {
        let mut t = String::new();
        push_char(&mut t, c);
        assert(t@ =~= seq![c]);
        self.paste(t)
    }

    #[verifier::spinoff_prover]
    fn enter(&mut self, x: char) -> (r: Vec<HostAction>)
        requires
            host_wf(*old(self)),
            old(self).revision < u64::MAX,
        ensures
            host_wf(*final(self)),
            *final(self) == after_enter(*old(self), x).0,
            action_views(r@) == after_enter(*old(self), x).1,
    {
        reveal(after_enter);
        let mut actions: Vec<HostAction> = Vec::new();
        push_action(&mut actions, HostAction::ClearNotification);
        self.invalidate(&mut actions);
        let t = *self;
        *self = HostState { prompt: false, searching: false, dirty: false, native_queued: false, ..t };
        push_action(&mut actions, HostAction::CancelWork);
        push_action(&mut actions, HostAction::Chord(x));
        assert(action_views(actions@) =~= seq![HostActionView::ClearNotification, HostActionView::ClearCompletion,
            HostActionView::CancelWork, HostActionView::Chord(x)]);
        actions
    }

    #[verifier::spinoff_prover]
    #[verifier::rlimit(100)]
    fn key_press(&mut self, code: KeyCode, m: KeyModifiers, keys: &KeyBindings, screen: Screen) -> (r: Vec<HostAction>)
        requires
            host_wf(*old(self)),
            old(self).revision < u64::MAX,
        ensures
            host_wf(*final(self)),
            *final(self) == after_key_press(*old(self), code, m, *keys, screen).0,
            action_views(r@) == after_key_press(*old(self), code, m, *keys, screen).1,
    {
        let s = *self;
        *self = nested_state(s, code, m);
        let s1 = *self;
        let q = query_exec(code, m);
        match bridged_exec(&s1, code, m) {
            Some(c) => {
                proof { lemma_press_bridged(s, code, m, *keys, screen, c); }
                return self.paste_char(c);
            },
            None => {},
        }
        match enter_suffix_exec(&s1, code, m) {
            Some(x) => {
                proof { lemma_press_enter(s, code, m, *keys, screen, x); }
                self.enter(x)
            },
            None => {
                proof { lemma_press_rest(s, code, m, *keys, screen); }
                self.key_rest(code, m, keys, screen, q)
            },
        }
    }

    /// What a terminal event does at the shell's prompt, as `spec_key` says.
    #[verifier::spinoff_prover]
    pub fn key(&mut self, event: Event, keys: &KeyBindings, screen: Screen) -> (r: Vec<HostAction>)
        requires
            host_wf(*old(self)),
            old(self).revision < u64::MAX,
        ensures
            host_wf(*final(self)),
            *final(self) == spec_key(*old(self), event, *keys, screen).0,
            action_views(r@) == spec_key(*old(self), event, *keys, screen).1,
    {
        let s = *self;
        match event {
            Event::Key { code, modifiers, release } => {
                if release {
                    let r: Vec<HostAction> = Vec::new();
                    assert(action_views(r@) =~= Seq::<HostActionView>::empty());
                    r
                } else {
                    self.key_press(code, modifiers, keys, screen)
                }
            },
            Event::Paste(t) => {
                if s.prompt {
                    self.paste(t)
                } else {
                    *self = HostState { commands_allowed: !s.nested_edit, ..s };
                    let mut actions: Vec<HostAction> = Vec::new();
                    push_action(&mut actions, HostAction::ClearNotification);
                    assert(action_views(actions@) =~= seq![HostActionView::ClearNotification]);
                    match translate(Event::Paste(t), screen.application_cursor, screen.windows) {
                        Some(i) => {
                            let more = self.apply_input(i, screen, true, true);
                            append_actions(&mut actions, more);
                        },
                        None => {},
                    }
                    actions
                }
            },
            Event::Resize(c, r) => self.apply_input(Input::Resize(c, r), screen, false, true),
            Event::Other => {
                let r: Vec<HostAction> = Vec::new();
                assert(action_views(r@) =~= Seq::<HostActionView>::empty());
                r
            },
        }
    }
}

/// Enter keeps the shell's own Enter: at a ready prompt whose adapter
/// registered its Enter handler, a plain Enter sends the host's `e` chord
/// (never a raw carriage return), leaves the prompt and gives up the menu.
pub proof fn law_enter_runs_the_shell_enter(s: HostState, keys: KeyBindings, screen: Screen)
    requires
        s.prompt,
        s.ready,
        s.enter_ready,
        s.revision < u64::MAX,
    ensures
        ({
            let (s2, a) = spec_key(s, Event::Key { code: KeyCode::Enter, modifiers: KeyModifiers { shift: false, alt: false, control: false }, release: false }, keys, screen);
            &&& a == seq![HostActionView::ClearNotification, HostActionView::ClearCompletion, HostActionView::CancelWork, HostActionView::Chord('e')]
            &&& !s2.prompt
            &&& s2.revision == s.revision + 1
        }),
{
    reveal(after_key_press);
    reveal(after_enter);
    reveal(set_nested);
    reveal(nested_after);
    reveal(bridged);
    reveal(enter_suffix);
}



/// A buffer reply to a stale query is dropped: when the query in flight
/// was sent under an older revision (the line changed since), the reply
/// neither sets the line nor asks for completion, and no query is awaited
/// any more.
pub proof fn law_stale_buffer_is_dropped(s: HostState, env: Option<(Seq<char>, Seq<char>)>, line: Option<String>, cursor: Option<usize>)
    requires
        s.pending_query matches Some(r) && r != s.revision,
    ensures
        spec_message(s, env, HostMessage::Buffer { line, cursor }).2 == Seq::<HostActionView>::empty(),
        spec_message(s, env, HostMessage::Buffer { line, cursor }).0 == (HostState { pending_query: None, ..s }),
{
    reveal(spec_message);
    reveal(after_buffer);
}

/// The reply to a cursor position query (`ESC [ 6 n`, or `ESC [ ? 6 n`
/// when `private`): `ESC [` (`?`) row `;` column `R`, counted from one.
pub open spec fn spec_cursor_report(private: bool, row: u16, col: u16) -> Seq<u8> {
    seq![0x1bu8, 0x5bu8] + (if private { seq![0x3fu8] } else { Seq::empty() })
        + decimal_bytes(row as nat + 1) + seq![0x3bu8] + decimal_bytes(col as nat + 1) + seq![0x52u8]
}

/// The reply to a cursor position query at `row` and `col` (from zero).
pub fn cursor_report(private: bool, row: u16, col: u16) -> (r: Vec<u8>)
    ensures
        r@ == spec_cursor_report(private, row, col),
{
    let mut r: Vec<u8> = vec![0x1bu8, 0x5bu8];
    if private {
        r.push(0x3fu8);
    }
    let ghost head = r@;
    let rows = decimal_vec(row as usize + 1);
    let cols = decimal_vec(col as usize + 1);
    let mut i: usize = 0;
    while i < rows.len()
        invariant
            i <= rows@.len(),
            r@ == head + rows@.take(i as int),
        decreases rows@.len() - i,
    {
        r.push(rows[i]);
        assert(rows@.take(i as int + 1) =~= rows@.take(i as int).push(rows@[i as int]));
        i = i + 1;
    }
    assert(rows@.take(i as int) =~= rows@);
    r.push(0x3bu8);
    let ghost mid = r@;
    let mut j: usize = 0;
    while j < cols.len()
        invariant
            j <= cols@.len(),
            r@ == mid + cols@.take(j as int),
        decreases cols@.len() - j,
    {
        r.push(cols[j]);
        assert(cols@.take(j as int + 1) =~= cols@.take(j as int).push(cols@[j as int]));
        j = j + 1;
    }
    assert(cols@.take(j as int) =~= cols@);
    r.push(0x52u8);
    assert(r@ =~= spec_cursor_report(private, row, col));
    r
}

/// The first position whose identity is `id`, if any.
pub open spec fn position_of(ids: Seq<Seq<char>>, id: Seq<char>) -> Option<int> {
    if exists|i: int| 0 <= i < ids.len() && ids[i] == id {
        Some(choose|i: int| 0 <= i < ids.len() && ids[i] == id && forall|j: int| 0 <= j < i ==> ids[j] != id)
    } else {
        None
    }
}

impl HostState {
    /// A completion computed under `revision` is shown only when it is still
    /// current: same revision, at the prompt, menu not dismissed, and not
    /// over the shell's own completion.
    pub fn accepts_completion(&self, revision: u64) -> (r: bool)
        ensures
            r == (revision == self.revision && self.prompt && !self.dismissed && !self.native_menu),
    {
        revision == self.revision && self.prompt && !self.dismissed && !self.native_menu
    }

    /// A completion shown: `ids` are the identities of its candidates; the
    /// candidate selected before (`previous`) stays selected when it is
    /// still offered, else the first is.
    pub fn show_completion(&mut self, ids: &Vec<String>, previous: Option<&str>)
        ensures
            host_wf(*final(self)),
            final(self).candidates == ids@.len(),
            final(self).selected as int == match previous {
                Some(p) => match position_of(ids@.map_values(|x: String| x@), p@) {
                    Some(i) => i,
                    None => 0,
                },
                None => 0,
            },
            *final(self) == (HostState { candidates: final(self).candidates, selected: final(self).selected, ..*old(self) }),
    {
        let ghost v = ids@.map_values(|x: String| x@);
        let mut selected: usize = 0;
        match previous {
            Some(p) => {
                let mut i: usize = 0;
                let mut found = false;
                while i < ids.len() && !found
                    invariant
                        i <= ids@.len(),
                        v == ids@.map_values(|x: String| x@),
                        forall|j: int| 0 <= j < i ==> v[j] != p@,
                        found ==> i < ids@.len() && v[i as int] == p@,
                    decreases ids@.len() - i + (if found { 0int } else { 1int }),
                {
                    if crate::text::str_eq(ids[i].as_str(), p) {
                        found = true;
                    } else {
                        i = i + 1;
                    }
                }
                if found {
                    assert(v[i as int] == p@);
                    let ghost k = choose|k: int| 0 <= k < v.len() && v[k] == p@ && forall|j: int| 0 <= j < k ==> v[j] != p@;
                    assert(k == i as int) by {
                        assert(0 <= k < v.len() && v[k] == p@ && forall|j: int| 0 <= j < k ==> v[j] != p@);
                        if k < i as int {
                            assert(v[k] != p@);
                        } else if k > i as int {
                            assert(v[i as int] != p@);
                        }
                    }
                    selected = i;
                } else {
                    assert(!exists|k: int| 0 <= k < v.len() && v[k] == p@);
                }
            },
            None => {},
        }
        let s = *self;
        *self = HostState { candidates: ids.len(), selected, ..s };
        proof { reveal(menu_wf); }
    }
}


/// A configuration reloaded: new shortcuts wait to be registered with the
/// shell, the menu is given up, and the line is asked for again with
/// completion shown.
#[verifier::opaque]
pub open spec fn after_reload(s: HostState, keys_changed: bool) -> HostState {
    HostState {
        reset_pending: s.reset_pending || keys_changed,
        dirty: s.prompt,
        explicit: true,
        dismissed: false,
        ..invalidated(s)
    }
}

impl HostState {
    /// After the loop reloaded the configuration (`keys_changed` when its
    /// shortcuts differ from the ones registered).
    #[verifier::spinoff_prover]
    pub fn reloaded(&mut self, keys_changed: bool) -> (r: Vec<HostAction>)
        requires
            old(self).revision < u64::MAX,
        ensures
            host_wf(*final(self)),
            *final(self) == after_reload(*old(self), keys_changed),
            action_views(r@) == seq![HostActionView::ClearCompletion],
    {
        reveal(after_reload);
        let s = *self;
        let mut actions: Vec<HostAction> = Vec::new();
        self.invalidate(&mut actions);
        let t = *self;
        *self = HostState { reset_pending: s.reset_pending || keys_changed, dirty: s.prompt, explicit: true, dismissed: false, ..t };
        assert(action_views(actions@) =~= seq![HostActionView::ClearCompletion]);
        actions
    }
}


/// The command whose metadata a line asks for: the word being typed in
/// command position, else the line's command.
pub open spec fn metadata_name(context: InputContext) -> Seq<char> {
    if context.command_position { context.prefix@ } else { context.command@ }
}

/// A character of a plain command name: a letter or digit, `-` or `_`.
pub open spec fn name_char(c: char) -> bool {
    unicode_alphanumeric(c) || c == '-' || c == '_'
}

/// A command name confirmed by its place: an argument follows it, and it
/// is a plain name of at most 128 bytes.
pub open spec fn confirmed_name(context: InputContext) -> bool {
    let name = metadata_name(context);
    &&& !context.command_position
    &&& !context.suppressed
    &&& name.len() > 0
    &&& utf8_len(name) <= 128
    &&& forall|i: int| 0 <= i < name.len() ==> name_char(#[trigger] name[i])
}

/// The shell reports a function or cmdlet of this name (ASCII case
/// ignored).
pub open spec fn session_function(commands: Seq<ShellCommand>, name: Seq<char>) -> bool {
    exists|i: int| 0 <= i < commands.len() && lower((#[trigger] commands[i]).name@) == lower(name)
        && (commands[i].kind@ == "function"@ || commands[i].kind@ == "cmdlet"@)
}

/// The command whose metadata the line asks for, if any: at a prompt of an
/// adapter that serves metadata, on a single-line command that completion
/// is not suppressed for, when the name is confirmed by its place or the
/// shell reports a function or cmdlet of that name.
pub open spec fn metadata_wanted(metadata_ready: bool, prompt: bool, line: Seq<char>, context: InputContext,
    commands: Seq<ShellCommand>) -> Option<Seq<char>>
{
    if !metadata_ready || !prompt || context.suppressed || has_char(line, '\n') || has_char(line, '\r') {
        None
    } else if confirmed_name(context) || session_function(commands, metadata_name(context)) {
        Some(metadata_name(context))
    } else {
        None
    }
}

#[verifier::spinoff_prover]
fn all_name_chars(name: &Vec<char>) -> (r: bool)
    ensures
        r == forall|i: int| 0 <= i < name@.len() ==> name_char(#[trigger] name@[i]),
{
    let mut i: usize = 0;
    while i < name.len()
        invariant
            i <= name@.len(),
            forall|j: int| 0 <= j < i ==> name_char(#[trigger] name@[j]),
        decreases name@.len() - i,
    {
        let c = name[i];
        if !(is_alphanumeric(c) || c == '-' || c == '_') {
            assert(!name_char(name@[i as int]));
            return false;
        }
        i = i + 1;
    }
    true
}

#[verifier::spinoff_prover]
fn reports_function(commands: &Vec<ShellCommand>, name: &str) -> (r: bool)
    ensures
        r == session_function(commands@, name@),
{
    proof {
        reveal_strlit("function");
        reveal_strlit("cmdlet");
    }
    let key = lower_chars(chars_of(name).as_slice());
    let mut i: usize = 0;
    while i < commands.len()
        invariant
            i <= commands@.len(),
            key@ == lower(name@),
            forall|j: int| 0 <= j < i ==> !(lower((#[trigger] commands@[j]).name@) == lower(name@)
                && (commands@[j].kind@ == "function"@ || commands@[j].kind@ == "cmdlet"@)),
        decreases commands@.len() - i,
    {
        let c = &commands[i];
        let n = lower_chars(chars_of(c.name.as_str()).as_slice());
        if chars_eq(n.as_slice(), key.as_slice()) && (str_eq(c.kind.as_str(), "function") || str_eq(c.kind.as_str(), "cmdlet")) {
            return true;
        }
        i = i + 1;
    }
    false
}

/// The command whose metadata to ask for after the line changed, as
/// [`metadata_wanted`] says, asked for once per name: `seen` holds the
/// names already asked for since the prompt and gains the one returned.
/// `commands` are the shell's functions and cmdlets as its snapshot holds
/// them.
#[verifier::spinoff_prover]
pub fn metadata_target(metadata_ready: bool, prompt: bool, line: &str, context: &InputContext,
    commands: &Vec<ShellCommand>, seen: &mut Vec<String>) -> (r: Option<String>)
    ensures
        match metadata_wanted(metadata_ready, prompt, line@, *context, commands@) {
            Some(n) => if string_views(old(seen)@).contains(n) {
                &&& r is None
                &&& final(seen)@ == old(seen)@
            } else {
                &&& r matches Some(x) && x@ == n
                &&& string_views(final(seen)@) == string_views(old(seen)@).push(n)
            },
            None => r is None && final(seen)@ == old(seen)@,
        },
{
    let lc = chars_of(line);
    if !metadata_ready || !prompt || context.suppressed || chars_contain(lc.as_slice(), '\n')
        || chars_contain(lc.as_slice(), '\r') {
        return None;
    }
    assert(!has_char(line@, '\n') && !has_char(line@, '\r'));
    let name: &str = if context.command_position { context.prefix.as_str() } else { context.command.as_str() };
    let chars = chars_of(name);
    let confirmed = !context.command_position && !context.suppressed && chars.len() > 0 && byte_len(name) <= 128
        && all_name_chars(&chars);
    assert(name@ == metadata_name(*context));
    assert(confirmed == confirmed_name(*context));
    let reported = reports_function(commands, name);
    if !(confirmed || reported) {
        assert(metadata_wanted(metadata_ready, prompt, line@, *context, commands@) is None);
        return None;
    }
    assert(metadata_wanted(metadata_ready, prompt, line@, *context, commands@) == Some(name@));
    let mut i: usize = 0;
    while i < seen.len()
        invariant
            i <= seen@.len(),
            seen@ == old(seen)@,
            metadata_wanted(metadata_ready, prompt, line@, *context, commands@) == Some(name@),
            forall|j: int| 0 <= j < i ==> (#[trigger] seen@[j])@ != name@,
        decreases seen@.len() - i,
    {
        if str_eq(seen[i].as_str(), name) {
            assert(string_views(seen@)[i as int] == name@);
            assert(string_views(old(seen)@).contains(name@));
            return None;
        }
        i = i + 1;
    }
    assert(!string_views(old(seen)@).contains(name@)) by {
        if string_views(old(seen)@).contains(name@) {
            let k = choose|k: int| 0 <= k < string_views(old(seen)@).len() && string_views(old(seen)@)[k] == name@;
            assert(seen@[k]@ == name@);
        }
    }
    let mut owned = String::new();
    crate::text::push_str(&mut owned, name);
    let mut again = String::new();
    crate::text::push_str(&mut again, name);
    seen.push(owned);
    assert(string_views(seen@) =~= string_views(old(seen)@).push(name@));
    Some(again)
}

impl HostState {
    /// A metadata request was scheduled: it waits to be sent.
    pub fn metadata_scheduled(&mut self)
        ensures
            *final(self) == (HostState { metadata_pending: true, ..*old(self) }),
    {
        let s = *self;
        *self = HostState { metadata_pending: true, ..s };
    }
}

} // verus!
