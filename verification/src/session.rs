//! The state of a completion session with the shell: the confirmed query,
//! the frames shown for it, and the acceptance of a shown candidate.
//!
//! A query and the frames shown for it are kept apart: results that
//! arrive later never change which candidate an acceptance request
//! identifies.
use vstd::prelude::*;
use crate::model::{candidate_views, spec_identity, Candidate, CandidateView, Completion, CompletionView};
use crate::protocol::{
    byte_to_utf16, is_utf16_boundary, lemma_utf16_offset, lemma_utf16_offset_monotone, utf16_boundary_at_byte,
    utf16_offset, utf16_to_byte,
};
use crate::text::{byte_len, str_eq, utf16_len, utf8_len};
use crate::form::FormError;
use crate::forms::{CommandTemplate, TemplateParameter};
use crate::workbench::{keyed, Workbench, WorkbenchAction, WorkbenchError};

verus! {

/// A query confirmed by the shell: its revision, line and UTF-16 cursor,
/// and the terminal size.
#[derive(Debug, Clone, Default)]
pub struct Query {
    pub revision: Option<u64>,
    pub line: Option<String>,
    pub cursor: Option<u64>,
    pub width: Option<u64>,
    pub rows: Option<u64>,
}

/// Why a query is refused.
#[derive(Debug, Clone, Copy, PartialEq, Eq, Structural)]
pub enum QueryError {
    MissingRevision,
    StaleRevision,
    MissingLine,
    MissingCursor,
    InvalidCursor,
}

impl QueryError {
    /// The message reported for the error.
    pub fn message(&self) -> (r: &'static str)
        ensures
            r@ == match self {
                QueryError::MissingRevision => "missing revision"@,
                QueryError::StaleRevision => "stale query revision"@,
                QueryError::MissingLine => "missing confirmed line"@,
                QueryError::MissingCursor => "missing confirmed cursor"@,
                QueryError::InvalidCursor => "invalid UTF-16 cursor"@,
            },
    {
        match self {
            QueryError::MissingRevision => "missing revision",
            QueryError::StaleRevision => "stale query revision",
            QueryError::MissingLine => "missing confirmed line",
            QueryError::MissingCursor => "missing confirmed cursor",
            QueryError::InvalidCursor => "invalid UTF-16 cursor",
        }
    }
}

/// A frame shown to the user: its number, the identity and value of its
/// selected candidate, and the completion it came from.
pub struct Shown {
    pub frame: u64,
    pub identity: Seq<char>,
    pub candidate: CandidateView,
    pub completion: CompletionView,
}

/// What the user is interacting with when a frame is drawn.
#[derive(Debug, Clone, Copy, PartialEq, Eq, Structural)]
pub enum Interaction {
    Completion,
    Hub,
    Form,
}

/// What a frame that has been drawn reports: also how many rows the text
/// after the cursor may take, and what the user is interacting with.
#[derive(Debug)]
pub struct Frame {
    pub revision: u64,
    pub frame_id: u64,
    pub candidate_id: String,
    pub expected_line: String,
    pub expected_cursor: Option<usize>,
    pub incomplete: bool,
    pub tail_rows: usize,
    pub interaction: Interaction,
}

/// The text of `s` after the byte offset `byte`, if it is a character
/// boundary.
pub open spec fn tail_after(s: Seq<char>, byte: int) -> Seq<char> {
    if crate::lexer::is_boundary(s, byte) { s.skip(crate::engine::char_at(s, byte)) } else { Seq::empty() }
}

/// What the user interacts with: a form, the workbench, or the menu.
pub open spec fn interaction_of(ui: Option<Workbench>) -> Interaction {
    match ui {
        Some(w) => if w.form is Some { Interaction::Form } else { Interaction::Hub },
        None => Interaction::Completion,
    }
}

fn tail_text(line: &str, cursor: usize) -> (r: String)
    ensures
        r@ == tail_after(line@, cursor as int),
{
    let chars = crate::text::chars_of(line);
    match crate::lexer::boundary_index(line, cursor) {
        Some(i) => {
            proof {
                crate::lexer::lemma_boundary_unique(line@, i as int, crate::engine::char_at(line@, cursor as int), cursor as int);
            }
            let r = crate::text::string_of_range(chars.as_slice(), i, chars.len());
            assert(r@ =~= line@.skip(i as int));
            r
        },
        None => String::new(),
    }
}

/// A request to accept the candidate of a frame.
#[derive(Debug, Clone, Default)]
pub struct AcceptRequest {
    pub revision: Option<u64>,
    pub frame_id: Option<u64>,
    pub candidate_id: Option<String>,
    pub line: Option<String>,
    pub cursor: Option<u64>,
}

/// The value of an [`AcceptRequest`].
pub struct AcceptView {
    pub revision: Option<u64>,
    pub frame_id: Option<u64>,
    pub candidate_id: Option<Seq<char>>,
    pub line: Option<Seq<char>>,
    pub cursor: Option<u64>,
}

pub open spec fn opt_view(s: Option<String>) -> Option<Seq<char>> {
    match s {
        Some(x) => Some(x@),
        None => None,
    }
}

impl View for AcceptRequest {
    type V = AcceptView;

    open spec fn view(&self) -> AcceptView {
        AcceptView {
            revision: self.revision,
            frame_id: self.frame_id,
            candidate_id: opt_view(self.candidate_id),
            line: opt_view(self.line),
            cursor: self.cursor,
        }
    }
}

/// The edit that accepting a candidate makes to the shell's buffer, in
/// UTF-16 code units.
#[derive(Debug)]
pub struct Edit {
    pub revision: u64,
    pub frame_id: u64,
    pub candidate_id: String,
    pub expected_line: String,
    pub expected_cursor: u64,
    pub start: usize,
    pub length: usize,
    pub text: String,
}

/// The value of an [`Edit`].
pub struct EditView {
    pub revision: u64,
    pub frame_id: u64,
    pub candidate_id: Seq<char>,
    pub expected_line: Seq<char>,
    pub expected_cursor: u64,
    pub start: int,
    pub length: int,
    pub text: Seq<char>,
}

impl View for Edit {
    type V = EditView;

    open spec fn view(&self) -> EditView {
        EditView {
            revision: self.revision,
            frame_id: self.frame_id,
            candidate_id: self.candidate_id@,
            expected_line: self.expected_line@,
            expected_cursor: self.expected_cursor,
            start: self.start as int,
            length: self.length as int,
            text: self.text@,
        }
    }
}

/// Index of the frame numbered `f`.
pub open spec fn find_frame(visible: Seq<Shown>, f: u64) -> Option<int>
    decreases visible.len(),
{
    if visible.len() == 0 {
        None
    } else {
        match find_frame(visible.drop_last(), f) {
            Some(k) => Some(k),
            None => if visible.last().frame == f { Some(visible.len() - 1) } else { None },
        }
    }
}

/// The text a candidate inserts: a space is added when it asks for one,
/// the replaced range reaches the end of the line and it does not end
/// with a space already.
pub open spec fn inserted_text(c: CandidateView, end: int, line: Seq<char>) -> Seq<char> {
    if c.append_space && end == utf8_len(line) && !(c.insert_text.len() > 0 && c.insert_text.last() == ' ') {
        c.insert_text.push(' ')
    } else {
        c.insert_text
    }
}

/// The edit that an acceptance request makes: only for a frame still
/// shown, with the revision, candidate, line and cursor it was shown for.
pub open spec fn accepted(revision: u64, line: Seq<char>, cursor: usize, visible: Seq<Shown>, a: AcceptView) -> Option<EditView> {
    match a.frame_id {
        None => None,
        Some(f) => match find_frame(visible, f) {
            None => None,
            Some(k) => {
                let shown = visible[k];
                if !(a.revision == Some(revision) && a.candidate_id == Some(shown.identity) && a.line == Some(line)
                    && a.cursor is Some && utf16_offset(line, cursor as int) == Some(a.cursor->Some_0 as int)) {
                    None
                } else {
                    let st = shown.completion.replace_start as int;
                    let en = shown.completion.replace_end as int;
                    if en < st {
                        None
                    } else {
                        match (utf16_offset(line, st), utf16_offset(line, en)) {
                            (Some(u1), Some(u2)) => Some(EditView {
                                revision,
                                frame_id: shown.frame,
                                candidate_id: shown.identity,
                                expected_line: line,
                                expected_cursor: a.cursor->Some_0,
                                start: u1,
                                length: u2 - u1,
                                text: inserted_text(shown.candidate, en, line),
                            }),
                            _ => None,
                        }
                    }
                }
            },
        },
    }
}

/// Index of the first candidate with the given identity.
pub open spec fn find_identity(cs: Seq<CandidateView>, id: Seq<char>) -> Option<int>
    decreases cs.len(),
{
    if cs.len() == 0 {
        None
    } else {
        match find_identity(cs.drop_last(), id) {
            Some(k) => Some(k),
            None => if spec_identity(cs.last()) == id { Some(cs.len() - 1) } else { None },
        }
    }
}

/// The candidate selected in a new frame: the one with the identity
/// selected before, if it is still there, else the same position, within
/// the list.
pub open spec fn reselected(selected: usize, selected_id: Option<Seq<char>>, cs: Seq<CandidateView>) -> int {
    let s = match selected_id {
        Some(id) => match find_identity(cs, id) {
            Some(k) => k,
            None => selected as int,
        },
        None => selected as int,
    };
    let last = if cs.len() > 0 { cs.len() - 1 } else { 0 };
    if s < last { s } else { last }
}

/// The frames kept: the latest 32.
pub open spec fn kept(v: Seq<Shown>) -> Seq<Shown> {
    if v.len() > 32 { v.skip(v.len() - 32) } else { v }
}

/// Frame numbers only grow, and none is beyond the session's count.
pub open spec fn frames_ordered(v: Seq<Shown>, frame: u64) -> bool {
    &&& forall|i: int, j: int| 0 <= i < j < v.len() ==> #[trigger] v[i].frame < #[trigger] v[j].frame
    &&& forall|i: int| 0 <= i < v.len() ==> #[trigger] v[i].frame <= frame
}

/// A completion session.
#[derive(Debug)]
pub struct Session {
    revision: u64,
    line: String,
    cursor: usize,
    width: u16,
    rows: usize,
    frame: u64,
    visible: Vec<(u64, String, Candidate, Completion)>,
    accepting: bool,
    selected: usize,
    selected_id: Option<String>,
    details: bool,
    ui: Option<Workbench>,
    values_requested: u64,
}

pub open spec fn shown_of(e: (u64, String, Candidate, Completion)) -> Shown {
    Shown { frame: e.0, identity: e.1@, candidate: e.2@, completion: e.3@ }
}

impl Session {
    pub closed spec fn spec_revision(&self) -> u64 {
        self.revision
    }

    pub closed spec fn spec_line(&self) -> Seq<char> {
        self.line@
    }

    /// The cursor, a UTF-8 byte offset into the line.
    pub closed spec fn spec_cursor(&self) -> usize {
        self.cursor
    }

    pub closed spec fn spec_width(&self) -> u16 {
        self.width
    }

    pub closed spec fn spec_rows(&self) -> usize {
        self.rows
    }

    /// How many frames have been drawn.
    pub closed spec fn spec_frame(&self) -> u64 {
        self.frame
    }

    /// The frames still shown, oldest first.
    pub closed spec fn spec_visible(&self) -> Seq<Shown> {
        self.visible@.map_values(|e: (u64, String, Candidate, Completion)| shown_of(e))
    }

    pub closed spec fn spec_selected(&self) -> usize {
        self.selected
    }

    pub closed spec fn spec_selected_id(&self) -> Option<Seq<char>> {
        opt_view(self.selected_id)
    }

    /// Whether the details of the selected candidate are shown.
    pub closed spec fn spec_details(&self) -> bool {
        self.details
    }

    /// Whether an edit has been sent and its confirmation is awaited.
    pub closed spec fn spec_accepting(&self) -> bool {
        self.accepting
    }

    /// The open workbench, if any.
    pub closed spec fn spec_ui(&self) -> Option<Workbench> {
        self.ui
    }

    /// The workbench generation whose field values were last asked for.
    pub closed spec fn spec_values_requested(&self) -> u64 {
        self.values_requested
    }

    pub open spec fn wf(&self) -> bool {
        &&& frames_ordered(self.spec_visible(), self.spec_frame())
        &&& self.spec_visible().len() <= 32
        &&& self.spec_ui() matches Some(w) ==> w.wf()
    }

    /// A session before any query.
    pub fn new() -> (r: Session)
        ensures
            r.wf(),
            r.spec_revision() == 0,
            r.spec_line().len() == 0,
            r.spec_cursor() == 0,
            r.spec_width() == 120,
            r.spec_rows() == 30,
            r.spec_frame() == 0,
            r.spec_visible().len() == 0,
            r.spec_selected() == 0,
            r.spec_selected_id() is None,
            r.spec_ui() is None,
    {
        let r = Session {
            revision: 0,
            line: String::new(),
            cursor: 0,
            width: 120,
            rows: 30,
            frame: 0,
            visible: Vec::new(),
            accepting: false,
            selected: 0,
            selected_id: None,
            details: false,
            ui: None,
            values_requested: 0,
        };
        assert(r.spec_visible() =~= Seq::<Shown>::empty());
        r
    }
}

/// A value clamped into `1..=512`.
pub open spec fn clamp_size(v: u64) -> u64 {
    if v < 1 { 1 } else if v > 512 { 512 } else { v }
}

fn clamp_size_exec(v: u64) -> (r: u64)
    ensures
        r == clamp_size(v),
{
    if v < 1 { 1 } else if v > 512 { 512 } else { v }
}

/// Why a query is refused, if it is.
pub open spec fn query_fault(revision: u64, q: Query) -> Option<QueryError> {
    match q.revision {
        None => Some(QueryError::MissingRevision),
        Some(r) => if r <= revision {
            Some(QueryError::StaleRevision)
        } else {
            match q.line {
                None => Some(QueryError::MissingLine),
                Some(line) => match q.cursor {
                    None => Some(QueryError::MissingCursor),
                    Some(c) => if c > usize::MAX || !is_utf16_boundary(line@, c as int) {
                        Some(QueryError::InvalidCursor)
                    } else {
                        None
                    },
                },
            }
        },
    }
}

impl Session {
    /// Confirm a new query: a later revision with its line and a cursor on
    /// a UTF-16 character boundary. Frames shown for earlier queries can
    /// no longer be accepted. A refused query changes nothing.
    pub fn query(&mut self, q: &Query) -> (r: Result<(), QueryError>)
        requires
            old(self).wf(),
        ensures
            final(self).wf(),
            final(self).spec_frame() == old(self).spec_frame(),
            match query_fault(old(self).spec_revision(), *q) {
                Some(e) => r == Err::<(), QueryError>(e) && *final(self) == *old(self),
                None => r is Ok && final(self).spec_revision() == q.revision->Some_0
                    && final(self).spec_line() == q.line->Some_0@
                    && utf16_boundary_at_byte(final(self).spec_line(), q.cursor->Some_0 as int, final(self).spec_cursor() as int)
                    && final(self).spec_width() == clamp_size(match q.width { Some(w) => w, None => 120 })
                    && final(self).spec_rows() == clamp_size(match q.rows { Some(w) => w, None => 30 })
                    && final(self).spec_visible().len() == 0
                    && final(self).spec_selected() == 0
                    && final(self).spec_selected_id() is None
                    && !final(self).spec_accepting()
                    && final(self).spec_details() == old(self).spec_details()
                    && final(self).spec_ui() == old(self).spec_ui()
                    && final(self).spec_values_requested() == old(self).spec_values_requested(),
            },
    {
        let revision = match q.revision {
            Some(r) => r,
            None => return Err(QueryError::MissingRevision),
        };
        if revision <= self.revision {
            return Err(QueryError::StaleRevision);
        }
        let line = match &q.line {
            Some(l) => l,
            None => return Err(QueryError::MissingLine),
        };
        let cursor16 = match q.cursor {
            Some(c) => c,
            None => return Err(QueryError::MissingCursor),
        };
        if cursor16 > usize::MAX as u64 {
            return Err(QueryError::InvalidCursor);
        }
        let cursor = match utf16_to_byte(line.as_str(), cursor16 as usize) {
            Some(c) => c,
            None => return Err(QueryError::InvalidCursor),
        };
        self.revision = revision;
        self.line = line.clone();
        self.cursor = cursor;
        self.width = clamp_size_exec(match q.width { Some(w) => w, None => 120 }) as u16;
        self.rows = clamp_size_exec(match q.rows { Some(w) => w, None => 30 }) as usize;
        self.visible = Vec::new();
        self.accepting = false;
        self.selected = 0;
        self.selected_id = None;
        assert(self.spec_visible() =~= Seq::<Shown>::empty());
        Ok(())
    }
}


/// The frame shown for a completion in a session: the selected candidate
/// and, if there is one, the frame kept for its acceptance.
pub open spec fn shown_frame(frame: u64, selected: usize, selected_id: Option<Seq<char>>, c: CompletionView) -> Option<Shown> {
    let sel = reselected(selected, selected_id, c.candidates);
    if sel < c.candidates.len() {
        Some(Shown { frame: (frame + 1) as u64, identity: spec_identity(c.candidates[sel]), candidate: c.candidates[sel], completion: c })
    } else {
        None
    }
}

proof fn lemma_find_identity(cs: Seq<CandidateView>, id: Seq<char>)
    ensures
        find_identity(cs, id) matches Some(k) ==> 0 <= k < cs.len() && spec_identity(cs[k]) == id
            && forall|j: int| 0 <= j < k ==> spec_identity(#[trigger] cs[j]) != id,
        find_identity(cs, id) is None ==> forall|j: int| 0 <= j < cs.len() ==> spec_identity(#[trigger] cs[j]) != id,
    decreases cs.len(),
{
    if cs.len() > 0 {
        lemma_find_identity(cs.drop_last(), id);
        assert forall|j: int| 0 <= j < cs.len() - 1 implies cs.drop_last()[j] == cs[j] by {}
    }
}

fn find_identity_exec(cs: &Vec<Candidate>, id: &str) -> (r: Option<usize>)
    ensures
        match find_identity(candidate_views(cs@), id@) {
            Some(k) => r is Some && r->Some_0 == k,
            None => r is None,
        },
{
    let ghost cv = candidate_views(cs@);
    proof {
        lemma_find_identity(cv, id@);
    }
    let mut i: usize = 0;
    while i < cs.len()
        invariant
            cv == candidate_views(cs@),
            i <= cs@.len(),
            forall|j: int| 0 <= j < i ==> spec_identity(#[trigger] cv[j]) != id@,
        decreases cs@.len() - i,
    {
        if str_eq(cs[i].identity(), id) {
            proof {
                lemma_find_identity(cv, id@);
                assert(spec_identity(cv[i as int]) == id@);
                if let Some(k) = find_identity(cv, id@) {
                    if k < i {
                        assert(spec_identity(cv[k]) != id@);
                    }
                }
            }
            return Some(i);
        }
        i = i + 1;
    }
    None
}

impl Session {
    /// Draw a frame for a completion: keep the selection on the candidate
    /// selected before when it is still listed, remember the frame and its
    /// candidate for acceptance (the latest 32 frames are kept), and report
    /// the frame.
    pub fn render(&mut self, completion: Completion) -> (r: Frame)
        requires
            old(self).wf(),
            old(self).spec_frame() < u64::MAX,
        ensures
            final(self).wf(),
            final(self).spec_revision() == old(self).spec_revision(),
            final(self).spec_line() == old(self).spec_line(),
            final(self).spec_cursor() == old(self).spec_cursor(),
            final(self).spec_frame() == old(self).spec_frame() + 1,
            final(self).spec_details() == old(self).spec_details(),
            final(self).spec_selected() == reselected(old(self).spec_selected(), old(self).spec_selected_id(), completion@.candidates),
            ({
                match shown_frame(old(self).spec_frame(), old(self).spec_selected(), old(self).spec_selected_id(), completion@) {
                    Some(sh) => final(self).spec_visible() == kept(old(self).spec_visible().push(sh))
                        && r.candidate_id@ == sh.identity
                        && (if sh.identity.len() > 0 { final(self).spec_selected_id() == Some(sh.identity) } else { final(self).spec_selected_id() is None }),
                    None => final(self).spec_visible() == old(self).spec_visible() && r.candidate_id@.len() == 0
                        && final(self).spec_selected_id() is None,
                }
            }),
            r.revision == old(self).spec_revision(),
            r.frame_id == old(self).spec_frame() + 1,
            r.expected_line@ == old(self).spec_line(),
            match utf16_offset(old(self).spec_line(), old(self).spec_cursor() as int) {
                Some(u) => r.expected_cursor == Some(u as usize),
                None => r.expected_cursor is None,
            },
            r.incomplete == completion.incomplete,
            r.tail_rows as nat == (if crate::layout::spec_tail_rows(tail_after(old(self).spec_line(), old(self).spec_cursor() as int), old(self).spec_width()) < usize::MAX {
                crate::layout::spec_tail_rows(tail_after(old(self).spec_line(), old(self).spec_cursor() as int), old(self).spec_width())
            } else {
                usize::MAX as nat
            }),
            r.interaction == interaction_of(old(self).spec_ui()),
            final(self).spec_ui() == old(self).spec_ui(),
            final(self).spec_width() == old(self).spec_width(),
            final(self).spec_rows() == old(self).spec_rows(),
            final(self).spec_accepting() == old(self).spec_accepting(),
            final(self).spec_values_requested() == old(self).spec_values_requested(),
    {
        self.frame = self.frame + 1;
        let ghost cv = candidate_views(completion.candidates@);
        let mut sel = self.selected;
        match &self.selected_id {
            Some(id) => {
                match find_identity_exec(&completion.candidates, id.as_str()) {
                    Some(k) => {
                        sel = k;
                    },
                    None => {},
                }
            },
            None => {},
        }
        let n = completion.candidates.len();
        let last = if n > 0 { n - 1 } else { 0 };
        if sel > last {
            sel = last;
        }
        self.selected = sel;
        let mut id = String::new();
        if sel < n {
            let candidate = completion.candidates[sel].copy();
            id = candidate.identity().to_owned();
            let ghost sh = Shown { frame: self.frame, identity: id@, candidate: candidate@, completion: completion@ };
            let ghost before = self.spec_visible();
            let entry = (self.frame, id.clone(), candidate, completion.copy());
            self.visible.push(entry);
            assert(self.spec_visible() =~= before.push(sh));
            if self.visible.len() > 32 {
                self.visible.remove(0);
                assert(self.spec_visible() =~= before.push(sh).skip(1));
            }
        }
        self.selected_id = if id.as_str().is_empty() { None } else { Some(id.clone()) };
        let expected = byte_to_utf16(self.line.as_str(), self.cursor);
        proof {
            if let Some(u) = expected {
                lemma_utf16_offset(self.line@, self.cursor as int, u as int);
            }
        }
        let tail = tail_text(self.line.as_str(), self.cursor);
        let tail_rows = crate::layout::tail_rows(tail.as_str(), self.width);
        let interaction = match &self.ui {
            Some(w) => if w.form.is_some() { Interaction::Form } else { Interaction::Hub },
            None => Interaction::Completion,
        };
        Frame {
            revision: self.revision,
            frame_id: self.frame,
            candidate_id: id,
            expected_line: self.line.clone(),
            expected_cursor: expected,
            incomplete: completion.incomplete,
            tail_rows,
            interaction,
        }
    }
}


proof fn lemma_find_frame(v: Seq<Shown>, f: u64)
    ensures
        find_frame(v, f) matches Some(k) ==> 0 <= k < v.len() && v[k].frame == f
            && forall|j: int| 0 <= j < k ==> (#[trigger] v[j]).frame != f,
        find_frame(v, f) is None ==> forall|j: int| 0 <= j < v.len() ==> (#[trigger] v[j]).frame != f,
    decreases v.len(),
{
    if v.len() > 0 {
        lemma_find_frame(v.drop_last(), f);
        assert forall|j: int| 0 <= j < v.len() - 1 implies v.drop_last()[j] == v[j] by {}
    }
}

impl Session {
    fn frame_index(&self, f: u64) -> (r: usize)
        ensures
            r <= self.spec_visible().len(),
            r < self.spec_visible().len() ==> self.spec_visible()[r as int].frame == f,
            forall|j: int| 0 <= j < r ==> (#[trigger] self.spec_visible()[j]).frame != f,
    {
        let ghost vis = self.spec_visible();
        let mut k: usize = 0;
        while k < self.visible.len()
            invariant
                vis == self.spec_visible(),
                k <= vis.len(),
                forall|j: int| 0 <= j < k ==> (#[trigger] vis[j]).frame != f,
            decreases vis.len() - k,
        {
            if self.visible[k].0 == f {
                return k;
            }
            k = k + 1;
        }
        k
    }
}

fn opt_str_eq(a: &Option<String>, b: &str) -> (r: bool)
    ensures
        r == (opt_view(*a) == Some(b@)),
{
    match a {
        Some(x) => str_eq(x.as_str(), b),
        None => false,
    }
}

impl Session {
    /// The edit that accepting a shown candidate makes, if the request
    /// names a frame still shown, with the revision, candidate identity,
    /// line and cursor that frame was shown for.
    pub fn accept(&self, a: &AcceptRequest) -> (r: Option<Edit>)
        requires
            self.wf(),
        ensures
            match accepted(self.spec_revision(), self.spec_line(), self.spec_cursor(), self.spec_visible(), a@) {
                Some(e) => r matches Some(x) && x@ == e,
                None => r is None,
            },
    {
        let ghost vis = self.spec_visible();
        let requested = match a.frame_id {
            Some(f) => f,
            None => return None,
        };
        proof {
            lemma_find_frame(vis, requested);
        }
        let k = self.frame_index(requested);
        if k >= self.visible.len() {
            return None;
        }
        proof {
            assert(vis[k as int].frame == requested);
            if let Some(x) = find_frame(vis, requested) {
                if x < k {
                    assert(vis[x].frame != requested);
                } else if x > k {
                    assert(vis[k as int].frame != requested);
                }
            }
        }
        let entry = &self.visible[k];
        let frame = entry.0;
        let identity = &entry.1;
        let candidate = &entry.2;
        let completion = &entry.3;
        if a.revision != Some(self.revision) {
            return None;
        }
        if !opt_str_eq(&a.candidate_id, identity.as_str()) {
            return None;
        }
        if !opt_str_eq(&a.line, self.line.as_str()) {
            return None;
        }
        let cursor = match a.cursor {
            Some(c) => c,
            None => return None,
        };
        let here = match byte_to_utf16(self.line.as_str(), self.cursor) {
            Some(u) => u,
            None => return None,
        };
        proof {
            lemma_utf16_offset(self.line@, self.cursor as int, here as int);
        }
        if here as u64 != cursor {
            return None;
        }
        let st = completion.replace_start;
        let en = completion.replace_end;
        if en < st {
            return None;
        }
        let u1 = match byte_to_utf16(self.line.as_str(), st) {
            Some(u) => u,
            None => return None,
        };
        let u2 = match byte_to_utf16(self.line.as_str(), en) {
            Some(u) => u,
            None => return None,
        };
        proof {
            lemma_utf16_offset(self.line@, st as int, u1 as int);
            lemma_utf16_offset(self.line@, en as int, u2 as int);
            lemma_utf16_offset_monotone(self.line@, st as int, en as int);
        }
        let mut text = candidate.insert_text.clone();
        let total = byte_len(self.line.as_str());
        let tc = crate::text::chars_of(text.as_str());
        let ends_space = tc.len() > 0 && tc[tc.len() - 1] == ' ';
        if candidate.append_space && en == total && !ends_space {
            crate::text::push_char(&mut text, ' ');
        }
        Some(Edit {
            revision: self.revision,
            frame_id: frame,
            candidate_id: identity.clone(),
            expected_line: self.line.clone(),
            expected_cursor: cursor,
            start: u1,
            length: u2 - u1,
            text,
        })
    }
}

/// Drawing a new frame never changes the answer to an acceptance request
/// for a frame shown before and still kept.
pub proof fn law_new_frames_keep_earlier_answers(
    revision: u64,
    line: Seq<char>,
    cursor: usize,
    visible: Seq<Shown>,
    frame: u64,
    new: Shown,
    a: AcceptView,
)
    requires
        frames_ordered(visible, frame),
        new.frame > frame,
        a.frame_id matches Some(f) && f != new.frame && find_frame(kept(visible.push(new)), f) is Some,
    ensures
        accepted(revision, line, cursor, kept(visible.push(new)), a) == accepted(revision, line, cursor, visible, a),
{
    let f = a.frame_id->Some_0;
    let after = kept(visible.push(new));
    let all = visible.push(new);
    lemma_find_frame(after, f);
    lemma_find_frame(visible, f);
    let k = find_frame(after, f)->Some_0;
    let d = all.len() - after.len();
    assert(forall|j: int| 0 <= j < after.len() ==> #[trigger] after[j] == all[j + d]);
    assert(all[k + d] == after[k]);
    assert(k + d < visible.len());
    assert(visible[k + d].frame == f);
    if let Some(x) = find_frame(visible, f) {
        if x != k + d {
            if x < k + d {
                assert(visible[x].frame < visible[k + d].frame);
            } else {
                assert(visible[k + d].frame < visible[x].frame);
            }
        }
    }
}

/// Once a new query is confirmed, no frame shown before it can be accepted.
pub proof fn law_queries_forget_frames(revision: u64, line: Seq<char>, cursor: usize, a: AcceptView)
    ensures
        accepted(revision, line, cursor, Seq::empty(), a) is None,
{
}


impl Session {
    /// The confirmed line.
    pub fn line(&self) -> (r: &str)
        ensures
            r@ == self.spec_line(),
    {
        self.line.as_str()
    }

    /// The confirmed cursor, a UTF-8 byte offset into the line.
    pub fn cursor(&self) -> (r: usize)
        ensures
            r == self.spec_cursor(),
    {
        self.cursor
    }
}


/// A request to move the selection in a shown frame.
#[derive(Debug, Clone, Default)]
pub struct NavigateRequest {
    pub revision: Option<u64>,
    pub line: Option<String>,
    pub cursor: Option<u64>,
    pub frame_id: Option<u64>,
    pub candidate_id: Option<String>,
    /// `F1` toggles the details, `DownArrow` moves down, any other key up.
    pub key: String,
}

/// Why a navigation request is refused.
#[derive(Debug, Clone, Copy, PartialEq, Eq, Structural)]
pub enum NavigateError {
    MissingRevision,
    Stale,
    MissingFrame,
    UnseenFrame,
    UnseenCandidate,
}

impl NavigateError {
    /// The message reported for the error.
    pub fn message(&self) -> (r: &'static str)
        ensures
            r@ == match self {
                NavigateError::MissingRevision => "missing menu revision"@,
                NavigateError::Stale => "stale menu navigation"@,
                NavigateError::MissingFrame => "missing seen frame"@,
                NavigateError::UnseenFrame => "unseen frame"@,
                NavigateError::UnseenCandidate => "unseen candidate"@,
            },
    {
        match self {
            NavigateError::MissingRevision => "missing menu revision",
            NavigateError::Stale => "stale menu navigation",
            NavigateError::MissingFrame => "missing seen frame",
            NavigateError::UnseenFrame => "unseen frame",
            NavigateError::UnseenCandidate => "unseen candidate",
        }
    }
}

/// Index of the shown frame with a number and candidate identity.
pub open spec fn find_seen(visible: Seq<Shown>, f: u64, id: Option<Seq<char>>) -> Option<int>
    decreases visible.len(),
{
    if visible.len() == 0 {
        None
    } else {
        match find_seen(visible.drop_last(), f, id) {
            Some(k) => Some(k),
            None => if visible.last().frame == f && id == Some(visible.last().identity) {
                Some(visible.len() - 1)
            } else {
                None
            },
        }
    }
}

/// Which shown frame a navigation request moves in, and the position of
/// its selected candidate, or why it is refused. The request must be
/// newer, for the confirmed line and cursor, and name a frame and
/// candidate still shown.
pub open spec fn navigation(revision: u64, line: Seq<char>, cursor: usize, visible: Seq<Shown>, n: NavigateRequest) -> Result<(int, int), NavigateError> {
    match n.revision {
        None => Err(NavigateError::MissingRevision),
        Some(next) => if !(next > revision && opt_view(n.line) == Some(line)
            && (match n.cursor { Some(c) => Some(c as int), None => None }) == utf16_offset(line, cursor as int)) {
            Err(NavigateError::Stale)
        } else {
            match n.frame_id {
                None => Err(NavigateError::MissingFrame),
                Some(f) => match find_seen(visible, f, opt_view(n.candidate_id)) {
                    None => Err(NavigateError::UnseenFrame),
                    Some(k) => match find_identity(visible[k].completion.candidates, visible[k].identity) {
                        None => Err(NavigateError::UnseenCandidate),
                        Some(current) => Ok((k, current)),
                    },
                },
            }
        },
    }
}

/// The position a key moves the selection to among `count` candidates.
pub open spec fn moved(key: Seq<char>, current: int, count: int) -> int {
    if key == "F1"@ {
        current
    } else if key == "DownArrow"@ {
        (current + 1) % count
    } else if current == 0 {
        count - 1
    } else {
        current - 1
    }
}

proof fn lemma_find_seen(v: Seq<Shown>, f: u64, id: Option<Seq<char>>)
    ensures
        find_seen(v, f, id) matches Some(k) ==> 0 <= k < v.len() && v[k].frame == f && id == Some(v[k].identity),
    decreases v.len(),
{
    if v.len() > 0 {
        lemma_find_seen(v.drop_last(), f, id);
    }
}

impl Session {
    fn seen_index(&self, f: u64, id: &Option<String>) -> (r: Option<usize>)
        ensures
            match find_seen(self.spec_visible(), f, opt_view(*id)) {
                Some(k) => r == Some(k as usize),
                None => r is None,
            },
    {
        let ghost vis = self.spec_visible();
        let mut k: usize = 0;
        while k < self.visible.len()
            invariant
                vis == self.spec_visible(),
                k <= vis.len(),
                find_seen(vis.take(k as int), f, opt_view(*id)) is None,
            decreases vis.len() - k,
        {
            assert(vis.take(k as int + 1).drop_last() =~= vis.take(k as int));
            assert(vis[k as int] == shown_of(self.visible@[k as int]));
            if self.visible[k].0 == f && opt_str_eq(id, self.visible[k].1.as_str()) {
                proof {
                    assert(find_seen(vis.take(k as int + 1), f, opt_view(*id)) == Some(k as int));
                    lemma_seen_prefix(vis, f, opt_view(*id), k as int + 1);
                }
                return Some(k);
            }
            k = k + 1;
        }
        assert(vis.take(k as int) =~= vis);
        None
    }

    /// Move the selection in a shown frame, or toggle its details, and
    /// draw the frame again with the new selection.
    pub fn navigate(&mut self, n: &NavigateRequest) -> (r: Result<Frame, NavigateError>)
        requires
            old(self).wf(),
            old(self).spec_frame() < u64::MAX,
        ensures
            final(self).wf(),
            match navigation(old(self).spec_revision(), old(self).spec_line(), old(self).spec_cursor(), old(self).spec_visible(), *n) {
                Err(e) => {
                    &&& r == Err::<Frame, NavigateError>(e)
                    &&& *final(self) == *old(self)
                },
                Ok((k, current)) => {
                    let c = old(self).spec_visible()[k].completion;
                    let sel = moved(n.key@, current, c.candidates.len() as int) as usize;
                    &&& r is Ok
                    &&& final(self).spec_revision() == n.revision->Some_0
                    &&& final(self).spec_details() == (if n.key@ == "F1"@ { !old(self).spec_details() } else { old(self).spec_details() })
                    &&& final(self).spec_line() == old(self).spec_line()
                    &&& final(self).spec_cursor() == old(self).spec_cursor()
                    &&& final(self).spec_frame() == old(self).spec_frame() + 1
                    &&& final(self).spec_selected() == reselected(sel, None, c.candidates)
                    &&& match shown_frame(old(self).spec_frame(), sel, None, c) {
                        Some(sh) => final(self).spec_visible() == kept(old(self).spec_visible().push(sh))
                            && r->Ok_0.candidate_id@ == sh.identity,
                        None => final(self).spec_visible() == old(self).spec_visible() && r->Ok_0.candidate_id@.len() == 0,
                    }
                    &&& r->Ok_0.revision == n.revision->Some_0
                    &&& r->Ok_0.frame_id == old(self).spec_frame() + 1
                    &&& r->Ok_0.expected_line@ == old(self).spec_line()
                },
            },
    {
        let next = match n.revision {
            None => return Err(NavigateError::MissingRevision),
            Some(v) => v,
        };
        let expected = byte_to_utf16(self.line.as_str(), self.cursor);
        proof {
            if let Some(u) = expected {
                lemma_utf16_offset(self.line@, self.cursor as int, u as int);
            }
        }
        let same_line = match &n.line {
            Some(l) => str_eq(l.as_str(), self.line.as_str()),
            None => false,
        };
        let same_cursor = match (n.cursor, expected) {
            (Some(c), Some(e)) => e as u64 == c,
            (None, None) => true,
            _ => false,
        };
        proof {
            assert(same_cursor == ((match n.cursor { Some(c) => Some(c as int), None => None }) == utf16_offset(self.line@, self.cursor as int)));
        }
        if !(next > self.revision && same_line && same_cursor) {
            return Err(NavigateError::Stale);
        }
        let f = match n.frame_id {
            None => return Err(NavigateError::MissingFrame),
            Some(f) => f,
        };
        let k = match self.seen_index(f, &n.candidate_id) {
            None => return Err(NavigateError::UnseenFrame),
            Some(k) => k,
        };
        proof {
            lemma_find_seen(self.spec_visible(), f, opt_view(n.candidate_id));
            assert(self.spec_visible()[k as int] == shown_of(self.visible@[k as int]));
        }
        let completion = self.visible[k].3.copy();
        let current = match find_identity_exec(&completion.candidates, self.visible[k].1.as_str()) {
            None => return Err(NavigateError::UnseenCandidate),
            Some(c) => c,
        };
        proof {
            lemma_find_identity(completion@.candidates, self.spec_visible()[k as int].identity);
        }
        let count = completion.candidates.len();
        self.revision = next;
        let key = n.key.as_str();
        let selected = if str_eq(key, "F1") {
            self.details = !self.details;
            current
        } else if str_eq(key, "DownArrow") {
            (current + 1) % count
        } else if current == 0 {
            count - 1
        } else {
            current - 1
        };
        assert(selected as int == moved(n.key@, current as int, count as int));
        self.selected = selected;
        self.selected_id = None;
        Ok(self.render(completion))
    }
}

/// A key pressed in the workbench, with the query it was pressed at and
/// the frame and candidate that were shown.
#[derive(Debug, Clone, Default)]
pub struct UiKeyRequest {
    pub revision: Option<u64>,
    pub line: Option<String>,
    pub cursor: Option<u64>,
    pub frame_id: Option<u64>,
    pub candidate_id: Option<String>,
    pub key: String,
    /// Modifier bits; Alt and Control are 2 and 4.
    pub modifiers: u64,
    /// The UTF-16 code unit the key types (only its low 16 bits count).
    pub character_unit: u64,
}

/// Why a workbench key is refused.
#[derive(Debug)]
pub enum UiKeyError {
    MissingRevision,
    Stale,
    NoWorkbench,
    NotApproved,
    Form(FormError),
}

/// What the host does after a workbench key: draw the workbench again,
/// clear the frame, or replace the whole buffer (`length` UTF-16 units)
/// with a command line.
#[derive(Debug)]
pub enum UiOutcome {
    Refresh,
    Clear,
    Edit { text: String, length: usize },
}

/// The revision a workbench key moves the session to, or why it is
/// refused: it must be newer and made at the confirmed line and cursor.
pub open spec fn ui_check(revision: u64, line: Seq<char>, cursor: usize, k: UiKeyRequest) -> Result<u64, UiKeyError> {
    match k.revision {
        None => Err(UiKeyError::MissingRevision),
        Some(next) => if !(next > revision && opt_view(k.line) == Some(line)
            && (match k.cursor { Some(c) => Some(c as int), None => None }) == utf16_offset(line, cursor as int)) {
            Err(UiKeyError::Stale)
        } else {
            Ok(next)
        },
    }
}

/// The candidate and candidate count of the frame a key names, if it is
/// still shown.
pub open spec fn seen_of(visible: Seq<Shown>, k: UiKeyRequest) -> Option<(CandidateView, nat)> {
    match k.frame_id {
        None => None,
        Some(f) => match find_seen(visible, f, opt_view(k.candidate_id)) {
            Some(i) => Some((visible[i].candidate, visible[i].completion.candidates.len())),
            None => None,
        },
    }
}

impl Session {
    /// Open an empty workbench over `templates` (by candidate id).
    pub fn open_workbench(&mut self, templates: Vec<(String, CommandTemplate)>)
        requires
            old(self).wf(),
        ensures
            final(self).wf(),
            final(self).spec_ui() matches Some(w) && w.input@.len() == 0 && w.high_surrogate is None && w.form is None
                && !w.project && w.templates == templates && w.error is None && w.generation == 0,
            final(self).spec_revision() == old(self).spec_revision(),
            final(self).spec_line() == old(self).spec_line(),
            final(self).spec_cursor() == old(self).spec_cursor(),
            final(self).spec_width() == old(self).spec_width(),
            final(self).spec_rows() == old(self).spec_rows(),
            final(self).spec_frame() == old(self).spec_frame(),
            final(self).spec_visible() == old(self).spec_visible(),
            final(self).spec_selected() == old(self).spec_selected(),
            final(self).spec_selected_id() == old(self).spec_selected_id(),
            final(self).spec_details() == old(self).spec_details(),
            final(self).spec_accepting() == old(self).spec_accepting(),
            final(self).spec_values_requested() == 0,
    {
        self.values_requested = 0;
        self.ui = Some(Workbench::new(templates));
    }

    /// The field of the open form whose suggested values are to be asked
    /// for now, with the workbench generation they are for. Values are asked
    /// for once per generation.
    pub fn values_request(&mut self) -> (r: Option<(TemplateParameter, u64)>)
        requires
            old(self).wf(),
        ensures
            final(self).wf(),
            final(self).spec_ui() == old(self).spec_ui(),
            final(self).spec_visible() == old(self).spec_visible(),
            match old(self).spec_ui() {
                Some(w) => match w.form {
                    Some(f) => if f.spec_index() < f.spec_fields().len() && w.generation != old(self).spec_values_requested() {
                        &&& r matches Some((p, g)) && p@ == f.spec_fields()[f.spec_index() as int] && g == w.generation
                        &&& final(self).spec_values_requested() == w.generation
                    } else {
                        r is None && final(self).spec_values_requested() == old(self).spec_values_requested()
                    },
                    None => r is None && final(self).spec_values_requested() == old(self).spec_values_requested(),
                },
                None => r is None && final(self).spec_values_requested() == old(self).spec_values_requested(),
            },
    {
        let found = match &self.ui {
            Some(w) => match &w.form {
                Some(f) => match f.current() {
                    Some(field) => {
                        if w.generation != self.values_requested {
                            Some((field.copy(), w.generation))
                        } else {
                            None
                        }
                    },
                    None => None,
                },
                None => None,
            },
            None => None,
        };
        if let Some((_, g)) = &found {
            self.values_requested = *g;
        }
        found
    }

    /// Handle a key pressed in the workbench. `F1` toggles the details,
    /// `Escape` closes the workbench and clears the frame; other keys go to
    /// the workbench (see [`keyed`]), and a command it finishes closes it
    /// and replaces the whole buffer. `approved` tells whether the project's
    /// pack is approved.
    pub fn ui_key(&mut self, k: &UiKeyRequest, approved: bool) -> (r: Result<UiOutcome, UiKeyError>)
        requires
            old(self).wf(),
            old(self).spec_ui() matches Some(w) ==> w.generation < u64::MAX,
        ensures
            final(self).wf(),
            match ui_check(old(self).spec_revision(), old(self).spec_line(), old(self).spec_cursor(), *k) {
                Err(e) => {
                    &&& *final(self) == *old(self)
                    &&& match e {
                        UiKeyError::MissingRevision => r matches Err(UiKeyError::MissingRevision),
                        _ => r matches Err(UiKeyError::Stale),
                    }
                },
                Ok(next) => {
                    &&& final(self).spec_revision() == next
                    &&& final(self).spec_selected_id() is None
                    &&& final(self).spec_line() == old(self).spec_line()
                    &&& final(self).spec_cursor() == old(self).spec_cursor()
                    &&& final(self).spec_width() == old(self).spec_width()
                    &&& final(self).spec_rows() == old(self).spec_rows()
                    &&& final(self).spec_frame() == old(self).spec_frame()
                    &&& if k.key@ == "F1"@ {
                        &&& final(self).spec_details() == !old(self).spec_details()
                        &&& final(self).spec_ui() == old(self).spec_ui()
                        &&& final(self).spec_visible() == old(self).spec_visible()
                        &&& final(self).spec_selected() == old(self).spec_selected()
                        &&& final(self).spec_accepting() == old(self).spec_accepting()
                        &&& r matches Ok(UiOutcome::Refresh)
                    } else if k.key@ == "Escape"@ {
                        &&& final(self).spec_details() == old(self).spec_details()
                        &&& final(self).spec_ui() is None
                        &&& final(self).spec_visible().len() == 0
                        &&& final(self).spec_selected() == old(self).spec_selected()
                        &&& final(self).spec_accepting() == old(self).spec_accepting()
                        &&& r matches Ok(UiOutcome::Clear)
                    } else {
                        &&& final(self).spec_details() == old(self).spec_details()
                        &&& final(self).spec_visible() == old(self).spec_visible()
                        &&& match old(self).spec_ui() {
                            None => {
                                &&& r matches Err(UiKeyError::NoWorkbench)
                                &&& final(self).spec_ui() is None
                                &&& final(self).spec_selected() == old(self).spec_selected()
                                &&& final(self).spec_accepting() == old(self).spec_accepting()
                            },
                            Some(w) => exists|w2: Workbench, a: Result<WorkbenchAction, WorkbenchError>|
                                #[trigger] keyed(w, w2, k.key@, k.modifiers, k.character_unit as u16,
                                    seen_of(old(self).spec_visible(), *k), old(self).spec_selected(),
                                    final(self).spec_selected(), approved, a)
                                && match a {
                                    Ok(WorkbenchAction::Refresh) => final(self).spec_ui() == Some(w2)
                                        && final(self).spec_accepting() == old(self).spec_accepting()
                                        && r matches Ok(UiOutcome::Refresh),
                                    Ok(WorkbenchAction::Edit(t)) => final(self).spec_ui() is None
                                        && final(self).spec_accepting()
                                        && (r matches Ok(UiOutcome::Edit { text, length }) && text@ == t@
                                        && length == utf16_len(old(self).spec_line())),
                                    Err(WorkbenchError::NotApproved) => final(self).spec_ui() == Some(w2)
                                        && final(self).spec_accepting() == old(self).spec_accepting()
                                        && r matches Err(UiKeyError::NotApproved),
                                    Err(WorkbenchError::Form(e)) => final(self).spec_ui() == Some(w2)
                                        && final(self).spec_accepting() == old(self).spec_accepting()
                                        && (r matches Err(UiKeyError::Form(e2)) && e2@ == e@),
                                },
                        }
                    }
                },
            },
    {
        let next = match k.revision {
            None => return Err(UiKeyError::MissingRevision),
            Some(v) => v,
        };
        let expected = byte_to_utf16(self.line.as_str(), self.cursor);
        proof {
            if let Some(u) = expected {
                lemma_utf16_offset(self.line@, self.cursor as int, u as int);
            }
        }
        let same_line = match &k.line {
            Some(l) => str_eq(l.as_str(), self.line.as_str()),
            None => false,
        };
        let same_cursor = match (k.cursor, expected) {
            (Some(c), Some(e)) => e as u64 == c,
            (None, None) => true,
            _ => false,
        };
        proof {
            assert(same_cursor == ((match k.cursor { Some(c) => Some(c as int), None => None }) == utf16_offset(self.line@, self.cursor as int)));
        }
        if !(next > self.revision && same_line && same_cursor) {
            return Err(UiKeyError::Stale);
        }
        let seen_index = match k.frame_id {
            Some(f) => self.seen_index(f, &k.candidate_id),
            None => None,
        };
        proof {
            if let Some(f) = k.frame_id {
                lemma_find_seen(self.spec_visible(), f, opt_view(k.candidate_id));
            }
        }
        self.revision = next;
        self.selected_id = None;
        proof {
            reveal_strlit("F1");
            reveal_strlit("Escape");
            assert("F1"@.len() == 2 && "Escape"@.len() == 6);
        }
        if str_eq(k.key.as_str(), "F1") {
            self.details = !self.details;
            return Ok(UiOutcome::Refresh);
        }
        if str_eq(k.key.as_str(), "Escape") {
            self.ui = None;
            self.visible = Vec::new();
            assert(self.spec_visible() =~= Seq::<Shown>::empty());
            return Ok(UiOutcome::Clear);
        }
        let mut ui = match self.ui.take() {
            None => return Err(UiKeyError::NoWorkbench),
            Some(w) => w,
        };
        let ghost w0 = ui;
        let mut selected = self.selected;
        let a = match seen_index {
            Some(i) => {
                proof {
                    assert(self.spec_visible()[i as int] == shown_of(self.visible@[i as int]));
                }
                let entry = &self.visible[i];
                ui.key(k.key.as_str(), k.modifiers, #[verifier::truncate] (k.character_unit as u16), Some((&entry.2, &entry.3)), &mut selected, approved)
            },
            None => ui.key(k.key.as_str(), k.modifiers, #[verifier::truncate] (k.character_unit as u16), None, &mut selected, approved),
        };
        let ghost av = a;
        let ghost w2 = ui;
        assert(keyed(w0, w2, k.key@, k.modifiers, k.character_unit as u16, seen_of(old(self).spec_visible(), *k),
            old(self).spec_selected(), selected, approved, av));
        self.selected = selected;
        let r = match a {
            Ok(WorkbenchAction::Refresh) => {
                self.ui = Some(ui);
                Ok(UiOutcome::Refresh)
            },
            Ok(WorkbenchAction::Edit(text)) => {
                self.accepting = true;
                let length = crate::protocol::utf16_length(self.line.as_str());
                Ok(UiOutcome::Edit { text, length })
            },
            Err(WorkbenchError::NotApproved) => {
                self.ui = Some(ui);
                Err(UiKeyError::NotApproved)
            },
            Err(WorkbenchError::Form(e)) => {
                self.ui = Some(ui);
                Err(UiKeyError::Form(e))
            },
        };
        assert(old(self).spec_ui() == Some(w0));
        assert(self.spec_selected() == selected);
        assert(exists|w3: Workbench, a3: Result<WorkbenchAction, WorkbenchError>|
            #[trigger] keyed(w0, w3, k.key@, k.modifiers, k.character_unit as u16,
                seen_of(old(self).spec_visible(), *k), old(self).spec_selected(),
                self.spec_selected(), approved, a3)
            && match a3 {
                Ok(WorkbenchAction::Refresh) => self.spec_ui() == Some(w3)
                    && self.spec_accepting() == old(self).spec_accepting()
                    && r matches Ok(UiOutcome::Refresh),
                Ok(WorkbenchAction::Edit(t)) => self.spec_ui() is None
                    && self.spec_accepting()
                    && (r matches Ok(UiOutcome::Edit { text, length }) && text@ == t@
                    && length == utf16_len(old(self).spec_line())),
                Err(WorkbenchError::NotApproved) => self.spec_ui() == Some(w3)
                    && self.spec_accepting() == old(self).spec_accepting()
                    && r matches Err(UiKeyError::NotApproved),
                Err(WorkbenchError::Form(e)) => self.spec_ui() == Some(w3)
                    && self.spec_accepting() == old(self).spec_accepting()
                    && (r matches Err(UiKeyError::Form(e2)) && e2@ == e@),
            }) by {
            assert(keyed(w0, w2, k.key@, k.modifiers, k.character_unit as u16,
                seen_of(old(self).spec_visible(), *k), old(self).spec_selected(),
                self.spec_selected(), approved, av));
        }
        r
    }
}

proof fn lemma_seen_prefix(v: Seq<Shown>, f: u64, id: Option<Seq<char>>, n: int)
    requires
        0 <= n <= v.len(),
        find_seen(v.take(n), f, id) is Some,
    ensures
        find_seen(v, f, id) == find_seen(v.take(n), f, id),
    decreases v.len() - n,
{
    if n < v.len() {
        assert(v.take(n + 1).drop_last() =~= v.take(n));
        lemma_seen_prefix(v, f, id, n + 1);
    } else {
        assert(v.take(n) =~= v);
    }
}


/// A candidate's text is inserted as it is, with one space added only
/// when the candidate asks for it and the replaced range reaches the end
/// of the line: an accepted edit in the middle of a line inserts exactly
/// the candidate's text.
pub proof fn law_space_only_at_line_end(revision: u64, line: Seq<char>, cursor: usize, visible: Seq<Shown>, a: AcceptView)
    ensures
        accepted(revision, line, cursor, visible, a) matches Some(e) ==> {
            let shown = visible[find_frame(visible, a.frame_id->Some_0)->Some_0];
            &&& (shown.completion.replace_end < utf8_len(line) ==> e.text == shown.candidate.insert_text)
            &&& (e.text == shown.candidate.insert_text
                || (shown.candidate.append_space && e.text == shown.candidate.insert_text.push(' ')))
        },
{
}

} // verus!
