//! Completion data shared between the engine, the hub and the hosts.
use vstd::prelude::*;

verus! {

/// What a completion candidate stands for.
#[derive(Debug, Clone, Copy, PartialEq, Eq, Hash, Structural)]
pub enum CandidateKind {
    Command,
    Alias,
    Function,
    Cmdlet,
    Subcommand,
    Option,
    File,
    Directory,
    Value,
}

impl Default for CandidateKind {
    fn default() -> (r: Self)
        ensures
            r == CandidateKind::Value,
    {
        CandidateKind::Value
    }
}

/// One entry of a completion menu.
#[derive(Debug, Clone)]
pub struct Candidate {
    pub label: String,
    pub insert_text: String,
    pub description: String,
    pub kind: CandidateKind,
    pub description_source: String,
    pub language: String,
    pub match_reason: String,
    pub id: String,
    pub source: String,
    pub detail: String,
    /// Completion behavior is kept separate from the literal replacement.
    pub append_space: bool,
}

impl Candidate {
    /// A candidate with the given label, replacement, description and kind
    /// and every other field empty.
    pub fn new(label: String, insert_text: String, description: String, kind: CandidateKind) -> (r: Candidate)
        ensures
            r.label == label,
            r.insert_text == insert_text,
            r.description == description,
            r.kind == kind,
            r.description_source@.len() == 0,
            r.language@.len() == 0,
            r.match_reason@.len() == 0,
            r.id@.len() == 0,
            r.source@.len() == 0,
            r.detail@.len() == 0,
            !r.append_space,
    {
        Candidate {
            label,
            insert_text,
            description,
            kind,
            description_source: String::new(),
            language: String::new(),
            match_reason: String::new(),
            id: String::new(),
            source: String::new(),
            detail: String::new(),
            append_space: false,
        }
    }

    /// The stable identity of a candidate: its id, or its label when it has none.
    pub fn identity(&self) -> (r: &str)
        ensures
            r@ == if self.id@.len() == 0 { self.label@ } else { self.id@ },
    {
        if self.id.as_str().is_empty() {
            self.label.as_str()
        } else {
            self.id.as_str()
        }
    }
}

impl Default for Candidate {
    fn default() -> (r: Self)
        ensures
            r.label@.len() == 0,
            r.insert_text@.len() == 0,
            r.description@.len() == 0,
            r.kind == CandidateKind::Value,
            r.description_source@.len() == 0,
            r.language@.len() == 0,
            r.match_reason@.len() == 0,
            r.id@.len() == 0,
            r.source@.len() == 0,
            r.detail@.len() == 0,
            !r.append_space,
    {
        Candidate::new(String::new(), String::new(), String::new(), CandidateKind::Value)
    }
}

/// A command prefix with byte offsets into the original editable buffer.
/// PowerShell supplies this for complex syntax; simple contexts are derived.
#[derive(Debug, Clone)]
pub struct InputContext {
    pub command: String,
    pub arguments: Vec<String>,
    pub prefix: String,
    pub replace_start: usize,
    pub replace_end: usize,
    pub command_position: bool,
    pub suppressed: bool,
}

impl Default for InputContext {
    fn default() -> (r: Self)
        ensures
            r.command@.len() == 0,
            r.arguments@.len() == 0,
            r.prefix@.len() == 0,
            r.replace_start == 0,
            r.replace_end == 0,
            !r.command_position,
            !r.suppressed,
    {
        InputContext {
            command: String::new(),
            arguments: Vec::new(),
            prefix: String::new(),
            replace_start: 0,
            replace_end: 0,
            command_position: false,
            suppressed: false,
        }
    }
}

/// A completion result.
#[derive(Debug, Clone)]
pub struct Completion {
    /// UTF-8 byte offsets into the original command line; not display columns.
    pub replace_start: usize,
    pub replace_end: usize,
    pub candidates: Vec<Candidate>,
    /// More command discovery batches are still pending.
    pub incomplete: bool,
    pub argument_hint: String,
}

impl Default for Completion {
    fn default() -> (r: Self)
        ensures
            r.replace_start == 0,
            r.replace_end == 0,
            r.candidates@.len() == 0,
            !r.incomplete,
            r.argument_hint@.len() == 0,
    {
        Completion {
            replace_start: 0,
            replace_end: 0,
            candidates: Vec::new(),
            incomplete: false,
            argument_hint: String::new(),
        }
    }
}

/// A command reported by the PowerShell session.
#[derive(Debug, Clone)]
pub struct ShellCommand {
    pub name: String,
    pub kind: String,
    pub definition: String,
}

impl ShellCommand {
    /// An identical command.
    pub fn copy(&self) -> (r: ShellCommand)
        ensures
            r == *self,
    {
        ShellCommand { name: self.name.clone(), kind: self.kind.clone(), definition: self.definition.clone() }
    }
}


/// The value of a [`Candidate`].
pub struct CandidateView {
    pub label: Seq<char>,
    pub insert_text: Seq<char>,
    pub description: Seq<char>,
    pub kind: CandidateKind,
    pub description_source: Seq<char>,
    pub language: Seq<char>,
    pub match_reason: Seq<char>,
    pub id: Seq<char>,
    pub source: Seq<char>,
    pub detail: Seq<char>,
    pub append_space: bool,
}

impl View for Candidate {
    type V = CandidateView;

    open spec fn view(&self) -> CandidateView {
        CandidateView {
            label: self.label@,
            insert_text: self.insert_text@,
            description: self.description@,
            kind: self.kind,
            description_source: self.description_source@,
            language: self.language@,
            match_reason: self.match_reason@,
            id: self.id@,
            source: self.source@,
            detail: self.detail@,
            append_space: self.append_space,
        }
    }
}

/// The identity of a candidate: its id, or its label when it has none.
pub open spec fn spec_identity(c: CandidateView) -> Seq<char> {
    if c.id.len() == 0 { c.label } else { c.id }
}

impl Candidate {
    /// An identical candidate.
    pub fn copy(&self) -> (r: Candidate)
        ensures
            r@ == self@,
    {
        Candidate {
            label: self.label.clone(),
            insert_text: self.insert_text.clone(),
            description: self.description.clone(),
            kind: self.kind,
            description_source: self.description_source.clone(),
            language: self.language.clone(),
            match_reason: self.match_reason.clone(),
            id: self.id.clone(),
            source: self.source.clone(),
            detail: self.detail.clone(),
            append_space: self.append_space,
        }
    }
}

/// Values of a list of candidates.
pub open spec fn candidate_views(v: Seq<Candidate>) -> Seq<CandidateView> {
    v.map_values(|c: Candidate| c@)
}

/// The value of a [`Completion`].
pub struct CompletionView {
    pub replace_start: usize,
    pub replace_end: usize,
    pub candidates: Seq<CandidateView>,
    pub incomplete: bool,
    pub argument_hint: Seq<char>,
}

impl View for Completion {
    type V = CompletionView;

    open spec fn view(&self) -> CompletionView {
        CompletionView {
            replace_start: self.replace_start,
            replace_end: self.replace_end,
            candidates: candidate_views(self.candidates@),
            incomplete: self.incomplete,
            argument_hint: self.argument_hint@,
        }
    }
}

impl Completion {
    /// An identical completion.
    pub fn copy(&self) -> (r: Completion)
        ensures
            r@ == self@,
    {
        let mut candidates: Vec<Candidate> = Vec::new();
        let mut i: usize = 0;
        while i < self.candidates.len()
            invariant
                i <= self.candidates@.len(),
                candidate_views(candidates@) == candidate_views(self.candidates@.take(i as int)),
            decreases self.candidates@.len() - i,
        {
            candidates.push(self.candidates[i].copy());
            assert(candidate_views(self.candidates@.take(i as int + 1)) =~= candidate_views(self.candidates@.take(i as int)).push(self.candidates@[i as int]@));
            assert(candidate_views(candidates@) =~= candidate_views(self.candidates@.take(i as int)).push(self.candidates@[i as int]@));
            i = i + 1;
        }
        assert(self.candidates@.take(i as int) =~= self.candidates@);
        Completion {
            replace_start: self.replace_start,
            replace_end: self.replace_end,
            candidates,
            incomplete: self.incomplete,
            argument_hint: self.argument_hint.clone(),
        }
    }
}

} // verus!
