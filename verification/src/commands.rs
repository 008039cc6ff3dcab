//! The ordered command index: commands found on PATH overlaid with the
//! aliases, functions and cmdlets of the running PowerShell session.
use vstd::prelude::*;
use crate::lexer::{definition_path, spec_definition_path};
use crate::model::{CandidateKind, ShellCommand};
use crate::text::{
    chars_eq, chars_of, lower, lower_chars, string_of, str_eq, trim, trim_chars,
};

verus! {

/// One command of the index.
#[derive(Debug)]
pub struct IndexedCommand {
    pub name: String,
    pub kind: CandidateKind,
    pub description: String,
    pub definition: String,
    pub executable_path: Option<String>,
}

/// The value of an indexed command.
pub struct CommandView {
    pub name: Seq<char>,
    pub kind: CandidateKind,
    pub description: Seq<char>,
    pub definition: Seq<char>,
    pub executable_path: Option<Seq<char>>,
}

impl View for IndexedCommand {
    type V = CommandView;

    open spec fn view(&self) -> CommandView {
        CommandView {
            name: self.name@,
            kind: self.kind,
            description: self.description@,
            definition: self.definition@,
            executable_path: match self.executable_path {
                Some(p) => Some(p@),
                None => None,
            },
        }
    }
}

/// Values of a list of commands.
pub open spec fn views(v: Seq<IndexedCommand>) -> Seq<CommandView> {
    v.map_values(|c: IndexedCommand| c@)
}

impl IndexedCommand {
    /// An identical command.
    pub fn copy(&self) -> (r: IndexedCommand)
        ensures
            r@ == self@,
    {
        IndexedCommand {
            name: self.name.clone(),
            kind: self.kind,
            description: self.description.clone(),
            definition: self.definition.clone(),
            executable_path: match &self.executable_path {
                Some(p) => Some(p.clone()),
                None => None,
            },
        }
    }
}

/// The lookup key of a command name: trimmed and ASCII lower-cased.
pub open spec fn spec_command_key(name: Seq<char>) -> Seq<char> {
    lower(trim(name))
}

/// Trimmed, ASCII lower-cased command name.
pub fn command_key(name: &str) -> (r: String)
    ensures
        r@ == spec_command_key(name@),
{
    let chars = chars_of(name);
    let trimmed = trim_chars(chars.as_slice());
    let lowered = lower_chars(trimmed.as_slice());
    string_of(lowered.as_slice())
}

/// How strongly a kind of command shadows another of the same name.
pub open spec fn spec_priority(kind: CandidateKind) -> nat {
    match kind {
        CandidateKind::Alias => 4,
        CandidateKind::Function => 3,
        CandidateKind::Cmdlet => 2,
        CandidateKind::Command => 1,
        _ => 0,
    }
}

pub fn command_priority(kind: &CandidateKind) -> (r: u8)
    ensures
        r == spec_priority(*kind),
{
    match kind {
        CandidateKind::Alias => 4,
        CandidateKind::Function => 3,
        CandidateKind::Cmdlet => 2,
        CandidateKind::Command => 1,
        _ => 0,
    }
}

/// The candidate kind named by a PowerShell command type, ignoring case and
/// surrounding white space; unknown types are external commands.
pub open spec fn spec_shell_kind(kind: Seq<char>) -> CandidateKind {
    let k = lower(trim(kind));
    if k == seq!['a', 'l', 'i', 'a', 's'] {
        CandidateKind::Alias
    } else if k == seq!['f', 'u', 'n', 'c', 't', 'i', 'o', 'n'] || k == seq!['f', 'i', 'l', 't', 'e', 'r'] {
        CandidateKind::Function
    } else if k == seq!['c', 'm', 'd', 'l', 'e', 't'] {
        CandidateKind::Cmdlet
    } else if k == seq!['s', 'u', 'b', 'c', 'o', 'm', 'm', 'a', 'n', 'd'] {
        CandidateKind::Subcommand
    } else if k == seq!['o', 'p', 't', 'i', 'o', 'n'] || k == seq!['p', 'a', 'r', 'a', 'm', 'e', 't', 'e', 'r'] {
        CandidateKind::Option
    } else {
        CandidateKind::Command
    }
}

pub fn shell_kind(kind: &str) -> (r: CandidateKind)
    ensures
        r == spec_shell_kind(kind@),
{
    let chars = chars_of(kind);
    let trimmed = trim_chars(chars.as_slice());
    let k = lower_chars(trimmed.as_slice());
    let alias = ['a', 'l', 'i', 'a', 's'];
    let function = ['f', 'u', 'n', 'c', 't', 'i', 'o', 'n'];
    let filter = ['f', 'i', 'l', 't', 'e', 'r'];
    let cmdlet = ['c', 'm', 'd', 'l', 'e', 't'];
    let subcommand = ['s', 'u', 'b', 'c', 'o', 'm', 'm', 'a', 'n', 'd'];
    let option = ['o', 'p', 't', 'i', 'o', 'n'];
    let parameter = ['p', 'a', 'r', 'a', 'm', 'e', 't', 'e', 'r'];
    assert(alias@ =~= seq!['a', 'l', 'i', 'a', 's']);
    assert(function@ =~= seq!['f', 'u', 'n', 'c', 't', 'i', 'o', 'n']);
    assert(filter@ =~= seq!['f', 'i', 'l', 't', 'e', 'r']);
    assert(cmdlet@ =~= seq!['c', 'm', 'd', 'l', 'e', 't']);
    assert(subcommand@ =~= seq!['s', 'u', 'b', 'c', 'o', 'm', 'm', 'a', 'n', 'd']);
    assert(option@ =~= seq!['o', 'p', 't', 'i', 'o', 'n']);
    assert(parameter@ =~= seq!['p', 'a', 'r', 'a', 'm', 'e', 't', 'e', 'r']);
    if chars_eq(k.as_slice(), alias.as_slice()) {
        CandidateKind::Alias
    } else if chars_eq(k.as_slice(), function.as_slice()) || chars_eq(k.as_slice(), filter.as_slice()) {
        CandidateKind::Function
    } else if chars_eq(k.as_slice(), cmdlet.as_slice()) {
        CandidateKind::Cmdlet
    } else if chars_eq(k.as_slice(), subcommand.as_slice()) {
        CandidateKind::Subcommand
    } else if chars_eq(k.as_slice(), option.as_slice()) || chars_eq(k.as_slice(), parameter.as_slice()) {
        CandidateKind::Option
    } else {
        CandidateKind::Command
    }
}

/// The lookup key of a command.
pub open spec fn key_of(c: CommandView) -> Seq<char> {
    spec_command_key(c.name)
}

/// Index of the command with lookup key `key`, if any.
pub open spec fn find_key(entries: Seq<CommandView>, key: Seq<char>) -> Option<int>
    decreases entries.len(),
{
    if entries.len() == 0 {
        None
    } else {
        match find_key(entries.drop_last(), key) {
            Some(i) => Some(i),
            None => if key_of(entries.last()) == key { Some(entries.len() - 1) } else { None },
        }
    }
}

/// No two commands share a lookup key and no key is empty.
pub open spec fn keys_unique(entries: Seq<CommandView>) -> bool {
    &&& forall|i: int| 0 <= i < entries.len() ==> key_of(#[trigger] entries[i]).len() > 0
    &&& forall|i: int, j: int|
        0 <= i < j < entries.len() ==> key_of(#[trigger] entries[i]) != key_of(#[trigger] entries[j])
}

/// `c` with its name trimmed.
pub open spec fn trimmed(c: CommandView) -> CommandView {
    CommandView { name: trim(c.name), ..c }
}

/// Add `c` under its trimmed name: a new key is appended; a known key is
/// replaced only when `replace` is set and `c` has at least the priority of
/// the command it shadows; an empty name is ignored.
pub open spec fn spec_insert(entries: Seq<CommandView>, c: CommandView, replace: bool) -> Seq<CommandView> {
    let t = trimmed(c);
    if key_of(t).len() == 0 {
        entries
    } else {
        match find_key(entries, key_of(t)) {
            Some(i) => if replace && spec_priority(t.kind) >= spec_priority(entries[i].kind) {
                entries.update(i, t)
            } else {
                entries
            },
            None => entries.push(t),
        }
    }
}

/// `entries` after inserting `cmds` in order without replacement.
pub open spec fn insert_all(entries: Seq<CommandView>, cmds: Seq<CommandView>) -> Seq<CommandView>
    decreases cmds.len(),
{
    if cmds.len() == 0 {
        entries
    } else {
        spec_insert(insert_all(entries, cmds.drop_last()), cmds.last(), false)
    }
}

/// Overlay session commands, in order, on top of the PATH commands: each
/// shadows the command of the same key when its priority is at least as
/// high, and is appended when the key is new.
pub open spec fn overlay(entries: Seq<CommandView>, session: Seq<CommandView>) -> Seq<CommandView>
    decreases session.len(),
{
    if session.len() == 0 {
        entries
    } else {
        let e = overlay(entries, session.drop_last());
        let c = session.last();
        match find_key(e, key_of(c)) {
            Some(i) => if spec_priority(c.kind) >= spec_priority(e[i].kind) { e.update(i, c) } else { e },
            None => e.push(c),
        }
    }
}

/// The indexed form of a session command.
pub open spec fn from_shell(sc: ShellCommand) -> CommandView {
    let kind = spec_shell_kind(sc.kind@);
    CommandView {
        name: trim(sc.name@),
        kind,
        description: Seq::empty(),
        definition: sc.definition@,
        executable_path: if kind == CandidateKind::Command { spec_definition_path(sc.definition@) } else { None },
    }
}

/// Merge one session command into the session list: an empty name is
/// ignored, a new key is appended, and a known key keeps its position and is
/// replaced unless the new kind has a lower priority.
pub open spec fn merge_one(session: Seq<CommandView>, sc: ShellCommand) -> Seq<CommandView> {
    let c = from_shell(sc);
    if c.name.len() == 0 {
        session
    } else {
        match find_key(session, key_of(c)) {
            Some(i) => if spec_priority(c.kind) < spec_priority(session[i].kind) { session } else { session.update(i, c) },
            None => session.push(c),
        }
    }
}

/// Session list after merging the session commands `cmds` in order.
pub open spec fn merge_all(session: Seq<CommandView>, cmds: Seq<ShellCommand>) -> Seq<CommandView>
    decreases cmds.len(),
{
    if cmds.len() == 0 {
        session
    } else {
        merge_one(merge_all(session, cmds.drop_last()), cmds.last())
    }
}

pub proof fn lemma_find_key(entries: Seq<CommandView>, key: Seq<char>)
    ensures
        find_key(entries, key) matches Some(i) ==> 0 <= i < entries.len() && key_of(entries[i]) == key
            && forall|j: int| 0 <= j < i ==> key_of(#[trigger] entries[j]) != key,
        find_key(entries, key) is None ==> forall|j: int| 0 <= j < entries.len() ==> key_of(#[trigger] entries[j]) != key,
    decreases entries.len(),
{
    if entries.len() > 0 {
        lemma_find_key(entries.drop_last(), key);
        assert forall|j: int| 0 <= j < entries.len() - 1 implies entries.drop_last()[j] == #[trigger] entries[j] by {}
    }
}

proof fn lemma_find_key_prefix(entries: Seq<CommandView>, n: int, key: Seq<char>)
    requires
        0 <= n <= entries.len(),
        find_key(entries.take(n), key) is Some,
    ensures
        find_key(entries, key) == find_key(entries.take(n), key),
    decreases entries.len() - n,
{
    if n < entries.len() {
        assert(entries.take(n + 1).drop_last() =~= entries.take(n));
        lemma_find_key_prefix(entries, n + 1, key);
    } else {
        assert(entries.take(n) =~= entries);
    }
}

proof fn lemma_replace_unique(entries: Seq<CommandView>, i: int, c: CommandView)
    requires
        keys_unique(entries),
        0 <= i < entries.len(),
        key_of(entries[i]) == key_of(c),
    ensures
        keys_unique(entries.update(i, c)),
{
    let r = entries.update(i, c);
    assert forall|a: int, b: int| 0 <= a < b < r.len() implies key_of(#[trigger] r[a]) != key_of(#[trigger] r[b]) by {
        assert(key_of(entries[a]) != key_of(entries[b]));
    }
}

proof fn lemma_push_unique(entries: Seq<CommandView>, c: CommandView)
    requires
        keys_unique(entries),
        key_of(c).len() > 0,
        forall|j: int| 0 <= j < entries.len() ==> key_of(#[trigger] entries[j]) != key_of(c),
    ensures
        keys_unique(entries.push(c)),
{
    let r = entries.push(c);
    assert forall|a: int, b: int| 0 <= a < b < r.len() implies key_of(#[trigger] r[a]) != key_of(#[trigger] r[b]) by {
        assert(r[a] == entries[a]);
        if b < entries.len() {
            assert(r[b] == entries[b]);
        }
    }
}

proof fn lemma_step_unique(e: Seq<CommandView>, c: CommandView, replace: bool)
    requires
        keys_unique(e),
        key_of(c).len() > 0,
    ensures
        keys_unique(match find_key(e, key_of(c)) {
            Some(i) => if replace { e.update(i, c) } else { e },
            None => e.push(c),
        }),
{
    lemma_find_key(e, key_of(c));
    match find_key(e, key_of(c)) {
        Some(i) => if replace { lemma_replace_unique(e, i, c); },
        None => lemma_push_unique(e, c),
    }
}

pub proof fn lemma_overlay_unique(entries: Seq<CommandView>, session: Seq<CommandView>)
    requires
        keys_unique(entries),
        forall|i: int| 0 <= i < session.len() ==> key_of(#[trigger] session[i]).len() > 0,
    ensures
        keys_unique(overlay(entries, session)),
    decreases session.len(),
{
    if session.len() > 0 {
        lemma_overlay_unique(entries, session.drop_last());
        let e = overlay(entries, session.drop_last());
        let c = session.last();
        assert(key_of(c).len() > 0);
        lemma_find_key(e, key_of(c));
        match find_key(e, key_of(c)) {
            Some(i) => lemma_step_unique(e, c, spec_priority(c.kind) >= spec_priority(e[i].kind)),
            None => lemma_step_unique(e, c, true),
        }
    }
}

/// Index of the command with the lookup key `key`.
pub(crate) fn find_key_exec(entries: &Vec<IndexedCommand>, key: &str) -> (r: Option<usize>)
    ensures
        match r {
            Some(i) => find_key(views(entries@), key@) == Some(i as int),
            None => find_key(views(entries@), key@) is None,
        },
{
    let ghost v = views(entries@);
    let mut i: usize = 0;
    while i < entries.len()
        invariant
            v == views(entries@),
            i <= entries@.len(),
            find_key(v.take(i as int), key@) is None,
        decreases entries@.len() - i,
    {
        assert(v.take(i as int + 1).drop_last() =~= v.take(i as int));
        let k = command_key(entries[i].name.as_str());
        if str_eq(k.as_str(), key) {
            proof {
                assert(find_key(v.take(i as int + 1), key@) == Some(i as int));
                lemma_find_key_prefix(v, i as int + 1, key@);
            }
            return Some(i);
        }
        i = i + 1;
    }
    assert(v.take(i as int) =~= v);
    None
}

/// Copies of a list of commands.
fn copy_all(v: &Vec<IndexedCommand>) -> (r: Vec<IndexedCommand>)
    ensures
        views(r@) == views(v@),
{
    let mut r: Vec<IndexedCommand> = Vec::new();
    let mut i: usize = 0;
    while i < v.len()
        invariant
            i <= v@.len(),
            views(r@) == views(v@.take(i as int)),
        decreases v@.len() - i,
    {
        r.push(v[i].copy());
        assert(views(v@.take(i as int + 1)) =~= views(v@.take(i as int)).push(v@[i as int]@));
        assert(views(r@) =~= views(v@.take(i as int)).push(v@[i as int]@));
        i = i + 1;
    }
    assert(v@.take(i as int) =~= v@);
    r
}

/// Insert a command under its trimmed name.
pub fn insert_command(entries: &mut Vec<IndexedCommand>, command: IndexedCommand, replace: bool)
    requires
        keys_unique(views(old(entries)@)),
    ensures
        keys_unique(views(final(entries)@)),
        views(final(entries)@) == spec_insert(views(old(entries)@), command@, replace),
{
    let mut command = command;
    let ghost original = command@;
    let chars = chars_of(command.name.as_str());
    let trimmed_name = trim_chars(chars.as_slice());
    command.name = string_of(trimmed_name.as_slice());
    assert(command@ == trimmed(original));
    let key = command_key(command.name.as_str());
    proof {
        crate::text::lemma_trim_idempotent(original.name);
    }
    if key.as_str().is_empty() {
        return;
    }
    proof {
        lemma_find_key(views(entries@), key@);
    }
    match find_key_exec(entries, key.as_str()) {
        Some(index) => {
            if replace && command_priority(&command.kind) >= command_priority(&entries[index].kind) {
                let ghost c = command@;
                entries.set(index, command);
                proof {
                    lemma_replace_unique(views(old(entries)@), index as int, c);
                    assert(views(entries@) =~= views(old(entries)@).update(index as int, c));
                }
            }
        },
        None => {
            let ghost c = command@;
            entries.push(command);
            proof {
                lemma_push_unique(views(old(entries)@), c);
                assert(views(entries@) =~= views(old(entries)@).push(c));
            }
        },
    }
}

/// Merge one command reported by the session into the session list.
pub fn merge_session_command(session: &mut Vec<IndexedCommand>, command: &ShellCommand)
    requires
        keys_unique(views(old(session)@)),
    ensures
        keys_unique(views(final(session)@)),
        views(final(session)@) == merge_one(views(old(session)@), *command),
{
    let chars = chars_of(command.name.as_str());
    let trimmed_name = trim_chars(chars.as_slice());
    if trimmed_name.len() == 0 {
        return;
    }
    let command_kind = shell_kind(command.kind.as_str());
    let executable_path = if command_kind == CandidateKind::Command {
        definition_path(command.definition.as_str())
    } else {
        None
    };
    let indexed = IndexedCommand {
        name: string_of(trimmed_name.as_slice()),
        kind: command_kind,
        description: String::new(),
        definition: command.definition.clone(),
        executable_path,
    };
    assert(indexed@ == from_shell(*command));
    let key = command_key(indexed.name.as_str());
    proof {
        crate::text::lemma_trim_idempotent(command.name@);
        crate::text::lemma_lower_len(trim(command.name@));
        lemma_find_key(views(session@), key@);
    }
    match find_key_exec(session, key.as_str()) {
        Some(index) => {
            if command_priority(&indexed.kind) < command_priority(&session[index].kind) {
                return;
            }
            let ghost c = indexed@;
            session.set(index, indexed);
            proof {
                lemma_replace_unique(views(old(session)@), index as int, c);
                assert(views(session@) =~= views(old(session)@).update(index as int, c));
            }
        },
        None => {
            let ghost c = indexed@;
            session.push(indexed);
            proof {
                lemma_push_unique(views(old(session)@), c);
                assert(views(session@) =~= views(old(session)@).push(c));
            }
        },
    }
}

/// An ordered command index. Entries are kept in discovery order, so the
/// first matching PATH entry wins both indexing and display order.
pub struct CommandIndex {
    entries: Vec<IndexedCommand>,
    complete: bool,
    /// Commands discovered from PATH. Keeping this baseline lets a session
    /// alias shadow an application temporarily and restores the application
    /// when the next complete session snapshot no longer contains that alias.
    base_entries: Vec<IndexedCommand>,
    /// Session commands, in the order their keys were first reported.
    session: Vec<IndexedCommand>,
}

impl CommandIndex {
    /// The commands a query sees.
    pub closed spec fn spec_entries(&self) -> Seq<CommandView> {
        views(self.entries@)
    }

    /// The commands discovered on PATH.
    pub closed spec fn spec_base(&self) -> Seq<CommandView> {
        views(self.base_entries@)
    }

    /// The commands reported by the session.
    pub closed spec fn spec_session(&self) -> Seq<CommandView> {
        views(self.session@)
    }

    /// Whether the snapshot represents a complete PATH scan.
    pub closed spec fn spec_complete(&self) -> bool {
        self.complete
    }

    /// Keys are unique in every list and the visible commands are the
    /// session commands laid over the PATH commands.
    pub open spec fn wf(&self) -> bool {
        &&& keys_unique(self.spec_base())
        &&& keys_unique(self.spec_session())
        &&& keys_unique(self.spec_entries())
        &&& self.spec_entries() == overlay(self.spec_base(), self.spec_session())
    }

    /// An empty, complete index.
    pub fn new() -> (r: CommandIndex)
        ensures
            r.wf(),
            r.spec_entries().len() == 0,
            r.spec_base().len() == 0,
            r.spec_session().len() == 0,
            r.spec_complete(),
    {
        let r = CommandIndex { entries: Vec::new(), complete: true, base_entries: Vec::new(), session: Vec::new() };
        assert(views(r.entries@) =~= Seq::<CommandView>::empty());
        assert(views(r.session@) =~= Seq::<CommandView>::empty());
        r
    }

    /// An index of PATH commands that are already indexed (each key once),
    /// with no session commands.
    pub fn from_indexed(entries: &Vec<IndexedCommand>, complete: bool) -> (r: CommandIndex)
        requires
            keys_unique(views(entries@)),
        ensures
            r.wf(),
            r.spec_base() == views(entries@),
            r.spec_session().len() == 0,
            r.spec_complete() == complete,
    {
        let base_entries = copy_all(entries);
        let visible = copy_all(entries);
        let session: Vec<IndexedCommand> = Vec::new();
        assert(views(session@) =~= Seq::<CommandView>::empty());
        CommandIndex { entries: visible, complete, base_entries, session }
    }

    /// Build an index from PATH commands in discovery order; the first
    /// command of each key wins.
    pub fn from_commands(commands: &Vec<IndexedCommand>, complete: bool) -> (r: CommandIndex)
        ensures
            r.wf(),
            r.spec_session().len() == 0,
            r.spec_complete() == complete,
            r.spec_base() == insert_all(Seq::empty(), views(commands@)),
    {
        let mut entries: Vec<IndexedCommand> = Vec::new();
        let ghost cv = views(commands@);
        let mut i: usize = 0;
        assert(views(entries@) =~= Seq::<CommandView>::empty());
        while i < commands.len()
            invariant
                cv == views(commands@),
                i <= commands@.len(),
                keys_unique(views(entries@)),
                views(entries@) == insert_all(Seq::empty(), cv.take(i as int)),
            decreases commands@.len() - i,
        {
            insert_command(&mut entries, commands[i].copy(), false);
            proof {
                assert(cv.take(i as int + 1).drop_last() =~= cv.take(i as int));
            }
            i = i + 1;
        }
        assert(cv.take(i as int) =~= cv);
        let base_entries = copy_all(&entries);
        let session: Vec<IndexedCommand> = Vec::new();
        assert(views(session@) =~= Seq::<CommandView>::empty());
        CommandIndex { entries, complete, base_entries, session }
    }

    /// Merge commands reported by the actual PowerShell session.
    pub fn merge_shell_commands(&mut self, commands: Vec<ShellCommand>)
        requires
            old(self).wf(),
        ensures
            final(self).wf(),
            final(self).spec_base() == old(self).spec_base(),
            final(self).spec_complete() == old(self).spec_complete(),
            final(self).spec_session() == merge_all(old(self).spec_session(), commands@),
    {
        let ghost start = views(self.session@);
        let mut i: usize = 0;
        while i < commands.len()
            invariant
                i <= commands@.len(),
                keys_unique(views(self.session@)),
                views(self.session@) == merge_all(start, commands@.take(i as int)),
                keys_unique(views(self.base_entries@)),
                self.base_entries@ == old(self).base_entries@,
                self.complete == old(self).complete,
            decreases commands@.len() - i,
        {
            merge_session_command(&mut self.session, &commands[i]);
            proof {
                assert(commands@.take(i as int + 1).drop_last() =~= commands@.take(i as int));
            }
            i = i + 1;
        }
        assert(commands@.take(i as int) =~= commands@);
        self.rebuild_entries();
    }

    /// Replace the session command snapshot and restore PATH commands that
    /// were previously shadowed by aliases/functions/cmdlets.
    pub fn replace_shell_commands(&mut self, commands: Vec<ShellCommand>)
        requires
            old(self).wf(),
        ensures
            final(self).wf(),
            final(self).spec_base() == old(self).spec_base(),
            final(self).spec_complete() == old(self).spec_complete(),
            final(self).spec_session() == merge_all(Seq::empty(), commands@),
    {
        self.session = Vec::new();
        assert(views(self.session@) =~= Seq::<CommandView>::empty());
        self.rebuild_entries();
        self.merge_shell_commands(commands);
    }

    fn rebuild_entries(&mut self)
        requires
            keys_unique(views(old(self).base_entries@)),
            keys_unique(views(old(self).session@)),
        ensures
            final(self).wf(),
            final(self).base_entries@ == old(self).base_entries@,
            final(self).session@ == old(self).session@,
            final(self).complete == old(self).complete,
    {
        let mut entries = copy_all(&self.base_entries);
        let ghost base = views(self.base_entries@);
        let ghost sess = views(self.session@);
        let mut i: usize = 0;
        while i < self.session.len()
            invariant
                base == views(self.base_entries@),
                sess == views(self.session@),
                i <= sess.len(),
                keys_unique(base),
                keys_unique(sess),
                views(entries@) == overlay(base, sess.take(i as int)),
            decreases sess.len() - i,
        {
            proof {
                assert(sess.take(i as int + 1).drop_last() =~= sess.take(i as int));
                assert(sess.take(i as int + 1).last() == sess[i as int]);
                lemma_overlay_unique(base, sess.take(i as int));
            }
            let c = self.session[i].copy();
            let key = command_key(c.name.as_str());
            proof {
                lemma_find_key(views(entries@), key@);
            }
            match find_key_exec(&entries, key.as_str()) {
                Some(index) => {
                    if command_priority(&c.kind) >= command_priority(&entries[index].kind) {
                        let ghost cv = c@;
                        let ghost before = views(entries@);
                        entries.set(index, c);
                        assert(views(entries@) =~= before.update(index as int, cv));
                    }
                },
                None => {
                    let ghost cv = c@;
                    let ghost before = views(entries@);
                    entries.push(c);
                    assert(views(entries@) =~= before.push(cv));
                },
            }
            i = i + 1;
        }
        assert(sess.take(i as int) =~= sess);
        proof {
            lemma_overlay_unique(base, sess);
        }
        self.entries = entries;
    }

    pub fn len(&self) -> (r: usize)
        ensures
            r == self.spec_entries().len(),
    {
        self.entries.len()
    }

    pub fn is_empty(&self) -> (r: bool)
        ensures
            r == (self.spec_entries().len() == 0),
    {
        self.entries.len() == 0
    }

    /// Whether this snapshot represents a complete PATH scan. A complete
    /// empty index is valid; it is distinct from a scan still in progress.
    pub fn is_complete(&self) -> (r: bool)
        ensures
            r == self.spec_complete(),
    {
        self.complete
    }

    /// The commands a query sees, in index order.
    pub fn entries(&self) -> (r: &Vec<IndexedCommand>)
        ensures
            views(r@) == self.spec_entries(),
    {
        &self.entries
    }

    /// The command visible under `name`, if any.
    pub fn lookup(&self, name: &str) -> (r: Option<&IndexedCommand>)
        ensures
            match find_key(self.spec_entries(), spec_command_key(name@)) {
                Some(i) => r matches Some(c) && c@ == self.spec_entries()[i],
                None => r is None,
            },
    {
        let key = command_key(name);
        proof {
            lemma_find_key(views(self.entries@), key@);
        }
        match find_key_exec(&self.entries, key.as_str()) {
            Some(i) => Some(&self.entries[i]),
            None => None,
        }
    }
}


/// Why a cached command index is not used.
#[derive(Debug, Clone, Copy, PartialEq, Eq, Structural)]
pub enum LoadError {
    /// The cache was written in another format version.
    Version(u32),
    /// The cache holds a discovery that did not finish.
    Incomplete,
    /// The cache was written for another PATH/PATHEXT.
    Stale,
}

impl LoadError {
    /// The message reported for the error.
    pub fn message(&self) -> (r: String)
        ensures
            r@ == match self {
                LoadError::Version(v) => "unsupported command cache version "@ + crate::text::decimal(*v as nat),
                LoadError::Incomplete => "command cache contains an incomplete discovery"@,
                LoadError::Stale => "command cache PATH/PATHEXT context is stale"@,
            },
    {
        match self {
            LoadError::Version(v) => {
                let mut r = String::new();
                crate::text::push_str(&mut r, "unsupported command cache version ");
                crate::text::push_decimal(&mut r, *v as usize);
                r
            },
            LoadError::Incomplete => "command cache contains an incomplete discovery".to_owned(),
            LoadError::Stale => "command cache PATH/PATHEXT context is stale".to_owned(),
        }
    }
}

impl CommandIndex {
    /// Use a command cache read from disk: only one written in the current
    /// format (version 2), for a finished discovery, for the current
    /// PATH/PATHEXT (`current`); its commands are indexed in order.
    pub fn load(version: u32, complete: bool, current: bool, commands: &Vec<IndexedCommand>) -> (r: Result<CommandIndex, LoadError>)
        ensures
            version != 2 ==> r == Err::<CommandIndex, LoadError>(LoadError::Version(version)),
            version == 2 && !complete ==> r == Err::<CommandIndex, LoadError>(LoadError::Incomplete),
            version == 2 && complete && !current ==> r == Err::<CommandIndex, LoadError>(LoadError::Stale),
            version == 2 && complete && current ==> (r matches Ok(index) && index.wf()
                && index.spec_base() == insert_all(Seq::empty(), views(commands@))
                && index.spec_session().len() == 0 && index.spec_complete()),
    {
        if version != 2 {
            return Err(LoadError::Version(version));
        }
        if !complete {
            return Err(LoadError::Incomplete);
        }
        if !current {
            return Err(LoadError::Stale);
        }
        Ok(CommandIndex::from_commands(commands, true))
    }
}


/// With no session commands, the visible commands are exactly the PATH
/// commands: replacing the session snapshot by an empty one undoes all
/// shadowing.
pub proof fn law_empty_session_restores_path_commands(base: Seq<CommandView>)
    ensures
        overlay(base, merge_all(Seq::empty(), Seq::empty())) == base,
{
}

/// Session commands may shadow PATH commands but never hide a key: every
/// key of a PATH command stays visible.
pub proof fn law_path_keys_stay_visible(base: Seq<CommandView>, session: Seq<CommandView>, key: Seq<char>)
    requires
        find_key(base, key) is Some,
    ensures
        find_key(overlay(base, session), key) is Some,
    decreases session.len(),
{
    if session.len() > 0 {
        law_path_keys_stay_visible(base, session.drop_last(), key);
        let e = overlay(base, session.drop_last());
        let c = session.last();
        lemma_find_key(e, key);
        lemma_find_key(e, key_of(c));
        let k = find_key(e, key)->Some_0;
        match find_key(e, key_of(c)) {
            Some(i) => {
                if spec_priority(c.kind) >= spec_priority(e[i].kind) {
                    let e2 = e.update(i, c);
                    assert(key_of(e2[k]) == key);
                    lemma_find_key(e2, key);
                }
            },
            None => {
                let e2 = e.push(c);
                assert(key_of(e2[k]) == key);
                lemma_find_key(e2, key);
            },
        }
    }
}

} // verus!
