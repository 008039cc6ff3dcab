//! Discovering the executable commands on PATH: which file names are
//! commands, in what order a directory's commands are indexed, and the
//! resumable scan over the PATH directories. Reading directories is left
//! to the caller, which reports what it found.
use vstd::prelude::*;
use crate::commands::{
    command_key, insert_all, insert_command, keys_unique, spec_command_key, views, CommandIndex, CommandView,
    IndexedCommand,
};
use crate::model::CandidateKind;
use crate::path_cache::{chars_less, chars_less_exec};
use crate::text::{
    chars_end_with, chars_of, ends_with, lower, lower_chars, split_char, split_on, starts_with, string_of, string_of_range, string_views, trim, trim_chars,
};

verus! {

/// A program name without its `.com`, `.exe`, `.bat` or `.cmd` ending,
/// trying them in that order; case is compared exactly.
pub open spec fn spec_without_program_extension(name: Seq<char>) -> Option<Seq<char>> {
    if ends_with(name, ".com"@) {
        Some(name.take(name.len() - 4))
    } else if ends_with(name, ".exe"@) {
        Some(name.take(name.len() - 4))
    } else if ends_with(name, ".bat"@) {
        Some(name.take(name.len() - 4))
    } else if ends_with(name, ".cmd"@) {
        Some(name.take(name.len() - 4))
    } else {
        None
    }
}

/// A program name without its program ending (see [`spec_without_program_extension`]).
pub fn without_program_extension(name: &str) -> (r: Option<String>)
    ensures
        match spec_without_program_extension(name@) {
            Some(s) => r matches Some(t) && t@ == s,
            None => r is None,
        },
{
    let c = chars_of(name);
    proof {
        reveal_strlit(".com");
        reveal_strlit(".exe");
        reveal_strlit(".bat");
        reveal_strlit(".cmd");
    }
    let endings = [".com", ".exe", ".bat", ".cmd"];
    assert(endings@[0]@.len() == 4 && endings@[1]@.len() == 4 && endings@[2]@.len() == 4 && endings@[3]@.len() == 4);
    let mut k: usize = 0;
    while k < 4
        invariant
            c@ == name@,
            endings@ == seq![".com", ".exe", ".bat", ".cmd"],
            forall|j: int| 0 <= j < 4 ==> (#[trigger] endings@[j])@.len() == 4,
            k <= 4,
            forall|j: int| 0 <= j < k ==> !ends_with(name@, (#[trigger] endings@[j])@),
        decreases 4 - k,
    {
        let e = chars_of(endings[k]);
        if chars_end_with(c.as_slice(), e.as_slice()) {
            assert(e@.len() == 4);
            return Some(string_of_range(c.as_slice(), 0, c.len() - 4));
        }
        k = k + 1;
    }
    assert(!ends_with(name@, endings@[0]@) && !ends_with(name@, endings@[1]@));
    assert(!ends_with(name@, endings@[2]@) && !ends_with(name@, endings@[3]@));
    None
}

/// The key a command is looked up by: its command key without a program
/// ending.
pub open spec fn spec_command_lookup_key(name: Seq<char>) -> Seq<char> {
    let key = spec_command_key(name);
    match spec_without_program_extension(key) {
        Some(s) => s,
        None => key,
    }
}

/// The key a command is looked up by (see [`spec_command_lookup_key`]).
pub fn command_lookup_key(name: &str) -> (r: String)
    ensures
        r@ == spec_command_lookup_key(name@),
{
    let key = command_key(name);
    match without_program_extension(key.as_str()) {
        Some(s) => s,
        None => key,
    }
}

/// A path that names a network location: `//`, a `\\?\UNC\` or
/// `\\.\UNC\` prefix, or `\\` without a verbatim or device prefix.
pub open spec fn spec_is_remote_path(text: Seq<char>) -> bool {
    let l = lower(text);
    starts_with(text, "//"@)
        || starts_with(l, "\\\\?\\unc\\"@) || starts_with(l, "\\\\.\\unc\\"@)
        || (starts_with(l, "\\\\"@) && !starts_with(l, "\\\\?\\"@) && !starts_with(l, "\\\\.\\"@))
}

fn starts(s: &Vec<char>, p: &str) -> (r: bool)
    ensures
        r == starts_with(s@, p@),
{
    let q = chars_of(p);
    crate::text::chars_start_with(s.as_slice(), q.as_slice())
}

/// Whether a path names a network location (see [`spec_is_remote_path`]).
pub fn is_remote_path(path: &str) -> (r: bool)
    ensures
        r == spec_is_remote_path(path@),
{
    let t = chars_of(path);
    let l = lower_chars(t.as_slice());
    starts(&t, "//") || starts(&l, "\\\\?\\unc\\") || starts(&l, "\\\\.\\unc\\")
        || (starts(&l, "\\\\") && !starts(&l, "\\\\?\\") && !starts(&l, "\\\\.\\"))
}

/// The PATHEXT ending of one `;`-separated piece: trimmed, with a leading
/// dot, ASCII lower case; a blank piece has none.
pub open spec fn pathext_piece(piece: Seq<char>) -> Option<Seq<char>> {
    let t = trim(piece);
    if t.len() == 0 {
        None
    } else {
        Some(lower(if t[0] == '.' { t } else { seq!['.'] + t }))
    }
}

/// The distinct endings of the pieces, in order of first appearance.
pub open spec fn pathext_fold(pieces: Seq<Seq<char>>) -> Seq<Seq<char>>
    decreases pieces.len(),
{
    if pieces.len() == 0 {
        Seq::empty()
    } else {
        let prev = pathext_fold(pieces.drop_last());
        match pathext_piece(pieces.last()) {
            Some(e) => if prev.contains(e) { prev } else { prev.push(e) },
            None => prev,
        }
    }
}

/// The endings PATHEXT names, or those of the default PATHEXT
/// `.COM;.EXE;.BAT;.CMD` when it names none.
pub open spec fn spec_parse_pathext(value: Seq<char>) -> Seq<Seq<char>> {
    let r = pathext_fold(split_on(value, ';'));
    if r.len() == 0 { seq![".com"@, ".exe"@, ".bat"@, ".cmd"@] } else { r }
}

fn contains_chars(v: &Vec<String>, s: &Vec<char>) -> (r: bool)
    ensures
        r == string_views(v@).contains(s@),
{
    let mut k: usize = 0;
    while k < v.len()
        invariant
            k <= v@.len(),
            forall|j: int| 0 <= j < k ==> v@[j]@ != s@,
        decreases v@.len() - k,
    {
        let c = chars_of(v[k].as_str());
        if crate::text::chars_eq(c.as_slice(), s.as_slice()) {
            assert(string_views(v@)[k as int] == s@);
            return true;
        }
        k = k + 1;
    }
    assert forall|j: int| 0 <= j < string_views(v@).len() implies string_views(v@)[j] != s@ by {
        assert(string_views(v@)[j] == v@[j]@);
    }
    false
}

/// The endings PATHEXT names (see [`spec_parse_pathext`]).
pub fn parse_pathext(value: &str) -> (r: Vec<String>)
    ensures
        string_views(r@) == spec_parse_pathext(value@),
{
    let v = chars_of(value);
    let pieces = split_char(v.as_slice(), ';');
    let ghost pv = pieces@.map_values(|p: Vec<char>| p@);
    let mut r: Vec<String> = Vec::new();
    let mut i: usize = 0;
    assert(string_views(r@) =~= Seq::<Seq<char>>::empty());
    while i < pieces.len()
        invariant
            pv == pieces@.map_values(|p: Vec<char>| p@),
            pv == split_on(value@, ';'),
            i <= pv.len(),
            string_views(r@) == pathext_fold(pv.take(i as int)),
        decreases pv.len() - i,
    {
        assert(pv.take(i as int + 1).drop_last() =~= pv.take(i as int));
        assert(pv.take(i as int + 1).last() == pieces@[i as int]@);
        let t = trim_chars(pieces[i].as_slice());
        if t.len() > 0 {
            let mut e: Vec<char> = Vec::new();
            if t[0] != '.' {
                e.push('.');
            }
            let mut k: usize = 0;
            let ghost start = e@;
            while k < t.len()
                invariant
                    k <= t@.len(),
                    e@ == start + t@.take(k as int),
                decreases t@.len() - k,
            {
                e.push(t[k]);
                assert(t@.take(k as int + 1) =~= t@.take(k as int).push(t@[k as int]));
                k = k + 1;
            }
            assert(t@.take(k as int) =~= t@);
            assert(e@ =~= if t@[0] == '.' { t@ } else { seq!['.'] + t@ });
            let lowered = lower_chars(e.as_slice());
            if !contains_chars(&r, &lowered) {
                let ghost before = string_views(r@);
                r.push(string_of(lowered.as_slice()));
                assert(string_views(r@) =~= before.push(lowered@));
            }
        }
        i = i + 1;
    }
    assert(pv.take(i as int) =~= pv);
    if r.len() == 0 {
        let mut d: Vec<String> = Vec::new();
        d.push(".com".to_owned());
        d.push(".exe".to_owned());
        d.push(".bat".to_owned());
        d.push(".cmd".to_owned());
        assert(string_views(d@) =~= seq![".com"@, ".exe"@, ".bat"@, ".cmd"@]);
        return d;
    }
    r
}

/// The stem of a file name that is a command, and the rank of its ending:
/// the first ending that the name ends with, ignoring ASCII case, and
/// that leaves a non-empty stem.
pub open spec fn spec_executable_stem(name: Seq<char>, extensions: Seq<Seq<char>>, from: int) -> Option<(Seq<char>, int)>
    decreases extensions.len() - from,
{
    if from < 0 || from >= extensions.len() {
        None
    } else {
        let e = extensions[from];
        if ends_with(lower(name), e) && name.len() > e.len() {
            Some((name.take(name.len() - e.len()), from))
        } else {
            spec_executable_stem(name, extensions, from + 1)
        }
    }
}

/// The stem of a file name that is a command, and the rank of its ending
/// (see [`spec_executable_stem`]).
pub fn executable_stem(name: &str, extensions: &Vec<String>) -> (r: Option<(String, usize)>)
    ensures
        match spec_executable_stem(name@, string_views(extensions@), 0) {
            Some((stem, rank)) => r matches Some((s, k)) && s@ == stem && k == rank,
            None => r is None,
        },
{
    let ghost ev = string_views(extensions@);
    let c = chars_of(name);
    let l = lower_chars(c.as_slice());
    let mut k: usize = 0;
    while k < extensions.len()
        invariant
            ev == string_views(extensions@),
            c@ == name@,
            l@ == lower(name@),
            k <= ev.len(),
            spec_executable_stem(name@, ev, 0) == spec_executable_stem(name@, ev, k as int),
        decreases ev.len() - k,
    {
        let e = chars_of(extensions[k].as_str());
        assert(e@ == ev[k as int]);
        if chars_end_with(l.as_slice(), e.as_slice()) && c.len() > e.len() {
            return Some((string_of_range(c.as_slice(), 0, c.len() - e.len()), k));
        }
        k = k + 1;
    }
    None
}


/// A command file found in a PATH directory.
#[derive(Debug)]
pub struct FoundCommand {
    /// The rank of its PATHEXT ending.
    pub extension_rank: usize,
    /// Its file name in ASCII lower case.
    pub lower_name: String,
    /// Its name without the ending.
    pub stem: String,
    /// Where it is.
    pub executable_path: String,
}

/// The value of a found command.
pub struct FoundView {
    pub rank: usize,
    pub lower_name: Seq<char>,
    pub stem: Seq<char>,
    pub path: Seq<char>,
}

impl View for FoundCommand {
    type V = FoundView;

    open spec fn view(&self) -> FoundView {
        FoundView { rank: self.extension_rank, lower_name: self.lower_name@, stem: self.stem@, path: self.executable_path@ }
    }
}

/// Values of found commands.
pub open spec fn found_views(v: Seq<FoundCommand>) -> Seq<FoundView> {
    v.map_values(|f: FoundCommand| f@)
}

/// The order a directory's commands are indexed in: by the rank of the
/// ending, then by file name, then by stem in ASCII lower case.
pub open spec fn found_before(a: FoundView, b: FoundView) -> bool {
    a.rank < b.rank || (a.rank == b.rank && (chars_less(a.lower_name, b.lower_name)
        || (a.lower_name == b.lower_name && chars_less(lower(a.stem), lower(b.stem)))))
}

/// `e` put after every command that it does not come before.
pub open spec fn insert_found(s: Seq<FoundView>, e: FoundView) -> Seq<FoundView>
    decreases s.len(),
{
    if s.len() == 0 {
        seq![e]
    } else if found_before(e, s.last()) {
        insert_found(s.drop_last(), e).push(s.last())
    } else {
        s.push(e)
    }
}

/// A directory's commands in indexing order; ties keep their listed order.
pub open spec fn found_order(s: Seq<FoundView>) -> Seq<FoundView>
    decreases s.len(),
{
    if s.len() == 0 { Seq::empty() } else { insert_found(found_order(s.drop_last()), s.last()) }
}

proof fn lemma_insert_found_at(s: Seq<FoundView>, e: FoundView, j: int)
    requires
        0 <= j <= s.len(),
        forall|m: int| j <= m < s.len() ==> found_before(e, #[trigger] s[m]),
        j == 0 || !found_before(e, s[j - 1]),
    ensures
        insert_found(s, e) == s.insert(j, e),
    decreases s.len(),
{
    if s.len() == 0 {
        assert(s.insert(j, e) =~= seq![e]);
    } else if j == s.len() {
        assert(s.insert(j, e) =~= s.push(e));
    } else {
        assert(found_before(e, s[s.len() - 1]));
        lemma_insert_found_at(s.drop_last(), e, j);
        assert(s.drop_last().insert(j, e).push(s.last()) =~= s.insert(j, e));
    }
}

/// The index entry of a found command.
pub open spec fn found_command(f: FoundView) -> CommandView {
    CommandView {
        name: f.stem,
        kind: CandidateKind::Command,
        description: Seq::empty(),
        definition: Seq::empty(),
        executable_path: Some(f.path),
    }
}

fn found_before_exec(a: &FoundCommand, b: &FoundCommand) -> (r: bool)
    ensures
        r == found_before(a@, b@),
{
    if a.extension_rank != b.extension_rank {
        return a.extension_rank < b.extension_rank;
    }
    let x = chars_of(a.lower_name.as_str());
    let y = chars_of(b.lower_name.as_str());
    if chars_less_exec(x.as_slice(), y.as_slice()) {
        return true;
    }
    if !crate::text::chars_eq(x.as_slice(), y.as_slice()) {
        return false;
    }
    let sa = chars_of(a.stem.as_str());
    let sb = chars_of(b.stem.as_str());
    let la = lower_chars(sa.as_slice());
    let lb = lower_chars(sb.as_slice());
    chars_less_exec(la.as_slice(), lb.as_slice())
}

/// A directory's commands put in indexing order (see [`found_before`]).
pub fn sort_found(found: Vec<FoundCommand>) -> (r: Vec<FoundCommand>)
    ensures
        found_views(r@) == found_order(found_views(found@)),
{
    let mut found = found;
    let ghost all = found@;
    let n = found.len();
    let mut rest: Vec<FoundCommand> = Vec::new();
    while found.len() > 0
        invariant
            found@.len() + rest@.len() == n,
            n == all.len(),
            forall|k: int| 0 <= k < found@.len() ==> found@[k] == all[k],
            forall|k: int| 0 <= k < rest@.len() ==> rest@[k] == all[n - 1 - k],
        decreases found@.len(),
    {
        let f = found.pop().unwrap();
        rest.push(f);
    }
    let ghost fv = found_views(all);
    let mut out: Vec<FoundCommand> = Vec::new();
    assert(found_views(out@) =~= found_order(fv.take(0)));
    while rest.len() > 0
        invariant
            rest@.len() <= n,
            n == all.len(),
            fv == found_views(all),
            forall|k: int| 0 <= k < rest@.len() ==> rest@[k] == all[n - 1 - k],
            found_views(out@) == found_order(fv.take(n - rest@.len())),
        decreases rest@.len(),
    {
        let f = rest.pop().unwrap();
        let ghost i = n - 1 - rest@.len();
        let ghost e = f@;
        let ghost ov = found_views(out@);
        assert(e == fv[i]);
        let mut j: usize = out.len();
        while j > 0 && found_before_exec(&f, &out[j - 1])
            invariant
                j <= out@.len(),
                ov == found_views(out@),
                e == f@,
                forall|m: int| j <= m < ov.len() ==> found_before(e, #[trigger] ov[m]),
            decreases j,
        {
            assert(ov[j as int - 1] == out@[j as int - 1]@);
            j = j - 1;
        }
        proof {
            if j > 0 {
                assert(ov[j as int - 1] == out@[j as int - 1]@);
            }
            lemma_insert_found_at(ov, e, j as int);
            assert(fv.take(i + 1).drop_last() =~= fv.take(i));
            assert(fv.take(i + 1).last() == e);
        }
        out.insert(j, f);
        assert(found_views(out@) =~= ov.insert(j as int, e));
    }
    assert(fv.take(n as int) =~= fv);
    out
}

/// The resumable discovery of the commands on PATH.
pub struct Discovery {
    entries: Vec<IndexedCommand>,
    directories: Vec<String>,
    extensions: Vec<String>,
    directory_index: usize,
    current: Option<Vec<FoundCommand>>,
    access_error: bool,
    done: bool,
}

impl Discovery {
    /// The commands indexed so far.
    pub closed spec fn spec_entries(&self) -> Seq<CommandView> {
        views(self.entries@)
    }

    /// The PATH directories, in order.
    pub closed spec fn spec_directories(&self) -> Seq<Seq<char>> {
        string_views(self.directories@)
    }

    /// The PATHEXT endings, in rank order.
    pub closed spec fn spec_extensions(&self) -> Seq<Seq<char>> {
        string_views(self.extensions@)
    }

    /// How many directories have been taken.
    pub closed spec fn spec_next(&self) -> nat {
        self.directory_index as nat
    }

    /// The commands found in the directory being listed, if one is.
    pub closed spec fn spec_current(&self) -> Option<Seq<FoundView>> {
        match self.current {
            Some(v) => Some(found_views(v@)),
            None => None,
        }
    }

    /// Whether some directory or entry could not be read.
    pub closed spec fn spec_access_error(&self) -> bool {
        self.access_error
    }

    /// Whether every directory has been taken.
    pub closed spec fn spec_done(&self) -> bool {
        self.done
    }

    /// Each command key is indexed once, and at most every directory is taken.
    pub open spec fn wf(&self) -> bool {
        keys_unique(self.spec_entries()) && self.spec_next() <= self.spec_directories().len()
    }

    /// Start a discovery over the PATH directories with the endings PATHEXT names.
    pub fn new(directories: Vec<String>, pathext: &str) -> (r: Discovery)
        ensures
            r.wf(),
            r.spec_entries().len() == 0,
            r.spec_directories() == string_views(directories@),
            r.spec_extensions() == spec_parse_pathext(pathext@),
            r.spec_next() == 0,
            r.spec_current() is None,
            !r.spec_access_error(),
            !r.spec_done(),
    {
        let entries: Vec<IndexedCommand> = Vec::new();
        assert(views(entries@) =~= Seq::<CommandView>::empty());
        Discovery {
            entries,
            directories,
            extensions: parse_pathext(pathext),
            directory_index: 0,
            current: None,
            access_error: false,
            done: false,
        }
    }

    /// The next directory to list. When every directory has been taken
    /// the discovery is done and nothing is returned; nothing is returned
    /// either while a directory is being listed.
    pub fn next_directory(&mut self) -> (r: Option<String>)
        requires
            old(self).wf(),
        ensures
            final(self).wf(),
            final(self).spec_entries() == old(self).spec_entries(),
            final(self).spec_directories() == old(self).spec_directories(),
            final(self).spec_extensions() == old(self).spec_extensions(),
            final(self).spec_current() == old(self).spec_current(),
            final(self).spec_access_error() == old(self).spec_access_error(),
            if old(self).spec_done() || old(self).spec_current() is Some {
                r is None && final(self).spec_next() == old(self).spec_next() && final(self).spec_done() == old(self).spec_done()
            } else if old(self).spec_next() < old(self).spec_directories().len() {
                &&& r matches Some(d) && d@ == old(self).spec_directories()[old(self).spec_next() as int]
                &&& final(self).spec_next() == old(self).spec_next() + 1
                &&& !final(self).spec_done()
            } else {
                r is None && final(self).spec_next() == old(self).spec_next() && final(self).spec_done()
            },
    {
        if self.done || self.current.is_some() {
            return None;
        }
        if self.directory_index < self.directories.len() {
            let d = self.directories[self.directory_index].clone();
            self.directory_index = self.directory_index + 1;
            Some(d)
        } else {
            self.done = true;
            None
        }
    }

    /// A directory was not listed: it is remote, or could not be opened.
    /// `access_error` tells a failure that makes the scan incomplete from
    /// a directory that is simply missing.
    pub fn skip_directory(&mut self, access_error: bool)
        ensures
            final(self).spec_entries() == old(self).spec_entries(),
            final(self).spec_directories() == old(self).spec_directories(),
            final(self).spec_extensions() == old(self).spec_extensions(),
            final(self).spec_next() == old(self).spec_next(),
            final(self).spec_current() == old(self).spec_current(),
            final(self).spec_done() == old(self).spec_done(),
            final(self).spec_access_error() == (old(self).spec_access_error() || access_error),
    {
        if access_error {
            self.access_error = true;
        }
    }

    /// A directory was opened: its entries follow.
    pub fn open_directory(&mut self)
        ensures
            final(self).spec_entries() == old(self).spec_entries(),
            final(self).spec_directories() == old(self).spec_directories(),
            final(self).spec_extensions() == old(self).spec_extensions(),
            final(self).spec_next() == old(self).spec_next(),
            final(self).spec_current() == Some(Seq::<FoundView>::empty()),
            final(self).spec_done() == old(self).spec_done(),
            final(self).spec_access_error() == old(self).spec_access_error(),
    {
        let v: Vec<FoundCommand> = Vec::new();
        assert(found_views(v@) =~= Seq::<FoundView>::empty());
        self.current = Some(v);
    }

    /// The stem and ending rank of a file name, if it names a command.
    pub fn stem(&self, name: &str) -> (r: Option<(String, usize)>)
        ensures
            match spec_executable_stem(name@, self.spec_extensions(), 0) {
                Some((stem, rank)) => r matches Some((s, k)) && s@ == stem && k == rank,
                None => r is None,
            },
    {
        executable_stem(name, &self.extensions)
    }

    /// A command file was found in the directory being listed.
    pub fn found(&mut self, command: FoundCommand)
        ensures
            final(self).spec_entries() == old(self).spec_entries(),
            final(self).spec_directories() == old(self).spec_directories(),
            final(self).spec_extensions() == old(self).spec_extensions(),
            final(self).spec_next() == old(self).spec_next(),
            final(self).spec_done() == old(self).spec_done(),
            final(self).spec_access_error() == old(self).spec_access_error(),
            final(self).spec_current() == match old(self).spec_current() {
                Some(v) => Some(v.push(command@)),
                None => None,
            },
    {
        match self.current.take() {
            Some(mut v) => {
                let ghost before = found_views(v@);
                v.push(command);
                assert(found_views(v@) =~= before.push(command@));
                self.current = Some(v);
            },
            None => {},
        }
    }

    /// An entry of the directory being listed could not be read.
    pub fn entry_error(&mut self)
        ensures
            final(self).spec_entries() == old(self).spec_entries(),
            final(self).spec_directories() == old(self).spec_directories(),
            final(self).spec_extensions() == old(self).spec_extensions(),
            final(self).spec_next() == old(self).spec_next(),
            final(self).spec_current() == old(self).spec_current(),
            final(self).spec_done() == old(self).spec_done(),
            final(self).spec_access_error(),
    {
        self.access_error = true;
    }

    /// The directory being listed has ended: index its commands in
    /// indexing order, each key keeping the command found first.
    pub fn finish_directory(&mut self)
        requires
            old(self).wf(),
        ensures
            final(self).wf(),
            final(self).spec_directories() == old(self).spec_directories(),
            final(self).spec_extensions() == old(self).spec_extensions(),
            final(self).spec_next() == old(self).spec_next(),
            final(self).spec_current() is None,
            final(self).spec_done() == old(self).spec_done(),
            final(self).spec_access_error() == old(self).spec_access_error(),
            final(self).spec_entries() == match old(self).spec_current() {
                Some(v) => insert_all(old(self).spec_entries(), found_order(v).map_values(|f: FoundView| found_command(f))),
                None => old(self).spec_entries(),
            },
    {
        match self.current.take() {
            None => {},
            Some(found) => {
                let sorted = sort_found(found);
                let ghost sv = found_views(sorted@);
                let ghost cmds = sv.map_values(|f: FoundView| found_command(f));
                let ghost start = views(self.entries@);
                let mut sorted = sorted;
                let mut rest: Vec<FoundCommand> = Vec::new();
                let ghost all = sorted@;
                let n = sorted.len();
                while sorted.len() > 0
                    invariant
                        sorted@.len() + rest@.len() == n,
                        n == all.len(),
                        forall|k: int| 0 <= k < sorted@.len() ==> sorted@[k] == all[k],
                        forall|k: int| 0 <= k < rest@.len() ==> rest@[k] == all[n - 1 - k],
                    decreases sorted@.len(),
                {
                    let f = sorted.pop().unwrap();
                    rest.push(f);
                }
                assert(sv == found_views(all));
                while rest.len() > 0
                    invariant
                        rest@.len() <= n,
                        n == all.len(),
                        sv == found_views(all),
                        cmds == sv.map_values(|f: FoundView| found_command(f)),
                        forall|k: int| 0 <= k < rest@.len() ==> rest@[k] == all[n - 1 - k],
                        keys_unique(views(self.entries@)),
                        views(self.entries@) == insert_all(start, cmds.take(n - rest@.len())),
                        self.directories@ == old(self).directories@,
                        self.extensions@ == old(self).extensions@,
                        self.directory_index == old(self).directory_index,
                        self.directory_index <= self.directories@.len(),
                        self.current is None,
                        self.done == old(self).done,
                        self.access_error == old(self).access_error,
                    decreases rest@.len(),
                {
                    let f = rest.pop().unwrap();
                    let ghost i = n - 1 - rest@.len();
                    let c = IndexedCommand {
                        name: f.stem,
                        kind: CandidateKind::Command,
                        description: String::new(),
                        definition: String::new(),
                        executable_path: Some(f.executable_path),
                    };
                    assert(c@ == cmds[i]);
                    insert_command(&mut self.entries, c, false);
                    assert(cmds.take(i + 1).drop_last() =~= cmds.take(i));
                    assert(cmds.take(i + 1).last() == cmds[i]);
                }
                assert(cmds.take(n as int) =~= cmds);
            },
        }
    }

    /// The commands indexed so far, as an index: complete only once every
    /// directory was listed without an access error.
    pub fn snapshot(&self) -> (r: CommandIndex)
        requires
            self.wf(),
        ensures
            r.wf(),
            r.spec_base() == self.spec_entries(),
            r.spec_session().len() == 0,
            r.spec_complete() == (self.spec_done() && !self.spec_access_error()),
    {
        CommandIndex::from_indexed(&self.entries, self.done && !self.access_error)
    }

    /// Whether the scan has ended with every directory listed without an
    /// access error.
    pub fn is_complete(&self) -> (r: bool)
        ensures
            r == (self.spec_done() && !self.spec_access_error()),
    {
        self.done && !self.access_error
    }

    /// Whether every directory has been taken.
    pub fn is_done(&self) -> (r: bool)
        ensures
            r == self.spec_done(),
    {
        self.done
    }
}


/// Indexing more PATH commands never changes or moves a command already
/// indexed: of two commands with one name, the one found first is kept.
pub proof fn law_first_found_command_is_kept(entries: Seq<CommandView>, cmds: Seq<CommandView>)
    ensures
        insert_all(entries, cmds).len() >= entries.len(),
        insert_all(entries, cmds).take(entries.len() as int) == entries,
    decreases cmds.len(),
{
    if cmds.len() > 0 {
        law_first_found_command_is_kept(entries, cmds.drop_last());
        let prev = insert_all(entries, cmds.drop_last());
        let r = insert_all(entries, cmds);
        assert(r == crate::commands::spec_insert(prev, cmds.last(), false));
        if r != prev {
            assert(r.take(entries.len() as int) =~= prev.take(entries.len() as int));
        }
    }
}

} // verus!
