//! Learning a command's help: which executable a command name stands for,
//! whether its help may be read unasked, how it is asked for its help,
//! what the answer yields, and when a learned record is still current.
use vstd::prelude::*;
use crate::help::{HelpPage};
use crate::packs::{hex_lower, pack_digest, sha256};
use crate::text::{
    bytes_of, chars_of, ends_with, lower, lower_chars, push_char, push_decimal, push_str, str_eq, string_of, string_views, decimal,
};

verus! {

/// The version of the help parser whose records are current.
pub const PARSER_VERSION: u32 = 2;

/// The part of a command after its last `/` or `\`.
pub open spec fn last_segment(s: Seq<char>) -> Seq<char>
    decreases s.len(),
{
    if s.len() == 0 {
        s
    } else if s.last() == '/' || s.last() == '\\' {
        Seq::empty()
    } else {
        last_segment(s.drop_last()).push(s.last())
    }
}

/// `s` without every trailing repetition of `suffix`.
pub open spec fn trim_suffix(s: Seq<char>, suffix: Seq<char>) -> Seq<char>
    decreases s.len(),
{
    if suffix.len() > 0 && ends_with(s, suffix) {
        trim_suffix(s.take(s.len() - suffix.len()), suffix)
    } else {
        s
    }
}

/// The name a command was invoked by: its last path segment in ASCII
/// lower case, without `.exe`, then `.cmd`, then `.ps1` endings.
pub open spec fn spec_invoked_root(command: Seq<char>) -> Seq<char> {
    trim_suffix(trim_suffix(trim_suffix(lower(last_segment(command)), ".exe"@), ".cmd"@), ".ps1"@)
}

fn trim_suffix_exec(s: Vec<char>, suffix: &str) -> (r: Vec<char>)
    requires
        suffix@.len() > 0,
    ensures
        r@ == trim_suffix(s@, suffix@),
    decreases s@.len(),
{
    let p = chars_of(suffix);
    if crate::text::chars_end_with(s.as_slice(), p.as_slice()) {
        let mut t = s;
        let n = t.len() - p.len();
        t.truncate(n);
        assert(t@ =~= s@.take(s@.len() - suffix@.len()));
        trim_suffix_exec(t, suffix)
    } else {
        s
    }
}

/// The name a command was invoked by (see [`spec_invoked_root`]).
pub fn invoked_root(command: &str) -> (r: String)
    ensures
        r@ == spec_invoked_root(command@),
{
    let c = chars_of(command);
    let mut start: usize = c.len();
    assert(c@.take(start as int) =~= c@);
    assert(c@.skip(start as int) =~= Seq::<char>::empty());
    assert(last_segment(c@) =~= last_segment(c@.take(start as int)) + c@.skip(start as int));
    while start > 0 && c[start - 1] != '/' && c[start - 1] != '\\'
        invariant
            start <= c@.len(),
            last_segment(c@) == last_segment(c@.take(start as int)) + c@.skip(start as int),
        decreases start,
    {
        assert(c@.take(start as int).drop_last() =~= c@.take(start as int - 1));
        assert(c@.skip(start as int - 1) =~= seq![c@[start as int - 1]] + c@.skip(start as int));
        assert(last_segment(c@.take(start as int)) =~= last_segment(c@.take(start as int - 1)).push(c@[start as int - 1]));
        start = start - 1;
    }
    proof {
        if start > 0 {
            assert(last_segment(c@.take(start as int)) =~= Seq::<char>::empty());
        } else {
            assert(c@.take(0) =~= Seq::<char>::empty());
        }
        assert(c@.skip(start as int) =~= c@.subrange(start as int, c@.len() as int));
    }
    let segment = crate::paths::copy_range(&c, start, c.len());
    assert(segment@ =~= last_segment(c@));
    let lowered = lower_chars(segment.as_slice());
    proof {
        reveal_strlit(".exe");
        reveal_strlit(".cmd");
        reveal_strlit(".ps1");
    }
    let a = trim_suffix_exec(lowered, ".exe");
    let b = trim_suffix_exec(a, ".cmd");
    let d = trim_suffix_exec(b, ".ps1");
    string_of(d.as_slice())
}

/// Where a tool's usual installation lives: below the user's profile,
/// local application data, or program files.
#[derive(Debug, Clone, Copy, PartialEq, Eq, Structural)]
pub enum InstallBase {
    Home,
    LocalAppData,
    ProgramFiles,
}

/// The usual installation directories of known tools.
pub open spec fn spec_install_roots(root: Seq<char>) -> Seq<(InstallBase, Seq<char>)> {
    if root == "cargo"@ || root == "rustc"@ {
        seq![(InstallBase::Home, ".cargo/bin"@)]
    } else if root == "codex"@ {
        seq![(InstallBase::LocalAppData, "OpenAI/Codex/bin"@)]
    } else if root == "git"@ {
        seq![(InstallBase::ProgramFiles, "Git"@)]
    } else if root == "gh"@ {
        seq![(InstallBase::ProgramFiles, "GitHub CLI"@)]
    } else if root == "pwsh"@ {
        seq![(InstallBase::ProgramFiles, "PowerShell"@)]
    } else if root == "dotnet"@ {
        seq![(InstallBase::ProgramFiles, "dotnet"@)]
    } else if root == "python"@ || root == "python3"@ {
        seq![(InstallBase::LocalAppData, "Programs/Python"@)]
    } else if root == "uv"@ {
        seq![(InstallBase::Home, ".local/bin"@), (InstallBase::LocalAppData, "Microsoft/WinGet/Packages"@)]
    } else if root == "winget"@ {
        seq![(InstallBase::ProgramFiles, "WindowsApps"@)]
    } else if root == "docker"@ {
        seq![(InstallBase::ProgramFiles, "Docker"@)]
    } else {
        Seq::empty()
    }
}

/// The values of (base, relative path) pairs.
pub open spec fn root_views(v: Seq<(InstallBase, String)>) -> Seq<(InstallBase, Seq<char>)> {
    v.map_values(|p: (InstallBase, String)| (p.0, p.1@))
}

fn one_root(base: InstallBase, path: &str) -> (r: Vec<(InstallBase, String)>)
    ensures
        root_views(r@) == seq![(base, path@)],
{
    let mut r: Vec<(InstallBase, String)> = Vec::new();
    r.push((base, path.to_owned()));
    assert(root_views(r@) =~= seq![(base, path@)]);
    r
}

/// The usual installation directories of a known tool, relative to their base.
pub fn install_roots(root: &str) -> (r: Vec<(InstallBase, String)>)
    ensures
        root_views(r@) == spec_install_roots(root@),
{
    if str_eq(root, "cargo") || str_eq(root, "rustc") {
        one_root(InstallBase::Home, ".cargo/bin")
    } else if str_eq(root, "codex") {
        one_root(InstallBase::LocalAppData, "OpenAI/Codex/bin")
    } else if str_eq(root, "git") {
        one_root(InstallBase::ProgramFiles, "Git")
    } else if str_eq(root, "gh") {
        one_root(InstallBase::ProgramFiles, "GitHub CLI")
    } else if str_eq(root, "pwsh") {
        one_root(InstallBase::ProgramFiles, "PowerShell")
    } else if str_eq(root, "dotnet") {
        one_root(InstallBase::ProgramFiles, "dotnet")
    } else if str_eq(root, "python") || str_eq(root, "python3") {
        one_root(InstallBase::LocalAppData, "Programs/Python")
    } else if str_eq(root, "uv") {
        let mut r: Vec<(InstallBase, String)> = Vec::new();
        r.push((InstallBase::Home, ".local/bin".to_owned()));
        r.push((InstallBase::LocalAppData, "Microsoft/WinGet/Packages".to_owned()));
        assert(root_views(r@) =~= seq![(InstallBase::Home, ".local/bin"@), (InstallBase::LocalAppData, "Microsoft/WinGet/Packages"@)]);
        r
    } else if str_eq(root, "winget") {
        one_root(InstallBase::ProgramFiles, "WindowsApps")
    } else if str_eq(root, "docker") {
        one_root(InstallBase::ProgramFiles, "Docker")
    } else {
        let r: Vec<(InstallBase, String)> = Vec::new();
        assert(root_views(r@) =~= Seq::<(InstallBase, Seq<char>)>::empty());
        r
    }
}

/// Whether a learned command's help may be read without asking: a known
/// tool outside the current project, installed where such tools are
/// installed, by npm as a package, or run without a script.
pub open spec fn spec_trusted(known: bool, in_project: bool, packaged: bool, npm_install: bool, known_install: bool, has_script: bool) -> bool {
    known && !in_project && ((packaged && npm_install) || known_install || !has_script)
}

/// Whether a learned command's help may be read without asking.
pub fn trusted_entry(known: bool, in_project: bool, packaged: bool, npm_install: bool, known_install: bool, has_script: bool) -> (r: bool)
    ensures
        r == spec_trusted(known, in_project, packaged, npm_install, known_install, has_script),
{
    known && !in_project && ((packaged && npm_install) || known_install || !has_script)
}

/// The npm package a command shim belongs to.
pub open spec fn spec_shim_package(root: Seq<char>) -> Seq<char> {
    if root == "codex"@ { "@openai/codex"@ } else { root }
}

/// The npm package a command shim belongs to.
pub fn shim_package(root: &str) -> (r: String)
    ensures
        r@ == spec_shim_package(root@),
{
    if str_eq(root, "codex") { "@openai/codex".to_owned() } else { root.to_owned() }
}

/// `s` with every `\` turned into `/`.
pub open spec fn forward_slashes(s: Seq<char>) -> Seq<char> {
    s.map_values(|c: char| if c == '\\' { '/' } else { c })
}

/// Whether a command shim's text launches the package's own script: it
/// names `node_modules/<package>/<bin>`, with either kind of slash.
pub open spec fn spec_shim_launches(wrapper: Seq<char>, package: Seq<char>, bin: Seq<char>) -> bool {
    crate::hub::contains_seq(forward_slashes(wrapper), "node_modules/"@ + package + seq!['/'] + bin)
}

/// Whether a command shim's text launches the package's own script.
pub fn shim_launches(wrapper: &str, package: &str, bin: &str) -> (r: bool)
    ensures
        r == spec_shim_launches(wrapper@, package@, bin@),
{
    let w = chars_of(wrapper);
    let mut f: Vec<char> = Vec::new();
    let mut i: usize = 0;
    while i < w.len()
        invariant
            i <= w@.len(),
            f@ == forward_slashes(w@.take(i as int)),
        decreases w@.len() - i,
    {
        f.push(if w[i] == '\\' { '/' } else { w[i] });
        assert(forward_slashes(w@.take(i as int + 1)) =~= forward_slashes(w@.take(i as int)).push(if w@[i as int] == '\\' { '/' } else { w@[i as int] }));
        i = i + 1;
    }
    assert(w@.take(i as int) =~= w@);
    let mut expected = "node_modules/".to_owned();
    push_str(&mut expected, package);
    push_char(&mut expected, '/');
    push_str(&mut expected, bin);
    let e = chars_of(expected.as_str());
    assert(e@ =~= "node_modules/"@ + package@ + seq!['/'] + bin@);
    crate::hub::contains_word(&f, &e)
}

/// A help context word: ASCII letters, digits, `-` and `_`.
pub open spec fn context_word(w: Seq<char>) -> bool {
    w.len() > 0 && forall|i: int| 0 <= i < w.len() ==> {
        let c = #[trigger] w[i];
        ('a' <= c <= 'z') || ('A' <= c <= 'Z') || ('0' <= c <= '9') || c == '-' || c == '_'
    }
}

/// A context for learning help: at most four words.
pub open spec fn spec_valid_context(context: Seq<Seq<char>>) -> bool {
    context.len() <= 4 && forall|i: int| 0 <= i < context.len() ==> context_word(#[trigger] context[i])
}

/// Whether a help context may be learned (see [`spec_valid_context`]).
#[verifier::loop_isolation(false)]
pub fn valid_help_context(context: &Vec<String>) -> (r: bool)
    ensures
        r == spec_valid_context(string_views(context@)),
{
    let ghost cv = string_views(context@);
    if context.len() > 4 {
        return false;
    }
    let mut k: usize = 0;
    while k < context.len()
        invariant
            cv == string_views(context@),
            k <= cv.len(),
            forall|i: int| 0 <= i < k ==> context_word(#[trigger] cv[i]),
        decreases cv.len() - k,
    {
        let w = chars_of(context[k].as_str());
        assert(w@ == cv[k as int]);
        if w.len() == 0 {
            return false;
        }
        let mut j: usize = 0;
        while j < w.len()
            invariant
                j <= w@.len(),
                forall|i: int| 0 <= i < j ==> {
                    let c = #[trigger] w@[i];
                    ('a' <= c <= 'z') || ('A' <= c <= 'Z') || ('0' <= c <= '9') || c == '-' || c == '_'
                },
            decreases w@.len() - j,
        {
            let c = w[j];
            if !(('a' <= c && c <= 'z') || ('A' <= c && c <= 'Z') || ('0' <= c && c <= '9') || c == '-' || c == '_') {
                assert(!context_word(cv[k as int]));
                return false;
            }
            j = j + 1;
        }
        k = k + 1;
    }
    true
}

/// The arguments that ask a command for its help: the context words, and
/// the help flag the tool's help adapter expects (`scoop` and `aws` take
/// `help` before and after the context instead).
pub open spec fn spec_help_arguments(adapter: Seq<char>, command: Seq<char>, context: Seq<Seq<char>>) -> Seq<Seq<char>> {
    if adapter == "scoop"@ {
        seq!["help"@] + context
    } else if adapter == "aws"@ {
        context.push("help"@)
    } else {
        context.push(if adapter == "windows-slash"@ {
            "/?"@
        } else if adapter == "sevenzip"@ {
            "-h"@
        } else if adapter == "choco"@ {
            "-?"@
        } else if adapter == "sqlite"@ {
            "-help"@
        } else if command == "git"@ && context.len() > 0 {
            "-h"@
        } else {
            "--help"@
        })
    }
}

/// The arguments that ask a command for its help (see [`spec_help_arguments`]).
pub fn help_arguments(adapter: &str, command: &str, context: &Vec<String>) -> (r: Vec<String>)
    ensures
        string_views(r@) == spec_help_arguments(adapter@, command@, string_views(context@)),
{
    let ghost cv = string_views(context@);
    let mut r: Vec<String> = Vec::new();
    if str_eq(adapter, "scoop") {
        r.push("help".to_owned());
    }
    let mut k: usize = 0;
    let ghost start = string_views(r@);
    while k < context.len()
        invariant
            cv == string_views(context@),
            k <= cv.len(),
            string_views(r@) == start + cv.take(k as int),
        decreases cv.len() - k,
    {
        let ghost before = string_views(r@);
        r.push(context[k].clone());
        assert(string_views(r@) =~= before.push(cv[k as int]));
        assert(cv.take(k as int + 1) =~= cv.take(k as int).push(cv[k as int]));
        assert(string_views(r@) =~= start + cv.take(k as int + 1));
        k = k + 1;
    }
    assert(cv.take(k as int) =~= cv);
    if str_eq(adapter, "scoop") {
        assert(string_views(r@) =~= seq!["help"@] + cv);
        return r;
    }
    let flag = if str_eq(adapter, "aws") {
        "help"
    } else if str_eq(adapter, "windows-slash") {
        "/?"
    } else if str_eq(adapter, "sevenzip") {
        "-h"
    } else if str_eq(adapter, "choco") {
        "-?"
    } else if str_eq(adapter, "sqlite") {
        "-help"
    } else if str_eq(command, "git") && context.len() > 0 {
        "-h"
    } else {
        "--help"
    };
    r.push(flag.to_owned());
    assert(start =~= Seq::<Seq<char>>::empty());
    assert(string_views(r@) =~= cv.push(flag@));
    r
}

/// The full argument list of a help request: a package's script first,
/// `-I -S` for Python so no site code runs, then the request.
pub open spec fn spec_launch_arguments(script: Option<Seq<char>>, command: Seq<char>, request: Seq<Seq<char>>) -> Seq<Seq<char>> {
    (match script {
        Some(s) => seq![s],
        None => Seq::empty(),
    }) + (if command == "python"@ || command == "python3"@ { seq!["-I"@, "-S"@] } else { Seq::empty() }) + request
}

/// The full argument list of a help request (see [`spec_launch_arguments`]).
pub fn launch_arguments(script: Option<&str>, command: &str, request: &Vec<String>) -> (r: Vec<String>)
    ensures
        string_views(r@) == spec_launch_arguments(match script {
            Some(s) => Some(s@),
            None => None,
        }, command@, string_views(request@)),
{
    let mut r: Vec<String> = Vec::new();
    match script {
        Some(s) => r.push(s.to_owned()),
        None => {},
    }
    if str_eq(command, "python") || str_eq(command, "python3") {
        r.push("-I".to_owned());
        r.push("-S".to_owned());
    }
    let ghost start = string_views(r@);
    let ghost qv = string_views(request@);
    let mut k: usize = 0;
    while k < request.len()
        invariant
            qv == string_views(request@),
            k <= qv.len(),
            string_views(r@) == start + qv.take(k as int),
        decreases qv.len() - k,
    {
        let ghost before = string_views(r@);
        r.push(request[k].clone());
        assert(string_views(r@) =~= before.push(qv[k as int]));
        assert(qv.take(k as int + 1) =~= qv.take(k as int).push(qv[k as int]));
        assert(string_views(r@) =~= start + qv.take(k as int + 1));
        k = k + 1;
    }
    assert(qv.take(k as int) =~= qv);
    r
}


/// The text whose digest fingerprints a learned command: the parser
/// version and the stamps of the command, its target and its script.
pub open spec fn fingerprint_text(path_stamp: Seq<char>, target_stamp: Seq<char>, script_stamp: Seq<char>) -> Seq<char> {
    decimal(PARSER_VERSION as nat) + seq![':'] + path_stamp + seq![':'] + target_stamp + seq![':'] + script_stamp
}

/// The fingerprint of a learned command: the SHA-256 of its
/// [`fingerprint_text`] in UTF-8, in lower-case hexadecimal.
pub open spec fn spec_fingerprint(path_stamp: Seq<char>, target_stamp: Seq<char>, script_stamp: Seq<char>) -> Seq<char> {
    hex_lower(sha256(vstd::utf8::encode_utf8(fingerprint_text(path_stamp, target_stamp, script_stamp))))
}

/// The fingerprint of a learned command (see [`spec_fingerprint`]). A stamp
/// names a file with its size and modification time.
pub fn fingerprint(path_stamp: &str, target_stamp: &str, script_stamp: &str) -> (r: String)
    ensures
        r@ == spec_fingerprint(path_stamp@, target_stamp@, script_stamp@),
{
    let mut t = String::new();
    push_decimal(&mut t, PARSER_VERSION as usize);
    push_char(&mut t, ':');
    push_str(&mut t, path_stamp);
    push_char(&mut t, ':');
    push_str(&mut t, target_stamp);
    push_char(&mut t, ':');
    push_str(&mut t, script_stamp);
    assert(t@ =~= fingerprint_text(path_stamp@, target_stamp@, script_stamp@));
    let bytes = bytes_of(t.as_str());
    pack_digest(bytes.as_slice())
}

/// Whether a learned record is current: made by this parser, for files
/// that still have the stamps it was made for. `stamps` holds the stamps
/// of the command and its target, when both can be read.
pub open spec fn spec_record_current(parser_version: u32, recorded: Seq<char>, stamps: Option<(Seq<char>, Seq<char>)>, script_stamp: Seq<char>) -> bool {
    parser_version == PARSER_VERSION && match stamps {
        Some((a, b)) => spec_fingerprint(a, b, script_stamp) == recorded,
        None => false,
    }
}

/// Whether a learned record is current (see [`spec_record_current`]).
pub fn record_current(parser_version: u32, recorded: &str, stamps: Option<(String, String)>, script_stamp: &str) -> (r: bool)
    ensures
        r == spec_record_current(parser_version, recorded@, match stamps {
            Some((a, b)) => Some((a@, b@)),
            None => None,
        }, script_stamp@),
{
    if parser_version != PARSER_VERSION {
        return false;
    }
    match stamps {
        Some((a, b)) => {
            let f = fingerprint(a.as_str(), b.as_str(), script_stamp);
            str_eq(f.as_str(), recorded)
        },
        None => false,
    }
}

/// The help page learned from a command's answer: marked with the help
/// adapter; for cargo without context, the subcommands are taken from
/// `cargo --list` instead. An answer with neither options nor commands is
/// refused.
pub fn finish_page(page: HelpPage, adapter: &str, listing: Option<HelpPage>) -> (r: Result<HelpPage, String>)
    ensures
        ({
            let commands = match listing { Some(l) => l.commands@, None => page.commands@ };
            let aliases = match listing { Some(l) => l.command_aliases@, None => page.command_aliases@ };
            let commands_complete = match listing { Some(l) => l.commands_complete, None => page.commands_complete };
            if page.options@.len() == 0 && commands.len() == 0 {
                r matches Err(m) && m@ == "未识别到可用的命令或选项"@
            } else {
                r matches Ok(p) && {
                    &&& p@.description == page@.description
                    &&& p@.options == page@.options
                    &&& p.commands@ == commands
                    &&& p.command_aliases@ == aliases
                    &&& p.options_complete == page.options_complete
                    &&& p.commands_complete == commands_complete
                    &&& p.truncated == page.truncated
                    &&& p@.adapter == (if listing is Some { "cargo-list+help"@ } else { adapter@ })
                    &&& p.complete == (if listing is Some { page.options_complete && commands_complete } else { page.complete })
                }
            }
        }),
{
    let mut page = page;
    page.adapter = adapter.to_owned();
    match listing {
        Some(l) => {
            page.commands = l.commands;
            page.command_aliases = l.command_aliases;
            page.commands_complete = l.commands_complete;
            page.adapter = "cargo-list+help".to_owned();
            page.complete = page.options_complete && page.commands_complete;
        },
        None => {},
    }
    if page.options.len() == 0 && page.commands.len() == 0 {
        Err("未识别到可用的命令或选项".to_owned())
    } else {
        Ok(page)
    }
}


/// The script a package's manifest names for a command: only a manifest
/// of that very package counts; its `bin` entry for the command, else its
/// `bin` when that is a single path. `name`, `bin_for_root` and `bin_text`
/// are the manifest's `name`, `bin[root]` and `bin` when they are strings.
pub open spec fn spec_package_bin(package: Seq<char>, name: Option<Seq<char>>, bin_for_root: Option<Seq<char>>,
    bin_text: Option<Seq<char>>) -> Option<Seq<char>>
{
    if name != Some(package) {
        None
    } else if bin_for_root is Some {
        bin_for_root
    } else {
        bin_text
    }
}

/// The script a package's manifest names for a command (see
/// [`spec_package_bin`]).
pub fn package_bin(package: &str, name: Option<&str>, bin_for_root: Option<&str>, bin_text: Option<&str>) -> (r: Option<String>)
    ensures
        match r { Some(x) => Some(x@), None => None } == spec_package_bin(package@,
            match name { Some(x) => Some(x@), None => None },
            match bin_for_root { Some(x) => Some(x@), None => None },
            match bin_text { Some(x) => Some(x@), None => None }),
{
    let same = match name {
        Some(n) => str_eq(n, package),
        None => false,
    };
    if !same {
        return None;
    }
    match bin_for_root {
        Some(b) => Some(b.to_owned()),
        None => match bin_text {
            Some(b) => Some(b.to_owned()),
            None => None,
        },
    }
}

} // verus!
