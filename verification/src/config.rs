//! Configuration of the completion UI: defaults, key chords, themes and
//! the validation that bounds every value read from disk.
use vstd::prelude::*;
use crate::text::{
    split_on, split_char, chars_of, decimal, is_blank, is_blank_str, lower, lower_chars, push_decimal, push_str, str_eq, string_of, trim, trim_chars,
};

verus! {

/// A key of a shortcut, without modifiers.
#[derive(Debug, Clone, Copy, PartialEq, Eq, Structural)]
pub enum Key {
    Char(char),
    Tab,
    Enter,
    Esc,
    F(u8),
}

/// A key with its modifiers.
#[derive(Debug, Clone, Copy, PartialEq, Eq, Structural)]
pub struct Chord {
    pub key: Key,
    pub ctrl: bool,
    pub alt: bool,
    pub shift: bool,
}

/// The value of a run of decimal digits.
pub open spec fn digits_value(d: Seq<char>) -> nat
    decreases d.len(),
{
    if d.len() == 0 {
        0
    } else {
        digits_value(d.drop_last()) * 10 + ((d.last() as u32) - 48) as nat
    }
}

pub open spec fn is_digit(c: char) -> bool {
    '0' <= c <= '9'
}

/// `u8::from_str`: an optional `+`, then one or more decimal digits whose
/// value fits in a byte.
pub open spec fn parse_u8(s: Seq<char>) -> Option<u8> {
    let d = unsigned_digits(s);
    if d.len() > 0 && all_digits(d) && digits_value(d) <= 255 {
        Some(digits_value(d) as u8)
    } else {
        None
    }
}

/// The digits of an unsigned number: without a leading `+`.
pub open spec fn unsigned_digits(s: Seq<char>) -> Seq<char> {
    if s.len() > 0 && s[0] == '+' { s.skip(1) } else { s }
}

pub open spec fn all_digits(d: Seq<char>) -> bool {
    forall|i: int| 0 <= i < d.len() ==> is_digit(#[trigger] d[i])
}

pub proof fn lemma_digits_value_monotone(d: Seq<char>, i: int)
    requires
        0 <= i <= d.len(),
        forall|k: int| 0 <= k < d.len() ==> is_digit(#[trigger] d[k]),
    ensures
        digits_value(d.take(i)) <= digits_value(d),
    decreases d.len() - i,
{
    if i < d.len() {
        lemma_digits_value_monotone(d, i + 1);
        assert(d.take(i + 1).drop_last() =~= d.take(i));
    } else {
        assert(d.take(i) =~= d);
    }
}

fn parse_byte(s: &[char]) -> (r: Option<u8>)
    ensures
        r == parse_u8(s@),
{
    let start: usize = if s.len() > 0 && s[0] == '+' { 1 } else { 0 };
    let ghost d = unsigned_digits(s@);
    assert(d =~= s@.skip(start as int));
    if start >= s.len() {
        return None;
    }
    let mut value: u32 = 0;
    let mut i: usize = start;
    assert(d.take(0) =~= Seq::<char>::empty());
    while i < s.len()
        invariant
            start <= i <= s@.len(),
            d == s@.skip(start as int),
            d == unsigned_digits(s@),
            forall|k: int| 0 <= k < i - start ==> is_digit(#[trigger] d[k]),
            value == digits_value(d.take(i - start)),
            value <= 255,
        decreases s@.len() - i,
    {
        let c = s[i];
        if !('0' <= c && c <= '9') {
            assert(!is_digit(d[i - start]));
            assert(!all_digits(d));
            return None;
        }
        let ghost k = i - start;
        assert(d.take(k + 1).drop_last() =~= d.take(k));
        assert(d.take(k + 1).last() == c);
        value = value * 10 + ((c as u32) - 48);
        i = i + 1;
        if value > 255 {
            proof {
                if all_digits(d) {
                    lemma_digits_value_monotone(d, k + 1);
                }
            }
            return None;
        }
    }
    assert(d.take(i - start) =~= d);
    Some(value as u8)
}

/// The key a (lower-cased, trimmed) chord part names.
pub open spec fn key_of(p: Seq<char>) -> Result<Key, Seq<char>> {
    if p == "space"@ {
        Ok(Key::Char(' '))
    } else if p == "tab"@ {
        Ok(Key::Tab)
    } else if p == "enter"@ {
        Ok(Key::Enter)
    } else if p == "esc"@ || p == "escape"@ {
        Ok(Key::Esc)
    } else if p.len() > 1 && p[0] == 'f' {
        match parse_u8(p.skip(1)) {
            None => Err("invalid function key"@),
            Some(n) => if 1 <= n <= 12 { Ok(Key::F(n)) } else { Err("function keys must be F1 through F12"@) },
        }
    } else if p.len() == 1 {
        Ok(Key::Char(p[0]))
    } else {
        Err("unsupported key '"@ + p + "'"@)
    }
}

/// What has been read of a chord so far: the key, if any, and the
/// Ctrl, Alt and Shift modifiers.
pub open spec fn chord_step(acc: (Option<Key>, bool, bool, bool), raw: Seq<char>) -> Result<(Option<Key>, bool, bool, bool), Seq<char>> {
    let p = lower(trim(raw));
    if p == "ctrl"@ || p == "control"@ {
        Ok((acc.0, true, acc.2, acc.3))
    } else if p == "alt"@ {
        Ok((acc.0, acc.1, true, acc.3))
    } else if p == "shift"@ {
        Ok((acc.0, acc.1, acc.2, true))
    } else if acc.0 is Some {
        Err("use one key with optional Ctrl/Alt/Shift modifiers"@)
    } else {
        match key_of(p) {
            Ok(k) => Ok((Some(k), acc.1, acc.2, acc.3)),
            Err(e) => Err(e),
        }
    }
}

/// The `+`-separated parts of a chord read left to right.
pub open spec fn chord_fold(parts: Seq<Seq<char>>) -> Result<(Option<Key>, bool, bool, bool), Seq<char>>
    decreases parts.len(),
{
    if parts.len() == 0 {
        Ok((None, false, false, false))
    } else {
        match chord_fold(parts.drop_last()) {
            Err(e) => Err(e),
            Ok(acc) => chord_step(acc, parts.last()),
        }
    }
}

/// A shortcut such as `Ctrl+Alt+Space` or `F1`: one key and any of the
/// Ctrl, Alt and Shift modifiers, case-insensitively; or why it is refused.
pub open spec fn spec_parse_chord(text: Seq<char>) -> Result<Chord, Seq<char>> {
    match chord_fold(split_on(text, '+')) {
        Err(e) => Err(e),
        Ok((k, c, a, s)) => match k {
            Some(key) => Ok(Chord { key, ctrl: c, alt: a, shift: s }),
            None => Err("missing key"@),
        },
    }
}

fn split_plus(text: &str) -> (r: Vec<Vec<char>>)
    ensures
        r@.map_values(|v: Vec<char>| v@) == split_on(text@, '+'),
{
    let s = chars_of(text);
    split_char(s.as_slice(), '+')
}

fn key_of_exec(p: &Vec<char>) -> (r: Result<Key, String>)
    ensures
        match key_of(p@) {
            Ok(k) => r == Ok::<Key, String>(k),
            Err(e) => r matches Err(m) && m@ == e,
        },
{
    let s = string_of(p.as_slice());
    let t = s.as_str();
    if str_eq(t, "space") {
        Ok(Key::Char(' '))
    } else if str_eq(t, "tab") {
        Ok(Key::Tab)
    } else if str_eq(t, "enter") {
        Ok(Key::Enter)
    } else if str_eq(t, "esc") || str_eq(t, "escape") {
        Ok(Key::Esc)
    } else if p.len() > 1 && p[0] == 'f' {
        let digits = crate::paths::copy_range(p, 1, p.len());
        assert(digits@ =~= p@.skip(1));
        match parse_byte(digits.as_slice()) {
            None => Err("invalid function key".to_owned()),
            Some(n) => if 1 <= n && n <= 12 {
                Ok(Key::F(n))
            } else {
                Err("function keys must be F1 through F12".to_owned())
            },
        }
    } else if p.len() == 1 {
        Ok(Key::Char(p[0]))
    } else {
        let mut m = String::new();
        push_str(&mut m, "unsupported key '");
        push_str(&mut m, t);
        push_str(&mut m, "'");
        Err(m)
    }
}

/// Parse a shortcut such as `Ctrl+Alt+Space`.
pub fn parse_chord(text: &str) -> (r: Result<Chord, String>)
    ensures
        match spec_parse_chord(text@) {
            Ok(c) => r == Ok::<Chord, String>(c),
            Err(e) => r matches Err(m) && m@ == e,
        },
{
    let parts = split_plus(text);
    let ghost pv = parts@.map_values(|v: Vec<char>| v@);
    let mut key: Option<Key> = None;
    let mut ctrl = false;
    let mut alt = false;
    let mut shift = false;
    let mut i: usize = 0;
    while i < parts.len()
        invariant
            pv == parts@.map_values(|v: Vec<char>| v@),
            pv == split_on(text@, '+'),
            i <= pv.len(),
            chord_fold(pv.take(i as int)) == Ok::<(Option<Key>, bool, bool, bool), Seq<char>>((key, ctrl, alt, shift)),
        decreases pv.len() - i,
    {
        assert(pv.take(i as int + 1).drop_last() =~= pv.take(i as int));
        assert(pv.take(i as int + 1).last() == parts@[i as int]@);
        let t = trim_chars(parts[i].as_slice());
        let p = lower_chars(t.as_slice());
        let ps = string_of(p.as_slice());
        let pt = ps.as_str();
        if str_eq(pt, "ctrl") || str_eq(pt, "control") {
            ctrl = true;
        } else if str_eq(pt, "alt") {
            alt = true;
        } else if str_eq(pt, "shift") {
            shift = true;
        } else if key.is_some() {
            proof {
                lemma_chord_fold_err(pv, i as int + 1);
                assert(pv.take(pv.len() as int) =~= pv);
            }
            return Err("use one key with optional Ctrl/Alt/Shift modifiers".to_owned());
        } else {
            match key_of_exec(&p) {
                Ok(k) => {
                    key = Some(k);
                },
                Err(e) => {
                    proof {
                        lemma_chord_fold_err(pv, i as int + 1);
                        assert(pv.take(pv.len() as int) =~= pv);
                    }
                    return Err(e);
                },
            }
        }
        i = i + 1;
    }
    assert(pv.take(i as int) =~= pv);
    match key {
        Some(k) => Ok(Chord { key: k, ctrl, alt, shift }),
        None => Err("missing key".to_owned()),
    }
}

proof fn lemma_chord_fold_err(parts: Seq<Seq<char>>, n: int)
    requires
        0 <= n <= parts.len(),
        chord_fold(parts.take(n)) is Err,
    ensures
        chord_fold(parts.take(parts.len() as int)) == chord_fold(parts.take(n)),
    decreases parts.len() - n,
{
    if n < parts.len() {
        assert(parts.take(n + 1).drop_last() =~= parts.take(n));
        lemma_chord_fold_err(parts, n + 1);
    }
}


/// Shortcuts of the completion UI.
#[derive(Debug, Clone)]
pub struct KeyBindings {
    pub trigger: String,
    pub native: String,
    pub search: String,
    pub details: String,
    pub refresh: String,
    pub reload: String,
    pub protocol_prefix: String,
}

impl Default for KeyBindings {
    fn default() -> (r: Self)
        ensures
            r.trigger@ == "Ctrl+Space"@,
            r.native@ == "Ctrl+Alt+Space"@,
            r.search@ == "Ctrl+Alt+F"@,
            r.details@ == "F1"@,
            r.refresh@ == "Ctrl+Alt+C"@,
            r.reload@ == "Ctrl+Alt+R"@,
            r.protocol_prefix@ == "F12"@,
    {
        KeyBindings {
            trigger: "Ctrl+Space".to_owned(),
            native: "Ctrl+Alt+Space".to_owned(),
            search: "Ctrl+Alt+F".to_owned(),
            details: "F1".to_owned(),
            refresh: "Ctrl+Alt+C".to_owned(),
            reload: "Ctrl+Alt+R".to_owned(),
            protocol_prefix: "F12".to_owned(),
        }
    }
}

/// Whether local selection counts are kept.
#[derive(Debug, Clone)]
pub struct LearningConfig {
    pub enabled: bool,
}

impl Default for LearningConfig {
    fn default() -> (r: Self)
        ensures
            r.enabled,
    {
        LearningConfig { enabled: true }
    }
}

/// Where command specifications are read from, when not the default.
#[derive(Debug, Clone)]
pub struct SpecsConfig {
    pub directory: Option<String>,
}

impl Default for SpecsConfig {
    fn default() -> (r: Self)
        ensures
            r.directory is None,
    {
        SpecsConfig { directory: None }
    }
}

/// Whether local command help is consulted.
#[derive(Debug, Clone)]
pub struct HelpConfig {
    pub enabled: bool,
}

impl Default for HelpConfig {
    fn default() -> (r: Self)
        ensures
            r.enabled,
    {
        HelpConfig { enabled: true }
    }
}

/// Presentation settings for the completion menu.
#[derive(Debug, Clone)]
pub struct UiConfig {
    pub max_rows: usize,
    pub width: usize,
    pub descriptions: bool,
    /// One of `rounded`, `square`, or `none`.
    pub border: String,
    pub icons: bool,
    pub icon_style: String,
    pub foreground: String,
    pub background: String,
    pub selected_foreground: String,
    pub selected_background: String,
    pub border_color: String,
    pub description_color: String,
    pub match_color: String,
    pub theme: String,
    pub status_bar: bool,
}

impl Default for UiConfig {
    fn default() -> (r: Self)
        ensures
            r.max_rows == 8,
            r.width == 0,
            r.descriptions,
            r.border@ == "rounded"@,
            r.icons,
            r.icon_style@ == "unicode"@,
            r.foreground@ == "default"@,
            r.background@ == "default"@,
            r.selected_foreground@ == "#ffffff"@,
            r.selected_background@ == "#264f78"@,
            r.border_color@ == "#6688aa"@,
            r.description_color@ == "#8f9baa"@,
            r.match_color@ == "#ffcc66"@,
            r.theme@ == "dark"@,
            r.status_bar,
    {
        UiConfig {
            max_rows: 8,
            width: 0,
            descriptions: true,
            border: "rounded".to_owned(),
            icons: true,
            icon_style: "unicode".to_owned(),
            foreground: "default".to_owned(),
            background: "default".to_owned(),
            selected_foreground: "#ffffff".to_owned(),
            selected_background: "#264f78".to_owned(),
            border_color: "#6688aa".to_owned(),
            description_color: "#8f9baa".to_owned(),
            match_color: "#ffcc66".to_owned(),
            theme: "dark".to_owned(),
            status_bar: true,
        }
    }
}

/// Completion collection settings.
#[derive(Debug, Clone)]
pub struct CompletionConfig {
    pub max_results: usize,
    pub auto_trigger: bool,
    pub fuzzy: bool,
    pub dynamic: bool,
    pub append_space: bool,
    pub up_arrow_history: bool,
}

impl Default for CompletionConfig {
    fn default() -> (r: Self)
        ensures
            r.max_results == 100,
            r.auto_trigger,
            r.fuzzy,
            r.dynamic,
            r.append_space,
            r.up_arrow_history,
    {
        CompletionConfig {
            max_results: 100,
            auto_trigger: true,
            fuzzy: true,
            dynamic: true,
            append_space: true,
            up_arrow_history: true,
        }
    }
}

/// The whole configuration.
#[derive(Debug, Clone)]
pub struct Config {
    pub ui: UiConfig,
    pub completion: CompletionConfig,
    /// Offline description overrides keyed by the full canonical command
    /// context, in key order.
    pub descriptions: Vec<(String, String)>,
    pub keys: KeyBindings,
    pub learning: LearningConfig,
    pub specs: SpecsConfig,
    pub help: HelpConfig,
}

impl Default for Config {
    fn default() -> (r: Self)
        ensures
            r.descriptions@.len() == 0,
            r.ui.max_rows == 8,
            r.ui.theme@ == "dark"@,
            r.completion.max_results == 100,
            r.keys.trigger@ == "Ctrl+Space"@,
            r.keys.protocol_prefix@ == "F12"@,
            r.learning.enabled,
            r.specs.directory is None,
            r.help.enabled,
    {
        Config {
            ui: UiConfig::default(),
            completion: CompletionConfig::default(),
            descriptions: Vec::new(),
            keys: KeyBindings::default(),
            learning: LearningConfig::default(),
            specs: SpecsConfig::default(),
            help: HelpConfig::default(),
        }
    }
}

pub open spec fn is_hex_digit(c: char) -> bool {
    ('0' <= c <= '9') || ('a' <= c <= 'f') || ('A' <= c <= 'F')
}

/// `default`, or a six-digit `#RRGGBB` color.
pub open spec fn valid_color(s: Seq<char>) -> bool {
    s == "default"@ || (s.len() == 7 && s[0] == '#' && forall|i: int| 1 <= i < 7 ==> is_hex_digit(#[trigger] s[i]))
}

/// Whether a color setting is `default` or a six-digit `#RRGGBB` color.
pub fn is_valid_color(value: &str) -> (r: bool)
    ensures
        r == valid_color(value@),
{
    if str_eq(value, "default") {
        return true;
    }
    let c = chars_of(value);
    if c.len() != 7 || c[0] != '#' {
        return false;
    }
    let mut i: usize = 1;
    while i < 7
        invariant
            c@ == value@,
            value@ != "default"@,
            c@[0] == '#',
            c@.len() == 7,
            1 <= i <= 7,
            forall|j: int| 1 <= j < i ==> is_hex_digit(#[trigger] c@[j]),
        decreases 7 - i,
    {
        let x = c[i];
        if !(('0' <= x && x <= '9') || ('a' <= x && x <= 'f') || ('A' <= x && x <= 'F')) {
            assert(!is_hex_digit(c@[i as int]));
            return false;
        }
        i = i + 1;
    }
    true
}

/// The message for a color setting that is not a valid color.
pub open spec fn color_problem(field: Seq<char>, value: Seq<char>) -> Option<Seq<char>> {
    if valid_color(value) {
        None
    } else {
        Some(field + " must be 'default' or a six-digit #RRGGBB color (got '"@ + value + "')"@)
    }
}

/// The first problem with the menu settings, in the order they are checked.
pub open spec fn ui_problem(ui: UiConfig) -> Option<Seq<char>> {
    if !(ui.icon_style@ == "nerd"@ || ui.icon_style@ == "unicode"@) {
        Some("ui.icon_style must be nerd or unicode"@)
    } else if !(1 <= ui.max_rows <= 100) {
        Some("ui.max_rows must be between 1 and 100 (got "@ + decimal(ui.max_rows as nat) + ")"@)
    } else if ui.width > 512 {
        Some("ui.width must be between 0 (automatic) and 512 columns (got "@ + decimal(ui.width as nat) + ")"@)
    } else if !(ui.theme@ == "dark"@ || ui.theme@ == "light"@ || ui.theme@ == "high_contrast"@) {
        Some("ui.theme must be dark, light, or high_contrast"@)
    } else if !(ui.border@ == "rounded"@ || ui.border@ == "square"@ || ui.border@ == "none"@) {
        Some("ui.border must be one of 'rounded', 'square', or 'none' (got '"@ + ui.border@ + "')"@)
    } else if color_problem("ui.foreground"@, ui.foreground@) is Some {
        color_problem("ui.foreground"@, ui.foreground@)
    } else if color_problem("ui.background"@, ui.background@) is Some {
        color_problem("ui.background"@, ui.background@)
    } else if color_problem("ui.selected_foreground"@, ui.selected_foreground@) is Some {
        color_problem("ui.selected_foreground"@, ui.selected_foreground@)
    } else if color_problem("ui.selected_background"@, ui.selected_background@) is Some {
        color_problem("ui.selected_background"@, ui.selected_background@)
    } else if color_problem("ui.border_color"@, ui.border_color@) is Some {
        color_problem("ui.border_color"@, ui.border_color@)
    } else if color_problem("ui.description_color"@, ui.description_color@) is Some {
        color_problem("ui.description_color"@, ui.description_color@)
    } else {
        color_problem("ui.match_color"@, ui.match_color@)
    }
}

fn color_check(field: &str, value: &String) -> (r: Option<String>)
    ensures
        match color_problem(field@, value@) {
            Some(m) => r matches Some(x) && x@ == m,
            None => r is None,
        },
{
    if is_valid_color(value.as_str()) {
        None
    } else {
        let mut m = String::new();
        push_str(&mut m, field);
        push_str(&mut m, " must be 'default' or a six-digit #RRGGBB color (got '");
        push_str(&mut m, value.as_str());
        push_str(&mut m, "')");
        Some(m)
    }
}

fn ui_check(ui: &UiConfig) -> (r: Option<String>)
    ensures
        match ui_problem(*ui) {
            Some(m) => r matches Some(x) && x@ == m,
            None => r is None,
        },
{
    let style = ui.icon_style.as_str();
    if !(str_eq(style, "nerd") || str_eq(style, "unicode")) {
        return Some("ui.icon_style must be nerd or unicode".to_owned());
    }
    if !(1 <= ui.max_rows && ui.max_rows <= 100) {
        let mut m = String::new();
        push_str(&mut m, "ui.max_rows must be between 1 and 100 (got ");
        push_decimal(&mut m, ui.max_rows);
        push_str(&mut m, ")");
        return Some(m);
    }
    if ui.width > 512 {
        let mut m = String::new();
        push_str(&mut m, "ui.width must be between 0 (automatic) and 512 columns (got ");
        push_decimal(&mut m, ui.width);
        push_str(&mut m, ")");
        return Some(m);
    }
    let theme = ui.theme.as_str();
    if !(str_eq(theme, "dark") || str_eq(theme, "light") || str_eq(theme, "high_contrast")) {
        return Some("ui.theme must be dark, light, or high_contrast".to_owned());
    }
    let border = ui.border.as_str();
    if !(str_eq(border, "rounded") || str_eq(border, "square") || str_eq(border, "none")) {
        let mut m = String::new();
        push_str(&mut m, "ui.border must be one of 'rounded', 'square', or 'none' (got '");
        push_str(&mut m, border);
        push_str(&mut m, "')");
        return Some(m);
    }
    let c = color_check("ui.foreground", &ui.foreground);
    if c.is_some() {
        return c;
    }
    let c = color_check("ui.background", &ui.background);
    if c.is_some() {
        return c;
    }
    let c = color_check("ui.selected_foreground", &ui.selected_foreground);
    if c.is_some() {
        return c;
    }
    let c = color_check("ui.selected_background", &ui.selected_background);
    if c.is_some() {
        return c;
    }
    let c = color_check("ui.border_color", &ui.border_color);
    if c.is_some() {
        return c;
    }
    let c = color_check("ui.description_color", &ui.description_color);
    if c.is_some() {
        return c;
    }
    color_check("ui.match_color", &ui.match_color)
}

/// The problem with the completion settings, if any.
pub open spec fn completion_problem(c: CompletionConfig) -> Option<Seq<char>> {
    if !(1 <= c.max_results <= 1000) {
        Some("completion.max_results must be between 1 and 1000 (got "@ + decimal(c.max_results as nat) + ")"@)
    } else {
        None
    }
}

/// The shortcuts that must be distinct, with their setting names.
pub open spec fn shortcut_list(k: KeyBindings) -> Seq<(Seq<char>, Seq<char>)> {
    seq![
        ("trigger"@, k.trigger@),
        ("native"@, k.native@),
        ("search"@, k.search@),
        ("details"@, k.details@),
        ("refresh"@, k.refresh@),
        ("reload"@, k.reload@),
    ]
}

/// The first problem among shortcuts checked in order: one that does not
/// parse, or one that repeats an earlier shortcut.
pub open spec fn shortcuts_problem(list: Seq<(Seq<char>, Seq<char>)>) -> Option<Seq<char>>
    decreases list.len(),
{
    if list.len() == 0 {
        None
    } else {
        match shortcuts_problem(list.drop_last()) {
            Some(m) => Some(m),
            None => {
                let (name, chord) = list.last();
                match spec_parse_chord(chord) {
                    Err(e) => Some("keys."@ + name + ": "@ + e),
                    Ok(c) => if exists|j: int| 0 <= j < list.len() - 1 && spec_parse_chord(#[trigger] list[j].1) == Ok::<Chord, Seq<char>>(c) {
                        Some("keys."@ + name + ": duplicate shortcut '"@ + chord + "'"@)
                    } else {
                        None
                    },
                }
            },
        }
    }
}

/// The protocol prefix key is one of F5 to F12.
pub open spec fn valid_prefix(p: Seq<char>) -> bool {
    p == "F5"@ || p == "F6"@ || p == "F7"@ || p == "F8"@ || p == "F9"@ || p == "F10"@ || p == "F11"@
        || p == "F12"@
}

/// The first description override whose key or text is blank or too long.
pub open spec fn descriptions_problem(d: Seq<(String, String)>) -> Option<Seq<char>>
    decreases d.len(),
{
    if d.len() == 0 {
        None
    } else {
        match descriptions_problem(d.drop_last()) {
            Some(m) => Some(m),
            None => {
                let (key, value) = d.last();
                if is_blank(key@) || key@.len() > 512 {
                    Some("description keys must contain 1 to 512 characters"@)
                } else if is_blank(value@) || value@.len() > 2048 {
                    Some("descriptions."@ + key@ + " must contain 1 to 2048 characters"@)
                } else {
                    None
                }
            },
        }
    }
}

/// The first problem of a configuration, in the order they are checked.
pub open spec fn config_problem(c: Config) -> Option<Seq<char>> {
    if ui_problem(c.ui) is Some {
        ui_problem(c.ui)
    } else if completion_problem(c.completion) is Some {
        completion_problem(c.completion)
    } else if shortcuts_problem(shortcut_list(c.keys)) is Some {
        shortcuts_problem(shortcut_list(c.keys))
    } else if !valid_prefix(c.keys.protocol_prefix@) {
        Some("keys.protocol_prefix must be F5 through F12"@)
    } else if c.descriptions@.len() > 10000 {
        Some("descriptions must contain at most 10000 entries"@)
    } else {
        descriptions_problem(c.descriptions@)
    }
}

proof fn lemma_descriptions_problem_prefix(d: Seq<(String, String)>, n: int)
    requires
        0 <= n <= d.len(),
        descriptions_problem(d.take(n)) is Some,
    ensures
        descriptions_problem(d) == descriptions_problem(d.take(n)),
    decreases d.len() - n,
{
    if n < d.len() {
        assert(d.take(n + 1).drop_last() =~= d.take(n));
        lemma_descriptions_problem_prefix(d, n + 1);
    } else {
        assert(d.take(n) =~= d);
    }
}

fn descriptions_check(d: &Vec<(String, String)>) -> (r: Option<String>)
    ensures
        match descriptions_problem(d@) {
            Some(m) => r matches Some(x) && x@ == m,
            None => r is None,
        },
{
    let mut i: usize = 0;
    while i < d.len()
        invariant
            i <= d@.len(),
            descriptions_problem(d@.take(i as int)) is None,
        decreases d@.len() - i,
    {
        assert(d@.take(i as int + 1).drop_last() =~= d@.take(i as int));
        let key = d[i].0.as_str();
        let value = d[i].1.as_str();
        let kc = chars_of(key);
        if is_blank_str(key) || kc.len() > 512 {
            proof {
                lemma_descriptions_problem_prefix(d@, i as int + 1);
            }
            return Some("description keys must contain 1 to 512 characters".to_owned());
        }
        let vc = chars_of(value);
        if is_blank_str(value) || vc.len() > 2048 {
            proof {
                lemma_descriptions_problem_prefix(d@, i as int + 1);
            }
            let mut m = String::new();
            push_str(&mut m, "descriptions.");
            push_str(&mut m, key);
            push_str(&mut m, " must contain 1 to 2048 characters");
            return Some(m);
        }
        i = i + 1;
    }
    assert(d@.take(i as int) =~= d@);
    None
}

fn shortcut_at(k: &KeyBindings, i: usize) -> (r: (&'static str, &String))
    requires
        i < 6,
    ensures
        shortcut_list(*k)[i as int] == (r.0@, r.1@),
{
    if i == 0 {
        ("trigger", &k.trigger)
    } else if i == 1 {
        ("native", &k.native)
    } else if i == 2 {
        ("search", &k.search)
    } else if i == 3 {
        ("details", &k.details)
    } else if i == 4 {
        ("refresh", &k.refresh)
    } else {
        ("reload", &k.reload)
    }
}

fn position_of(seen: &Vec<Chord>, c: Chord) -> (r: usize)
    ensures
        r <= seen@.len(),
        r < seen@.len() ==> seen@[r as int] == c,
        forall|x: int| 0 <= x < r ==> seen@[x] != c,
{
    let mut j: usize = 0;
    while j < seen.len()
        invariant
            j <= seen@.len(),
            forall|x: int| 0 <= x < j ==> seen@[x] != c,
        decreases seen@.len() - j,
    {
        if seen[j] == c {
            return j;
        }
        j = j + 1;
    }
    j
}

fn shortcuts_check(k: &KeyBindings) -> (r: Option<String>)
    ensures
        match shortcuts_problem(shortcut_list(*k)) {
            Some(m) => r matches Some(x) && x@ == m,
            None => r is None,
        },
{
    let ghost list = shortcut_list(*k);
    let mut seen: Vec<Chord> = Vec::new();
    let mut i: usize = 0;
    while i < 6
        invariant
            list == shortcut_list(*k),
            list.len() == 6,
            i <= 6,
            seen@.len() == i,
            forall|j: int| 0 <= j < i ==> spec_parse_chord(#[trigger] list[j].1) == Ok::<Chord, Seq<char>>(seen@[j]),
            shortcuts_problem(list.take(i as int)) is None,
        decreases 6 - i,
    {
        let ghost t = list.take(i as int + 1);
        assert(t.drop_last() =~= list.take(i as int));
        assert(t.last() == list[i as int]);
        let (name, chord_string) = shortcut_at(k, i);
        let chord = chord_string.as_str();
        match parse_chord(chord) {
            Err(e) => {
                proof {
                    lemma_shortcuts_problem_prefix(list, i as int + 1);
                    assert(list.take(6) =~= list);
                }
                let mut m = String::new();
                push_str(&mut m, "keys.");
                push_str(&mut m, name);
                push_str(&mut m, ": ");
                push_str(&mut m, e.as_str());
                return Some(m);
            },
            Ok(c) => {
                let j = position_of(&seen, c);
                if j < seen.len() {
                    proof {
                        assert(t[j as int] == list[j as int]);
                        assert(spec_parse_chord(t[j as int].1) == Ok::<Chord, Seq<char>>(c));
                        lemma_shortcuts_problem_prefix(list, i as int + 1);
                        assert(list.take(6) =~= list);
                    }
                    let mut m = String::new();
                    push_str(&mut m, "keys.");
                    push_str(&mut m, name);
                    push_str(&mut m, ": duplicate shortcut '");
                    push_str(&mut m, chord);
                    push_str(&mut m, "'");
                    return Some(m);
                }
                proof {
                    assert forall|x: int| 0 <= x < t.len() - 1 implies spec_parse_chord(#[trigger] t[x].1) != Ok::<Chord, Seq<char>>(c) by {
                        assert(t[x] == list[x]);
                    }
                }
                seen.push(c);
            },
        }
        i = i + 1;
    }
    assert(list.take(6) =~= list);
    None
}

proof fn lemma_shortcuts_problem_prefix(list: Seq<(Seq<char>, Seq<char>)>, n: int)
    requires
        0 <= n <= list.len(),
        shortcuts_problem(list.take(n)) is Some,
    ensures
        shortcuts_problem(list.take(list.len() as int)) == shortcuts_problem(list.take(n)),
    decreases list.len() - n,
{
    if n < list.len() {
        assert(list.take(n + 1).drop_last() =~= list.take(n));
        lemma_shortcuts_problem_prefix(list, n + 1);
    }
}

impl Config {
    /// Check every bounded and enumerated value; the error is the message
    /// for the first problem found.
    pub fn validate(&self) -> (r: Result<(), String>)
        ensures
            match config_problem(*self) {
                Some(m) => r matches Err(x) && x@ == m,
                None => r is Ok,
            },
    {
        match ui_check(&self.ui) {
            Some(m) => return Err(m),
            None => {},
        }
        if !(1 <= self.completion.max_results && self.completion.max_results <= 1000) {
            let mut m = String::new();
            push_str(&mut m, "completion.max_results must be between 1 and 1000 (got ");
            push_decimal(&mut m, self.completion.max_results);
            push_str(&mut m, ")");
            return Err(m);
        }
        match shortcuts_check(&self.keys) {
            Some(m) => return Err(m),
            None => {},
        }
        let p = self.keys.protocol_prefix.as_str();
        if !(str_eq(p, "F5") || str_eq(p, "F6") || str_eq(p, "F7") || str_eq(p, "F8") || str_eq(p, "F9")
            || str_eq(p, "F10") || str_eq(p, "F11") || str_eq(p, "F12")) {
            return Err("keys.protocol_prefix must be F5 through F12".to_owned());
        }
        if self.descriptions.len() > 10000 {
            return Err("descriptions must contain at most 10000 entries".to_owned());
        }
        match descriptions_check(&self.descriptions) {
            Some(m) => Err(m),
            None => Ok(()),
        }
    }
}


/// The colors that a theme other than `dark` sets, in the order
/// foreground, background, selected foreground, selected background,
/// border, description and match color.
pub open spec fn palette(theme: Seq<char>) -> Option<Seq<Seq<char>>> {
    if theme == "light"@ {
        Some(seq!["#202020"@, "#ffffff"@, "#ffffff"@, "#005fb8"@, "#657585"@, "#505050"@, "#9c3600"@])
    } else if theme == "high_contrast"@ {
        Some(seq!["#ffffff"@, "#000000"@, "#000000"@, "#ffff00"@, "#ffffff"@, "#ffffff"@, "#00ffff"@])
    } else {
        None
    }
}

/// A color after the theme is applied: the theme's color unless the
/// setting was given explicitly.
pub open spec fn themed(current: Seq<char>, theme: Seq<char>, i: int, key: Seq<char>, explicit: Seq<Seq<char>>) -> Seq<char> {
    match palette(theme) {
        Some(colors) => if explicit.contains(key) { current } else { colors[i] },
        None => current,
    }
}

/// Two configurations agree on everything but the seven menu colors.
pub open spec fn same_but_colors(a: Config, b: Config) -> bool {
    &&& a.ui.max_rows == b.ui.max_rows
    &&& a.ui.width == b.ui.width
    &&& a.ui.descriptions == b.ui.descriptions
    &&& a.ui.border@ == b.ui.border@
    &&& a.ui.icons == b.ui.icons
    &&& a.ui.icon_style@ == b.ui.icon_style@
    &&& a.ui.theme@ == b.ui.theme@
    &&& a.ui.status_bar == b.ui.status_bar
    &&& a.completion == b.completion
    &&& a.descriptions == b.descriptions
    &&& a.keys == b.keys
    &&& a.learning == b.learning
    &&& a.specs == b.specs
    &&& a.help == b.help
}

fn theme_color(theme: &str, i: usize) -> (r: Option<&'static str>)
    requires
        i < 7,
    ensures
        match palette(theme@) {
            Some(colors) => r matches Some(x) && x@ == colors[i as int],
            None => r is None,
        },
{
    if str_eq(theme, "light") {
        let colors: [&'static str; 7] = ["#202020", "#ffffff", "#ffffff", "#005fb8", "#657585", "#505050", "#9c3600"];
        Some(colors[i])
    } else if str_eq(theme, "high_contrast") {
        let colors: [&'static str; 7] = ["#ffffff", "#000000", "#000000", "#ffff00", "#ffffff", "#ffffff", "#00ffff"];
        Some(colors[i])
    } else {
        None
    }
}

fn contains_key(explicit: &Vec<String>, key: &str) -> (r: bool)
    ensures
        r == crate::text::string_views(explicit@).contains(key@),
{
    let kc = chars_of(key);
    crate::forms::contains_string(explicit, &kc)
}

fn apply_color(field: &mut String, theme: &str, i: usize, key: &str, explicit: &Vec<String>)
    requires
        i < 7,
    ensures
        final(field)@ == themed(old(field)@, theme@, i as int, key@, crate::text::string_views(explicit@)),
{
    match theme_color(theme, i) {
        Some(color) => {
            if !contains_key(explicit, key) {
                *field = color.to_owned();
            }
        },
        None => {},
    }
}

impl Config {
    /// Apply the colors of the `light` or `high_contrast` theme to every
    /// color setting not given explicitly (`explicit` lists the settings
    /// present in the file's `[ui]` table).
    pub fn apply_theme(&mut self, explicit: &Vec<String>)
        ensures
            same_but_colors(*final(self), *old(self)),
            ({
                let t = old(self).ui.theme@;
                let e = crate::text::string_views(explicit@);
                &&& final(self).ui.foreground@ == themed(old(self).ui.foreground@, t, 0, "foreground"@, e)
                &&& final(self).ui.background@ == themed(old(self).ui.background@, t, 1, "background"@, e)
                &&& final(self).ui.selected_foreground@ == themed(old(self).ui.selected_foreground@, t, 2, "selected_foreground"@, e)
                &&& final(self).ui.selected_background@ == themed(old(self).ui.selected_background@, t, 3, "selected_background"@, e)
                &&& final(self).ui.border_color@ == themed(old(self).ui.border_color@, t, 4, "border_color"@, e)
                &&& final(self).ui.description_color@ == themed(old(self).ui.description_color@, t, 5, "description_color"@, e)
                &&& final(self).ui.match_color@ == themed(old(self).ui.match_color@, t, 6, "match_color"@, e)
            }),
    {
        let theme = self.ui.theme.clone();
        let t = theme.as_str();
        apply_color(&mut self.ui.foreground, t, 0, "foreground", explicit);
        apply_color(&mut self.ui.background, t, 1, "background", explicit);
        apply_color(&mut self.ui.selected_foreground, t, 2, "selected_foreground", explicit);
        apply_color(&mut self.ui.selected_background, t, 3, "selected_background", explicit);
        apply_color(&mut self.ui.border_color, t, 4, "border_color", explicit);
        apply_color(&mut self.ui.description_color, t, 5, "description_color", explicit);
        apply_color(&mut self.ui.match_color, t, 6, "match_color", explicit);
    }
}

/// The commented example configuration.
pub open spec fn example_text() -> Seq<char> {
    r##"# Blueberry configuration

[ui]
max_rows = 8
width = 0 # 0: adapt to the terminal width
theme = "dark" # dark, light, high_contrast
status_bar = true
descriptions = true
border = "rounded" # "rounded", "square", or "none"
icons = true
icon_style = "nerd"
# Uncomment individual colors to override the selected theme.
# foreground = "default"
# background = "default"
# selected_foreground = "#ffffff"
# selected_background = "#264f78"
# border_color = "#6688aa"
# description_color = "#8f9baa"
# match_color = "#ffcc66"

[completion]
max_results = 100
auto_trigger = true
fuzzy = true
dynamic = true
append_space = true
up_arrow_history = true

[keys]
trigger = "Ctrl+Space"
native = "Ctrl+Alt+Space"
search = "Ctrl+Alt+F"
details = "F1"
refresh = "Ctrl+Alt+C"
reload = "Ctrl+Alt+R"
protocol_prefix = "F12" # F5..F12; takes effect in a new session

[learning]
enabled = true # local selection counts only; learning clear removes them

[specs]
# directory = 'C:\Users\you\AppData\Roaming\blueberry\specs'

[descriptions]
# Optional overrides; keys distinguish command scopes and option case.
# "git log --oneline" = "每条提交显示为一行"
# "cargo" = "构建项目并管理 Rust 依赖"
# "mytool" = "运行我的本地工具"
"##@
}

/// A TOML example suitable as a starting point for a user's configuration.
pub fn example() -> (r: &'static str)
    ensures
        r@ == example_text(),
{
    r##"# Blueberry configuration

[ui]
max_rows = 8
width = 0 # 0: adapt to the terminal width
theme = "dark" # dark, light, high_contrast
status_bar = true
descriptions = true
border = "rounded" # "rounded", "square", or "none"
icons = true
icon_style = "nerd"
# Uncomment individual colors to override the selected theme.
# foreground = "default"
# background = "default"
# selected_foreground = "#ffffff"
# selected_background = "#264f78"
# border_color = "#6688aa"
# description_color = "#8f9baa"
# match_color = "#ffcc66"

[completion]
max_results = 100
auto_trigger = true
fuzzy = true
dynamic = true
append_space = true
up_arrow_history = true

[keys]
trigger = "Ctrl+Space"
native = "Ctrl+Alt+Space"
search = "Ctrl+Alt+F"
details = "F1"
refresh = "Ctrl+Alt+C"
reload = "Ctrl+Alt+R"
protocol_prefix = "F12" # F5..F12; takes effect in a new session

[learning]
enabled = true # local selection counts only; learning clear removes them

[specs]
# directory = 'C:\Users\you\AppData\Roaming\blueberry\specs'

[descriptions]
# Optional overrides; keys distinguish command scopes and option case.
# "git log --oneline" = "每条提交显示为一行"
# "cargo" = "构建项目并管理 Rust 依赖"
# "mytool" = "运行我的本地工具"
"##
}

/// The terminal key code of a function key used as protocol prefix; F12
/// for anything other than F5 to F11.
pub open spec fn prefix_code(prefix: Seq<char>) -> nat {
    if prefix == "F5"@ {
        15
    } else if prefix == "F6"@ {
        17
    } else if prefix == "F7"@ {
        18
    } else if prefix == "F8"@ {
        19
    } else if prefix == "F9"@ {
        20
    } else if prefix == "F10"@ {
        21
    } else if prefix == "F11"@ {
        23
    } else {
        24
    }
}

/// The bytes a terminal sends for the protocol prefix key followed by
/// `suffix`: `ESC [ code ~ suffix`, UTF-8 encoded.
pub fn protocol_chord(prefix: &str, suffix: char) -> (r: Vec<u8>)
    ensures
        r@ == vstd::utf8::encode_utf8("\x1b["@ + decimal(prefix_code(prefix@)) + "~"@ + seq![suffix]),
{
    let number: usize = if str_eq(prefix, "F5") {
        15
    } else if str_eq(prefix, "F6") {
        17
    } else if str_eq(prefix, "F7") {
        18
    } else if str_eq(prefix, "F8") {
        19
    } else if str_eq(prefix, "F9") {
        20
    } else if str_eq(prefix, "F10") {
        21
    } else if str_eq(prefix, "F11") {
        23
    } else {
        24
    };
    let mut text = String::new();
    push_str(&mut text, "\x1b[");
    push_decimal(&mut text, number);
    push_str(&mut text, "~");
    crate::text::push_char(&mut text, suffix);
    assert(number == prefix_code(prefix@));
    assert(text@ =~= "\x1b["@ + decimal(prefix_code(prefix@)) + "~"@ + seq![suffix]);
    crate::text::bytes_of(text.as_str())
}


/// What a key press or terminal event asks the completion UI to do.
#[derive(Debug)]
pub enum Input {
    Bytes(Vec<u8>),
    Tab,
    BackTab,
    Previous,
    Next,
    Dismiss,
    Trigger,
    Native,
    Details,
    Refresh,
    Reload,
    Resize(u16, u16),
}

/// A pressed key with an ASCII letter folded to lower case, as shortcuts
/// are compared.
pub open spec fn folded(c: Chord) -> Chord {
    match c.key {
        Key::Char(x) => Chord { key: Key::Char(crate::text::lower_char(x)), ..c },
        _ => c,
    }
}

/// The action of the first configured shortcut (native, trigger, details,
/// refresh, reload) that parses to the pressed chord.
pub open spec fn spec_configured(pressed: Chord, k: KeyBindings) -> Option<u8> {
    let p = folded(pressed);
    if spec_parse_chord(k.native@) == Ok::<Chord, Seq<char>>(p) {
        Some(0u8)
    } else if spec_parse_chord(k.trigger@) == Ok::<Chord, Seq<char>>(p) {
        Some(1u8)
    } else if spec_parse_chord(k.details@) == Ok::<Chord, Seq<char>>(p) {
        Some(2u8)
    } else if spec_parse_chord(k.refresh@) == Ok::<Chord, Seq<char>>(p) {
        Some(3u8)
    } else if spec_parse_chord(k.reload@) == Ok::<Chord, Seq<char>>(p) {
        Some(4u8)
    } else {
        None
    }
}

fn matches_chord(text: &str, pressed: Chord) -> (r: bool)
    ensures
        r == (spec_parse_chord(text@) == Ok::<Chord, Seq<char>>(pressed)),
{
    match parse_chord(text) {
        Ok(c) => c == pressed,
        Err(_) => false,
    }
}

/// The action bound to a pressed key, if any shortcut names it.
pub fn configured(pressed: Chord, keys: &KeyBindings) -> (r: Option<Input>)
    ensures
        match spec_configured(pressed, *keys) {
            Some(0u8) => r matches Some(Input::Native),
            Some(1u8) => r matches Some(Input::Trigger),
            Some(2u8) => r matches Some(Input::Details),
            Some(3u8) => r matches Some(Input::Refresh),
            Some(_) => r matches Some(Input::Reload),
            None => r is None,
        },
{
    let p = match pressed.key {
        Key::Char(x) => Chord { key: Key::Char(crate::text::to_lower_char(x)), ..pressed },
        _ => pressed,
    };
    if matches_chord(keys.native.as_str(), p) {
        Some(Input::Native)
    } else if matches_chord(keys.trigger.as_str(), p) {
        Some(Input::Trigger)
    } else if matches_chord(keys.details.as_str(), p) {
        Some(Input::Details)
    } else if matches_chord(keys.refresh.as_str(), p) {
        Some(Input::Refresh)
    } else if matches_chord(keys.reload.as_str(), p) {
        Some(Input::Reload)
    } else {
        None
    }
}


/// Every `#` followed by six hexadecimal digits (`0`-`9`, `a`-`f`, `A`-`F`)
/// is a valid color, and no setting holding one is reported as invalid;
/// apart from `default`, nothing else is a valid color.
pub proof fn law_hex_colors_are_valid(s: Seq<char>, field: Seq<char>)
    ensures
        (s.len() == 7 && s[0] == '#' && forall|i: int| 1 <= i < 7 ==>
            (('0' <= #[trigger] s[i] && s[i] <= '9') || ('a' <= s[i] && s[i] <= 'f') || ('A' <= s[i] && s[i] <= 'F')))
            ==> valid_color(s) && color_problem(field, s) is None,
        valid_color(s) && s != "default"@ ==> s.len() == 7 && s[0] == '#' && forall|i: int| 1 <= i < 7 ==>
            (('0' <= #[trigger] s[i] && s[i] <= '9') || ('a' <= s[i] && s[i] <= 'f') || ('A' <= s[i] && s[i] <= 'F')),
{
}

} // verus!
