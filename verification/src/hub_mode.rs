//! The workbench as the terminal host shows it inside the shell's screen:
//! the query typed, the placeholder form being filled in, the selection
//! and the details view, and what each terminal event does to them.
use vstd::prelude::*;
use crate::forms::{
    fill_from, fill_placeholders, get_value, insert_value, placeholder_names, sorted_keys, spec_placeholder_names,
};
use crate::input::{Event, KeyCode};
use crate::model::{Candidate, CandidateKind, CandidateView};
use crate::text::{chars_of, is_blank, is_blank_str, push_char, string_of_range, string_views};

verus! {

/// A command line with placeholders being filled in: the fields asked
/// for, how many have been answered, and the answers by field name (in key
/// order).
#[derive(Debug)]
pub struct HubForm {
    pub template: String,
    pub fields: Vec<String>,
    pub index: usize,
    pub values: Vec<(String, String)>,
}

/// The workbench shown in the terminal: the query, the form being filled
/// in, the selected candidate, the details view and its page, and a
/// notification for the user.
#[derive(Debug)]
pub struct HubMode {
    pub query: String,
    pub form: Option<HubForm>,
    pub selected: usize,
    pub details: bool,
    pub detail_page: usize,
    pub notification: Option<String>,
}

/// What the host does after an event in the workbench.
#[derive(Debug)]
pub enum HubStep {
    /// Nothing more.
    Ignore,
    /// Search the workbench again for the query or the form's field.
    Refresh,
    /// Resize the terminal to these columns and rows.
    Resize(u16, u16),
    /// Close the workbench and dismiss its menu.
    Close,
    /// Close the workbench and accept the selected candidate, or the given
    /// one (a filled-in command) in place of the menu.
    Accept(Option<Candidate>),
}

/// A pasted text typed into the query: line breaks become spaces.
pub open spec fn pasted(s: Seq<char>) -> Seq<char> {
    s.map_values(|c: char| if c == '\r' || c == '\n' { ' ' } else { c })
}

/// The candidate of a filled-in command template.
pub open spec fn resolved_candidate(command: Seq<char>) -> CandidateView {
    CandidateView {
        label: command,
        insert_text: command,
        description: "已填写命令模板"@,
        kind: CandidateKind::Command,
        description_source: Seq::empty(),
        language: Seq::empty(),
        match_reason: Seq::empty(),
        id: "hub:resolved-template"@,
        source: "Blueberry 工作台/模板"@,
        detail: Seq::empty(),
        append_space: false,
    }
}

impl HubMode {
    /// The workbench just opened: nothing typed, nothing selected.
    pub fn new() -> (r: HubMode)
        ensures
            r.wf(),
            r.query@.len() == 0,
            r.form is None,
            r.selected == 0,
            !r.details,
            r.detail_page == 0,
            r.notification is None,
    {
        HubMode { query: String::new(), form: None, selected: 0, details: false, detail_page: 0, notification: None }
    }

    /// A form has a field left to answer and its answers in key order.
    pub open spec fn wf(&self) -> bool {
        self.form matches Some(f) ==> f.index < f.fields@.len() && sorted_keys(f.values@)
    }

    /// Handle a terminal event. `hub_key` tells whether it is the shortcut
    /// that toggles the workbench; `candidates` are the ones shown;
    /// `max_rows` is how many rows a page of the menu has.
    pub fn event(&mut self, event: &Event, hub_key: bool, candidates: &Vec<Candidate>, max_rows: usize) -> (r: HubStep)
        requires
            old(self).wf(),
        ensures
            final(self).wf(),
            match *event {
                Event::Paste(t) => {
                    &&& final(self).query@ == old(self).query@ + pasted(t@)
                    &&& final(self).form == old(self).form && final(self).selected == old(self).selected
                    &&& r is Refresh
                },
                Event::Resize(c, w) => *final(self) == *old(self) && (r matches HubStep::Resize(c2, w2) && c2 == c && w2 == w),
                Event::Other => *final(self) == *old(self) && r is Ignore,
                Event::Key { code, modifiers, release } => if release {
                    *final(self) == *old(self) && r is Ignore
                } else if hub_key || code == KeyCode::Esc {
                    *final(self) == *old(self) && r is Close
                } else {
                    key_step(*old(self), *final(self), code, modifiers.control || modifiers.alt, candidates@, max_rows, r)
                },
            },
    {
        match event {
            Event::Paste(t) => {
                let chars = chars_of(t.as_str());
                let mut i: usize = 0;
                let ghost start = self.query@;
                while i < chars.len()
                    invariant
                        i <= chars@.len(),
                        chars@ == t@,
                        self.query@ == start + pasted(t@).take(i as int),
                        self.form == old(self).form,
                        self.selected == old(self).selected,
                        self.wf(),
                    decreases chars@.len() - i,
                {
                    let c = chars[i];
                    push_char(&mut self.query, if c == '\r' || c == '\n' { ' ' } else { c });
                    assert(pasted(t@).take(i as int + 1) =~= pasted(t@).take(i as int).push(pasted(t@)[i as int]));
                    i = i + 1;
                }
                assert(pasted(t@).take(i as int) =~= pasted(t@));
                HubStep::Refresh
            },
            Event::Resize(c, w) => HubStep::Resize(*c, *w),
            Event::Other => HubStep::Ignore,
            Event::Key { code, modifiers, release } => {
                if *release {
                    return HubStep::Ignore;
                }
                if hub_key || *code == KeyCode::Esc {
                    return HubStep::Close;
                }
                self.key(*code, modifiers.control || modifiers.alt, candidates, max_rows)
            },
        }
    }

    fn key(&mut self, code: KeyCode, chord: bool, candidates: &Vec<Candidate>, max_rows: usize) -> (r: HubStep)
        requires
            old(self).wf(),
            code != KeyCode::Esc,
        ensures
            final(self).wf(),
            key_step(*old(self), *final(self), code, chord, candidates@, max_rows, r),
    {
        let n = candidates.len();
        let page: usize = if max_rows == 0 { 1 } else { max_rows };
        match code {
            KeyCode::Char(ch) => {
                if chord {
                    return HubStep::Ignore;
                }
                push_char(&mut self.query, ch);
                HubStep::Refresh
            },
            KeyCode::Backspace => {
                let v = chars_of(self.query.as_str());
                if v.len() > 0 {
                    self.query = string_of_range(v.as_slice(), 0, v.len() - 1);
                    assert(self.query@ =~= old(self).query@.drop_last());
                }
                HubStep::Refresh
            },
            KeyCode::Up => {
                if n > 0 {
                    self.selected = if self.selected == 0 { n - 1 } else { self.selected - 1 };
                }
                HubStep::Ignore
            },
            KeyCode::Down => {
                if n > 0 {
                    let current = self.selected % n;
                    self.selected = (current + 1) % n;
                    proof {
                        lemma_mod_next(old(self).selected as int, n as int);
                    }
                }
                HubStep::Ignore
            },
            KeyCode::PageUp => {
                self.selected = if self.selected >= page { self.selected - page } else { 0 };
                HubStep::Ignore
            },
            KeyCode::PageDown => {
                let last: usize = if n == 0 { 0 } else { n - 1 };
                self.selected = if self.selected >= last || page >= last - self.selected { last } else { self.selected + page };
                HubStep::Ignore
            },
            KeyCode::Tab | KeyCode::F(1) => {
                self.details = !self.details;
                self.detail_page = 0;
                HubStep::Ignore
            },
            KeyCode::F(_) => HubStep::Ignore,
            KeyCode::Enter => self.enter(candidates),
            _ => HubStep::Ignore,
        }
    }

    fn enter(&mut self, candidates: &Vec<Candidate>) -> (r: HubStep)
        requires
            old(self).wf(),
        ensures
            final(self).wf(),
            entered(*old(self), *final(self), candidates@, r),
    {
        let taken = self.form.take();
        match taken {
            Some(mut form) => {
                if is_blank_str(self.query.as_str()) {
                    self.form = Some(form);
                    self.notification = Some("参数值不能为空".to_owned());
                    return HubStep::Ignore;
                }
                let ghost before = form;
                assert(form.index < form.fields@.len());
                let name = form.fields[form.index].clone();
                let value = self.query.clone();
                let index = form.index;
                let count = form.fields.len();
                assert(index < count);
                insert_value(&mut form.values, name, value);
                assert(form.index == index && form.fields == before.fields);
                form.index = index + 1;
                if form.index < form.fields.len() {
                    self.form = Some(form);
                    self.query = String::new();
                    assert(answered(before, self.form->Some_0, old(self).query@));
                    return HubStep::Refresh;
                }
                let command = fill_placeholders(form.template.as_str(), &form.values);
                assert(answered(before, form, old(self).query@));
                let c = Candidate {
                    label: command.clone(),
                    insert_text: command,
                    description: "已填写命令模板".to_owned(),
                    kind: CandidateKind::Command,
                    description_source: String::new(),
                    language: String::new(),
                    match_reason: String::new(),
                    id: "hub:resolved-template".to_owned(),
                    source: "Blueberry 工作台/模板".to_owned(),
                    detail: String::new(),
                    append_space: false,
                };
                proof {
                    assert(c.description_source@ =~= Seq::<char>::empty());
                    assert(c.language@ =~= Seq::<char>::empty());
                    assert(c.match_reason@ =~= Seq::<char>::empty());
                    assert(c.detail@ =~= Seq::<char>::empty());
                    assert(exists|f: HubForm| #[trigger] answered(before, f, old(self).query@)
                        && f.index == f.fields@.len() && c@ == resolved_candidate(fill_from(f.template@, f.values@)));
                }
                HubStep::Accept(Some(c))
            },
            None => {
                if self.selected < candidates.len() {
                    let template = candidates[self.selected].insert_text.clone();
                    let fields = placeholder_names(template.as_str());
                    if fields.len() > 0 {
                        let values: Vec<(String, String)> = Vec::new();
                        self.form = Some(HubForm { template, fields, index: 0, values });
                        self.query = String::new();
                        return HubStep::Refresh;
                    }
                }
                HubStep::Accept(None)
            },
        }
    }
}

proof fn lemma_mod_next(s: int, n: int)
    requires
        n > 0,
        s >= 0,
    ensures
        ((s % n) + 1) % n == (s + 1) % n,
{
    assert(((s % n) + 1) % n == (s + 1) % n) by (nonlinear_arith)
        requires n > 0, s >= 0;
}

/// Answering the form's current field with `value` turned `before` into
/// `after`: the answer is kept under the field's name and the next field
/// is asked for.
pub open spec fn answered(before: HubForm, after: HubForm, value: Seq<char>) -> bool {
    &&& after.template == before.template
    &&& after.fields == before.fields
    &&& after.index == before.index + 1
    &&& sorted_keys(after.values@)
    &&& get_value(after.values@, before.fields@[before.index as int]@) == Some(value)
    &&& forall|k: Seq<char>| k != before.fields@[before.index as int]@
        ==> #[trigger] get_value(after.values@, k) == get_value(before.values@, k)
}

/// What Enter does in the workbench: with a form, answer its field (a
/// blank answer is refused with a notification) and, after the last one,
/// accept the filled-in command; without one, open a form for the selected
/// candidate's placeholders, or accept it when it has none.
pub open spec fn entered(before: HubMode, after: HubMode, candidates: Seq<Candidate>, r: HubStep) -> bool {
    &&& after.selected == before.selected
    &&& after.details == before.details
    &&& after.detail_page == before.detail_page
    &&& match before.form {
        Some(f) => if is_blank(before.query@) {
            &&& after.form == before.form && after.query == before.query
            &&& (after.notification matches Some(m) && m@ == "参数值不能为空"@)
            &&& r is Ignore
        } else {
            &&& after.notification == before.notification
            &&& if f.index + 1 < f.fields@.len() {
                &&& after.form matches Some(f2) && answered(f, f2, before.query@)
                &&& after.query@.len() == 0
                &&& r is Refresh
            } else {
                exists|f2: HubForm| #[trigger] answered(f, f2, before.query@)
                    && (r matches HubStep::Accept(Some(c)) && c@ == resolved_candidate(fill_from(f2.template@, f2.values@)))
            }
        },
        None => {
            &&& after.notification == before.notification
            &&& if before.selected < candidates.len()
                && spec_placeholder_names(candidates[before.selected as int].insert_text@).len() > 0 {
                &&& after.form matches Some(f) && f.template@ == candidates[before.selected as int].insert_text@
                    && string_views(f.fields@) == spec_placeholder_names(f.template@) && f.index == 0
                    && f.values@.len() == 0
                &&& after.query@.len() == 0
                &&& r is Refresh
            } else {
                after.form is None && after.query == before.query && r matches HubStep::Accept(None)
            }
        },
    }
}

/// What a key other than Escape does in the workbench (`chord` tells
/// whether Control or Alt is held): characters and Backspace edit the
/// query, arrows and pages move the selection (wrapping with the arrows),
/// Tab and F1 toggle the details, Enter is [`entered`].
pub open spec fn key_step(before: HubMode, after: HubMode, code: KeyCode, chord: bool, candidates: Seq<Candidate>,
    max_rows: usize, r: HubStep) -> bool
{
    let n = candidates.len() as int;
    let page: int = if max_rows == 0 { 1 } else { max_rows as int };
    match code {
        KeyCode::Char(ch) => if chord {
            after == before && r is Ignore
        } else {
            after == HubMode { query: after.query, ..before } && after.query@ == before.query@.push(ch) && r is Refresh
        },
        KeyCode::Backspace => after == HubMode { query: after.query, ..before }
            && after.query@ == (if before.query@.len() > 0 { before.query@.drop_last() } else { before.query@ })
            && r is Refresh,
        KeyCode::Up => after == HubMode { selected: after.selected, ..before } && r is Ignore
            && after.selected == (if n == 0 { before.selected as int } else if before.selected == 0 { n - 1 } else { before.selected - 1 }),
        KeyCode::Down => after == HubMode { selected: after.selected, ..before } && r is Ignore
            && after.selected == (if n == 0 { before.selected as int } else { (before.selected + 1) % n }),
        KeyCode::PageUp => after == HubMode { selected: after.selected, ..before } && r is Ignore
            && after.selected == (if before.selected >= page { before.selected - page } else { 0 }),
        KeyCode::PageDown => after == HubMode { selected: after.selected, ..before } && r is Ignore && {
            let last = if n == 0 { 0 } else { n - 1 };
            after.selected == (if before.selected + page < last { before.selected + page } else { last })
        },
        KeyCode::Tab => after == HubMode { details: !before.details, detail_page: 0, ..before } && r is Ignore,
        KeyCode::F(k) => if k == 1 {
            after == HubMode { details: !before.details, detail_page: 0, ..before } && r is Ignore
        } else {
            after == before && r is Ignore
        },
        KeyCode::Enter => entered(before, after, candidates, r),
        _ => after == before && r is Ignore,
    }
}

} // verus!
