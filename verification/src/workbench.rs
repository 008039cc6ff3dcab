//! The command workbench: the text typed into it, the form being filled in
//! for a template, and what each key does to them.
use vstd::prelude::*;
use crate::form::{created, fault_message, finished, submitted, FormError, TemplateForm};
use crate::forms::CommandTemplate;
use crate::model::{Candidate, CandidateView, Completion};
use crate::text::{char_from_u32, chars_of, is_scalar, push_char, starts_with, str_eq, string_of_range};

verus! {

/// The workbench: the text typed so far (and a pending UTF-16 high
/// surrogate), the form being filled in, whether the chosen command comes
/// from the project's pack, the templates by candidate id, the last error,
/// and a counter that changes whenever the input is reset for a new field.
#[derive(Debug)]
pub struct Workbench {
    pub input: String,
    pub high_surrogate: Option<u16>,
    pub form: Option<TemplateForm>,
    pub project: bool,
    pub templates: Vec<(String, CommandTemplate)>,
    pub error: Option<String>,
    pub generation: u64,
}

/// What the host does after a key: draw the workbench again, or put a
/// command line into the shell's buffer.
#[derive(Debug)]
pub enum WorkbenchAction {
    Refresh,
    Edit(String),
}

/// Why a key is refused: the project's pack is not approved, or the
/// template's form cannot be made or finished.
#[derive(Debug)]
pub enum WorkbenchError {
    NotApproved,
    Form(FormError),
}

/// Whether a code point is a control character (general category Cc).
pub open spec fn spec_is_control(v: u32) -> bool {
    v < 0x20 || (0x7f <= v && v <= 0x9f)
}

/// The code point of a UTF-16 surrogate pair.
pub open spec fn pair_value(high: u16, low: u16) -> u32 {
    (0x10000 + (high - 0xd800) * 0x400 + (low - 0xdc00)) as u32
}

/// Index of the first value equal to `v`.
pub open spec fn first_index(values: Seq<Seq<char>>, v: Seq<char>) -> Option<int>
    decreases values.len(),
{
    if values.len() == 0 {
        None
    } else {
        match first_index(values.drop_last(), v) {
            Some(i) => Some(i),
            None => if values.last() == v { Some(values.len() - 1) } else { None },
        }
    }
}

/// The value an arrow key moves to among a field's values: the next (or
/// previous) one after the value typed, wrapping around; the first when
/// the typed text is none of them.
pub open spec fn cycled(values: Seq<Seq<char>>, input: Seq<char>, forward: bool) -> int {
    match first_index(values, input) {
        Some(i) => if forward {
            (i + 1) % (values.len() as int)
        } else if i == 0 {
            values.len() - 1
        } else {
            i - 1
        },
        None => 0,
    }
}

/// Index of the first template kept under `id`.
pub open spec fn template_index(templates: Seq<(String, CommandTemplate)>, id: Seq<char>) -> Option<int>
    decreases templates.len(),
{
    if templates.len() == 0 {
        None
    } else {
        match template_index(templates.drop_last(), id) {
            Some(i) => Some(i),
            None => if templates.last().0@ == id { Some(templates.len() - 1) } else { None },
        }
    }
}

/// `r` edits the buffer to the finished command, or reports why it
/// cannot be finished.
pub open spec fn edit_result(r: Result<WorkbenchAction, WorkbenchError>, fr: Result<String, FormError>) -> bool {
    match fr {
        Ok(command) => r matches Ok(WorkbenchAction::Edit(c)) && c@ == command@,
        Err(e) => r matches Err(WorkbenchError::Form(e2)) && e2@ == e@,
    }
}

/// What Enter does: submit the typed value to the form (and finish it
/// after its last field, once the project's pack is approved when it comes
/// from there); without a form, open the chosen candidate's template or
/// insert the chosen candidate.
pub open spec fn entered(before: Workbench, after: Workbench, seen: Option<CandidateView>, approved: bool,
    r: Result<WorkbenchAction, WorkbenchError>) -> bool
{
    &&& after.templates == before.templates
    &&& after.high_surrogate == before.high_surrogate
    &&& match before.form {
        Some(f) => after.form matches Some(f2) && after.project == before.project
            && exists|sr: Result<bool, FormError>| #[trigger] submitted(f, f2, before.input@, sr) && match sr {
            Ok(true) => after.input == before.input && after.generation == before.generation && after.error is None
                && if before.project && !approved {
                r matches Err(WorkbenchError::NotApproved)
            } else {
                exists|fr: Result<String, FormError>| #[trigger] finished(f2, fr) && edit_result(r, fr)
            },
            Ok(false) => after.input@.len() == 0 && after.generation == before.generation + 1 && after.error is None
                && r matches Ok(WorkbenchAction::Refresh),
            Err(e) => after.input == before.input && after.generation == before.generation
                && (after.error matches Some(m) && m@ == fault_message(e@)) && r matches Ok(WorkbenchAction::Refresh),
        },
        None => after.error is None && match seen {
            None => after.form is None && after.project == before.project && after.input == before.input
                && after.generation == before.generation && r matches Ok(WorkbenchAction::Refresh),
            Some(c) => {
                let project = starts_with(c.id, "hub:project:"@);
                &&& after.project == project
                &&& if project && !approved {
                    &&& r matches Err(WorkbenchError::NotApproved)
                    &&& after.form is None && after.input == before.input && after.generation == before.generation
                } else {
                    match template_index(before.templates@, c.id) {
                        Some(i) => exists|cr: Result<TemplateForm, FormError>| #[trigger] created(before.templates@[i].1@, cr)
                            && match cr {
                            Err(e) => (r matches Err(WorkbenchError::Form(e2)) && e2@ == e@) && after.form is None
                                && after.input == before.input && after.generation == before.generation,
                            Ok(form) => if form.spec_fields().len() == 0 {
                                &&& after.form is None && after.input == before.input && after.generation == before.generation
                                &&& exists|fr: Result<String, FormError>| #[trigger] finished(form, fr) && edit_result(r, fr)
                            } else {
                                &&& after.form == Some(form)
                                &&& after.input@.len() == 0 && after.generation == before.generation + 1
                                &&& r matches Ok(WorkbenchAction::Refresh)
                            },
                        },
                        None => (r matches Ok(WorkbenchAction::Edit(t)) && t@ == c.insert_text) && after.form is None
                            && after.input == before.input && after.generation == before.generation,
                    }
                }
            },
        },
    }
}

/// What a key does to the workbench `before`, giving `after`, moving the
/// menu selection from `sel_before` to `sel_after` and answering `r`.
/// `seen` is the chosen candidate and the number of candidates of its
/// frame, if the frame is still shown.
pub open spec fn keyed(before: Workbench, after: Workbench, key: Seq<char>, modifiers: u64, unit: u16,
    seen: Option<(CandidateView, nat)>, sel_before: usize, sel_after: usize, approved: bool,
    r: Result<WorkbenchAction, WorkbenchError>) -> bool
{
    &&& (key == "Enter"@ ==> sel_after == sel_before && entered(before, after,
        match seen { Some(s) => Some(s.0), None => None }, approved, r))
    &&& (key == "Backspace"@ ==> {
        &&& after == Workbench {
            input: after.input,
            high_surrogate: None,
            error: None,
            ..before
        }
        &&& after.input@ == if before.input@.len() > 0 { before.input@.drop_last() } else { before.input@ }
        &&& sel_after == 0
        &&& r matches Ok(WorkbenchAction::Refresh)
    })
    &&& (key == "UpArrow"@ || key == "DownArrow"@ ==> {
        let forward = key == "DownArrow"@;
        &&& after == Workbench { input: after.input, error: None, ..before }
        &&& r matches Ok(WorkbenchAction::Refresh)
        &&& match before.form {
            Some(f) if f.spec_index() < f.spec_fields().len() => {
                let values = f.spec_fields()[f.spec_index() as int].values;
                &&& after.input@ == if values.len() > 0 {
                    values[cycled(values, before.input@, forward)]
                } else {
                    before.input@
                }
                &&& sel_after == sel_before
            },
            _ => {
                &&& after.input == before.input
                &&& sel_after == match seen {
                    Some(s) => {
                        let count = s.1 as int;
                        if count == 0 {
                            sel_before
                        } else if forward {
                            ((sel_before + 1) % count) as usize
                        } else {
                            ((sel_before + count - 1) % count) as usize
                        }
                    },
                    None => sel_before,
                }
            },
        }
    })
    &&& (key != "Enter"@ && key != "Backspace"@ && key != "UpArrow"@ && key != "DownArrow"@ ==> {
        &&& r matches Ok(WorkbenchAction::Refresh)
        &&& if modifiers & 6 != 0 {
            &&& after == Workbench { error: None, ..before }
            &&& sel_after == sel_before
        } else {
            &&& sel_after == 0
            &&& after == Workbench {
                input: after.input,
                high_surrogate: after.high_surrogate,
                error: None,
                ..before
            }
            &&& if 0xd800 <= unit <= 0xdbff {
                after.high_surrogate == Some(unit) && after.input == before.input
            } else if 0xdc00 <= unit <= 0xdfff {
                &&& after.high_surrogate is None
                &&& after.input@ == match before.high_surrogate {
                    Some(h) => before.input@.push(pair_value(h, unit) as char),
                    None => before.input@,
                }
            } else if spec_is_control(unit as u32) {
                after.high_surrogate == before.high_surrogate && after.input == before.input
            } else {
                after.high_surrogate is None && after.input@ == before.input@.push(unit as u32 as char)
            }
        }
    })
}

impl Workbench {
    /// A workbench over `templates` (by candidate id) with nothing typed.
    pub fn new(templates: Vec<(String, CommandTemplate)>) -> (r: Workbench)
        ensures
            r.wf(),
            r.input@.len() == 0,
            r.high_surrogate is None,
            r.form is None,
            !r.project,
            r.templates == templates,
            r.error is None,
            r.generation == 0,
    {
        Workbench {
            input: String::new(),
            high_surrogate: None,
            form: None,
            project: false,
            templates,
            error: None,
            generation: 0,
        }
    }

    /// A pending surrogate is a high one and the form is well formed.
    pub open spec fn wf(&self) -> bool {
        &&& self.high_surrogate matches Some(h) ==> 0xd800 <= h <= 0xdbff
        &&& self.form matches Some(f) ==> f.wf()
    }

    /// Handle a key: `key` is its name, `modifiers` its modifier bits (Alt
    /// and Control are 2 and 4), `unit` the UTF-16 code unit it types.
    /// `seen` is the candidate and completion of the frame that the request
    /// names, if it is still shown; `selected` is the menu selection;
    /// `approved` tells whether the project's pack is approved. The error
    /// is cleared first.
    pub fn key(&mut self, key: &str, modifiers: u64, unit: u16, seen: Option<(&Candidate, &Completion)>,
        selected: &mut usize, approved: bool) -> (r: Result<WorkbenchAction, WorkbenchError>)
        requires
            old(self).wf(),
            old(self).generation < u64::MAX,
        ensures
            final(self).wf(),
            keyed(*old(self), *final(self), key@, modifiers, unit,
                match seen { Some(s) => Some((s.0@, s.1.candidates@.len())), None => None },
                *old(selected), *final(selected), approved, r),
    {
        proof {
            reveal_strlit("Enter");
            reveal_strlit("Backspace");
            reveal_strlit("UpArrow");
            reveal_strlit("DownArrow");
            assert("Enter"@.len() == 5 && "Backspace"@.len() == 9 && "UpArrow"@.len() == 7 && "DownArrow"@.len() == 9);
            assert("Backspace"@[0] != "DownArrow"@[0]);
        }
        self.error = None;
        if str_eq(key, "Enter") {
            return self.enter(seen, approved);
        }
        if str_eq(key, "Backspace") {
            self.high_surrogate = None;
            let v = chars_of(self.input.as_str());
            if v.len() > 0 {
                self.input = string_of_range(v.as_slice(), 0, v.len() - 1);
                assert(self.input@ =~= old(self).input@.drop_last());
            }
            *selected = 0;
            return Ok(WorkbenchAction::Refresh);
        }
        let down = str_eq(key, "DownArrow");
        if down || str_eq(key, "UpArrow") {
            let mut field_values: Option<Vec<String>> = None;
            match &self.form {
                Some(f) => match f.current() {
                    Some(field) => {
                        field_values = Some(crate::forms::copy_strings(&field.values));
                    },
                    None => {},
                },
                None => {},
            }
            match field_values {
                Some(values) => {
                    if values.len() > 0 {
                        let next = cycle_exec(&values, self.input.as_str(), down);
                        self.input = values[next].clone();
                        assert(self.input@ == crate::text::string_views(values@)[next as int]);
                    }
                },
                None => {
                    if let Some(s) = seen {
                        let count = s.1.candidates.len();
                        if count > 0 {
                            let current = *selected % count;
                            *selected = if down {
                                (current + 1) % count
                            } else if current == 0 {
                                count - 1
                            } else {
                                current - 1
                            };
                            proof {
                                lemma_mod_step(*old(selected) as int, count as int);
                            }
                        }
                    }
                },
            }
            return Ok(WorkbenchAction::Refresh);
        }
        if modifiers & 6 == 0 {
            if 0xd800 <= unit && unit <= 0xdbff {
                self.high_surrogate = Some(unit);
            } else if 0xdc00 <= unit && unit <= 0xdfff {
                if let Some(h) = self.high_surrogate {
                    self.high_surrogate = None;
                    let v: u32 = 0x10000 + (h as u32 - 0xd800) * 0x400 + (unit as u32 - 0xdc00);
                    assert(v == pair_value(h, unit));
                    assert(is_scalar(v));
                    if let Some(c) = char_from_u32(v) {
                        push_char(&mut self.input, c);
                    }
                }
            } else {
                let v = unit as u32;
                if !(v < 0x20 || (0x7f <= v && v <= 0x9f)) {
                    assert(is_scalar(v));
                    if let Some(c) = char_from_u32(v) {
                        self.high_surrogate = None;
                        push_char(&mut self.input, c);
                    }
                }
            }
            *selected = 0;
        }
        Ok(WorkbenchAction::Refresh)
    }

    fn enter(&mut self, seen: Option<(&Candidate, &Completion)>, approved: bool) -> (r: Result<WorkbenchAction, WorkbenchError>)
        requires
            old(self).wf(),
            old(self).generation < u64::MAX,
            old(self).error is None,
        ensures
            final(self).wf(),
            entered(*old(self), *final(self), match seen { Some(s) => Some(s.0@), None => None }, approved, r),
    {
        if self.form.is_some() {
            self.enter_form(approved)
        } else {
            self.enter_candidate(seen, approved)
        }
    }

    fn enter_form(&mut self, approved: bool) -> (r: Result<WorkbenchAction, WorkbenchError>)
        requires
            old(self).wf(),
            old(self).generation < u64::MAX,
            old(self).error is None,
            old(self).form is Some,
        ensures
            final(self).wf(),
            entered(*old(self), *final(self), None, approved, r),
    {
        let taken = self.form.take();
        match taken {
            Some(mut f) => {
                let ghost f0 = f;
                let sr = f.submit(self.input.as_str());
                let ghost sv = sr;
                assert(submitted(f0, f, old(self).input@, sv));
                match sr {
                    Ok(true) => {
                        if self.project && !approved {
                            self.form = Some(f);
                            assert(sv == Ok::<bool, FormError>(true));
                            assert(self.form matches Some(f2) && submitted(f0, f2, old(self).input@, sv));
                            return Err(WorkbenchError::NotApproved);
                        }
                        let fr = f.finish();
                        let ghost fv = fr;
                        assert(finished(f, fv));
                        self.form = Some(f);
                        assert(sv == Ok::<bool, FormError>(true));
                        assert(self.form matches Some(f2) && submitted(f0, f2, old(self).input@, sv));
                        match fr {
                            Ok(command) => Ok(WorkbenchAction::Edit(command)),
                            Err(e) => Err(WorkbenchError::Form(e)),
                        }
                    },
                    Ok(false) => {
                        self.input = String::new();
                        self.generation = self.generation + 1;
                        self.form = Some(f);
                        assert(sv == Ok::<bool, FormError>(false));
                        assert(self.form matches Some(f2) && submitted(f0, f2, old(self).input@, sv));
                        Ok(WorkbenchAction::Refresh)
                    },
                    Err(e) => {
                        let m = e.message();
                        assert(m@ == fault_message(sv->Err_0@));
                        self.error = Some(m);
                        self.form = Some(f);
                        assert(self.form matches Some(f2) && submitted(f0, f2, old(self).input@, sv));
                        Ok(WorkbenchAction::Refresh)
                    },
                }
            },
            None => Ok(WorkbenchAction::Refresh),
        }
    }

    fn enter_candidate(&mut self, seen: Option<(&Candidate, &Completion)>, approved: bool) -> (r: Result<WorkbenchAction, WorkbenchError>)
        requires
            old(self).wf(),
            old(self).generation < u64::MAX,
            old(self).error is None,
            old(self).form is None,
        ensures
            final(self).wf(),
            entered(*old(self), *final(self), match seen { Some(s) => Some(s.0@), None => None }, approved, r),
    {
                match seen {
                    None => Ok(WorkbenchAction::Refresh),
                    Some(s) => {
                        let candidate = s.0;
                        let project = starts_with_project(candidate.id.as_str());
                        self.project = project;
                        if project && !approved {
                            return Err(WorkbenchError::NotApproved);
                        }
                        match template_index_exec(&self.templates, candidate.id.as_str()) {
                            Some(i) => {
                                proof {
                                    lemma_template_index(self.templates@, candidate.id@);
                                }
                                let template = self.templates[i].1.copy();
                                let cr = TemplateForm::new(template);
                                let ghost cv = cr;
                                assert(created(old(self).templates@[i as int].1@, cv));
                                match cr {
                                    Err(e) => Err(WorkbenchError::Form(e)),
                                    Ok(form) => {
                                        if form.is_empty() {
                                            let fr = form.finish();
                                            let ghost fv = fr;
                                            assert(finished(form, fv));
                                            match fr {
                                                Ok(command) => Ok(WorkbenchAction::Edit(command)),
                                                Err(e) => Err(WorkbenchError::Form(e)),
                                            }
                                        } else {
                                            self.form = Some(form);
                                            self.input = String::new();
                                            self.generation = self.generation + 1;
                                            Ok(WorkbenchAction::Refresh)
                                        }
                                    },
                                }
                            },
                            None => Ok(WorkbenchAction::Edit(candidate.insert_text.clone())),
                        }
                    },
                }
    }
}

proof fn lemma_mod_step(s: int, count: int)
    requires
        count > 0,
        s >= 0,
    ensures
        ((s % count) + 1) % count == (s + 1) % count,
        ((s % count) + count - 1) % count == (s + count - 1) % count,
        (s % count == 0 ==> (s + count - 1) % count == count - 1),
        (s % count > 0 ==> (s + count - 1) % count == s % count - 1),
{
    assert(s % count == 0 ==> (s + count - 1) % count == count - 1) by (nonlinear_arith)
        requires count > 0, s >= 0;
    assert(s % count > 0 ==> (s + count - 1) % count == s % count - 1) by (nonlinear_arith)
        requires count > 0, s >= 0;
    assert(((s % count) + 1) % count == (s + 1) % count) by (nonlinear_arith)
        requires count > 0, s >= 0;
    assert(((s % count) + count - 1) % count == (s + count - 1) % count) by (nonlinear_arith)
        requires count > 0, s >= 0;
}

fn starts_with_project(id: &str) -> (r: bool)
    ensures
        r == starts_with(id@, "hub:project:"@),
{
    let v = chars_of(id);
    let p = chars_of("hub:project:");
    crate::text::chars_start_with(v.as_slice(), p.as_slice())
}

proof fn lemma_template_index(t: Seq<(String, CommandTemplate)>, id: Seq<char>)
    ensures
        template_index(t, id) matches Some(i) ==> 0 <= i < t.len(),
    decreases t.len(),
{
    if t.len() > 0 {
        lemma_template_index(t.drop_last(), id);
    }
}

fn template_index_exec(t: &Vec<(String, CommandTemplate)>, id: &str) -> (r: Option<usize>)
    ensures
        match template_index(t@, id@) {
            Some(i) => r matches Some(j) && j == i,
            None => r is None,
        },
{
    let mut i: usize = 0;
    while i < t.len()
        invariant
            i <= t@.len(),
            template_index(t@.take(i as int), id@) is None,
        decreases t@.len() - i,
    {
        assert(t@.take(i as int + 1).drop_last() =~= t@.take(i as int));
        if str_eq(t[i].0.as_str(), id) {
            proof {
                lemma_template_index_prefix(t@, id@, i as int + 1);
            }
            return Some(i);
        }
        i = i + 1;
    }
    assert(t@.take(i as int) =~= t@);
    None
}

proof fn lemma_template_index_prefix(t: Seq<(String, CommandTemplate)>, id: Seq<char>, n: int)
    requires
        0 <= n <= t.len(),
        template_index(t.take(n), id) is Some,
    ensures
        template_index(t, id) == template_index(t.take(n), id),
    decreases t.len() - n,
{
    if n < t.len() {
        assert(t.take(n + 1).drop_last() =~= t.take(n));
        lemma_template_index_prefix(t, id, n + 1);
    } else {
        assert(t.take(n) =~= t);
    }
}

fn cycle_exec(values: &Vec<String>, input: &str, forward: bool) -> (r: usize)
    requires
        values@.len() > 0,
    ensures
        r as int == cycled(crate::text::string_views(values@), input@, forward),
        r < values@.len(),
{
    let ghost vs = crate::text::string_views(values@);
    let mut i: usize = 0;
    while i < values.len()
        invariant
            vs == crate::text::string_views(values@),
            i <= vs.len(),
            first_index(vs.take(i as int), input@) is None,
        decreases vs.len() - i,
    {
        assert(vs.take(i as int + 1).drop_last() =~= vs.take(i as int));
        if str_eq(values[i].as_str(), input) {
            proof {
                assert(first_index(vs.take(i as int + 1), input@) == Some(i as int));
                lemma_first_index_prefix(vs, input@, i as int + 1);
            }
            return if forward {
                (i + 1) % values.len()
            } else if i == 0 {
                values.len() - 1
            } else {
                i - 1
            };
        }
        i = i + 1;
    }
    assert(vs.take(i as int) =~= vs);
    0
}

proof fn lemma_first_index_prefix(v: Seq<Seq<char>>, x: Seq<char>, n: int)
    requires
        0 <= n <= v.len(),
        first_index(v.take(n), x) is Some,
    ensures
        first_index(v, x) == first_index(v.take(n), x),
    decreases v.len() - n,
{
    if n < v.len() {
        assert(v.take(n + 1).drop_last() =~= v.take(n));
        lemma_first_index_prefix(v, x, n + 1);
    } else {
        assert(v.take(n) =~= v);
    }
}

} // verus!
