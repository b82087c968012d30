//! The form that asks for a task's parameters.
//!
//! One field for each declared parameter. A field holds the text typed so far
//! and, where there are candidates, which of them is highlighted. Candidates
//! come from the configuration or from a command whose reply arrives later;
//! every request has a number, and only the reply to the last request for a
//! parameter counts.
use crate::client::CompletionError;
use crate::config::{ParamKind, Task, TaskParam};
use crate::fuzzy::{a_query_keeps_what_it_finds, fuzzy_match, matches_query, matching};
use crate::names::{copy_names, has_name, views, NameMap};
use crate::text::{
    a_number_reads_back, join, joined, parse_int, parsed_int, same, signed_decimal,
    signed_decimal_string, trim, trimmed,
};
use vstd::prelude::*;

verus! {

/// The candidates of a field, or why there are none.
#[derive(Debug)]
pub enum CandidateState {
    /// No source of candidates: a plain text field.
    Absent,
    /// A fixed list.
    Static(Vec<String>),
    /// Asked for and not here yet.
    Loading,
    /// The reply.
    Loaded(Vec<String>),
    /// The command failed.
    Failed { message: String, log_path: Option<String> },
}

impl CandidateState {
    /// The candidates.
    pub open spec fn names(&self) -> Seq<Seq<char>> {
        match self {
            CandidateState::Static(v) => views(v@),
            CandidateState::Loaded(v) => views(v@),
            _ => Seq::empty(),
        }
    }

    /// The candidates; none while they are loading or after a failure.
    pub fn list(&self) -> (r: Vec<String>)
        ensures
            views(r@) == self.names(),
    {
        match self {
            CandidateState::Static(v) => copy_names(v),
            CandidateState::Loaded(v) => copy_names(v),
            _ => {
                let none: Vec<String> = Vec::new();
                assert(views(none@) =~= Seq::<Seq<char>>::empty());
                none
            },
        }
    }
}

/// The part of a list of candidates that is on screen.
#[derive(Debug)]
pub struct CandidateWindow {
    pub items: Vec<String>,
    /// The highlighted one, counted from the first on screen.
    pub highlight: usize,
    pub hidden_above: usize,
    pub hidden_below: usize,
}

/// One field of the form.
#[derive(Debug)]
pub struct Field {
    pub name: String,
    pub prompt: String,
    pub required: bool,
    pub kind: ParamKind,
    /// The text so far. A yes-or-no field holds `true` or `false`.
    pub value: String,
    pub static_choices: Vec<String>,
    /// Whether a command lists its candidates.
    pub has_dynamic_completions: bool,
    pub candidates: CandidateState,
    /// The highlighted candidate among those that match.
    pub candidate_highlight: usize,
    pub error: Option<String>,
    pub int_min: Option<i64>,
    pub int_max: Option<i64>,
}

/// The lesser of two numbers.
pub open spec fn lesser(a: int, b: int) -> int {
    if a < b {
        a
    } else {
        b
    }
}

/// What becomes of a field when the form is submitted.
pub enum Answer {
    /// Left out.
    Skipped,
    /// Handed to the task.
    Given(Seq<char>),
    /// Not acceptable, and why.
    Refused(Seq<char>),
}

/// A number moved into bounds: the lower one first, then the upper one.
pub open spec fn bounded(n: int, min: Option<i64>, max: Option<i64>) -> int {
    let low = match min {
        Some(m) => if n < m {
            m as int
        } else {
            n
        },
        None => n,
    };
    match max {
        Some(m) => if low > m {
            m as int
        } else {
            low
        },
        None => low,
    }
}

/// A sum kept within 64 bits.
pub open spec fn saturated(n: int) -> int {
    if n > i64::MAX {
        i64::MAX as int
    } else if n < i64::MIN {
        i64::MIN as int
    } else {
        n
    }
}

impl Field {
    /// The field that a declared parameter starts as.
    pub open spec fn starts_as(&self, p: TaskParam) -> bool {
        &&& self.name@ == p.name@
        &&& self.prompt@ == (match p.prompt {
            Some(prompt) => prompt@,
            None => p.name@,
        })
        &&& self.required == p.required
        &&& self.kind == p.kind
        &&& self.value@ == (match p.default {
            Some(value) => value@,
            None => Seq::empty(),
        })
        &&& views(self.static_choices@) == views(p.choices@)
        &&& self.has_dynamic_completions == (p.completions is Some)
        &&& p.choices@.len() > 0 ==> (self.candidates matches CandidateState::Static(v) && views(
            v@,
        ) == views(p.choices@))
        &&& p.choices@.len() == 0 ==> self.candidates is Absent
        &&& self.candidate_highlight == 0
        &&& self.error is None
        &&& self.int_min == (match p.validate {
            Some(v) => v.min,
            None => None,
        })
        &&& self.int_max == (match p.validate {
            Some(v) => v.max,
            None => None,
        })
    }

    /// The field for a declared parameter.
    pub fn from_param(p: &TaskParam) -> (r: Field)
        ensures
            r.starts_as(*p),
    {
        let prompt = match &p.prompt {
            Some(prompt) => prompt.clone(),
            None => p.name.clone(),
        };
        let value = match &p.default {
            Some(value) => value.clone(),
            None => String::new(),
        };
        let static_choices = copy_names(&p.choices);
        proof {
            assert(views(static_choices@).len() == views(p.choices@).len());
        }
        let candidates = if static_choices.len() > 0 {
            CandidateState::Static(copy_names(&p.choices))
        } else {
            CandidateState::Absent
        };
        let (int_min, int_max) = match p.validate {
            Some(v) => (v.min, v.max),
            None => (None, None),
        };
        Field {
            name: p.name.clone(),
            prompt,
            required: p.required,
            kind: p.kind,
            value,
            static_choices,
            has_dynamic_completions: p.completions.is_some(),
            candidates,
            candidate_highlight: 0,
            error: None,
            int_min,
            int_max,
        }
    }

    /// The candidates that match what was typed.
    pub open spec fn shown(&self) -> Seq<Seq<char>> {
        if self.value@.len() == 0 {
            self.candidates.names()
        } else {
            matching(self.value@, self.candidates.names())
        }
    }

    /// The candidates that match what was typed.
    pub fn visible_candidates(&self) -> (r: Vec<String>)
        ensures
            views(r@) == self.shown(),
            r@.len() == self.shown().len(),
    {
        let list = self.candidates.list();
        if self.value.as_str().is_empty() {
            assert(views(list@).len() == list@.len());
            return list;
        }
        let r = fuzzy_match(self.value.as_str(), &list);
        assert(views(r@).len() == r@.len());
        r
    }

    /// The highlighted candidate, kept within the list.
    pub open spec fn chosen(&self) -> int {
        lesser(self.candidate_highlight as int, self.shown().len() - 1)
    }

    /// The first candidate on screen when `rows` of them fit.
    pub open spec fn window_start(&self, rows: int) -> int {
        if self.chosen() < lesser(rows, self.shown().len() as int) {
            0
        } else {
            self.chosen() + 1 - lesser(rows, self.shown().len() as int)
        }
    }

    /// As many candidates as fit in `max_rows`, the highlighted one among them.
    pub fn visible_candidate_window(&self, max_rows: usize) -> (r: CandidateWindow)
        ensures
            self.shown().len() == 0 || max_rows == 0 ==> {
                &&& r.items@.len() == 0
                &&& r.highlight == 0
                &&& r.hidden_above == 0
                &&& r.hidden_below == 0
            },
            self.shown().len() > 0 && max_rows > 0 ==> {
                let rows = lesser(max_rows as int, self.shown().len() as int);
                let start = self.window_start(max_rows as int);
                &&& views(r.items@) == self.shown().subrange(start, start + rows)
                &&& r.items@.len() == rows
                &&& r.highlight as int == self.chosen() - start
                &&& r.highlight < rows
                &&& r.hidden_above as int == start
                &&& r.hidden_below as int == self.shown().len() - start - rows
            },
    {
        let visible = self.visible_candidates();
        if visible.len() == 0 || max_rows == 0 {
            return CandidateWindow {
                items: Vec::new(),
                highlight: 0,
                hidden_above: 0,
                hidden_below: 0,
            };
        }
        let highlight: usize = if self.candidate_highlight < visible.len() - 1 {
            self.candidate_highlight
        } else {
            visible.len() - 1
        };
        let window_rows: usize = if max_rows < visible.len() {
            max_rows
        } else {
            visible.len()
        };
        let start: usize = if highlight < window_rows {
            0
        } else {
            highlight + 1 - window_rows
        };
        let end: usize = start + window_rows;
        let mut items: Vec<String> = Vec::new();
        let mut i: usize = start;
        while i < end
            invariant
                start <= i <= end,
                end <= visible@.len(),
                items@.len() == i - start,
                forall|j: int| 0 <= j < i - start ==> items@[j]@ == visible@[start + j]@,
            decreases end - i,
        {
            items.push(visible[i].clone());
            i += 1;
        }
        proof {
            let all = self.shown();
            assert forall|j: int| 0 <= j < items@.len() implies views(items@)[j]
                == #[trigger] all.subrange(start as int, end as int)[j] by {
                assert(views(visible@)[start + j] == visible@[start + j]@);
            }
            assert(views(items@) =~= all.subrange(start as int, end as int));
        }
        CandidateWindow {
            items,
            highlight: highlight - start,
            hidden_above: start,
            hidden_below: visible.len() - end,
        }
    }

    /// The highlighted candidate, or the value where there is none.
    pub open spec fn accepted(&self) -> Seq<char> {
        if self.shown().len() == 0 {
            self.value@
        } else {
            self.shown()[self.chosen()]
        }
    }

    /// Takes the highlighted candidate as the value, if there is one.
    pub fn accept_highlighted_candidate(&mut self)
        ensures
            *final(self) == (Field { value: final(self).value, ..*old(self) }),
            final(self).value@ == old(self).accepted(),
    {
        let visible = self.visible_candidates();
        if visible.len() == 0 {
            return;
        }
        let at: usize = if self.candidate_highlight < visible.len() - 1 {
            self.candidate_highlight
        } else {
            visible.len() - 1
        };
        assert(views(visible@)[at as int] == visible@[at as int]@);
        self.value = visible[at].clone();
    }

    /// The number the field holds, if it holds one.
    pub open spec fn number(&self) -> Option<int> {
        parsed_int(trimmed(self.value@))
    }

    /// The value of a number field after a step, within its bounds; the value
    /// as it is where it is no number.
    pub open spec fn stepped(&self, delta: int) -> Seq<char> {
        if self.kind == ParamKind::Int {
            match self.number() {
                Some(n) => signed_decimal(
                    bounded(saturated(n + delta), self.int_min, self.int_max),
                ),
                None => self.value@,
            }
        } else {
            self.value@
        }
    }

    /// Adds `delta` to a number field and moves the result into its bounds.
    /// Does nothing when the field holds no number.
    pub fn step_int(&mut self, delta: i64)
        ensures
            *final(self) == (Field { value: final(self).value, ..*old(self) }),
            final(self).value@ == old(self).stepped(delta as int),
    {
        if self.kind != ParamKind::Int {
            return;
        }
        let base: i64 = match parse_int(trim(self.value.as_str()).as_str()) {
            Some(n) => n,
            None => {
                return ;
            },
        };
        let sum: i128 = base as i128 + delta as i128;
        let mut next: i64 = if sum > i64::MAX as i128 {
            i64::MAX
        } else if sum < i64::MIN as i128 {
            i64::MIN
        } else {
            sum as i64
        };
        if let Some(min) = self.int_min {
            if next < min {
                next = min;
            }
        }
        if let Some(max) = self.int_max {
            if next > max {
                next = max;
            }
        }
        self.value = signed_decimal_string(next);
    }

    /// The value of a yes-or-no field flipped.
    pub open spec fn flipped(&self) -> Seq<char> {
        if self.kind != ParamKind::Bool {
            self.value@
        } else if trimmed(self.value@) == "true"@ {
            "false"@
        } else {
            "true"@
        }
    }

    /// Flips a yes-or-no field. Anything but `true` becomes `true`.
    pub fn toggle_bool(&mut self)
        ensures
            *final(self) == (Field { value: final(self).value, ..*old(self) }),
            final(self).value@ == old(self).flipped(),
    {
        if self.kind != ParamKind::Bool {
            return;
        }
        let now = trim(self.value.as_str());
        self.value = if same(now.as_str(), "true") {
            "false".to_owned()
        } else {
            "true".to_owned()
        };
    }

    /// What submitting makes of this field.
    pub open spec fn answer(&self) -> Answer {
        let text = trimmed(self.value@);
        let quoted = "'"@ + self.name@;
        if text.len() == 0 {
            if self.required {
                Answer::Refused(quoted + "' is required"@)
            } else {
                Answer::Skipped
            }
        } else {
            match self.kind {
                ParamKind::Int => match parsed_int(text) {
                    None => Answer::Refused(
                        quoted + "' must be an integer (got '"@ + text + "')"@,
                    ),
                    Some(n) => if self.int_min matches Some(min) && n < min {
                        Answer::Refused(
                            quoted + "' must be >= "@ + signed_decimal(self.int_min->0 as int)
                                + " (got "@ + signed_decimal(n) + ")"@,
                        )
                    } else if self.int_max matches Some(max) && n > max {
                        Answer::Refused(
                            quoted + "' must be <= "@ + signed_decimal(self.int_max->0 as int)
                                + " (got "@ + signed_decimal(n) + ")"@,
                        )
                    } else {
                        Answer::Given(signed_decimal(n))
                    },
                },
                ParamKind::Bool => Answer::Given(text),
                _ => if self.static_choices@.len() > 0 && !views(self.static_choices@).contains(
                    text,
                ) {
                    Answer::Refused(
                        quoted + "' must be one of ["@ + joined(views(self.static_choices@), ", "@)
                            + "]"@,
                    )
                } else {
                    Answer::Given(text)
                },
            }
        }
    }

    /// The text handed to the task, nothing when the field is left out, or why
    /// the field is not acceptable.
    pub fn check(&self) -> (r: Result<Option<String>, String>)
        ensures
            match (r, self.answer()) {
                (Ok(None), Answer::Skipped) => true,
                (Ok(Some(text)), Answer::Given(t)) => text@ == t,
                (Err(why), Answer::Refused(w)) => why@ == w,
                _ => false,
            },
    {
        let text = trim(self.value.as_str());
        let mut why = "'".to_owned();
        why.append(self.name.as_str());
        if text.as_str().is_empty() {
            if self.required {
                why.append("' is required");
                return Err(why);
            }
            return Ok(None);
        }
        match self.kind {
            ParamKind::Int => {
                let n: i64 = match parse_int(text.as_str()) {
                    Some(n) => n,
                    None => {
                        why.append("' must be an integer (got '");
                        why.append(text.as_str());
                        why.append("')");
                        return Err(why);
                    },
                };
                if let Some(min) = self.int_min {
                    if n < min {
                        why.append("' must be >= ");
                        why.append(signed_decimal_string(min).as_str());
                        why.append(" (got ");
                        why.append(signed_decimal_string(n).as_str());
                        why.append(")");
                        return Err(why);
                    }
                }
                if let Some(max) = self.int_max {
                    if n > max {
                        why.append("' must be <= ");
                        why.append(signed_decimal_string(max).as_str());
                        why.append(" (got ");
                        why.append(signed_decimal_string(n).as_str());
                        why.append(")");
                        return Err(why);
                    }
                }
                Ok(Some(signed_decimal_string(n)))
            },
            ParamKind::Bool => Ok(Some(text)),
            _ => {
                if self.static_choices.len() > 0 && !has_name(&self.static_choices, text.as_str()) {
                    why.append("' must be one of [");
                    why.append(join(&self.static_choices, ", ").as_str());
                    why.append("]");
                    return Err(why);
                }
                Ok(Some(text))
            },
        }
    }
}

/// What a form submits: the first refusal, or an answer for each field that
/// has one. Of two fields with one name the later answers.
pub open spec fn submission(fields: Seq<Field>) -> Result<Map<Seq<char>, Seq<char>>, Seq<char>>
    decreases fields.len(),
{
    if fields.len() == 0 {
        Ok(Map::empty())
    } else {
        match submission(fields.drop_last()) {
            Err(why) => Err(why),
            Ok(before) => match fields.last().answer() {
                Answer::Skipped => Ok(before),
                Answer::Given(text) => Ok(before.insert(fields.last().name@, text)),
                Answer::Refused(why) => Err(why),
            },
        }
    }
}

proof fn lemma_refusal_stays(fields: Seq<Field>, n: int)
    requires
        0 <= n <= fields.len(),
        submission(fields.take(n)) is Err,
    ensures
        submission(fields) == submission(fields.take(n)),
    decreases fields.len() - n,
{
    if n < fields.len() {
        assert(fields.take(n + 1).drop_last() =~= fields.take(n));
        lemma_refusal_stays(fields, n + 1);
    } else {
        assert(fields.take(n) =~= fields);
    }
}

/// The texts of a map.
pub open spec fn texts(m: Map<Seq<char>, String>) -> Map<Seq<char>, Seq<char>> {
    m.map_values(|s: String| s@)
}

/// The first field with a name, if there is one.
pub open spec fn field_named(fields: Seq<Field>, name: Seq<char>) -> Option<int>
    decreases fields.len(),
{
    if fields.len() == 0 {
        None
    } else {
        match field_named(fields.drop_last(), name) {
            Some(i) => Some(i),
            None => if fields.last().name@ == name {
                Some(fields.len() - 1)
            } else {
                None
            },
        }
    }
}

/// The form that asks for a task's parameters.
#[derive(Debug)]
pub struct FormState {
    pub task: String,
    pub fields: Vec<Field>,
    /// The field that takes the keys.
    pub focus: usize,
    /// The number of the last request.
    pub request_counter: u64,
    /// The last request made for each parameter, until its reply comes.
    pub in_flight: NameMap<u64>,
    /// Why the last attempt to submit was refused.
    pub submit_error: Option<String>,
}

fn find_field(fields: &Vec<Field>, name: &str) -> (r: Option<usize>)
    ensures
        match r {
            Some(i) => field_named(fields@, name@) == Some(i as int) && i < fields@.len()
                && fields@[i as int].name@ == name@,
            None => field_named(fields@, name@) is None,
        },
{
    let mut i: usize = 0;
    assert(fields@.take(0) =~= Seq::<Field>::empty());
    while i < fields.len()
        invariant
            i <= fields@.len(),
            field_named(fields@.take(i as int), name@) is None,
        decreases fields@.len() - i,
    {
        proof {
            assert(fields@.take(i + 1).drop_last() =~= fields@.take(i as int));
            assert(fields@.take(i + 1).last() == fields@[i as int]);
        }
        if same(fields[i].name.as_str(), name) {
            proof {
                lemma_found_stays(fields@, name@, i + 1);
            }
            return Some(i);
        }
        i += 1;
    }
    assert(fields@.take(fields@.len() as int) =~= fields@);
    None
}

proof fn lemma_found_stays(fields: Seq<Field>, name: Seq<char>, n: int)
    requires
        0 <= n <= fields.len(),
        field_named(fields.take(n), name) is Some,
    ensures
        field_named(fields, name) == field_named(fields.take(n), name),
    decreases fields.len() - n,
{
    if n < fields.len() {
        assert(fields.take(n + 1).drop_last() =~= fields.take(n));
        lemma_found_stays(fields, name, n + 1);
    } else {
        assert(fields.take(n) =~= fields);
    }
}

impl FormState {
    /// The form for a task; none when it declares no parameter.
    pub fn new(task_name: &str, task: &Task) -> (r: Option<FormState>)
        ensures
            match r {
                None => task.params@.len() == 0,
                Some(form) => {
                    &&& task.params@.len() > 0
                    &&& form.task@ == task_name@
                    &&& form.fields@.len() == task.params@.len()
                    &&& forall|i: int|
                        0 <= i < form.fields@.len() ==> #[trigger] form.fields@[i].starts_as(
                            task.params@[i],
                        )
                    &&& form.focus == 0
                    &&& form.request_counter == 0
                    &&& form.in_flight@ == Map::<Seq<char>, u64>::empty()
                    &&& form.submit_error is None
                },
            },
    {
        if task.params.len() == 0 {
            return None;
        }
        let mut fields: Vec<Field> = Vec::new();
        let mut i: usize = 0;
        while i < task.params.len()
            invariant
                i <= task.params@.len(),
                fields@.len() == i,
                forall|j: int| 0 <= j < i ==> #[trigger] fields@[j].starts_as(task.params@[j]),
            decreases task.params@.len() - i,
        {
            fields.push(Field::from_param(&task.params[i]));
            i += 1;
        }
        Some(
            FormState {
                task: task_name.to_owned(),
                fields,
                focus: 0,
                request_counter: 0,
                in_flight: NameMap::new(),
                submit_error: None,
            },
        )
    }

    /// The field that takes the keys.
    pub fn focused(&self) -> (r: Option<&Field>)
        ensures
            match r {
                Some(field) => self.focus < self.fields@.len() && *field
                    == self.fields@[self.focus as int],
                None => self.focus >= self.fields@.len(),
            },
    {
        if self.focus < self.fields.len() {
            Some(&self.fields[self.focus])
        } else {
            None
        }
    }

    /// The field that takes the keys, to change it.
    pub fn focused_mut(&mut self) -> (r: Option<&mut Field>)
        ensures
            match r {
                Some(field) => {
                    &&& old(self).focus < old(self).fields@.len()
                    &&& *field == old(self).fields@[old(self).focus as int]
                    &&& *final(self) == (FormState {
                        fields: final(self).fields,
                        ..*old(self)
                    })
                    &&& final(self).fields@ == old(self).fields@.update(
                        old(self).focus as int,
                        *final(field),
                    )
                },
                None => old(self).focus >= old(self).fields@.len() && *final(self) == *old(self),
            },
    {
        if self.focus < self.fields.len() {
            let at: usize = self.focus;
            Some(&mut self.fields[at])
        } else {
            None
        }
    }

    /// The field after the one at `focus` among `n`, from the last to the
    /// first.
    pub open spec fn field_after(focus: int, n: int) -> int {
        if n == 0 {
            focus
        } else {
            (focus + 1) % n
        }
    }

    /// The field before the one at `focus` among `n`, from the first to the
    /// last.
    pub open spec fn field_before(focus: int, n: int) -> int {
        if n == 0 {
            focus
        } else if focus == 0 {
            n - 1
        } else {
            focus - 1
        }
    }

    /// Moves on to the next field, from the last to the first.
    pub fn focus_next(&mut self)
        ensures
            *final(self) == (FormState { focus: final(self).focus, ..*old(self) }),
            final(self).focus as int == FormState::field_after(
                old(self).focus as int,
                old(self).fields@.len() as int,
            ),
    {
        let n: usize = self.fields.len();
        if n == 0 {
            return;
        }
        let at: usize = self.focus % n;
        proof {
            let focus = self.focus as int;
            vstd::arithmetic::div_mod::lemma_add_mod_noop(focus, 1, n as int);
            vstd::arithmetic::div_mod::lemma_mod_twice(focus, n as int);
            vstd::arithmetic::div_mod::lemma_add_mod_noop(at as int, 1, n as int);
            if at + 1 == n {
                vstd::arithmetic::div_mod::lemma_mod_self_0(n as int);
            } else {
                vstd::arithmetic::div_mod::lemma_small_mod((at + 1) as nat, n as nat);
            }
        }
        self.focus = if at + 1 == n {
            0
        } else {
            at + 1
        };
    }

    /// Moves back to the previous field, from the first to the last.
    pub fn focus_prev(&mut self)
        ensures
            *final(self) == (FormState { focus: final(self).focus, ..*old(self) }),
            final(self).focus as int == FormState::field_before(
                old(self).focus as int,
                old(self).fields@.len() as int,
            ),
    {
        let n: usize = self.fields.len();
        if n == 0 {
            return;
        }
        self.focus = if self.focus == 0 {
            n - 1
        } else {
            self.focus - 1
        };
    }

    /// The fields once a request for `param` is out.
    pub open spec fn fields_loading(fields: Seq<Field>, param: Seq<char>) -> Seq<Field> {
        match field_named(fields, param) {
            Some(i) => fields.update(
                i,
                Field { candidates: CandidateState::Loading, error: None, ..fields[i] },
            ),
            None => fields,
        }
    }

    /// Whether a new request for a parameter, numbered `id`, makes this form
    /// of `before`.
    pub open spec fn asks(self, before: FormState, param: Seq<char>, id: u64) -> bool {
        &&& id as int == (before.request_counter + 1) % 0x1_0000_0000_0000_0000
        &&& self == (FormState {
            fields: self.fields,
            request_counter: id,
            in_flight: self.in_flight,
            ..before
        })
        &&& self.in_flight@ == before.in_flight@.insert(param, id)
        &&& self.fields@ == FormState::fields_loading(before.fields@, param)
    }

    /// Whether a parameter waits for the reply to the request numbered `id`.
    pub open spec fn awaits(self, param: Seq<char>, id: u64) -> bool {
        self.in_flight@.contains_key(param) && self.in_flight@[param] == id
    }

    /// Numbers a new request for a parameter, which now waits for its reply.
    pub fn start_request(&mut self, param: &str) -> (r: u64)
        ensures
            final(self).asks(*old(self), param@, r),
    {
        self.request_counter = self.request_counter.wrapping_add(1);
        let id: u64 = self.request_counter;
        self.in_flight.insert(param.to_owned(), id);
        if let Some(i) = find_field(&self.fields, param) {
            let field = &mut self.fields[i];
            field.candidates = CandidateState::Loading;
            field.error = None;
        }
        id
    }

    /// The reply to a request is in. Only the reply to the last request for
    /// the parameter counts.
    pub fn apply_completions(
        &mut self,
        param: &str,
        request_id: u64,
        result: Result<Vec<String>, CompletionError>,
    )
        ensures
            *final(self) == (FormState {
                fields: final(self).fields,
                in_flight: final(self).in_flight,
                ..*old(self)
            }),
            !old(self).awaits(param@, request_id) ==> *final(self) == *old(self),
            old(self).awaits(param@, request_id) ==> {
                &&& final(self).in_flight@ == old(self).in_flight@.remove(param@)
                &&& final(self).fields@ == (match field_named(old(self).fields@, param@) {
                    None => old(self).fields@,
                    Some(i) => old(self).fields@.update(
                        i,
                        Field {
                            candidates: match result {
                                Ok(values) => CandidateState::Loaded(values),
                                Err(e) => CandidateState::Failed {
                                    message: e.message,
                                    log_path: e.log_path,
                                },
                            },
                            candidate_highlight: 0,
                            ..old(self).fields@[i]
                        },
                    ),
                })
            },
    {
        let current = match self.in_flight.get(param) {
            Some(id) => *id == request_id,
            None => false,
        };
        if !current {
            return;
        }
        self.in_flight.remove(param);
        if let Some(i) = find_field(&self.fields, param) {
            let candidates = match result {
                Ok(values) => CandidateState::Loaded(values),
                Err(e) => CandidateState::Failed { message: e.message, log_path: e.log_path },
            };
            let field = &mut self.fields[i];
            field.candidates = candidates;
            field.candidate_highlight = 0;
        }
    }

    /// The answers to hand to the task, or the first thing that is wrong.
    pub fn submit(&self) -> (r: Result<NameMap<String>, String>)
        ensures
            match r {
                Ok(answers) => submission(self.fields@) == Ok::<
                    Map<Seq<char>, Seq<char>>,
                    Seq<char>,
                >(texts(answers@)),
                Err(why) => submission(self.fields@) == Err::<
                    Map<Seq<char>, Seq<char>>,
                    Seq<char>,
                >(why@),
            },
    {
        let mut answers: NameMap<String> = NameMap::new();
        let mut i: usize = 0;
        proof {
            assert(self.fields@.take(0) =~= Seq::<Field>::empty());
            assert(texts(answers@) =~= Map::<Seq<char>, Seq<char>>::empty());
        }
        while i < self.fields.len()
            invariant
                i <= self.fields@.len(),
                submission(self.fields@.take(i as int)) == Ok::<
                    Map<Seq<char>, Seq<char>>,
                    Seq<char>,
                >(texts(answers@)),
            decreases self.fields@.len() - i,
        {
            let field = &self.fields[i];
            proof {
                assert(self.fields@.take(i + 1).drop_last() =~= self.fields@.take(i as int));
                assert(self.fields@.take(i + 1).last() == *field);
            }
            match field.check() {
                Ok(None) => {},
                Ok(Some(text)) => {
                    let ghost before = answers@;
                    let ghost given = text;
                    answers.insert(field.name.clone(), text);
                    proof {
                        assert(texts(answers@) =~= texts(before).insert(field.name@, given@));
                    }
                },
                Err(why) => {
                    proof {
                        lemma_refusal_stays(self.fields@, i + 1);
                    }
                    return Err(why);
                },
            }
            i += 1;
        }
        assert(self.fields@.take(self.fields@.len() as int) =~= self.fields@);
        Ok(answers)
    }
}

/// A yes-or-no field goes from yes to no and back, and from nothing to yes.
pub proof fn a_flip_goes_back_and_forth(field: Field)
    requires
        field.kind == ParamKind::Bool,
    ensures
        field.value@ == "true"@ ==> field.flipped() == "false"@,
        field.value@ == "false"@ ==> field.flipped() == "true"@,
        field.value@.len() == 0 ==> field.flipped() == "true"@,
{
    reveal_strlit("true");
    reveal_strlit("false");
    assert("true"@.len() == 4 && "false"@.len() == 5);
    assert("true"@[0] == 't' && "true"@[3] == 'e');
    assert("false"@[0] == 'f' && "false"@[4] == 'e');
    assert(trimmed("true"@) == "true"@);
    assert(trimmed("false"@) == "false"@);
}

/// Only the reply to the last request for a parameter counts: once a second
/// request is out, the form no longer waits for the reply to the first.
pub proof fn a_superseded_request_is_ignored(
    form: FormState,
    asked: FormState,
    asked_again: FormState,
    param: Seq<char>,
    id: u64,
    later: u64,
)
    requires
        asked.asks(form, param, id),
        asked_again.asks(asked, param, later),
    ensures
        asked.awaits(param, id),
        asked_again.awaits(param, later),
        !asked_again.awaits(param, id),
{
}

/// Moving on and then back, or back and then on, ends where it began.
pub proof fn focus_moves_undo_each_other(focus: int, n: int)
    requires
        0 <= focus < n,
    ensures
        FormState::field_before(FormState::field_after(focus, n), n) == focus,
        FormState::field_after(FormState::field_before(focus, n), n) == focus,
{
    if focus + 1 == n {
        vstd::arithmetic::div_mod::lemma_mod_self_0(n);
    } else {
        vstd::arithmetic::div_mod::lemma_small_mod((focus + 1) as nat, n as nat);
    }
    if focus == 0 {
        vstd::arithmetic::div_mod::lemma_mod_self_0(n);
    } else {
        vstd::arithmetic::div_mod::lemma_small_mod(focus as nat, n as nat);
    }
}

/// An accepted answer is what the field shows, without the white space around
/// it; for a number it is that number written out, and it lies within the
/// field's bounds. A blank field is skipped, or refused where an answer is
/// required. Nothing else is refused but a text that is no number where one is
/// asked for, a number out of bounds, and a value that is none of the choices.
pub proof fn an_answer_is_what_was_entered(field: Field)
    ensures
        ({
            let text = trimmed(field.value@);
            let answer = field.answer();
            &&& text.len() == 0 ==> if field.required {
                answer is Refused
            } else {
                answer is Skipped
            }
            &&& text.len() > 0 ==> !(answer is Skipped)
            &&& answer matches Answer::Given(t) ==> {
                &&& field.kind != ParamKind::Int ==> t == text
                &&& field.kind == ParamKind::Int ==> {
                    &&& parsed_int(t) == parsed_int(text)
                    &&& parsed_int(t) matches Some(n) && t == signed_decimal(n)
                    &&& field.int_min matches Some(min) ==> parsed_int(t)->0 >= min
                    &&& field.int_max matches Some(max) ==> parsed_int(t)->0 <= max
                }
                &&& field.kind != ParamKind::Int && field.kind != ParamKind::Bool
                    && field.static_choices@.len() > 0 ==> exists|i: int|
                    0 <= i < field.static_choices@.len() && (#[trigger] field.static_choices@[i])@
                        == t
            }
            &&& answer is Refused && text.len() > 0 ==> match field.kind {
                ParamKind::Bool => false,
                ParamKind::Int => match parsed_int(text) {
                    Some(n) => (field.int_min matches Some(min) && n < min) || (
                    field.int_max matches Some(max) && n > max),
                    None => true,
                },
                _ => field.static_choices@.len() > 0 && forall|i: int|
                    0 <= i < field.static_choices@.len() ==> (
                    #[trigger] field.static_choices@[i])@ != text,
            }
            &&& answer matches Answer::Refused(why) ==> ("'"@ + field.name@ + "'"@).is_prefix_of(
                why,
            )
        }),
{
    let text = trimmed(field.value@);
    let choices = views(field.static_choices@);
    if let Answer::Given(t) = field.answer() {
        if field.kind == ParamKind::Int {
            a_number_reads_back(parsed_int(text)->0);
        } else if field.kind != ParamKind::Bool && field.static_choices@.len() > 0 {
            let i = choose|i: int| 0 <= i < choices.len() && choices[i] == text;
            assert(field.static_choices@[i]@ == text);
        }
    }
    if let Answer::Refused(why) = field.answer() {
        reveal_strlit("'");
        reveal_strlit("' is required");
        reveal_strlit("' must be an integer (got '");
        reveal_strlit("' must be >= ");
        reveal_strlit("' must be <= ");
        reveal_strlit("' must be one of [");
        let quoted = "'"@ + field.name@ + "'"@;
        assert(quoted.is_prefix_of(why));
        assert forall|i: int| 0 <= i < choices.len() implies (
        #[trigger] field.static_choices@[i])@ == choices[i] by {}
    }
}

/// Fields that show different values are not submitted as the same one.
pub proof fn different_values_give_different_answers(a: Field, b: Field)
    requires
        a.kind == b.kind,
        a.answer() is Given,
        b.answer() is Given,
        a.kind != ParamKind::Int ==> trimmed(a.value@) != trimmed(b.value@),
        a.kind == ParamKind::Int ==> parsed_int(trimmed(a.value@)) != parsed_int(
            trimmed(b.value@),
        ),
    ensures
        a.answer() != b.answer(),
{
    an_answer_is_what_was_entered(a);
    an_answer_is_what_was_entered(b);
}

proof fn lemma_submission(fields: Seq<Field>, i: int)
    requires
        0 <= i < fields.len(),
        forall|j: int| i < j < fields.len() ==> (#[trigger] fields[j]).name@ != fields[i].name@,
    ensures
        submission(fields) matches Ok(answers) ==> match fields[i].answer() {
            Answer::Given(text) => answers.contains_key(fields[i].name@)
                && answers[fields[i].name@] == text,
            Answer::Skipped => true,
            Answer::Refused(why) => false,
        },
    decreases fields.len(),
{
    let front = fields.drop_last();
    if i < front.len() {
        assert(front[i] == fields[i]);
        assert forall|j: int| i < j < front.len() implies (#[trigger] front[j]).name@
            != front[i].name@ by {
            assert(front[j] == fields[j]);
        }
        lemma_submission(front, i);
        assert(fields[fields.len() - 1].name@ != fields[i].name@);
    }
}

/// A form that is submitted hands on the answer of every field that gave one,
/// under the field's name, and nothing else: no field of it was refused.
pub proof fn a_submission_is_its_fields_answers(fields: Seq<Field>, i: int)
    requires
        submission(fields) is Ok,
        0 <= i < fields.len(),
        forall|a: int, b: int|
            0 <= a < b < fields.len() ==> (#[trigger] fields[a]).name@ != (
            #[trigger] fields[b]).name@,
    ensures
        ({
            let answers = submission(fields)->Ok_0;
            let name = fields[i].name@;
            &&& !(fields[i].answer() is Refused)
            &&& fields[i].answer() matches Answer::Given(text) ==> answers.contains_key(name)
                && answers[name] == text
            &&& fields[i].answer() is Skipped ==> !answers.contains_key(name)
            &&& forall|other: Seq<char>| #[trigger]
                answers.contains_key(other) ==> exists|k: int|
                    0 <= k < fields.len() && (#[trigger] fields[k]).name@ == other
                        && fields[k].answer() is Given
        }),
{
    lemma_submission(fields, i);
    lemma_submitted_names(fields);
    let answers = submission(fields)->Ok_0;
    if fields[i].answer() is Skipped && answers.contains_key(fields[i].name@) {
        let k = choose|k: int|
            0 <= k < fields.len() && (#[trigger] fields[k]).name@ == fields[i].name@
                && fields[k].answer() is Given;
        assert(k == i);
    }
}

proof fn lemma_submitted_names(fields: Seq<Field>)
    ensures
        submission(fields) matches Ok(answers) ==> forall|other: Seq<char>| #[trigger]
            answers.contains_key(other) ==> exists|k: int|
                0 <= k < fields.len() && (#[trigger] fields[k]).name@ == other
                    && fields[k].answer() is Given,
    decreases fields.len(),
{
    if fields.len() > 0 && submission(fields) is Ok {
        let front = fields.drop_last();
        lemma_submitted_names(front);
        let before = submission(front)->Ok_0;
        let answers = submission(fields)->Ok_0;
        assert forall|other: Seq<char>| #[trigger] answers.contains_key(other) implies exists|
            k: int,
        |
            0 <= k < fields.len() && (#[trigger] fields[k]).name@ == other
                && fields[k].answer() is Given by {
            if before.contains_key(other) {
                let k = choose|k: int|
                    0 <= k < front.len() && (#[trigger] front[k]).name@ == other
                        && front[k].answer() is Given;
                assert(fields[k] == front[k]);
            } else {
                assert(fields[fields.len() - 1].name@ == other);
            }
        }
    }
}

/// A form is refused for the first of its fields that is, in that field's words,
/// and for no other reason.
pub proof fn the_first_fault_is_reported(fields: Seq<Field>)
    ensures
        match submission(fields) {
            Err(why) => exists|i: int|
                {
                    &&& 0 <= i < fields.len()
                    &&& (#[trigger] fields[i]).answer() == Answer::Refused(why)
                    &&& forall|j: int| 0 <= j < i ==> !((#[trigger] fields[j]).answer() is Refused)
                },
            Ok(answers) => forall|j: int|
                0 <= j < fields.len() ==> !((#[trigger] fields[j]).answer() is Refused),
        },
    decreases fields.len(),
{
    if fields.len() > 0 {
        let front = fields.drop_last();
        the_first_fault_is_reported(front);
        assert forall|j: int| 0 <= j < front.len() implies #[trigger] fields[j] == front[j] by {}
        match submission(front) {
            Err(why) => {
                let i = choose|i: int|
                    {
                        &&& 0 <= i < front.len()
                        &&& (#[trigger] front[i]).answer() == Answer::Refused(why)
                        &&& forall|j: int|
                            0 <= j < i ==> !((#[trigger] front[j]).answer() is Refused)
                    };
                assert(fields[i] == front[i]);
            },
            Ok(_) => {
                assert(fields[fields.len() - 1] == fields.last());
                assert forall|j: int| 0 <= j < front.len() implies !((
                #[trigger] fields[j]).answer() is Refused) by {
                    assert(front[j] == fields[j]);
                }
            },
        }
    }
}

/// A field that is submitted as it came gives its parameter's default, and one
/// without a default is refused if its parameter asks for an answer and skipped
/// if it does not.
pub proof fn an_untouched_field_gives_its_default(field: Field, param: TaskParam)
    requires
        field.starts_as(param),
    ensures
        match param.default {
            Some(value) => param.kind != ParamKind::Int ==> (field.answer() matches Answer::Given(
                text,
            ) ==> text == trimmed(value@)),
            None => if param.required {
                field.answer() is Refused
            } else {
                field.answer() is Skipped
            },
        },
        param.kind == ParamKind::Int && param.validate is Some ==> (
        field.answer() matches Answer::Given(text) ==> (param.validate->0.min matches Some(min)
            ==> parsed_int(text)->0 >= min) && (param.validate->0.max matches Some(max)
            ==> parsed_int(text)->0 <= max)),
        field.answer() matches Answer::Refused(why) ==> ("'"@ + param.name@ + "'"@).is_prefix_of(
            why,
        ),
{
    an_answer_is_what_was_entered(field);
}

/// A number is stepped by exactly what is asked for where that lies within its
/// bounds, and to the bound where it does not.
pub proof fn a_step_goes_its_way_within_bounds(field: Field, delta: int)
    requires
        field.kind == ParamKind::Int,
        field.number() is Some,
        i64::MIN <= field.number()->0 + delta <= i64::MAX,
        field.int_min is Some && field.int_max is Some ==> field.int_min->0 <= field.int_max->0,
    ensures
        ({
            let n = field.number()->0;
            let low = field.int_min matches Some(min) ==> min <= n + delta;
            let high = field.int_max matches Some(max) ==> n + delta <= max;
            &&& parsed_int(field.stepped(delta)) matches Some(after)
            &&& low && high ==> after == n + delta
            &&& !low ==> after == field.int_min->0
            &&& !high ==> after == field.int_max->0
        }),
{
    let n = bounded(field.number()->0 + delta, field.int_min, field.int_max);
    a_number_reads_back(n);
}

/// Only a number is stepped, and only a yes-or-no field flipped.
pub proof fn other_fields_are_left_alone(field: Field, delta: int)
    ensures
        field.kind != ParamKind::Int ==> field.stepped(delta) == field.value@,
        field.number() is None ==> field.stepped(delta) == field.value@,
        field.kind != ParamKind::Bool ==> field.flipped() == field.value@,
        field.kind == ParamKind::Bool ==> field.flipped() == "true"@ || field.flipped()
            == "false"@,
        field.kind == ParamKind::Bool && trimmed(field.value@) == "false"@ ==> field.flipped()
            == "true"@,
{
    reveal_strlit("true");
    reveal_strlit("false");
    assert("true"@.len() != "false"@.len());
}

/// Moving on goes to the next field and from the last to the first; moving back
/// goes the other way.
pub proof fn the_fields_go_round(focus: int, n: int)
    requires
        0 <= focus < n,
    ensures
        focus + 1 < n ==> FormState::field_after(focus, n) == focus + 1,
        focus + 1 == n ==> FormState::field_after(focus, n) == 0,
        focus > 0 ==> FormState::field_before(focus, n) == focus - 1,
        focus == 0 ==> FormState::field_before(focus, n) == n - 1,
{
    if focus + 1 == n {
        vstd::arithmetic::div_mod::lemma_mod_self_0(n);
    } else {
        vstd::arithmetic::div_mod::lemma_small_mod((focus + 1) as nat, n as nat);
    }
}

/// The highlighted candidate is the one that is accepted, and it is one of those
/// that are shown; it always stands in the window, however short.
pub proof fn the_highlighted_candidate_is_taken(field: Field, rows: int)
    requires
        field.shown().len() > 0,
        rows > 0,
    ensures
        field.shown().contains(field.accepted()),
        field.candidate_highlight < field.shown().len() ==> field.accepted()
            == field.shown()[field.candidate_highlight as int],
        field.candidate_highlight >= field.shown().len() ==> field.accepted()
            == field.shown().last(),
        0 <= field.window_start(rows) <= field.chosen() < field.window_start(rows) + rows,
        field.chosen() < rows ==> field.window_start(rows) == 0,
        rows <= field.shown().len() ==> field.window_start(rows) + rows <= field.shown().len(),
        rows > field.shown().len() ==> field.window_start(rows) == 0,
{
    assert(field.shown()[field.chosen()] == field.accepted());
}

/// A parameter's field is the first that has its name.
pub proof fn a_field_is_found_by_its_name(fields: Seq<Field>, name: Seq<char>)
    ensures
        match field_named(fields, name) {
            Some(i) => {
                &&& 0 <= i < fields.len()
                &&& fields[i].name@ == name
                &&& forall|j: int| 0 <= j < i ==> (#[trigger] fields[j]).name@ != name
            },
            None => forall|j: int| 0 <= j < fields.len() ==> (#[trigger] fields[j]).name@ != name,
        },
    decreases fields.len(),
{
    if fields.len() > 0 {
        let front = fields.drop_last();
        a_field_is_found_by_its_name(front, name);
        assert forall|j: int| 0 <= j < front.len() implies #[trigger] fields[j] == front[j] by {}
    }
}

/// Asking for candidates touches nothing but what is said of the candidates of
/// that field: every value stays as it was typed.
pub proof fn asking_changes_no_value(fields: Seq<Field>, param: Seq<char>, i: int)
    requires
        0 <= i < fields.len(),
    ensures
        FormState::fields_loading(fields, param).len() == fields.len(),
        FormState::fields_loading(fields, param)[i].value == fields[i].value,
        FormState::fields_loading(fields, param)[i].name == fields[i].name,
        field_named(fields, param) == Some(i) ==> FormState::fields_loading(
            fields,
            param,
        )[i].candidates is Loading,
        fields[i].name@ != param ==> FormState::fields_loading(fields, param)[i] == fields[i],
{
    a_field_is_found_by_its_name(fields, param);
}

/// The candidates that are offered are those that what was typed finds, and all
/// of them before anything is typed.
pub proof fn candidates_are_offered_by_what_is_typed(field: Field, candidate: Seq<char>)
    ensures
        field.value@.len() == 0 ==> field.shown() == field.candidates.names(),
        field.shown().contains(candidate) <==> field.candidates.names().contains(candidate)
            && matches_query(field.value@, candidate),
{
    a_query_keeps_what_it_finds(field.value@, field.candidates.names(), candidate);
}

/// A field asks in its parameter's words, or by its name, and offers the choices
/// that the parameter has.
pub proof fn a_field_asks_in_its_parameters_words(field: Field, param: TaskParam)
    requires
        field.starts_as(param),
    ensures
        param.prompt matches Some(prompt) ==> field.prompt@ == prompt@,
        param.prompt is None ==> field.prompt@ == param.name@,
        field.name@ == param.name@,
        param.choices@.len() > 0 ==> field.candidates.names() == views(param.choices@),
        param.choices@.len() == 0 ==> field.candidates.names().len() == 0,
        param.default matches Some(value) ==> field.value@ == value@,
        param.default is None ==> field.value@.len() == 0,
        field.has_dynamic_completions <==> param.completions is Some,
{
}

} // verus!
