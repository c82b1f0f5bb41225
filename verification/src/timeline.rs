//! Named scenarios: how they are scheduled, and the timeline of their cues and
//! checks.

use crate::order::{
    arranged, as_ints, order_of, sorting_keeps_items, stable_order, stable_order_exists,
    stably_sorted,
};
use crate::scalar::Wide;
use crate::text::{push_signed, same_text, signed_text};
use vstd::prelude::*;

verus! {

/// How a scenario's times are written.
#[derive(Clone, Copy, Debug, PartialEq, Eq, Structural)]
pub enum Schedule {
    /// Offsets from scenario start.
    Relative,
    /// Calendar or wall times.
    Absolute,
}

impl Schedule {
    pub open spec fn spec_parse(s: Seq<char>) -> Option<Schedule> {
        if s == "relative"@ {
            Some(Schedule::Relative)
        } else if s == "absolute"@ {
            Some(Schedule::Absolute)
        } else {
            None
        }
    }

    pub fn parse(s: &str) -> (out: Option<Self>)
        ensures
            out == Self::spec_parse(s@),
    {
        if same_text(s, "relative") {
            Some(Schedule::Relative)
        } else if same_text(s, "absolute") {
            Some(Schedule::Absolute)
        } else {
            None
        }
    }
}

/// How time advances while a scenario runs.
#[derive(Clone, Copy, Debug, PartialEq, Eq, Structural)]
pub enum ClockDriver {
    /// Wall clock.
    Real,
    /// A clock that the host advances.
    Stepped,
}

impl ClockDriver {
    pub open spec fn spec_parse(s: Seq<char>) -> Option<ClockDriver> {
        if s == "real"@ {
            Some(ClockDriver::Real)
        } else if s == "stepped"@ {
            Some(ClockDriver::Stepped)
        } else {
            None
        }
    }

    pub fn parse(s: &str) -> (out: Option<Self>)
        ensures
            out == Self::spec_parse(s@),
    {
        if same_text(s, "real") {
            Some(ClockDriver::Real)
        } else if same_text(s, "stepped") {
            Some(ClockDriver::Stepped)
        } else {
            None
        }
    }
}

#[derive(Clone, Copy, Debug, PartialEq, Eq, Structural)]
pub enum TimelineKind {
    Cue,
    Check,
}

/// One scheduled item: a timed action or a timed assertion.
#[derive(Debug)]
pub struct TimelineEntry {
    pub kind: TimelineKind,
    /// Seconds from scenario start.
    pub at_s: Wide,
    pub label: String,
    /// The asserted component and metric of a check.
    pub component: Option<i64>,
    pub metric: Option<String>,
}

impl Clone for TimelineEntry {
    fn clone(&self) -> (out: Self)
        ensures
            out == *self,
    {
        TimelineEntry {
            kind: self.kind,
            at_s: self.at_s,
            label: self.label.clone(),
            component: self.component,
            metric: match &self.metric {
                Some(m) => Some(m.clone()),
                None => None,
            },
        }
    }
}

/// A section form: the part of the scripting language's values that the
/// timeline reads. A whole number also carries its double-precision reading.
#[derive(Debug)]
pub enum Form {
    Symbol(String),
    Text(String),
    Int(i64, Wide),
    Real(Wide),
    List(Vec<Form>),
    Other,
}

impl Form {
    /// A symbol of that name.
    pub open spec fn is_symbol(self, name: Seq<char>) -> bool {
        self matches Form::Symbol(s) && s@ == name
    }

    pub open spec fn spec_number(self) -> Option<Wide> {
        match self {
            Form::Int(_, w) => Some(w),
            Form::Real(w) => Some(w),
            _ => None,
        }
    }

    /// The value as a double, where it is a number.
    pub fn number(&self) -> (out: Option<Wide>)
        ensures
            out == self.spec_number(),
    {
        match self {
            Form::Int(_, w) => Some(*w),
            Form::Real(w) => Some(*w),
            _ => None,
        }
    }

    pub open spec fn spec_integer(self) -> Option<i64> {
        match self {
            Form::Int(n, _) => Some(n),
            _ => None,
        }
    }

    /// The value as an integer, where it is one.
    pub fn integer(&self) -> (out: Option<i64>)
        ensures
            out == self.spec_integer(),
    {
        match self {
            Form::Int(n, _) => Some(*n),
            _ => None,
        }
    }

    pub open spec fn spec_word(self) -> Option<Seq<char>> {
        match self {
            Form::Symbol(s) => Some(s@),
            Form::Text(s) => Some(s@),
            _ => None,
        }
    }

    /// The value as text, where it is a symbol or a string.
    pub fn word(&self) -> (out: Option<String>)
        ensures
            out is Some == self.spec_word() is Some,
            out matches Some(s) ==> self.spec_word() == Some(s@),
    {
        match self {
            Form::Symbol(s) => Some(s.clone()),
            Form::Text(s) => Some(s.clone()),
            _ => None,
        }
    }
}

/// The position of the value behind the first key `key` of a property list,
/// reading `items` in pairs from `from`; `items.len()` where the key is last
/// or absent.
pub open spec fn value_position(items: Seq<Form>, from: int, key: Seq<char>) -> int
    decreases items.len() - from + 1,
{
    if from >= items.len() || from < 0 {
        items.len() as int
    } else if items[from].is_symbol(key) {
        from + 1
    } else {
        value_position(items, from + 2, key)
    }
}

/// The value of `key` in a property list.
pub open spec fn property(form: Form, key: Seq<char>) -> Option<Form> {
    match form {
        Form::List(items) => {
            let p = value_position(items@, 0, key);
            if p < items@.len() {
                Some(items@[p])
            } else {
                None
            }
        },
        _ => None,
    }
}

/// Reads a value from a property list by key.
pub fn plist_get<'a>(form: &'a Form, key: &str) -> (out: Option<&'a Form>)
    ensures
        out is Some == property(*form, key@) is Some,
        out matches Some(v) ==> property(*form, key@) == Some(*v),
{
    match form {
        Form::List(items) => {
            let mut i: usize = 0;
            while i < items.len()
                invariant
                    0 <= i,
                    value_position(items@, 0, key@) == value_position(items@, i as int, key@),
                    *form == Form::List(*items),
                    items.len() <= usize::MAX,
                decreases items.len() - i,
            {
                if let Form::Symbol(s) = &items[i] {
                    if same_text(s.as_str(), key) {
                        if i + 1 < items.len() {
                            return Some(&items[i + 1]);
                        } else {
                            return None;
                        }
                    }
                }
                if items.len() - i <= 2 {
                    assert(value_position(items@, i + 2, key@) == items@.len());
                    return None;
                }
                i = i + 2;
            }
            None
        },
        _ => None,
    }
}

/// When a section form is due.
pub open spec fn due(form: Form) -> Option<Wide> {
    match property(form, ":at-s"@) {
        Some(v) => v.spec_number(),
        None => None,
    }
}

/// The forms that are due at some time.
pub open spec fn timed(forms: Seq<Form>) -> Seq<Form>
    decreases forms.len(),
{
    if forms.len() == 0 {
        Seq::empty()
    } else if due(forms.last()) is Some {
        timed(forms.drop_last()).push(forms.last())
    } else {
        timed(forms.drop_last())
    }
}

/// A field of a check's expectation.
pub open spec fn expected(form: Form, key: Seq<char>) -> Option<Form> {
    match property(form, ":expect"@) {
        Some(spec_form) => property(spec_form, key),
        None => None,
    }
}

pub open spec fn expected_component(form: Form) -> Option<i64> {
    match expected(form, ":component"@) {
        Some(v) => v.spec_integer(),
        None => None,
    }
}

pub open spec fn expected_metric(form: Form) -> Option<Seq<char>> {
    match expected(form, ":metric"@) {
        Some(v) => v.spec_word(),
        None => None,
    }
}

/// `entry` is the timeline entry of the cue `form`, `show` writing its time.
pub open spec fn is_cue<F: Fn(Wide) -> String>(
    show: F,
    form: Form,
    entry: TimelineEntry,
) -> bool {
    &&& entry.kind == TimelineKind::Cue
    &&& due(form) == Some(entry.at_s)
    &&& exists|t: String| #[trigger]
        call_ensures(show, (entry.at_s,), t) && entry.label@ == "cue @"@ + t@ + "s"@
    &&& entry.component is None
    &&& entry.metric is None
}

/// The label of a check.
pub open spec fn check_label(component: Option<i64>, metric: Option<Seq<char>>) -> Seq<char> {
    match (component, metric) {
        (Some(c), Some(m)) => "check "@ + signed_text(c as int) + " "@ + m,
        _ => "check"@,
    }
}

/// `entry` is the timeline entry of the check `form`.
pub open spec fn is_check(form: Form, entry: TimelineEntry) -> bool {
    &&& entry.kind == TimelineKind::Check
    &&& due(form) == Some(entry.at_s)
    &&& entry.component == expected_component(form)
    &&& (entry.metric is Some) == (expected_metric(form) is Some)
    &&& entry.metric matches Some(m) ==> expected_metric(form) == Some(m@)
    &&& entry.label@ == check_label(expected_component(form), expected_metric(form))
}

pub open spec fn due_ranks(entries: Seq<TimelineEntry>) -> Seq<int> {
    entries.map_values(|e: TimelineEntry| e.at_s.spec_rank())
}

/// `entries` holds the timed cues, then the timed checks, in their written
/// order.
pub open spec fn lists_items<F: Fn(Wide) -> String>(
    show: F,
    cues: Seq<Form>,
    checks: Seq<Form>,
    entries: Seq<TimelineEntry>,
) -> bool {
    let n = timed(cues).len();
    &&& entries.len() == n + timed(checks).len()
    &&& forall|i: int| 0 <= i < n ==> is_cue(show, timed(cues)[i], #[trigger] entries[i])
    &&& forall|i: int|
        n <= i < entries.len() ==> is_check(timed(checks)[i - n], #[trigger] entries[i])
}

/// `out` is the timeline: the items ordered by time, those due at the same
/// time in their written order.
pub open spec fn is_timeline<F: Fn(Wide) -> String>(
    show: F,
    cues: Seq<Form>,
    checks: Seq<Form>,
    out: Seq<TimelineEntry>,
) -> bool {
    exists|entries: Seq<TimelineEntry>| #[trigger]
        lists_items(show, cues, checks, entries) && out == stably_sorted(
            entries,
            due_ranks(entries),
        )
}

fn check_entry(form: &Form, at_s: Wide) -> (out: TimelineEntry)
    requires
        due(*form) == Some(at_s),
    ensures
        is_check(*form, out),
{
    let expectation = plist_get(form, ":expect");
    let component = match expectation {
        Some(e) => match plist_get(e, ":component") {
            Some(v) => v.integer(),
            None => None,
        },
        None => None,
    };
    let metric = match expectation {
        Some(e) => match plist_get(e, ":metric") {
            Some(v) => v.word(),
            None => None,
        },
        None => None,
    };
    let label = match (component, &metric) {
        (Some(c), Some(m)) => {
            let mut label = String::from_str("check ");
            push_signed(&mut label, c);
            label.append(" ");
            label.append(m.as_str());
            label
        },
        _ => String::from_str("check"),
    };
    TimelineEntry { kind: TimelineKind::Check, at_s, label, component, metric }
}

fn due_of(form: &Form) -> (out: Option<Wide>)
    ensures
        out == due(*form),
{
    match plist_get(form, ":at-s") {
        Some(v) => v.number(),
        None => None,
    }
}

/// The cues and checks of a scenario, ordered by time; `show` writes a time.
pub fn build_timeline<F: Fn(Wide) -> String>(cues: &Vec<Form>, expect: &Vec<Form>, show: F) -> (out:
    Vec<TimelineEntry>)
    requires
        forall|w: Wide| call_requires(show, (w,)),
    ensures
        is_timeline(show, cues@, expect@, out@),
{
    let mut entries: Vec<TimelineEntry> = Vec::new();
    let mut i: usize = 0;
    while i < cues.len()
        invariant
            i <= cues.len(),
            forall|w: Wide| call_requires(show, (w,)),
            entries.len() == timed(cues@.subrange(0, i as int)).len(),
            forall|k: int|
                0 <= k < entries.len() ==> is_cue(
                    show,
                    timed(cues@.subrange(0, i as int))[k],
                    #[trigger] entries[k],
                ),
        decreases cues.len() - i,
    {
        assert(cues@.subrange(0, i + 1).drop_last() =~= cues@.subrange(0, i as int));
        if let Some(at_s) = due_of(&cues[i]) {
            let text = show(at_s);
            let mut label = String::from_str("cue @");
            label.append(text.as_str());
            label.append("s");
            let entry = TimelineEntry {
                kind: TimelineKind::Cue,
                at_s,
                label,
                component: None,
                metric: None,
            };
            assert(is_cue(show, cues@[i as int], entry)) by {
                assert(call_ensures(show, (entry.at_s,), text));
            }
            entries.push(entry);
        }
        i = i + 1;
    }
    assert(cues@.subrange(0, cues@.len() as int) =~= cues@);
    let ghost n = timed(cues@).len();
    let mut j: usize = 0;
    while j < expect.len()
        invariant
            j <= expect.len(),
            n == timed(cues@).len(),
            entries.len() == n + timed(expect@.subrange(0, j as int)).len(),
            forall|k: int|
                0 <= k < n ==> is_cue(show, timed(cues@)[k], #[trigger] entries[k]),
            forall|k: int|
                n <= k < entries.len() ==> is_check(
                    timed(expect@.subrange(0, j as int))[k - n],
                    #[trigger] entries[k],
                ),
        decreases expect.len() - j,
    {
        assert(expect@.subrange(0, j + 1).drop_last() =~= expect@.subrange(0, j as int));
        if let Some(at_s) = due_of(&expect[j]) {
            let entry = check_entry(&expect[j], at_s);
            entries.push(entry);
        }
        j = j + 1;
    }
    assert(expect@.subrange(0, expect@.len() as int) =~= expect@);
    assert(lists_items(show, cues@, expect@, entries@));
    sort_entries(&entries)
}

fn sort_entries(entries: &Vec<TimelineEntry>) -> (out: Vec<TimelineEntry>)
    ensures
        out@ == stably_sorted(entries@, due_ranks(entries@)),
{
    let mut keys: Vec<i64> = Vec::new();
    let mut i: usize = 0;
    while i < entries.len()
        invariant
            i <= entries.len(),
            keys.len() == i,
            forall|k: int| 0 <= k < i ==> #[trigger] keys[k] == entries[k].at_s.spec_rank(),
        decreases entries.len() - i,
    {
        keys.push(entries[i].at_s.rank());
        i = i + 1;
    }
    let order = stable_order(&keys);
    assert(as_ints(keys@) =~= due_ranks(entries@));
    let mut out: Vec<TimelineEntry> = Vec::new();
    let mut j: usize = 0;
    while j < order.len()
        invariant
            j <= order.len(),
            out.len() == j,
            order.len() == entries.len(),
            forall|k: int| 0 <= k < order.len() ==> 0 <= #[trigger] order[k] < entries.len(),
            forall|k: int| 0 <= k < j ==> #[trigger] out[k] == entries[order[k] as int],
        decreases order.len() - j,
    {
        out.push(entries[order[j]].clone());
        j = j + 1;
    }
    proof {
        let ord = order_of(due_ranks(entries@));
        assert forall|k: int| 0 <= k < out.len() implies #[trigger] out[k] == arranged(
            entries@,
            ord,
        )[k] by {
            assert(ord[k] == order[k]);
        }
        assert(out@ =~= arranged(entries@, ord));
    }
    out
}

/// A timeline runs forward: no entry is due before one that stands ahead of
/// it.
pub proof fn timeline_ascends<F: Fn(Wide) -> String>(
    show: F,
    cues: Seq<Form>,
    checks: Seq<Form>,
    out: Seq<TimelineEntry>,
    i: int,
    j: int,
)
    requires
        is_timeline(show, cues, checks, out),
        0 <= i <= j < out.len(),
    ensures
        out.len() == timed(cues).len() + timed(checks).len(),
        out[i].at_s.spec_rank() <= out[j].at_s.spec_rank(),
{
    let entries = choose|entries: Seq<TimelineEntry>| #[trigger]
        lists_items(show, cues, checks, entries) && out == stably_sorted(
            entries,
            due_ranks(entries),
        );
    let keys = due_ranks(entries);
    let order = order_of(keys);
    crate::order::stable_order_exists(keys);
    assert(keys[order[i]] == out[i].at_s.spec_rank());
    assert(keys[order[j]] == out[j].at_s.spec_rank());
}

/// A key of a property list has the value that stands behind it; the first
/// place where the key stands counts, and only every second item is a key.
pub proof fn properties_stand_behind_their_keys(
    form: Form,
    items: Seq<Form>,
    key: Seq<char>,
    k: int,
)
    requires
        form matches Form::List(list) && list@ == items,
        0 <= k,
        2 * k < items.len(),
        items[2 * k].is_symbol(key),
        forall|i: int| 0 <= i < k ==> !(#[trigger] items[2 * i]).is_symbol(key),
    ensures
        2 * k + 1 < items.len() ==> property(form, key) == Some(items[2 * k + 1]),
        2 * k + 1 == items.len() ==> property(form, key) is None,
{
    position_of_key(items, 0, key, k);
}

proof fn position_of_key(items: Seq<Form>, from: int, key: Seq<char>, k: int)
    requires
        0 <= from <= k,
        2 * k < items.len(),
        items[2 * k].is_symbol(key),
        forall|i: int| 0 <= i < k ==> !(#[trigger] items[2 * i]).is_symbol(key),
    ensures
        value_position(items, 2 * from, key) == 2 * k + 1,
    decreases k - from,
{
    if from < k {
        assert(!items[2 * from].is_symbol(key));
        position_of_key(items, from + 1, key, k);
    }
}

/// A form without the key among its keys, or that is no list, has no such
/// property.
pub proof fn missing_key_has_no_value(form: Form, key: Seq<char>)
    requires
        form matches Form::List(list) ==> forall|i: int|
            0 <= 2 * i < list@.len() ==> !(#[trigger] list@[2 * i]).is_symbol(key),
    ensures
        property(form, key) is None,
{
    if let Form::List(list) = form {
        no_position(list@, 0, key);
    }
}

proof fn no_position(items: Seq<Form>, from: int, key: Seq<char>)
    requires
        0 <= from,
        forall|i: int| 0 <= 2 * i < items.len() ==> !(#[trigger] items[2 * i]).is_symbol(key),
    ensures
        value_position(items, 2 * from, key) >= items.len(),
    decreases items.len() - from,
{
    if 2 * from < items.len() {
        assert(!items[2 * from].is_symbol(key));
        no_position(items, from + 1, key);
    }
}

/// Only a number can be when something is due, and only a whole one can be a
/// component; a word is a symbol or a text.
pub proof fn forms_are_read_by_kind(f: Form)
    ensures
        f matches Form::Int(n, w) ==> f.spec_number() == Some(w) && f.spec_integer() == Some(n)
            && f.spec_word() is None,
        f matches Form::Real(w) ==> f.spec_number() == Some(w) && f.spec_integer() is None
            && f.spec_word() is None,
        f matches Form::Symbol(s) ==> f.spec_word() == Some(s@) && f.spec_number() is None
            && f.spec_integer() is None,
        f matches Form::Text(s) ==> f.spec_word() == Some(s@) && f.spec_number() is None
            && f.spec_integer() is None,
        f is List || f is Other ==> f.spec_word() is None && f.spec_number() is None
            && f.spec_integer() is None,
{
}

/// What is timed are the forms that say when they are due, in their order.
pub proof fn timed_forms_are_due(forms: Seq<Form>)
    ensures
        timed(forms) == forms.filter(
            |f: Form| property(f, ":at-s"@) matches Some(v) && v.spec_number() is Some,
        ),
    decreases forms.len(),
{
    reveal(Seq::filter);
    if forms.len() > 0 {
        timed_forms_are_due(forms.drop_last());
    }
}

/// Cues come before checks that are due at the same time.
pub proof fn cues_come_before_checks<F: Fn(Wide) -> String>(
    show: F,
    cues: Seq<Form>,
    checks: Seq<Form>,
    out: Seq<TimelineEntry>,
    i: int,
    j: int,
)
    requires
        is_timeline(show, cues, checks, out),
        0 <= i < j < out.len(),
        out[i].kind == TimelineKind::Check,
        out[j].kind == TimelineKind::Cue,
    ensures
        out[i].at_s.spec_rank() < out[j].at_s.spec_rank(),
{
    let entries = choose|entries: Seq<TimelineEntry>| #[trigger]
        lists_items(show, cues, checks, entries) && out == stably_sorted(
            entries,
            due_ranks(entries),
        );
    let keys = due_ranks(entries);
    stable_order_exists(keys);
    let order = order_of(keys);
    let n = timed(cues).len();
    assert(out[i] == entries[order[i]]);
    assert(out[j] == entries[order[j]]);
    if order[i] < n {
        assert(is_cue(show, timed(cues)[order[i]], entries[order[i]]));
    }
    if order[j] >= n {
        assert(is_check(timed(checks)[order[j] - n], entries[order[j]]));
    }
}

/// Every timed cue and check stands on the timeline, at the time it is due.
pub proof fn timeline_holds_every_item<F: Fn(Wide) -> String>(
    show: F,
    cues: Seq<Form>,
    checks: Seq<Form>,
    out: Seq<TimelineEntry>,
    k: int,
)
    requires
        is_timeline(show, cues, checks, out),
    ensures
        0 <= k < timed(cues).len() ==> exists|i: int|
            0 <= i < out.len() && (#[trigger] out[i]).kind == TimelineKind::Cue && due(
                timed(cues)[k],
            ) == Some(out[i].at_s),
        0 <= k < timed(checks).len() ==> exists|i: int|
            0 <= i < out.len() && (#[trigger] out[i]).kind == TimelineKind::Check && due(
                timed(checks)[k],
            ) == Some(out[i].at_s) && out[i].component == expected_component(timed(checks)[k]),
{
    let entries = choose|entries: Seq<TimelineEntry>| #[trigger]
        lists_items(show, cues, checks, entries) && out == stably_sorted(
            entries,
            due_ranks(entries),
        );
    let keys = due_ranks(entries);
    sorting_keeps_items(entries, keys);
    broadcast use vstd::seq_lib::group_to_multiset_ensures;

    let n = timed(cues).len();
    if 0 <= k < n {
        let e = entries[k];
        assert(is_cue(show, timed(cues)[k], entries[k]));
        assert(entries.contains(e));
        assert(out.to_multiset().count(e) > 0);
        assert(out.contains(e));
        let i = choose|i: int| 0 <= i < out.len() && out[i] == e;
        assert(out[i].kind == TimelineKind::Cue);
    }
    if 0 <= k < timed(checks).len() {
        let e = entries[n + k];
        assert(is_check(timed(checks)[k], entries[n + k]));
        assert(entries.contains(e));
        assert(out.to_multiset().count(e) > 0);
        assert(out.contains(e));
        let i = choose|i: int| 0 <= i < out.len() && out[i] == e;
        assert(out[i].kind == TimelineKind::Check);
    }
}

/// A check that names a component and a metric is labelled by both; any other is
/// just a check.
pub proof fn checks_are_labelled_by_their_subject(c: i64, m: Seq<char>)
    ensures
        check_label(Some(c), Some(m)) == "check "@ + signed_text(c as int) + " "@ + m,
        check_label(None, Some(m)) == "check"@,
        check_label(Some(c), None) == "check"@,
        check_label(None, None) == "check"@,
{
}

/// The words for schedules and clocks tell the two kinds apart.
pub proof fn schedule_words_are_read(s: Seq<char>)
    ensures
        Schedule::spec_parse(s) == Some(Schedule::Relative) <==> s == "relative"@,
        Schedule::spec_parse(s) == Some(Schedule::Absolute) <==> s == "absolute"@,
        ClockDriver::spec_parse(s) == Some(ClockDriver::Real) <==> s == "real"@,
        ClockDriver::spec_parse(s) == Some(ClockDriver::Stepped) <==> s == "stepped"@,
{
    reveal_strlit("relative");
    reveal_strlit("absolute");
    reveal_strlit("real");
    reveal_strlit("stepped");
    assert("relative"@[0] != "absolute"@[0]);
    assert("real"@[0] != "stepped"@[0]);
}

/// An entry tells its form: a cue has no subject, a check the component and the
/// metric that it expects something of, and both the time that they are due.
pub proof fn entries_tell_their_forms<F: Fn(Wide) -> String>(
    show: F,
    form: Form,
    entry: TimelineEntry,
)
    ensures
        is_cue(show, form, entry) ==> entry.kind == TimelineKind::Cue && entry.component is None
            && entry.metric is None && due(form) == Some(entry.at_s),
        is_check(form, entry) ==> entry.kind == TimelineKind::Check && due(form) == Some(
            entry.at_s,
        ),
        is_check(form, entry) ==> (property(form, ":expect"@) is None ==> entry.component is None
            && entry.metric is None),
        is_check(form, entry) ==> (property(form, ":expect"@) matches Some(what) ==> {
            &&& property(what, ":component"@) matches Some(v) ==> entry.component
                == v.spec_integer()
            &&& property(what, ":metric"@) matches Some(v) ==> (v.spec_word() matches Some(w) ==> (
            entry.metric matches Some(m) && m@ == w))
            &&& property(what, ":component"@) is None ==> entry.component is None
            &&& property(what, ":metric"@) is None ==> entry.metric is None
        }),
{
}

} // verus!
