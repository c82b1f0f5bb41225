//! Dispatches as clients list, create, pause and delete them.

use crate::answers::{dispatch_err_to_http, Refusal, BAD_REQUEST, CREATED, NOT_FOUND, NO_CONTENT, STATUS_OK};
use crate::dispatch::{creates, started, switches, Dispatch, DispatchChange, DispatchData, DispatchError, DispatchEvent, DispatchMetadata, DispatchStore, RecurrenceRule};
use crate::payload::{json_entries, json_to_struct, json_tree, jsonable_entries, struct_to_json, wire_entries, JsonValue, Tree, WireStruct};
use crate::target::{parse_target, target_is_valid, target_reads, target_refused, target_text, target_to_string, TargetView};
use crate::text::{chars_of, debug_quoted, decimal_text, lower_chars, lowered, push_decimal, quoted, spells};
use crate::time::{millis_round_trip, Moment, Timestamp};
use std::sync::Arc;
use vstd::prelude::*;

verus! {

/// The name of a frequency; none for an unspecified or unknown one.
pub open spec fn frequency_name(freq: i32) -> Option<Seq<char>> {
    match freq {
        1 => Some("minutely"@),
        2 => Some("hourly"@),
        3 => Some("daily"@),
        4 => Some("weekly"@),
        5 => Some("monthly"@),
        6 => Some("yearly"@),
        _ => None,
    }
}

/// A letter in upper case, as far as frequency names need it. Besides the
/// ASCII letters, the dotless i and the Kelvin sign have a capital there.
pub open spec fn capital(c: char) -> char {
    if 'a' <= c <= 'z' {
        (c as int - 32) as char
    } else if c == '\u{131}' {
        'I'
    } else if c == '\u{212a}' {
        'K'
    } else {
        c
    }
}

pub open spec fn capitals(s: Seq<char>) -> Seq<char> {
    s.map_values(|c: char| capital(c))
}

/// The frequency that a name stands for, letter case ignored.
pub open spec fn frequency_of(name: Seq<char>) -> Option<i32> {
    let big = capitals(name);
    if big == "MINUTELY"@ {
        Some(1)
    } else if big == "HOURLY"@ {
        Some(2)
    } else if big == "DAILY"@ {
        Some(3)
    } else if big == "WEEKLY"@ {
        Some(4)
    } else if big == "MONTHLY"@ {
        Some(5)
    } else if big == "YEARLY"@ {
        Some(6)
    } else {
        None
    }
}

fn capital_chars(s: &Vec<char>) -> (out: Vec<char>)
    ensures
        out@ == capitals(s@),
{
    let mut out: Vec<char> = Vec::new();
    let mut i: usize = 0;
    while i < s.len()
        invariant
            i <= s.len(),
            out.len() == i,
            forall|k: int| 0 <= k < i ==> #[trigger] out[k] == capital(s[k]),
        decreases s.len() - i,
    {
        let c = s[i];
        if 'a' <= c && c <= 'z' {
            out.push((c as u8 - 32) as char);
        } else if c == '\u{131}' {
            out.push('I');
        } else if c == '\u{212a}' {
            out.push('K');
        } else {
            out.push(c);
        }
        i = i + 1;
    }
    assert(out@ =~= capitals(s@));
    out
}

fn frequency_from_name(name: &Vec<char>) -> (out: Option<i32>)
    ensures
        out == frequency_of(name@),
{
    let big = capital_chars(name);
    if spells(&big, "MINUTELY") {
        Some(1)
    } else if spells(&big, "HOURLY") {
        Some(2)
    } else if spells(&big, "DAILY") {
        Some(3)
    } else if spells(&big, "WEEKLY") {
        Some(4)
    } else if spells(&big, "MONTHLY") {
        Some(5)
    } else if spells(&big, "YEARLY") {
        Some(6)
    } else {
        None
    }
}

/// A recurrence as a client asks for it: the name of a frequency, and every
/// how many.
#[derive(Debug)]
pub struct RecurrenceReq {
    pub freq: String,
    pub interval: Option<u32>,
}

/// The request is for a dispatch that does not recur.
pub open spec fn is_once(freq: Seq<char>) -> bool {
    freq.len() == 0 || lowered(freq) == "once"@
}

/// Every how many: at least one, and one where nothing was asked.
pub open spec fn asked_interval(interval: Option<u32>) -> u32 {
    match interval {
        Some(n) => if n < 1 {
            1
        } else {
            n
        },
        None => 1,
    }
}

pub open spec fn unknown_frequency(freq: Seq<char>) -> Seq<char> {
    "unknown recurrence frequency "@ + debug_quoted(freq)
        + "; expected once or one of the frequencies the dispatch API defines (hourly, daily, weekly, \u{2026})"@
}

/// A recurrence that can be stored.
pub open spec fn recurrence_is_valid(req: Option<RecurrenceReq>) -> bool {
    req matches Some(r) ==> is_once(r.freq@) || frequency_of(r.freq@) is Some
}

/// `rule` is what a valid request asks for: nothing for a one-off, otherwise
/// a rule with a frequency and an interval and nothing else.
pub open spec fn asks_recurrence(req: Option<RecurrenceReq>, rule: Option<RecurrenceRule>) -> bool {
    match req {
        None => rule is None,
        Some(r) => if is_once(r.freq@) {
            rule is None
        } else {
            &&& rule matches Some(x)
            &&& Some(x.freq) == frequency_of(r.freq@)
            &&& x.interval == asked_interval(r.interval)
            &&& x.end_criteria is None
            &&& x.byminutes@.len() == 0
            &&& x.byhours@.len() == 0
            &&& x.byweekdays@.len() == 0
            &&& x.bymonthdays@.len() == 0
            &&& x.bymonths@.len() == 0
        },
    }
}

/// The rule that a request asks for. An unknown frequency is refused.
pub fn recurrence_from_req(req: &Option<RecurrenceReq>) -> (out: Result<
    Option<RecurrenceRule>,
    String,
>)
    ensures
        out is Ok == recurrence_is_valid(*req),
        match out {
            Ok(rule) => asks_recurrence(*req, rule),
            Err(e) => req matches Some(r) && e@ == unknown_frequency(r.freq@),
        },
{
    let r = match req {
        Some(r) => r,
        None => {
            return Ok(None);
        },
    };
    let name = chars_of(r.freq.as_str());
    if name.len() == 0 {
        return Ok(None);
    }
    let low = lower_chars(&name);
    if spells(&low, "once") {
        return Ok(None);
    }
    match frequency_from_name(&name) {
        Some(freq) => {
            let interval: u32 = match r.interval {
                Some(n) => if n < 1 {
                    1
                } else {
                    n
                },
                None => 1,
            };
            Ok(
                Some(
                    RecurrenceRule {
                        freq,
                        interval,
                        end_criteria: None,
                        byminutes: Vec::new(),
                        byhours: Vec::new(),
                        byweekdays: Vec::new(),
                        bymonthdays: Vec::new(),
                        bymonths: Vec::new(),
                    },
                ),
            )
        },
        None => {
            let mut message = String::from_str("unknown recurrence frequency ");
            let shown = quoted(r.freq.as_str());
            message.append(shown.as_str());
            message.append(
                "; expected once or one of the frequencies the dispatch API defines (hourly, daily, weekly, \u{2026})",
            );
            Err(message)
        },
    }
}

/// How a recurrence reads; nothing where the rule does not recur.
pub open spec fn recurrence_text(rule: Option<RecurrenceRule>) -> Option<Seq<char>> {
    match rule {
        None => None,
        Some(r) => match frequency_name(r.freq) {
            None => None,
            Some(name) => Some(
                name + " \u{d7}"@ + decimal_text(
                    if r.interval < 1 {
                        1
                    } else {
                        r.interval as nat
                    },
                ),
            ),
        },
    }
}

/// A compact summary of a recurrence, such as every second day.
pub fn recurrence_to_string(rule: Option<&RecurrenceRule>) -> (out: Option<String>)
    ensures
        (match out {
            Some(s) => Some(s@),
            None => None,
        }) == recurrence_text(
            (match rule {
                Some(r) => Some(*r),
                None => None,
            }),
        ),
{
    let r = match rule {
        Some(r) => r,
        None => {
            return None;
        },
    };
    let mut out = match r.freq {
        1 => String::from_str("minutely"),
        2 => String::from_str("hourly"),
        3 => String::from_str("daily"),
        4 => String::from_str("weekly"),
        5 => String::from_str("monthly"),
        6 => String::from_str("yearly"),
        _ => {
            return None;
        },
    };
    out.append(" \u{d7}");
    let interval: u64 = if r.interval < 1 {
        1
    } else {
        r.interval as u64
    };
    push_decimal(&mut out, interval);
    Some(out)
}

/// The name that a frequency is shown by asks for that frequency.
pub proof fn frequency_names_read_back(freq: i32)
    requires
        frequency_name(freq) is Some,
    ensures
        frequency_of(frequency_name(freq)->0) == Some(freq),
        !is_once(frequency_name(freq)->0),
{
    reveal_strlit("minutely");
    reveal_strlit("hourly");
    reveal_strlit("daily");
    reveal_strlit("weekly");
    reveal_strlit("monthly");
    reveal_strlit("yearly");
    reveal_strlit("MINUTELY");
    reveal_strlit("HOURLY");
    reveal_strlit("DAILY");
    reveal_strlit("WEEKLY");
    reveal_strlit("MONTHLY");
    reveal_strlit("YEARLY");
    reveal_strlit("once");
    assert(capitals("minutely"@) =~= "MINUTELY"@);
    assert(capitals("hourly"@) =~= "HOURLY"@);
    assert(capitals("daily"@) =~= "DAILY"@);
    assert(capitals("weekly"@) =~= "WEEKLY"@);
    assert(capitals("monthly"@) =~= "MONTHLY"@);
    assert(capitals("yearly"@) =~= "YEARLY"@);
    assert("MINUTELY"@.len() == 8 && "MONTHLY"@.len() == 7 && "DAILY"@.len() == 5);
    assert("HOURLY"@.len() == 6 && "WEEKLY"@.len() == 6 && "YEARLY"@.len() == 6);
    assert("HOURLY"@[0] != "WEEKLY"@[0] && "HOURLY"@[0] != "YEARLY"@[0]);
    assert("WEEKLY"@[0] != "YEARLY"@[0]);
    assert("once"@.len() == 4);
    assert(lowered(frequency_name(freq)->0).len() == (frequency_name(freq)->0).len());
}

/// One dispatch as it is shown. Times are milliseconds since the epoch.
#[derive(Debug)]
pub struct DispatchView {
    pub id: u64,
    pub type_: String,
    pub active: bool,
    pub dry_run: bool,
    pub start_ms: Option<i64>,
    pub duration_s: Option<u32>,
    pub end_ms: Option<i64>,
    pub create_ms: Option<i64>,
    pub update_ms: Option<i64>,
    pub target: String,
    pub recurrence: Option<String>,
    pub payload: JsonValue,
}

/// A timestamp as it is shown.
pub open spec fn shown_ms(t: Option<Timestamp>) -> Option<i64> {
    match t {
        Some(t) => Some(t.spec_millis() as i64),
        None => None,
    }
}

fn ts_to_ms(t: &Option<Timestamp>) -> (out: Option<i64>)
    ensures
        out == shown_ms(*t),
{
    match t {
        Some(t) => Some(t.millis()),
        None => None,
    }
}

impl DispatchView {
    /// The view shows the metadata `m`.
    pub open spec fn shows_metadata(self, m: DispatchMetadata) -> bool {
        &&& self.id == m.dispatch_id
        &&& self.end_ms == shown_ms(m.end_time)
        &&& self.create_ms == shown_ms(m.create_time)
        &&& self.update_ms == shown_ms(m.update_time)
    }

    /// The view shows the data `d`.
    pub open spec fn shows_data(self, d: DispatchData) -> bool {
        &&& self.type_ == d.type_
        &&& self.active == d.is_active
        &&& self.dry_run == d.is_dry_run
        &&& self.start_ms == shown_ms(d.start_time)
        &&& self.duration_s == d.duration
        &&& self.target@ == (match d.target {
            Some(t) => target_text((*t)@),
            None => target_text(TargetView::Nothing),
        })
        &&& (match self.recurrence {
            Some(s) => Some(s@),
            None => None,
        }) == recurrence_text(
            (match d.recurrence {
                Some(r) => Some(*r),
                None => None,
            }),
        )
        &&& json_tree(self.payload) == (match d.payload {
            Some(p) => Tree::Object(jsonable_entries(wire_entries(p.fields@))),
            None => Tree::Null,
        })
    }

    /// The view shows `d`; parts that it lacks are blank.
    pub open spec fn shows(self, d: Dispatch) -> bool {
        &&& match d.metadata {
            Some(m) => self.shows_metadata(m),
            None => self.id == 0 && self.end_ms is None && self.create_ms is None
                && self.update_ms is None,
        }
        &&& match d.data {
            Some(data) => self.shows_data(data),
            None => {
                &&& self.type_@.len() == 0
                &&& !self.active
                &&& !self.dry_run
                &&& self.start_ms is None
                &&& self.duration_s is None
                &&& self.target@ == target_text(TargetView::Nothing)
                &&& self.recurrence is None
                &&& self.payload is Null
            },
        }
    }
}

impl DispatchView {
    /// The view shows a dispatch that the store has.
    pub open spec fn shows_stored(self, store: DispatchStore, mg: u64, id: u64) -> bool {
        store.record(mg, id) matches Some(d) && self.shows(d)
    }
}

/// A dispatch as it is shown.
pub fn dispatch_to_view(d: &Dispatch) -> (out: DispatchView)
    ensures
        out.shows(*d),
{
    let (id, end_ms, create_ms, update_ms) = match &d.metadata {
        Some(m) => (
            m.dispatch_id,
            ts_to_ms(&m.end_time),
            ts_to_ms(&m.create_time),
            ts_to_ms(&m.update_time),
        ),
        None => (0, None, None, None),
    };
    match &d.data {
        Some(data) => {
            let target = match &data.target {
                Some(t) => target_to_string(Some(&**t)),
                None => target_to_string(None),
            };
            let recurrence = match &data.recurrence {
                Some(r) => recurrence_to_string(Some(&**r)),
                None => None,
            };
            let payload = match &data.payload {
                Some(p) => struct_to_json(&**p),
                None => JsonValue::Null,
            };
            DispatchView {
                id,
                type_: data.type_.clone(),
                active: data.is_active,
                dry_run: data.is_dry_run,
                start_ms: ts_to_ms(&data.start_time),
                duration_s: data.duration,
                end_ms,
                create_ms,
                update_ms,
                target,
                recurrence,
                payload,
            }
        },
        None => DispatchView {
            id,
            type_: String::new(),
            active: false,
            dry_run: false,
            start_ms: None,
            duration_s: None,
            end_ms,
            create_ms,
            update_ms,
            target: target_to_string(None),
            recurrence: None,
            payload: JsonValue::Null,
        },
    }
}

/// The dispatches of a microgrid, newest first. One that is not registered
/// has none.
pub fn dispatches_for_mg(store: &DispatchStore, mg_id: u64) -> (out: Vec<DispatchView>)
    ensures
        exists|ids: Seq<u64>| #[trigger]
            store.lists_ids(mg_id, ids) && out@.len() == ids.len() && forall|i: int|
                0 <= i < ids.len() ==> (#[trigger] out@[i]).shows_stored(
                    *store,
                    mg_id,
                    ids[ids.len() - 1 - i],
                ),
{
    let listed = store.list_mg(mg_id);
    let ghost ids = choose|ids: Seq<u64>| #[trigger]
        store.lists_ids(mg_id, ids) && listed@.len() == ids.len() && forall|i: int|
            0 <= i < ids.len() ==> Some(#[trigger] listed@[i]) == store.record(mg_id, ids[i]);
    let mut out: Vec<DispatchView> = Vec::new();
    let mut left: usize = listed.len();
    while left > 0
        invariant
            left <= listed.len(),
            out.len() == listed.len() - left,
            listed@.len() == ids.len(),
            forall|i: int|
                0 <= i < ids.len() ==> Some(#[trigger] listed@[i]) == store.record(mg_id, ids[i]),
            forall|i: int|
                0 <= i < out.len() ==> (#[trigger] out@[i]).shows_stored(
                    *store,
                    mg_id,
                    ids[ids.len() - 1 - i],
                ),
        decreases left,
    {
        left = left - 1;
        let view = dispatch_to_view(&listed[left]);
        assert(Some(listed@[left as int]) == store.record(mg_id, ids[left as int]));
        assert(view.shows_stored(*store, mg_id, ids[left as int]));
        out.push(view);
    }
    assert(store.lists_ids(mg_id, ids));
    out
}

/// A dispatch as a client asks for it. Without a start it starts at once.
#[derive(Debug)]
pub struct DispatchCreateReq {
    pub type_: String,
    pub target: String,
    pub duration_s: Option<u32>,
    pub active: Option<bool>,
    pub dry_run: Option<bool>,
    pub payload: Option<JsonValue>,
    pub start_ms: Option<i64>,
    pub recurrence: Option<RecurrenceReq>,
}

/// There is no payload, or it is an object.
pub open spec fn payload_is_valid(payload: Option<JsonValue>) -> bool {
    payload matches Some(v) ==> v is Null || v is Object
}

/// `record` is the payload on the wire; null counts as none.
pub open spec fn asks_payload(payload: Option<JsonValue>, record: Option<Arc<WireStruct>>) -> bool {
    match payload {
        Some(JsonValue::Object(entries)) => record matches Some(s) && wire_entries(s.fields@)
            == json_entries(entries@),
        _ => record is None,
    }
}

impl DispatchCreateReq {
    /// Target, payload and recurrence can be stored.
    pub open spec fn is_valid(self) -> bool {
        &&& target_is_valid(self.target@)
        &&& payload_is_valid(self.payload)
        &&& recurrence_is_valid(self.recurrence)
    }

    /// `message` says what is wrong with a request that is not valid: the
    /// target before the payload before the recurrence.
    pub open spec fn is_refused(self, message: Seq<char>) -> bool {
        if !target_is_valid(self.target@) {
            target_refused(self.target@, message)
        } else if !payload_is_valid(self.payload) {
            message == "payload must be a JSON object"@
        } else {
            self.recurrence matches Some(r) && message == unknown_frequency(r.freq@)
        }
    }

    /// `data` is what the request asks for, its start left open.
    pub open spec fn asks(self, data: DispatchData) -> bool {
        &&& data.type_ == self.type_
        &&& match self.start_ms {
            None => data.start_time is None,
            Some(ms) => data.start_time matches Some(t) && t.seconds == ms as int / 1000 && t.nanos
                == (ms as int % 1000) * 1_000_000,
        }
        &&& data.duration == self.duration_s
        &&& data.target matches Some(t) && target_reads(self.target@, (*t)@)
        &&& data.is_active == (match self.active {
            Some(a) => a,
            None => true,
        })
        &&& data.is_dry_run == (match self.dry_run {
            Some(d) => d,
            None => false,
        })
        &&& asks_payload(self.payload, data.payload)
        &&& asks_recurrence(
            self.recurrence,
            (match data.recurrence {
                Some(r) => Some(*r),
                None => None,
            }),
        )
    }
}

/// A served request that changed the store: its status, what is shown, and
/// the event to fan out.
#[derive(Debug)]
pub struct Served {
    pub status: u16,
    pub view: DispatchView,
    pub event: DispatchEvent,
}

/// Creates a dispatch. A request that cannot be stored is refused and leaves
/// the store alone; every other one is served.
pub fn dispatch_create(
    store: &mut DispatchStore,
    mg_id: u64,
    req: DispatchCreateReq,
    now: Moment,
) -> (out: Result<Served, Refusal>)
    requires
        old(store).wf(),
        old(store).next_id < u64::MAX,
        now.in_calendar(),
    ensures
        final(store).wf(),
        out is Ok == req.is_valid(),
        out matches Err(r) ==> r.status == BAD_REQUEST && req.is_refused(r.message@)
            && *final(store) == *old(store),
        out matches Ok(s) ==> {
            &&& s.status == CREATED
            &&& s.view.shows(s.event.dispatch)
            &&& exists|data: DispatchData| #[trigger]
                req.asks(data) && creates(
                    *old(store),
                    *final(store),
                    mg_id,
                    started(data, req.start_ms is None, now),
                    now,
                    Ok(s.event),
                )
        },
{
    let target = match parse_target(req.target.as_str()) {
        Ok(t) => t,
        Err(message) => {
            return Err(Refusal { status: BAD_REQUEST, message });
        },
    };
    let payload = match &req.payload {
        None => None,
        Some(JsonValue::Null) => None,
        Some(value) => match json_to_struct(value) {
            Ok(s) => Some(Arc::new(s)),
            Err(message) => {
                return Err(Refusal { status: BAD_REQUEST, message });
            },
        },
    };
    let recurrence = match recurrence_from_req(&req.recurrence) {
        Ok(Some(rule)) => Some(Arc::new(rule)),
        Ok(None) => None,
        Err(message) => {
            return Err(Refusal { status: BAD_REQUEST, message });
        },
    };
    let start_immediately = req.start_ms.is_none();
    let start_time = match req.start_ms {
        Some(ms) => Some(Timestamp::from_millis(ms)),
        None => None,
    };
    let data = DispatchData {
        type_: req.type_.clone(),
        start_time,
        duration: req.duration_s,
        target: Some(Arc::new(target)),
        is_active: match req.active {
            Some(a) => a,
            None => true,
        },
        is_dry_run: match req.dry_run {
            Some(d) => d,
            None => false,
        },
        payload,
        recurrence,
    };
    let ghost asked = data;
    assert(req.asks(asked));
    match store.create(mg_id, data, start_immediately, now) {
        Ok(event) => {
            let view = dispatch_to_view(&event.dispatch);
            Ok(Served { status: CREATED, view, event })
        },
        Err(e) => Err(dispatch_err_to_http(e)),
    }
}

/// Pauses or resumes a dispatch; one that does not exist is refused.
pub fn dispatch_set_active(
    store: &mut DispatchStore,
    mg_id: u64,
    dispatch_id: u64,
    active: bool,
    now: Moment,
) -> (out: Result<Served, Refusal>)
    requires
        old(store).wf(),
        now.in_calendar(),
    ensures
        final(store).wf(),
        final(store).next_id == old(store).next_id,
        match out {
            Ok(s) => s.status == STATUS_OK && s.view.shows(s.event.dispatch) && switches(
                *old(store),
                *final(store),
                mg_id,
                dispatch_id,
                active,
                now,
                Ok(s.event),
            ),
            Err(r) => r.says(NOT_FOUND, DispatchError::NotFound.spec_message()) && switches(
                *old(store),
                *final(store),
                mg_id,
                dispatch_id,
                active,
                now,
                Err(DispatchError::NotFound),
            ),
        },
{
    match store.set_active(mg_id, dispatch_id, active, now) {
        Ok(event) => {
            let view = dispatch_to_view(&event.dispatch);
            Ok(Served { status: STATUS_OK, view, event })
        },
        Err(e) => Err(dispatch_err_to_http(e)),
    }
}

pub open spec fn no_such_dispatch(mg_id: u64, dispatch_id: u64) -> Seq<char> {
    "dispatch "@ + decimal_text(dispatch_id as nat) + " not found for microgrid "@ + decimal_text(
        mg_id as nat,
    )
}

/// Deletes a dispatch; one that does not exist is refused. Gives the status
/// and the event to fan out.
pub fn dispatch_delete(store: &mut DispatchStore, mg_id: u64, dispatch_id: u64) -> (out: Result<
    (u16, DispatchEvent),
    Refusal,
>)
    requires
        old(store).wf(),
    ensures
        final(store).wf(),
        final(store).next_id == old(store).next_id,
        final(store).record(mg_id, dispatch_id) is None,
        final(store).same_elsewhere(*old(store), mg_id, dispatch_id),
        match old(store).record(mg_id, dispatch_id) {
            Some(d) => out == Ok::<_, Refusal>(
                (
                    NO_CONTENT,
                    DispatchEvent {
                        microgrid_id: mg_id,
                        change: DispatchChange::Deleted,
                        dispatch: d,
                    },
                ),
            ),
            None => out matches Err(r) && r.says(NOT_FOUND, no_such_dispatch(mg_id, dispatch_id)),
        },
{
    match store.remove(mg_id, dispatch_id) {
        Some(event) => Ok((NO_CONTENT, event)),
        None => {
            let mut message = String::from_str("dispatch ");
            push_decimal(&mut message, dispatch_id);
            message.append(" not found for microgrid ");
            push_decimal(&mut message, mg_id);
            Err(Refusal { status: NOT_FOUND, message })
        },
    }
}

/// A freshly created dispatch leads the listing of its microgrid, where ids
/// are handed out in order.
pub proof fn created_dispatch_leads(
    before: DispatchStore,
    after: DispatchStore,
    mg: u64,
    stored: DispatchData,
    now: Moment,
    event: DispatchEvent,
    ids: Seq<u64>,
)
    requires
        forall|m: u64, id: u64| #[trigger] before.record(m, id) is Some ==> id < before.next_id,
        creates(before, after, mg, stored, now, Ok(event)),
        after.lists_ids(mg, ids),
    ensures
        ids.len() > 0,
        ids.last() == before.next_id,
{
    let id = before.next_id;
    assert(after.record(mg, id) is Some);
    assert(ids.contains(id));
    let k = choose|k: int| 0 <= k < ids.len() && ids[k] == id;
    if k < ids.len() - 1 {
        let last = ids.last();
        assert(ids[k] < ids[ids.len() - 1]);
        assert(ids.contains(last));
        assert(after.record(mg, last) == before.record(mg, last));
        assert(before.record(mg, last) is Some);
    }
}

/// The name of a frequency is read whatever its case; each name stands for one
/// frequency, and nothing else does.
pub proof fn frequencies_are_read_in_any_case(name: Seq<char>)
    ensures
        frequency_of(capitals(name)) == frequency_of(name),
        frequency_of(name) == Some(1i32) <==> capitals(name) == "MINUTELY"@,
        frequency_of(name) == Some(2i32) <==> capitals(name) == "HOURLY"@,
        frequency_of(name) == Some(3i32) <==> capitals(name) == "DAILY"@,
        frequency_of(name) == Some(4i32) <==> capitals(name) == "WEEKLY"@,
        frequency_of(name) == Some(5i32) <==> capitals(name) == "MONTHLY"@,
        frequency_of(name) == Some(6i32) <==> capitals(name) == "YEARLY"@,
        frequency_of(name) matches Some(f) ==> 1 <= f <= 6,
{
    assert(capitals(capitals(name)) =~= capitals(name));
    reveal_strlit("MINUTELY");
    reveal_strlit("HOURLY");
    reveal_strlit("DAILY");
    reveal_strlit("WEEKLY");
    reveal_strlit("MONTHLY");
    reveal_strlit("YEARLY");
    assert("MINUTELY"@[0] == 'M' && "MINUTELY"@[1] == 'I' && "HOURLY"@[0] == 'H');
    assert("DAILY"@[0] == 'D' && "WEEKLY"@[0] == 'W');
    assert("MONTHLY"@[0] == 'M' && "MONTHLY"@[1] == 'O' && "YEARLY"@[0] == 'Y');
}

/// A small ASCII letter has its capital 32 below it, and every other ASCII
/// character is its own.
pub proof fn ascii_capitals(c: char)
    requires
        c as int <= 127,
    ensures
        97 <= c as int <= 122 ==> capital(c) as int == c as int - 32,
        !(97 <= c as int <= 122) ==> capital(c) == c,
{
}

/// A recurrence comes at least every one step, and as asked where more is.
pub proof fn interval_is_at_least_one(n: u32)
    ensures
        n >= 1 ==> asked_interval(Some(n)) == n,
        asked_interval(Some(0)) == 1,
        asked_interval(None) == 1,
{
}

/// A request to recur gives a rule of the frequency and interval asked for; a
/// request to run once, or none at all, gives no rule.
pub proof fn rules_are_as_asked(req: Option<RecurrenceReq>, rule: Option<RecurrenceRule>)
    requires
        asks_recurrence(req, rule),
    ensures
        req is None ==> rule is None,
        req matches Some(r) ==> {
            &&& r.freq@.len() == 0 ==> rule is None
            &&& lowered(r.freq@) == "once"@ ==> rule is None
            &&& rule matches Some(x) ==> frequency_of(r.freq@) == Some(x.freq) && x.interval >= 1
                && (r.interval matches Some(n) ==> (n >= 1 ==> x.interval == n))
                && x.end_criteria is None && x.byminutes@.len() == 0 && x.byhours@.len() == 0
                && x.byweekdays@.len() == 0 && x.bymonthdays@.len() == 0 && x.bymonths@.len() == 0
            &&& r.freq@.len() > 0 && lowered(r.freq@) != "once"@ ==> rule is Some
        },
{
}

/// A rule reads as the name of its frequency and how many of it make a step;
/// one of an unspecified frequency does not read at all.
pub proof fn rules_read_by_frequency(rule: RecurrenceRule)
    ensures
        recurrence_text(None) is None,
        rule.freq < 1 || rule.freq > 6 ==> recurrence_text(Some(rule)) is None,
        1 <= rule.freq <= 6 && rule.interval >= 1 ==> (frequency_name(rule.freq) matches Some(name)
            && recurrence_text(Some(rule)) == Some(
            name + " \u{d7}"@ + decimal_text(rule.interval as nat),
        )),
        1 <= rule.freq <= 6 && rule.interval == 0 ==> (frequency_name(rule.freq) matches Some(name)
            && recurrence_text(Some(rule)) == Some(name + " \u{d7}"@ + decimal_text(1))),
{
}

/// What a request asks for is what the dispatch holds: it starts at the
/// millisecond asked, is active and no dry run unless the request says so, and
/// runs as long as asked.
pub proof fn dispatch_holds_the_request(req: DispatchCreateReq, data: DispatchData)
    requires
        req.asks(data),
    ensures
        data.type_ == req.type_,
        data.duration == req.duration_s,
        req.start_ms is None <==> data.start_time is None,
        req.start_ms matches Some(ms) ==> (data.start_time matches Some(t) && t.spec_millis()
            == ms),
        req.active is None ==> data.is_active,
        req.active matches Some(a) ==> data.is_active == a,
        req.dry_run is None ==> !data.is_dry_run,
        req.dry_run matches Some(d) ==> data.is_dry_run == d,
        data.target matches Some(t) && target_reads(req.target@, (*t)@),
        req.payload is None ==> data.payload is None,
        req.payload matches Some(p) ==> (p is Null ==> data.payload is None),
        req.payload matches Some(p) ==> (p matches JsonValue::Object(entries) ==> (
        data.payload matches Some(s) && wire_entries(s.fields@) == json_entries(entries@))),
{
    if let Some(ms) = req.start_ms {
        millis_round_trip(ms, data.start_time->0);
    }
}

/// A view shows each part of a dispatch in its own place, and times in
/// milliseconds.
pub proof fn view_shows_every_part(
    view: DispatchView,
    d: Dispatch,
    m: DispatchMetadata,
    data: DispatchData,
)
    requires
        view.shows(d),
        d.metadata == Some(m),
        d.data == Some(data),
    ensures
        view.id == m.dispatch_id,
        view.type_ == data.type_,
        view.active == data.is_active,
        view.dry_run == data.is_dry_run,
        view.duration_s == data.duration,
        m.create_time matches Some(t) ==> (view.create_ms matches Some(ms) && ms
            == t.spec_millis()),
        m.update_time matches Some(t) ==> (view.update_ms matches Some(ms) && ms
            == t.spec_millis()),
        m.end_time matches Some(t) ==> (view.end_ms matches Some(ms) && ms == t.spec_millis()),
        data.start_time matches Some(t) ==> (view.start_ms matches Some(ms) && ms
            == t.spec_millis()),
        m.end_time is None ==> view.end_ms is None,
        data.start_time is None ==> view.start_ms is None,
        data.target matches Some(t) ==> view.target@ == target_text((*t)@),
        data.recurrence is None ==> view.recurrence is None,
        data.payload is None ==> json_tree(view.payload) == Tree::Null,
{
}

/// A request is refused for its first fault: the target, then the payload, then
/// the recurrence.
pub proof fn first_fault_is_told(req: DispatchCreateReq, message: Seq<char>)
    requires
        !req.is_valid(),
        req.is_refused(message),
    ensures
        !target_is_valid(req.target@) ==> target_refused(req.target@, message),
        target_is_valid(req.target@) && !payload_is_valid(req.payload) ==> message
            == "payload must be a JSON object"@,
        target_is_valid(req.target@) && payload_is_valid(req.payload) ==> (
        req.recurrence matches Some(r) && frequency_of(r.freq@) is None && message
            == unknown_frequency(r.freq@)),
{
}

/// A request is valid exactly where each of its parts is: the target, a payload
/// that is an object where there is one, and a frequency that is known.
pub proof fn valid_requests_have_no_fault(req: DispatchCreateReq)
    ensures
        req.is_valid() ==> target_is_valid(req.target@) && (req.payload matches Some(p) ==> p is Null
            || p is Object) && (req.recurrence matches Some(r) ==> r.freq@.len() == 0 || lowered(
            r.freq@,
        ) == "once"@ || frequency_of(r.freq@) is Some),
        target_is_valid(req.target@) && req.payload is None && req.recurrence is None
            ==> req.is_valid(),
        target_is_valid(req.target@) && req.recurrence is None ==> (req.payload matches Some(p)
            ==> (p is Object || p is Null ==> req.is_valid())),
        target_is_valid(req.target@) && req.payload is None ==> (req.recurrence matches Some(r)
            ==> (frequency_of(r.freq@) is Some ==> req.is_valid())),
{
}

} // verus!
