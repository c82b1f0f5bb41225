//! The registry of named scenarios.

use crate::scalar::Wide;
use crate::text::{
    comes_before, debug_quoted, quoted, same_text, text_below, text_order_is_total,
    text_order_is_transitive,
};
use crate::timeline::{ClockDriver, Schedule, TimelineEntry};
use vstd::prelude::*;

verus! {

/// A calendar date.
#[derive(Clone, Copy, Debug, PartialEq, Eq, Structural)]
pub struct CalendarDate {
    pub year: i32,
    pub month: u32,
    pub day: u32,
}

/// Where a scenario records to.
#[derive(Debug)]
pub enum RecordDirective {
    /// A symbol: a directory named after the scenario.
    Symbol,
    /// A directory, taken verbatim.
    Directory(String),
    /// Neither; the reason why it cannot be read as a directory.
    Unreadable(String),
}

/// A registered scenario. Its sections hold the script's own forms, `F`.
#[derive(Debug)]
pub struct ScenarioDef<F> {
    pub name: String,
    pub description: String,
    pub schedule: Schedule,
    pub clock: ClockDriver,
    /// Run length in seconds.
    pub length_s: Option<Wide>,
    /// The date that anchors an absolute schedule.
    pub date: Option<CalendarDate>,
    pub seed: Option<i64>,
    pub setup: Option<F>,
    pub drive: Vec<F>,
    pub agents: Vec<F>,
    pub cues: Vec<F>,
    pub expect: Vec<F>,
    pub record: Option<RecordDirective>,
    pub timeline: Vec<TimelineEntry>,
}

/// What the scenario list shows of a scenario.
#[derive(Debug)]
pub struct ScenarioView {
    pub name: String,
    pub description: String,
    pub schedule: Schedule,
    pub clock: ClockDriver,
    pub length_s: Option<Wide>,
    pub date: Option<CalendarDate>,
    pub seed: Option<i64>,
    pub has_setup: bool,
    pub n_drive: usize,
    pub n_agents: usize,
    pub n_cues: usize,
    pub n_expect: usize,
    pub records: bool,
    pub timeline: Vec<TimelineEntry>,
}

impl ScenarioView {
    /// The view shows `d`: its metadata and the size of each section.
    pub open spec fn shows<F>(self, d: ScenarioDef<F>) -> bool {
        &&& self.name == d.name
        &&& self.description == d.description
        &&& self.schedule == d.schedule
        &&& self.clock == d.clock
        &&& self.length_s == d.length_s
        &&& self.date == d.date
        &&& self.seed == d.seed
        &&& self.has_setup == (d.setup is Some)
        &&& self.n_drive == d.drive@.len()
        &&& self.n_agents == d.agents@.len()
        &&& self.n_cues == d.cues@.len()
        &&& self.n_expect == d.expect@.len()
        &&& self.records == (d.record is Some)
        &&& self.timeline@ == d.timeline@
    }

    pub fn of<F>(d: &ScenarioDef<F>) -> (out: ScenarioView)
        ensures
            out.shows(*d),
    {
        let mut timeline: Vec<TimelineEntry> = Vec::new();
        let mut i: usize = 0;
        while i < d.timeline.len()
            invariant
                i <= d.timeline.len(),
                timeline@ == d.timeline@.subrange(0, i as int),
            decreases d.timeline.len() - i,
        {
            timeline.push(d.timeline[i].clone());
            i = i + 1;
            assert(timeline@ =~= d.timeline@.subrange(0, i as int));
        }
        assert(timeline@ =~= d.timeline@);
        ScenarioView {
            name: d.name.clone(),
            description: d.description.clone(),
            schedule: d.schedule,
            clock: d.clock,
            length_s: d.length_s,
            date: d.date,
            seed: d.seed,
            has_setup: d.setup.is_some(),
            n_drive: d.drive.len(),
            n_agents: d.agents.len(),
            n_cues: d.cues.len(),
            n_expect: d.expect.len(),
            records: d.record.is_some(),
            timeline,
        }
    }
}

/// The registered scenarios, by name.
#[derive(Debug)]
pub struct ScenarioRegistry<F> {
    pub defs: Vec<ScenarioDef<F>>,
}

/// Names ascend and none occurs twice.
pub open spec fn names_ascend<F>(defs: Seq<ScenarioDef<F>>) -> bool {
    forall|i: int, j: int|
        #![trigger defs[i], defs[j]]
        0 <= i < j < defs.len() ==> text_below(defs[i].name@, defs[j].name@)
}

impl<F> ScenarioRegistry<F> {
    pub open spec fn wf(self) -> bool {
        names_ascend(self.defs@)
    }

    /// `d` is registered under `name`.
    pub open spec fn holds(self, name: Seq<char>, d: ScenarioDef<F>) -> bool {
        d.name@ == name && self.defs@.contains(d)
    }

    pub open spec fn has(self, name: Seq<char>) -> bool {
        exists|i: int| 0 <= i < self.defs@.len() && (#[trigger] self.defs@[i]).name@ == name
    }

    pub fn new() -> (out: Self)
        ensures
            out.wf(),
            out.defs@ == Seq::<ScenarioDef<F>>::empty(),
    {
        ScenarioRegistry { defs: Vec::new() }
    }

    /// The position of the first name not before `name`.
    fn seat(&self, name: &str) -> (at: usize)
        requires
            self.wf(),
        ensures
            at <= self.defs@.len(),
            forall|i: int|
                0 <= i < at ==> text_below((#[trigger] self.defs@[i]).name@, name@),
            forall|i: int|
                at <= i < self.defs@.len() ==> !text_below(
                    (#[trigger] self.defs@[i]).name@,
                    name@,
                ),
    {
        let mut at: usize = 0;
        while at < self.defs.len() && comes_before(self.defs[at].name.as_str(), name)
            invariant
                at <= self.defs@.len(),
                forall|i: int|
                    0 <= i < at ==> text_below((#[trigger] self.defs@[i]).name@, name@),
            decreases self.defs@.len() - at,
        {
            at = at + 1;
        }
        proof {
            assert forall|i: int| at <= i < self.defs@.len() implies !text_below(
                (#[trigger] self.defs@[i]).name@,
                name@,
            ) by {
                if i > at && text_below(self.defs@[i].name@, name@) {
                    text_order_is_transitive(
                        self.defs@[at as int].name@,
                        self.defs@[i].name@,
                        name@,
                    );
                }
            }
        }
        at
    }

    /// Registers a scenario; one already registered under its name gives way.
    pub fn insert(&mut self, def: ScenarioDef<F>)
        requires
            old(self).wf(),
        ensures
            final(self).wf(),
            final(self).defs@.contains(def),
            forall|d: ScenarioDef<F>|
                d.name@ != def.name@ ==> #[trigger] final(self).defs@.contains(d) == old(
                    self,
                ).defs@.contains(d),
            final(self).defs@.len() == old(self).defs@.len() + (if old(self).has(def.name@) {
                0int
            } else {
                1
            }),
    {
        let at = self.seat(def.name.as_str());
        let ghost before = self.defs@;
        let ghost name = def.name@;
        proof {
            if at < before.len() {
                text_order_is_total(before[at as int].name@, name);
            }
        }
        if at < self.defs.len() && same_text(self.defs[at].name.as_str(), def.name.as_str()) {
            self.defs.set(at, def);
            assert(self.has(name) == true);
            assert(before[at as int].name@ == name);
            assert(self.defs@ =~= before.update(at as int, def));
            proof {
                assert(self.defs@[at as int] == def);
                assert forall|d: ScenarioDef<F>| d.name@ != name implies #[trigger]
                    self.defs@.contains(d) == before.contains(d) by {
                    if before.contains(d) {
                        let i = choose|i: int| 0 <= i < before.len() && before[i] == d;
                        assert(self.defs@[i] == d);
                    }
                    if self.defs@.contains(d) {
                        let i = choose|i: int| 0 <= i < self.defs@.len() && self.defs@[i] == d;
                        assert(before[i] == d);
                    }
                }
            }
        } else {
            proof {
                if old(self).has(name) {
                    let i = choose|i: int|
                        0 <= i < before.len() && (#[trigger] before[i]).name@ == name;
                    text_order_is_total(before[i].name@, name);
                    assert(i >= at);
                    if i > at {
                        text_order_is_total(before[at as int].name@, before[i].name@);
                        assert(text_below(before[at as int].name@, name));
                        assert(false);
                    }
                }
            }
            self.defs.insert(at, def);
            proof {
                let now = self.defs@;
                assert(now == before.insert(at as int, def));
                assert(now[at as int] == def);
                assert forall|i: int, j: int| #![trigger now[i], now[j]] 0 <= i < j
                    < now.len() implies text_below(now[i].name@, now[j].name@) by {
                    let bi = if i < at { i } else { i - 1 };
                    let bj = if j < at { j } else { j - 1 };
                    if i != at {
                        assert(now[i] == before[bi]);
                    }
                    if j != at {
                        assert(now[j] == before[bj]);
                    }
                    if i == at {
                        text_order_is_total(before[bj].name@, name);
                        if before[bj].name@ == name {
                            assert(old(self).has(name));
                        }
                    }
                }
                assert forall|d: ScenarioDef<F>| d.name@ != name implies #[trigger] now.contains(
                    d,
                ) == before.contains(d) by {
                    if before.contains(d) {
                        let i = choose|i: int| 0 <= i < before.len() && before[i] == d;
                        if i < at {
                            assert(now[i] == d);
                        } else {
                            assert(now[i + 1] == d);
                        }
                    }
                    if now.contains(d) {
                        let i = choose|i: int| 0 <= i < now.len() && now[i] == d;
                        if i < at {
                            assert(before[i] == d);
                        } else {
                            assert(before[i - 1] == d);
                        }
                    }
                }
            }
        }
    }

    pub fn get(&self, name: &str) -> (out: Option<&ScenarioDef<F>>)
        requires
            self.wf(),
        ensures
            out is Some == self.has(name@),
            out matches Some(d) ==> self.holds(name@, *d),
    {
        let at = self.seat(name);
        proof {
            if self.has(name@) {
                let i = choose|i: int|
                    0 <= i < self.defs@.len() && (#[trigger] self.defs@[i]).name@ == name@;
                text_order_is_total(self.defs@[i].name@, name@);
                assert(i >= at);
                if i > at {
                    assert(text_below(self.defs@[at as int].name@, name@));
                    assert(false);
                }
            }
        }
        if at < self.defs.len() && same_text(self.defs[at].name.as_str(), name) {
            assert(self.defs@.contains(self.defs@[at as int]));
            Some(&self.defs[at])
        } else {
            None
        }
    }

    /// Every scenario's view, in dictionary order of names.
    pub fn snapshot(&self) -> (out: Vec<ScenarioView>)
        requires
            self.wf(),
        ensures
            out@.len() == self.defs@.len(),
            forall|i: int| 0 <= i < out@.len() ==> (#[trigger] out@[i]).shows(self.defs@[i]),
            forall|i: int, j: int|
                #![trigger out@[i], out@[j]]
                0 <= i < j < out@.len() ==> text_below(out@[i].name@, out@[j].name@),
    {
        let mut out: Vec<ScenarioView> = Vec::new();
        let mut i: usize = 0;
        while i < self.defs.len()
            invariant
                i <= self.defs.len(),
                out.len() == i,
                forall|k: int| 0 <= k < i ==> (#[trigger] out@[k]).shows(self.defs@[k]),
            decreases self.defs.len() - i,
        {
            out.push(ScenarioView::of(&self.defs[i]));
            i = i + 1;
        }
        assert forall|i: int, j: int| #![trigger out@[i], out@[j]] 0 <= i < j
            < out@.len() implies text_below(out@[i].name@, out@[j].name@) by {
            assert(out@[i].shows(self.defs@[i]));
            assert(out@[j].shows(self.defs@[j]));
        }
        out
    }

    /// The runner's arguments for the scenario `name`. Refused for an unknown
    /// name and for a directive that is no directory.
    pub fn start(&self, name: &str) -> (out: Result<Vec<RunArg<'_, F>>, String>)
        requires
            self.wf(),
        ensures
            !self.has(name@) ==> (out matches Err(e) && e@ == "no scenario named "@ + debug_quoted(
                name@,
            )),
            self.has(name@) ==> exists|d: ScenarioDef<F>| #[trigger]
                self.holds(name@, d) && match d.record {
                    None => out matches Ok(args) && is_run_call(d, None, args@),
                    Some(RecordDirective::Symbol) => out matches Ok(args) && is_run_call(
                        d,
                        Some("scenario-"@ + name@),
                        args@,
                    ),
                    Some(RecordDirective::Directory(dir)) => out matches Ok(args) && is_run_call(
                        d,
                        Some(dir@),
                        args@,
                    ),
                    Some(RecordDirective::Unreadable(why)) => out matches Err(e) && e@
                        == "record: "@ + why@,
                },
    {
        match self.get(name) {
            None => {
                let mut message = String::from_str("no scenario named ");
                let shown = quoted(name);
                message.append(shown.as_str());
                Err(message)
            },
            Some(d) => match &d.record {
                None => Ok(run_call(d, None)),
                Some(directive) => match record_dir(directive, d.name.as_str()) {
                    Ok(dir) => Ok(run_call(d, Some(dir.as_str()))),
                    Err(message) => Err(message),
                },
            },
        }
    }
}

/// The function of the scripting language that runs a scenario.
pub fn runner() -> (out: &'static str)
    ensures
        out@ == "scenario--run"@,
{
    "scenario--run"
}

/// One argument of the runner's call. Each is handed over quoted, so the forms
/// of a section pass through unevaluated.
#[derive(Debug)]
pub enum RunArg<'a, F> {
    Nil,
    Text(String),
    Int(i64),
    /// One form of the script.
    Single(&'a F),
    /// The forms of a section, as a list.
    Listed(&'a Vec<F>),
}

impl<'a, F> RunArg<'a, F> {
    /// `text` where there is one, else nil.
    pub open spec fn is_text(self, text: Option<Seq<char>>) -> bool {
        match text {
            Some(t) => self matches RunArg::Text(own) && own@ == t,
            None => self is Nil,
        }
    }
}

/// `args` are the runner's arguments for `def` recording to `dir`: its name,
/// seed, setup, drive, agents, cues, checks and the directory. What `def` does
/// not have is nil.
pub open spec fn is_run_call<F>(
    def: ScenarioDef<F>,
    dir: Option<Seq<char>>,
    args: Seq<RunArg<'_, F>>,
) -> bool {
    &&& args.len() == 8
    &&& args[0].is_text(Some(def.name@))
    &&& match def.seed {
        Some(seed) => args[1] == RunArg::<F>::Int(seed),
        None => args[1] is Nil,
    }
    &&& match def.setup {
        Some(form) => args[2] matches RunArg::Single(own) && *own == form,
        None => args[2] is Nil,
    }
    &&& args[3] matches RunArg::Listed(forms) && *forms == def.drive
    &&& args[4] matches RunArg::Listed(forms) && *forms == def.agents
    &&& args[5] matches RunArg::Listed(forms) && *forms == def.cues
    &&& args[6] matches RunArg::Listed(forms) && *forms == def.expect
    &&& args[7].is_text(dir)
}

/// The runner's arguments for a scenario that records to `dir`.
pub fn run_call<'a, F>(def: &'a ScenarioDef<F>, dir: Option<&str>) -> (out: Vec<RunArg<'a, F>>)
    ensures
        is_run_call(
            *def,
            match dir {
                Some(d) => Some(d@),
                None => None,
            },
            out@,
        ),
{
    let mut out: Vec<RunArg<'a, F>> = Vec::new();
    out.push(RunArg::Text(def.name.clone()));
    out.push(
        match def.seed {
            Some(seed) => RunArg::Int(seed),
            None => RunArg::Nil,
        },
    );
    out.push(
        match &def.setup {
            Some(form) => RunArg::Single(form),
            None => RunArg::Nil,
        },
    );
    out.push(RunArg::Listed(&def.drive));
    out.push(RunArg::Listed(&def.agents));
    out.push(RunArg::Listed(&def.cues));
    out.push(RunArg::Listed(&def.expect));
    out.push(
        match dir {
            Some(d) => RunArg::Text(String::from_str(d)),
            None => RunArg::Nil,
        },
    );
    out
}

/// The directory that a record directive denotes.
pub fn record_dir(directive: &RecordDirective, name: &str) -> (out: Result<String, String>)
    ensures
        match *directive {
            RecordDirective::Symbol => out matches Ok(dir) && dir@ == "scenario-"@ + name@,
            RecordDirective::Directory(dir) => out == Ok::<String, String>(dir),
            RecordDirective::Unreadable(why) => out matches Err(e) && e@ == "record: "@ + why@,
        },
{
    match directive {
        RecordDirective::Symbol => {
            let mut dir = String::from_str("scenario-");
            dir.append(name);
            Ok(dir)
        },
        RecordDirective::Directory(dir) => Ok(dir.clone()),
        RecordDirective::Unreadable(why) => {
            let mut message = String::from_str("record: ");
            message.append(why.as_str());
            Err(message)
        },
    }
}

/// A run is handed each part of the scenario in its own place: its name and
/// seed, what sets it up, what drives it, its agents, cues and checks, and last
/// where it is recorded.
pub proof fn run_hands_over_every_part<F>(
    def: ScenarioDef<F>,
    dir: Option<Seq<char>>,
    args: Seq<RunArg<'_, F>>,
)
    requires
        is_run_call(def, dir, args),
    ensures
        args.len() == 8,
        args[0] matches RunArg::Text(name) && name@ == def.name@,
        def.seed matches Some(seed) ==> args[1] == RunArg::<F>::Int(seed),
        def.seed is None <==> args[1] is Nil,
        def.setup matches Some(form) ==> (args[2] matches RunArg::Single(own) && *own == form),
        def.setup is None <==> args[2] is Nil,
        args[3] matches RunArg::Listed(forms) && *forms == def.drive,
        args[4] matches RunArg::Listed(forms) && *forms == def.agents,
        args[5] matches RunArg::Listed(forms) && *forms == def.cues,
        args[6] matches RunArg::Listed(forms) && *forms == def.expect,
        dir matches Some(d) ==> (args[7] matches RunArg::Text(own) && own@ == d),
        dir is None <==> args[7] is Nil,
{
}

/// A name stands for at most one scenario.
pub proof fn names_are_unique<F>(
    registry: ScenarioRegistry<F>,
    name: Seq<char>,
    a: ScenarioDef<F>,
    b: ScenarioDef<F>,
)
    requires
        registry.wf(),
        registry.holds(name, a),
        registry.holds(name, b),
    ensures
        a == b,
        registry.has(name),
{
    let i = choose|i: int| 0 <= i < registry.defs@.len() && registry.defs@[i] == a;
    let j = choose|j: int| 0 <= j < registry.defs@.len() && registry.defs@[j] == b;
    text_order_is_total(name, name);
    assert(registry.defs@[i].name@ == name && registry.defs@[j].name@ == name);
    if i < j {
        assert(text_below(registry.defs@[i].name@, registry.defs@[j].name@));
    }
    if j < i {
        assert(text_below(registry.defs@[j].name@, registry.defs@[i].name@));
    }
}

/// A view counts each part of a scenario on its own, and says whether it sets
/// anything up and whether it is recorded.
pub proof fn view_counts_every_part<F>(v: ScenarioView, d: ScenarioDef<F>)
    requires
        v.shows(d),
    ensures
        v.n_drive == d.drive@.len(),
        v.n_agents == d.agents@.len(),
        v.n_cues == d.cues@.len(),
        v.n_expect == d.expect@.len(),
        v.has_setup <==> d.setup is Some,
        v.records <==> d.record is Some,
        v.timeline@ == d.timeline@,
        v.seed == d.seed,
        v.length_s == d.length_s,
        v.name == d.name,
        v.description == d.description,
        v.schedule == d.schedule,
        v.clock == d.clock,
        v.date == d.date,
{
}

/// A scenario is recorded where its script says: in a directory of its own name,
/// in the one given, or nowhere where that cannot be read.
pub proof fn recording_goes_where_it_is_told(
    directive: &RecordDirective,
    name: &str,
    out: Result<String, String>,
)
    requires
        call_ensures(record_dir, (directive, name), out),
    ensures
        out is Err <==> *directive is Unreadable,
        *directive matches RecordDirective::Directory(dir) ==> out == Ok::<String, String>(dir),
        *directive is Symbol ==> (out matches Ok(dir) && dir@ == "scenario-"@ + name@),
{
}

} // verus!
