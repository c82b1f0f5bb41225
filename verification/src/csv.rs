//! CSV files of a scenario recording.

use crate::bounds::{Bounds, VecBounds};
use crate::component::{side_reads, side_text, Category, Telemetry};
use crate::scalar::Scalar;
use crate::setpoints::{SetpointEvent, SetpointOutcome};
use crate::text::{chars_of, decimal_text, joined, joined_push, push_decimal, string_of};
use crate::time::Moment;
use vstd::prelude::*;

verus! {

/// A file to create, with its first line.
#[derive(Debug)]
pub struct CsvFile {
    pub name: String,
    pub header: &'static str,
}

pub open spec fn slug_text(category: Category) -> Seq<char> {
    match category {
        Category::Grid => "grid"@,
        Category::Meter => "meter"@,
        Category::Inverter => "inverter"@,
        Category::Battery => "battery"@,
        Category::EvCharger => "ev-charger"@,
        Category::Chp => "chp"@,
    }
}

/// The category's part of a file name.
pub fn category_slug(category: Category) -> (out: &'static str)
    ensures
        out@ == slug_text(category),
{
    match category {
        Category::Grid => "grid",
        Category::Meter => "meter",
        Category::Inverter => "inverter",
        Category::Battery => "battery",
        Category::EvCharger => "ev-charger",
        Category::Chp => "chp",
    }
}

/// The telemetry file of a component: its name and its first line.
pub open spec fn telemetry_file(id: u64, category: Category) -> (Seq<char>, Seq<char>) {
    (
        decimal_text(id as nat) + "-"@ + slug_text(category) + ".csv"@,
        "ts_iso,active_power_w,reactive_power_var,dc_power_w,soc_pct\n"@,
    )
}

/// The received-setpoints file of a component.
pub open spec fn setpoints_file(id: u64) -> (Seq<char>, Seq<char>) {
    (
        decimal_text(id as nat) + "-setpoints.csv"@,
        "ts_iso,kind,value,ttl_s,accepted,effective_value,reason\n"@,
    )
}

/// The effective-bounds file of a component.
pub open spec fn bounds_file(id: u64) -> (Seq<char>, Seq<char>) {
    (decimal_text(id as nat) + "-bounds.csv"@, "ts_iso,lower_w,upper_w,bands\n"@)
}

impl CsvFile {
    pub fn telemetry(id: u64, category: Category) -> (out: CsvFile)
        ensures
            (out.name@, out.header@) == telemetry_file(id, category),
    {
        let mut name = String::new();
        push_decimal(&mut name, id);
        name.append("-");
        name.append(category_slug(category));
        name.append(".csv");
        CsvFile {
            name,
            header: "ts_iso,active_power_w,reactive_power_var,dc_power_w,soc_pct\n",
        }
    }

    pub fn setpoints(id: u64) -> (out: CsvFile)
        ensures
            (out.name@, out.header@) == setpoints_file(id),
    {
        let mut name = String::new();
        push_decimal(&mut name, id);
        name.append("-setpoints.csv");
        CsvFile { name, header: "ts_iso,kind,value,ttl_s,accepted,effective_value,reason\n" }
    }

    pub fn bounds(id: u64) -> (out: CsvFile)
        ensures
            (out.name@, out.header@) == bounds_file(id),
    {
        let mut name = String::new();
        push_decimal(&mut name, id);
        name.append("-bounds.csv");
        CsvFile { name, header: "ts_iso,lower_w,upper_w,bands\n" }
    }
}

/// A field that holds a comma, a quote or a line feed.
pub open spec fn needs_quotes(s: Seq<char>) -> bool {
    s.contains(',') || s.contains('"') || s.contains('\n')
}

/// Every quote doubled.
pub open spec fn doubled(s: Seq<char>) -> Seq<char>
    decreases s.len(),
{
    if s.len() == 0 {
        Seq::empty()
    } else if s.last() == '"' {
        doubled(s.drop_last()).push('"').push('"')
    } else {
        doubled(s.drop_last()).push(s.last())
    }
}

/// A field as it stands in a row.
pub open spec fn quoted_field(s: Seq<char>) -> Seq<char> {
    if needs_quotes(s) {
        seq!['"'] + doubled(s) + seq!['"']
    } else {
        s
    }
}

/// Every doubled quote as one, read from the end.
pub open spec fn undoubled(s: Seq<char>) -> Seq<char>
    decreases s.len(),
{
    if s.len() == 0 {
        Seq::empty()
    } else if s.last() == '"' && s.len() >= 2 {
        undoubled(s.drop_last().drop_last()).push('"')
    } else {
        undoubled(s.drop_last()).push(s.last())
    }
}

/// What a reader takes a field for.
pub open spec fn field_value(field: Seq<char>) -> Seq<char> {
    if field.len() >= 2 && field[0] == '"' {
        undoubled(field.subrange(1, field.len() - 1))
    } else {
        field
    }
}

proof fn doubling_is_undone(s: Seq<char>)
    ensures
        undoubled(doubled(s)) == s,
    decreases s.len(),
{
    if s.len() > 0 {
        doubling_is_undone(s.drop_last());
        let rest = doubled(s.drop_last());
        if s.last() == '"' {
            let d = rest.push('"').push('"');
            assert(d.drop_last().drop_last() =~= rest);
        } else {
            assert(rest.push(s.last()).drop_last() =~= rest);
        }
        assert(s.drop_last().push(s.last()) =~= s);
    }
}

/// A quoted field reads back as what was written.
pub proof fn quoted_field_reads_back(s: Seq<char>)
    ensures
        field_value(quoted_field(s)) == s,
{
    if needs_quotes(s) {
        doubling_is_undone(s);
        let f = quoted_field(s);
        assert(f.subrange(1, f.len() - 1) =~= doubled(s));
    } else if s.len() > 0 {
        assert(s.contains(s[0]));
    }
}

/// Quotes a field where it needs it.
pub fn csv_quote(s: &str) -> (out: String)
    ensures
        out@ == quoted_field(s@),
{
    let chars = chars_of(s);
    let mut special = false;
    let mut twice: Vec<char> = Vec::new();
    twice.push('"');
    let mut i: usize = 0;
    while i < chars.len()
        invariant
            i <= chars.len(),
            twice@ == seq!['"'] + doubled(chars@.take(i as int)),
            special == exists|k: int|
                0 <= k < i && (#[trigger] chars@[k] == ',' || chars@[k] == '"' || chars@[k]
                    == '\n'),
        decreases chars.len() - i,
    {
        let c = chars[i];
        let ghost before = doubled(chars@.take(i as int));
        assert(chars@.take(i + 1).drop_last() =~= chars@.take(i as int));
        if c == ',' || c == '"' || c == '\n' {
            special = true;
            assert(chars@[i as int] == c);
        }
        twice.push(c);
        if c == '"' {
            twice.push('"');
            assert(twice@ =~= seq!['"'] + before.push('"').push('"'));
        } else {
            assert(twice@ =~= seq!['"'] + before.push(c));
        }
        i = i + 1;
    }
    assert(chars@.take(chars@.len() as int) =~= s@);
    if special {
        let ghost k = choose|k: int|
            0 <= k < i && (#[trigger] chars@[k] == ',' || chars@[k] == '"' || chars@[k] == '\n');
        assert(s@.contains(s@[k]));
        twice.push('"');
        assert(twice@ =~= seq!['"'] + doubled(s@) + seq!['"']);
        string_of(&twice)
    } else {
        assert(!needs_quotes(s@));
        string_of(&chars)
    }
}

/// `text` is the cell of a value, `show` writing the number; empty where there
/// is none.
pub open spec fn cell_reads<F: Fn(Scalar) -> String>(
    show: F,
    v: Option<Scalar>,
    text: Seq<char>,
) -> bool {
    match v {
        Some(x) => side_reads(show, Some(x), text),
        None => text == Seq::<char>::empty(),
    }
}

fn cell<F: Fn(Scalar) -> String>(v: Option<Scalar>, show: &F) -> (out: String)
    requires
        forall|x: Scalar| call_requires(*show, (x,)),
    ensures
        cell_reads(*show, v, out@),
{
    match v {
        Some(x) => side_text(Some(x), show),
        None => String::new(),
    }
}

/// The cells of a telemetry row.
pub open spec fn is_telemetry_row<F: Fn(Scalar) -> String>(
    show: F,
    ts: Moment,
    t: Telemetry,
    cells: Seq<Seq<char>>,
) -> bool {
    &&& cells.len() == 5
    &&& cells[0] == ts.spec_text()
    &&& cell_reads(show, t.active_power_w, cells[1])
    &&& cell_reads(show, t.reactive_power_var, cells[2])
    &&& cell_reads(show, t.dc_power_w, cells[3])
    &&& cell_reads(show, t.soc_pct, cells[4])
}

/// The cells of a row, and a line feed.
pub open spec fn row_text(cells: Seq<Seq<char>>) -> Seq<char> {
    joined(cells, ","@) + "\n"@
}

/// The cells, separated by commas, with a line feed behind them.
fn row(cells: &Vec<String>) -> (out: String)
    ensures
        out@ == row_text(contents(cells@)),
{
    let mut out = String::new();
    let mut i: usize = 0;
    while i < cells.len()
        invariant
            i <= cells.len(),
            out@ == joined(contents(cells@).take(i as int), ","@),
        decreases cells.len() - i,
    {
        let ghost seen = contents(cells@).take(i as int);
        proof {
            joined_push(seen, cells@[i as int]@, ","@);
            assert(contents(cells@).take(i + 1) =~= seen.push(cells@[i as int]@));
        }
        if i > 0 {
            out.append(",");
        }
        out.append(cells[i].as_str());
        i = i + 1;
    }
    assert(contents(cells@).take(cells@.len() as int) =~= contents(cells@));
    out.append("\n");
    out
}

/// What each string holds.
pub open spec fn contents(cells: Seq<String>) -> Seq<Seq<char>> {
    cells.map_values(|c: String| c@)
}

/// One telemetry row, `show` writing the numbers.
pub fn telemetry_row<F: Fn(Scalar) -> String>(ts: Moment, t: &Telemetry, show: &F) -> (out: String)
    requires
        ts.in_calendar(),
        forall|x: Scalar| call_requires(*show, (x,)),
    ensures
        exists|cells: Seq<Seq<char>>| #[trigger]
            is_telemetry_row(*show, ts, *t, cells) && out@ == row_text(cells),
{
    let mut cells: Vec<String> = Vec::new();
    cells.push(ts.text());
    cells.push(cell(t.active_power_w, show));
    cells.push(cell(t.reactive_power_var, show));
    cells.push(cell(t.dc_power_w, show));
    cells.push(cell(t.soc_pct, show));
    assert(is_telemetry_row(*show, ts, *t, contents(cells@)));
    row(&cells)
}

/// The cells of a received-setpoint row. The effective value is empty for a
/// refusal, the reason for an acceptance.
pub open spec fn is_setpoint_row<F: Fn(Scalar) -> String>(
    show: F,
    ev: SetpointEvent,
    cells: Seq<Seq<char>>,
) -> bool {
    &&& cells.len() == 7
    &&& cells[0] == ev.ts.spec_text()
    &&& cells[1] == ev.kind.spec_name()
    &&& cell_reads(show, Some(ev.value), cells[2])
    &&& cells[3] == (match ev.ttl_s {
        Some(s) => decimal_text(s as nat),
        None => Seq::empty(),
    })
    &&& match ev.outcome {
        SetpointOutcome::Accepted { effective_value } => cells[4] == "true"@ && cell_reads(
            show,
            effective_value,
            cells[5],
        ) && cells[6] == Seq::<char>::empty(),
        SetpointOutcome::Rejected { reason } => cells[4] == "false"@ && cells[5] == Seq::<
            char,
        >::empty() && cells[6] == quoted_field(reason@),
    }
}

/// One received-setpoint row, `show` writing the numbers.
pub fn setpoint_row<F: Fn(Scalar) -> String>(ev: &SetpointEvent, show: &F) -> (out: String)
    requires
        ev.ts.in_calendar(),
        forall|x: Scalar| call_requires(*show, (x,)),
    ensures
        exists|cells: Seq<Seq<char>>| #[trigger]
            is_setpoint_row(*show, *ev, cells) && out@ == row_text(cells),
{
    let mut cells: Vec<String> = Vec::new();
    cells.push(ev.ts.text());
    cells.push(String::from_str(ev.kind.as_str()));
    cells.push(cell(Some(ev.value), show));
    let mut ttl = String::new();
    if let Some(s) = ev.ttl_s {
        push_decimal(&mut ttl, s);
    }
    cells.push(ttl);
    match &ev.outcome {
        SetpointOutcome::Accepted { effective_value } => {
            cells.push(String::from_str("true"));
            cells.push(cell(*effective_value, show));
            cells.push(String::new());
        },
        SetpointOutcome::Rejected { reason } => {
            cells.push(String::from_str("false"));
            cells.push(String::new());
            cells.push(csv_quote(reason.as_str()));
        },
    }
    assert(is_setpoint_row(*show, *ev, contents(cells@)));
    row(&cells)
}

/// `text` is how one interval stands in the bands cell: both sides around a
/// colon, an open side as `*`.
pub open spec fn band_reads<F: Fn(Scalar) -> String>(show: F, b: Bounds, text: Seq<char>) -> bool {
    exists|l: Seq<char>, u: Seq<char>|
        #![trigger side_reads(show, b.lower, l), side_reads(show, b.upper, u)]
        side_reads(show, b.lower, l) && side_reads(show, b.upper, u) && text == l + ":"@ + u
}

/// `bands` are how the intervals read, one by one.
pub open spec fn bands_read<F: Fn(Scalar) -> String>(
    show: F,
    bounds: Seq<Bounds>,
    bands: Seq<Seq<char>>,
) -> bool {
    &&& bands.len() == bounds.len()
    &&& forall|i: int| 0 <= i < bounds.len() ==> band_reads(show, bounds[i], #[trigger] bands[i])
}

/// The cells of an effective-bounds row: the extremes, and every interval.
pub open spec fn is_bounds_row<F: Fn(Scalar) -> String>(
    show: F,
    ts: Moment,
    bounds: Seq<Bounds>,
    cells: Seq<Seq<char>>,
) -> bool {
    &&& cells.len() == 4
    &&& cells[0] == ts.spec_text()
    &&& cell_reads(
        show,
        if bounds.len() > 0 {
            bounds.first().lower
        } else {
            None
        },
        cells[1],
    )
    &&& cell_reads(
        show,
        if bounds.len() > 0 {
            bounds.last().upper
        } else {
            None
        },
        cells[2],
    )
    &&& exists|bands: Seq<Seq<char>>| #[trigger]
        bands_read(show, bounds, bands) && cells[3] == joined(bands, "|"@)
}

fn bands_text<F: Fn(Scalar) -> String>(bounds: &VecBounds, show: &F) -> (out: String)
    requires
        forall|x: Scalar| call_requires(*show, (x,)),
    ensures
        exists|bands: Seq<Seq<char>>| #[trigger]
            bands_read(*show, bounds@, bands) && out@ == joined(bands, "|"@),
{
    let mut out = String::new();
    let ghost mut bands: Seq<Seq<char>> = Seq::empty();
    let mut i: usize = 0;
    while i < bounds.0.len()
        invariant
            i <= bounds.0.len(),
            forall|x: Scalar| call_requires(*show, (x,)),
            bands.len() == i,
            forall|k: int| 0 <= k < i ==> band_reads(*show, bounds@[k], #[trigger] bands[k]),
            out@ == joined(bands, "|"@),
        decreases bounds.0.len() - i,
    {
        let lower = side_text(bounds.0[i].lower, show);
        let upper = side_text(bounds.0[i].upper, show);
        if i > 0 {
            out.append("|");
        }
        let ghost head = out@;
        out.append(lower.as_str());
        out.append(":");
        out.append(upper.as_str());
        proof {
            let band = lower@ + ":"@ + upper@;
            let b = bounds@[i as int];
            assert(side_reads(*show, b.lower, lower@) && side_reads(*show, b.upper, upper@));
            assert(band_reads(*show, b, band));
            joined_push(bands, band, "|"@);
            assert(out@ =~= head + band);
            bands = bands.push(band);
        }
        i = i + 1;
    }
    assert(bands_read(*show, bounds@, bands));
    out
}

/// One effective-bounds row, `show` writing the numbers.
pub fn bounds_row<F: Fn(Scalar) -> String>(ts: Moment, bounds: &VecBounds, show: &F) -> (out: String)
    requires
        ts.in_calendar(),
        forall|x: Scalar| call_requires(*show, (x,)),
    ensures
        exists|cells: Seq<Seq<char>>| #[trigger]
            is_bounds_row(*show, ts, bounds@, cells) && out@ == row_text(cells),
{
    let n: usize = bounds.0.len();
    let (lower, upper) = if n > 0 {
        (bounds.0[0].lower, bounds.0[n - 1].upper)
    } else {
        (None, None)
    };
    let mut cells: Vec<String> = Vec::new();
    cells.push(ts.text());
    cells.push(cell(lower, show));
    cells.push(cell(upper, show));
    cells.push(bands_text(bounds, show));
    assert(is_bounds_row(*show, ts, bounds@, contents(cells@)));
    row(&cells)
}

/// A field is quoted exactly where it holds a comma, a quote or the end of a
/// line; then it stands between quotes, else as it is.
pub proof fn only_what_needs_it_is_quoted(s: Seq<char>)
    ensures
        s.contains(',') || s.contains('"') || s.contains('\n') ==> quoted_field(s).len() >= s.len()
            + 2 && quoted_field(s)[0] == '"' && quoted_field(s).last() == '"',
        !s.contains(',') && !s.contains('"') && !s.contains('\n') ==> quoted_field(s) == s,
{
    doubling_adds(s);
}

proof fn doubling_adds(s: Seq<char>)
    ensures
        doubled(s).len() >= s.len(),
        !s.contains('"') ==> doubled(s) == s,
    decreases s.len(),
{
    if s.len() > 0 {
        let init = s.drop_last();
        doubling_adds(init);
        if !s.contains('"') {
            assert(s.contains(s.last()));
            if init.contains('"') {
                let k = choose|k: int| 0 <= k < init.len() && init[k] == '"';
                assert(s[k] == '"');
            }
            assert(init.push(s.last()) =~= s);
        }
    } else {
        assert(doubled(s) =~= s);
    }
}

/// The files of a component begin with its id, so those of two components
/// differ.
pub proof fn files_are_named_by_id(id: u64, category: Category)
    ensures
        telemetry_file(id, category).0 == decimal_text(id as nat) + seq!['-'] + slug_text(category)
            + ".csv"@,
        setpoints_file(id).0 == decimal_text(id as nat) + "-setpoints.csv"@,
        bounds_file(id).0 == decimal_text(id as nat) + "-bounds.csv"@,
        setpoints_file(id).0 != bounds_file(id).0,
{
    reveal_strlit("-");
    reveal_strlit("-setpoints.csv");
    reveal_strlit("-bounds.csv");
    assert("-"@ =~= seq!['-']);
    assert("-setpoints.csv"@.len() == 14);
    assert("-bounds.csv"@.len() == 11);
}

/// A telemetry row has the time and then the readings that its header names: the
/// active and the reactive power, the DC power and the state of charge, with an
/// empty cell for each that is absent.
pub proof fn telemetry_row_follows_its_header<F: Fn(Scalar) -> String>(
    show: F,
    ts: Moment,
    t: Telemetry,
    cells: Seq<Seq<char>>,
)
    requires
        is_telemetry_row(show, ts, t, cells),
    ensures
        cells.len() == 5,
        cells[0] == ts.spec_text(),
        t.active_power_w is None ==> cells[1].len() == 0,
        t.active_power_w matches Some(v) ==> side_reads(show, Some(v), cells[1]),
        t.reactive_power_var is None ==> cells[2].len() == 0,
        t.reactive_power_var matches Some(v) ==> side_reads(show, Some(v), cells[2]),
        t.dc_power_w is None ==> cells[3].len() == 0,
        t.dc_power_w matches Some(v) ==> side_reads(show, Some(v), cells[3]),
        t.soc_pct is None ==> cells[4].len() == 0,
        t.soc_pct matches Some(v) ==> side_reads(show, Some(v), cells[4]),
{
}

/// A setpoint row tells what was asked, for how long, and what came of it: the
/// value in force where it was accepted, the reason where it was refused, and
/// never both.
pub proof fn setpoint_row_tells_the_outcome<F: Fn(Scalar) -> String>(
    show: F,
    ev: SetpointEvent,
    cells: Seq<Seq<char>>,
)
    requires
        is_setpoint_row(show, ev, cells),
    ensures
        cells.len() == 7,
        cells[0] == ev.ts.spec_text(),
        cells[1] == ev.kind.spec_name(),
        side_reads(show, Some(ev.value), cells[2]),
        ev.ttl_s matches Some(s) ==> cells[3] == decimal_text(s as nat),
        ev.ttl_s is None ==> cells[3].len() == 0,
        ev.outcome is Accepted ==> cells[4] == "true"@ && cells[6].len() == 0,
        ev.outcome is Rejected ==> cells[4] == "false"@ && cells[5].len() == 0,
        ev.outcome matches SetpointOutcome::Rejected { reason } ==> field_value(cells[6])
            == reason@,
        ev.outcome matches SetpointOutcome::Accepted { effective_value } ==> (
        effective_value matches Some(v) ==> side_reads(show, Some(v), cells[5])),
{
    if let SetpointOutcome::Rejected { reason } = ev.outcome {
        quoted_field_reads_back(reason@);
    }
}

/// A bounds row has the outermost ends of an envelope and then each of its
/// intervals; without any, the cells are empty.
pub proof fn bounds_row_shows_the_extremes<F: Fn(Scalar) -> String>(
    show: F,
    ts: Moment,
    bounds: Seq<Bounds>,
    cells: Seq<Seq<char>>,
)
    requires
        is_bounds_row(show, ts, bounds, cells),
    ensures
        cells.len() == 4,
        cells[0] == ts.spec_text(),
        bounds.len() == 0 ==> cells[1].len() == 0 && cells[2].len() == 0 && cells[3].len() == 0,
        bounds.len() > 0 ==> (bounds[0].lower matches Some(v) ==> side_reads(
            show,
            Some(v),
            cells[1],
        )),
        bounds.len() > 0 ==> (bounds[bounds.len() - 1].upper matches Some(v) ==> side_reads(
            show,
            Some(v),
            cells[2],
        )),
        bounds.len() > 0 && bounds[0].lower is None ==> cells[1].len() == 0,
        bounds.len() > 0 && bounds[bounds.len() - 1].upper is None ==> cells[2].len() == 0,
        bounds.len() == 1 ==> exists|l: Seq<char>, u: Seq<char>|
            #![trigger side_reads(show, bounds[0].lower, l), side_reads(show, bounds[0].upper, u)]
            side_reads(show, bounds[0].lower, l) && side_reads(show, bounds[0].upper, u)
                && cells[3] == l + ":"@ + u,
{
    let bands = choose|bands: Seq<Seq<char>>| #[trigger]
        bands_read(show, bounds, bands) && cells[3] == joined(bands, "|"@);
    if bounds.len() == 1 {
        assert(band_reads(show, bounds[0], bands[0]));
    }
}

} // verus!
