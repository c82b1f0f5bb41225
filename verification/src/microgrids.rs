//! The registry of every microgrid that one process hosts.

use crate::keys::{ascending_keys, lists_keys};
use crate::text::{chars_of, decimal_text, push_decimal, string_of, trim, trimmed};
use std::collections::BTreeMap;
use vstd::prelude::*;

verus! {

broadcast use vstd::std_specs::btree::group_btree_axioms;

/// First automatically allocated microgrid id.
pub const DEFAULT_MICROGRID_ID: u64 = 2200;

/// First automatically allocated port.
pub const DEFAULT_GRPC_PORT: u16 = 8800;

/// Distance between automatically allocated ports.
pub const PORT_STEP: u16 = 10;

/// The display name of a microgrid that was given none.
pub fn default_microgrid_name() -> (out: &'static str)
    ensures
        out@ == "default"@,
{
    "default"
}

/// Configured metadata of a microgrid.
#[derive(Debug)]
pub struct MicrogridDef {
    pub id: u64,
    pub name: String,
    pub grpc_port: u16,
    /// Informational transmission-zone label.
    pub tso: Option<String>,
}

fn clone_text(s: &Option<String>) -> (out: Option<String>)
    ensures
        out == *s,
{
    match s {
        Some(t) => Some(t.clone()),
        None => None,
    }
}

impl Clone for MicrogridDef {
    fn clone(&self) -> (out: Self)
        ensures
            out == *self,
    {
        MicrogridDef {
            id: self.id,
            name: self.name.clone(),
            grpc_port: self.grpc_port,
            tso: clone_text(&self.tso),
        }
    }
}

/// A registered microgrid: its metadata and a handle on its site.
#[derive(Debug)]
pub struct MicrogridEntry<S> {
    pub def: MicrogridDef,
    pub site: S,
}

/// What the microgrid list shows.
#[derive(Debug)]
pub struct MicrogridView {
    pub id: u64,
    pub name: String,
    pub grpc_port: u16,
    pub tso: Option<String>,
    pub component_count: usize,
}

impl MicrogridView {
    /// The view shows `def`.
    pub open spec fn shows(self, def: MicrogridDef) -> bool {
        &&& self.id == def.id
        &&& self.name == def.name
        &&& self.grpc_port == def.grpc_port
        &&& self.tso == def.tso
    }
}

/// The first of `from`, `from + step`, ... that is not claimed; `last` where
/// all up to it are.
pub open spec fn first_free(claimed: spec_fn(int) -> bool, from: int, step: int, last: int) -> int
    decreases last - from,
{
    if from >= last || step <= 0 || !claimed(from) {
        from
    } else if from + step >= last {
        last
    } else {
        first_free(claimed, from + step, step, last)
    }
}

/// Some entry uses the port.
pub open spec fn port_claimed<S>(entries: Map<u64, MicrogridEntry<S>>, port: int) -> bool {
    exists|id: u64| #[trigger] entries.contains_key(id) && entries[id].def.grpc_port == port
}

fn claims_port<S>(entries: &BTreeMap<u64, MicrogridEntry<S>>, port: u16) -> (out: bool)
    ensures
        out == port_claimed(entries@, port as int),
{
    let ids = ascending_keys(entries);
    let mut i: usize = 0;
    while i < ids.len()
        invariant
            i <= ids.len(),
            lists_keys(entries@.dom(), ids@),
            forall|k: int|
                0 <= k < i ==> entries@[#[trigger] ids@[k]].def.grpc_port != port,
        decreases ids.len() - i,
    {
        assert(ids@.contains(ids@[i as int]));
        if let Some(e) = entries.get(&ids[i]) {
            if e.def.grpc_port == port {
                assert(entries@.contains_key(ids@[i as int]));
                return true;
            }
        }
        i = i + 1;
    }
    assert forall|id: u64| #[trigger] entries@.contains_key(id) implies entries@[id].def.grpc_port
        != port by {
        assert(ids@.contains(id));
        let k = choose|k: int| 0 <= k < ids@.len() && ids@[k] == id;
        assert(entries@[ids@[k]].def.grpc_port != port);
    }
    false
}

/// The first port of the automatic progression that no entry claims.
pub fn next_free_port_in<S>(entries: &BTreeMap<u64, MicrogridEntry<S>>) -> (out: u16)
    ensures
        out == first_free(
            |p: int| port_claimed(entries@, p),
            DEFAULT_GRPC_PORT as int,
            PORT_STEP as int,
            u16::MAX as int,
        ),
{
    let ghost claimed = |p: int| port_claimed(entries@, p);
    let mut candidate: u16 = DEFAULT_GRPC_PORT;
    while candidate < u16::MAX && claims_port(entries, candidate)
        invariant
            claimed == (|p: int| port_claimed(entries@, p)),
            first_free(
                claimed,
                DEFAULT_GRPC_PORT as int,
                PORT_STEP as int,
                u16::MAX as int,
            ) == first_free(claimed, candidate as int, PORT_STEP as int, u16::MAX as int),
        decreases u16::MAX - candidate,
    {
        assert(claimed(candidate as int));
        if candidate > u16::MAX - PORT_STEP {
            candidate = u16::MAX;
        } else {
            candidate = candidate + PORT_STEP;
        }
    }
    assert(candidate < u16::MAX ==> !claimed(candidate as int));
    candidate
}

/// The first id of the automatic progression that is not registered.
pub fn next_free_id_in<S>(entries: &BTreeMap<u64, MicrogridEntry<S>>) -> (out: u64)
    ensures
        out == first_free(
            |id: int| entries@.contains_key(id as u64),
            DEFAULT_MICROGRID_ID as int,
            1,
            u64::MAX as int,
        ),
{
    let ghost claimed = |id: int| entries@.contains_key(id as u64);
    let mut candidate: u64 = DEFAULT_MICROGRID_ID;
    while candidate < u64::MAX && entries.contains_key(&candidate)
        invariant
            claimed == (|id: int| entries@.contains_key(id as u64)),
            first_free(claimed, DEFAULT_MICROGRID_ID as int, 1, u64::MAX as int) == first_free(
                claimed,
                candidate as int,
                1,
                u64::MAX as int,
            ),
        decreases u64::MAX - candidate,
    {
        assert(claimed(candidate as int));
        candidate = candidate + 1;
    }
    assert(candidate < u64::MAX ==> !claimed(candidate as int));
    candidate
}

/// What the progression yields is free unless everything in it is claimed.
pub proof fn first_free_is_free(claimed: spec_fn(int) -> bool, from: int, step: int, last: int)
    requires
        step > 0,
        from < last,
    ensures
        from <= first_free(claimed, from, step, last) <= last,
        first_free(claimed, from, step, last) < last ==> !claimed(
            first_free(claimed, from, step, last),
        ),
    decreases last - from,
{
    if claimed(from) && from + step < last {
        first_free_is_free(claimed, from + step, step, last);
    }
}

/// `def` has the first free id and the first free port beside `entries`.
pub open spec fn takes_first_free<S>(
    entries: Map<u64, MicrogridEntry<S>>,
    def: MicrogridDef,
) -> bool {
    &&& def.id == first_free(
        |id: int| entries.contains_key(id as u64),
        DEFAULT_MICROGRID_ID as int,
        1,
        u64::MAX as int,
    )
    &&& def.grpc_port == first_free(
        |p: int| port_claimed(entries, p),
        DEFAULT_GRPC_PORT as int,
        PORT_STEP as int,
        u16::MAX as int,
    )
}

/// No two microgrids created one after the other share an id or a port, as
/// long as there are free ones.
pub proof fn created_microgrids_differ<S>(
    entries: Map<u64, MicrogridEntry<S>>,
    first: MicrogridDef,
    site: S,
    second: MicrogridDef,
)
    requires
        takes_first_free(entries, first),
        takes_first_free(entries.insert(first.id, MicrogridEntry { def: first, site }), second),
        second.id < u64::MAX,
        second.grpc_port < u16::MAX,
    ensures
        second.id != first.id,
        second.grpc_port != first.grpc_port,
        !entries.contains_key(second.id),
{
    let grown = entries.insert(first.id, MicrogridEntry { def: first, site });
    let known = |id: int| grown.contains_key(id as u64);
    let used = |p: int| port_claimed(grown, p);
    first_free_is_free(known, DEFAULT_MICROGRID_ID as int, 1, u64::MAX as int);
    first_free_is_free(
        used,
        DEFAULT_GRPC_PORT as int,
        PORT_STEP as int,
        u16::MAX as int,
    );
    assert(!known(second.id as int));
    assert(grown.contains_key(first.id) && grown[first.id].def.grpc_port == first.grpc_port);
    assert(used(first.grpc_port as int));
    assert(!used(second.grpc_port as int));
}

/// The registered microgrids by id.
#[derive(Debug)]
pub struct Microgrids<S> {
    pub entries: BTreeMap<u64, MicrogridEntry<S>>,
}

/// Why a microgrid was not created.
pub open spec fn empty_name() -> Seq<char> {
    "name must be non-empty"@
}

impl<S> Microgrids<S> {
    /// Every entry stands under its own id.
    pub open spec fn wf(self) -> bool {
        forall|id: u64| #[trigger]
            self.entries@.contains_key(id) ==> self.entries@[id].def.id == id
    }

    pub fn new() -> (out: Self)
        ensures
            out.wf(),
            out.entries@ == Map::<u64, MicrogridEntry<S>>::empty(),
    {
        Microgrids { entries: BTreeMap::new() }
    }

    /// Registers an entry under its id; one already there gives way.
    pub fn insert(&mut self, entry: MicrogridEntry<S>)
        requires
            old(self).wf(),
        ensures
            final(self).wf(),
            final(self).entries@ == old(self).entries@.insert(entry.def.id, entry),
    {
        let id: u64 = entry.def.id;
        self.entries.insert(id, entry);
    }

    /// Takes an entry out again.
    pub fn remove(&mut self, id: u64) -> (out: Option<MicrogridEntry<S>>)
        requires
            old(self).wf(),
        ensures
            final(self).wf(),
            final(self).entries@ == old(self).entries@.remove(id),
            out is Some == old(self).entries@.contains_key(id),
            out matches Some(e) ==> e == old(self).entries@[id],
    {
        self.entries.remove(&id)
    }

    pub fn contains(&self, id: u64) -> (out: bool)
        ensures
            out == self.entries@.contains_key(id),
    {
        self.entries.contains_key(&id)
    }

    pub fn get(&self, id: u64) -> (out: Option<&MicrogridEntry<S>>)
        ensures
            out is Some == self.entries@.contains_key(id),
            out matches Some(e) ==> *e == self.entries@[id],
    {
        self.entries.get(&id)
    }

    pub fn next_free_port(&self) -> (out: u16)
        ensures
            out == first_free(
                |p: int| port_claimed(self.entries@, p),
                DEFAULT_GRPC_PORT as int,
                PORT_STEP as int,
                u16::MAX as int,
            ),
    {
        next_free_port_in(&self.entries)
    }

    pub fn next_free_id(&self) -> (out: u64)
        ensures
            out == first_free(
                |id: int| self.entries@.contains_key(id as u64),
                DEFAULT_MICROGRID_ID as int,
                1,
                u64::MAX as int,
            ),
    {
        next_free_id_in(&self.entries)
    }

    /// Creates a microgrid: picks a free id and port and registers it with
    /// its site. A name that is blank is refused.
    pub fn create(&mut self, name: &str, tso: Option<String>, site: S) -> (out: Result<
        MicrogridDef,
        String,
    >)
        requires
            old(self).wf(),
        ensures
            final(self).wf(),
            trimmed(name@).len() == 0 ==> {
                &&& out matches Err(e) && e@ == empty_name()
                &&& *final(self) == *old(self)
            },
            trimmed(name@).len() > 0 ==> {
                &&& out matches Ok(def) && {
                    &&& takes_first_free(old(self).entries@, def)
                    &&& def.name@ == trimmed(name@)
                    &&& def.tso == tso
                    &&& final(self).entries@ == old(self).entries@.insert(
                        def.id,
                        MicrogridEntry { def, site },
                    )
                }
            },
    {
        let chars = chars_of(name);
        let shown = trim(&chars);
        if shown.len() == 0 {
            return Err(String::from_str("name must be non-empty"));
        }
        let id: u64 = self.next_free_id();
        let grpc_port: u16 = self.next_free_port();
        let def = MicrogridDef { id, name: string_of(&shown), grpc_port, tso };
        let copy = def.clone();
        self.entries.insert(id, MicrogridEntry { def: copy, site });
        Ok(def)
    }

    /// Which registered site is meant: the current microgrid's where it is
    /// registered, else that of the lowest id, else none.
    pub open spec fn spec_resolve(self, current: Option<u64>, out: Option<u64>) -> bool {
        if current is Some && self.entries@.contains_key(current->0) {
            out == current
        } else {
            match out {
                None => self.entries@.dom() == Set::<u64>::empty(),
                Some(id) => self.entries@.contains_key(id) && forall|other: u64| #[trigger]
                    self.entries@.contains_key(other) ==> id <= other,
            }
        }
    }

    pub fn resolve(&self, current: Option<u64>) -> (out: Option<u64>)
        ensures
            self.spec_resolve(current, out),
    {
        if let Some(id) = current {
            if self.entries.contains_key(&id) {
                return Some(id);
            }
        }
        let ids = ascending_keys(&self.entries);
        if ids.len() == 0 {
            assert forall|id: u64| !(#[trigger] self.entries@.contains_key(id)) by {
                assert(!ids@.contains(id));
            }
            assert(self.entries@.dom() =~= Set::<u64>::empty());
            return None;
        }
        let lowest: u64 = ids[0];
        assert(ids@.contains(lowest));
        assert forall|other: u64| #[trigger] self.entries@.contains_key(other) implies lowest
            <= other by {
            assert(ids@.contains(other));
            let k = choose|k: int| 0 <= k < ids@.len() && ids@[k] == other;
            if k > 0 {
                assert(ids@[0] < ids@[k]);
            }
        }
        Some(lowest)
    }

    /// Every microgrid's view, ascending by id; `count` counts a site's
    /// components.
    pub fn snapshot<F: Fn(&S) -> usize>(&self, count: F) -> (out: Vec<MicrogridView>)
        requires
            self.wf(),
            forall|s: &S| call_requires(count, (s,)),
        ensures
            forall|i: int, j: int|
                #![trigger out@[i], out@[j]]
                0 <= i < j < out@.len() ==> out@[i].id < out@[j].id,
            forall|i: int|
                0 <= i < out@.len() ==> self.entries@.contains_key((#[trigger] out@[i]).id)
                    && out@[i].shows(self.entries@[out@[i].id].def) && call_ensures(
                    count,
                    (&self.entries@[out@[i].id].site,),
                    out@[i].component_count,
                ),
            out@.len() == self.entries@.len(),
    {
        let ids = ascending_keys(&self.entries);
        let mut out: Vec<MicrogridView> = Vec::new();
        let mut i: usize = 0;
        while i < ids.len()
            invariant
                i <= ids.len(),
                self.wf(),
                forall|s: &S| call_requires(count, (s,)),
                lists_keys(self.entries@.dom(), ids@),
                out.len() == i,
                forall|k: int| 0 <= k < i ==> (#[trigger] out@[k]).id == ids@[k],
                forall|k: int|
                    0 <= k < i ==> self.entries@.contains_key((#[trigger] out@[k]).id)
                        && out@[k].shows(self.entries@[out@[k].id].def) && call_ensures(
                        count,
                        (&self.entries@[out@[k].id].site,),
                        out@[k].component_count,
                    ),
            decreases ids.len() - i,
        {
            assert(ids@.contains(ids@[i as int]));
            assert(self.entries@.contains_key(ids@[i as int]));
            if let Some(e) = self.entries.get(&ids[i]) {
                let component_count: usize = count(&e.site);
                out.push(
                    MicrogridView {
                        id: e.def.id,
                        name: e.def.name.clone(),
                        grpc_port: e.def.grpc_port,
                        tso: clone_text(&e.def.tso),
                        component_count,
                    },
                );
            }
            i = i + 1;
        }
        assert forall|i: int, j: int| #![trigger out@[i], out@[j]] 0 <= i < j
            < out@.len() implies out@[i].id < out@[j].id by {
            assert(out@[i].id == ids@[i] && out@[j].id == ids@[j]);
        }
        out
    }
}

/// Runs `f` with `id` as the current microgrid and restores the one before.
pub fn with_microgrid<R, F: FnOnce(&Option<u64>) -> R>(current: &mut Option<u64>, id: u64, f: F) -> (out:
    R)
    requires
        call_requires(f, (&Some(id),)),
    ensures
        call_ensures(f, (&Some(id),), out),
        *final(current) == *old(current),
{
    let prior = *current;
    *current = Some(id);
    let out = f(current);
    *current = prior;
    out
}

/// `s` with backslashes and double quotes escaped.
pub open spec fn escaped(s: Seq<char>) -> Seq<char>
    decreases s.len(),
{
    if s.len() == 0 {
        Seq::empty()
    } else {
        let rest = escaped(s.drop_last());
        let c = s.last();
        if c == '\\' || c == '"' {
            rest.push('\\').push(c)
        } else {
            rest.push(c)
        }
    }
}

/// The text of a string literal, up to its closing quote, and what stands
/// behind that; a backslash takes the next character as it is.
pub open spec fn literal(s: Seq<char>) -> (Seq<char>, Seq<char>)
    decreases s.len(),
{
    if s.len() == 0 {
        (Seq::empty(), Seq::empty())
    } else if s[0] == '"' {
        (Seq::empty(), s.skip(1))
    } else if s[0] == '\\' && s.len() > 1 {
        let behind = literal(s.skip(2));
        (seq![s[1]] + behind.0, behind.1)
    } else {
        let behind = literal(s.skip(1));
        (seq![s[0]] + behind.0, behind.1)
    }
}

/// An escaped text reads back from between quotes, whatever it holds and
/// whatever stands behind it.
pub proof fn escaped_text_reads_back(s: Seq<char>, behind: Seq<char>)
    ensures
        literal(escaped(s) + seq!['"'] + behind) == (s, behind),
{
    let rest = seq!['"'] + behind;
    assert(escaped(s) + seq!['"'] + behind =~= escaped(s) + rest);
    escaped_prefix_reads(s, rest);
    assert(rest.skip(1) =~= behind);
    assert(s + literal(rest).0 =~= s);
}

proof fn escaped_prefix_reads(s: Seq<char>, rest: Seq<char>)
    ensures
        literal(escaped(s) + rest) == (s + literal(rest).0, literal(rest).1),
    decreases s.len(),
{
    if s.len() == 0 {
        assert(escaped(s) + rest =~= rest);
        assert(s + literal(rest).0 =~= literal(rest).0);
    } else {
        let init = s.drop_last();
        let c = s.last();
        let tail = if c == '\\' || c == '"' {
            seq!['\\', c] + rest
        } else {
            seq![c] + rest
        };
        assert(escaped(s) + rest =~= escaped(init) + tail);
        escaped_prefix_reads(init, tail);
        if c == '\\' || c == '"' {
            assert(tail.skip(2) =~= rest);
        } else {
            assert(tail.skip(1) =~= rest);
        }
        assert(literal(tail).0 =~= seq![c] + literal(rest).0);
        assert(init + literal(tail).0 =~= s + literal(rest).0);
    }
}

fn push_escaped(out: &mut String, s: &str)
    ensures
        final(out)@ == old(out)@ + escaped(s@),
{
    let chars = chars_of(s);
    let ghost start = out@;
    let mut i: usize = 0;
    assert(start + escaped(chars@.subrange(0, 0)) =~= start);
    while i < chars.len()
        invariant
            i <= chars.len(),
            chars@ == s@,
            out@ == start + escaped(chars@.subrange(0, i as int)),
        decreases chars.len() - i,
    {
        assert(chars@.subrange(0, i + 1).drop_last() =~= chars@.subrange(0, i as int));
        let c = chars[i];
        if c == '\\' || c == '"' {
            out.push('\\');
        }
        out.push(c);
        i = i + 1;
        assert(out@ =~= start + escaped(chars@.subrange(0, i as int)));
    }
    assert(chars@.subrange(0, i as int) =~= chars@);
}

/// The zone label's form in a stub; nothing for an absent or empty label.
pub open spec fn zone_form(tso: Option<Seq<char>>) -> Seq<char> {
    match tso {
        Some(t) => if t.len() == 0 {
            Seq::empty()
        } else {
            " :tso \""@ + escaped(t) + "\""@
        },
        None => Seq::empty(),
    }
}

/// The configuration stub of a microgrid created at run time.
pub open spec fn stub_text(id: u64, name: Seq<char>, port: u16, tso: Option<Seq<char>>) -> Seq<
    char,
> {
    let digits = decimal_text(id as nat);
    ";; Runtime-created microgrid (id "@ + digits + "). Edit by hand or via\n"@
        + ";; the UI \u{2014} UI edits land in config."@ + digits
        + ".overrides.lisp next\n;; to this file.\n\n(make-microgrid\n :id "@ + digits
        + "\n :name \""@ + escaped(name) + "\"\n :grpc-port "@ + decimal_text(port as nat)
        + zone_form(tso) + "\n :topology\n (lambda ()\n   (load-overrides)))\n"@
}

/// Writes the configuration stub of a microgrid created at run time.
pub fn microgrid_stub(id: u64, name: &str, grpc_port: u16, tso: Option<&str>) -> (out: String)
    ensures
        out@ == stub_text(
            id,
            name@,
            grpc_port,
            (match tso {
                Some(t) => Some(t@),
                None => None,
            }),
        ),
{
    let mut out = String::from_str(";; Runtime-created microgrid (id ");
    push_decimal(&mut out, id);
    out.append("). Edit by hand or via\n");
    out.append(";; the UI \u{2014} UI edits land in config.");
    push_decimal(&mut out, id);
    out.append(".overrides.lisp next\n;; to this file.\n\n(make-microgrid\n :id ");
    push_decimal(&mut out, id);
    out.append("\n :name \"");
    push_escaped(&mut out, name);
    out.append("\"\n :grpc-port ");
    push_decimal(&mut out, grpc_port as u64);
    if let Some(t) = tso {
        let ghost before = out@;
        if !t.is_empty() {
            out.append(" :tso \"");
            push_escaped(&mut out, t);
            out.append("\"");
            assert(out@ =~= before + zone_form(Some(t@)));
        } else {
            assert(out@ =~= before + zone_form(Some(t@)));
        }
    } else {
        assert(out@ =~= out@ + zone_form(None));
    }
    out.append("\n :topology\n (lambda ()\n   (load-overrides)))\n");
    out
}

/// The file name of a microgrid's stub.
pub fn stub_file_name(id: u64) -> (out: String)
    ensures
        out@ == "config."@ + decimal_text(id as nat) + ".lisp"@,
{
    let mut out = String::from_str("config.");
    push_decimal(&mut out, id);
    out.append(".lisp");
    out
}

/// The first free candidate is the first: every candidate before it is claimed,
/// and it is itself a candidate unless the last resort is reached.
pub proof fn earlier_candidates_are_claimed(
    claimed: spec_fn(int) -> bool,
    from: int,
    step: int,
    last: int,
    k: nat,
)
    requires
        step > 0,
        from < last,
    ensures
        from + k * step < first_free(claimed, from, step, last) ==> claimed(from + k * step),
        !claimed(from) ==> first_free(claimed, from, step, last) == from,
        from + k * step < last && !claimed(from + k * step) ==> first_free(
            claimed,
            from,
            step,
            last,
        ) <= from + k * step,
    decreases k,
{
    if k > 0 && claimed(from) {
        assert(from + k * step == (from + step) + (k - 1) * step) by (nonlinear_arith);
        assert((k - 1) * step >= 0) by (nonlinear_arith)
            requires
                k > 0,
                step > 0,
        ;
        if from + step < last {
            earlier_candidates_are_claimed(claimed, from + step, step, last, (k - 1) as nat);
        }
    } else {
        assert(0 * step == 0) by (nonlinear_arith);
        assert(k > 0 ==> k * step > 0) by (nonlinear_arith)
            requires
                step > 0,
        ;
    }
}

/// A created microgrid takes the lowest free id from 2200 on and the lowest
/// free port from 8800 on in steps of ten: whatever lies before is taken.
pub proof fn created_microgrid_takes_the_lowest<S>(
    entries: Map<u64, MicrogridEntry<S>>,
    def: MicrogridDef,
    id: u64,
    k: nat,
)
    requires
        takes_first_free(entries, def),
    ensures
        2200 <= id < def.id ==> entries.contains_key(id),
        2200 <= def.id,
        8800 + 10 * k < def.grpc_port ==> exists|other: u64| #[trigger]
            entries.contains_key(other) && entries[other].def.grpc_port == 8800 + 10 * k,
        8800 <= def.grpc_port,
        !entries.contains_key(2200) ==> def.id == 2200,
        (forall|other: u64| #[trigger]
            entries.contains_key(other) ==> entries[other].def.grpc_port != 8800)
            ==> def.grpc_port == 8800,
{
    let by_id = |i: int| entries.contains_key(i as u64);
    let by_port = |p: int| port_claimed(entries, p);
    first_free_is_free(by_id, 2200, 1, u64::MAX as int);
    first_free_is_free(by_port, 8800, 10, u16::MAX as int);
    if 2200 <= id {
        earlier_candidates_are_claimed(by_id, 2200, 1, u64::MAX as int, (id - 2200) as nat);
        assert(2200 + (id - 2200) * 1 == id);
        assert(2200 + ((id - 2200) as nat) * 1 == id);
    }
    earlier_candidates_are_claimed(by_id, 2200, 1, u64::MAX as int, 0);
    earlier_candidates_are_claimed(by_port, 8800, 10, u16::MAX as int, k);
    assert(8800 + k * 10 == 8800 + 10 * k);
}

/// A microgrid that is registered stays chosen; else the registered one with
/// the lowest id is, and none only where none is registered.
pub proof fn resolving_prefers_the_current<S>(
    grids: Microgrids<S>,
    current: Option<u64>,
    out: Option<u64>,
)
    requires
        grids.spec_resolve(current, out),
    ensures
        out matches Some(id) ==> grids.entries@.contains_key(id),
        current matches Some(id) ==> (grids.entries@.contains_key(id) ==> out == Some(id)),
        out is None ==> forall|id: u64| !#[trigger] grids.entries@.contains_key(id),
        current is None ==> (out matches Some(id) ==> forall|other: u64| #[trigger]
            grids.entries@.contains_key(other) ==> id <= other),
{
}

/// A stub names no transmission zone where there is none.
pub proof fn empty_zone_is_left_out(zone: Seq<char>)
    ensures
        zone_form(None).len() == 0,
        zone_form(Some(Seq::empty())).len() == 0,
        zone.len() > 0 ==> zone_form(Some(zone)) == " :tso \""@ + escaped(zone) + "\""@,
{
}

/// A view shows a microgrid as it is registered.
pub proof fn view_shows_the_definition(view: MicrogridView, def: MicrogridDef)
    requires
        view.shows(def),
    ensures
        view.id == def.id,
        view.name == def.name,
        view.grpc_port == def.grpc_port,
        view.tso == def.tso,
{
}

} // verus!
