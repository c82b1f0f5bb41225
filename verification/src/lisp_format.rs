//! Lisp source as clients see it: pretty-printed where it can be.

use crate::answers::{Refusal, BAD_REQUEST};
use crate::text::{chars_of, string_of, trim_end, trimmed_end};
use vstd::prelude::*;

verus! {

/// Width where a request names none.
pub const DEFAULT_WIDTH: usize = 80;

/// The narrowest and the widest layout that is served.
pub const MIN_WIDTH: usize = 20;

pub const MAX_WIDTH: usize = 200;

/// Width of a form in the list of overrides.
pub const OVERRIDE_WIDTH: usize = 60;

/// Width of a form in the list of defaults.
pub const DEFAULTS_WIDTH: usize = 50;

/// Where a reader of Lisp source is.
#[derive(Clone, Copy, Debug, PartialEq, Eq, Structural)]
pub enum Mode {
    /// Between tokens.
    Code,
    Comment,
    /// In a string.
    Text,
    /// Behind a backslash in a string.
    Escape,
    /// In a bare atom.
    Atom,
    /// Behind the question mark of a character literal.
    Literal,
    /// Behind the backslash of a character literal.
    LiteralEscape,
    /// Behind a hash sign, which may begin a reader prefix.
    Hash,
    /// Behind a comma, which may go on with an at sign.
    Comma,
    /// Behind a closing parenthesis that closes nothing.
    Unbalanced,
    /// Behind a character literal that is not ASCII.
    Broken,
}

/// A reader's place: how many lists are open, and whether a reader prefix
/// waits for its form.
#[derive(Clone, Copy, Debug, PartialEq, Eq, Structural)]
pub struct Place {
    pub mode: Mode,
    pub depth: u64,
    pub prefixed: bool,
}

impl Place {
    pub open spec fn at(self, mode: Mode) -> Place {
        Place { mode, ..self }
    }

    /// The place behind a whole form.
    pub open spec fn past_form(self) -> Place {
        Place { mode: Mode::Code, prefixed: false, ..self }
    }

    /// The place behind a reader prefix.
    pub open spec fn past_prefix(self) -> Place {
        Place { mode: Mode::Code, prefixed: true, ..self }
    }
}

/// A character that ends a bare atom.
pub open spec fn ends_atom(c: char) -> bool {
    c == ' ' || c == '\t' || c == '\r' || c == '\n' || c == '(' || c == ')' || c == '\'' || c == '`'
        || c == ',' || c == '"' || c == ';'
}

/// The place behind a character that begins a token.
pub open spec fn begins(p: Place, c: char) -> Place {
    if c == ' ' || c == '\t' || c == '\r' || c == '\n' {
        p.at(Mode::Code)
    } else if c == '(' {
        Place { mode: Mode::Code, depth: (p.depth + 1) as u64, prefixed: false }
    } else if c == ')' {
        if p.depth == 0 || p.prefixed {
            p.at(Mode::Unbalanced)
        } else {
            Place { mode: Mode::Code, depth: (p.depth - 1) as u64, prefixed: false }
        }
    } else if c == '\'' || c == '`' {
        p.past_prefix()
    } else if c == ',' {
        p.at(Mode::Comma)
    } else if c == '#' {
        p.at(Mode::Hash)
    } else if c == ';' {
        p.at(Mode::Comment)
    } else if c == '"' {
        p.at(Mode::Text)
    } else if c == '?' {
        p.at(Mode::Literal)
    } else {
        Place { mode: Mode::Atom, prefixed: false, ..p }
    }
}

/// The place behind one more character.
pub open spec fn reads(p: Place, c: char) -> Place {
    match p.mode {
        Mode::Code => begins(p, c),
        Mode::Comment => if c == '\n' {
            p.at(Mode::Code)
        } else {
            p
        },
        Mode::Text => if c == '\\' {
            p.at(Mode::Escape)
        } else if c == '"' {
            p.past_form()
        } else {
            p
        },
        Mode::Escape => p.at(Mode::Text),
        Mode::Atom => if ends_atom(c) {
            begins(p.past_form(), c)
        } else {
            p
        },
        Mode::Literal => if c as u32 >= 128 {
            p.at(Mode::Broken)
        } else if c == '\\' {
            p.at(Mode::LiteralEscape)
        } else {
            p.past_form()
        },
        Mode::LiteralEscape => Place { mode: Mode::Atom, prefixed: false, ..p },
        Mode::Hash => if c == '\'' {
            p.past_prefix()
        } else if ends_atom(c) {
            begins(p.past_form(), c)
        } else {
            Place { mode: Mode::Atom, prefixed: false, ..p }
        },
        Mode::Comma => if c == '@' {
            p.past_prefix()
        } else {
            begins(p.past_prefix(), c)
        },
        Mode::Unbalanced => p,
        Mode::Broken => p,
    }
}

/// The place behind `source`.
pub open spec fn place_behind(source: Seq<char>) -> Place
    decreases source.len(),
{
    if source.len() == 0 {
        Place { mode: Mode::Code, depth: 0, prefixed: false }
    } else {
        reads(place_behind(source.drop_last()), source.last())
    }
}

/// Source that the formatter can be given. It takes one byte of a character
/// literal, so it cannot go on behind a literal that is not ASCII; source
/// that it refuses before it gets there does no harm.
pub open spec fn is_formattable(source: Seq<char>) -> bool {
    source.len() <= u32::MAX && !(place_behind(source).mode is Broken)
}

fn begin(p: Place, c: char) -> (out: Place)
    requires
        p.depth < u64::MAX,
    ensures
        out == begins(p, c),
        out.depth <= p.depth + 1,
{
    if c == ' ' || c == '\t' || c == '\r' || c == '\n' {
        Place { mode: Mode::Code, ..p }
    } else if c == '(' {
        Place { mode: Mode::Code, depth: p.depth + 1, prefixed: false }
    } else if c == ')' {
        if p.depth == 0 || p.prefixed {
            Place { mode: Mode::Unbalanced, ..p }
        } else {
            Place { mode: Mode::Code, depth: p.depth - 1, prefixed: false }
        }
    } else if c == '\'' || c == '`' {
        Place { mode: Mode::Code, prefixed: true, ..p }
    } else if c == ',' {
        Place { mode: Mode::Comma, ..p }
    } else if c == '#' {
        Place { mode: Mode::Hash, ..p }
    } else if c == ';' {
        Place { mode: Mode::Comment, ..p }
    } else if c == '"' {
        Place { mode: Mode::Text, ..p }
    } else if c == '?' {
        Place { mode: Mode::Literal, ..p }
    } else {
        Place { mode: Mode::Atom, prefixed: false, ..p }
    }
}

fn atom_ends(c: char) -> (out: bool)
    ensures
        out == ends_atom(c),
{
    c == ' ' || c == '\t' || c == '\r' || c == '\n' || c == '(' || c == ')' || c == '\'' || c == '`'
        || c == ',' || c == '"' || c == ';'
}

fn read(p: Place, c: char) -> (out: Place)
    requires
        p.depth < u64::MAX,
    ensures
        out == reads(p, c),
        out.depth <= p.depth + 1,
{
    match p.mode {
        Mode::Code => begin(p, c),
        Mode::Comment => if c == '\n' {
            Place { mode: Mode::Code, ..p }
        } else {
            p
        },
        Mode::Text => if c == '\\' {
            Place { mode: Mode::Escape, ..p }
        } else if c == '"' {
            Place { mode: Mode::Code, prefixed: false, ..p }
        } else {
            p
        },
        Mode::Escape => Place { mode: Mode::Text, ..p },
        Mode::Atom => if atom_ends(c) {
            begin(Place { mode: Mode::Code, prefixed: false, ..p }, c)
        } else {
            p
        },
        Mode::Literal => if c as u32 >= 128 {
            Place { mode: Mode::Broken, ..p }
        } else if c == '\\' {
            Place { mode: Mode::LiteralEscape, ..p }
        } else {
            Place { mode: Mode::Code, prefixed: false, ..p }
        },
        Mode::LiteralEscape => Place { mode: Mode::Atom, prefixed: false, ..p },
        Mode::Hash => if c == '\'' {
            Place { mode: Mode::Code, prefixed: true, ..p }
        } else if atom_ends(c) {
            begin(Place { mode: Mode::Code, prefixed: false, ..p }, c)
        } else {
            Place { mode: Mode::Atom, prefixed: false, ..p }
        },
        Mode::Comma => if c == '@' {
            Place { mode: Mode::Code, prefixed: true, ..p }
        } else {
            begin(Place { mode: Mode::Code, prefixed: true, ..p }, c)
        },
        Mode::Unbalanced => p,
        Mode::Broken => p,
    }
}

/// Whether the formatter can be given `source`.
pub fn formattable(source: &str) -> (out: bool)
    ensures
        out == is_formattable(source@),
{
    let s = chars_of(source);
    if s.len() > u32::MAX as usize {
        return false;
    }
    let mut p = Place { mode: Mode::Code, depth: 0, prefixed: false };
    let mut i: usize = 0;
    while i < s.len()
        invariant
            i <= s.len() <= u32::MAX,
            s@ == source@,
            p == place_behind(source@.take(i as int)),
            p.depth <= i,
        decreases s.len() - i,
    {
        assert(source@.take(i + 1).drop_last() =~= source@.take(i as int));
        p = read(p, s[i]);
        i = i + 1;
    }
    assert(source@.take(s.len() as int) =~= source@);
    match p.mode {
        Mode::Broken => false,
        _ => true,
    }
}

/// What `tulisp_fmt::format_with_width` gives for a source and a width: the
/// formatted source, or the message of its parse error.
pub uninterp spec fn formatted(source: Seq<char>, width: usize) -> Result<Seq<char>, Seq<char>>;

/// A result of the formatter, by the characters of its strings.
pub open spec fn result_text(out: Result<String, String>) -> Result<Seq<char>, Seq<char>> {
    match out {
        Ok(s) => Ok(s@),
        Err(e) => Err(e@),
    }
}

/// `tulisp_fmt::format_with_width`: pretty-prints Lisp source within a width.
/// The result depends on the two arguments alone; how source is laid out, and
/// which source is refused, is left to tulisp-fmt.
#[verifier::external_body]
fn format_with_width(source: &str, width: usize) -> (out: Result<String, String>)
    requires
        is_formattable(source@),
    ensures
        result_text(out) == formatted(source@, width),
{
    tulisp_fmt::format_with_width(source, width).map_err(|e: tulisp_fmt::parse::ParseError| e.message)
}

/// The answer to a request to format: the formatted source, or a refusal with
/// the parse error.
pub fn format_answer(result: Result<String, String>) -> (out: Result<String, Refusal>)
    ensures
        match result {
            Ok(s) => out == Ok::<_, Refusal>(s),
            Err(e) => out matches Err(r) && r.says(BAD_REQUEST, e@),
        },
{
    match result {
        Ok(s) => Ok(s),
        Err(message) => Err(Refusal { status: BAD_REQUEST, message }),
    }
}

/// The width that is served, by what was asked.
pub open spec fn served_width(width: Option<usize>) -> usize {
    match width {
        None => DEFAULT_WIDTH,
        Some(w) => if w < MIN_WIDTH {
            MIN_WIDTH
        } else if w > MAX_WIDTH {
            MAX_WIDTH
        } else {
            w
        },
    }
}

/// Formats source for a client.
pub fn format(source: &str, width: Option<usize>) -> (out: Result<String, Refusal>)
    requires
        is_formattable(source@),
    ensures
        match formatted(source@, served_width(width)) {
            Ok(s) => out matches Ok(f) && f@ == s,
            Err(e) => out matches Err(r) && r.says(BAD_REQUEST, e),
        },
{
    let w: usize = match width {
        None => DEFAULT_WIDTH,
        Some(w) => if w < MIN_WIDTH {
            MIN_WIDTH
        } else if w > MAX_WIDTH {
            MAX_WIDTH
        } else {
            w
        },
    };
    let result = format_with_width(source, w);
    format_answer(result)
}

/// How a stored form is shown, by what the formatter gave for it: without
/// trailing white space, or as it is where it does not parse.
pub open spec fn shown_form(source: Seq<char>, result: Result<Seq<char>, Seq<char>>) -> Seq<char> {
    match result {
        Ok(s) => trimmed_end(s),
        Err(_) => source,
    }
}

pub fn show_form(source: String, result: Result<String, String>) -> (out: String)
    ensures
        out@ == shown_form(source@, result_text(result)),
{
    match result {
        Ok(s) => {
            let chars = chars_of(s.as_str());
            let cut = trim_end(&chars);
            string_of(&cut)
        },
        Err(_) => source,
    }
}

fn pretty(source: String, width: usize) -> (out: String)
    requires
        is_formattable(source@),
    ensures
        out@ == shown_form(source@, formatted(source@, width)),
{
    let result = format_with_width(source.as_str(), width);
    show_form(source, result)
}

/// One stored override as it is listed.
#[derive(Debug)]
pub struct PersistedOverrideView {
    pub idx: usize,
    pub source: String,
}

/// The stored overrides.
#[derive(Debug)]
pub struct OverridesResponse {
    pub persisted: Vec<PersistedOverrideView>,
    pub count: usize,
}

/// Lists the stored overrides, each with its place in the file.
pub fn overrides_list(forms: Vec<(usize, String)>) -> (out: OverridesResponse)
    requires
        forall|i: int| 0 <= i < forms@.len() ==> is_formattable((#[trigger] forms@[i]).1@),
    ensures
        out.count == forms@.len(),
        out.persisted@.len() == forms@.len(),
        forall|i: int|
            0 <= i < forms@.len() ==> (#[trigger] out.persisted@[i]).idx == forms@[i].0
                && out.persisted@[i].source@ == shown_form(
                forms@[i].1@,
                formatted(forms@[i].1@, OVERRIDE_WIDTH),
            ),
{
    let mut persisted: Vec<PersistedOverrideView> = Vec::new();
    let mut i: usize = 0;
    while i < forms.len()
        invariant
            i <= forms.len(),
            persisted.len() == i,
            forall|k: int| 0 <= k < forms@.len() ==> is_formattable((#[trigger] forms@[k]).1@),
            forall|k: int|
                0 <= k < i ==> (#[trigger] persisted@[k]).idx == forms@[k].0
                    && persisted@[k].source@ == shown_form(
                    forms@[k].1@,
                    formatted(forms@[k].1@, OVERRIDE_WIDTH),
                ),
        decreases forms.len() - i,
    {
        let source = forms[i].1.clone();
        assert(is_formattable(forms@[i as int].1@));
        let shown = pretty(source, OVERRIDE_WIDTH);
        persisted.push(PersistedOverrideView { idx: forms[i].0, source: shown });
        i = i + 1;
    }
    let count: usize = persisted.len();
    OverridesResponse { persisted, count }
}

/// The kinds of components that have defaults, in listing order.
pub open spec fn default_category(i: int) -> Seq<char> {
    if i == 0 {
        "grid"@
    } else if i == 1 {
        "meter"@
    } else if i == 2 {
        "battery"@
    } else if i == 3 {
        "battery-inverter"@
    } else if i == 4 {
        "solar-inverter"@
    } else if i == 5 {
        "ev-charger"@
    } else {
        "chp"@
    }
}

/// How many kinds of components have defaults.
pub const DEFAULT_CATEGORIES: usize = 7;

/// The variable that holds the defaults of a kind of component.
pub open spec fn defaults_variable(i: int) -> Seq<char> {
    default_category(i) + "-defaults"@
}

/// The kind of component at a place of the listing, and its variable.
pub fn default_names(i: usize) -> (out: (&'static str, String))
    requires
        i < DEFAULT_CATEGORIES,
    ensures
        out.0@ == default_category(i as int),
        out.1@ == defaults_variable(i as int),
{
    let category = if i == 0 {
        "grid"
    } else if i == 1 {
        "meter"
    } else if i == 2 {
        "battery"
    } else if i == 3 {
        "battery-inverter"
    } else if i == 4 {
        "solar-inverter"
    } else if i == 5 {
        "ev-charger"
    } else {
        "chp"
    };
    let mut name = String::from_str(category);
    name.append("-defaults");
    (category, name)
}

/// The defaults of one kind of component.
#[derive(Debug)]
pub struct DefaultsEntry {
    pub category: &'static str,
    pub var_name: String,
    pub value: String,
}

/// How many of the first `n` values are bound.
pub open spec fn bound_before(values: Seq<Option<String>>, n: int) -> nat
    decreases n,
{
    if n <= 0 {
        0
    } else {
        bound_before(values, n - 1) + (if values[n - 1] is Some {
            1nat
        } else {
            0
        })
    }
}

impl DefaultsEntry {
    /// The entry shows the value of the variable at place `i`.
    pub open spec fn shows(self, i: int, value: Seq<char>) -> bool {
        &&& self.category@ == default_category(i)
        &&& self.var_name@ == defaults_variable(i)
        &&& self.value@ == shown_form(value, formatted(value, DEFAULTS_WIDTH))
    }
}

/// Lists the defaults of every kind of component whose variable is bound;
/// `values` holds the printed value of each variable, in listing order.
pub fn defaults(values: &Vec<Option<String>>) -> (out: Vec<DefaultsEntry>)
    requires
        values.len() == DEFAULT_CATEGORIES,
        forall|i: int|
            0 <= i < values@.len() ==> (#[trigger] values@[i] matches Some(v) ==> is_formattable(
                v@,
            )),
    ensures
        out@.len() == bound_before(values@, values@.len() as int),
        forall|i: int|
            0 <= i < values@.len() ==> (#[trigger] values@[i] matches Some(v)
                ==> out@[bound_before(values@, i) as int].shows(i, v@)),
{
    let mut out: Vec<DefaultsEntry> = Vec::new();
    let mut i: usize = 0;
    while i < values.len()
        invariant
            i <= values.len(),
            values.len() == DEFAULT_CATEGORIES,
            out.len() == bound_before(values@, i as int),
            forall|k: int|
                0 <= k < values@.len() ==> (#[trigger] values@[k] matches Some(v)
                    ==> is_formattable(v@)),
            forall|k: int|
                0 <= k < i ==> bound_before(values@, k) + (if #[trigger] values@[k] is Some {
                    1nat
                } else {
                    0
                }) <= out.len(),
            forall|k: int|
                0 <= k < i ==> (#[trigger] values@[k] matches Some(v)
                    ==> out@[bound_before(values@, k) as int].shows(k, v@)),
        decreases values.len() - i,
    {
        if let Some(value) = &values[i] {
            assert(values@[i as int] is Some);
            let (category, var_name) = default_names(i);
            let shown = pretty(value.clone(), DEFAULTS_WIDTH);
            out.push(DefaultsEntry { category, var_name, value: shown });
        }
        i = i + 1;
    }
    out
}

/// A width is served as asked between twenty and two hundred columns, else at
/// the nearer end; eighty where none is asked.
pub proof fn width_stays_in_range(w: usize)
    ensures
        20 <= w <= 200 ==> served_width(Some(w)) == w,
        w < 20 ==> served_width(Some(w)) == 20,
        w > 200 ==> served_width(Some(w)) == 200,
        served_width(None) == served_width(Some(80)),
{
}

/// A form that could be formatted is shown without blanks behind it, and one
/// that could not as it was written.
pub proof fn forms_are_shown_formatted(
    source: Seq<char>,
    text: Seq<char>,
    fault: Seq<char>,
)
    ensures
        shown_form(source, Err(fault)) == source,
        shown_form(source, Ok(text)) == trimmed_end(text),
{
}

/// A source of ASCII characters alone can be formatted.
pub proof fn ascii_sources_are_formattable(source: Seq<char>)
    requires
        source.len() <= u32::MAX,
        forall|i: int| 0 <= i < source.len() ==> ((#[trigger] source[i]) as u32) < 128,
    ensures
        is_formattable(source),
{
    ascii_never_breaks(source);
}

proof fn ascii_never_breaks(source: Seq<char>)
    requires
        forall|i: int| 0 <= i < source.len() ==> ((#[trigger] source[i]) as u32) < 128,
    ensures
        !(place_behind(source).mode is Broken),
    decreases source.len(),
{
    if source.len() > 0 {
        let init = source.drop_last();
        assert forall|i: int| 0 <= i < init.len() implies ((#[trigger] init[i]) as u32) < 128 by {
            assert(init[i] == source[i]);
        }
        ascii_never_breaks(init);
        assert((source[source.len() - 1] as u32) < 128);
    }
}

/// A character literal between tokens that is not ASCII cannot be formatted,
/// whatever follows it; in a comment or a string it does no harm.
pub proof fn foreign_literals_break(source: Seq<char>, c: char, rest: Seq<char>)
    requires
        c as u32 >= 128,
    ensures
        place_behind(source).mode is Code ==> !is_formattable(source + seq!['?', c] + rest),
        place_behind(source).mode is Text || place_behind(source).mode is Comment ==> place_behind(
            source + seq!['?', c],
        ) == place_behind(source),
    decreases rest.len(),
{
    let marked = source + seq!['?'];
    let head = source + seq!['?', c];
    assert(head.drop_last() =~= marked);
    assert(marked.drop_last() =~= source);
    assert(head.last() == c && marked.last() == '?');
    assert(place_behind(marked) == reads(place_behind(source), '?'));
    assert(place_behind(head) == reads(place_behind(marked), c));
    if place_behind(source).mode is Code {
        broken_stays(head, rest);
    }
}

proof fn broken_stays(source: Seq<char>, rest: Seq<char>)
    requires
        place_behind(source).mode is Broken,
    ensures
        place_behind(source + rest).mode is Broken,
    decreases rest.len(),
{
    if rest.len() == 0 {
        assert(source + rest =~= source);
    } else {
        broken_stays(source, rest.drop_last());
        assert((source + rest).drop_last() =~= source + rest.drop_last());
    }
}

/// Parentheses between tokens nest: an opening one goes one level down and a
/// closing one comes back up.
pub proof fn parentheses_nest(p: Place)
    requires
        p.mode is Code,
        p.depth < u64::MAX,
    ensures
        reads(p, '(').mode is Code,
        reads(p, '(').depth == p.depth + 1,
        reads(reads(p, '('), ')').depth == p.depth,
        reads(reads(p, '('), ')').mode is Code,
        p.depth == 0 ==> reads(p, ')').mode is Unbalanced,
        reads(reads(p, '"'), '"').depth == p.depth,
        reads(reads(p, '"'), '"').mode is Code,
        reads(reads(p, ';'), '\n').mode is Code,
{
}

/// The defaults before a place are as many as there are values before it.
pub proof fn bound_values_are_counted(values: Seq<Option<String>>, n: int)
    requires
        0 <= n <= values.len(),
    ensures
        bound_before(values, n) == values.take(n).filter(|v: Option<String>| v is Some).len(),
    decreases n,
{
    reveal(Seq::filter);
    if n > 0 {
        bound_values_are_counted(values, n - 1);
        assert(values.take(n).drop_last() =~= values.take(n - 1));
    }
}

/// An entry of the defaults shows the category of its place, the variable named
/// after it and the value as it is formatted.
pub proof fn defaults_name_their_category(entry: DefaultsEntry, i: int, value: Seq<char>)
    requires
        entry.shows(i, value),
    ensures
        entry.category@ == default_category(i),
        entry.var_name@ == entry.category@ + "-defaults"@,
        entry.value@ == shown_form(value, formatted(value, DEFAULTS_WIDTH)),
{
}

} // verus!
