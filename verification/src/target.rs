//! Dispatch targets: which components a dispatch addresses.

use crate::text::{
    chars_of, debug_quoted, decimal_round_trip, decimal_text, decimal_text_parses, is_digit,
    is_white, joined, joined_push, lower_chars, lowered, lowering_touches_capitals_only,
    parse_unsigned, pieces, push_decimal, push_signed, quoted, signed_text, spells, split,
    string_of, trim, trimmed, trimmed_start, unsigned, views,
};
use vstd::prelude::*;

verus! {

/// Wire numbers of the component categories that have an alias.
pub const GRID_CONNECTION_POINT: i32 = 1;

pub const METER: i32 = 2;

pub const INVERTER: i32 = 3;

pub const BATTERY: i32 = 5;

pub const EV_CHARGER: i32 = 6;

pub const CHP: i32 = 9;

/// The finer type of a category, by wire number.
#[derive(Clone, Copy, Debug, PartialEq, Eq, Structural)]
pub enum CategoryType {
    Battery(i32),
    EvCharger(i32),
    Inverter(i32),
}

/// A component category, optionally narrowed to one type of it.
#[derive(Clone, Copy, Debug, PartialEq, Eq, Structural)]
pub struct CategoryAndType {
    pub category: i32,
    pub kind: Option<CategoryType>,
}

#[derive(Debug)]
pub struct IdSet {
    pub ids: Vec<u64>,
}

#[derive(Debug)]
pub struct CategorySet {
    pub categories: Vec<i32>,
}

#[derive(Debug)]
pub struct CategoryTypeSet {
    pub categories: Vec<CategoryAndType>,
}

#[derive(Debug)]
pub enum Components {
    ComponentIds(IdSet),
    ComponentCategories(CategorySet),
    ComponentCategoriesTypes(CategoryTypeSet),
}

#[derive(Debug)]
pub struct TargetComponents {
    pub components: Option<Components>,
}

/// What a target addresses.
#[verifier::ext_equal]
pub enum TargetView {
    Nothing,
    Ids(Seq<u64>),
    Categories(Seq<i32>),
    CategoriesTypes(Seq<CategoryAndType>),
}

impl View for TargetComponents {
    type V = TargetView;

    open spec fn view(&self) -> TargetView {
        match self.components {
            None => TargetView::Nothing,
            Some(Components::ComponentIds(set)) => TargetView::Ids(set.ids@),
            Some(Components::ComponentCategories(set)) => TargetView::Categories(set.categories@),
            Some(Components::ComponentCategoriesTypes(set)) => TargetView::CategoriesTypes(
                set.categories@,
            ),
        }
    }
}

/// The category that a name stands for, ASCII case ignored.
pub open spec fn alias_category(token: Seq<char>) -> Option<i32> {
    let name = lowered(token);
    if name == "battery"@ {
        Some(BATTERY)
    } else if name == "grid"@ {
        Some(GRID_CONNECTION_POINT)
    } else if name == "meter"@ {
        Some(METER)
    } else if name == "inverter"@ {
        Some(INVERTER)
    } else if name == "ev_charger"@ || name == "ev-charger"@ || name == "evcharger"@ {
        Some(EV_CHARGER)
    } else if name == "chp"@ {
        Some(CHP)
    } else {
        None
    }
}

pub fn category_from_alias(token: &Vec<char>) -> (out: Option<i32>)
    ensures
        out == alias_category(token@),
{
    let name = lower_chars(token);
    if spells(&name, "battery") {
        Some(BATTERY)
    } else if spells(&name, "grid") {
        Some(GRID_CONNECTION_POINT)
    } else if spells(&name, "meter") {
        Some(METER)
    } else if spells(&name, "inverter") {
        Some(INVERTER)
    } else if spells(&name, "ev_charger") || spells(&name, "ev-charger") || spells(
        &name,
        "evcharger",
    ) {
        Some(EV_CHARGER)
    } else if spells(&name, "chp") {
        Some(CHP)
    } else {
        None
    }
}

/// The parts that hold more than white space, trimmed.
pub open spec fn nonblank(parts: Seq<Seq<char>>) -> Seq<Seq<char>>
    decreases parts.len(),
{
    if parts.len() == 0 {
        Seq::empty()
    } else {
        let rest = nonblank(parts.drop_last());
        let token = trimmed(parts.last());
        if token.len() == 0 {
            rest
        } else {
            rest.push(token)
        }
    }
}

/// The comma-separated tokens of a target.
pub open spec fn target_tokens(text: Seq<char>) -> Seq<Seq<char>> {
    nonblank(pieces(text, ','))
}

/// Every token spells an unsigned number.
pub open spec fn all_numbers(tokens: Seq<Seq<char>>) -> bool {
    forall|i: int| 0 <= i < tokens.len() ==> unsigned(#[trigger] tokens[i]) is Some
}

/// Every token names a category.
pub open spec fn all_aliases(tokens: Seq<Seq<char>>) -> bool {
    forall|i: int| 0 <= i < tokens.len() ==> alias_category(#[trigger] tokens[i]) is Some
}

/// `tokens[k]` is the first that is no category name.
pub open spec fn is_first_unknown(tokens: Seq<Seq<char>>, k: int) -> bool {
    &&& 0 <= k < tokens.len()
    &&& alias_category(tokens[k]) is None
    &&& forall|i: int| 0 <= i < k ==> alias_category(#[trigger] tokens[i]) is Some
}

/// The message for a token that is neither an id nor a category.
pub open spec fn unknown_target(token: Seq<char>) -> Seq<char> {
    "unknown target "@ + debug_quoted(token)
        + "; expected component ids (e.g. \"1,2\") or categories (battery, grid, meter, inverter, ev_charger, chp)"@
}

/// The text reads as that target: the ids when every token is a number,
/// otherwise the categories when every token names one.
pub open spec fn target_reads(text: Seq<char>, target: TargetView) -> bool {
    let tokens = target_tokens(text);
    &&& target_is_valid(text)
    &&& target == if all_numbers(tokens) {
        TargetView::Ids(tokens.map_values(|s: Seq<char>| unsigned(s)->0))
    } else {
        TargetView::CategoriesTypes(
            tokens.map_values(
                |s: Seq<char>| (CategoryAndType { category: alias_category(s)->0, kind: None }),
            ),
        )
    }
}

/// The text names something, and only ids or only categories.
pub open spec fn target_is_valid(text: Seq<char>) -> bool {
    let tokens = target_tokens(text);
    tokens.len() > 0 && (all_numbers(tokens) || all_aliases(tokens))
}

/// The text is no target, and `message` says why.
pub open spec fn target_refused(text: Seq<char>, message: Seq<char>) -> bool {
    let tokens = target_tokens(text);
    &&& !target_is_valid(text)
    &&& if tokens.len() == 0 {
        message == "target is empty"@
    } else {
        exists|k: int| #[trigger]
            is_first_unknown(tokens, k) && message == unknown_target(tokens[k])
    }
}

fn tokenize(text: &str) -> (out: Vec<Vec<char>>)
    ensures
        views(out@) == target_tokens(text@),
{
    let chars = chars_of(text);
    let parts = split(&chars, ',');
    let mut out: Vec<Vec<char>> = Vec::new();
    let mut i: usize = 0;
    let ghost all = views(parts@);
    assert(all.subrange(0, 0) =~= Seq::<Seq<char>>::empty());
    assert(views(out@) =~= Seq::<Seq<char>>::empty());
    while i < parts.len()
        invariant
            i <= parts.len(),
            all == views(parts@),
            views(out@) == nonblank(all.subrange(0, i as int)),
        decreases parts.len() - i,
    {
        assert(all.subrange(0, i + 1).drop_last() =~= all.subrange(0, i as int));
        assert(all.subrange(0, i + 1).last() == parts[i as int]@);
        let token = trim(&parts[i]);
        let ghost before = views(out@);
        if token.len() > 0 {
            let ghost held = token@;
            out.push(token);
            assert(views(out@) =~= before.push(held));
        }
        i = i + 1;
    }
    assert(all.subrange(0, all.len() as int) =~= all);
    out
}

/// Every token as a number, where each is one.
fn numbers(tokens: &Vec<Vec<char>>) -> (out: Option<Vec<u64>>)
    ensures
        out is Some == all_numbers(views(tokens@)),
        out matches Some(ids) ==> ids@ == views(tokens@).map_values(
            |s: Seq<char>| unsigned(s)->0,
        ),
{
    let mut ids: Vec<u64> = Vec::new();
    let mut i: usize = 0;
    let ghost all = views(tokens@);
    while i < tokens.len()
        invariant
            i <= tokens.len(),
            all == views(tokens@),
            ids.len() == i,
            forall|k: int| 0 <= k < i ==> unsigned(#[trigger] all[k]) == Some(ids[k]),
        decreases tokens.len() - i,
    {
        assert(all[i as int] == tokens[i as int]@);
        match parse_unsigned(&tokens[i]) {
            Some(id) => {
                ids.push(id);
            },
            None => {
                return None;
            },
        }
        i = i + 1;
    }
    assert(ids@ =~= all.map_values(|s: Seq<char>| unsigned(s)->0));
    Some(ids)
}

/// Reads a target: either a comma-separated list of component ids or a
/// comma-separated list of category names; the two do not mix.
pub fn parse_target(text: &str) -> (out: Result<TargetComponents, String>)
    ensures
        match out {
            Ok(t) => target_reads(text@, t@),
            Err(e) => target_refused(text@, e@),
        },
{
    let tokens = tokenize(text);
    let ghost all = views(tokens@);
    if tokens.len() == 0 {
        return Err(String::from_str("target is empty"));
    }
    if let Some(ids) = numbers(&tokens) {
        return Ok(TargetComponents { components: Some(Components::ComponentIds(IdSet { ids })) });
    }
    let mut categories: Vec<CategoryAndType> = Vec::new();
    let mut i: usize = 0;
    while i < tokens.len()
        invariant
            i <= tokens.len(),
            tokens.len() > 0,
            all == views(tokens@),
            all == target_tokens(text@),
            !all_numbers(all),
            categories.len() == i,
            forall|k: int|
                0 <= k < i ==> alias_category(#[trigger] all[k]) == Some(categories[k].category)
                    && categories[k].kind is None,
        decreases tokens.len() - i,
    {
        assert(all[i as int] == tokens[i as int]@);
        match category_from_alias(&tokens[i]) {
            Some(category) => {
                categories.push(CategoryAndType { category, kind: None });
            },
            None => {
                let token = string_of(&tokens[i]);
                let mut message = String::from_str("unknown target ");
                let name = quoted(token.as_str());
                message.append(name.as_str());
                message.append(
                    "; expected component ids (e.g. \"1,2\") or categories (battery, grid, meter, inverter, ev_charger, chp)",
                );
                assert(is_first_unknown(all, i as int));
                assert(!all_aliases(all));
                return Err(message);
            },
        }
        i = i + 1;
    }
    assert(categories@ =~= all.map_values(
        |s: Seq<char>| (CategoryAndType { category: alias_category(s)->0, kind: None }),
    ));
    Ok(
        TargetComponents {
            components: Some(Components::ComponentCategoriesTypes(CategoryTypeSet { categories })),
        },
    )
}

/// The name of a category without its prefix.
pub open spec fn category_name(category: i32) -> Option<Seq<char>> {
    match category {
        0 => Some("UNSPECIFIED"@),
        1 => Some("GRID_CONNECTION_POINT"@),
        2 => Some("METER"@),
        3 => Some("INVERTER"@),
        4 => Some("CONVERTER"@),
        5 => Some("BATTERY"@),
        6 => Some("EV_CHARGER"@),
        7 => Some("BREAKER"@),
        8 => Some("PRECHARGER"@),
        9 => Some("CHP"@),
        10 => Some("ELECTROLYZER"@),
        11 => Some("POWER_TRANSFORMER"@),
        12 => Some("HVAC"@),
        13 => Some("PLC"@),
        14 => Some("CRYPTO_MINER"@),
        15 => Some("STATIC_TRANSFER_SWITCH"@),
        16 => Some("UNINTERRUPTIBLE_POWER_SUPPLY"@),
        17 => Some("CAPACITOR_BANK"@),
        18 => Some("WIND_TURBINE"@),
        19 => Some("STEAM_BOILER"@),
        _ => None,
    }
}

/// The label of a category: its name, or its number where it has none.
pub open spec fn category_text(category: i32) -> Seq<char> {
    match category_name(category) {
        Some(name) => name,
        None => "category "@ + signed_text(category as int),
    }
}

fn known_category(category: i32) -> (out: Option<&'static str>)
    ensures
        out is Some == category_name(category) is Some,
        out matches Some(name) ==> category_name(category) == Some(name@),
{
    match category {
        0 => Some("UNSPECIFIED"),
        1 => Some("GRID_CONNECTION_POINT"),
        2 => Some("METER"),
        3 => Some("INVERTER"),
        4 => Some("CONVERTER"),
        5 => Some("BATTERY"),
        6 => Some("EV_CHARGER"),
        7 => Some("BREAKER"),
        8 => Some("PRECHARGER"),
        9 => Some("CHP"),
        10 => Some("ELECTROLYZER"),
        11 => Some("POWER_TRANSFORMER"),
        12 => Some("HVAC"),
        13 => Some("PLC"),
        14 => Some("CRYPTO_MINER"),
        15 => Some("STATIC_TRANSFER_SWITCH"),
        16 => Some("UNINTERRUPTIBLE_POWER_SUPPLY"),
        17 => Some("CAPACITOR_BANK"),
        18 => Some("WIND_TURBINE"),
        19 => Some("STEAM_BOILER"),
        _ => None,
    }
}

/// A human label for a component category.
pub fn electrical_category_label(category: i32) -> (out: String)
    ensures
        out@ == category_text(category),
{
    match known_category(category) {
        Some(name) => String::from_str(name),
        None => {
            let mut out = String::from_str("category ");
            push_signed(&mut out, category as i64);
            out
        },
    }
}

/// How a category reads in a target: by its label, and the grid connection
/// point by its name.
pub open spec fn shown_category(category: i32) -> Seq<char> {
    if category == GRID_CONNECTION_POINT {
        "GRID"@
    } else {
        category_text(category)
    }
}

/// How a target reads.
pub open spec fn target_text(target: TargetView) -> Seq<char> {
    match target {
        TargetView::Nothing => "\u{2014}"@,
        TargetView::Ids(ids) => joined(ids.map_values(|id: u64| decimal_text(id as nat)), ", "@),
        TargetView::Categories(cats) => joined(
            cats.map_values(|c: i32| shown_category(c)),
            ", "@,
        ),
        TargetView::CategoriesTypes(cats) => joined(
            cats.map_values(|c: CategoryAndType| shown_category(c.category)),
            ", "@,
        ),
    }
}

fn id_list(ids: &Vec<u64>) -> (out: String)
    ensures
        out@ == joined(ids@.map_values(|id: u64| decimal_text(id as nat)), ", "@),
{
    let mut out = String::new();
    let mut i: usize = 0;
    let ghost parts = ids@.map_values(|id: u64| decimal_text(id as nat));
    assert(parts.subrange(0, 0) =~= Seq::<Seq<char>>::empty());
    while i < ids.len()
        invariant
            i <= ids.len(),
            parts == ids@.map_values(|id: u64| decimal_text(id as nat)),
            out@ == joined(parts.subrange(0, i as int), ", "@),
        decreases ids.len() - i,
    {
        proof {
            assert(parts.subrange(0, i + 1) =~= parts.subrange(0, i as int).push(parts[i as int]));
            joined_push(parts.subrange(0, i as int), parts[i as int], ", "@);
        }
        if i > 0 {
            out.append(", ");
        }
        push_decimal(&mut out, ids[i]);
        assert(i == 0 ==> out@ =~= parts[0]);
        i = i + 1;
    }
    assert(parts.subrange(0, parts.len() as int) =~= parts);
    out
}

fn label_list(categories: &Vec<i32>) -> (out: String)
    ensures
        out@ == joined(categories@.map_values(|c: i32| shown_category(c)), ", "@),
{
    let mut out = String::new();
    let mut i: usize = 0;
    let ghost parts = categories@.map_values(|c: i32| shown_category(c));
    assert(parts.subrange(0, 0) =~= Seq::<Seq<char>>::empty());
    while i < categories.len()
        invariant
            i <= categories.len(),
            parts == categories@.map_values(|c: i32| shown_category(c)),
            out@ == joined(parts.subrange(0, i as int), ", "@),
        decreases categories.len() - i,
    {
        proof {
            assert(parts.subrange(0, i + 1) =~= parts.subrange(0, i as int).push(parts[i as int]));
            joined_push(parts.subrange(0, i as int), parts[i as int], ", "@);
        }
        if i > 0 {
            out.append(", ");
        }
        if categories[i] == GRID_CONNECTION_POINT {
            out.append("GRID");
        } else {
            let label = electrical_category_label(categories[i]);
            out.append(label.as_str());
        }
        assert(i == 0 ==> out@ =~= parts[0]);
        i = i + 1;
    }
    assert(parts.subrange(0, parts.len() as int) =~= parts);
    out
}

/// A target as a short human string, which [`parse_target`] takes again.
pub fn target_to_string(target: Option<&TargetComponents>) -> (out: String)
    ensures
        out@ == (match target {
            None => target_text(TargetView::Nothing),
            Some(t) => target_text(t@),
        }),
{
    match target {
        None => String::from_str("\u{2014}"),
        Some(t) => match &t.components {
            None => String::from_str("\u{2014}"),
            Some(Components::ComponentIds(set)) => id_list(&set.ids),
            Some(Components::ComponentCategories(set)) => label_list(&set.categories),
            Some(Components::ComponentCategoriesTypes(set)) => {
                let mut plain: Vec<i32> = Vec::new();
                let mut i: usize = 0;
                while i < set.categories.len()
                    invariant
                        i <= set.categories.len(),
                        plain.len() == i,
                        forall|k: int|
                            0 <= k < i ==> #[trigger] plain[k] == set.categories[k].category,
                    decreases set.categories.len() - i,
                {
                    plain.push(set.categories[i].category);
                    i = i + 1;
                }
                assert(plain@.map_values(|c: i32| shown_category(c))
                    =~= set.categories@.map_values(
                    |c: CategoryAndType| shown_category(c.category),
                ));
                label_list(&plain)
            },
        },
    }
}

/// A token as it stands in a list: not empty, without commas, and without
/// white space at either end.
spec fn is_token(s: Seq<char>) -> bool {
    &&& s.len() > 0
    &&& !s.contains(',')
    &&& !is_white(s[0])
    &&& !is_white(s.last())
}

/// The pieces of a list: each token but the first behind a space.
spec fn spaced(tokens: Seq<Seq<char>>) -> Seq<Seq<char>> {
    Seq::new(
        tokens.len(),
        |i: int|
            if i == 0 {
                tokens[0]
            } else {
                seq![' '] + tokens[i]
            },
    )
}

proof fn pieces_extend(text: Seq<char>, more: Seq<char>)
    requires
        !more.contains(','),
    ensures
        pieces(text, ',').len() > 0,
        pieces(text + more, ',') == pieces(text, ',').drop_last().push(
            pieces(text, ',').last() + more,
        ),
    decreases more.len(),
{
    pieces_exist(text);
    let cut = pieces(text, ',');
    if more.len() == 0 {
        assert(text + more =~= text);
        assert(cut.last() + more =~= cut.last());
        assert(cut.drop_last().push(cut.last()) =~= cut);
    } else {
        let init = more.drop_last();
        assert forall|c: char| init.contains(c) implies more.contains(c) by {
            let k = choose|k: int| 0 <= k < init.len() && init[k] == c;
            assert(more[k] == c);
        }
        pieces_extend(text, init);
        let whole = text + more;
        assert(whole.drop_last() =~= text + init);
        assert(more.contains(more.last()));
        let before = pieces(text + init, ',');
        assert(before.drop_last() =~= cut.drop_last());
        assert(before.last() == cut.last() + init);
        assert(before.last().push(whole.last()) =~= cut.last() + more);
    }
}

proof fn pieces_exist(text: Seq<char>)
    ensures
        pieces(text, ',').len() > 0,
    decreases text.len(),
{
    if text.len() > 0 {
        pieces_exist(text.drop_last());
    }
}

proof fn list_falls_apart(tokens: Seq<Seq<char>>)
    requires
        tokens.len() > 0,
        forall|i: int| 0 <= i < tokens.len() ==> is_token(#[trigger] tokens[i]),
    ensures
        pieces(joined(tokens, ", "@), ',') == spaced(tokens),
    decreases tokens.len(),
{
    reveal_strlit(", ");
    let none = Seq::<char>::empty();
    if tokens.len() == 1 {
        pieces_extend(none, tokens[0]);
        assert(none + tokens[0] =~= tokens[0]);
        assert(pieces(none, ',') =~= seq![none]);
        assert(pieces(tokens[0], ',') =~= spaced(tokens));
    } else {
        let init = tokens.drop_last();
        assert(forall|i: int| 0 <= i < init.len() ==> #[trigger] init[i] == tokens[i]);
        list_falls_apart(init);
        let head = joined(init, ", "@).push(',');
        let tail = seq![' '] + tokens.last();
        assert(head.drop_last() =~= joined(init, ", "@));
        assert(is_token(tokens[tokens.len() - 1]));
        assert(!tail.contains(',')) by {
            if tail.contains(',') {
                let k = choose|k: int| 0 <= k < tail.len() && tail[k] == ',';
                assert(tokens.last()[k - 1] == ',');
            }
        }
        pieces_extend(head, tail);
        assert(head + tail =~= joined(tokens, ", "@));
        let cut = pieces(head, ',');
        assert(cut == spaced(init).push(none));
        assert(cut.drop_last() =~= spaced(init));
        assert(none + tail =~= tail);
        assert(spaced(init).push(tail) =~= spaced(tokens));
    }
}

proof fn token_is_trimmed(s: Seq<char>)
    requires
        is_token(s),
    ensures
        trimmed(s) == s,
        trimmed(seq![' '] + s) == s,
{
    let padded = seq![' '] + s;
    assert(padded.drop_first() =~= s);
    assert(trimmed_start(s) == s);
    assert(trimmed_start(padded) == trimmed_start(padded.drop_first()));
}

proof fn blanks_go(tokens: Seq<Seq<char>>)
    requires
        forall|i: int| 0 <= i < tokens.len() ==> is_token(#[trigger] tokens[i]),
    ensures
        nonblank(spaced(tokens)) == tokens,
    decreases tokens.len(),
{
    if tokens.len() > 0 {
        let init = tokens.drop_last();
        assert(forall|i: int| 0 <= i < init.len() ==> #[trigger] init[i] == tokens[i]);
        blanks_go(init);
        assert(spaced(tokens).drop_last() =~= spaced(init));
        token_is_trimmed(tokens[tokens.len() - 1]);
        assert(tokens =~= init.push(tokens.last()));
    } else {
        assert(nonblank(spaced(tokens)) =~= tokens);
    }
}

proof fn number_is_token(n: u64)
    ensures
        is_token(decimal_text(n as nat)),
{
    let s = decimal_text(n as nat);
    decimal_round_trip(n as nat);
    assert(is_digit(s[0]) && is_digit(s[s.len() - 1]));
    if s.contains(',') {
        let k = choose|k: int| 0 <= k < s.len() && s[k] == ',';
        assert(is_digit(s[k]));
    }
}

proof fn shown_ids_read_back(ids: Seq<u64>)
    requires
        ids.len() > 0,
    ensures
        target_reads(target_text(TargetView::Ids(ids)), TargetView::Ids(ids)),
{
    let tokens = ids.map_values(|id: u64| decimal_text(id as nat));
    assert forall|i: int| 0 <= i < tokens.len() implies is_token(#[trigger] tokens[i])
        && unsigned(tokens[i]) == Some(ids[i]) by {
        number_is_token(ids[i]);
        decimal_text_parses(ids[i]);
    }
    list_falls_apart(tokens);
    blanks_go(tokens);
    assert(tokens.map_values(|s: Seq<char>| unsigned(s)->0) =~= ids);
}

/// The categories that have a name.
spec fn is_named(category: i32) -> bool {
    category == GRID_CONNECTION_POINT || category == METER || category == INVERTER || category
        == BATTERY || category == EV_CHARGER || category == CHP
}

proof fn shown_category_is_name(category: i32)
    requires
        is_named(category),
    ensures
        is_token(shown_category(category)),
        alias_category(shown_category(category)) == Some(category),
        unsigned(shown_category(category)) is None,
{
    reveal_strlit("GRID");
    reveal_strlit("METER");
    reveal_strlit("INVERTER");
    reveal_strlit("BATTERY");
    reveal_strlit("EV_CHARGER");
    reveal_strlit("CHP");
    reveal_strlit("meter");
    reveal_strlit("inverter");
    reveal_strlit("battery");
    reveal_strlit("ev_charger");
    reveal_strlit("ev-charger");
    reveal_strlit("evcharger");
    reveal_strlit("chp");
    reveal_strlit("grid");
    let s = shown_category(category);
    let name = lowered(s);
    assert("battery"@.len() == 7 && "grid"@.len() == 4 && "meter"@.len() == 5 && "inverter"@.len()
        == 8 && "ev_charger"@.len() == 10 && "ev-charger"@.len() == 10 && "evcharger"@.len() == 9
        && "chp"@.len() == 3);
    if category == GRID_CONNECTION_POINT {
        assert(name =~= "grid"@);
    } else if category == METER {
        assert(name =~= "meter"@);
    } else if category == INVERTER {
        assert(name =~= "inverter"@);
    } else if category == BATTERY {
        assert(name =~= "battery"@);
    } else if category == EV_CHARGER {
        assert(name =~= "ev_charger"@);
    } else {
        assert(name =~= "chp"@);
    }
    assert(!is_digit(s[0]));
}

proof fn shown_categories_read_back(categories: Seq<CategoryAndType>)
    requires
        categories.len() > 0,
        forall|i: int|
            0 <= i < categories.len() ==> is_named((#[trigger] categories[i]).category)
                && categories[i].kind is None,
    ensures
        target_reads(
            target_text(TargetView::CategoriesTypes(categories)),
            TargetView::CategoriesTypes(categories),
        ),
{
    let tokens = categories.map_values(|c: CategoryAndType| shown_category(c.category));
    assert forall|i: int| 0 <= i < tokens.len() implies is_token(#[trigger] tokens[i])
        && alias_category(tokens[i]) == Some(categories[i].category)
        && unsigned(tokens[i]) is None by {
        shown_category_is_name(categories[i].category);
    }
    list_falls_apart(tokens);
    blanks_go(tokens);
    assert(unsigned(tokens[0]) is None);
    assert(tokens.map_values(
        |s: Seq<char>| (CategoryAndType { category: alias_category(s)->0, kind: None }),
    ) =~= categories);
}

/// A shown target reads back: what some text reads as is shown as a text that
/// reads as the same target.
pub proof fn shown_target_reads_back(text: Seq<char>, target: TargetView)
    requires
        target_reads(text, target),
    ensures
        target_reads(target_text(target), target),
{
    let tokens = target_tokens(text);
    if all_numbers(tokens) {
        shown_ids_read_back(tokens.map_values(|s: Seq<char>| unsigned(s)->0));
    } else {
        let categories = tokens.map_values(
            |s: Seq<char>| (CategoryAndType { category: alias_category(s)->0, kind: None }),
        );
        assert forall|i: int| 0 <= i < categories.len() implies is_named(
            (#[trigger] categories[i]).category,
        ) && categories[i].kind is None by {
            assert(alias_category(tokens[i]) is Some);
        }
        shown_categories_read_back(categories);
    }
}

/// A category is read whatever the case of its name.
pub proof fn categories_are_read_in_any_case(token: Seq<char>)
    ensures
        alias_category(lowered(token)) == alias_category(token),
        alias_category(token) == Some(5i32) <==> lowered(token) == "battery"@,
        alias_category(token) == Some(1i32) <==> lowered(token) == "grid"@,
        alias_category(token) == Some(2i32) <==> lowered(token) == "meter"@,
        alias_category(token) == Some(3i32) <==> lowered(token) == "inverter"@,
        alias_category(token) == Some(9i32) <==> lowered(token) == "chp"@,
        lowered(token) == "ev_charger"@ || lowered(token) == "ev-charger"@ || lowered(token)
            == "evcharger"@ ==> alias_category(token) == Some(6i32),
{
    lowering_touches_capitals_only(token);
    reveal_strlit("battery");
    reveal_strlit("grid");
    reveal_strlit("meter");
    reveal_strlit("inverter");
    reveal_strlit("ev_charger");
    reveal_strlit("ev-charger");
    reveal_strlit("evcharger");
    reveal_strlit("chp");
    assert("battery"@[0] == 'b' && "grid"@[0] == 'g' && "meter"@[0] == 'm');
    assert("inverter"@[0] == 'i' && "chp"@[0] == 'c' && "ev_charger"@[0] == 'e');
    assert("ev-charger"@[0] == 'e' && "evcharger"@[0] == 'e');
}

/// The tokens of a list are its parts without the blanks round them; a part that
/// is blank counts for nothing.
pub proof fn tokens_are_the_nonblank_parts(parts: Seq<Seq<char>>)
    ensures
        nonblank(parts) == parts.map_values(|p: Seq<char>| trimmed(p)).filter(
            |t: Seq<char>| t.len() > 0,
        ),
    decreases parts.len(),
{
    reveal(Seq::filter);
    let all = parts.map_values(|p: Seq<char>| trimmed(p));
    if parts.len() > 0 {
        tokens_are_the_nonblank_parts(parts.drop_last());
        assert(all.drop_last() =~= parts.drop_last().map_values(|p: Seq<char>| trimmed(p)));
    }
}

/// A list of numbers targets the components of those ids, in order; any other
/// list targets the categories that it names.
pub proof fn targets_are_what_is_listed(text: Seq<char>, target: TargetView)
    requires
        target_reads(text, target),
    ensures
        target is Ids || target is CategoriesTypes,
        target matches TargetView::Ids(ids) ==> ids.len() == target_tokens(text).len()
            && forall|i: int|
            0 <= i < ids.len() ==> unsigned(target_tokens(text)[i]) == Some(#[trigger] ids[i]),
        target matches TargetView::CategoriesTypes(cats) ==> cats.len() == target_tokens(text).len()
            && forall|i: int|
            0 <= i < cats.len() ==> alias_category(target_tokens(text)[i]) == Some(
                (#[trigger] cats[i]).category,
            ) && cats[i].kind is None,
        target is Ids <==> forall|i: int|
            0 <= i < target_tokens(text).len() ==> unsigned(#[trigger] target_tokens(text)[i])
                is Some,
        target_tokens(text).len() > 0,
{
    let tokens = target_tokens(text);
    if let TargetView::Ids(ids) = target {
        assert forall|i: int| 0 <= i < ids.len() implies unsigned(tokens[i]) == Some(
            #[trigger] ids[i],
        ) by {
            assert(unsigned(tokens[i]) is Some);
        }
    }
    if let TargetView::CategoriesTypes(cats) = target {
        assert forall|i: int| 0 <= i < cats.len() implies alias_category(tokens[i]) == Some(
            (#[trigger] cats[i]).category,
        ) && cats[i].kind is None by {
            assert(alias_category(tokens[i]) is Some);
        }
    }
}

/// A refusal names the first token that is no category: every token before it is
/// one, so there is only one such token.
pub proof fn first_unknown_token_is_unique(tokens: Seq<Seq<char>>, a: int, b: int)
    requires
        is_first_unknown(tokens, a),
        is_first_unknown(tokens, b),
    ensures
        a == b,
        0 <= a < tokens.len(),
        alias_category(tokens[a]) is None,
{
}

} // verus!
