//! Human-readable documentation of Intune objects.
//!
//! A policy becomes sections of readable settings. For Settings Catalog /
//! Compliance V2 the Graph `settingDefinitions` supply display names and
//! choice option labels so the output reads like the Intune portal; other
//! object types use a generic property renderer. Output to Markdown, HTML and
//! structured JSON.
use vstd::prelude::*;
use crate::catalog::ObjectType;
use crate::order::{insert_by, law_sort_permutes, law_sort_sorted, lemma_str_lt_order, sort_by, sorted_by, str_lt};
use crate::json::{
    Json, JsonV, depth_max, json_parse, lemma_depth_max_bound, opt_top, parse_json_top, top_of, ParsedTop, ParsedTopV, get_array, get_str, lemma_depth_max, lemma_get_array_smaller, lemma_get_depth, lemma_get_smaller,
    lemma_item_depth, views,
};
use crate::labels::{
    format_key_chars, format_key_spec, join, join_exec, parts_view, pretty_setting_id, pretty_setting_id_exec,
    scalar_text, scalar_to_string, tail_after, tail_after_exec,
};
use crate::text::{
    chars_eq, chars_of, replace_char, replace_char_exec, contains_exec, contains_sub, decimal, decimal_chars, starts_with, starts_with_exec,
    trim_start_char, trim_start_char_exec, extend_chars, lowercase_chars, seq_lt, seq_lt_exec, string_from,
    unicode_to_lowercase,
};

verus! {

/// Whether a documentation row is a setting or a group header.
#[derive(Debug, Clone, Copy, PartialEq, Eq, Structural)]
pub enum RowKind {
    /// A name/value setting row.
    Setting,
    /// A group/section header (value is empty).
    Group,
}

/// One row of a documentation table.
pub struct DocRow {
    pub name: String,
    pub value: String,
    pub level: u8,
    pub kind: RowKind,
}

/// The mathematical value of a [`DocRow`].
pub struct RowV {
    pub name: Seq<char>,
    pub value: Seq<char>,
    pub level: int,
    pub kind: RowKind,
}

impl View for DocRow {
    type V = RowV;

    open spec fn view(&self) -> RowV {
        RowV { name: self.name@, value: self.value@, level: self.level as int, kind: self.kind }
    }
}

/// A titled table of rows.
pub struct DocSection {
    pub title: String,
    pub rows: Vec<DocRow>,
}

/// The views of a sequence of rows.
pub open spec fn rviews(rows: Seq<DocRow>) -> Seq<RowV> {
    rows.map_values(|r: DocRow| r@)
}

/// A setting row.
pub open spec fn setting_row(name: Seq<char>, value: Seq<char>, level: int) -> RowV {
    RowV { name, value, level, kind: RowKind::Setting }
}

/// A group header row.
pub open spec fn group_row(name: Seq<char>, level: int) -> RowV {
    RowV { name, value: Seq::empty(), level, kind: RowKind::Group }
}

/// The string, or the empty string.
pub open spec fn str_or_empty(o: Option<Seq<char>>) -> Seq<char> {
    match o {
        Some(s) => s,
        None => Seq::empty(),
    }
}

/// The string when present and not empty, otherwise `fallback`.
pub open spec fn nonempty_or(o: Option<Seq<char>>, fallback: Seq<char>) -> Seq<char> {
    match o {
        Some(s) => if s.len() > 0 { s } else { fallback },
        None => fallback,
    }
}

fn push_row(out: &mut Vec<DocRow>, name: &Vec<char>, value: &Vec<char>, level: u8, kind: RowKind)
    ensures
        rviews(final(out)@) == rviews(old(out)@).push(
            RowV { name: name@, value: value@, level: level as int, kind: kind },
        ),
{
    let r = DocRow { name: string_from(name), value: string_from(value), level, kind };
    out.push(r);
    assert(rviews(out@) =~= rviews(old(out)@).push(r@));
}

/// The characters of the string member `key`, or none.
fn member_str(j: &Json, key: &str) -> (r: Vec<char>)
    ensures
        r@ == str_or_empty(get_str(j@, key@)),
{
    let k = chars_of(key);
    match j.get_str(&k) {
        Some(s) => chars_of(s.as_str()),
        None => Vec::new(),
    }
}

// ---- Settings Catalog resolver --------------------------------------------

/// The definitions among `ds` that have a string `id`, with that id, in order.
pub open spec fn ids_of(ds: Seq<JsonV>) -> Seq<(Seq<char>, JsonV)>
    decreases ds.len(),
{
    if ds.len() == 0 {
        Seq::empty()
    } else {
        ids_of(ds.drop_last()) + match get_str(ds.last(), "id"@) {
            Some(id) => seq![(id, ds.last())],
            None => Seq::empty(),
        }
    }
}

/// Every setting definition carried by the `settings` list, in order.
pub open spec fn defs_of(settings: Seq<JsonV>) -> Seq<(Seq<char>, JsonV)>
    decreases settings.len(),
{
    if settings.len() == 0 {
        Seq::empty()
    } else {
        defs_of(settings.drop_last()) + match get_array(settings.last(), "settingDefinitions"@) {
            Some(ds) => ids_of(ds),
            None => Seq::empty(),
        }
    }
}

/// The first definition with this id.
pub open spec fn def_lookup(defs: Seq<(Seq<char>, JsonV)>, id: Seq<char>) -> Option<JsonV>
    decreases defs.len(),
{
    if defs.len() == 0 {
        None
    } else if defs[0].0 == id {
        Some(defs[0].1)
    } else {
        def_lookup(defs.drop_first(), id)
    }
}

/// The display name of a setting definition, falling back to the humanised id.
pub open spec fn def_display(defs: Seq<(Seq<char>, JsonV)>, id: Seq<char>) -> Seq<char> {
    match def_lookup(defs, id) {
        Some(d) => nonempty_or(get_str(d, "displayName"@), pretty_setting_id(id)),
        None => pretty_setting_id(id),
    }
}

/// The label of the first option whose `itemId` is `item`.
pub open spec fn choice_in(opts: Seq<JsonV>, item: Seq<char>) -> Seq<char>
    decreases opts.len(),
{
    if opts.len() == 0 {
        pretty_setting_id(item)
    } else if get_str(opts[0], "itemId"@) == Some(item) {
        nonempty_or(get_str(opts[0], "displayName"@), pretty_setting_id(item))
    } else {
        choice_in(opts.drop_first(), item)
    }
}

/// The label of a chosen option, falling back to the humanised option id.
pub open spec fn resolve_choice(defs: Seq<(Seq<char>, JsonV)>, def_id: Seq<char>, item: Seq<char>) -> Seq<char> {
    match def_lookup(defs, def_id) {
        Some(d) => match get_array(d, "options"@) {
            Some(opts) => choice_in(opts, item),
            None => pretty_setting_id(item),
        },
        None => pretty_setting_id(item),
    }
}

/// The value of `x`'s member `value`, or null.
pub open spec fn value_or_null(x: JsonV) -> JsonV {
    match x.get("value"@) {
        Some(v) => v,
        None => JsonV::Null,
    }
}

/// The rows of one setting instance and everything nested in it.
pub open spec fn walk(defs: Seq<(Seq<char>, JsonV)>, inst: JsonV, level: int) -> Seq<RowV>
    decreases inst, 0nat,
{
    let odata = str_or_empty(get_str(inst, "@odata.type"@));
    let def_id = str_or_empty(get_str(inst, "settingDefinitionId"@));
    let name = def_display(defs, def_id);
    if contains_sub(odata, "ChoiceSettingInstance"@) {
        let csv = inst.get("choiceSettingValue"@);
        let val = str_or_empty(
            match csv {
                Some(c) => get_str(c, "value"@),
                None => None,
            },
        );
        seq![setting_row(name, resolve_choice(defs, def_id, val), level)] + match csv {
            Some(c) => match get_array(c, "children"@) {
                Some(a) => {
                    proof {
                        lemma_get_smaller(inst, "choiceSettingValue"@);
                        lemma_get_array_smaller(c, "children"@);
                    }
                    walk_children(defs, a, level + 1)
                },
                None => Seq::empty(),
            },
            None => Seq::empty(),
        }
    } else if contains_sub(odata, "ChoiceSettingCollectionInstance"@) {
        seq![group_row(name, level)] + match get_array(inst, "choiceSettingCollectionValue"@) {
            Some(vals) => {
                proof {
                    lemma_get_array_smaller(inst, "choiceSettingCollectionValue"@);
                }
                walk_collection(defs, def_id, vals, level)
            },
            None => Seq::empty(),
        }
    } else if contains_sub(odata, "SimpleSettingCollectionInstance"@) {
        let joined = match get_array(inst, "simpleSettingCollectionValue"@) {
            Some(a) => join(a.map_values(|x: JsonV| scalar_text(value_or_null(x))), ", "@),
            None => Seq::empty(),
        };
        seq![setting_row(name, joined, level)]
    } else if contains_sub(odata, "SimpleSettingInstance"@) {
        let v = match inst.get("simpleSettingValue"@) {
            Some(s) => value_or_null(s),
            None => JsonV::Null,
        };
        seq![setting_row(name, scalar_text(v), level)]
    } else if contains_sub(odata, "GroupSettingCollectionInstance"@) {
        seq![group_row(name, level)] + match get_array(inst, "groupSettingCollectionValue"@) {
            Some(gvs) => {
                proof {
                    lemma_get_array_smaller(inst, "groupSettingCollectionValue"@);
                }
                walk_groups(defs, gvs, level)
            },
            None => Seq::empty(),
        }
    } else if contains_sub(odata, "GroupSettingInstance"@) {
        seq![group_row(name, level)] + match inst.get("groupSettingValue"@) {
            Some(g) => match get_array(g, "children"@) {
                Some(a) => {
                    proof {
                        lemma_get_smaller(inst, "groupSettingValue"@);
                        lemma_get_array_smaller(g, "children"@);
                    }
                    walk_children(defs, a, level + 1)
                },
                None => Seq::empty(),
            },
            None => Seq::empty(),
        }
    } else {
        seq![setting_row(name, format_key_spec(tail_after(odata, '.', '.')), level)]
    }
}

/// The rows of the objects among `cs`, each walked at `level`.
pub open spec fn walk_children(defs: Seq<(Seq<char>, JsonV)>, cs: Seq<JsonV>, level: int) -> Seq<RowV>
    decreases cs, 1nat,
{
    if cs.len() == 0 {
        Seq::empty()
    } else {
        let last = cs[cs.len() - 1];
        walk_children(defs, cs.subrange(0, cs.len() - 1), level) + if last.is_object() {
            walk(defs, last, level)
        } else {
            Seq::empty()
        }
    }
}

/// The rows of the chosen values of a choice collection.
pub open spec fn walk_collection(
    defs: Seq<(Seq<char>, JsonV)>,
    def_id: Seq<char>,
    vals: Seq<JsonV>,
    level: int,
) -> Seq<RowV>
    decreases vals, 1nat,
{
    if vals.len() == 0 {
        Seq::empty()
    } else {
        let cv = vals[vals.len() - 1];
        let val = str_or_empty(get_str(cv, "value"@));
        walk_collection(defs, def_id, vals.subrange(0, vals.len() - 1), level) + seq![
            setting_row(resolve_choice(defs, def_id, val), Seq::empty(), level + 1),
        ] + match get_array(cv, "children"@) {
            Some(a) => {
                proof {
                    lemma_get_array_smaller(cv, "children"@);
                }
                walk_children(defs, a, level + 2)
            },
            None => Seq::empty(),
        }
    }
}

/// The rows of the children of each group of a group collection.
pub open spec fn walk_groups(defs: Seq<(Seq<char>, JsonV)>, gvs: Seq<JsonV>, level: int) -> Seq<RowV>
    decreases gvs, 1nat,
{
    if gvs.len() == 0 {
        Seq::empty()
    } else {
        let gv = gvs[gvs.len() - 1];
        walk_groups(defs, gvs.subrange(0, gvs.len() - 1), level) + match get_array(gv, "children"@) {
            Some(a) => {
                proof {
                    lemma_get_array_smaller(gv, "children"@);
                }
                walk_children(defs, a, level + 1)
            },
            None => Seq::empty(),
        }
    }
}

/// The rows of every `settingInstance` in a Settings Catalog `settings` list.
pub open spec fn catalog_rows(defs: Seq<(Seq<char>, JsonV)>, settings: Seq<JsonV>) -> Seq<RowV>
    decreases settings.len(),
{
    if settings.len() == 0 {
        Seq::empty()
    } else {
        catalog_rows(defs, settings.drop_last()) + match settings.last().get("settingInstance"@) {
            Some(inst) => walk(defs, inst, 0),
            None => Seq::empty(),
        }
    }
}

/// Whether the rows `p` stand in `s` as a block starting at `i`.
pub open spec fn rows_at(s: Seq<RowV>, p: Seq<RowV>, i: int) -> bool {
    0 <= i && i + p.len() <= s.len() && s.subrange(i, i + p.len()) == p
}

proof fn lemma_rows_at_concat(a: Seq<RowV>, b: Seq<RowV>, p: Seq<RowV>, i: int)
    requires
        rows_at(a, p, i),
    ensures
        rows_at(a + b, p, i),
        rows_at(b + a, p, b.len() + i),
{
    assert((a + b).subrange(i, i + p.len()) =~= a.subrange(i, i + p.len()));
    assert((b + a).subrange(b.len() + i, b.len() + i + p.len()) =~= a.subrange(i, i + p.len()));
}

/// Every setting instance documents at least one row, and its first row
/// stands at the instance's own level.
pub proof fn law_walk_first_row(defs: Seq<(Seq<char>, JsonV)>, inst: JsonV, level: int)
    ensures
        walk(defs, inst, level).len() >= 1,
        walk(defs, inst, level)[0].level == level,
{
}

/// Every object among a list of child settings is documented, in full, as a
/// block of the list's rows.
pub proof fn law_children_documented(defs: Seq<(Seq<char>, JsonV)>, cs: Seq<JsonV>, level: int, j: int)
    requires
        0 <= j < cs.len(),
        cs[j].is_object(),
    ensures
        exists|i: int| #[trigger] rows_at(walk_children(defs, cs, level), walk(defs, cs[j], level), i),
    decreases cs.len(),
{
    let pre = cs.subrange(0, cs.len() - 1);
    let last = cs[cs.len() - 1];
    let tail = if last.is_object() { walk(defs, last, level) } else { Seq::empty() };
    assert(walk_children(defs, cs, level) == walk_children(defs, pre, level) + tail);
    if j == cs.len() - 1 {
        assert(rows_at(tail, walk(defs, cs[j], level), 0)) by {
            assert(tail.subrange(0, tail.len() as int) =~= tail);
        }
        lemma_rows_at_concat(tail, Seq::empty(), walk(defs, cs[j], level), 0);
        lemma_rows_at_concat(tail, walk_children(defs, pre, level), walk(defs, cs[j], level), 0);
        assert(Seq::<RowV>::empty() + tail =~= tail);
    } else {
        assert(pre[j] == cs[j]);
        law_children_documented(defs, pre, level, j);
        let i = choose|i: int| #[trigger] rows_at(walk_children(defs, pre, level), walk(defs, cs[j], level), i);
        lemma_rows_at_concat(walk_children(defs, pre, level), tail, walk(defs, cs[j], level), i);
    }
}

/// A choice setting documents the chosen option on its own row, at its
/// level, followed by every setting configured under that option: each
/// object among `choiceSettingValue.children` is documented in full, one
/// level deeper, after the choice's row.
pub proof fn law_choice_children_documented(
    defs: Seq<(Seq<char>, JsonV)>,
    inst: JsonV,
    level: int,
    c: JsonV,
    a: Seq<JsonV>,
    j: int,
)
    requires
        contains_sub(str_or_empty(get_str(inst, "@odata.type"@)), "ChoiceSettingInstance"@),
        inst.get("choiceSettingValue"@) == Some(c),
        get_array(c, "children"@) == Some(a),
        0 <= j < a.len(),
        a[j].is_object(),
    ensures
        walk(defs, inst, level)[0] == setting_row(
            def_display(defs, str_or_empty(get_str(inst, "settingDefinitionId"@))),
            resolve_choice(defs, str_or_empty(get_str(inst, "settingDefinitionId"@)), str_or_empty(get_str(c, "value"@))),
            level,
        ),
        walk(defs, a[j], level + 1)[0].level == level + 1,
        exists|i: int| 1 <= i && #[trigger] rows_at(walk(defs, inst, level), walk(defs, a[j], level + 1), i),
        walk(defs, inst, level).len() >= 1 + walk(defs, a[j], level + 1).len(),
{
    let def_id = str_or_empty(get_str(inst, "settingDefinitionId"@));
    let head = seq![setting_row(def_display(defs, def_id), resolve_choice(defs, def_id, str_or_empty(get_str(c, "value"@))), level)];
    let kids = walk_children(defs, a, level + 1);
    assert(walk(defs, inst, level) == head + kids);
    law_walk_first_row(defs, a[j], level + 1);
    law_children_documented(defs, a, level + 1, j);
    let i = choose|i: int| #[trigger] rows_at(kids, walk(defs, a[j], level + 1), i);
    lemma_rows_at_concat(kids, head, walk(defs, a[j], level + 1), i);
}

/// A group setting documents a group row at its level, followed by every
/// setting of the group: each object among `groupSettingValue.children` is
/// documented in full, one level deeper, after the group's row.
pub proof fn law_group_children_documented(
    defs: Seq<(Seq<char>, JsonV)>,
    inst: JsonV,
    level: int,
    g: JsonV,
    a: Seq<JsonV>,
    j: int,
)
    requires
        contains_sub(str_or_empty(get_str(inst, "@odata.type"@)), "GroupSettingInstance"@),
        !contains_sub(str_or_empty(get_str(inst, "@odata.type"@)), "ChoiceSettingInstance"@),
        !contains_sub(str_or_empty(get_str(inst, "@odata.type"@)), "ChoiceSettingCollectionInstance"@),
        !contains_sub(str_or_empty(get_str(inst, "@odata.type"@)), "SimpleSettingCollectionInstance"@),
        !contains_sub(str_or_empty(get_str(inst, "@odata.type"@)), "SimpleSettingInstance"@),
        !contains_sub(str_or_empty(get_str(inst, "@odata.type"@)), "GroupSettingCollectionInstance"@),
        inst.get("groupSettingValue"@) == Some(g),
        get_array(g, "children"@) == Some(a),
        0 <= j < a.len(),
        a[j].is_object(),
    ensures
        walk(defs, inst, level)[0] == group_row(def_display(defs, str_or_empty(get_str(inst, "settingDefinitionId"@))), level),
        walk(defs, a[j], level + 1)[0].level == level + 1,
        exists|i: int| 1 <= i && #[trigger] rows_at(walk(defs, inst, level), walk(defs, a[j], level + 1), i),
        walk(defs, inst, level).len() >= 1 + walk(defs, a[j], level + 1).len(),
{
    let def_id = str_or_empty(get_str(inst, "settingDefinitionId"@));
    let head = seq![group_row(def_display(defs, def_id), level)];
    let kids = walk_children(defs, a, level + 1);
    assert(walk(defs, inst, level) == head + kids);
    law_walk_first_row(defs, a[j], level + 1);
    law_children_documented(defs, a, level + 1, j);
    let i = choose|i: int| #[trigger] rows_at(kids, walk(defs, a[j], level + 1), i);
    lemma_rows_at_concat(kids, head, walk(defs, a[j], level + 1), i);
}

proof fn lemma_def_lookup_first(defs: Seq<(Seq<char>, JsonV)>, id: Seq<char>, m: int)
    requires
        0 <= m < defs.len(),
        defs[m].0 == id,
        forall|n: int| 0 <= n < m ==> (#[trigger] defs[n]).0 != id,
    ensures
        def_lookup(defs, id) == Some(defs[m].1),
    decreases m,
{
    if m > 0 {
        let t = defs.drop_first();
        assert forall|n: int| 0 <= n < m - 1 implies (#[trigger] t[n]).0 != id by {
            assert(t[n] == defs[n + 1]);
        }
        assert(defs[0].0 != id);
        lemma_def_lookup_first(t, id, m - 1);
    }
}

proof fn lemma_choice_in_first(opts: Seq<JsonV>, item: Seq<char>, k: int)
    requires
        0 <= k < opts.len(),
        get_str(opts[k], "itemId"@) == Some(item),
        forall|n: int| 0 <= n < k ==> get_str(#[trigger] opts[n], "itemId"@) != Some(item),
    ensures
        choice_in(opts, item) == nonempty_or(get_str(opts[k], "displayName"@), pretty_setting_id(item)),
    decreases k,
{
    if k > 0 {
        let t = opts.drop_first();
        assert forall|n: int| 0 <= n < k - 1 implies get_str(#[trigger] t[n], "itemId"@) != Some(item) by {
            assert(t[n] == opts[n + 1]);
        }
        assert(get_str(opts[0], "itemId"@) != Some(item));
        lemma_choice_in_first(t, item, k - 1);
    }
}

/// A setting is named by the display name of its definition: the first
/// definition with the setting's id, when that definition has a non-empty
/// `displayName`, names it.
pub proof fn law_setting_named_by_definition(defs: Seq<(Seq<char>, JsonV)>, id: Seq<char>, m: int, name: Seq<char>)
    requires
        0 <= m < defs.len(),
        defs[m].0 == id,
        forall|n: int| 0 <= n < m ==> (#[trigger] defs[n]).0 != id,
        get_str(defs[m].1, "displayName"@) == Some(name),
        name.len() > 0,
    ensures
        def_display(defs, id) == name,
{
    lemma_def_lookup_first(defs, id, m);
}

/// A chosen option is shown by its label: in the first definition with the
/// setting's id, the first option whose `itemId` is the chosen value, when it
/// has a non-empty `displayName`, gives the value shown.
pub proof fn law_choice_shown_by_option_label(
    defs: Seq<(Seq<char>, JsonV)>,
    id: Seq<char>,
    m: int,
    opts: Seq<JsonV>,
    item: Seq<char>,
    k: int,
    label: Seq<char>,
)
    requires
        0 <= m < defs.len(),
        defs[m].0 == id,
        forall|n: int| 0 <= n < m ==> (#[trigger] defs[n]).0 != id,
        get_array(defs[m].1, "options"@) == Some(opts),
        0 <= k < opts.len(),
        get_str(opts[k], "itemId"@) == Some(item),
        forall|n: int| 0 <= n < k ==> get_str(#[trigger] opts[n], "itemId"@) != Some(item),
        get_str(opts[k], "displayName"@) == Some(label),
        label.len() > 0,
    ensures
        resolve_choice(defs, id, item) == label,
{
    lemma_def_lookup_first(defs, id, m);
    lemma_choice_in_first(opts, item, k);
}

/// A choice collection documents each chosen value: every value of
/// `choiceSettingCollectionValue` is shown, by its option label, on a row one
/// level below the collection's group row.
pub proof fn law_collection_values_documented(defs: Seq<(Seq<char>, JsonV)>, def_id: Seq<char>, vals: Seq<JsonV>, level: int, j: int)
    requires
        0 <= j < vals.len(),
    ensures
        walk_collection(defs, def_id, vals, level).contains(
            setting_row(resolve_choice(defs, def_id, str_or_empty(get_str(vals[j], "value"@))), Seq::empty(), level + 1),
        ),
    decreases vals.len(),
{
    let pre = vals.subrange(0, vals.len() - 1);
    let cv = vals[vals.len() - 1];
    let row = setting_row(resolve_choice(defs, def_id, str_or_empty(get_str(cv, "value"@))), Seq::empty(), level + 1);
    let kids = match get_array(cv, "children"@) {
        Some(a) => walk_children(defs, a, level + 2),
        None => Seq::empty(),
    };
    let before = walk_collection(defs, def_id, pre, level);
    assert(walk_collection(defs, def_id, vals, level) == before + seq![row] + kids);
    if j == vals.len() - 1 {
        assert((before + seq![row] + kids)[before.len() as int] == row);
    } else {
        assert(pre[j] == vals[j]);
        law_collection_values_documented(defs, def_id, pre, level, j);
        let x = setting_row(resolve_choice(defs, def_id, str_or_empty(get_str(vals[j], "value"@))), Seq::empty(), level + 1);
        let i = choose|i: int| 0 <= i < before.len() && before[i] == x;
        assert((before + seq![row] + kids)[i] == x);
    }
}

/// A group collection documents every setting of every group: each object
/// among the `children` of each value is documented in full, one level below
/// the collection.
pub proof fn law_group_collection_documented(defs: Seq<(Seq<char>, JsonV)>, gvs: Seq<JsonV>, level: int, g: int, a: Seq<JsonV>, j: int)
    requires
        0 <= g < gvs.len(),
        get_array(gvs[g], "children"@) == Some(a),
        0 <= j < a.len(),
        a[j].is_object(),
    ensures
        exists|i: int| #[trigger] rows_at(walk_groups(defs, gvs, level), walk(defs, a[j], level + 1), i),
    decreases gvs.len(),
{
    let pre = gvs.subrange(0, gvs.len() - 1);
    let gv = gvs[gvs.len() - 1];
    let tail = match get_array(gv, "children"@) {
        Some(c) => walk_children(defs, c, level + 1),
        None => Seq::empty(),
    };
    let before = walk_groups(defs, pre, level);
    assert(walk_groups(defs, gvs, level) == before + tail);
    if g == gvs.len() - 1 {
        law_children_documented(defs, a, level + 1, j);
        let i = choose|i: int| #[trigger] rows_at(tail, walk(defs, a[j], level + 1), i);
        lemma_rows_at_concat(tail, before, walk(defs, a[j], level + 1), i);
    } else {
        assert(pre[g] == gvs[g]);
        law_group_collection_documented(defs, pre, level, g, a, j);
        let i = choose|i: int| #[trigger] rows_at(before, walk(defs, a[j], level + 1), i);
        lemma_rows_at_concat(before, tail, walk(defs, a[j], level + 1), i);
    }
}

/// A choice-collection setting documents a group row at its level, then each
/// chosen value by its option label one level deeper.
pub proof fn law_choice_collection_documented(defs: Seq<(Seq<char>, JsonV)>, inst: JsonV, level: int, vals: Seq<JsonV>, j: int)
    requires
        !contains_sub(str_or_empty(get_str(inst, "@odata.type"@)), "ChoiceSettingInstance"@),
        contains_sub(str_or_empty(get_str(inst, "@odata.type"@)), "ChoiceSettingCollectionInstance"@),
        get_array(inst, "choiceSettingCollectionValue"@) == Some(vals),
        0 <= j < vals.len(),
    ensures
        walk(defs, inst, level)[0] == group_row(def_display(defs, str_or_empty(get_str(inst, "settingDefinitionId"@))), level),
        walk(defs, inst, level).contains(
            setting_row(
                resolve_choice(defs, str_or_empty(get_str(inst, "settingDefinitionId"@)), str_or_empty(get_str(vals[j], "value"@))),
                Seq::empty(),
                level + 1,
            ),
        ),
{
    let def_id = str_or_empty(get_str(inst, "settingDefinitionId"@));
    let head = seq![group_row(def_display(defs, def_id), level)];
    let body = walk_collection(defs, def_id, vals, level);
    assert(walk(defs, inst, level) == head + body);
    law_collection_values_documented(defs, def_id, vals, level, j);
    let x = setting_row(resolve_choice(defs, def_id, str_or_empty(get_str(vals[j], "value"@))), Seq::empty(), level + 1);
    let i = choose|i: int| 0 <= i < body.len() && body[i] == x;
    assert((head + body)[i + 1] == x);
}

/// A group-collection setting documents a group row at its level, then every
/// setting of every group one level deeper.
pub proof fn law_group_collection_setting_documented(
    defs: Seq<(Seq<char>, JsonV)>,
    inst: JsonV,
    level: int,
    gvs: Seq<JsonV>,
    g: int,
    a: Seq<JsonV>,
    j: int,
)
    requires
        !contains_sub(str_or_empty(get_str(inst, "@odata.type"@)), "ChoiceSettingInstance"@),
        !contains_sub(str_or_empty(get_str(inst, "@odata.type"@)), "ChoiceSettingCollectionInstance"@),
        !contains_sub(str_or_empty(get_str(inst, "@odata.type"@)), "SimpleSettingCollectionInstance"@),
        !contains_sub(str_or_empty(get_str(inst, "@odata.type"@)), "SimpleSettingInstance"@),
        contains_sub(str_or_empty(get_str(inst, "@odata.type"@)), "GroupSettingCollectionInstance"@),
        get_array(inst, "groupSettingCollectionValue"@) == Some(gvs),
        0 <= g < gvs.len(),
        get_array(gvs[g], "children"@) == Some(a),
        0 <= j < a.len(),
        a[j].is_object(),
    ensures
        walk(defs, inst, level)[0] == group_row(def_display(defs, str_or_empty(get_str(inst, "settingDefinitionId"@))), level),
        exists|i: int| 1 <= i && #[trigger] rows_at(walk(defs, inst, level), walk(defs, a[j], level + 1), i),
{
    let def_id = str_or_empty(get_str(inst, "settingDefinitionId"@));
    let head = seq![group_row(def_display(defs, def_id), level)];
    let body = walk_groups(defs, gvs, level);
    assert(walk(defs, inst, level) == head + body);
    law_group_collection_documented(defs, gvs, level, g, a, j);
    let i = choose|i: int| #[trigger] rows_at(body, walk(defs, a[j], level + 1), i);
    lemma_rows_at_concat(body, head, walk(defs, a[j], level + 1), i);
}

/// A simple setting documents exactly one row, at its level, showing its
/// value (`simpleSettingValue.value`) as text.
pub proof fn law_simple_setting_documented(defs: Seq<(Seq<char>, JsonV)>, inst: JsonV, level: int, sv: JsonV)
    requires
        !contains_sub(str_or_empty(get_str(inst, "@odata.type"@)), "ChoiceSettingInstance"@),
        !contains_sub(str_or_empty(get_str(inst, "@odata.type"@)), "ChoiceSettingCollectionInstance"@),
        !contains_sub(str_or_empty(get_str(inst, "@odata.type"@)), "SimpleSettingCollectionInstance"@),
        contains_sub(str_or_empty(get_str(inst, "@odata.type"@)), "SimpleSettingInstance"@),
        inst.get("simpleSettingValue"@) == Some(sv),
    ensures
        walk(defs, inst, level) == seq![
            setting_row(
                def_display(defs, str_or_empty(get_str(inst, "settingDefinitionId"@))),
                scalar_text(match sv.get("value"@) {
                    Some(v) => v,
                    None => JsonV::Null,
                }),
                level,
            ),
        ],
{
}

/// A Settings Catalog section documents every setting instance of its list,
/// in full, as a block of its rows.
pub proof fn law_catalog_documents_every_setting(defs: Seq<(Seq<char>, JsonV)>, settings: Seq<JsonV>, j: int, inst: JsonV)
    requires
        0 <= j < settings.len(),
        settings[j].get("settingInstance"@) == Some(inst),
    ensures
        exists|i: int| #[trigger] rows_at(catalog_rows(defs, settings), walk(defs, inst, 0), i),
    decreases settings.len(),
{
    let pre = settings.drop_last();
    let tail = match settings.last().get("settingInstance"@) {
        Some(x) => walk(defs, x, 0),
        None => Seq::empty(),
    };
    assert(catalog_rows(defs, settings) == catalog_rows(defs, pre) + tail);
    if j == settings.len() - 1 {
        assert(rows_at(tail, walk(defs, inst, 0), 0)) by {
            assert(tail.subrange(0, tail.len() as int) =~= tail);
        }
        lemma_rows_at_concat(tail, catalog_rows(defs, pre), walk(defs, inst, 0), 0);
    } else {
        assert(pre[j] == settings[j]);
        law_catalog_documents_every_setting(defs, pre, j, inst);
        let i = choose|i: int| #[trigger] rows_at(catalog_rows(defs, pre), walk(defs, inst, 0), i);
        lemma_rows_at_concat(catalog_rows(defs, pre), tail, walk(defs, inst, 0), i);
    }
}

// ---- Settings Catalog: implementation -------------------------------------

/// The views of a list of definitions by id.
pub open spec fn defs_view(d: Seq<(Vec<char>, Json)>) -> Seq<(Seq<char>, JsonV)> {
    d.map_values(|e: (Vec<char>, Json)| (e.0@, e.1@))
}

/// Collects every setting definition carried by `settings`, keyed by its id.
fn build_defs(settings: &Vec<Json>) -> (r: Vec<(Vec<char>, Json)>)
    ensures
        defs_view(r@) == defs_of(views(settings@)),
{
    let mut out: Vec<(Vec<char>, Json)> = Vec::new();
    let ghost sv = views(settings@);
    let key_defs = chars_of("settingDefinitions");
    let key_id = chars_of("id");
    let mut i: usize = 0;
    while i < settings.len()
        invariant
            i <= settings@.len(),
            sv == views(settings@),
            key_defs@ == "settingDefinitions"@,
            key_id@ == "id"@,
            defs_view(out@) == defs_of(sv.subrange(0, i as int)),
        decreases settings@.len() - i,
    {
        assert(sv.subrange(0, i + 1).drop_last() =~= sv.subrange(0, i as int));
        let ghost before = defs_view(out@);
        match settings[i].get_array(&key_defs) {
            Some(ds) => {
                let ghost dv = views(ds@);
                let mut j: usize = 0;
                assert(ids_of(dv.subrange(0, 0)) =~= Seq::<(Seq<char>, JsonV)>::empty());
                assert(before + ids_of(dv.subrange(0, 0)) =~= before);
                while j < ds.len()
                    invariant
                        j <= ds@.len(),
                        dv == views(ds@),
                        key_id@ == "id"@,
                        defs_view(out@) == before + ids_of(dv.subrange(0, j as int)),
                    decreases ds@.len() - j,
                {
                    assert(dv.subrange(0, j + 1).drop_last() =~= dv.subrange(0, j as int));
                    let ghost mid = defs_view(out@);
                    match ds[j].get_str(&key_id) {
                        Some(id) => {
                            let idc = chars_of(id.as_str());
                            let d = ds[j].deep_clone();
                            out.push((idc, d));
                            assert(defs_view(out@) =~= mid + seq![(idc@, d@)]);
                        },
                        None => {},
                    }
                    j = j + 1;
                    assert(defs_view(out@) =~= before + ids_of(dv.subrange(0, j as int)));
                }
                assert(dv.subrange(0, dv.len() as int) =~= dv);
            },
            None => {},
        }
        i = i + 1;
        assert(defs_view(out@) =~= defs_of(sv.subrange(0, i as int)));
    }
    assert(sv.subrange(0, sv.len() as int) =~= sv);
    out
}

/// The first definition with id `id`.
fn lookup_def<'a>(defs: &'a Vec<(Vec<char>, Json)>, id: &Vec<char>) -> (r: Option<&'a Json>)
    ensures
        r matches Some(d) ==> def_lookup(defs_view(defs@), id@) == Some(d@),
        r is None ==> def_lookup(defs_view(defs@), id@) is None,
{
    let ghost dv = defs_view(defs@);
    let mut i: usize = 0;
    assert(dv.subrange(0, dv.len() as int) =~= dv);
    while i < defs.len()
        invariant
            i <= defs@.len(),
            dv == defs_view(defs@),
            def_lookup(dv, id@) == def_lookup(dv.subrange(i as int, dv.len() as int), id@),
        decreases defs@.len() - i,
    {
        assert(dv.subrange(i as int, dv.len() as int).drop_first() =~= dv.subrange(i + 1, dv.len() as int));
        if chars_eq(&defs[i].0, id) {
            return Some(&defs[i].1);
        }
        i = i + 1;
    }
    None
}

/// The string when present and not empty, otherwise `fallback`.
fn nonempty_or_exec(o: Option<&String>, fallback: Vec<char>) -> (r: Vec<char>)
    ensures
        r@ == nonempty_or(
            match o {
                Some(s) => Some(s@),
                None => None,
            },
            fallback@,
        ),
{
    match o {
        Some(s) => {
            let c = chars_of(s.as_str());
            if c.len() > 0 {
                c
            } else {
                fallback
            }
        },
        None => fallback,
    }
}

/// The display name of a setting definition.
fn def_display_exec(defs: &Vec<(Vec<char>, Json)>, id: &Vec<char>) -> (r: Vec<char>)
    ensures
        r@ == def_display(defs_view(defs@), id@),
{
    let fallback = pretty_setting_id_exec(id);
    match lookup_def(defs, id) {
        Some(d) => {
            let k = chars_of("displayName");
            nonempty_or_exec(d.get_str(&k), fallback)
        },
        None => fallback,
    }
}

/// The label of a chosen option.
fn resolve_choice_exec(defs: &Vec<(Vec<char>, Json)>, def_id: &Vec<char>, item: &Vec<char>) -> (r: Vec<char>)
    ensures
        r@ == resolve_choice(defs_view(defs@), def_id@, item@),
{
    let fallback = pretty_setting_id_exec(item);
    let d = match lookup_def(defs, def_id) {
        Some(d) => d,
        None => {
            return fallback;
        },
    };
    let k_opts = chars_of("options");
    let opts = match d.get_array(&k_opts) {
        Some(o) => o,
        None => {
            return fallback;
        },
    };
    let ghost ov = views(opts@);
    assert(resolve_choice(defs_view(defs@), def_id@, item@) == choice_in(ov, item@));
    let k_item = chars_of("itemId");
    let k_name = chars_of("displayName");
    let mut i: usize = 0;
    assert(ov.subrange(0, ov.len() as int) =~= ov);
    while i < opts.len()
        invariant
            i <= opts@.len(),
            ov == views(opts@),
            k_item@ == "itemId"@,
            k_name@ == "displayName"@,
            fallback@ == pretty_setting_id(item@),
            choice_in(ov, item@) == choice_in(ov.subrange(i as int, ov.len() as int), item@),
            resolve_choice(defs_view(defs@), def_id@, item@) == choice_in(ov, item@),
        decreases opts@.len() - i,
    {
        assert(ov.subrange(i as int, ov.len() as int).drop_first() =~= ov.subrange(i + 1, ov.len() as int));
        assert(ov[i as int] == opts@[i as int]@);
        assert(ov.subrange(i as int, ov.len() as int)[0] == ov[i as int]);
        let matched = match opts[i].get_str(&k_item) {
            Some(s) => {
                let c = chars_of(s.as_str());
                chars_eq(&c, item)
            },
            None => false,
        };
        assert(matched == (get_str(ov[i as int], "itemId"@) == Some(item@)));
        if matched {
            return nonempty_or_exec(opts[i].get_str(&k_name), fallback);
        }
        i = i + 1;
    }
    fallback
}

/// Appends the rows of the objects among `cs`, each walked at `level`.
#[verifier::loop_isolation(false)]
fn walk_children_exec(defs: &Vec<(Vec<char>, Json)>, cs: &Vec<Json>, level: u8, out: &mut Vec<DocRow>)
    requires
        level as int + depth_max(views(cs@)) <= 255,
    ensures
        rviews(final(out)@) == rviews(old(out)@) + walk_children(defs_view(defs@), views(cs@), level as int),
    decreases views(cs@), 1nat,
{
    let ghost cv = views(cs@);
    let ghost dv = defs_view(defs@);
    let mut i: usize = 0;
    assert(rviews(out@) =~= rviews(old(out)@) + walk_children(dv, cv.subrange(0, 0), level as int));
    while i < cs.len()
        invariant
            i <= cs@.len(),
            cv == views(cs@),
            rviews(out@) == rviews(old(out)@) + walk_children(dv, cv.subrange(0, i as int), level as int),
        decreases cs@.len() - i,
    {
        let ghost before = rviews(out@);
        assert(cv.subrange(0, i + 1).subrange(0, i as int) =~= cv.subrange(0, i as int));
        assert(cv[i as int] == cs@[i as int]@);
        if cs[i].is_object() {
            proof {
                lemma_depth_max(cv, i as int);
                assert(decreases_to!(cv => cv[i as int]));
            }
            walk_instance(defs, &cs[i], level, out);
        }
        i = i + 1;
        assert(rviews(out@) =~= rviews(old(out)@) + walk_children(dv, cv.subrange(0, i as int), level as int));
    }
    assert(cv.subrange(0, cv.len() as int) =~= cv);
}

/// Appends the rows of one setting instance and everything nested in it.
#[verifier::loop_isolation(false)]
#[verifier::spinoff_prover]
#[verifier::rlimit(60)]
fn walk_instance(defs: &Vec<(Vec<char>, Json)>, inst: &Json, level: u8, out: &mut Vec<DocRow>)
    requires
        level as int + inst@.depth() <= 255,
    ensures
        rviews(final(out)@) == rviews(old(out)@) + walk(defs_view(defs@), inst@, level as int),
    decreases inst@, 0nat,
{
    let ghost dv = defs_view(defs@);
    let odata = member_str(inst, "@odata.type");
    let def_id = member_str(inst, "settingDefinitionId");
    let name = def_display_exec(defs, &def_id);
    let empty: Vec<char> = Vec::new();
    if contains_exec(&odata, &chars_of("ChoiceSettingInstance")) {
        let k_csv = chars_of("choiceSettingValue");
        let csv = inst.get(&k_csv);
        let val = match csv {
            Some(c) => member_str(c, "value"),
            None => Vec::new(),
        };
        let value = resolve_choice_exec(defs, &def_id, &val);
        push_row(out, &name, &value, level, RowKind::Setting);
        let ghost mid = rviews(out@);
        match csv {
            Some(c) => {
                let k_children = chars_of("children");
                match c.get_array(&k_children) {
                    Some(a) => {
                        proof {
                            lemma_get_depth(inst@, "choiceSettingValue"@);
                            lemma_get_smaller(inst@, "choiceSettingValue"@);
                            lemma_get_array_smaller(c@, "children"@);
                            lemma_get_depth(c@, "children"@);
                        }
                        walk_children_exec(defs, a, level + 1, out);
                    },
                    None => {},
                }
            },
            None => {},
        }
        assert(rviews(out@) =~= rviews(old(out)@) + walk(dv, inst@, level as int));
    } else if contains_exec(&odata, &chars_of("ChoiceSettingCollectionInstance")) {
        push_row(out, &name, &empty, level, RowKind::Group);
        let ghost mid = rviews(out@);
        let k_vals = chars_of("choiceSettingCollectionValue");
        match inst.get_array(&k_vals) {
            Some(vals) => {
                let ghost vv = views(vals@);
                proof {
                    lemma_get_array_smaller(inst@, "choiceSettingCollectionValue"@);
                }
                let k_children = chars_of("children");
                let mut i: usize = 0;
                assert(rviews(out@) =~= mid + walk_collection(dv, def_id@, vv.subrange(0, 0), level as int));
                while i < vals.len()
                    invariant
                        i <= vals@.len(),
                        vv == views(vals@),
                        k_children@ == "children"@,
                        vv.len() == 0 || depth_max(vv) + 2 <= inst@.depth(),
                        rviews(out@) == mid + walk_collection(dv, def_id@, vv.subrange(0, i as int), level as int),
                    decreases vals@.len() - i,
                {
                    let ghost before = rviews(out@);
                    assert(vv.subrange(0, i + 1).subrange(0, i as int) =~= vv.subrange(0, i as int));
                    assert(vv[i as int] == vals@[i as int]@);
                    proof {
                        lemma_depth_max(vv, i as int);
                    }
                    let cv = &vals[i];
                    let val = member_str(cv, "value");
                    let label = resolve_choice_exec(defs, &def_id, &val);
                    push_row(out, &label, &empty, level + 1, RowKind::Setting);
                    match cv.get_array(&k_children) {
                        Some(a) => {
                            proof {
                                lemma_get_array_smaller(cv@, "children"@);
                                lemma_get_depth(cv@, "children"@);
                                assert(decreases_to!(vv => vv[i as int]));
                            }
                            walk_children_exec(defs, a, level + 2, out);
                        },
                        None => {},
                    }
                    i = i + 1;
                    assert(rviews(out@) =~= mid + walk_collection(dv, def_id@, vv.subrange(0, i as int), level as int));
                }
                assert(vv.subrange(0, vv.len() as int) =~= vv);
            },
            None => {},
        }
        assert(rviews(out@) =~= rviews(old(out)@) + walk(dv, inst@, level as int));
    } else if contains_exec(&odata, &chars_of("SimpleSettingCollectionInstance")) {
        let k_vals = chars_of("simpleSettingCollectionValue");
        let joined = match inst.get_array(&k_vals) {
            Some(a) => {
                let ghost av = views(a@);
                let k_value = chars_of("value");
                let null = Json::Null;
                let mut parts: Vec<Vec<char>> = Vec::new();
                let mut i: usize = 0;
                while i < a.len()
                    invariant
                        i <= a@.len(),
                        av == views(a@),
                        k_value@ == "value"@,
                        null@ == JsonV::Null,
                        parts@.len() == i,
                        forall|j: int| 0 <= j < i ==> (#[trigger] parts@[j])@ == scalar_text(value_or_null(av[j])),
                    decreases a@.len() - i,
                {
                    assert(av[i as int] == a@[i as int]@);
                    let p = match a[i].get(&k_value) {
                        Some(v) => scalar_to_string(v),
                        None => scalar_to_string(&null),
                    };
                    parts.push(p);
                    i = i + 1;
                }
                let sep = chars_of(", ");
                assert(parts_view(parts@) =~= av.map_values(|x: JsonV| scalar_text(value_or_null(x))));
                join_exec(&parts, &sep)
            },
            None => Vec::new(),
        };
        push_row(out, &name, &joined, level, RowKind::Setting);
        assert(rviews(out@) =~= rviews(old(out)@) + walk(dv, inst@, level as int));
    } else if contains_exec(&odata, &chars_of("SimpleSettingInstance")) {
        let k_ssv = chars_of("simpleSettingValue");
        let k_value = chars_of("value");
        let text = match inst.get(&k_ssv) {
            Some(sv) => match sv.get(&k_value) {
                Some(v) => scalar_to_string(v),
                None => scalar_to_string(&Json::Null),
            },
            None => scalar_to_string(&Json::Null),
        };
        push_row(out, &name, &text, level, RowKind::Setting);
        assert(rviews(out@) =~= rviews(old(out)@) + walk(dv, inst@, level as int));
    } else if contains_exec(&odata, &chars_of("GroupSettingCollectionInstance")) {
        push_row(out, &name, &empty, level, RowKind::Group);
        let ghost mid = rviews(out@);
        let k_groups = chars_of("groupSettingCollectionValue");
        match inst.get_array(&k_groups) {
            Some(gvs) => {
                let ghost gv = views(gvs@);
                proof {
                    lemma_get_array_smaller(inst@, "groupSettingCollectionValue"@);
                }
                let k_children = chars_of("children");
                let mut i: usize = 0;
                assert(rviews(out@) =~= mid + walk_groups(dv, gv.subrange(0, 0), level as int));
                while i < gvs.len()
                    invariant
                        i <= gvs@.len(),
                        gv == views(gvs@),
                        k_children@ == "children"@,
                        gv.len() == 0 || depth_max(gv) + 2 <= inst@.depth(),
                        rviews(out@) == mid + walk_groups(dv, gv.subrange(0, i as int), level as int),
                    decreases gvs@.len() - i,
                {
                    assert(gv.subrange(0, i + 1).subrange(0, i as int) =~= gv.subrange(0, i as int));
                    assert(gv[i as int] == gvs@[i as int]@);
                    proof {
                        lemma_depth_max(gv, i as int);
                    }
                    match gvs[i].get_array(&k_children) {
                        Some(a) => {
                            proof {
                                lemma_get_array_smaller(gvs@[i as int]@, "children"@);
                                lemma_get_depth(gvs@[i as int]@, "children"@);
                                assert(decreases_to!(gv => gv[i as int]));
                            }
                            walk_children_exec(defs, a, level + 1, out);
                        },
                        None => {},
                    }
                    i = i + 1;
                    assert(rviews(out@) =~= mid + walk_groups(dv, gv.subrange(0, i as int), level as int));
                }
                assert(gv.subrange(0, gv.len() as int) =~= gv);
            },
            None => {},
        }
        assert(rviews(out@) =~= rviews(old(out)@) + walk(dv, inst@, level as int));
    } else if contains_exec(&odata, &chars_of("GroupSettingInstance")) {
        push_row(out, &name, &empty, level, RowKind::Group);
        let k_gsv = chars_of("groupSettingValue");
        match inst.get(&k_gsv) {
            Some(g) => {
                let k_children = chars_of("children");
                match g.get_array(&k_children) {
                    Some(a) => {
                        proof {
                            lemma_get_depth(inst@, "groupSettingValue"@);
                            lemma_get_smaller(inst@, "groupSettingValue"@);
                            lemma_get_array_smaller(g@, "children"@);
                            lemma_get_depth(g@, "children"@);
                        }
                        walk_children_exec(defs, a, level + 1, out);
                    },
                    None => {},
                }
            },
            None => {},
        }
        assert(rviews(out@) =~= rviews(old(out)@) + walk(dv, inst@, level as int));
    } else {
        let tail = tail_after_exec(&odata, '.', '.');
        let label = format_key_chars(&tail);
        push_row(out, &name, &label, level, RowKind::Setting);
        assert(rviews(out@) =~= rviews(old(out)@) + walk(dv, inst@, level as int));
    }
}

/// The views of a section.
pub struct SectionV {
    pub title: Seq<char>,
    pub rows: Seq<RowV>,
}

impl View for DocSection {
    type V = SectionV;

    open spec fn view(&self) -> SectionV {
        SectionV { title: self.title@, rows: rviews(self.rows@) }
    }
}

/// Build the "Configuration settings" section from a Settings Catalog `settings` list.
pub fn settings_catalog_section(settings: &Vec<Json>) -> (r: DocSection)
    requires
        forall|i: int|
            0 <= i < settings@.len() ==> match (#[trigger] settings@[i])@.get("settingInstance"@) {
                Some(inst) => inst.depth() <= 255,
                None => true,
            },
    ensures
        r@.title == "Configuration settings"@,
        r@.rows == catalog_rows(defs_of(views(settings@)), views(settings@)),
{
    let defs = build_defs(settings);
    let ghost dv = defs_view(defs@);
    let ghost sv = views(settings@);
    let k_inst = chars_of("settingInstance");
    let mut rows: Vec<DocRow> = Vec::new();
    let mut i: usize = 0;
    while i < settings.len()
        invariant
            i <= settings@.len(),
            sv == views(settings@),
            dv == defs_view(defs@),
            dv == defs_of(sv),
            k_inst@ == "settingInstance"@,
            forall|j: int|
                0 <= j < settings@.len() ==> match (#[trigger] settings@[j])@.get("settingInstance"@) {
                    Some(inst) => inst.depth() <= 255,
                    None => true,
                },
            rviews(rows@) == catalog_rows(dv, sv.subrange(0, i as int)),
        decreases settings@.len() - i,
    {
        assert(sv.subrange(0, i + 1).drop_last() =~= sv.subrange(0, i as int));
        assert(sv[i as int] == settings@[i as int]@);
        let ghost before = rviews(rows@);
        match settings[i].get(&k_inst) {
            Some(inst) => {
                walk_instance(&defs, inst, 0, &mut rows);
            },
            None => {},
        }
        i = i + 1;
        assert(rviews(rows@) =~= catalog_rows(dv, sv.subrange(0, i as int)));
    }
    assert(sv.subrange(0, sv.len() as int) =~= sv);
    let title = chars_of("Configuration settings");
    DocSection { title: string_from(&title), rows }
}

// ---- Endpoint Security intent settings ------------------------------------

/// `x`'s member `value`, or `x` itself.
pub open spec fn value_or_self(x: JsonV) -> JsonV {
    match x.get("value"@) {
        Some(v) => v,
        None => x,
    }
}

/// The text of an intent setting's raw `valueJson`: a parsed string, number or
/// boolean shown as such, other JSON as written, and `—` when absent, empty or
/// `null`.
pub open spec fn value_json_text(inst: JsonV) -> Seq<char> {
    match get_str(inst, "valueJson"@) {
        Some(vj) => {
            if vj != "null"@ && vj.len() > 0 {
                parsed_text(vj, top_of(json_parse(vj)))
            } else {
                seq!['\u{2014}']
            }
        },
        None => seq!['\u{2014}'],
    }
}

/// What raw JSON text shows as, given what parsing it gave: a string, number
/// or boolean as its value reads, anything else (null, an array, an object, or
/// text that does not parse) as written.
pub open spec fn parsed_text(raw: Seq<char>, parsed: Option<ParsedTopV>) -> Seq<char> {
    match parsed {
        Some(ParsedTopV::Str(t)) => scalar_text(JsonV::Str(t)),
        Some(ParsedTopV::Number(n)) => scalar_text(JsonV::Number(n)),
        Some(ParsedTopV::Bool(b)) => scalar_text(JsonV::Bool(b)),
        _ => raw,
    }
}

/// What raw JSON text shows as, given what parsing it gave (see `parsed_text`).
pub fn parsed_value_text(raw: &Vec<char>, parsed: &Option<ParsedTop>) -> (r: Vec<char>)
    ensures
        r@ == parsed_text(raw@, opt_top(*parsed)),
{
    match parsed {
        Some(ParsedTop::Str(t)) => scalar_to_string(&Json::Str(t.clone())),
        Some(ParsedTop::Number(n)) => scalar_to_string(&Json::Number(n.clone())),
        Some(ParsedTop::Bool(b)) => scalar_to_string(&Json::Bool(*b)),
        _ => {
            let mut out: Vec<char> = Vec::new();
            extend_chars(&mut out, raw);
            out
        },
    }
}

/// The value of an intent setting: a structured `value` first, then the raw
/// `valueJson`.
pub open spec fn intent_value(inst: JsonV) -> Seq<char> {
    match inst.get("value"@) {
        Some(JsonV::Array(arr)) => join(arr.map_values(|x: JsonV| scalar_text(value_or_self(x))), ", "@),
        Some(v) => {
            if !v.is_null() && !v.is_object() {
                scalar_text(v)
            } else {
                value_json_text(inst)
            }
        },
        None => value_json_text(inst),
    }
}

/// The value text of an intent setting.
fn intent_value_string(inst: &Json) -> (r: Vec<char>)
    ensures
        r@ == intent_value(inst@),
{
    let k_value = chars_of("value");
    match inst.get(&k_value) {
        Some(v) => {
            match v {
                Json::Array(arr) => {
                    let ghost av = v@->Array_0;
                    let mut parts: Vec<Vec<char>> = Vec::new();
                    let mut i: usize = 0;
                    while i < arr.len()
                        invariant
                            i <= arr@.len(),
                            av.len() == arr@.len(),
                            forall|j: int| 0 <= j < arr@.len() ==> av[j] == (#[trigger] arr@[j])@,
                            k_value@ == "value"@,
                            parts@.len() == i,
                            forall|j: int| 0 <= j < i ==> (#[trigger] parts@[j])@ == scalar_text(value_or_self(av[j])),
                        decreases arr@.len() - i,
                    {
                        let p = match arr[i].get(&k_value) {
                            Some(x) => scalar_to_string(x),
                            None => scalar_to_string(&arr[i]),
                        };
                        parts.push(p);
                        i = i + 1;
                    }
                    let sep = chars_of(", ");
                    assert(parts_view(parts@) =~= av.map_values(|x: JsonV| scalar_text(value_or_self(x))));
                    return join_exec(&parts, &sep);
                },
                _ => {
                    if !v.is_null() && !v.is_object() {
                        return scalar_to_string(v);
                    }
                },
            }
        },
        None => {},
    }
    value_json_string(inst)
}

/// The text of an intent setting's `valueJson`.
fn value_json_string(inst: &Json) -> (r: Vec<char>)
    ensures
        r@ == value_json_text(inst@),
{
    let k_vj = chars_of("valueJson");
    let mut dash: Vec<char> = Vec::new();
    dash.push('\u{2014}');
    assert(dash@ =~= seq!['\u{2014}']);
    match inst.get_str(&k_vj) {
        Some(vj) => {
            let c = chars_of(vj.as_str());
            let null = chars_of("null");
            if !chars_eq(&c, &null) && c.len() > 0 {
                let parsed = parse_json_top(vj.as_str());
                parsed_value_text(&c, &parsed)
            } else {
                dash
            }
        },
        None => dash,
    }
}

/// The sort key of a row: its name in lower case.
pub open spec fn row_key(r: RowV) -> Seq<char> {
    unicode_to_lowercase(r.name)
}

/// `sorted` with `x` inserted after every row whose key is not greater than its own.
pub open spec fn insert_sorted(sorted: Seq<RowV>, x: RowV) -> Seq<RowV>
    decreases sorted.len(),
{
    if sorted.len() == 0 {
        seq![x]
    } else if seq_lt(row_key(x), row_key(sorted.last())) {
        insert_sorted(sorted.drop_last(), x).push(sorted.last())
    } else {
        sorted.push(x)
    }
}

/// The rows in the order of a stable sort by lower-cased name.
pub open spec fn sort_rows(rows: Seq<RowV>) -> Seq<RowV>
    decreases rows.len(),
{
    if rows.len() == 0 {
        rows
    } else {
        insert_sorted(sort_rows(rows.drop_last()), rows.last())
    }
}

/// The key rows are sorted by.
pub open spec fn row_key_fn() -> spec_fn(RowV) -> Seq<char> {
    |r: RowV| row_key(r)
}

proof fn lemma_insert_sorted_is_insert_by(sorted: Seq<RowV>, x: RowV)
    ensures
        insert_sorted(sorted, x) == insert_by(sorted, x, row_key_fn(), str_lt()),
    decreases sorted.len(),
{
    if sorted.len() > 0 {
        lemma_insert_sorted_is_insert_by(sorted.drop_last(), x);
    }
}

proof fn lemma_sort_rows_is_sort_by(rows: Seq<RowV>)
    ensures
        sort_rows(rows) == sort_by(rows, row_key_fn(), str_lt()),
    decreases rows.len(),
{
    if rows.len() > 0 {
        lemma_sort_rows_is_sort_by(rows.drop_last());
        lemma_insert_sorted_is_insert_by(sort_rows(rows.drop_last()), rows.last());
    }
}

/// Rows sorted for display are in order of their lower-cased names and are
/// exactly the rows given.
pub proof fn law_sorted_rows(rows: Seq<RowV>)
    ensures
        sorted_by(sort_rows(rows), row_key_fn(), str_lt()),
        sort_rows(rows).to_multiset() == rows.to_multiset(),
{
    lemma_sort_rows_is_sort_by(rows);
    lemma_str_lt_order();
    law_sort_sorted(rows, row_key_fn(), str_lt());
    law_sort_permutes(rows, row_key_fn(), str_lt());
}

/// The rows of an intent's settings that have a `definitionId`, in input order.
pub open spec fn intent_rows(settings: Seq<JsonV>) -> Seq<RowV>
    decreases settings.len(),
{
    if settings.len() == 0 {
        Seq::empty()
    } else {
        let s = settings.last();
        let def_id = str_or_empty(get_str(s, "definitionId"@));
        intent_rows(settings.drop_last()) + if def_id.len() == 0 {
            Seq::empty()
        } else {
            seq![setting_row(crate::labels::intent_setting_name(def_id), intent_value(s), 0)]
        }
    }
}

/// Inserts `row`, keyed by `key`, into rows kept in stable sorted order.
fn insert_row_sorted(keys: &mut Vec<Vec<char>>, rows: &mut Vec<DocRow>, key: Vec<char>, row: DocRow)
    requires
        old(keys)@.len() == old(rows)@.len(),
        forall|j: int| 0 <= j < old(rows)@.len() ==> (#[trigger] old(keys)@[j])@ == row_key(old(rows)@[j]@),
        key@ == row_key(row@),
    ensures
        final(keys)@.len() == final(rows)@.len(),
        forall|j: int| 0 <= j < final(rows)@.len() ==> (#[trigger] final(keys)@[j])@ == row_key(final(rows)@[j]@),
        rviews(final(rows)@) == insert_sorted(rviews(old(rows)@), row@),
{
    let ghost sorted = rviews(rows@);
    let mut p: usize = rows.len();
    assert(sorted.subrange(0, sorted.len() as int) =~= sorted);
    assert(sorted.subrange(sorted.len() as int, sorted.len() as int) =~= Seq::<RowV>::empty());
    while p > 0 && seq_lt_exec(&key, &keys[p - 1])
        invariant
            p <= rows@.len(),
            keys@.len() == rows@.len(),
            key@ == row_key(row@),
            sorted == rviews(rows@),
            forall|j: int| 0 <= j < rows@.len() ==> (#[trigger] keys@[j])@ == row_key(rows@[j]@),
            insert_sorted(sorted, row@) == insert_sorted(sorted.subrange(0, p as int), row@) + sorted.subrange(
                p as int,
                sorted.len() as int,
            ),
        decreases p,
    {
        let ghost pre = sorted.subrange(0, p as int);
        assert(pre.drop_last() =~= sorted.subrange(0, p - 1));
        assert(pre.last() == rows@[p - 1]@);
        assert(keys@[p - 1]@ == row_key(rows@[p - 1]@));
        assert(seq_lt(row_key(row@), row_key(pre.last())));
        assert(insert_sorted(pre, row@) == insert_sorted(pre.drop_last(), row@).push(pre.last()));
        assert(insert_sorted(sorted.subrange(0, p - 1), row@).push(pre.last()) + sorted.subrange(p as int, sorted.len() as int)
            =~= insert_sorted(sorted.subrange(0, p - 1), row@) + sorted.subrange(p - 1, sorted.len() as int));
        p = p - 1;
    }
    proof {
        let pre = sorted.subrange(0, p as int);
        if p > 0 {
            assert(pre.last() == rows@[p - 1]@);
            assert(insert_sorted(pre, row@) == pre.push(row@));
        } else {
            assert(insert_sorted(pre, row@) == seq![row@]);
        }
    }
    let ghost old_rows = rows@;
    keys.insert(p, key);
    rows.insert(p, row);
    assert(rviews(rows@) =~= insert_sorted(sorted, row@)) by {
        assert(rviews(rows@) =~= sorted.subrange(0, p as int).push(row@) + sorted.subrange(p as int, sorted.len() as int));
    }
}

/// Build the settings section for an Endpoint Security intent from its
/// `settings` collection (fetched from `/intents/{id}/settings`): one row per
/// setting with a `definitionId`, sorted by name ignoring case.
pub fn endpoint_security_section(settings: &Vec<Json>) -> (r: DocSection)
    ensures
        r@.title == "Configuration settings"@,
        r@.rows == sort_rows(intent_rows(views(settings@))),
{
    let ghost sv = views(settings@);
    let k_def = chars_of("definitionId");
    let mut keys: Vec<Vec<char>> = Vec::new();
    let mut rows: Vec<DocRow> = Vec::new();
    let mut i: usize = 0;
    assert(sort_rows(intent_rows(sv.subrange(0, 0))) =~= Seq::<RowV>::empty());
    while i < settings.len()
        invariant
            i <= settings@.len(),
            sv == views(settings@),
            k_def@ == "definitionId"@,
            keys@.len() == rows@.len(),
            forall|j: int| 0 <= j < rows@.len() ==> (#[trigger] keys@[j])@ == row_key(rows@[j]@),
            rviews(rows@) == sort_rows(intent_rows(sv.subrange(0, i as int))),
        decreases settings@.len() - i,
    {
        assert(sv.subrange(0, i + 1).drop_last() =~= sv.subrange(0, i as int));
        assert(sv[i as int] == settings@[i as int]@);
        let def_id = member_str(&settings[i], "definitionId");
        if def_id.len() > 0 {
            let name = crate::labels::intent_setting_name_exec(&def_id);
            let value = intent_value_string(&settings[i]);
            let key = lowercase_chars(&name);
            let row = DocRow { name: string_from(&name), value: string_from(&value), level: 0, kind: RowKind::Setting };
            let ghost inputs = intent_rows(sv.subrange(0, i as int));
            assert(intent_rows(sv.subrange(0, i + 1)) =~= inputs.push(row@));
            assert(inputs.push(row@).drop_last() =~= inputs);
            insert_row_sorted(&mut keys, &mut rows, key, row);
        } else {
            assert(intent_rows(sv.subrange(0, i + 1)) =~= intent_rows(sv.subrange(0, i as int)));
        }
        i = i + 1;
    }
    assert(sv.subrange(0, sv.len() as int) =~= sv);
    let title = chars_of("Configuration settings");
    DocSection { title: string_from(&title), rows }
}

// ---- Administrative Templates (ADMX) --------------------------------------

/// The row of one presentation value of an ADMX setting.
pub open spec fn presentation_row(pv: JsonV) -> RowV {
    let label = nonempty_or(
        match pv.get("presentation"@) {
            Some(p) => get_str(p, "label"@),
            None => None,
        },
        "Value"@,
    );
    let value = match pv.get("value"@) {
        Some(v) => v,
        None => JsonV::Null,
    };
    let text = match value {
        JsonV::Array(a) => join(a.map_values(|x: JsonV| scalar_text(x)), ", "@),
        _ => scalar_text(value),
    };
    setting_row(format_key_spec(label), text, 1)
}

/// The rows of one ADMX definition value: the setting, under its category,
/// enabled or disabled, then one row per presentation value.
pub open spec fn admx_value_rows(dv: JsonV) -> Seq<RowV> {
    let def = dv.get("definition"@);
    let name = match def {
        Some(d) => match get_str(d, "displayName"@) {
            Some(n) => n,
            None => "(unknown setting)"@,
        },
        None => "(unknown setting)"@,
    };
    let category = trim_start_char(
        match def {
            Some(d) => str_or_empty(get_str(d, "categoryPath"@)),
            None => Seq::empty(),
        },
        '\\',
    );
    let enabled = match dv.get("enabled"@) {
        Some(v) => match v.as_bool() {
            Some(b) => b,
            None => false,
        },
        None => false,
    };
    let display = if category.len() == 0 { name } else { category + seq![' ', '\\', ' '] + name };
    seq![setting_row(display, if enabled { "Enabled"@ } else { "Disabled"@ }, 0)] + match get_array(dv, "presentationValues"@) {
        Some(pvs) => pvs.map_values(|pv: JsonV| presentation_row(pv)),
        None => Seq::empty(),
    }
}

/// The rows of all ADMX definition values, in order.
pub open spec fn admx_rows(dvs: Seq<JsonV>) -> Seq<RowV>
    decreases dvs.len(),
{
    if dvs.len() == 0 {
        Seq::empty()
    } else {
        admx_rows(dvs.drop_last()) + admx_value_rows(dvs.last())
    }
}

/// The scalars of an array, each rendered, joined with `, `.
fn join_scalars(a: &Vec<Json>) -> (r: Vec<char>)
    ensures
        r@ == join(views(a@).map_values(|x: JsonV| scalar_text(x)), ", "@),
{
    let ghost av = views(a@);
    let mut parts: Vec<Vec<char>> = Vec::new();
    let mut i: usize = 0;
    while i < a.len()
        invariant
            i <= a@.len(),
            av == views(a@),
            parts@.len() == i,
            forall|j: int| 0 <= j < i ==> (#[trigger] parts@[j])@ == scalar_text(av[j]),
        decreases a@.len() - i,
    {
        assert(av[i as int] == a@[i as int]@);
        let p = scalar_to_string(&a[i]);
        parts.push(p);
        i = i + 1;
    }
    let sep = chars_of(", ");
    assert(parts_view(parts@) =~= av.map_values(|x: JsonV| scalar_text(x)));
    join_exec(&parts, &sep)
}

/// The row of one presentation value.
fn presentation_row_exec(pv: &Json) -> (r: DocRow)
    ensures
        r@ == presentation_row(pv@),
{
    let k_pres = chars_of("presentation");
    let k_label = chars_of("label");
    let k_value = chars_of("value");
    let fallback = chars_of("Value");
    let label = match pv.get(&k_pres) {
        Some(p) => nonempty_or_exec(p.get_str(&k_label), fallback),
        None => fallback,
    };
    let text = match pv.get(&k_value) {
        Some(v) => match v {
            Json::Array(a) => {
                assert(views(a@) =~= v@->Array_0);
                join_scalars(a)
            },
            _ => scalar_to_string(v),
        },
        None => scalar_to_string(&Json::Null),
    };
    let name = format_key_chars(&label);
    DocRow { name: string_from(&name), value: string_from(&text), level: 1, kind: RowKind::Setting }
}

/// Build the settings section for an Administrative Template from its
/// `definitionValues` (each with an expanded `definition` and
/// `presentationValues`).
pub fn admx_section(definition_values: &Vec<Json>) -> (r: DocSection)
    ensures
        r@.title == "Configuration settings"@,
        r@.rows == admx_rows(views(definition_values@)),
{
    let ghost dvs = views(definition_values@);
    let k_def = chars_of("definition");
    let k_name = chars_of("displayName");
    let k_cat = chars_of("categoryPath");
    let k_enabled = chars_of("enabled");
    let k_pvs = chars_of("presentationValues");
    let mut rows: Vec<DocRow> = Vec::new();
    let mut i: usize = 0;
    while i < definition_values.len()
        invariant
            i <= definition_values@.len(),
            dvs == views(definition_values@),
            k_def@ == "definition"@,
            k_name@ == "displayName"@,
            k_cat@ == "categoryPath"@,
            k_enabled@ == "enabled"@,
            k_pvs@ == "presentationValues"@,
            rviews(rows@) == admx_rows(dvs.subrange(0, i as int)),
        decreases definition_values@.len() - i,
    {
        assert(dvs.subrange(0, i + 1).drop_last() =~= dvs.subrange(0, i as int));
        assert(dvs[i as int] == definition_values@[i as int]@);
        let dv = &definition_values[i];
        let ghost before = rviews(rows@);
        let def = dv.get(&k_def);
        let name = match def {
            Some(d) => match d.get_str(&k_name) {
                Some(n) => chars_of(n.as_str()),
                None => chars_of("(unknown setting)"),
            },
            None => chars_of("(unknown setting)"),
        };
        let raw_cat = match def {
            Some(d) => match d.get_str(&k_cat) {
                Some(c) => chars_of(c.as_str()),
                None => Vec::new(),
            },
            None => Vec::new(),
        };
        let category = trim_start_char_exec(&raw_cat, '\\');
        let enabled = match dv.get(&k_enabled) {
            Some(v) => match v.as_bool() {
                Some(b) => b,
                None => false,
            },
            None => false,
        };
        let display = if category.len() == 0 {
            name
        } else {
            let mut d: Vec<char> = Vec::new();
            extend_chars(&mut d, &category);
            d.push(' ');
            d.push('\\');
            d.push(' ');
            extend_chars(&mut d, &name);
            assert(d@ =~= category@ + seq![' ', '\\', ' '] + name@);
            d
        };
        let value = if enabled {
            chars_of("Enabled")
        } else {
            chars_of("Disabled")
        };
        push_row(&mut rows, &display, &value, 0, RowKind::Setting);
        let ghost mid = rviews(rows@);
        match dv.get_array(&k_pvs) {
            Some(pvs) => {
                let ghost pv = views(pvs@);
                let mut j: usize = 0;
                assert(mid + pv.subrange(0, 0).map_values(|x: JsonV| presentation_row(x)) =~= mid);
                while j < pvs.len()
                    invariant
                        j <= pvs@.len(),
                        pv == views(pvs@),
                        rviews(rows@) == mid + pv.subrange(0, j as int).map_values(|x: JsonV| presentation_row(x)),
                    decreases pvs@.len() - j,
                {
                    assert(pv[j as int] == pvs@[j as int]@);
                    let ghost prev = rviews(rows@);
                    let r = presentation_row_exec(&pvs[j]);
                    rows.push(r);
                    assert(rviews(rows@) =~= prev.push(r@));
                    assert(pv.subrange(0, j + 1).map_values(|x: JsonV| presentation_row(x)) =~= pv.subrange(0, j as int).map_values(
                        |x: JsonV| presentation_row(x),
                    ).push(presentation_row(pv[j as int])));
                    j = j + 1;
                    assert(rviews(rows@) =~= mid + pv.subrange(0, j as int).map_values(|x: JsonV| presentation_row(x)));
                }
                assert(pv.subrange(0, pv.len() as int) =~= pv);
            },
            None => {},
        }
        i = i + 1;
        assert(rviews(rows@) =~= admx_rows(dvs.subrange(0, i as int)));
    }
    assert(dvs.subrange(0, dvs.len() as int) =~= dvs);
    let title = chars_of("Configuration settings");
    DocSection { title: string_from(&title), rows }
}

// ---- Generic property renderer --------------------------------------------

/// Keys the generic renderer never shows: annotations, settings and assignments.
pub open spec fn skip_key(k: Seq<char>) -> bool {
    starts_with(k, "@odata"@) || k == "settings"@ || k == "assignments"@
}

/// Whether the generic renderer skips the key `k`.
fn skip_key_exec(k: &Vec<char>) -> (r: bool)
    ensures
        r == skip_key(k@),
{
    starts_with_exec(k, &chars_of("@odata")) || chars_eq(k, &chars_of("settings")) || chars_eq(
        k,
        &chars_of("assignments"),
    )
}

/// The metadata keys (ids, timestamps, versions), in the order they are shown.
pub open spec fn meta_key(k: Seq<char>) -> bool {
    ||| k == "id"@
    ||| k == "version"@
    ||| k == "createdDateTime"@
    ||| k == "lastModifiedDateTime"@
    ||| k == "supportsScopeTags"@
    ||| k == "isAssigned"@
    ||| k == "settingCount"@
}

/// The rows of a value and everything nested in it, under the label `name`.
pub open spec fn flatten(value: JsonV, name: Seq<char>, level: int) -> Seq<RowV>
    decreases value, 0nat,
{
    match value {
        JsonV::Object(ks, vs) => seq![group_row(name, level)] + flatten_members(ks, vs, level + 1),
        JsonV::Array(arr) => {
            if forall|i: int| 0 <= i < arr.len() ==> !(#[trigger] arr[i]).is_object() && !arr[i].is_array() {
                seq![setting_row(name, join(arr.map_values(|x: JsonV| scalar_text(x)), ", "@), level)]
            } else {
                seq![group_row(name + " ("@ + decimal(arr.len()) + " items)"@, level)] + flatten_items(arr, level + 1)
            }
        },
        _ => seq![setting_row(name, scalar_text(value), level)],
    }
}

/// The rows of the members of an object that are not skipped.
pub open spec fn flatten_members(ks: Seq<Seq<char>>, vs: Seq<JsonV>, level: int) -> Seq<RowV>
    decreases vs, 1nat,
{
    if vs.len() == 0 {
        Seq::empty()
    } else {
        let n = vs.len() - 1;
        flatten_members(ks, vs.subrange(0, n), level) + if skip_key(ks[n]) {
            Seq::empty()
        } else {
            flatten(vs[n], format_key_spec(ks[n]), level)
        }
    }
}

/// The rows of the items of an array, labelled `#1`, `#2`, ...
pub open spec fn flatten_items(arr: Seq<JsonV>, level: int) -> Seq<RowV>
    decreases arr, 1nat,
{
    if arr.len() == 0 {
        Seq::empty()
    } else {
        let n = arr.len() - 1;
        flatten_items(arr.subrange(0, n), level) + flatten(arr[n], seq!['#'] + decimal(arr.len()), level)
    }
}

/// Appends the rows of `value` under the label `name`.
#[verifier::loop_isolation(false)]
#[verifier::spinoff_prover]
#[verifier::rlimit(40)]
fn flatten_exec(value: &Json, name: &Vec<char>, level: u8, out: &mut Vec<DocRow>)
    requires
        level as int + value@.depth() <= 255,
    ensures
        rviews(final(out)@) == rviews(old(out)@) + flatten(value@, name@, level as int),
    decreases value@,
{
    let empty: Vec<char> = Vec::new();
    match value {
        Json::Object(entries) => {
            let ghost ks = value@->Object_0;
            let ghost vs = value@->Object_1;
            assert(forall|x: int| 0 <= x < entries@.len() ==> ks[x] == (#[trigger] entries@[x]).0@ && vs[x] == entries@[x].1@);
            push_row(out, name, &empty, level, RowKind::Group);
            let ghost mid = rviews(out@);
            let mut i: usize = 0;
            assert(mid + flatten_members(ks, vs.subrange(0, 0), level + 1) =~= mid);
            while i < entries.len()
                invariant
                    i <= entries@.len(),
                    vs.len() == entries@.len(),
                    ks.len() == entries@.len(),
                    rviews(out@) == mid + flatten_members(ks, vs.subrange(0, i as int), level + 1),
                decreases entries@.len() - i,
            {
                assert(vs.subrange(0, i + 1).subrange(0, i as int) =~= vs.subrange(0, i as int));
                let k = chars_of(entries[i].0.as_str());
                if !skip_key_exec(&k) {
                    let label = format_key_chars(&k);
                    proof {
                        lemma_depth_max(vs, i as int);
                        assert(decreases_to!(value@ => vs[i as int]));
                    }
                    flatten_exec(&entries[i].1, &label, level + 1, out);
                }
                i = i + 1;
                assert(rviews(out@) =~= mid + flatten_members(ks, vs.subrange(0, i as int), level + 1));
            }
            assert(vs.subrange(0, vs.len() as int) =~= vs);
            assert(rviews(out@) =~= rviews(old(out)@) + flatten(value@, name@, level as int));
        },
        Json::Array(arr) => {
            let ghost av = value@->Array_0;
            assert(forall|x: int| 0 <= x < arr@.len() ==> av[x] == (#[trigger] arr@[x])@);
            let mut all_scalar = true;
            let mut j: usize = 0;
            while j < arr.len()
                invariant
                    j <= arr@.len(),
                    all_scalar == forall|x: int| 0 <= x < j ==> !(#[trigger] av[x]).is_object() && !av[x].is_array(),
                decreases arr@.len() - j,
            {
                if arr[j].is_object() || arr[j].is_array() {
                    all_scalar = false;
                }
                j = j + 1;
            }
            if all_scalar {
                assert(views(arr@) =~= av);
                let joined = join_scalars(arr);
                push_row(out, name, &joined, level, RowKind::Setting);
                assert(rviews(out@) =~= rviews(old(out)@) + flatten(value@, name@, level as int));
            } else {
                let mut label: Vec<char> = Vec::new();
                extend_chars(&mut label, name);
                extend_chars(&mut label, &chars_of(" ("));
                extend_chars(&mut label, &decimal_chars(arr.len() as u64));
                extend_chars(&mut label, &chars_of(" items)"));
                assert(label@ =~= name@ + " ("@ + decimal(av.len()) + " items)"@);
                push_row(out, &label, &empty, level, RowKind::Group);
                let ghost mid = rviews(out@);
                let mut i: usize = 0;
                assert(mid + flatten_items(av.subrange(0, 0), level + 1) =~= mid);
                while i < arr.len()
                    invariant
                        i <= arr@.len(),
                        av.len() == arr@.len(),
                        rviews(out@) == mid + flatten_items(av.subrange(0, i as int), level + 1),
                    decreases arr@.len() - i,
                {
                    assert(av.subrange(0, i + 1).subrange(0, i as int) =~= av.subrange(0, i as int));
                    let mut item_name: Vec<char> = Vec::new();
                    item_name.push('#');
                    extend_chars(&mut item_name, &decimal_chars(i as u64 + 1));
                    assert(item_name@ =~= seq!['#'] + decimal((i + 1) as nat));
                    proof {
                        lemma_item_depth(av, i as int);
                        assert(decreases_to!(value@ => av[i as int]));
                    }
                    flatten_exec(&arr[i], &item_name, level + 1, out);
                    i = i + 1;
                    assert(rviews(out@) =~= mid + flatten_items(av.subrange(0, i as int), level + 1));
                }
                assert(av.subrange(0, av.len() as int) =~= av);
                assert(rviews(out@) =~= rviews(old(out)@) + flatten(value@, name@, level as int));
            }
        },
        _ => {
            let text = scalar_to_string(value);
            push_row(out, name, &text, level, RowKind::Setting);
            assert(rviews(out@) =~= rviews(old(out)@) + flatten(value@, name@, level as int));
        },
    }
}

/// Keys of the top-level object that the generic section leaves out.
pub open spec fn generic_excluded(k: Seq<char>) -> bool {
    skip_key(k) || meta_key(k) || k == "displayName"@ || k == "name"@ || k == "description"@
}

/// The rows of the generic section: every member not left out, flattened at level 0.
pub open spec fn generic_rows(ks: Seq<Seq<char>>, vs: Seq<JsonV>) -> Seq<RowV>
    decreases vs.len(),
{
    if vs.len() == 0 {
        Seq::empty()
    } else {
        let n = vs.len() - 1;
        generic_rows(ks, vs.subrange(0, n)) + if generic_excluded(ks[n]) {
            Seq::empty()
        } else {
            flatten(vs[n], format_key_spec(ks[n]), 0)
        }
    }
}

/// Whether `k` is one of the metadata keys.
fn meta_key_exec(k: &Vec<char>) -> (r: bool)
    ensures
        r == meta_key(k@),
{
    chars_eq(k, &chars_of("id")) || chars_eq(k, &chars_of("version")) || chars_eq(k, &chars_of("createdDateTime"))
        || chars_eq(k, &chars_of("lastModifiedDateTime")) || chars_eq(k, &chars_of("supportsScopeTags")) || chars_eq(
        k,
        &chars_of("isAssigned"),
    ) || chars_eq(k, &chars_of("settingCount"))
}

/// Generic settings section for object types without a settings-catalog schema.
pub fn generic_section(object: &Json) -> (r: DocSection)
    requires
        object@.depth() <= 256,
    ensures
        r@.title == "Settings"@,
        r@.rows == match object@ {
            JsonV::Object(ks, vs) => generic_rows(ks, vs),
            _ => Seq::empty(),
        },
{
    let mut rows: Vec<DocRow> = Vec::new();
    match object {
        Json::Object(entries) => {
            let ghost ks = object@->Object_0;
            let ghost vs = object@->Object_1;
            assert(forall|x: int| 0 <= x < entries@.len() ==> ks[x] == (#[trigger] entries@[x]).0@ && vs[x] == entries@[x].1@);
            let mut i: usize = 0;
            assert(rviews(rows@) =~= generic_rows(ks, vs.subrange(0, 0)));
            while i < entries.len()
                invariant
                    i <= entries@.len(),
                    vs.len() == entries@.len(),
                    ks.len() == entries@.len(),
                    object@.depth() <= 256,
                    object@ == JsonV::Object(ks, vs),
                    forall|x: int| 0 <= x < entries@.len() ==> ks[x] == (#[trigger] entries@[x]).0@ && vs[x] == entries@[x].1@,
                    rviews(rows@) == generic_rows(ks, vs.subrange(0, i as int)),
                decreases entries@.len() - i,
            {
                assert(vs.subrange(0, i + 1).subrange(0, i as int) =~= vs.subrange(0, i as int));
                let k = chars_of(entries[i].0.as_str());
                let excluded = skip_key_exec(&k) || meta_key_exec(&k) || chars_eq(&k, &chars_of("displayName"))
                    || chars_eq(&k, &chars_of("name")) || chars_eq(&k, &chars_of("description"));
                if !excluded {
                    let label = format_key_chars(&k);
                    proof {
                        lemma_depth_max(vs, i as int);
                    }
                    flatten_exec(&entries[i].1, &label, 0, &mut rows);
                }
                i = i + 1;
                assert(rviews(rows@) =~= generic_rows(ks, vs.subrange(0, i as int)));
            }
            assert(vs.subrange(0, vs.len() as int) =~= vs);
        },
        _ => {},
    }
    let title = chars_of("Settings");
    DocSection { title: string_from(&title), rows }
}

/// The metadata row for key `k`, if the object has it and it is not null.
pub open spec fn meta_row(object: JsonV, k: Seq<char>) -> Seq<RowV> {
    match object.get(k) {
        Some(v) => if !v.is_null() { seq![setting_row(format_key_spec(k), scalar_text(v), 0)] } else { Seq::empty() },
        None => Seq::empty(),
    }
}

/// The metadata rows, in the order of the metadata keys.
pub open spec fn meta_rows(object: JsonV) -> Seq<RowV> {
    meta_row(object, "id"@) + meta_row(object, "version"@) + meta_row(object, "createdDateTime"@) + meta_row(
        object,
        "lastModifiedDateTime"@,
    ) + meta_row(object, "supportsScopeTags"@) + meta_row(object, "isAssigned"@) + meta_row(object, "settingCount"@)
}

fn push_meta_row(object: &Json, key: &str, rows: &mut Vec<DocRow>)
    ensures
        rviews(final(rows)@) == rviews(old(rows)@) + meta_row(object@, key@),
{
    let k = chars_of(key);
    match object.get(&k) {
        Some(v) => {
            if !v.is_null() {
                let name = format_key_chars(&k);
                let text = scalar_to_string(v);
                push_row(rows, &name, &text, 0, RowKind::Setting);
            }
        },
        None => {},
    }
    assert(rviews(rows@) =~= rviews(old(rows)@) + meta_row(object@, key@));
}

/// Metadata section (ids, timestamps, versions).
pub fn metadata_section(object: &Json) -> (r: DocSection)
    ensures
        r@.title == "Metadata"@,
        r@.rows == meta_rows(object@),
{
    let mut rows: Vec<DocRow> = Vec::new();
    push_meta_row(object, "id", &mut rows);
    push_meta_row(object, "version", &mut rows);
    push_meta_row(object, "createdDateTime", &mut rows);
    push_meta_row(object, "lastModifiedDateTime", &mut rows);
    push_meta_row(object, "supportsScopeTags", &mut rows);
    push_meta_row(object, "isAssigned", &mut rows);
    push_meta_row(object, "settingCount", &mut rows);
    assert(rviews(rows@) =~= meta_rows(object@));
    let title = chars_of("Metadata");
    DocSection { title: string_from(&title), rows }
}

/// The row of one assignment: its target type (and group), and its intent.
pub open spec fn assignment_row(a: JsonV) -> RowV {
    let target = match a.get("target"@) {
        Some(t) => t,
        None => JsonV::Null,
    };
    let t = tail_after(str_or_empty(get_str(target, "@odata.type"@)), '.', '.');
    let name = match get_str(target, "groupId"@) {
        Some(g) => format_key_spec(t) + " ("@ + g + ")"@,
        None => format_key_spec(t),
    };
    setting_row(name, str_or_empty(get_str(a, "intent"@)), 0)
}

/// The row of one assignment.
fn assignment_row_exec(a: &Json) -> (r: DocRow)
    ensures
        r@ == assignment_row(a@),
{
    let null = Json::Null;
    let k_target = chars_of("target");
    let target = match a.get(&k_target) {
        Some(t) => t,
        None => &null,
    };
    let odata = member_str(target, "@odata.type");
    let t = tail_after_exec(&odata, '.', '.');
    let label = format_key_chars(&t);
    let k_group = chars_of("groupId");
    let name = match target.get_str(&k_group) {
        Some(g) => {
            let mut n: Vec<char> = Vec::new();
            extend_chars(&mut n, &label);
            extend_chars(&mut n, &chars_of(" ("));
            extend_chars(&mut n, &chars_of(g.as_str()));
            extend_chars(&mut n, &chars_of(")"));
            assert(n@ =~= label@ + " ("@ + g@ + ")"@);
            n
        },
        None => label,
    };
    let intent = member_str(a, "intent");
    DocRow { name: string_from(&name), value: string_from(&intent), level: 0, kind: RowKind::Setting }
}

/// Assignments section from a list of assignment objects; none for a
/// non-array or an empty one.
pub fn assignments_section(assignments: &Json) -> (r: Option<DocSection>)
    ensures
        match assignments@ {
            JsonV::Array(arr) => if arr.len() == 0 {
                r is None
            } else {
                r matches Some(s) && s@.title == "Assignments"@ && s@.rows == arr.map_values(|a: JsonV| assignment_row(a))
            },
            _ => r is None,
        },
{
    match assignments {
        Json::Array(arr) => {
            if arr.len() == 0 {
                return None;
            }
            let ghost av = assignments@->Array_0;
            assert(forall|x: int| 0 <= x < arr@.len() ==> av[x] == (#[trigger] arr@[x])@);
            let mut rows: Vec<DocRow> = Vec::new();
            let mut i: usize = 0;
            while i < arr.len()
                invariant
                    i <= arr@.len(),
                    av.len() == arr@.len(),
                    forall|x: int| 0 <= x < arr@.len() ==> av[x] == (#[trigger] arr@[x])@,
                    rviews(rows@) == av.subrange(0, i as int).map_values(|a: JsonV| assignment_row(a)),
                decreases arr@.len() - i,
            {
                let ghost prev = rviews(rows@);
                let r = assignment_row_exec(&arr[i]);
                rows.push(r);
                assert(rviews(rows@) =~= prev.push(r@));
                assert(av.subrange(0, i + 1).map_values(|a: JsonV| assignment_row(a)) =~= av.subrange(0, i as int).map_values(
                    |a: JsonV| assignment_row(a),
                ).push(assignment_row(av[i as int])));
                i = i + 1;
                assert(rviews(rows@) =~= av.subrange(0, i as int).map_values(|a: JsonV| assignment_row(a)));
            }
            assert(av.subrange(0, av.len() as int) =~= av);
            let title = chars_of("Assignments");
            Some(DocSection { title: string_from(&title), rows })
        },
        _ => None,
    }
}

// ---- Documented objects and renderers ---------------------------------------

/// The documentation of one object: identity, description and sections.
pub struct DocumentedObject {
    pub type_id: String,
    pub type_title: String,
    pub object_id: String,
    pub name: String,
    pub description: Option<String>,
    pub sections: Vec<DocSection>,
}

/// The mathematical value of a [`DocumentedObject`].
pub struct DocV {
    pub type_id: Seq<char>,
    pub type_title: Seq<char>,
    pub object_id: Seq<char>,
    pub name: Seq<char>,
    pub description: Option<Seq<char>>,
    pub sections: Seq<SectionV>,
}

impl View for DocumentedObject {
    type V = DocV;

    open spec fn view(&self) -> DocV {
        DocV {
            type_id: self.type_id@,
            type_title: self.type_title@,
            object_id: self.object_id@,
            name: self.name@,
            description: match self.description {
                Some(d) => Some(d@),
                None => None,
            },
            sections: self.sections@.map_values(|s: DocSection| s@),
        }
    }
}

/// A cell text for a Markdown table: `|` escaped, line breaks turned into spaces.
pub open spec fn md_escape(s: Seq<char>) -> Seq<char> {
    replace_char(replace_char(s, '|', seq!['\\', '|']), '\n', seq![' '])
}

/// Text made safe for HTML: `&`, `<` and `>` escaped.
pub open spec fn html_escape(s: Seq<char>) -> Seq<char> {
    replace_char(replace_char(replace_char(s, '&', "&amp;"@), '<', "&lt;"@), '>', "&gt;"@)
}

/// Four non-breaking spaces per level.
pub open spec fn indent(level: nat) -> Seq<char>
    decreases level,
{
    if level == 0 {
        Seq::empty()
    } else {
        indent((level - 1) as nat) + seq!['\u{a0}', '\u{a0}', '\u{a0}', '\u{a0}']
    }
}

fn md_escape_exec(s: &Vec<char>) -> (r: Vec<char>)
    ensures
        r@ == md_escape(s@),
{
    let mut bar: Vec<char> = Vec::new();
    bar.push('\\');
    bar.push('|');
    let mut space: Vec<char> = Vec::new();
    space.push(' ');
    assert(bar@ =~= seq!['\\', '|']);
    assert(space@ =~= seq![' ']);
    let a = replace_char_exec(s, '|', &bar);
    replace_char_exec(&a, '\n', &space)
}

fn html_escape_exec(s: &Vec<char>) -> (r: Vec<char>)
    ensures
        r@ == html_escape(s@),
{
    let a = replace_char_exec(s, '&', &chars_of("&amp;"));
    let b = replace_char_exec(&a, '<', &chars_of("&lt;"));
    replace_char_exec(&b, '>', &chars_of("&gt;"))
}

fn indent_prefix(level: u8) -> (r: Vec<char>)
    ensures
        r@ == indent(level as nat),
{
    let mut out: Vec<char> = Vec::new();
    let mut i: u8 = 0;
    while i < level
        invariant
            i <= level,
            out@ == indent(i as nat),
        decreases level - i,
    {
        out.push('\u{a0}');
        out.push('\u{a0}');
        out.push('\u{a0}');
        out.push('\u{a0}');
        i = i + 1;
        assert(out@ =~= indent(i as nat));
    }
    out
}

/// One Markdown table row.
pub open spec fn md_row(r: RowV) -> Seq<char> {
    let name = indent(r.level as nat) + md_escape(r.name);
    let name = if r.kind == RowKind::Group { "**"@ + name + "**"@ } else { name };
    "| "@ + name + " | "@ + md_escape(r.value) + " |\n"@
}

/// Markdown table rows.
pub open spec fn md_rows(rows: Seq<RowV>) -> Seq<char>
    decreases rows.len(),
{
    if rows.len() == 0 {
        Seq::empty()
    } else {
        md_rows(rows.drop_last()) + md_row(rows.last())
    }
}

/// A Markdown section; nothing for a section without rows.
pub open spec fn md_section(s: SectionV) -> Seq<char> {
    if s.rows.len() == 0 {
        Seq::empty()
    } else {
        "## "@ + s.title + "\n\n"@ + "| Setting | Value |\n| --- | --- |\n"@ + md_rows(s.rows) + "\n"@
    }
}

/// Markdown sections, in order.
pub open spec fn md_sections(secs: Seq<SectionV>) -> Seq<char>
    decreases secs.len(),
{
    if secs.len() == 0 {
        Seq::empty()
    } else {
        md_sections(secs.drop_last()) + md_section(secs.last())
    }
}

/// The description paragraph, when there is a non-empty description.
pub open spec fn md_description(d: Option<Seq<char>>) -> Seq<char> {
    match d {
        Some(t) => if t.len() > 0 { t + "\n\n"@ } else { Seq::empty() },
        None => Seq::empty(),
    }
}

/// The Markdown document of an object.
pub open spec fn markdown(doc: DocV) -> Seq<char> {
    "# "@ + doc.name + "\n\n"@ + md_description(doc.description) + "**Object type:** "@ + doc.type_title + "  \n"@
        + "**Id:** `"@ + doc.object_id + "`\n\n"@ + md_sections(doc.sections)
}

/// The style sheet of the HTML output.
pub const HTML_CSS: &'static str = "\n:root{color-scheme:light dark}\n*{box-sizing:border-box}\nbody{margin:0;background:#0b0f1a;color:#e5e9f2;font-family:ui-sans-serif,system-ui,-apple-system,\"Segoe UI\",Roboto,sans-serif;line-height:1.5}\nmain{max-width:960px;margin:0 auto;padding:40px 24px}\nh1{font-size:26px;margin:0 0 8px;font-weight:650}\nh2{font-size:17px;margin:32px 0 12px;padding-bottom:8px;border-bottom:1px solid #22283a;color:#a9b2c9}\n.desc{color:#a9b2c9;margin:0 0 16px}\n.meta{display:flex;gap:24px;flex-wrap:wrap;color:#8b93a9;font-size:13px;margin:0 0 8px}\ncode{background:#161c2b;padding:2px 6px;border-radius:6px;font-size:12px}\ntable{width:100%;border-collapse:collapse;font-size:13px;border:1px solid #22283a;border-radius:10px;overflow:hidden}\nth{text-align:left;background:#141a29;color:#8b93a9;font-weight:600;padding:8px 12px;font-size:11px;text-transform:uppercase;letter-spacing:.04em}\ntd{padding:8px 12px;border-top:1px solid #1b2130;vertical-align:top}\ntd:last-child{color:#c9d2e6;font-weight:500;white-space:pre-wrap}\ntr.group td{background:#101524;font-weight:650;color:#cdd5e8}\n@media(prefers-color-scheme:light){body{background:#fff;color:#0f1222}h2{color:#5b607a;border-color:#e5e7eb}.desc,.meta{color:#5b607a}code{background:#f1f2f6}table{border-color:#e5e7eb}th{background:#f7f8fb;color:#5b607a}td{border-color:#eef0f4}tr.group td{background:#f5f6fa}}\n";

/// One HTML table row, indented by 20 pixels per level.
pub open spec fn html_row(r: RowV) -> Seq<char> {
    let cls = if r.kind == RowKind::Group { " class=\"group\""@ } else { Seq::empty() };
    "<tr"@ + cls + "><td style=\"padding-left:"@ + decimal((r.level * 20 + 12) as nat) + "px\">"@ + html_escape(r.name)
        + "</td><td>"@ + html_escape(r.value) + "</td></tr>"@
}

/// HTML table rows.
pub open spec fn html_rows(rows: Seq<RowV>) -> Seq<char>
    decreases rows.len(),
{
    if rows.len() == 0 {
        Seq::empty()
    } else {
        html_rows(rows.drop_last()) + html_row(rows.last())
    }
}

/// An HTML section; nothing for a section without rows.
pub open spec fn html_section(s: SectionV) -> Seq<char> {
    if s.rows.len() == 0 {
        Seq::empty()
    } else {
        "<h2>"@ + html_escape(s.title) + "</h2>"@ + "<table><thead><tr><th>Setting</th><th>Value</th></tr></thead><tbody>"@
            + html_rows(s.rows) + "</tbody></table>"@
    }
}

/// HTML sections, in order.
pub open spec fn html_sections(secs: Seq<SectionV>) -> Seq<char>
    decreases secs.len(),
{
    if secs.len() == 0 {
        Seq::empty()
    } else {
        html_sections(secs.drop_last()) + html_section(secs.last())
    }
}

/// The description paragraph in HTML, when there is a non-empty description.
pub open spec fn html_description(d: Option<Seq<char>>) -> Seq<char> {
    match d {
        Some(t) => if t.len() > 0 { "<p class=\"desc\">"@ + html_escape(t) + "</p>"@ } else { Seq::empty() },
        None => Seq::empty(),
    }
}

/// The body of the HTML document of an object.
pub open spec fn html_body(doc: DocV) -> Seq<char> {
    "<h1>"@ + html_escape(doc.name) + "</h1>"@ + html_description(doc.description)
        + "<p class=\"meta\"><span><strong>Object type:</strong> "@ + html_escape(doc.type_title)
        + "</span><span><strong>Id:</strong> <code>"@ + html_escape(doc.object_id) + "</code></span></p>"@
        + html_sections(doc.sections)
}

/// The standalone HTML document of an object.
pub open spec fn html(doc: DocV) -> Seq<char> {
    "<!doctype html><html><head><meta charset=\"utf-8\"><title>"@ + html_escape(doc.name) + "</title><style>"@
        + HTML_CSS@ + "</style></head><body><main>"@ + html_body(doc) + "</main></body></html>"@
}

#[verifier::spinoff_prover]
fn md_rows_exec(rows: &Vec<DocRow>, out: &mut Vec<char>)
    ensures
        final(out)@ == old(out)@ + md_rows(rviews(rows@)),
{
    let ghost rv = rviews(rows@);
    let mut i: usize = 0;
    assert(old(out)@ + md_rows(rv.subrange(0, 0)) =~= old(out)@);
    while i < rows.len()
        invariant
            i <= rows@.len(),
            rv == rviews(rows@),
            out@ == old(out)@ + md_rows(rv.subrange(0, i as int)),
        decreases rows@.len() - i,
    {
        assert(rv.subrange(0, i + 1).drop_last() =~= rv.subrange(0, i as int));
        assert(rv[i as int] == rows@[i as int]@);
        let row = &rows[i];
        let name_chars = chars_of(row.name.as_str());
        let mut name = indent_prefix(row.level);
        extend_chars(&mut name, &md_escape_exec(&name_chars));
        let name = if row.kind == RowKind::Group {
            let mut g = chars_of("**");
            extend_chars(&mut g, &name);
            extend_chars(&mut g, &chars_of("**"));
            g
        } else {
            name
        };
        let value = md_escape_exec(&chars_of(row.value.as_str()));
        extend_chars(out, &chars_of("| "));
        extend_chars(out, &name);
        extend_chars(out, &chars_of(" | "));
        extend_chars(out, &value);
        extend_chars(out, &chars_of(" |\n"));
        i = i + 1;
        assert(out@ =~= old(out)@ + md_rows(rv.subrange(0, i as int)));
    }
    assert(rv.subrange(0, rv.len() as int) =~= rv);
}

#[verifier::rlimit(40)]
#[verifier::spinoff_prover]
fn html_rows_exec(rows: &Vec<DocRow>, out: &mut Vec<char>)
    ensures
        final(out)@ == old(out)@ + html_rows(rviews(rows@)),
{
    let ghost rv = rviews(rows@);
    let mut i: usize = 0;
    assert(old(out)@ + html_rows(rv.subrange(0, 0)) =~= old(out)@);
    while i < rows.len()
        invariant
            i <= rows@.len(),
            rv == rviews(rows@),
            out@ == old(out)@ + html_rows(rv.subrange(0, i as int)),
        decreases rows@.len() - i,
    {
        assert(rv.subrange(0, i + 1).drop_last() =~= rv.subrange(0, i as int));
        assert(rv[i as int] == rows@[i as int]@);
        let row = &rows[i];
        let pad: u64 = row.level as u64 * 20 + 12;
        extend_chars(out, &chars_of("<tr"));
        if row.kind == RowKind::Group {
            extend_chars(out, &chars_of(" class=\"group\""));
        }
        extend_chars(out, &chars_of("><td style=\"padding-left:"));
        extend_chars(out, &decimal_chars(pad));
        extend_chars(out, &chars_of("px\">"));
        extend_chars(out, &html_escape_exec(&chars_of(row.name.as_str())));
        extend_chars(out, &chars_of("</td><td>"));
        extend_chars(out, &html_escape_exec(&chars_of(row.value.as_str())));
        extend_chars(out, &chars_of("</td></tr>"));
        i = i + 1;
        assert(out@ =~= old(out)@ + html_rows(rv.subrange(0, i as int)));
    }
    assert(rv.subrange(0, rv.len() as int) =~= rv);
}

impl DocumentedObject {
    /// The object as a Markdown document: a title, the description, the type
    /// and id, then one table per section that has rows.
    pub fn to_markdown(&self) -> (r: String)
        ensures
            r@ == markdown(self@),
    {
        let ghost sv = self.sections@.map_values(|s: DocSection| s@);
        let mut s: Vec<char> = chars_of("# ");
        extend_chars(&mut s, &chars_of(self.name.as_str()));
        extend_chars(&mut s, &chars_of("\n\n"));
        match &self.description {
            Some(d) => {
                let dc = chars_of(d.as_str());
                if dc.len() > 0 {
                    extend_chars(&mut s, &dc);
                    extend_chars(&mut s, &chars_of("\n\n"));
                }
            },
            None => {},
        }
        extend_chars(&mut s, &chars_of("**Object type:** "));
        extend_chars(&mut s, &chars_of(self.type_title.as_str()));
        extend_chars(&mut s, &chars_of("  \n"));
        extend_chars(&mut s, &chars_of("**Id:** `"));
        extend_chars(&mut s, &chars_of(self.object_id.as_str()));
        extend_chars(&mut s, &chars_of("`\n\n"));
        let ghost head = s@;
        let mut i: usize = 0;
        assert(head + md_sections(sv.subrange(0, 0)) =~= head);
        while i < self.sections.len()
            invariant
                i <= self.sections@.len(),
                sv == self.sections@.map_values(|s: DocSection| s@),
                s@ == head + md_sections(sv.subrange(0, i as int)),
            decreases self.sections@.len() - i,
        {
            assert(sv.subrange(0, i + 1).drop_last() =~= sv.subrange(0, i as int));
            let section = &self.sections[i];
            assert(sv[i as int] == section@);
            if section.rows.len() > 0 {
                extend_chars(&mut s, &chars_of("## "));
                extend_chars(&mut s, &chars_of(section.title.as_str()));
                extend_chars(&mut s, &chars_of("\n\n"));
                extend_chars(&mut s, &chars_of("| Setting | Value |\n| --- | --- |\n"));
                md_rows_exec(&section.rows, &mut s);
                extend_chars(&mut s, &chars_of("\n"));
            }
            i = i + 1;
            assert(s@ =~= head + md_sections(sv.subrange(0, i as int)));
        }
        assert(sv.subrange(0, sv.len() as int) =~= sv);
        assert(s@ =~= markdown(self@));
        string_from(&s)
    }

    /// The object as a standalone HTML page with the same content as the
    /// Markdown document.
    pub fn to_html(&self) -> (r: String)
        ensures
            r@ == html(self@),
    {
        let ghost sv = self.sections@.map_values(|s: DocSection| s@);
        let mut body: Vec<char> = chars_of("<h1>");
        extend_chars(&mut body, &html_escape_exec(&chars_of(self.name.as_str())));
        extend_chars(&mut body, &chars_of("</h1>"));
        match &self.description {
            Some(d) => {
                let dc = chars_of(d.as_str());
                if dc.len() > 0 {
                    extend_chars(&mut body, &chars_of("<p class=\"desc\">"));
                    extend_chars(&mut body, &html_escape_exec(&dc));
                    extend_chars(&mut body, &chars_of("</p>"));
                }
            },
            None => {},
        }
        extend_chars(&mut body, &chars_of("<p class=\"meta\"><span><strong>Object type:</strong> "));
        extend_chars(&mut body, &html_escape_exec(&chars_of(self.type_title.as_str())));
        extend_chars(&mut body, &chars_of("</span><span><strong>Id:</strong> <code>"));
        extend_chars(&mut body, &html_escape_exec(&chars_of(self.object_id.as_str())));
        extend_chars(&mut body, &chars_of("</code></span></p>"));
        let ghost head = body@;
        let mut i: usize = 0;
        assert(head + html_sections(sv.subrange(0, 0)) =~= head);
        while i < self.sections.len()
            invariant
                i <= self.sections@.len(),
                sv == self.sections@.map_values(|s: DocSection| s@),
                body@ == head + html_sections(sv.subrange(0, i as int)),
            decreases self.sections@.len() - i,
        {
            assert(sv.subrange(0, i + 1).drop_last() =~= sv.subrange(0, i as int));
            let section = &self.sections[i];
            assert(sv[i as int] == section@);
            if section.rows.len() > 0 {
                extend_chars(&mut body, &chars_of("<h2>"));
                extend_chars(&mut body, &html_escape_exec(&chars_of(section.title.as_str())));
                extend_chars(&mut body, &chars_of("</h2>"));
                extend_chars(&mut body, &chars_of("<table><thead><tr><th>Setting</th><th>Value</th></tr></thead><tbody>"));
                html_rows_exec(&section.rows, &mut body);
                extend_chars(&mut body, &chars_of("</tbody></table>"));
            }
            i = i + 1;
            assert(body@ =~= head + html_sections(sv.subrange(0, i as int)));
        }
        assert(sv.subrange(0, sv.len() as int) =~= sv);
        assert(body@ =~= html_body(self@));
        let mut page: Vec<char> = chars_of("<!doctype html><html><head><meta charset=\"utf-8\"><title>");
        extend_chars(&mut page, &html_escape_exec(&chars_of(self.name.as_str())));
        extend_chars(&mut page, &chars_of("</title><style>"));
        extend_chars(&mut page, &chars_of(HTML_CSS));
        extend_chars(&mut page, &chars_of("</style></head><body><main>"));
        extend_chars(&mut page, &body);
        extend_chars(&mut page, &chars_of("</main></body></html>"));
        assert(page@ =~= html(self@));
        string_from(&page)
    }
}


// ---- Structured JSON -----------------------------------------------------------

/// The JSON form of a row: its members in key order.
pub open spec fn row_json(r: RowV) -> JsonV {
    JsonV::Object(
        seq!["kind"@, "level"@, "name"@, "value"@],
        seq![
            JsonV::Str(if r.kind == RowKind::Group { "group"@ } else { "setting"@ }),
            JsonV::Number(decimal(r.level as nat)),
            JsonV::Str(r.name),
            JsonV::Str(r.value),
        ],
    )
}

/// The JSON form of a section.
pub open spec fn section_json(s: SectionV) -> JsonV {
    JsonV::Object(
        seq!["rows"@, "title"@],
        seq![JsonV::Array(s.rows.map_values(|r: RowV| row_json(r))), JsonV::Str(s.title)],
    )
}

/// The JSON form of a documented object.
pub open spec fn doc_json(d: DocV) -> JsonV {
    JsonV::Object(
        seq!["description"@, "name"@, "objectId"@, "sections"@, "typeId"@, "typeTitle"@],
        seq![
            match d.description {
                Some(t) => JsonV::Str(t),
                None => JsonV::Null,
            },
            JsonV::Str(d.name),
            JsonV::Str(d.object_id),
            JsonV::Array(d.sections.map_values(|s: SectionV| section_json(s))),
            JsonV::Str(d.type_id),
            JsonV::Str(d.type_title),
        ],
    )
}

/// The JSON form of a documented object nests five levels deep at most.
pub proof fn lemma_doc_json_depth(d: DocV)
    ensures
        doc_json(d).depth() <= 5,
{
    assert forall|r: RowV| #[trigger] row_json(r).depth() <= 1 by {
        let vs = row_json(r)->Object_1;
        assert forall|i: int| 0 <= i < vs.len() implies (#[trigger] vs[i]).depth() <= 0 by {}
        lemma_depth_max_bound(vs, 0);
    }
    assert forall|s: SectionV| #[trigger] section_json(s).depth() <= 3 by {
        let rows = s.rows.map_values(|r: RowV| row_json(r));
        assert forall|i: int| 0 <= i < rows.len() implies (#[trigger] rows[i]).depth() <= 1 by {
            assert(rows[i] == row_json(s.rows[i]));
        }
        lemma_depth_max_bound(rows, 1);
        let vs = section_json(s)->Object_1;
        assert forall|i: int| 0 <= i < vs.len() implies (#[trigger] vs[i]).depth() <= 2 by {}
        lemma_depth_max_bound(vs, 2);
    }
    let secs = d.sections.map_values(|s: SectionV| section_json(s));
    assert forall|i: int| 0 <= i < secs.len() implies (#[trigger] secs[i]).depth() <= 3 by {
        assert(secs[i] == section_json(d.sections[i]));
    }
    lemma_depth_max_bound(secs, 3);
    let vs = doc_json(d)->Object_1;
    assert forall|i: int| 0 <= i < vs.len() implies (#[trigger] vs[i]).depth() <= 4 by {}
    lemma_depth_max_bound(vs, 4);
}

/// Keys each before the next are in ascending order.
proof fn lemma_sorted_from_adjacent(ks: Seq<Seq<char>>)
    requires
        forall|i: int| 0 <= i < ks.len() - 1 ==> seq_lt(#[trigger] ks[i], ks[i + 1]),
    ensures
        crate::json::keys_sorted(ks),
    decreases ks.len(),
{
    if ks.len() > 1 {
        let init = ks.drop_last();
        assert forall|i: int| 0 <= i < init.len() - 1 implies seq_lt(#[trigger] init[i], init[i + 1]) by {
            assert(init[i] == ks[i] && init[i + 1] == ks[i + 1]);
        }
        lemma_sorted_from_adjacent(init);
        assert forall|a: int, b: int| 0 <= a < b < ks.len() implies seq_lt(#[trigger] ks[a], #[trigger] ks[b]) by {
            if b < ks.len() - 1 {
                assert(init[a] == ks[a] && init[b] == ks[b]);
            } else if a < ks.len() - 2 {
                assert(init[a] == ks[a] && init[ks.len() - 2] == ks[ks.len() - 2]);
                crate::json::lemma_seq_lt_transitive(ks[a], ks[ks.len() - 2], ks[b]);
            }
        }
    }
}

/// The JSON form of a documented object is a well-formed JSON value: the
/// members of the object, of each section and of each row come in key order.
pub proof fn law_doc_json_well_formed(d: DocV)
    ensures
        doc_json(d).wf(),
{
    reveal_strlit("kind");
    reveal_strlit("level");
    reveal_strlit("name");
    reveal_strlit("value");
    reveal_strlit("rows");
    reveal_strlit("title");
    reveal_strlit("description");
    reveal_strlit("objectId");
    reveal_strlit("sections");
    reveal_strlit("typeId");
    reveal_strlit("typeTitle");
    reveal_with_fuel(seq_lt, 6);
    let rk = seq!["kind"@, "level"@, "name"@, "value"@];
    assert(seq_lt("kind"@, "level"@) && seq_lt("level"@, "name"@) && seq_lt("name"@, "value"@));
    lemma_sorted_from_adjacent(rk);
    let sk = seq!["rows"@, "title"@];
    assert(seq_lt("rows"@, "title"@));
    lemma_sorted_from_adjacent(sk);
    let dk = seq!["description"@, "name"@, "objectId"@, "sections"@, "typeId"@, "typeTitle"@];
    assert(seq_lt("description"@, "name"@) && seq_lt("name"@, "objectId"@) && seq_lt("objectId"@, "sections"@));
    assert(seq_lt("sections"@, "typeId"@));
    assert(seq_lt("typeId"@, "typeTitle"@));
    lemma_sorted_from_adjacent(dk);
    assert forall|r: RowV| #[trigger] row_json(r).wf() by {
        let vs = row_json(r)->Object_1;
        assert forall|i: int| 0 <= i < vs.len() implies (#[trigger] vs[i]).wf() by {}
    }
    assert forall|sec: SectionV| #[trigger] section_json(sec).wf() by {
        let rows = sec.rows.map_values(|r: RowV| row_json(r));
        assert forall|i: int| 0 <= i < rows.len() implies (#[trigger] rows[i]).wf() by {
            assert(rows[i] == row_json(sec.rows[i]));
        }
        let vs = section_json(sec)->Object_1;
        assert forall|i: int| 0 <= i < vs.len() implies (#[trigger] vs[i]).wf() by {}
    }
    let secs = d.sections.map_values(|sec: SectionV| section_json(sec));
    assert forall|i: int| 0 <= i < secs.len() implies (#[trigger] secs[i]).wf() by {
        assert(secs[i] == section_json(d.sections[i]));
    }
    let vs = doc_json(d)->Object_1;
    assert forall|i: int| 0 <= i < vs.len() implies (#[trigger] vs[i]).wf() by {}
}

fn member(key: &str, value: Json) -> (r: (String, Json))
    ensures
        r.0@ == key@,
        r.1 == value,
{
    (key.to_owned(), value)
}

fn row_to_json(row: &DocRow) -> (r: Json)
    ensures
        r@ == row_json(row@),
{
    let kind = if row.kind == RowKind::Group { "group".to_owned() } else { "setting".to_owned() };
    let level = string_from(&decimal_chars(row.level as u64));
    let e0 = Json::Str(kind);
    let e1 = Json::Number(level);
    let e2 = Json::Str(row.name.clone());
    let e3 = Json::Str(row.value.clone());
    let ghost want = row_json(row@)->Object_1;
    assert(e0@ == want[0] && e1@ == want[1] && e2@ == want[2] && e3@ == want[3]);
    let mut m: Vec<(String, Json)> = Vec::new();
    m.push(member("kind", e0));
    m.push(member("level", e1));
    m.push(member("name", e2));
    m.push(member("value", e3));
    let r = Json::Object(m);
    assert(r@ =~= row_json(row@)) by {
        if let JsonV::Object(ks, vs) = r@ {
            assert(ks =~= seq!["kind"@, "level"@, "name"@, "value"@]);
            assert(vs =~= want);
        }
    }
    r
}

fn section_to_json(section: &DocSection) -> (r: Json)
    ensures
        r@ == section_json(section@),
{
    let mut rows: Vec<Json> = Vec::new();
    let ghost rv = rviews(section.rows@);
    let mut i: usize = 0;
    while i < section.rows.len()
        invariant
            i <= section.rows@.len(),
            rv == rviews(section.rows@),
            rows@.len() == i,
            forall|j: int| 0 <= j < i ==> (#[trigger] rows@[j])@ == row_json(rv[j]),
        decreases section.rows@.len() - i,
    {
        let j = row_to_json(&section.rows[i]);
        rows.push(j);
        i = i + 1;
    }
    let e0 = Json::Array(rows);
    let e1 = Json::Str(section.title.clone());
    let ghost want = section_json(section@)->Object_1;
    assert(e0@ == want[0]) by {
        if let JsonV::Array(items) = e0@ {
            assert(items =~= rv.map_values(|r: RowV| row_json(r)));
        }
    }
    assert(e1@ == want[1]);
    let mut m: Vec<(String, Json)> = Vec::new();
    m.push(member("rows", e0));
    m.push(member("title", e1));
    let r = Json::Object(m);
    assert(r@ =~= section_json(section@)) by {
        if let JsonV::Object(ks, vs) = r@ {
            assert(ks =~= seq!["rows"@, "title"@]);
            assert(vs =~= want);
        }
    }
    r
}

impl DocumentedObject {
    /// The object as structured JSON, members in key order.
    pub fn to_json(&self) -> (r: Json)
        ensures
            r@ == doc_json(self@),
    {
        let ghost sv = self.sections@.map_values(|s: DocSection| s@);
        let mut sections: Vec<Json> = Vec::new();
        let mut i: usize = 0;
        while i < self.sections.len()
            invariant
                i <= self.sections@.len(),
                sv == self.sections@.map_values(|s: DocSection| s@),
                sections@.len() == i,
                forall|j: int| 0 <= j < i ==> (#[trigger] sections@[j])@ == section_json(sv[j]),
            decreases self.sections@.len() - i,
        {
            let j = section_to_json(&self.sections[i]);
            sections.push(j);
            i = i + 1;
        }
        let e0 = match &self.description {
            Some(d) => Json::Str(d.clone()),
            None => Json::Null,
        };
        let e1 = Json::Str(self.name.clone());
        let e2 = Json::Str(self.object_id.clone());
        let e3 = Json::Array(sections);
        let e4 = Json::Str(self.type_id.clone());
        let e5 = Json::Str(self.type_title.clone());
        let ghost want = doc_json(self@)->Object_1;
        assert(e3@ == want[3]) by {
            if let JsonV::Array(items) = e3@ {
                assert(items =~= sv.map_values(|s: SectionV| section_json(s)));
            }
        }
        assert(e0@ == want[0] && e1@ == want[1] && e2@ == want[2] && e4@ == want[4] && e5@ == want[5]);
        let mut m: Vec<(String, Json)> = Vec::new();
        m.push(member("description", e0));
        m.push(member("name", e1));
        m.push(member("objectId", e2));
        m.push(member("sections", e3));
        m.push(member("typeId", e4));
        m.push(member("typeTitle", e5));
        let r = Json::Object(m);
        assert(r@ =~= doc_json(self@)) by {
            if let JsonV::Object(ks, vs) = r@ {
                assert(ks =~= seq!["description"@, "name"@, "objectId"@, "sections"@, "typeId"@, "typeTitle"@]);
                assert(vs =~= want);
            }
        }
        r
    }
}


// ---- Object kinds --------------------------------------------------------------

/// Whether a type id names an object type whose settings live in the Graph
/// settings-catalog schema.
pub open spec fn settings_catalog_type(type_id: Seq<char>) -> bool {
    type_id == "SettingsCatalog"@ || type_id == "CompliancePoliciesV2"@
}

/// Object types whose settings live in the Graph settings-catalog schema.
pub fn is_settings_catalog(type_id: &str) -> (r: bool)
    ensures
        r == settings_catalog_type(type_id@),
{
    let t = chars_of(type_id);
    chars_eq(&t, &chars_of("SettingsCatalog")) || chars_eq(&t, &chars_of("CompliancePoliciesV2"))
}

/// The settings path of a settings-catalog object.
pub open spec fn settings_path(api: Seq<char>, id: Seq<char>) -> Seq<char> {
    api + "('"@ + id + "')/settings?$expand=settingDefinitions"@
}

/// The settings endpoint path for a settings-catalog object.
pub fn settings_endpoint(t: &ObjectType, id: &str) -> (r: String)
    ensures
        r@ == settings_path(t@.api, id@),
{
    let mut s = chars_of(t.api.as_str());
    extend_chars(&mut s, &chars_of("('"));
    extend_chars(&mut s, &chars_of(id));
    extend_chars(&mut s, &chars_of("')/settings?$expand=settingDefinitions"));
    string_from(&s)
}

} // verus!
