//! The feature logic of the app between its Graph exchanges: naming objects,
//! preparing payloads for a create, choosing file names, listing, copying,
//! and planning and matching bulk imports and compares.
use vstd::prelude::*;
use crate::json::{
    Json, JsonV, get_array, get_str, lemma_first_position, lemma_insert, lemma_key_absent, lemma_lookup, lemma_object_view, lookup, member_keys, member_values,
};
use crate::catalog::{ObjectType, ObjectTypeV, find, find_first, has_id, import_priority, law_priority_table, lemma_scope_tags_first, opt_str, priority_of, tviews};
use crate::compare::{CompareResult, DifferenceV, added_member, diff, diff_members, is_ignored, key_path, last_segment, law_diff_self};
use crate::error::{CoreError, ErrorBody, message_of};
use crate::documentation::{
    DocSection, DocumentedObject, DocV, SectionV, admx_rows, admx_section, assignment_row, assignments_section, catalog_rows, defs_of,
    doc_json, endpoint_security_section, generic_rows, generic_section, html, intent_rows, is_settings_catalog, lemma_doc_json_depth,
    markdown, meta_rows, metadata_section, settings_catalog_section, settings_catalog_type, sort_rows, str_or_empty,
};
use crate::graph::{url, url_spec};
use crate::json::views;
use crate::labels::{trim_start_str, trim_start_str_exec};
use crate::order::{
    insert_by, law_sort_permutes, law_sort_sorted, lemma_num_str_lt_order, lemma_str_lt_order, num_str_lt, sort_by, sorted_by, str_lt,
};
use crate::text::{
    chars_eq, chars_of, contains_exec, contains_sub, eq_ignore_ascii_case, eq_ignore_ascii_case_exec, extend_chars, lowercase_chars, replace_sub, replace_sub_exec, seq_lt_exec,
    string_from, trim, trim_end_char,
    trim_end_char_exec, trim_exec, unicode_to_lowercase, all_ascii, ascii_lower, occurs_at,
};

verus! {

// ---- Names ---------------------------------------------------------------------------

/// The properties that may hold an object's name, in the order they are tried.
pub open spec fn name_keys(name_property: Seq<char>) -> Seq<Seq<char>> {
    seq![name_property, "displayName"@, "name"@, "fileName"@, "id"@]
}

/// The first of `keys` that holds a non-empty string in `obj`, else `(unnamed)`.
pub open spec fn first_name(obj: JsonV, keys: Seq<Seq<char>>) -> Seq<char>
    decreases keys.len(),
{
    if keys.len() == 0 {
        "(unnamed)"@
    } else {
        match get_str(obj, keys[0]) {
            Some(s) => if s.len() > 0 {
                s
            } else {
                first_name(obj, keys.drop_first())
            },
            None => first_name(obj, keys.drop_first()),
        }
    }
}

/// The display name of an object: its name property, else `displayName`,
/// `name`, `fileName` or `id`, whichever first holds a non-empty string.
pub open spec fn display_name_spec(obj: JsonV, name_property: Seq<char>) -> Seq<char> {
    first_name(obj, name_keys(name_property))
}

/// The display name of an object (see `display_name_spec`).
pub fn display_name(obj: &Json, name_property: &str) -> (r: String)
    ensures
        r@ == display_name_spec(obj@, name_property@),
{
    let mut keys: Vec<Vec<char>> = Vec::new();
    keys.push(chars_of(name_property));
    keys.push(chars_of("displayName"));
    keys.push(chars_of("name"));
    keys.push(chars_of("fileName"));
    keys.push(chars_of("id"));
    let ghost ks = keys@.map_values(|k: Vec<char>| k@);
    assert(ks =~= name_keys(name_property@));
    let mut i: usize = 0;
    assert(ks.subrange(0, ks.len() as int) =~= ks);
    while i < keys.len()
        invariant
            i <= keys@.len(),
            ks == keys@.map_values(|k: Vec<char>| k@),
            ks == name_keys(name_property@),
            display_name_spec(obj@, name_property@) == first_name(obj@, ks.subrange(i as int, ks.len() as int)),
        decreases keys@.len() - i,
    {
        let ghost rest = ks.subrange(i as int, ks.len() as int);
        assert(rest[0] == keys@[i as int]@);
        assert(rest.drop_first() =~= ks.subrange(i + 1, ks.len() as int));
        match obj.get_str(&keys[i]) {
            Some(s) => {
                if chars_of(s.as_str()).len() > 0 {
                    return s.clone();
                }
            },
            None => {},
        }
        i = i + 1;
    }
    "(unnamed)".to_owned()
}

/// A Graph `@odata.type` without its `#microsoft.graph.` namespace.
pub open spec fn short_type_spec(t: Seq<char>) -> Seq<char> {
    trim_start_str(t, "#microsoft.graph."@)
}

/// A Graph `@odata.type` without its `#microsoft.graph.` namespace.
pub fn short_type(t: &str) -> (r: String)
    ensures
        r@ == short_type_spec(t@),
{
    string_from(&trim_start_str_exec(&chars_of(t), &chars_of("#microsoft.graph.")))
}

/// The characters a file name cannot hold on some platform.
pub open spec fn unsafe_file_char(c: char) -> bool {
    c == '\\' || c == '/' || c == ':' || c == '*' || c == '?' || c == '"' || c == '<' || c == '>' || c == '|'
}

/// `s` with every character a file name cannot hold replaced by `_`.
pub open spec fn replace_unsafe(s: Seq<char>) -> Seq<char> {
    s.map_values(|c: char| if unsafe_file_char(c) { '_' } else { c })
}

/// A file name for an object name: unsafe characters become `_`, surrounding
/// white space and trailing dots are dropped, and an empty result is `unnamed`.
pub open spec fn sanitize_spec(name: Seq<char>) -> Seq<char> {
    let t = trim_end_char(trim(replace_unsafe(name)), '.');
    if t.len() == 0 {
        "unnamed"@
    } else {
        t
    }
}

/// A file name for an object name (see `sanitize_spec`).
pub fn sanitize(name: &str) -> (r: String)
    ensures
        r@ == sanitize_spec(name@),
{
    let s = chars_of(name);
    let mut cleaned: Vec<char> = Vec::new();
    let mut i: usize = 0;
    while i < s.len()
        invariant
            i <= s@.len(),
            cleaned@ == replace_unsafe(s@.subrange(0, i as int)),
        decreases s@.len() - i,
    {
        let c = s[i];
        let d = if c == '\\' || c == '/' || c == ':' || c == '*' || c == '?' || c == '"' || c == '<' || c == '>' || c == '|' {
            '_'
        } else {
            c
        };
        cleaned.push(d);
        i = i + 1;
        assert(cleaned@ =~= replace_unsafe(s@.subrange(0, i as int)));
    }
    assert(s@.subrange(0, s@.len() as int) =~= s@);
    let t = trim_end_char_exec(&trim_exec(&cleaned), '.');
    if t.len() == 0 {
        "unnamed".to_owned()
    } else {
        string_from(&t)
    }
}

/// The file an object's export goes to: its sanitized name and an extension.
pub open spec fn file_name_spec(name: Seq<char>, extension: Seq<char>) -> Seq<char> {
    sanitize_spec(name) + "."@ + extension
}

/// The file an object's export goes to: its sanitized name and an extension.
pub fn file_name(name: &str, extension: &str) -> (r: String)
    ensures
        r@ == file_name_spec(name@, extension@),
{
    let mut s = chars_of(sanitize(name).as_str());
    extend_chars(&mut s, &chars_of("."));
    extend_chars(&mut s, &chars_of(extension));
    string_from(&s)
}

// ---- Renaming a payload ------------------------------------------------------------

/// The payload with its name set to `new_name` on every one of the name
/// property, `displayName` and `name` that it has, or on the name property
/// when it has none of them. Anything but an object is left as it is.
pub open spec fn set_name_spec(p: JsonV, name_property: Seq<char>, new_name: Seq<char>) -> JsonV {
    if p is Object {
        let v = JsonV::Str(new_name);
        let p1 = if p.has_key(name_property) { p.insert(name_property, v) } else { p };
        let p2 = if p1.has_key("displayName"@) { p1.insert("displayName"@, v) } else { p1 };
        let p3 = if p2.has_key("name"@) { p2.insert("name"@, v) } else { p2 };
        if p.has_key(name_property) || p.has_key("displayName"@) || p.has_key("name"@) {
            p3
        } else {
            p3.insert(name_property, v)
        }
    } else {
        p
    }
}

fn set_if_present(p: Json, key: &str, new_name: &str) -> (r: Json)
    ensures
        r@ == if p@.has_key(key@) { p@.insert(key@, JsonV::Str(new_name@)) } else { p@ },
{
    if p.contains_key(&chars_of(key)) {
        p.with_member(key.to_owned(), Json::Str(new_name.to_owned()))
    } else {
        p
    }
}

/// Set the display name of a payload on the type's name property, with common
/// fallbacks so the rename lands regardless of the object's schema.
pub fn set_name(payload: &mut Json, name_property: &str, new_name: &str)
    ensures
        final(payload)@ == set_name_spec(old(payload)@, name_property@, new_name@),
{
    if !payload.is_object() {
        return;
    }
    let mut p = Json::Null;
    core::mem::swap(&mut p, payload);
    let ghost p0 = p@;
    let had = p.contains_key(&chars_of(name_property)) || p.contains_key(&chars_of("displayName")) || p.contains_key(
        &chars_of("name"),
    );
    let p1 = set_if_present(p, name_property, new_name);
    let p2 = set_if_present(p1, "displayName", new_name);
    let p3 = set_if_present(p2, "name", new_name);
    let r = if had {
        p3
    } else {
        p3.with_member(name_property.to_owned(), Json::Str(new_name.to_owned()))
    };
    assert(r@ == set_name_spec(p0, name_property@, new_name@));
    *payload = r;
}

/// A renamed object is known by its new name: whichever of its name
/// properties the object had, the display name of the renamed payload is the
/// new name.
pub proof fn law_renamed_payload_has_new_name(p: JsonV, name_property: Seq<char>, new_name: Seq<char>)
    requires
        p.wf(),
        p is Object,
        new_name.len() > 0,
    ensures
        display_name_spec(set_name_spec(p, name_property, new_name), name_property) == new_name,
        set_name_spec(p, name_property, new_name).wf(),
{
    let v = JsonV::Str(new_name);
    let dn = "displayName"@;
    let nm = "name"@;
    let p1 = if p.has_key(name_property) { p.insert(name_property, v) } else { p };
    if p.has_key(name_property) {
        lemma_insert(p, name_property, v);
    }
    assert(p1.wf() && p1 is Object);
    let p2 = if p1.has_key(dn) { p1.insert(dn, v) } else { p1 };
    if p1.has_key(dn) {
        lemma_insert(p1, dn, v);
    }
    assert(p2.wf() && p2 is Object);
    let p3 = if p2.has_key(nm) { p2.insert(nm, v) } else { p2 };
    if p2.has_key(nm) {
        lemma_insert(p2, nm, v);
    }
    assert(p3.wf() && p3 is Object);
    let r = set_name_spec(p, name_property, new_name);
    let had = p.has_key(name_property) || p.has_key(dn) || p.has_key(nm);
    if !had {
        lemma_insert(p3, name_property, v);
    }
    assert(r.wf());
    let keys = name_keys(name_property);
    reveal_with_fuel(first_name, 3);
    assert(keys[0] == name_property && keys[1] == dn && keys[2] == nm);
    assert(keys.drop_first()[0] == dn);
    assert(keys.drop_first().drop_first()[0] == nm);
    if p.has_key(name_property) {
        assert(p1.get(name_property) == Some(v));
        assert(p2.get(name_property) == Some(v));
        assert(p3.get(name_property) == Some(v));
        assert(get_str(r, name_property) == Some(new_name));
    } else if p.has_key(dn) {
        assert(name_property != dn);
        assert(!p3.has_key(name_property));
        assert(get_str(r, name_property) is None);
        assert(p2.get(dn) == Some(v));
        assert(p3.get(dn) == Some(v));
        assert(get_str(r, dn) == Some(new_name));
    } else if p.has_key(nm) {
        assert(name_property != nm);
        assert(!p3.has_key(name_property));
        assert(!p3.has_key(dn));
        assert(get_str(r, name_property) is None);
        assert(get_str(r, dn) is None);
        assert(get_str(r, nm) == Some(new_name));
    } else {
        assert(r.get(name_property) == Some(v));
        assert(get_str(r, name_property) == Some(new_name));
    }
}

// ---- Preparing a payload for a create ---------------------------------------------------

/// Read-only / server-generated properties removed before a create (import).
pub open spec fn readonly_key(k: Seq<char>) -> bool {
    ||| k == "id"@
    ||| k == "createdDateTime"@
    ||| k == "lastModifiedDateTime"@
    ||| k == "version"@
    ||| k == "supportsScopeTags"@
    ||| k == "isAssigned"@
    ||| k == "@odata.context"@
    ||| k == "@odata.count"@
    ||| k == "@odata.nextLink"@
    ||| k == "assignments"@
    ||| k == "deviceStatusOverview"@
    ||| k == "userStatusOverview"@
    ||| k == "deviceStatuses"@
    ||| k == "userStatuses"@
}

/// The members a create does not take: the read-only ones, and Graph
/// annotations (keys holding `@odata.`) other than `@odata.type`.
pub open spec fn import_dropped(k: Seq<char>) -> bool {
    readonly_key(k) || (contains_sub(k, "@odata."@) && k != "@odata.type"@)
}

/// The members, position by position, that a create takes.
pub open spec fn kept_members(ks: Seq<Seq<char>>, vs: Seq<JsonV>) -> (Seq<Seq<char>>, Seq<JsonV>)
    decreases ks.len(),
{
    if ks.len() == 0 {
        (Seq::empty(), Seq::empty())
    } else {
        let m = kept_members(ks.drop_last(), vs.drop_last());
        if import_dropped(ks.last()) {
            m
        } else {
            (m.0.push(ks.last()), m.1.push(vs.last()))
        }
    }
}

/// A payload ready for a create: an object loses the members a create does
/// not take; anything else is left as it is.
pub open spec fn clean_spec(v: JsonV) -> JsonV {
    match v {
        JsonV::Object(ks, vs) => {
            let m = kept_members(ks, vs);
            JsonV::Object(m.0, m.1)
        },
        _ => v,
    }
}

fn is_lit(k: &Vec<char>, lit: &str) -> (r: bool)
    ensures
        r == (k@ == lit@),
{
    chars_eq(k, &chars_of(lit))
}

/// Whether a create does not take the member `k`.
pub fn import_drops(k: &Vec<char>) -> (r: bool)
    ensures
        r == import_dropped(k@),
{
    let readonly = is_lit(k, "id") || is_lit(k, "createdDateTime") || is_lit(k, "lastModifiedDateTime") || is_lit(k, "version")
        || is_lit(k, "supportsScopeTags") || is_lit(k, "isAssigned") || is_lit(k, "@odata.context") || is_lit(k, "@odata.count")
        || is_lit(k, "@odata.nextLink") || is_lit(k, "assignments") || is_lit(k, "deviceStatusOverview") || is_lit(
        k,
        "userStatusOverview",
    ) || is_lit(k, "deviceStatuses") || is_lit(k, "userStatuses");
    readonly || (contains_exec(k, &chars_of("@odata.")) && !is_lit(k, "@odata.type"))
}

/// Strip read-only fields and Graph annotations from an object before a create.
pub fn clean_for_import(v: Json) -> (r: Json)
    ensures
        r@ == clean_spec(v@),
{
    match v {
        Json::Object(entries) => {
            proof {
                lemma_object_view(entries);
            }
            let ghost ks = member_keys(entries@);
            let ghost vs = member_values(entries@);
            let mut out: Vec<(String, Json)> = Vec::new();
            let mut i: usize = 0;
            assert(ks.subrange(0, 0) =~= Seq::<Seq<char>>::empty());
            while i < entries.len()
                invariant
                    i <= entries@.len(),
                    ks == member_keys(entries@),
                    vs == member_values(entries@),
                    (member_keys(out@), member_values(out@)) == kept_members(ks.subrange(0, i as int), vs.subrange(0, i as int)),
                decreases entries@.len() - i,
            {
                let k = chars_of(entries[i].0.as_str());
                let ghost ksub = ks.subrange(0, i + 1);
                let ghost vsub = vs.subrange(0, i + 1);
                assert(ksub.drop_last() =~= ks.subrange(0, i as int));
                assert(vsub.drop_last() =~= vs.subrange(0, i as int));
                assert(ksub.last() == k@);
                assert(vsub.last() == entries@[i as int].1@);
                if !import_drops(&k) {
                    let ghost before = out@;
                    out.push((entries[i].0.clone(), entries[i].1.deep_clone()));
                    assert(member_keys(out@) =~= member_keys(before).push(k@));
                    assert(member_values(out@) =~= member_values(before).push(entries@[i as int].1@));
                }
                i = i + 1;
            }
            assert(ks.subrange(0, ks.len() as int) =~= ks);
            assert(vs.subrange(0, vs.len() as int) =~= vs);
            proof {
                lemma_object_view(out);
            }
            Json::Object(out)
        },
        other => other,
    }
}

proof fn lemma_kept_shape(ks: Seq<Seq<char>>, vs: Seq<JsonV>)
    ensures
        kept_members(ks, vs).0.len() == kept_members(ks, vs).1.len(),
        kept_members(ks, vs).0.len() <= ks.len(),
        forall|i: int| 0 <= i < kept_members(ks, vs).0.len() ==> !import_dropped(#[trigger] kept_members(ks, vs).0[i]),
        forall|i: int|
            0 <= i < kept_members(ks, vs).0.len() ==> exists|j: int| 0 <= j < ks.len() && ks[j] == #[trigger] kept_members(ks, vs).0[i],
    decreases ks.len(),
{
    if ks.len() > 0 {
        let kd = ks.drop_last();
        lemma_kept_shape(kd, vs.drop_last());
        let m = kept_members(kd, vs.drop_last());
        let r = kept_members(ks, vs);
        assert forall|i: int| 0 <= i < r.0.len() implies exists|j: int| 0 <= j < ks.len() && ks[j] == #[trigger] r.0[i] by {
            if i < m.0.len() {
                let j = choose|j: int| 0 <= j < kd.len() && kd[j] == m.0[i];
                assert(ks[j] == r.0[i]);
            } else {
                assert(ks[ks.len() - 1] == r.0[i]);
            }
        }
    }
}

/// Lookup in what a create takes is lookup in the payload, for a key the
/// create takes.
proof fn lemma_kept_lookup(ks: Seq<Seq<char>>, vs: Seq<JsonV>, k: Seq<char>)
    requires
        !import_dropped(k),
    ensures
        lookup(kept_members(ks, vs).0, kept_members(ks, vs).1, k) == lookup(ks, vs, k),
    decreases ks.len(),
{
    if ks.len() > 0 {
        lemma_kept_lookup(ks.drop_last(), vs.drop_last(), k);
        let m = kept_members(ks.drop_last(), vs.drop_last());
        if !import_dropped(ks.last()) {
            let r = kept_members(ks, vs);
            assert(r.0.drop_last() =~= m.0);
            assert(r.1.drop_last() =~= m.1);
        }
    }
}

proof fn lemma_kept_all_kept(ks: Seq<Seq<char>>, vs: Seq<JsonV>)
    requires
        ks.len() == vs.len(),
        forall|i: int| 0 <= i < ks.len() ==> !import_dropped(#[trigger] ks[i]),
    ensures
        kept_members(ks, vs) == (ks, vs),
    decreases ks.len(),
{
    if ks.len() > 0 {
        let kd = ks.drop_last();
        assert forall|i: int| 0 <= i < kd.len() implies !import_dropped(#[trigger] kd[i]) by {
            assert(kd[i] == ks[i]);
        }
        lemma_kept_all_kept(kd, vs.drop_last());
        assert(kd.push(ks.last()) =~= ks);
        assert(vs.drop_last().push(vs.last()) =~= vs);
    }
}

/// A payload prepared for a create has none of the members a create does not
/// take.
pub proof fn law_clean_drops_readonly(v: JsonV, k: Seq<char>)
    requires
        import_dropped(k),
    ensures
        !clean_spec(v).has_key(k),
{
    if let JsonV::Object(ks, vs) = v {
        lemma_kept_shape(ks, vs);
        let m = kept_members(ks, vs);
        assert forall|j: int| 0 <= j < m.0.len() implies m.0[j] != k by {
            assert(!import_dropped(m.0[j]));
        }
        lemma_key_absent(m.0, k);
    }
}

/// A payload prepared for a create carries none of the read-only and
/// server-generated members (ids, timestamps, versions, scope-tag support,
/// assignment state, assignments, status reports) and no Graph annotation
/// other than `@odata.type`.
pub proof fn law_clean_strips_server_fields(v: JsonV, k: Seq<char>)
    requires
        k == "id"@ || k == "createdDateTime"@ || k == "lastModifiedDateTime"@ || k == "version"@ || k == "supportsScopeTags"@ || k == "isAssigned"@ || k == "@odata.context"@ || k == "@odata.count"@ || k == "@odata.nextLink"@ || k == "assignments"@ || k == "deviceStatusOverview"@ || k == "userStatusOverview"@ || k == "deviceStatuses"@ || k == "userStatuses"@ || (contains_sub(k, "@odata."@) && k != "@odata.type"@),
    ensures
        !clean_spec(v).has_key(k),
{
    law_clean_drops_readonly(v, k);
}

/// Every member of a payload other than those read-only ones and the Graph
/// annotations is kept for the create, with its value unchanged (the display
/// name and `@odata.type` among them).
pub proof fn law_clean_keeps_settings(v: JsonV, k: Seq<char>)
    requires
        v.wf(),
        k != "id"@ && k != "createdDateTime"@ && k != "lastModifiedDateTime"@ && k != "version"@ && k != "supportsScopeTags"@ && k != "isAssigned"@ && k != "@odata.context"@ && k != "@odata.count"@ && k != "@odata.nextLink"@ && k != "assignments"@ && k != "deviceStatusOverview"@ && k != "userStatusOverview"@ && k != "deviceStatuses"@ && k != "userStatuses"@,
        !contains_sub(k, "@odata."@) || k == "@odata.type"@,
    ensures
        clean_spec(v).get(k) == v.get(k),
{
    law_clean_keeps_others(v, k);
}

/// A payload prepared for a create keeps every other member as it was.
pub proof fn law_clean_keeps_others(v: JsonV, k: Seq<char>)
    requires
        v.wf(),
        !import_dropped(k),
    ensures
        clean_spec(v).get(k) == v.get(k),
{
    if let JsonV::Object(ks, vs) = v {
        lemma_kept_shape(ks, vs);
        let m = kept_members(ks, vs);
        lemma_kept_lookup(ks, vs, k);
        lemma_lookup(ks, vs, k);
        lemma_lookup(m.0, m.1, k);
    }
}

/// Preparing a payload twice is preparing it once.
pub proof fn law_clean_idempotent(v: JsonV)
    ensures
        clean_spec(clean_spec(v)) == clean_spec(v),
{
    if let JsonV::Object(ks, vs) = v {
        lemma_kept_shape(ks, vs);
        let m = kept_members(ks, vs);
        lemma_kept_all_kept(m.0, m.1);
    }
}

/// Preparing a well-formed payload leaves it well-formed.
pub proof fn law_clean_well_formed(v: JsonV)
    requires
        v.wf(),
    ensures
        clean_spec(v).wf(),
{
    if let JsonV::Object(ks, vs) = v {
        lemma_kept_sorted(ks, vs);
    }
}

proof fn lemma_kept_sorted(ks: Seq<Seq<char>>, vs: Seq<JsonV>)
    requires
        ks.len() == vs.len(),
        crate::json::keys_sorted(ks),
        forall|i: int| 0 <= i < vs.len() ==> (#[trigger] vs[i]).wf(),
    ensures
        crate::json::keys_sorted(kept_members(ks, vs).0),
        forall|i: int| 0 <= i < kept_members(ks, vs).1.len() ==> (#[trigger] kept_members(ks, vs).1[i]).wf(),
        kept_members(ks, vs).0.len() == kept_members(ks, vs).1.len(),
    decreases ks.len(),
{
    lemma_kept_shape(ks, vs);
    if ks.len() > 0 {
        let kd = ks.drop_last();
        let vd = vs.drop_last();
        assert(crate::json::keys_sorted(kd)) by {
            assert forall|a: int, b: int| 0 <= a < b < kd.len() implies crate::text::seq_lt(#[trigger] kd[a], #[trigger] kd[b]) by {
                assert(kd[a] == ks[a] && kd[b] == ks[b]);
            }
        }
        assert forall|i: int| 0 <= i < vd.len() implies (#[trigger] vd[i]).wf() by {
            assert(vd[i] == vs[i]);
        }
        lemma_kept_sorted(kd, vd);
        lemma_kept_shape(kd, vd);
        let m = kept_members(kd, vd);
        let r = kept_members(ks, vs);
        if !import_dropped(ks.last()) {
            assert(crate::json::keys_sorted(r.0)) by {
                assert forall|a: int, b: int| 0 <= a < b < r.0.len() implies crate::text::seq_lt(#[trigger] r.0[a], #[trigger] r.0[b]) by {
                    if b < m.0.len() {
                        assert(r.0[a] == m.0[a] && r.0[b] == m.0[b]);
                    } else {
                        assert(r.0[a] == m.0[a]);
                        let j = choose|j: int| 0 <= j < kd.len() && kd[j] == m.0[a];
                        assert(ks[j] == m.0[a]);
                        assert(r.0[b] == ks[ks.len() - 1]);
                    }
                }
            }
            assert forall|i: int| 0 <= i < r.1.len() implies (#[trigger] r.1[i]).wf() by {
                if i < m.1.len() {
                    assert(r.1[i] == m.1[i]);
                } else {
                    assert(r.1[i] == vs[vs.len() - 1]);
                }
            }
        }
    }
}

// ---- Listing ------------------------------------------------------------------------------

/// One object of a listing.
pub struct ListItem {
    pub id: String,
    pub name: String,
    pub description: Option<String>,
    pub odata_type: Option<String>,
}

/// The mathematical value of a [`ListItem`].
pub struct ListItemV {
    pub id: Seq<char>,
    pub name: Seq<char>,
    pub description: Option<Seq<char>>,
    pub odata_type: Option<Seq<char>>,
}

impl View for ListItem {
    type V = ListItemV;

    open spec fn view(&self) -> ListItemV {
        ListItemV { id: self.id@, name: self.name@, description: opt_str(self.description), odata_type: opt_str(self.odata_type) }
    }
}

/// The listing of an object type.
pub struct ListResult {
    pub type_id: String,
    pub name_property: String,
    pub count: usize,
    pub items: Vec<ListItem>,
}

/// The views of listed items.
pub open spec fn item_views(items: Seq<ListItem>) -> Seq<ListItemV> {
    items.map_values(|i: ListItem| i@)
}

/// The pieces of `s` between commas (`str::split(',')`): one more than there
/// are commas.
pub open spec fn split_commas(s: Seq<char>) -> Seq<Seq<char>>
    decreases s.len(),
{
    if s.len() == 0 {
        seq![Seq::empty()]
    } else {
        let r = split_commas(s.drop_last());
        if s.last() == ',' {
            r.push(Seq::empty())
        } else {
            r.update(r.len() - 1, r.last().push(s.last()))
        }
    }
}

proof fn lemma_split_commas_len(s: Seq<char>)
    ensures
        split_commas(s).len() >= 1,
    decreases s.len(),
{
    if s.len() > 0 {
        lemma_split_commas_len(s.drop_last());
    }
}

/// The pattern a piece of a type filter stands for: trimmed and lower-cased.
pub open spec fn pattern_of(piece: Seq<char>) -> Seq<char> {
    unicode_to_lowercase(trim(piece))
}

/// Whether some non-empty pattern among `pieces` occurs in `ot`.
pub open spec fn any_hit(pieces: Seq<Seq<char>>, ot: Seq<char>) -> bool
    decreases pieces.len(),
{
    if pieces.len() == 0 {
        false
    } else {
        any_hit(pieces.drop_last(), ot) || (pattern_of(pieces.last()).len() > 0 && contains_sub(ot, pattern_of(pieces.last())))
    }
}

/// The pieces of `s` between commas.
pub fn split_commas_exec(s: &Vec<char>) -> (r: Vec<Vec<char>>)
    ensures
        r@.map_values(|p: Vec<char>| p@) == split_commas(s@),
{
    let mut parts: Vec<Vec<char>> = Vec::new();
    parts.push(Vec::new());
    let mut i: usize = 0;
    assert(parts@.map_values(|p: Vec<char>| p@) =~= split_commas(s@.subrange(0, 0)));
    while i < s.len()
        invariant
            i <= s@.len(),
            parts@.len() >= 1,
            parts@.map_values(|p: Vec<char>| p@) == split_commas(s@.subrange(0, i as int)),
        decreases s@.len() - i,
    {
        let ghost pre = s@.subrange(0, i + 1);
        assert(pre.drop_last() =~= s@.subrange(0, i as int));
        let c = s[i];
        if c == ',' {
            parts.push(Vec::new());
        } else {
            let n = parts.len() - 1;
            let mut last: Vec<char> = Vec::new();
            core::mem::swap(&mut last, &mut parts[n]);
            last.push(c);
            parts.set(n, last);
        }
        i = i + 1;
        assert(parts@.map_values(|p: Vec<char>| p@) =~= split_commas(s@.subrange(0, i as int)));
    }
    assert(s@.subrange(0, s@.len() as int) =~= s@);
    parts
}

/// Whether one of the comma-separated patterns of `filter` occurs in `ot`.
pub fn any_pattern_hits(filter: &str, ot: &Vec<char>) -> (r: bool)
    ensures
        r == any_hit(split_commas(filter@), ot@),
{
    let parts = split_commas_exec(&chars_of(filter));
    let ghost ps = parts@.map_values(|p: Vec<char>| p@);
    let mut i: usize = 0;
    let mut hit = false;
    while i < parts.len()
        invariant
            i <= parts@.len(),
            ps == parts@.map_values(|p: Vec<char>| p@),
            hit == any_hit(ps.subrange(0, i as int), ot@),
        decreases parts@.len() - i,
    {
        assert(ps.subrange(0, i + 1).drop_last() =~= ps.subrange(0, i as int));
        assert(ps.subrange(0, i + 1).last() == parts@[i as int]@);
        let pat = lowercase_chars(&trim_exec(&parts[i]));
        let h = pat.len() > 0 && contains_exec(ot, &pat);
        hit = hit || h;
        i = i + 1;
    }
    assert(ps.subrange(0, ps.len() as int) =~= ps);
    hit
}

/// The `@odata.type` of an object, lower-cased, empty when it has none.
pub open spec fn type_of(obj: JsonV) -> Seq<char> {
    unicode_to_lowercase(str_or_empty(get_str(obj, "@odata.type"@)))
}

/// Whether an object passes its type's `@odata.type` filter and exclusion.
pub open spec fn passes_type(t: ObjectTypeV, obj: JsonV) -> bool {
    &&& match t.odata_type_filter {
        Some(f) => any_hit(split_commas(f), type_of(obj)),
        None => true,
    }
    &&& match t.odata_type_exclude {
        Some(e) => !any_hit(split_commas(e), type_of(obj)),
        None => true,
    }
}

/// The listing entry of an object.
pub open spec fn entry_of(obj: JsonV, name_property: Seq<char>) -> ListItemV {
    ListItemV {
        id: str_or_empty(get_str(obj, "id"@)),
        name: display_name_spec(obj, name_property),
        description: get_str(obj, "description"@),
        odata_type: match get_str(obj, "@odata.type"@) {
            Some(ty) => Some(short_type_spec(ty)),
            None => None,
        },
    }
}

/// The text a search looks in: name, description and id, lower-cased.
pub open spec fn haystack(item: ListItemV) -> Seq<char> {
    unicode_to_lowercase(item.name + " "@ + str_or_empty(item.description) + " "@ + item.id)
}

/// Whether an entry matches a search, ignoring case.
pub open spec fn passes_search(item: ListItemV, search: Option<Seq<char>>) -> bool {
    match search {
        Some(q) => contains_sub(haystack(item), unicode_to_lowercase(q)),
        None => true,
    }
}

/// The entries of the objects that pass the type filters and the search, in
/// the order given.
pub open spec fn listed(t: ObjectTypeV, objs: Seq<JsonV>, search: Option<Seq<char>>) -> Seq<ListItemV>
    decreases objs.len(),
{
    if objs.len() == 0 {
        Seq::empty()
    } else {
        let e = entry_of(objs.last(), t.name_property);
        listed(t, objs.drop_last(), search) + if passes_type(t, objs.last()) && passes_search(e, search) {
            seq![e]
        } else {
            Seq::empty()
        }
    }
}

/// The key a listing is sorted by: the lower-cased name.
pub open spec fn item_key() -> spec_fn(ListItemV) -> Seq<char> {
    |i: ListItemV| unicode_to_lowercase(i.name)
}

/// A listing: the listed entries, sorted by name ignoring case, stably.
pub open spec fn listing(t: ObjectTypeV, objs: Seq<JsonV>, search: Option<Seq<char>>) -> Seq<ListItemV> {
    sort_by(listed(t, objs, search), item_key(), str_lt())
}

fn insert_item_sorted(keys: &mut Vec<Vec<char>>, items: &mut Vec<ListItem>, key: Vec<char>, item: ListItem)
    requires
        old(keys)@.len() == old(items)@.len(),
        forall|j: int| 0 <= j < old(items)@.len() ==> (#[trigger] old(keys)@[j])@ == item_key()(old(items)@[j]@),
        key@ == item_key()(item@),
    ensures
        final(keys)@.len() == final(items)@.len(),
        forall|j: int| 0 <= j < final(items)@.len() ==> (#[trigger] final(keys)@[j])@ == item_key()(final(items)@[j]@),
        item_views(final(items)@) == insert_by(item_views(old(items)@), item@, item_key(), str_lt()),
{
    let ghost sorted = item_views(items@);
    let ghost x = item@;
    let mut p: usize = items.len();
    assert(sorted.subrange(0, sorted.len() as int) =~= sorted);
    assert(sorted.subrange(sorted.len() as int, sorted.len() as int) =~= Seq::<ListItemV>::empty());
    while p > 0 && seq_lt_exec(&key, &keys[p - 1])
        invariant
            p <= items@.len(),
            keys@.len() == items@.len(),
            key@ == item_key()(x),
            x == item@,
            sorted == item_views(items@),
            forall|j: int| 0 <= j < items@.len() ==> (#[trigger] keys@[j])@ == item_key()(items@[j]@),
            insert_by(sorted, x, item_key(), str_lt()) == insert_by(sorted.subrange(0, p as int), x, item_key(), str_lt())
                + sorted.subrange(p as int, sorted.len() as int),
        decreases p,
    {
        let ghost pre = sorted.subrange(0, p as int);
        assert(pre.drop_last() =~= sorted.subrange(0, p - 1));
        assert(pre.last() == items@[p - 1]@);
        assert(keys@[p - 1]@ == item_key()(items@[p - 1]@));
        assert(insert_by(pre, x, item_key(), str_lt()) == insert_by(pre.drop_last(), x, item_key(), str_lt()).push(pre.last()));
        assert(insert_by(sorted.subrange(0, p - 1), x, item_key(), str_lt()).push(pre.last()) + sorted.subrange(
            p as int,
            sorted.len() as int,
        ) =~= insert_by(sorted.subrange(0, p - 1), x, item_key(), str_lt()) + sorted.subrange(p - 1, sorted.len() as int));
        p = p - 1;
    }
    proof {
        let pre = sorted.subrange(0, p as int);
        if p > 0 {
            assert(pre.last() == items@[p - 1]@);
            assert(insert_by(pre, x, item_key(), str_lt()) == pre.push(x));
        } else {
            assert(insert_by(pre, x, item_key(), str_lt()) == seq![x]);
        }
    }
    keys.insert(p, key);
    items.insert(p, item);
    assert(item_views(items@) =~= insert_by(sorted, x, item_key(), str_lt())) by {
        assert(item_views(items@) =~= sorted.subrange(0, p as int).push(x) + sorted.subrange(p as int, sorted.len() as int));
    }
}

fn clone_opt_string(o: Option<&String>) -> (r: Option<String>)
    ensures
        opt_str(r) == match o {
            Some(s) => Some(s@),
            None => None,
        },
{
    match o {
        Some(s) => Some(s.clone()),
        None => None,
    }
}

/// The entry of an object, when it passes the type's filters and the search.
fn entry_if_listed(t: &ObjectType, obj: &Json, search_lc: &Option<Vec<char>>, Ghost(search): Ghost<Option<Seq<char>>>) -> (r: Option<ListItem>)
    requires
        match search {
            Some(q) => search_lc matches Some(l) && l@ == unicode_to_lowercase(q),
            None => search_lc is None,
        },
    ensures
        match r {
            Some(item) => passes_type(t@, obj@) && passes_search(entry_of(obj@, t@.name_property), search) && item@
                == entry_of(obj@, t@.name_property),
            None => !(passes_type(t@, obj@) && passes_search(entry_of(obj@, t@.name_property), search)),
        },
{
    let ot_raw = match obj.get_str(&chars_of("@odata.type")) {
        Some(s) => chars_of(s.as_str()),
        None => Vec::new(),
    };
    let ot = lowercase_chars(&ot_raw);
    match &t.odata_type_filter {
        Some(f) => {
            if !any_pattern_hits(f.as_str(), &ot) {
                return None;
            }
        },
        None => {},
    }
    match &t.odata_type_exclude {
        Some(e) => {
            if any_pattern_hits(e.as_str(), &ot) {
                return None;
            }
        },
        None => {},
    }
    let name = display_name(obj, t.name_property.as_str());
    let description = clone_opt_string(obj.get_str(&chars_of("description")));
    let id = match obj.get_str(&chars_of("id")) {
        Some(s) => s.clone(),
        None => String::new(),
    };
    let odata_type = match obj.get_str(&chars_of("@odata.type")) {
        Some(s) => Some(short_type(s.as_str())),
        None => None,
    };
    let item = ListItem { id, name, description, odata_type };
    assert(item@ == entry_of(obj@, t@.name_property));
    match search_lc {
        Some(q) => {
            let mut hay = chars_of(item.name.as_str());
            hay.push(' ');
            match &item.description {
                Some(d) => extend_chars(&mut hay, &chars_of(d.as_str())),
                None => {},
            }
            hay.push(' ');
            extend_chars(&mut hay, &chars_of(item.id.as_str()));
            assert(hay@ == item@.name + " "@ + str_or_empty(item@.description) + " "@ + item@.id) by {
                reveal_strlit(" ");
            }
            let hay_lc = lowercase_chars(&hay);
            if !contains_exec(&hay_lc, q) {
                return None;
            }
        },
        None => {},
    }
    Some(item)
}

/// The listing of an object type from the objects Graph returned: the objects
/// that pass the type's `@odata.type` filter and exclusion and, when there is
/// a search, whose name, description or id contain it ignoring case; sorted
/// by name ignoring case.
pub fn list_result(t: &ObjectType, raw: &Vec<Json>, search: Option<&str>) -> (r: ListResult)
    ensures
        r.type_id@ == t@.id,
        r.name_property@ == t@.name_property,
        r.count == r.items@.len(),
        item_views(r.items@) == listing(
            t@,
            views(raw@),
            match search {
                Some(q) => Some(q@),
                None => None,
            },
        ),
{
    let ghost sv: Option<Seq<char>> = match search {
        Some(q) => Some(q@),
        None => None,
    };
    let search_lc: Option<Vec<char>> = match search {
        Some(q) => Some(lowercase_chars(&chars_of(q))),
        None => None,
    };
    let ghost objs = views(raw@);
    let mut keys: Vec<Vec<char>> = Vec::new();
    let mut items: Vec<ListItem> = Vec::new();
    let mut i: usize = 0;
    assert(objs.subrange(0, 0) =~= Seq::<JsonV>::empty());
    while i < raw.len()
        invariant
            i <= raw@.len(),
            objs == views(raw@),
            match sv {
                Some(q) => search_lc matches Some(l) && l@ == unicode_to_lowercase(q),
                None => search_lc is None,
            },
            keys@.len() == items@.len(),
            forall|j: int| 0 <= j < items@.len() ==> (#[trigger] keys@[j])@ == item_key()(items@[j]@),
            item_views(items@) == sort_by(listed(t@, objs.subrange(0, i as int), sv), item_key(), str_lt()),
        decreases raw@.len() - i,
    {
        let ghost pre = objs.subrange(0, i + 1);
        assert(pre.drop_last() =~= objs.subrange(0, i as int));
        assert(pre.last() == raw@[i as int]@);
        let ghost before = listed(t@, objs.subrange(0, i as int), sv);
        match entry_if_listed(t, &raw[i], &search_lc, Ghost(sv)) {
            Some(item) => {
                let key = lowercase_chars(&chars_of(item.name.as_str()));
                proof {
                    assert(listed(t@, pre, sv) == before.push(item@)) by {
                        assert(before + seq![item@] =~= before.push(item@));
                    }
                    assert(before.push(item@).drop_last() =~= before);
                }
                insert_item_sorted(&mut keys, &mut items, key, item);
            },
            None => {
                assert(listed(t@, pre, sv) =~= before);
            },
        }
        i = i + 1;
    }
    assert(objs.subrange(0, objs.len() as int) =~= objs);
    ListResult { type_id: t.id.clone(), name_property: t.name_property.clone(), count: items.len(), items }
}

/// A listing is in name order ignoring case, and holds exactly the entries of
/// the objects that pass the filters and the search.
pub proof fn law_listing_sorted(t: ObjectTypeV, objs: Seq<JsonV>, search: Option<Seq<char>>)
    ensures
        sorted_by(listing(t, objs, search), item_key(), str_lt()),
        listing(t, objs, search).to_multiset() == listed(t, objs, search).to_multiset(),
{
    lemma_str_lt_order();
    law_sort_sorted(listed(t, objs, search), item_key(), str_lt());
    law_sort_permutes(listed(t, objs, search), item_key(), str_lt());
}

/// A listing runs in name order ignoring case: no entry's lower-cased name
/// comes before that of an entry listed ahead of it.
pub proof fn law_listing_in_name_order(t: ObjectTypeV, objs: Seq<JsonV>, search: Option<Seq<char>>, i: int, j: int)
    requires
        0 <= i < j < listing(t, objs, search).len(),
    ensures
        !crate::text::seq_lt(unicode_to_lowercase(listing(t, objs, search)[j].name), unicode_to_lowercase(listing(t, objs, search)[i].name)),
{
    law_listing_sorted(t, objs, search);
    let l = listing(t, objs, search);
    assert(!str_lt()(item_key()(l[j]), item_key()(l[i])));
}

proof fn lemma_listed_contains(t: ObjectTypeV, objs: Seq<JsonV>, search: Option<Seq<char>>, j: int)
    requires
        0 <= j < objs.len(),
        passes_type(t, objs[j]),
        passes_search(entry_of(objs[j], t.name_property), search),
    ensures
        listed(t, objs, search).contains(entry_of(objs[j], t.name_property)),
    decreases objs.len(),
{
    let e = entry_of(objs[j], t.name_property);
    let pre = listed(t, objs.drop_last(), search);
    if j == objs.len() - 1 {
        assert(listed(t, objs, search) == pre + seq![e]);
        assert(listed(t, objs, search)[pre.len() as int] == e);
    } else {
        assert(objs.drop_last()[j] == objs[j]);
        lemma_listed_contains(t, objs.drop_last(), search, j);
        let k = choose|k: int| 0 <= k < pre.len() && pre[k] == e;
        assert(listed(t, objs, search)[k] == e);
    }
}

proof fn lemma_contains_in_middle(a: Seq<char>, x: Seq<char>, b: Seq<char>, q: Seq<char>)
    requires
        contains_sub(x, q),
    ensures
        contains_sub(a + x + b, q),
{
    let i = choose|i: int| occurs_at(x, q, i);
    let s = a + x + b;
    assert(s.subrange(a.len() + i, a.len() + i + q.len()) =~= x.subrange(i, i + q.len()));
    assert(occurs_at(s, q, a.len() + i));
}

/// A search finds an object by its name, its description or its id, ignoring
/// case: an object that passes its type's filters and whose name, description
/// or id contains the search text is listed. (Stated for ASCII text, the case
/// mapping the standard library documents character by character.)
pub proof fn law_search_hits_name_description_or_id(t: ObjectTypeV, objs: Seq<JsonV>, q: Seq<char>, j: int)
    requires
        0 <= j < objs.len(),
        passes_type(t, objs[j]),
        all_ascii(display_name_spec(objs[j], t.name_property)),
        all_ascii(str_or_empty(get_str(objs[j], "description"@))),
        all_ascii(str_or_empty(get_str(objs[j], "id"@))),
        contains_sub(unicode_to_lowercase(display_name_spec(objs[j], t.name_property)), unicode_to_lowercase(q))
            || contains_sub(unicode_to_lowercase(str_or_empty(get_str(objs[j], "description"@))), unicode_to_lowercase(q))
            || contains_sub(unicode_to_lowercase(str_or_empty(get_str(objs[j], "id"@))), unicode_to_lowercase(q)),
    ensures
        listing(t, objs, Some(q)).contains(entry_of(objs[j], t.name_property)),
{
    let e = entry_of(objs[j], t.name_property);
    let n = e.name;
    let d = str_or_empty(e.description);
    let id = e.id;
    let sp = " "@;
    reveal_strlit(" ");
    assert(sp.len() == 1 && sp[0] == ' ');
    let hay = n + sp + d + sp + id;
    assert(all_ascii(hay)) by {
        assert forall|i: int| 0 <= i < hay.len() implies (#[trigger] hay[i] as u32) < 128 by {
            if i < n.len() {
                assert(hay[i] == n[i]);
            } else if i < n.len() + 1 {
                assert(hay[i] == ' ');
            } else if i < n.len() + 1 + d.len() {
                assert(hay[i] == d[i - n.len() - 1]);
            } else if i < n.len() + 2 + d.len() {
                assert(hay[i] == ' ');
            } else {
                assert(hay[i] == id[i - n.len() - 2 - d.len()]);
            }
        }
    }
    let f = |c: char| ascii_lower(c);
    let ln = n.map_values(f);
    let ld = d.map_values(f);
    let li = id.map_values(f);
    let ls = sp.map_values(f);
    assert(unicode_to_lowercase(hay) =~= ln + ls + ld + ls + li);
    assert(unicode_to_lowercase(n) == ln);
    assert(unicode_to_lowercase(d) == ld);
    assert(unicode_to_lowercase(id) == li);
    let lq = unicode_to_lowercase(q);
    if contains_sub(ln, lq) {
        lemma_contains_in_middle(Seq::empty(), ln, ls + ld + ls + li, lq);
        assert(Seq::<char>::empty() + ln + (ls + ld + ls + li) =~= ln + ls + ld + ls + li);
    } else if contains_sub(ld, lq) {
        lemma_contains_in_middle(ln + ls, ld, ls + li, lq);
        assert(ln + ls + ld + (ls + li) =~= ln + ls + ld + ls + li);
    } else {
        lemma_contains_in_middle(ln + ls + ld + ls, li, Seq::empty(), lq);
        assert(ln + ls + ld + ls + li + Seq::<char>::empty() =~= ln + ls + ld + ls + li);
    }
    assert(passes_search(e, Some(q)));
    lemma_listed_contains(t, objs, Some(q), j);
    law_listing_sorted(t, objs, Some(q));
    broadcast use vstd::seq_lib::group_to_multiset_ensures;
    assert(listed(t, objs, Some(q)).to_multiset().count(e) > 0);
    assert(listing(t, objs, Some(q)).to_multiset().count(e) > 0);
}

// ---- Documentation -------------------------------------------------------------------------

/// Output format for exported documentation.
#[derive(Debug, Clone, Copy, PartialEq, Eq, Structural)]
pub enum DocFormat {
    Markdown,
    Html,
    Json,
}

/// The file extension of a documentation format.
pub open spec fn extension_of(f: DocFormat) -> Seq<char> {
    match f {
        DocFormat::Markdown => "md"@,
        DocFormat::Html => "html"@,
        DocFormat::Json => "json"@,
    }
}

/// A documented object in a documentation format: Markdown, a standalone
/// HTML page, or indented JSON.
pub open spec fn rendered(f: DocFormat, d: DocV) -> Seq<char> {
    match f {
        DocFormat::Markdown => markdown(d),
        DocFormat::Html => html(d),
        DocFormat::Json => doc_json(d).pretty(0),
    }
}

impl DocFormat {
    /// The file extension of the format.
    pub fn extension(&self) -> (r: &'static str)
        ensures
            r@ == extension_of(*self),
    {
        match self {
            DocFormat::Markdown => "md",
            DocFormat::Html => "html",
            DocFormat::Json => "json",
        }
    }

    /// The documented object in this format.
    pub fn render(&self, doc: &DocumentedObject) -> (r: String)
        ensures
            r@ == rendered(*self, doc@),
    {
        match self {
            DocFormat::Markdown => doc.to_markdown(),
            DocFormat::Html => doc.to_html(),
            DocFormat::Json => {
                let j = doc.to_json();
                proof {
                    lemma_doc_json_depth(doc@);
                }
                j.to_pretty_string()
            },
        }
    }
}

/// The items of an array member, none when it is missing or not an array.
pub open spec fn array_or_empty(a: Option<Seq<JsonV>>) -> Seq<JsonV> {
    match a {
        Some(x) => x,
        None => Seq::empty(),
    }
}

/// The generic section of an object.
pub open spec fn generic_section_v(o: JsonV) -> SectionV {
    SectionV {
        title: "Settings"@,
        rows: match o {
            JsonV::Object(ks, vs) => generic_rows(ks, vs),
            _ => Seq::empty(),
        },
    }
}

/// A specialised section, or the generic one when it has no rows.
pub open spec fn or_generic(s: SectionV, o: JsonV) -> SectionV {
    if s.rows.len() == 0 {
        generic_section_v(o)
    } else {
        s
    }
}

/// The settings section of an object: resolved against the setting
/// definitions for a settings-catalog type, from the intent settings for
/// Endpoint Security, from the definition values for Administrative
/// Templates, generic otherwise and whenever the specialised one is empty.
pub open spec fn settings_section_v(type_id: Seq<char>, o: JsonV, catalog_settings: Seq<JsonV>) -> SectionV {
    if settings_catalog_type(type_id) {
        or_generic(
            SectionV { title: "Configuration settings"@, rows: catalog_rows(defs_of(catalog_settings), catalog_settings) },
            o,
        )
    } else if type_id == "EndpointSecurity"@ {
        or_generic(
            SectionV {
                title: "Configuration settings"@,
                rows: sort_rows(intent_rows(array_or_empty(get_array(o, "settings"@)))),
            },
            o,
        )
    } else if type_id == "AdministrativeTemplates"@ {
        or_generic(
            SectionV { title: "Configuration settings"@, rows: admx_rows(array_or_empty(get_array(o, "definitionValues"@))) },
            o,
        )
    } else {
        generic_section_v(o)
    }
}

/// The assignments section, when there are assignments.
pub open spec fn assignment_sections(a: Option<JsonV>) -> Seq<SectionV> {
    match a {
        Some(JsonV::Array(arr)) => if arr.len() > 0 {
            seq![SectionV { title: "Assignments"@, rows: arr.map_values(|x: JsonV| assignment_row(x)) }]
        } else {
            Seq::empty()
        },
        _ => Seq::empty(),
    }
}

/// The documentation of an object: its settings, its assignments when it has
/// some, and its metadata.
pub open spec fn document_spec(
    t: ObjectTypeV,
    id: Seq<char>,
    o: JsonV,
    assignments: Option<JsonV>,
    catalog_settings: Seq<JsonV>,
) -> DocV {
    DocV {
        type_id: t.id,
        type_title: t.title,
        object_id: id,
        name: display_name_spec(o, t.name_property),
        description: match get_str(o, "description"@) {
            Some(d) => if d.len() > 0 {
                Some(d)
            } else {
                None
            },
            None => None,
        },
        sections: seq![settings_section_v(t.id, o, catalog_settings)] + assignment_sections(assignments) + seq![
            SectionV { title: "Metadata"@, rows: meta_rows(o) },
        ],
    }
}

fn or_generic_exec(section: DocSection, object: &Json) -> (r: DocSection)
    requires
        object@.depth() <= 256,
    ensures
        r@ == or_generic(section@, object@),
{
    if section.rows.len() == 0 {
        generic_section(object)
    } else {
        section
    }
}

/// Build the documentation of an object from the object, its assignments
/// (when the type has them) and, for a settings-catalog type, its settings
/// with their definitions.
pub fn document(
    t: &ObjectType,
    id: &str,
    object: &Json,
    assignments: &Option<Json>,
    catalog_settings: &Vec<Json>,
) -> (r: DocumentedObject)
    requires
        object@.depth() <= 256,
        settings_catalog_type(t@.id) ==> forall|i: int|
            0 <= i < catalog_settings@.len() ==> match (#[trigger] catalog_settings@[i])@.get("settingInstance"@) {
                Some(inst) => inst.depth() <= 255,
                None => true,
            },
    ensures
        r@ == document_spec(
            t@,
            id@,
            object@,
            match assignments {
                Some(a) => Some(a@),
                None => None,
            },
            views(catalog_settings@),
        ),
{
    let description = match object.get_str(&chars_of("description")) {
        Some(d) => if chars_of(d.as_str()).len() > 0 {
            Some(d.clone())
        } else {
            None
        },
        None => None,
    };
    let tid = chars_of(t.id.as_str());
    let main = if is_settings_catalog(t.id.as_str()) {
        or_generic_exec(settings_catalog_section(catalog_settings), object)
    } else if chars_eq(&tid, &chars_of("EndpointSecurity")) {
        let settings: Vec<Json> = match object.get_array(&chars_of("settings")) {
            Some(a) => clone_items(a),
            None => Vec::new(),
        };
        or_generic_exec(endpoint_security_section(&settings), object)
    } else if chars_eq(&tid, &chars_of("AdministrativeTemplates")) {
        let values: Vec<Json> = match object.get_array(&chars_of("definitionValues")) {
            Some(a) => clone_items(a),
            None => Vec::new(),
        };
        or_generic_exec(admx_section(&values), object)
    } else {
        generic_section(object)
    };
    let mut sections: Vec<DocSection> = Vec::new();
    sections.push(main);
    let ghost after_main = sections@;
    match assignments {
        Some(a) => match assignments_section(a) {
            Some(sec) => sections.push(sec),
            None => {},
        },
        None => {},
    }
    let ghost after_assign = sections@;
    sections.push(metadata_section(object));
    let r = DocumentedObject {
        type_id: t.id.clone(),
        type_title: t.title.clone(),
        object_id: id.to_owned(),
        name: display_name(object, t.name_property.as_str()),
        description,
        sections,
    };
    assert(r@.sections =~= document_spec(
        t@,
        id@,
        object@,
        match assignments {
            Some(a) => Some(a@),
            None => None,
        },
        views(catalog_settings@),
    ).sections);
    r
}

/// Copies of the items of an array.
pub fn clone_items(a: &Vec<Json>) -> (r: Vec<Json>)
    ensures
        views(r@) == views(a@),
{
    let mut out: Vec<Json> = Vec::new();
    let mut i: usize = 0;
    while i < a.len()
        invariant
            i <= a@.len(),
            views(out@) == views(a@).subrange(0, i as int),
        decreases a@.len() - i,
    {
        let c = a[i].deep_clone();
        let ghost before = out@;
        out.push(c);
        assert(views(out@) =~= views(before).push(a@[i as int]@));
        assert(views(a@).subrange(0, i + 1) =~= views(a@).subrange(0, i as int).push(a@[i as int]@));
        i = i + 1;
    }
    assert(views(a@).subrange(0, a@.len() as int) =~= views(a@));
    out
}

// ---- Copying -------------------------------------------------------------------------------

/// The name of a copy: the one given, else the source name with ` - Copy`.
pub open spec fn copy_name_spec(source_name: Seq<char>, new_name: Option<Seq<char>>) -> Seq<char> {
    match new_name {
        Some(n) => n,
        None => source_name + " - Copy"@,
    }
}

/// The name of a copy: the one given, else the source name with ` - Copy`.
pub fn copy_name(source_name: &str, new_name: Option<String>) -> (r: String)
    ensures
        r@ == copy_name_spec(source_name@, opt_str(new_name)),
{
    match new_name {
        Some(n) => n,
        None => {
            let mut s = chars_of(source_name);
            extend_chars(&mut s, &chars_of(" - Copy"));
            string_from(&s)
        },
    }
}

/// The name of a copy made by pattern: the template (by default
/// `{name} - Copy`) with every `{name}` replaced by the source name.
pub open spec fn template_name_spec(template: Option<Seq<char>>, name: Seq<char>) -> Seq<char> {
    replace_sub(
        match template {
            Some(t) => t,
            None => "{name} - Copy"@,
        },
        "{name}"@,
        name,
    )
}

/// The name of a copy made by pattern (see `template_name_spec`).
pub fn template_name(template: &Option<String>, name: &str) -> (r: String)
    ensures
        r@ == template_name_spec(opt_str(*template), name@),
{
    let t = match template {
        Some(t) => chars_of(t.as_str()),
        None => chars_of("{name} - Copy"),
    };
    let token = chars_of("{name}");
    proof {
        reveal_strlit("{name}");
    }
    string_from(&replace_sub_exec(&t, &token, &chars_of(name)))
}

/// What a copy creates: the source object without the members a create does
/// not take (id, version, assignments and the like), renamed.
pub open spec fn copy_payload_spec(object: JsonV, name_property: Seq<char>, new_name: Seq<char>) -> JsonV {
    set_name_spec(clean_spec(object), name_property, new_name)
}

/// What a copy of an object creates (see `copy_payload_spec`).
pub fn copy_payload(object: Json, name_property: &str, new_name: &str) -> (r: Json)
    ensures
        r@ == copy_payload_spec(object@, name_property@, new_name@),
{
    let mut payload = clean_for_import(object);
    set_name(&mut payload, name_property, new_name);
    payload
}

/// Neither `displayName` nor `name` is a member a create drops.
proof fn lemma_name_keys_kept()
    ensures
        !import_dropped("displayName"@),
        !import_dropped("name"@),
{
    reveal_strlit("displayName");
    reveal_strlit("name");
    reveal_strlit("@odata.");
    reveal_strlit("id");
    reveal_strlit("createdDateTime");
    reveal_strlit("lastModifiedDateTime");
    reveal_strlit("version");
    reveal_strlit("supportsScopeTags");
    reveal_strlit("isAssigned");
    reveal_strlit("@odata.context");
    reveal_strlit("@odata.count");
    reveal_strlit("@odata.nextLink");
    reveal_strlit("assignments");
    reveal_strlit("deviceStatusOverview");
    reveal_strlit("userStatusOverview");
    reveal_strlit("deviceStatuses");
    reveal_strlit("userStatuses");
    reveal_strlit("@odata.type");
    let dn = "displayName"@;
    let nm = "name"@;
    let p = "@odata."@;
    assert forall|i: int| !crate::text::occurs_at(dn, p, i) by {
        if 0 <= i && i + p.len() <= dn.len() {
            assert(dn.subrange(i, i + p.len())[0] == dn[i]);
            if i == 0 {
            } else if i == 1 {
            } else if i == 2 {
            } else if i == 3 {
            } else if i == 4 {
            }
        }
    }
    assert forall|i: int| !crate::text::occurs_at(nm, p, i) by {}
    assert(!contains_sub(dn, p));
    assert(!contains_sub(nm, p));
    assert(dn.len() != "id"@.len() || dn[0] != "id"@[0]);
    assert(nm.len() != "id"@.len() || nm[0] != "id"@[0]);
    assert(dn.len() != "createdDateTime"@.len() || dn[0] != "createdDateTime"@[0]);
    assert(nm.len() != "createdDateTime"@.len() || nm[0] != "createdDateTime"@[0]);
    assert(dn.len() != "lastModifiedDateTime"@.len() || dn[0] != "lastModifiedDateTime"@[0]);
    assert(nm.len() != "lastModifiedDateTime"@.len() || nm[0] != "lastModifiedDateTime"@[0]);
    assert(dn.len() != "version"@.len() || dn[0] != "version"@[0]);
    assert(nm.len() != "version"@.len() || nm[0] != "version"@[0]);
    assert(dn.len() != "supportsScopeTags"@.len() || dn[0] != "supportsScopeTags"@[0]);
    assert(nm.len() != "supportsScopeTags"@.len() || nm[0] != "supportsScopeTags"@[0]);
    assert(dn.len() != "isAssigned"@.len() || dn[0] != "isAssigned"@[0]);
    assert(nm.len() != "isAssigned"@.len() || nm[0] != "isAssigned"@[0]);
    assert(dn.len() != "@odata.context"@.len() || dn[0] != "@odata.context"@[0]);
    assert(nm.len() != "@odata.context"@.len() || nm[0] != "@odata.context"@[0]);
    assert(dn.len() != "@odata.count"@.len() || dn[0] != "@odata.count"@[0]);
    assert(nm.len() != "@odata.count"@.len() || nm[0] != "@odata.count"@[0]);
    assert(dn.len() != "@odata.nextLink"@.len() || dn[0] != "@odata.nextLink"@[0]);
    assert(nm.len() != "@odata.nextLink"@.len() || nm[0] != "@odata.nextLink"@[0]);
    assert(dn.len() != "assignments"@.len() || dn[0] != "assignments"@[0]);
    assert(nm.len() != "assignments"@.len() || nm[0] != "assignments"@[0]);
    assert(dn.len() != "deviceStatusOverview"@.len() || dn[0] != "deviceStatusOverview"@[0]);
    assert(nm.len() != "deviceStatusOverview"@.len() || nm[0] != "deviceStatusOverview"@[0]);
    assert(dn.len() != "userStatusOverview"@.len() || dn[0] != "userStatusOverview"@[0]);
    assert(nm.len() != "userStatusOverview"@.len() || nm[0] != "userStatusOverview"@[0]);
    assert(dn.len() != "deviceStatuses"@.len() || dn[0] != "deviceStatuses"@[0]);
    assert(nm.len() != "deviceStatuses"@.len() || nm[0] != "deviceStatuses"@[0]);
    assert(dn.len() != "userStatuses"@.len() || dn[0] != "userStatuses"@[0]);
    assert(nm.len() != "userStatuses"@.len() || nm[0] != "userStatuses"@[0]);
    assert(!readonly_key(dn));
    assert(!readonly_key(nm));
}

/// A copy is what a create would make of the source under its new name: it
/// has none of the read-only members and is known by the new name.
pub proof fn law_copy_is_clean_and_renamed(object: JsonV, name_property: Seq<char>, new_name: Seq<char>, k: Seq<char>)
    requires
        object.wf(),
        object is Object,
        new_name.len() > 0,
        !import_dropped(name_property),
        import_dropped(k),
    ensures
        !copy_payload_spec(object, name_property, new_name).has_key(k),
        display_name_spec(copy_payload_spec(object, name_property, new_name), name_property) == new_name,
        copy_payload_spec(object, name_property, new_name).wf(),
{
    let c = clean_spec(object);
    law_clean_well_formed(object);
    law_clean_drops_readonly(object, k);
    law_renamed_payload_has_new_name(c, name_property, new_name);
    let v = JsonV::Str(new_name);
    let dn = "displayName"@;
    let nm = "name"@;
    lemma_name_keys_kept();
    let p1 = if c.has_key(name_property) { c.insert(name_property, v) } else { c };
    if c.has_key(name_property) {
        lemma_insert(c, name_property, v);
    }
    let p2 = if p1.has_key(dn) { p1.insert(dn, v) } else { p1 };
    if p1.has_key(dn) {
        lemma_insert(p1, dn, v);
    }
    let p3 = if p2.has_key(nm) { p2.insert(nm, v) } else { p2 };
    if p2.has_key(nm) {
        lemma_insert(p2, nm, v);
    }
    if !(c.has_key(name_property) || c.has_key(dn) || c.has_key(nm)) {
        lemma_insert(p3, name_property, v);
    }
}

// ---- Graph locations -------------------------------------------------------------------------

/// The path of one object of a type.
pub open spec fn object_path(t: ObjectTypeV, id: Seq<char>) -> Seq<char> {
    t.api + "/"@ + id
}

/// The URL an object is fetched from, with the type's `$expand` clause.
pub open spec fn object_url_spec(t: ObjectTypeV, id: Seq<char>) -> Seq<char> {
    url_spec(
        object_path(t, id),
        match t.expand {
            Some(e) => Some("$expand="@ + e),
            None => None,
        },
    )
}

/// The URL an object is fetched from, with the type's `$expand` clause.
pub fn object_url(t: &ObjectType, id: &str) -> (r: String)
    ensures
        r@ == object_url_spec(t@, id@),
{
    let mut path = chars_of(t.api.as_str());
    extend_chars(&mut path, &chars_of("/"));
    extend_chars(&mut path, &chars_of(id));
    let path = string_from(&path);
    match &t.expand {
        Some(e) => {
            let mut q = chars_of("$expand=");
            extend_chars(&mut q, &chars_of(e.as_str()));
            let q = string_from(&q);
            url(path.as_str(), Some(q.as_str()))
        },
        None => url(path.as_str(), None),
    }
}

/// The URL of an object's assignments.
pub fn assignments_url(t: &ObjectType, id: &str) -> (r: String)
    ensures
        r@ == url_spec(object_path(t@, id@) + "/assignments"@, None),
{
    let mut path = chars_of(t.api.as_str());
    extend_chars(&mut path, &chars_of("/"));
    extend_chars(&mut path, &chars_of(id));
    extend_chars(&mut path, &chars_of("/assignments"));
    let path = string_from(&path);
    url(path.as_str(), None)
}

/// The URL a type is listed from, with its list query.
pub fn list_url(t: &ObjectType) -> (r: String)
    ensures
        r@ == url_spec(t@.api, t@.query_list),
{
    match &t.query_list {
        Some(q) => url(t.api.as_str(), Some(q.as_str())),
        None => url(t.api.as_str(), None),
    }
}

/// The URL objects of a type are created at.
pub fn create_url(t: &ObjectType) -> (r: String)
    ensures
        r@ == url_spec(t@.api, None),
{
    url(t.api.as_str(), None)
}

/// The separate collection a type's objects carry that a plain GET does not
/// return: the member it is merged in as and the URL it is read from.
/// Endpoint Security intents have their `settings`, Administrative Templates
/// their `definitionValues`; other types have none.
pub open spec fn extra_collection_spec(type_id: Seq<char>, id: Seq<char>) -> Option<(Seq<char>, Seq<char>)> {
    if type_id == "EndpointSecurity"@ {
        Some(("settings"@, url_spec("/deviceManagement/intents/"@ + id + "/settings"@, None)))
    } else if type_id == "AdministrativeTemplates"@ {
        Some(
            (
                "definitionValues"@,
                url_spec(
                    "/deviceManagement/groupPolicyConfigurations/"@ + id + "/definitionValues"@,
                    Some(
                        "$expand=definition($select=id,displayName,categoryPath,classType,policyType),presentationValues($expand=presentation)"@,
                    ),
                ),
            ),
        )
    } else {
        None
    }
}

/// The separate collection a type's objects carry (see `extra_collection_spec`).
pub fn extra_collection(type_id: &str, id: &str) -> (r: Option<(String, String)>)
    ensures
        match r {
            Some((k, u)) => extra_collection_spec(type_id@, id@) == Some((k@, u@)),
            None => extra_collection_spec(type_id@, id@) is None,
        },
{
    let t = chars_of(type_id);
    if chars_eq(&t, &chars_of("EndpointSecurity")) {
        let mut p = chars_of("/deviceManagement/intents/");
        extend_chars(&mut p, &chars_of(id));
        extend_chars(&mut p, &chars_of("/settings"));
        let p = string_from(&p);
        Some(("settings".to_owned(), url(p.as_str(), None)))
    } else if chars_eq(&t, &chars_of("AdministrativeTemplates")) {
        let mut p = chars_of("/deviceManagement/groupPolicyConfigurations/");
        extend_chars(&mut p, &chars_of(id));
        extend_chars(&mut p, &chars_of("/definitionValues"));
        let p = string_from(&p);
        let q = "$expand=definition($select=id,displayName,categoryPath,classType,policyType),presentationValues($expand=presentation)";
        Some(("definitionValues".to_owned(), url(p.as_str(), Some(q))))
    } else {
        None
    }
}

/// An object with a collection merged in as the member `key`; anything but
/// an object is left as it is.
pub fn merge_collection(object: Json, key: String, items: Vec<Json>) -> (r: Json)
    ensures
        r@ == object@.insert(key@, JsonV::Array(views(items@))),
{
    let a = Json::Array(items);
    assert(a@->Array_0 =~= views(items@));
    object.with_member(key, a)
}

/// What an export writes for an object: the object with its assignments, when
/// it has some, under `assignments`.
pub open spec fn export_object_spec(object: JsonV, assignments: Option<JsonV>) -> JsonV {
    match assignments {
        Some(a) => object.insert("assignments"@, a),
        None => object,
    }
}

/// What an export writes for an object (see `export_object_spec`).
pub fn export_object(object: Json, assignments: &Option<Json>) -> (r: Json)
    ensures
        r@ == export_object_spec(
            object@,
            match assignments {
                Some(a) => Some(a@),
                None => None,
            },
        ),
{
    match assignments {
        Some(a) => object.with_member("assignments".to_owned(), a.deep_clone()),
        None => object,
    }
}

/// An exported object carries its assignments, and every member it had.
pub proof fn law_export_embeds_assignments(object: JsonV, assignments: JsonV)
    requires
        object.wf(),
        assignments.wf(),
        object is Object,
    ensures
        export_object_spec(object, Some(assignments)).get("assignments"@) == Some(assignments),
        forall|k: Seq<char>| k != "assignments"@ ==> #[trigger] export_object_spec(object, Some(assignments)).get(k) == object.get(k),
        export_object_spec(object, Some(assignments)).wf(),
{
    lemma_insert(object, "assignments"@, assignments);
}

/// A path without `.` is its own last segment.
proof fn lemma_last_segment_whole(p: Seq<char>)
    requires
        forall|i: int| 0 <= i < p.len() ==> p[i] != '.',
    ensures
        last_segment(p) == p,
    decreases p.len(),
{
    if p.len() > 0 {
        lemma_last_segment_whole(p.drop_last());
        assert(p.drop_last().push(p.last()) =~= p);
    }
}

/// Comparison ignores an object's `assignments` member.
proof fn lemma_assignments_ignored()
    ensures
        is_ignored("assignments"@),
        !is_ignored(Seq::<char>::empty()),
{
    reveal_strlit("assignments");
    let a = "assignments"@;
    assert forall|i: int| 0 <= i < a.len() implies a[i] != '.' by {
            if i == 0 {
            } else if i == 1 {
            } else if i == 2 {
            } else if i == 3 {
            } else if i == 4 {
            } else if i == 5 {
            } else if i == 6 {
            } else if i == 7 {
            } else if i == 8 {
            } else if i == 9 {
            } else if i == 10 {
            }
    }
    lemma_last_segment_whole(a);
    reveal_strlit("id");
    reveal_strlit("createdDateTime");
    reveal_strlit("lastModifiedDateTime");
    reveal_strlit("version");
    reveal_strlit("@odata.context");
    reveal_strlit("supportsScopeTags");
    reveal_strlit("isAssigned");
    assert(last_segment(Seq::<char>::empty()) == Seq::<char>::empty());
    assert(Seq::<char>::empty().len() != "id"@.len());
}

/// Comparing sorted members with the same members plus an ignored one finds nothing.
proof fn lemma_members_insert_ignored(path: Seq<char>, ks: Seq<Seq<char>>, vs: Seq<JsonV>, p: int, k: Seq<char>, v: JsonV)
    requires
        ks.len() == vs.len(),
        0 <= p <= ks.len(),
        forall|j: int| 0 <= j < p ==> crate::text::seq_lt(#[trigger] ks[j], k),
        forall|j: int| p <= j < ks.len() ==> crate::text::seq_lt(k, #[trigger] ks[j]),
        is_ignored(key_path(path, k)),
    ensures
        diff_members(path, ks, vs, ks.insert(p, k), vs.insert(p, v)) == Seq::<DifferenceV>::empty(),
    decreases ks.len(),
{
    let rk = ks.insert(p, k);
    let rv = vs.insert(p, v);
    if p == 0 {
        assert(rk[0] == k && rv[0] == v);
        if ks.len() > 0 {
            crate::json::lemma_seq_lt_total(k, ks[0]);
        }
        assert(rk.subrange(1, rk.len() as int) =~= ks);
        assert(rv.subrange(1, rv.len() as int) =~= vs);
        lemma_members_same(path, ks, vs);
        assert(added_member(key_path(path, k), v) =~= Seq::<DifferenceV>::empty());
        assert(diff_members(path, ks, vs, rk, rv) =~= Seq::<DifferenceV>::empty());
    } else {
        assert(rk[0] == ks[0] && rv[0] == vs[0]);
        crate::json::lemma_seq_lt_irreflexive(ks[0]);
        law_diff_self(key_path(path, ks[0]), vs[0]);
        let ks1 = ks.subrange(1, ks.len() as int);
        let vs1 = vs.subrange(1, vs.len() as int);
        assert(rk.subrange(1, rk.len() as int) =~= ks1.insert(p - 1, k));
        assert(rv.subrange(1, rv.len() as int) =~= vs1.insert(p - 1, v));
        assert forall|j: int| 0 <= j < p - 1 implies crate::text::seq_lt(#[trigger] ks1[j], k) by {
            assert(ks1[j] == ks[j + 1]);
        }
        assert forall|j: int| p - 1 <= j < ks1.len() implies crate::text::seq_lt(k, #[trigger] ks1[j]) by {
            assert(ks1[j] == ks[j + 1]);
        }
        lemma_members_insert_ignored(path, ks1, vs1, p - 1, k, v);
        assert(diff_members(path, ks, vs, rk, rv) =~= Seq::<DifferenceV>::empty());
    }
}

/// Comparing members with the same members, one ignored value replaced, finds nothing.
proof fn lemma_members_update_ignored(path: Seq<char>, ks: Seq<Seq<char>>, vs: Seq<JsonV>, i: int, v: JsonV)
    requires
        ks.len() == vs.len(),
        0 <= i < ks.len(),
        is_ignored(key_path(path, ks[i])),
    ensures
        diff_members(path, ks, vs, ks, vs.update(i, v)) == Seq::<DifferenceV>::empty(),
    decreases ks.len(),
{
    let rv = vs.update(i, v);
    crate::json::lemma_seq_lt_irreflexive(ks[0]);
    let ks1 = ks.subrange(1, ks.len() as int);
    let vs1 = vs.subrange(1, vs.len() as int);
    if i == 0 {
        assert(rv.subrange(1, rv.len() as int) =~= vs1);
        lemma_members_same(path, ks1, vs1);
        assert(diff(key_path(path, ks[0]), vs[0], rv[0]) =~= Seq::<DifferenceV>::empty());
    } else {
        assert(rv[0] == vs[0]);
        law_diff_self(key_path(path, ks[0]), vs[0]);
        assert(rv.subrange(1, rv.len() as int) =~= vs1.update(i - 1, v));
        assert(ks1[i - 1] == ks[i]);
        lemma_members_update_ignored(path, ks1, vs1, i - 1, v);
    }
    assert(diff_members(path, ks, vs, ks, rv) =~= Seq::<DifferenceV>::empty());
}

/// Comparing members with themselves finds nothing, under any path.
proof fn lemma_members_same(path: Seq<char>, ks: Seq<Seq<char>>, vs: Seq<JsonV>)
    ensures
        diff_members(path, ks, vs, ks, vs) == Seq::<DifferenceV>::empty(),
    decreases vs.len(),
{
    if vs.len() > 0 {
        crate::json::lemma_seq_lt_irreflexive(ks[0]);
        law_diff_self(key_path(path, ks[0]), vs[0]);
        lemma_members_same(path, ks.subrange(1, ks.len() as int), vs.subrange(1, vs.len() as int));
        assert(diff_members(path, ks, vs, ks, vs) =~= Seq::<DifferenceV>::empty());
    }
}

/// An export compares identical to the live object it was made from: the
/// assignments it embeds are ignored by comparison.
pub proof fn law_export_compares_identical(object: JsonV, assignments: JsonV)
    requires
        object.wf(),
        object is Object,
    ensures
        diff(Seq::empty(), object, export_object_spec(object, Some(assignments))) == Seq::<DifferenceV>::empty(),
{
    lemma_assignments_ignored();
    let k = "assignments"@;
    assert(key_path(Seq::empty(), k) == k);
    if let JsonV::Object(ks, vs) = object {
        let i = crate::json::key_index(ks, k);
        if 0 <= i {
            let c = choose|c: int| crate::json::is_first_key(ks, k, c);
            assert(crate::json::is_first_key(ks, k, c));
            crate::json::lemma_key_index(ks, k, c);
            lemma_members_update_ignored(Seq::empty(), ks, vs, i, assignments);
        } else {
            assert forall|n: int| 0 <= n < ks.len() implies ks[n] != k by {
                if ks[n] == k {
                    lemma_first_position(ks, k, n);
                }
            }
            crate::json::lemma_lower_bound_range(ks, k);
            crate::json::lemma_lower_bound_sorted(ks, k);
            lemma_members_insert_ignored(Seq::empty(), ks, vs, crate::json::lower_bound(ks, k), k, assignments);
        }
    }
}

proof fn lemma_kept_insert_dropped(ks: Seq<Seq<char>>, vs: Seq<JsonV>, p: int, k: Seq<char>, v: JsonV)
    requires
        ks.len() == vs.len(),
        0 <= p <= ks.len(),
        import_dropped(k),
    ensures
        kept_members(ks.insert(p, k), vs.insert(p, v)) == kept_members(ks, vs),
    decreases ks.len(),
{
    let rk = ks.insert(p, k);
    let rv = vs.insert(p, v);
    if p == ks.len() {
        assert(rk.drop_last() =~= ks);
        assert(rv.drop_last() =~= vs);
    } else {
        assert(rk.drop_last() =~= ks.drop_last().insert(p, k));
        assert(rv.drop_last() =~= vs.drop_last().insert(p, v));
        assert(rk.last() == ks.last() && rv.last() == vs.last());
        lemma_kept_insert_dropped(ks.drop_last(), vs.drop_last(), p, k, v);
    }
}

proof fn lemma_kept_update_dropped(ks: Seq<Seq<char>>, vs: Seq<JsonV>, i: int, v: JsonV)
    requires
        ks.len() == vs.len(),
        0 <= i < ks.len(),
        import_dropped(ks[i]),
    ensures
        kept_members(ks, vs.update(i, v)) == kept_members(ks, vs),
    decreases ks.len(),
{
    let rv = vs.update(i, v);
    if i == ks.len() - 1 {
        assert(rv.drop_last() =~= vs.drop_last());
    } else {
        assert(rv.drop_last() =~= vs.drop_last().update(i, v));
        assert(rv.last() == vs.last());
        lemma_kept_update_dropped(ks.drop_last(), vs.drop_last(), i, v);
    }
}

/// Importing an export creates what importing the live object would: the
/// assignments an export embeds are dropped again before a create.
pub proof fn law_import_of_export(object: JsonV, assignments: JsonV)
    requires
        object.wf(),
        object is Object,
    ensures
        clean_spec(export_object_spec(object, Some(assignments))) == clean_spec(object),
{
    reveal_strlit("assignments");
    let k = "assignments"@;
    assert(import_dropped(k));
    if let JsonV::Object(ks, vs) = object {
        let i = crate::json::key_index(ks, k);
        if 0 <= i {
            let c = choose|c: int| crate::json::is_first_key(ks, k, c);
            assert(crate::json::is_first_key(ks, k, c));
            crate::json::lemma_key_index(ks, k, c);
            lemma_kept_update_dropped(ks, vs, i, assignments);
        } else {
            crate::json::lemma_lower_bound_range(ks, k);
            lemma_kept_insert_dropped(ks, vs, crate::json::lower_bound(ks, k), k, assignments);
        }
    }
}

/// The ids an export or documentation run was asked for; `None` when it was
/// asked for none, which means every object of the type.
pub fn requested_ids(ids: Option<Vec<String>>) -> (r: Option<Vec<String>>)
    ensures
        match ids {
            Some(v) => if v@.len() > 0 {
                r == Some(v)
            } else {
                r is None
            },
            None => r is None,
        },
{
    match ids {
        Some(v) => if v.len() > 0 {
            Some(v)
        } else {
            None
        },
        None => None,
    }
}

/// The organisation a `/organization` answer names: the display name and id
/// of its first entry, or `None` when it lists none.
pub open spec fn organization_spec(v: JsonV) -> Option<(Option<Seq<char>>, Option<Seq<char>>)> {
    match get_array(v, "value"@) {
        Some(a) => if a.len() > 0 {
            Some((get_str(a[0], "displayName"@), get_str(a[0], "id"@)))
        } else {
            None
        },
        None => None,
    }
}

/// The organisation a `/organization` answer names (see `organization_spec`).
pub fn organization(v: &Json) -> (r: Option<(Option<String>, Option<String>)>)
    ensures
        match r {
            Some((n, i)) => organization_spec(v@) == Some((opt_str(n), opt_str(i))),
            None => organization_spec(v@) is None,
        },
{
    match v.get_array(&chars_of("value")) {
        Some(a) => if a.len() > 0 {
            let org = &a[0];
            let name = clone_opt_string(org.get_str(&chars_of("displayName")));
            let id = clone_opt_string(org.get_str(&chars_of("id")));
            Some((name, id))
        } else {
            None
        },
        None => None,
    }
}

// ---- Results ---------------------------------------------------------------------------------

/// An object with its display name and, when the type has them, its assignments.
pub struct ObjectDetail {
    pub id: String,
    pub name: String,
    pub object: Json,
    pub assignments: Option<Json>,
}

/// One file written by an export.
pub struct ExportedFile {
    pub id: String,
    pub name: String,
    pub path: String,
}

/// What an export of one type wrote.
pub struct ExportResult {
    pub type_id: String,
    pub directory: String,
    pub files: Vec<ExportedFile>,
}

/// The outcome of importing one file.
pub struct ImportResult {
    pub type_id: String,
    pub dry_run: bool,
    /// The cleaned payload that was (or would be) created.
    pub payload: Json,
    /// The created object when `dry_run` is false, otherwise none.
    pub created: Option<Json>,
    pub target_api: String,
}

/// One documentation file written.
pub struct DocExportedFile {
    pub id: String,
    pub name: String,
    pub path: String,
    pub format: DocFormat,
}

/// What a documentation export wrote.
pub struct DocExportResult {
    pub directory: String,
    pub files: Vec<DocExportedFile>,
}

/// Result of copying (cloning) a single object. By default a dry run:
/// `payload` holds exactly what would be created and `created` is none.
pub struct CopyResult {
    pub type_id: String,
    pub source_id: String,
    pub source_name: String,
    pub new_name: String,
    pub payload: Json,
    pub created: Option<Json>,
    pub applied: bool,
    pub target_api: String,
}

/// The copies made by pattern.
pub struct CopyBatchResult {
    pub type_id: String,
    pub pattern: String,
    pub applied: bool,
    pub copies: Vec<CopyResult>,
}

/// Result of exporting several object types at once into one folder tree.
pub struct BulkExportResult {
    pub root: String,
    pub total_files: usize,
    pub results: Vec<ExportResult>,
}

/// One planned or applied create in a bulk import.
pub struct BulkImportItem {
    pub type_id: String,
    pub type_title: String,
    pub file: String,
    pub name: String,
    pub payload: Json,
    pub created: Option<Json>,
    pub error: Option<String>,
}

/// What a bulk import did, or would do.
pub struct BulkImportResult {
    pub root: String,
    pub dry_run: bool,
    /// Type ids in the order they are imported (dependency order).
    pub order: Vec<String>,
    pub items: Vec<BulkImportItem>,
}

/// One file compared against the live tenant in a bulk compare.
pub struct BulkCompareItem {
    pub type_id: String,
    pub type_title: String,
    pub file: String,
    pub name: String,
    pub matched: bool,
    pub identical: bool,
    pub added: usize,
    pub removed: usize,
    pub changed: usize,
    pub error: Option<String>,
}

/// What a bulk compare found.
pub struct BulkCompareResult {
    pub root: String,
    pub items: Vec<BulkCompareItem>,
}

impl BulkCompareItem {
    /// A file whose object has no live counterpart of the same name.
    pub fn unmatched(t: &ObjectType, file: String, name: String) -> (r: BulkCompareItem)
        ensures
            r.type_id@ == t@.id,
            r.type_title@ == t@.title,
            r.file == file,
            r.name == name,
            !r.matched,
            !r.identical,
            r.added == 0 && r.removed == 0 && r.changed == 0,
            r.error is None,
    {
        BulkCompareItem {
            type_id: t.id.clone(),
            type_title: t.title.clone(),
            file,
            name,
            matched: false,
            identical: false,
            added: 0,
            removed: 0,
            changed: 0,
            error: None,
        }
    }

    /// A file compared with its live counterpart.
    pub fn matched(t: &ObjectType, file: String, name: String, cmp: &CompareResult) -> (r: BulkCompareItem)
        ensures
            r.type_id@ == t@.id,
            r.type_title@ == t@.title,
            r.file == file,
            r.name == name,
            r.matched,
            r.identical == cmp.identical,
            r.added == cmp.added,
            r.removed == cmp.removed,
            r.changed == cmp.changed,
            r.error is None,
    {
        BulkCompareItem {
            type_id: t.id.clone(),
            type_title: t.title.clone(),
            file,
            name,
            matched: true,
            identical: cmp.identical,
            added: cmp.added,
            removed: cmp.removed,
            changed: cmp.changed,
            error: None,
        }
    }

    /// A file that could not be compared.
    pub fn failed(t: &ObjectType, file: String, error: String) -> (r: BulkCompareItem)
        ensures
            r.type_id@ == t@.id,
            r.type_title@ == t@.title,
            r.file == file,
            r.name@ == Seq::<char>::empty(),
            !r.matched,
            !r.identical,
            r.added == 0 && r.removed == 0 && r.changed == 0,
            r.error == Some(error),
    {
        BulkCompareItem {
            type_id: t.id.clone(),
            type_title: t.title.clone(),
            file,
            name: String::new(),
            matched: false,
            identical: false,
            added: 0,
            removed: 0,
            changed: 0,
            error: Some(error),
        }
    }
}

/// The id of the first live object whose name equals `name` ignoring ASCII
/// case, among (name, id) pairs.
pub open spec fn live_match(pairs: Seq<(Seq<char>, Seq<char>)>, name: Seq<char>) -> Option<Seq<char>>
    decreases pairs.len(),
{
    if pairs.len() == 0 {
        None
    } else {
        match live_match(pairs.drop_last(), name) {
            Some(id) => Some(id),
            None => if eq_ignore_ascii_case(pairs.last().0, name) {
                Some(pairs.last().1)
            } else {
                None
            },
        }
    }
}

/// The views of (name, id) pairs.
pub open spec fn pair_views(p: Seq<(String, String)>) -> Seq<(Seq<char>, Seq<char>)> {
    p.map_values(|x: (String, String)| (x.0@, x.1@))
}

/// The live object an exported file corresponds to: the first listed object
/// whose name equals the file's object name ignoring ASCII case.
pub fn find_live_id(listed: &Vec<(String, String)>, name: &str) -> (r: Option<String>)
    ensures
        opt_str(r) == live_match(pair_views(listed@), name@),
{
    let ghost ps = pair_views(listed@);
    let key = chars_of(name);
    let mut i: usize = 0;
    assert(ps.subrange(0, 0) =~= Seq::<(Seq<char>, Seq<char>)>::empty());
    while i < listed.len()
        invariant
            i <= listed@.len(),
            ps == pair_views(listed@),
            key@ == name@,
            live_match(ps.subrange(0, i as int), name@) is None,
        decreases listed@.len() - i,
    {
        let ghost pre = ps.subrange(0, i + 1);
        assert(pre.drop_last() =~= ps.subrange(0, i as int));
        assert(pre.last() == (listed@[i as int].0@, listed@[i as int].1@));
        if eq_ignore_ascii_case_exec(&chars_of(listed[i].0.as_str()), &key) {
            proof {
                lemma_live_match_prefix(ps, name@, i + 1);
            }
            return Some(listed[i].1.clone());
        }
        i = i + 1;
    }
    assert(ps.subrange(0, ps.len() as int) =~= ps);
    None
}

/// A match found in a prefix is the match of the whole list.
proof fn lemma_live_match_prefix(ps: Seq<(Seq<char>, Seq<char>)>, name: Seq<char>, n: int)
    requires
        0 <= n <= ps.len(),
        live_match(ps.subrange(0, n), name) is Some,
    ensures
        live_match(ps, name) == live_match(ps.subrange(0, n), name),
    decreases ps.len() - n,
{
    if n < ps.len() {
        assert(ps.subrange(0, n + 1).drop_last() =~= ps.subrange(0, n));
        lemma_live_match_prefix(ps, name, n + 1);
    } else {
        assert(ps.subrange(0, n) =~= ps);
    }
}

// ---- Planning a bulk import ---------------------------------------------------------------------

/// An exported file and the object type its folder maps to.
pub struct TypedFile {
    pub object_type: ObjectType,
    pub path: String,
}

/// The mathematical value of a [`TypedFile`].
pub struct TypedFileV {
    pub object_type: ObjectTypeV,
    pub path: Seq<char>,
}

impl View for TypedFile {
    type V = TypedFileV;

    open spec fn view(&self) -> TypedFileV {
        TypedFileV { object_type: self.object_type@, path: self.path@ }
    }
}

/// The views of typed files.
pub open spec fn file_views(s: Seq<TypedFile>) -> Seq<TypedFileV> {
    s.map_values(|f: TypedFile| f@)
}

/// The order files are imported in: by the import priority of their type,
/// then by the type's title.
pub open spec fn import_key() -> spec_fn(TypedFileV) -> (u32, Seq<char>) {
    |f: TypedFileV| (priority_of(f.object_type.id), f.object_type.title)
}

/// The type ids of files, each once, in the order they first occur.
pub open spec fn distinct_ids(s: Seq<TypedFileV>) -> Seq<Seq<char>>
    decreases s.len(),
{
    if s.len() == 0 {
        Seq::empty()
    } else {
        let d = distinct_ids(s.drop_last());
        if d.contains(s.last().object_type.id) {
            d
        } else {
            d.push(s.last().object_type.id)
        }
    }
}

/// The files of a bulk import in the order they are imported.
pub open spec fn import_plan(files: Seq<TypedFileV>) -> Seq<TypedFileV> {
    sort_by(files, import_key(), num_str_lt())
}

fn insert_file_sorted(keys: &mut Vec<(u32, Vec<char>)>, files: &mut Vec<TypedFile>, key: (u32, Vec<char>), file: TypedFile)
    requires
        old(keys)@.len() == old(files)@.len(),
        forall|j: int|
            0 <= j < old(files)@.len() ==> ((#[trigger] old(keys)@[j]).0, old(keys)@[j].1@) == import_key()(old(files)@[j]@),
        (key.0, key.1@) == import_key()(file@),
    ensures
        final(keys)@.len() == final(files)@.len(),
        forall|j: int|
            0 <= j < final(files)@.len() ==> ((#[trigger] final(keys)@[j]).0, final(keys)@[j].1@) == import_key()(final(files)@[j]@),
        file_views(final(files)@) == insert_by(file_views(old(files)@), file@, import_key(), num_str_lt()),
{
    let ghost sorted = file_views(files@);
    let ghost x = file@;
    let mut p: usize = files.len();
    assert(sorted.subrange(0, sorted.len() as int) =~= sorted);
    assert(sorted.subrange(sorted.len() as int, sorted.len() as int) =~= Seq::<TypedFileV>::empty());
    while p > 0 && (key.0 < keys[p - 1].0 || (key.0 == keys[p - 1].0 && seq_lt_exec(&key.1, &keys[p - 1].1)))
        invariant
            p <= files@.len(),
            keys@.len() == files@.len(),
            (key.0, key.1@) == import_key()(x),
            x == file@,
            sorted == file_views(files@),
            forall|j: int| 0 <= j < files@.len() ==> ((#[trigger] keys@[j]).0, keys@[j].1@) == import_key()(files@[j]@),
            insert_by(sorted, x, import_key(), num_str_lt()) == insert_by(sorted.subrange(0, p as int), x, import_key(), num_str_lt())
                + sorted.subrange(p as int, sorted.len() as int),
        decreases p,
    {
        let ghost pre = sorted.subrange(0, p as int);
        assert(pre.drop_last() =~= sorted.subrange(0, p - 1));
        assert(pre.last() == files@[p - 1]@);
        assert(((keys@[p - 1]).0, keys@[p - 1].1@) == import_key()(files@[p - 1]@));
        assert(num_str_lt()(import_key()(x), import_key()(pre.last())));
        assert(insert_by(pre, x, import_key(), num_str_lt()) == insert_by(pre.drop_last(), x, import_key(), num_str_lt()).push(
            pre.last(),
        ));
        assert(insert_by(sorted.subrange(0, p - 1), x, import_key(), num_str_lt()).push(pre.last()) + sorted.subrange(
            p as int,
            sorted.len() as int,
        ) =~= insert_by(sorted.subrange(0, p - 1), x, import_key(), num_str_lt()) + sorted.subrange(
            p - 1,
            sorted.len() as int,
        ));
        p = p - 1;
    }
    proof {
        let pre = sorted.subrange(0, p as int);
        if p > 0 {
            assert(pre.last() == files@[p - 1]@);
            assert(((keys@[p - 1]).0, keys@[p - 1].1@) == import_key()(files@[p - 1]@));
            assert(!num_str_lt()(import_key()(x), import_key()(pre.last())));
            assert(insert_by(pre, x, import_key(), num_str_lt()) == pre.push(x));
        } else {
            assert(insert_by(pre, x, import_key(), num_str_lt()) == seq![x]);
        }
    }
    keys.insert(p, key);
    files.insert(p, file);
    assert(file_views(files@) =~= insert_by(sorted, x, import_key(), num_str_lt())) by {
        assert(file_views(files@) =~= sorted.subrange(0, p as int).push(x) + sorted.subrange(p as int, sorted.len() as int));
    }
}

fn contains_string(v: &Vec<String>, s: &String) -> (r: bool)
    ensures
        r == v@.map_values(|x: String| x@).contains(s@),
{
    let ghost vs = v@.map_values(|x: String| x@);
    let sc = chars_of(s.as_str());
    let mut i: usize = 0;
    while i < v.len()
        invariant
            i <= v@.len(),
            vs == v@.map_values(|x: String| x@),
            sc@ == s@,
            forall|j: int| 0 <= j < i ==> vs[j] != s@,
        decreases v@.len() - i,
    {
        if chars_eq(&chars_of(v[i].as_str()), &sc) {
            assert(vs[i as int] == s@);
            return true;
        }
        i = i + 1;
    }
    false
}

/// Plan a bulk import: the files in dependency order (by the import priority
/// of their type, then by type title, keeping the given order otherwise), and
/// the type ids in the order they are imported.
pub fn plan_import(files: Vec<TypedFile>) -> (r: (Vec<TypedFile>, Vec<String>))
    ensures
        file_views(r.0@) == import_plan(file_views(files@)),
        r.1@.map_values(|x: String| x@) == distinct_ids(import_plan(file_views(files@))),
{
    let ghost fv = file_views(files@);
    let mut keys: Vec<(u32, Vec<char>)> = Vec::new();
    let mut sorted: Vec<TypedFile> = Vec::new();
    let mut rest = files;
    assert(file_views(rest@) =~= fv.subrange(0, fv.len() as int));
    assert(fv.subrange(0, 0) =~= Seq::<TypedFileV>::empty());
    let mut i: usize = 0;
    let n = rest.len();
    while rest.len() > 0
        invariant
            i + rest@.len() == n,
            n == fv.len(),
            file_views(rest@) == fv.subrange(i as int, n as int),
            keys@.len() == sorted@.len(),
            forall|j: int|
                0 <= j < sorted@.len() ==> ((#[trigger] keys@[j]).0, keys@[j].1@) == import_key()(sorted@[j]@),
            file_views(sorted@) == sort_by(fv.subrange(0, i as int), import_key(), num_str_lt()),
        decreases rest@.len(),
    {
        let ghost before_rest = file_views(rest@);
        let f = rest.remove(0);
        assert(f@ == fv[i as int]) by {
            assert(before_rest[0] == fv.subrange(i as int, n as int)[0]);
        }
        assert(file_views(rest@) =~= fv.subrange(i + 1, n as int)) by {
            assert(file_views(rest@) =~= before_rest.drop_first());
        }
        let key = (import_priority(f.object_type.id.as_str()), chars_of(f.object_type.title.as_str()));
        proof {
            assert(fv.subrange(0, i + 1).drop_last() =~= fv.subrange(0, i as int));
            assert(fv.subrange(0, i + 1).last() == f@);
        }
        insert_file_sorted(&mut keys, &mut sorted, key, f);
        i = i + 1;
    }
    assert(fv.subrange(0, fv.len() as int) =~= fv);
    let ghost plan = file_views(sorted@);
    let mut order: Vec<String> = Vec::new();
    let mut j: usize = 0;
    assert(plan.subrange(0, 0) =~= Seq::<TypedFileV>::empty());
    while j < sorted.len()
        invariant
            j <= sorted@.len(),
            plan == file_views(sorted@),
            order@.map_values(|x: String| x@) == distinct_ids(plan.subrange(0, j as int)),
        decreases sorted@.len() - j,
    {
        let ghost pre = plan.subrange(0, j + 1);
        assert(pre.drop_last() =~= plan.subrange(0, j as int));
        assert(pre.last() == sorted@[j as int]@);
        let id = &sorted[j].object_type.id;
        if !contains_string(&order, id) {
            let ghost before = order@;
            order.push(id.clone());
            assert(order@.map_values(|x: String| x@) =~= before.map_values(|x: String| x@).push(id@));
        }
        j = j + 1;
    }
    assert(plan.subrange(0, plan.len() as int) =~= plan);
    (sorted, order)
}

proof fn lemma_distinct_ids(s: Seq<TypedFileV>)
    ensures
        forall|a: int, b: int| 0 <= a < b < distinct_ids(s).len() ==> distinct_ids(s)[a] != distinct_ids(s)[b],
        forall|i: int| 0 <= i < s.len() ==> distinct_ids(s).contains(#[trigger] s[i].object_type.id),
        forall|a: int|
            0 <= a < distinct_ids(s).len() ==> exists|i: int| 0 <= i < s.len() && #[trigger] distinct_ids(s)[a] == s[i].object_type.id,
    decreases s.len(),
{
    if s.len() > 0 {
        let init = s.drop_last();
        lemma_distinct_ids(init);
        let d = distinct_ids(init);
        let r = distinct_ids(s);
        assert forall|i: int| 0 <= i < s.len() implies r.contains(#[trigger] s[i].object_type.id) by {
            if i < s.len() - 1 {
                assert(init[i] == s[i]);
                assert(d.contains(init[i].object_type.id));
                let k = choose|k: int| 0 <= k < d.len() && d[k] == init[i].object_type.id;
                assert(r[k] == d[k]);
            } else {
                if !d.contains(s.last().object_type.id) {
                    assert(r[r.len() - 1] == s.last().object_type.id);
                }
            }
        }
        assert forall|a: int| 0 <= a < r.len() implies exists|i: int| 0 <= i < s.len() && #[trigger] r[a] == s[i].object_type.id by {
            if a < d.len() {
                let i = choose|i: int| 0 <= i < init.len() && d[a] == init[i].object_type.id;
                assert(s[i] == init[i]);
                assert(r[a] == d[a]);
            } else {
                assert(r[a] == s[s.len() - 1].object_type.id);
            }
        }
    }
}

/// A bulk import goes in dependency order: no file comes after one whose type
/// has a higher priority, or the same priority and a later title. It imports
/// exactly the files found, and names each type once, in the order its files
/// are imported.
pub proof fn law_import_plan(files: Seq<TypedFileV>)
    ensures
        sorted_by(import_plan(files), import_key(), num_str_lt()),
        import_plan(files).to_multiset() == files.to_multiset(),
        forall|a: int, b: int|
            0 <= a < b < distinct_ids(import_plan(files)).len() ==> distinct_ids(import_plan(files))[a] != distinct_ids(
                import_plan(files),
            )[b],
        forall|i: int| 0 <= i < files.len() ==> distinct_ids(import_plan(files)).contains(#[trigger] files[i].object_type.id),
{
    broadcast use vstd::seq_lib::group_seq_properties;
    lemma_num_str_lt_order();
    law_sort_sorted(files, import_key(), num_str_lt());
    law_sort_permutes(files, import_key(), num_str_lt());
    let plan = import_plan(files);
    lemma_distinct_ids(plan);
    assert forall|i: int| 0 <= i < files.len() implies distinct_ids(plan).contains(#[trigger] files[i].object_type.id) by {
        assert(files.to_multiset().count(files[i]) > 0);
        assert(plan.to_multiset().count(files[i]) > 0);
        assert(plan.contains(files[i]));
        let k = choose|k: int| 0 <= k < plan.len() && plan[k] == files[i];
        assert(distinct_ids(plan).contains(plan[k].object_type.id));
    }
}

/// In a bulk import, a file of a type with a lower priority comes before every
/// file of a type with a higher one.
pub proof fn law_plan_respects_priority(files: Seq<TypedFileV>, i: int, j: int)
    requires
        0 <= i < import_plan(files).len(),
        0 <= j < import_plan(files).len(),
        priority_of(import_plan(files)[i].object_type.id) < priority_of(import_plan(files)[j].object_type.id),
    ensures
        i < j,
{
    let plan = import_plan(files);
    lemma_num_str_lt_order();
    law_sort_sorted(files, import_key(), num_str_lt());
    if j <= i {
        if j < i {
            assert(!num_str_lt()(import_key()(plan[i]), import_key()(plan[j])));
        }
    }
}

/// Applications are created before the app protection and app configuration
/// policies that target them: in a bulk import every `Applications` file
/// comes before every `AppProtection`, `AppConfigurationManagedApp` and
/// `AppConfigurationManagedDevice` file, and every `ScopeTags` file comes
/// before every file of another type.
pub proof fn law_applications_before_app_policies(files: Seq<TypedFileV>, i: int, j: int)
    requires
        0 <= i < import_plan(files).len(),
        0 <= j < import_plan(files).len(),
    ensures
        import_plan(files)[i].object_type.id == "Applications"@ && (import_plan(files)[j].object_type.id == "AppProtection"@
            || import_plan(files)[j].object_type.id == "AppConfigurationManagedApp"@
            || import_plan(files)[j].object_type.id == "AppConfigurationManagedDevice"@) ==> i < j,
        import_plan(files)[i].object_type.id == "ScopeTags"@ && import_plan(files)[j].object_type.id != "ScopeTags"@ ==> i < j,
{
    let plan = import_plan(files);
    law_priority_table();
    let a = plan[i].object_type.id;
    let b = plan[j].object_type.id;
    if a == "Applications"@ && (b == "AppProtection"@ || b == "AppConfigurationManagedApp"@ || b == "AppConfigurationManagedDevice"@) {
        law_plan_respects_priority(files, i, j);
    }
    if a == "ScopeTags"@ && b != "ScopeTags"@ {
        lemma_scope_tags_first(b);
        law_plan_respects_priority(files, i, j);
    }
}

// ---- Writing to the tenant ----------------------------------------------------------------------

/// Whether creates are enabled: only when `INTUNE_ALLOW_WRITES` is exactly `1`.
pub open spec fn writes_enabled(allow_writes: Option<Seq<char>>) -> bool {
    allow_writes == Some("1"@)
}

/// Creates are double-gated: refused with an explanation unless
/// `INTUNE_ALLOW_WRITES` (passed in as read from the environment) is `1`.
pub fn write_gate(allow_writes: Option<&str>) -> (r: Result<(), CoreError>)
    ensures
        match r {
            Ok(()) => writes_enabled(
                match allow_writes {
                    Some(a) => Some(a@),
                    None => None,
                },
            ),
            Err(e) => !writes_enabled(
                match allow_writes {
                    Some(a) => Some(a@),
                    None => None,
                },
            ) && (e matches CoreError::Other(m) && m@ == "Writes are disabled. Set INTUNE_ALLOW_WRITES=1 to allow creating objects."@),
        },
{
    let enabled = match allow_writes {
        Some(a) => chars_eq(&chars_of(a), &chars_of("1")),
        None => false,
    };
    if enabled {
        Ok(())
    } else {
        Err(CoreError::Other("Writes are disabled. Set INTUNE_ALLOW_WRITES=1 to allow creating objects.".to_owned()))
    }
}

/// What a create's answer means: a failure status is a Graph error carrying
/// the body; a success is the created object, parsed when the body parses,
/// else null.
pub fn create_outcome(status: u16, body: String, parsed: Option<Json>) -> (r: Result<Option<Json>, CoreError>)
    ensures
        200 <= status <= 299 ==> (r matches Ok(Some(j)) && j@ == match parsed {
            Some(p) => p@,
            None => JsonV::Null,
        }),
        !(200 <= status <= 299) ==> (r matches Err(CoreError::Graph { status: s, message }) && s == status && message@ == body@),
{
    if 200 <= status && status <= 299 {
        match parsed {
            Some(p) => Ok(Some(p)),
            None => Ok(Some(Json::Null)),
        }
    } else {
        Err(CoreError::Graph { status, message: body })
    }
}

// ---- Importing, step by step --------------------------------------------------------------------

/// Whether an import is a dry run: it is unless `dry_run: false` was passed
/// explicitly.
pub fn dry_run_or_default(dry_run: Option<bool>) -> (r: bool)
    ensures
        r == match dry_run {
            Some(d) => d,
            None => true,
        },
{
    match dry_run {
        Some(d) => d,
        None => true,
    }
}

/// What importing one parsed file is to do: create `payload` at `target_api`
/// only when `create` holds, which is when the import is no dry run.
pub struct ImportPlan {
    pub name: String,
    pub payload: Json,
    pub target_api: String,
    pub create: bool,
}

/// Plan the import of a parsed object of type `t`: its display name, the
/// payload a create takes, where it is created, and whether it is created at
/// all (never in a dry run).
pub fn plan_object_import(t: &ObjectType, parsed: Json, dry_run: bool) -> (r: ImportPlan)
    ensures
        r.name@ == display_name_spec(parsed@, t@.name_property),
        r.payload@ == clean_spec(parsed@),
        r.target_api@ == url_spec(t@.api, None),
        r.create == !dry_run,
{
    let name = display_name(&parsed, t.name_property.as_str());
    let payload = clean_for_import(parsed);
    ImportPlan { name, payload, target_api: create_url(t), create: !dry_run }
}

/// The views of an optional value.
pub open spec fn opt_json(o: Option<Json>) -> Option<JsonV> {
    match o {
        Some(j) => Some(j@),
        None => None,
    }
}

impl ImportResult {
    /// The result of importing one file: what was (or would be) created,
    /// and what Graph created, which is nothing in a dry run.
    pub fn from_plan(t: &ObjectType, dry_run: bool, plan: ImportPlan, created: Option<Json>) -> (r: ImportResult)
        ensures
            r.type_id@ == t@.id,
            r.dry_run == dry_run,
            r.payload@ == plan.payload@,
            r.target_api@ == plan.target_api@,
            opt_json(r.created) == if plan.create { opt_json(created) } else { None },
    {
        let created = if plan.create { created } else { None };
        ImportResult { type_id: t.id.clone(), dry_run, payload: plan.payload, created, target_api: plan.target_api }
    }
}

impl BulkImportItem {
    /// A file of a bulk import that could not be read or parsed: no name, a
    /// null payload, nothing created, and the error.
    pub fn failed(t: &ObjectType, file: String, error: String) -> (r: BulkImportItem)
        ensures
            r.type_id@ == t@.id,
            r.type_title@ == t@.title,
            r.file == file,
            r.name@ == Seq::<char>::empty(),
            r.payload@ == JsonV::Null,
            r.created is None,
            r.error == Some(error),
    {
        BulkImportItem {
            type_id: t.id.clone(),
            type_title: t.title.clone(),
            file,
            name: String::new(),
            payload: Json::Null,
            created: None,
            error: Some(error),
        }
    }

    /// A file of a bulk import that was planned: in a dry run (`outcome` is
    /// none) nothing is created and there is no error; otherwise what the
    /// create gave, or the message of its error.
    pub fn planned(t: &ObjectType, file: String, plan: ImportPlan, outcome: Option<Result<Option<Json>, CoreError>>) -> (r: BulkImportItem)
        ensures
            r.type_id@ == t@.id,
            r.type_title@ == t@.title,
            r.file == file,
            r.name@ == plan.name@,
            r.payload@ == plan.payload@,
            plan.create ==> match outcome {
                Some(Ok(c)) => opt_json(r.created) == opt_json(c) && r.error is None,
                Some(Err(e)) => r.created is None && (r.error matches Some(m) && m@ == message_of(e)),
                None => r.created is None && r.error is None,
            },
            !plan.create ==> r.created is None && r.error is None,
    {
        let (created, error) = if !plan.create {
            (None, None)
        } else {
            match outcome {
                Some(Ok(c)) => (c, None),
                Some(Err(e)) => (None, Some(ErrorBody::from_error(&e).message)),
                None => (None, None),
            }
        };
        BulkImportItem {
            type_id: t.id.clone(),
            type_title: t.title.clone(),
            file,
            name: plan.name,
            payload: plan.payload,
            created,
            error,
        }
    }
}

/// The type an id names, or the error for an unknown type. A request names
/// its type before anything else is looked at.
pub fn require_type(catalog: &Vec<ObjectType>, type_id: &str) -> (r: Result<ObjectType, CoreError>)
    ensures
        match r {
            Ok(t) => find_first(tviews(catalog@), has_id(type_id@)) == Some(t@),
            Err(e) => find_first(tviews(catalog@), has_id(type_id@)) is None && (e matches CoreError::UnknownType(m) && m@ == type_id@),
        },
{
    match find(catalog, type_id) {
        Some(t) => Ok(t),
        None => Err(CoreError::UnknownType(type_id.to_owned())),
    }
}

/// Whether a name contains a pattern, ignoring case.
pub open spec fn name_matches(name: Seq<char>, pattern: Seq<char>) -> bool {
    contains_sub(unicode_to_lowercase(name), unicode_to_lowercase(pattern))
}

/// The listed objects whose name contains `pattern`, ignoring case, in order.
pub open spec fn select_by_name_spec(items: Seq<ListItemV>, pattern: Seq<char>) -> Seq<ListItemV>
    decreases items.len(),
{
    if items.len() == 0 {
        Seq::empty()
    } else {
        select_by_name_spec(items.drop_last(), pattern) + if name_matches(items.last().name, pattern) {
            seq![items.last()]
        } else {
            Seq::empty()
        }
    }
}

/// The objects a copy by pattern copies: those whose name contains the
/// pattern, ignoring case, in listing order.
pub fn select_by_name(items: Vec<ListItem>, pattern: &str) -> (r: Vec<ListItem>)
    ensures
        item_views(r@) == select_by_name_spec(item_views(items@), pattern@),
{
    let ghost iv = item_views(items@);
    let pat = lowercase_chars(&chars_of(pattern));
    let mut rest = items;
    let mut out: Vec<ListItem> = Vec::new();
    let n = rest.len();
    let mut i: usize = 0;
    assert(rest@.map_values(|x: ListItem| x@) =~= iv.subrange(0, n as int));
    assert(iv.subrange(0, 0) =~= Seq::<ListItemV>::empty());
    while rest.len() > 0
        invariant
            i + rest@.len() == n,
            n == iv.len(),
            item_views(rest@) == iv.subrange(i as int, n as int),
            pat@ == unicode_to_lowercase(pattern@),
            item_views(out@) == select_by_name_spec(iv.subrange(0, i as int), pattern@),
        decreases rest@.len(),
    {
        let ghost before = item_views(rest@);
        let item = rest.remove(0);
        assert(item@ == iv[i as int]) by {
            assert(before[0] == iv.subrange(i as int, n as int)[0]);
        }
        assert(item_views(rest@) =~= iv.subrange(i + 1, n as int)) by {
            assert(item_views(rest@) =~= before.drop_first());
        }
        assert(iv.subrange(0, i + 1).drop_last() =~= iv.subrange(0, i as int));
        let name = lowercase_chars(&chars_of(item.name.as_str()));
        if contains_exec(&name, &pat) {
            let ghost prev = item_views(out@);
            out.push(item);
            assert(item_views(out@) =~= prev + seq![iv[i as int]]);
        } else {
            assert(select_by_name_spec(iv.subrange(0, i + 1), pattern@) =~= select_by_name_spec(iv.subrange(0, i as int), pattern@));
        }
        i = i + 1;
    }
    assert(iv.subrange(0, n as int) =~= iv);
    out
}

} // verus!
