//! The object types the app can browse, export and import, and the order in
//! which a bulk import creates them.
use vstd::prelude::*;
use crate::text::{ascii_lower, chars_eq, chars_of, eq_ignore_ascii_case, eq_ignore_ascii_case_exec};

verus! {

/// A single Intune / Azure AD object type.
#[derive(Debug, Clone)]
pub struct ObjectType {
    pub id: String,
    pub title: String,
    /// Graph beta API path, e.g. `/deviceManagement/deviceConfigurations`.
    pub api: String,
    pub group: String,
    pub group_order: i64,
    /// Property holding the human friendly name (usually `displayName`, sometimes `name`).
    pub name_property: String,
    /// Extra `$filter`/`$select` query fragment used when listing.
    pub query_list: Option<String>,
    /// `$expand` clause used when fetching a single object.
    pub expand: Option<String>,
    /// Whether the type supports group assignments.
    pub assignments: bool,
    /// For endpoints that multiplex several types, keep only list results whose
    /// `@odata.type` contains one of these (comma-separated) substrings.
    pub odata_type_filter: Option<String>,
    /// For multiplexed endpoints, drop list results whose `@odata.type` contains
    /// one of these (comma-separated) substrings. Applied after `odata_type_filter`.
    pub odata_type_exclude: Option<String>,
    pub icon: String,
}

/// The mathematical value of an [`ObjectType`].
pub struct ObjectTypeV {
    pub id: Seq<char>,
    pub title: Seq<char>,
    pub api: Seq<char>,
    pub group: Seq<char>,
    pub group_order: int,
    pub name_property: Seq<char>,
    pub query_list: Option<Seq<char>>,
    pub expand: Option<Seq<char>>,
    pub assignments: bool,
    pub odata_type_filter: Option<Seq<char>>,
    pub odata_type_exclude: Option<Seq<char>>,
    pub icon: Seq<char>,
}

/// The view of an optional string.
pub open spec fn opt_str(o: Option<String>) -> Option<Seq<char>> {
    match o {
        Some(s) => Some(s@),
        None => None,
    }
}

impl View for ObjectType {
    type V = ObjectTypeV;

    open spec fn view(&self) -> ObjectTypeV {
        ObjectTypeV {
            id: self.id@,
            title: self.title@,
            api: self.api@,
            group: self.group@,
            group_order: self.group_order as int,
            name_property: self.name_property@,
            query_list: opt_str(self.query_list),
            expand: opt_str(self.expand),
            assignments: self.assignments,
            odata_type_filter: opt_str(self.odata_type_filter),
            odata_type_exclude: opt_str(self.odata_type_exclude),
            icon: self.icon@,
        }
    }
}

/// A copy of an optional string.
pub fn clone_opt(o: &Option<String>) -> (r: Option<String>)
    ensures
        opt_str(r) == opt_str(*o),
{
    match o {
        Some(s) => Some(s.clone()),
        None => None,
    }
}

impl ObjectType {
    /// A copy of the type with the same view.
    pub fn duplicate(&self) -> (r: ObjectType)
        ensures
            r@ == self@,
    {
        ObjectType {
            id: self.id.clone(),
            title: self.title.clone(),
            api: self.api.clone(),
            group: self.group.clone(),
            group_order: self.group_order,
            name_property: self.name_property.clone(),
            query_list: clone_opt(&self.query_list),
            expand: clone_opt(&self.expand),
            assignments: self.assignments,
            odata_type_filter: clone_opt(&self.odata_type_filter),
            odata_type_exclude: clone_opt(&self.odata_type_exclude),
            icon: self.icon.clone(),
        }
    }
}

/// The views of a catalog.
pub open spec fn tviews(c: Seq<ObjectType>) -> Seq<ObjectTypeV> {
    c.map_values(|t: ObjectType| t@)
}

/// `i` is the first position in `c` whose entry satisfies `p`.
pub open spec fn first_match(c: Seq<ObjectTypeV>, p: spec_fn(ObjectTypeV) -> bool, i: int) -> bool {
    0 <= i < c.len() && p(c[i]) && forall|j: int| 0 <= j < i ==> !p(#[trigger] c[j])
}

/// The first entry of `c` satisfying `p`, as `Iterator::find` gives it.
pub open spec fn find_first(c: Seq<ObjectTypeV>, p: spec_fn(ObjectTypeV) -> bool) -> Option<ObjectTypeV> {
    if exists|i: int| first_match(c, p, i) {
        Some(c[choose|i: int| first_match(c, p, i)])
    } else {
        None
    }
}

/// The first position is unique.
pub proof fn lemma_first_match_unique(c: Seq<ObjectTypeV>, p: spec_fn(ObjectTypeV) -> bool, i: int)
    requires
        first_match(c, p, i),
    ensures
        find_first(c, p) == Some(c[i]),
{
    let k = choose|k: int| first_match(c, p, k);
    assert(first_match(c, p, k));
    if k < i {
        assert(!p(c[k]));
    } else if i < k {
        assert(!p(c[i]));
    }
}

/// The predicate "has this id".
pub open spec fn has_id(id: Seq<char>) -> spec_fn(ObjectTypeV) -> bool {
    |t: ObjectTypeV| t.id == id
}

/// The predicate "has this title, ignoring ASCII case".
pub open spec fn has_title(title: Seq<char>) -> spec_fn(ObjectTypeV) -> bool {
    |t: ObjectTypeV| eq_ignore_ascii_case(t.title, title)
}

/// Find an object type by its stable id: the first entry of `catalog` with that id.
pub fn find(catalog: &Vec<ObjectType>, id: &str) -> (r: Option<ObjectType>)
    ensures
        match r {
            Some(t) => find_first(tviews(catalog@), has_id(id@)) == Some(t@),
            None => find_first(tviews(catalog@), has_id(id@)) is None,
        },
{
    let ghost c = tviews(catalog@);
    let ghost p = has_id(id@);
    let key = chars_of(id);
    let mut i: usize = 0;
    while i < catalog.len()
        invariant
            i <= catalog@.len(),
            c == tviews(catalog@),
            p == has_id(id@),
            key@ == id@,
            forall|j: int| 0 <= j < i ==> !p(#[trigger] c[j]),
        decreases catalog@.len() - i,
    {
        let t = &catalog[i];
        if chars_eq(&chars_of(t.id.as_str()), &key) {
            proof {
                assert(c[i as int] == t@);
                assert(first_match(c, p, i as int));
                lemma_first_match_unique(c, p, i as int);
            }
            return Some(t.duplicate());
        }
        assert(!p(c[i as int]));
        i = i + 1;
    }
    proof {
        assert forall|k: int| !first_match(c, p, k) by {
            if 0 <= k < c.len() {
                assert(!p(c[k]));
            }
        }
    }
    None
}

/// Find an object type by its human title, ignoring ASCII case (used to map
/// export subfolders back to types).
pub fn find_by_title(catalog: &Vec<ObjectType>, title: &str) -> (r: Option<ObjectType>)
    ensures
        match r {
            Some(t) => find_first(tviews(catalog@), has_title(title@)) == Some(t@),
            None => find_first(tviews(catalog@), has_title(title@)) is None,
        },
{
    let ghost c = tviews(catalog@);
    let ghost p = has_title(title@);
    let key = chars_of(title);
    let mut i: usize = 0;
    while i < catalog.len()
        invariant
            i <= catalog@.len(),
            c == tviews(catalog@),
            p == has_title(title@),
            key@ == title@,
            forall|j: int| 0 <= j < i ==> !p(#[trigger] c[j]),
        decreases catalog@.len() - i,
    {
        let t = &catalog[i];
        if eq_ignore_ascii_case_exec(&chars_of(t.title.as_str()), &key) {
            proof {
                assert(c[i as int] == t@);
                assert(first_match(c, p, i as int));
                lemma_first_match_unique(c, p, i as int);
            }
            return Some(t.duplicate());
        }
        assert(!p(c[i as int]));
        i = i + 1;
    }
    proof {
        assert forall|k: int| !first_match(c, p, k) by {
            if 0 <= k < c.len() {
                assert(!p(c[k]));
            }
        }
    }
    None
}

/// The import priority of a type id: lower values are imported first.
pub open spec fn priority_of(type_id: Seq<char>) -> u32 {
    if type_id == "ScopeTags"@ {
        0
    } else if type_id == "RoleDefinitions"@ {
        5
    } else if type_id == "AssignmentFilters"@ {
        10
    } else if type_id == "DeviceCategories"@ {
        15
    } else if type_id == "Locations"@ || type_id == "NamedLocations"@ {
        20
    } else if type_id == "Notifications"@ || type_id == "TermsOfUse"@ || type_id == "TermsAndConditions"@ {
        25
    } else if type_id == "ReusableSettings"@ {
        30
    } else if type_id == "ComplianceScripts"@ || type_id == "DeviceHealthScripts"@ || type_id == "PowerShellScripts"@
        || type_id == "MacScripts"@ || type_id == "MacCustomAttributes"@ {
        35
    } else if type_id == "AuthenticationContext"@ || type_id == "AuthenticationStrengths"@ {
        40
    } else if type_id == "Applications"@ {
        50
    } else if type_id == "AppConfigurationManagedApp"@ || type_id == "AppConfigurationManagedDevice"@
        || type_id == "AppProtection"@ {
        110
    } else if type_id == "ConditionalAccess"@ {
        900
    } else if type_id == "PolicySets"@ {
        950
    } else {
        100
    }
}

fn equals_lit(s: &Vec<char>, lit: &str) -> (r: bool)
    ensures
        r == (s@ == lit@),
{
    chars_eq(s, &chars_of(lit))
}

/// Dependency import priority: lower values are imported first. Objects that are
/// referenced by others (scope tags, filters, scripts, apps) come before the
/// policies that use them; aggregates like Policy Sets come last.
pub fn import_priority(type_id: &str) -> (r: u32)
    ensures
        r == priority_of(type_id@),
{
    let t = chars_of(type_id);
    if equals_lit(&t, "ScopeTags") {
        0
    } else if equals_lit(&t, "RoleDefinitions") {
        5
    } else if equals_lit(&t, "AssignmentFilters") {
        10
    } else if equals_lit(&t, "DeviceCategories") {
        15
    } else if equals_lit(&t, "Locations") || equals_lit(&t, "NamedLocations") {
        20
    } else if equals_lit(&t, "Notifications") || equals_lit(&t, "TermsOfUse") || equals_lit(&t, "TermsAndConditions") {
        25
    } else if equals_lit(&t, "ReusableSettings") {
        30
    } else if equals_lit(&t, "ComplianceScripts") || equals_lit(&t, "DeviceHealthScripts") || equals_lit(&t, "PowerShellScripts") || equals_lit(&t, "MacScripts") || equals_lit(&t, "MacCustomAttributes") {
        35
    } else if equals_lit(&t, "AuthenticationContext") || equals_lit(&t, "AuthenticationStrengths") {
        40
    } else if equals_lit(&t, "Applications") {
        50
    } else if equals_lit(&t, "AppConfigurationManagedApp") || equals_lit(&t, "AppConfigurationManagedDevice") || equals_lit(&t, "AppProtection") {
        110
    } else if equals_lit(&t, "ConditionalAccess") {
        900
    } else if equals_lit(&t, "PolicySets") {
        950
    } else {
        100
    }
}

/// Policy Sets, which aggregate other objects, are imported last: every other
/// type id has a lower priority.
pub proof fn law_policy_sets_last(type_id: Seq<char>)
    requires
        type_id != "PolicySets"@,
    ensures
        priority_of(type_id) < priority_of("PolicySets"@),
{
    reveal_strlit("PolicySets");
    let p = "PolicySets"@;
    reveal_strlit("ScopeTags");
    assert(p.len() != "ScopeTags"@.len() || p[0] != "ScopeTags"@[0]);
    reveal_strlit("RoleDefinitions");
    assert(p.len() != "RoleDefinitions"@.len() || p[0] != "RoleDefinitions"@[0]);
    reveal_strlit("AssignmentFilters");
    assert(p.len() != "AssignmentFilters"@.len() || p[0] != "AssignmentFilters"@[0]);
    reveal_strlit("DeviceCategories");
    assert(p.len() != "DeviceCategories"@.len() || p[0] != "DeviceCategories"@[0]);
    reveal_strlit("Locations");
    assert(p.len() != "Locations"@.len() || p[0] != "Locations"@[0]);
    reveal_strlit("NamedLocations");
    assert(p.len() != "NamedLocations"@.len() || p[0] != "NamedLocations"@[0]);
    reveal_strlit("Notifications");
    assert(p.len() != "Notifications"@.len() || p[0] != "Notifications"@[0]);
    reveal_strlit("TermsOfUse");
    assert(p.len() != "TermsOfUse"@.len() || p[0] != "TermsOfUse"@[0]);
    reveal_strlit("TermsAndConditions");
    assert(p.len() != "TermsAndConditions"@.len() || p[0] != "TermsAndConditions"@[0]);
    reveal_strlit("ReusableSettings");
    assert(p.len() != "ReusableSettings"@.len() || p[0] != "ReusableSettings"@[0]);
    reveal_strlit("ComplianceScripts");
    assert(p.len() != "ComplianceScripts"@.len() || p[0] != "ComplianceScripts"@[0]);
    reveal_strlit("DeviceHealthScripts");
    assert(p.len() != "DeviceHealthScripts"@.len() || p[0] != "DeviceHealthScripts"@[0]);
    reveal_strlit("PowerShellScripts");
    assert(p.len() != "PowerShellScripts"@.len() || p[0] != "PowerShellScripts"@[0]);
    reveal_strlit("MacScripts");
    assert(p.len() != "MacScripts"@.len() || p[0] != "MacScripts"@[0]);
    reveal_strlit("MacCustomAttributes");
    assert(p.len() != "MacCustomAttributes"@.len() || p[0] != "MacCustomAttributes"@[0]);
    reveal_strlit("AuthenticationContext");
    assert(p.len() != "AuthenticationContext"@.len() || p[0] != "AuthenticationContext"@[0]);
    reveal_strlit("AuthenticationStrengths");
    assert(p.len() != "AuthenticationStrengths"@.len() || p[0] != "AuthenticationStrengths"@[0]);
    reveal_strlit("Applications");
    assert(p.len() != "Applications"@.len() || p[0] != "Applications"@[0]);
    reveal_strlit("AppConfigurationManagedApp");
    assert(p.len() != "AppConfigurationManagedApp"@.len() || p[0] != "AppConfigurationManagedApp"@[0]);
    reveal_strlit("AppConfigurationManagedDevice");
    assert(p.len() != "AppConfigurationManagedDevice"@.len() || p[0] != "AppConfigurationManagedDevice"@[0]);
    reveal_strlit("AppProtection");
    assert(p.len() != "AppProtection"@.len() || p[0] != "AppProtection"@[0]);
    reveal_strlit("ConditionalAccess");
    assert(p.len() != "ConditionalAccess"@.len() || p[0] != "ConditionalAccess"@[0]);
    assert(priority_of(p) == 950);
}

/// The dependency table of a bulk import: scope tags first, then role
/// definitions, assignment filters, device categories, (named) locations,
/// notifications and terms, reusable settings, scripts and custom attributes,
/// authentication contexts and strengths, then applications, then the app
/// protection and app configuration policies that target applications; every
/// other type at 100; Conditional Access, then Policy Sets last.
pub proof fn law_priority_table()
    ensures
        priority_of("ScopeTags"@) == 0,
        priority_of("RoleDefinitions"@) == 5,
        priority_of("AssignmentFilters"@) == 10,
        priority_of("DeviceCategories"@) == 15,
        priority_of("Locations"@) == 20,
        priority_of("NamedLocations"@) == 20,
        priority_of("Notifications"@) == 25,
        priority_of("TermsOfUse"@) == 25,
        priority_of("TermsAndConditions"@) == 25,
        priority_of("ReusableSettings"@) == 30,
        priority_of("ComplianceScripts"@) == 35,
        priority_of("DeviceHealthScripts"@) == 35,
        priority_of("PowerShellScripts"@) == 35,
        priority_of("MacScripts"@) == 35,
        priority_of("MacCustomAttributes"@) == 35,
        priority_of("AuthenticationContext"@) == 40,
        priority_of("AuthenticationStrengths"@) == 40,
        priority_of("Applications"@) == 50,
        priority_of("AppConfigurationManagedApp"@) == 110,
        priority_of("AppConfigurationManagedDevice"@) == 110,
        priority_of("AppProtection"@) == 110,
        priority_of("ConditionalAccess"@) == 900,
        priority_of("PolicySets"@) == 950,
{
    reveal_strlit("ScopeTags");
    reveal_strlit("RoleDefinitions");
    reveal_strlit("AssignmentFilters");
    reveal_strlit("DeviceCategories");
    reveal_strlit("Locations");
    reveal_strlit("NamedLocations");
    reveal_strlit("Notifications");
    reveal_strlit("TermsOfUse");
    reveal_strlit("TermsAndConditions");
    reveal_strlit("ReusableSettings");
    reveal_strlit("ComplianceScripts");
    reveal_strlit("DeviceHealthScripts");
    reveal_strlit("PowerShellScripts");
    reveal_strlit("MacScripts");
    reveal_strlit("MacCustomAttributes");
    reveal_strlit("AuthenticationContext");
    reveal_strlit("AuthenticationStrengths");
    reveal_strlit("Applications");
    reveal_strlit("AppConfigurationManagedApp");
    reveal_strlit("AppConfigurationManagedDevice");
    reveal_strlit("AppProtection");
    reveal_strlit("ConditionalAccess");
    reveal_strlit("PolicySets");
    assert("ScopeTags"@.len() == 9);
    assert("RoleDefinitions"@.len() == 15);
    assert("AssignmentFilters"@.len() == 17);
    assert("DeviceCategories"@.len() == 16);
    assert("Locations"@.len() == 9);
    assert("NamedLocations"@.len() == 14);
    assert("Notifications"@.len() == 13);
    assert("TermsOfUse"@.len() == 10);
    assert("TermsAndConditions"@.len() == 18);
    assert("ReusableSettings"@.len() == 16);
    assert("ComplianceScripts"@.len() == 17);
    assert("DeviceHealthScripts"@.len() == 19);
    assert("PowerShellScripts"@.len() == 17);
    assert("MacScripts"@.len() == 10);
    assert("MacCustomAttributes"@.len() == 19);
    assert("AuthenticationContext"@.len() == 21);
    assert("AuthenticationStrengths"@.len() == 23);
    assert("Applications"@.len() == 12);
    assert("AppConfigurationManagedApp"@.len() == 26);
    assert("AppConfigurationManagedDevice"@.len() == 29);
    assert("AppProtection"@.len() == 13);
    assert("ConditionalAccess"@.len() == 17);
    assert("PolicySets"@.len() == 10);
    assert("Locations"@[0] != "ScopeTags"@[0]);
    assert("ReusableSettings"@[0] != "DeviceCategories"@[0]);
    assert("ComplianceScripts"@[0] != "AssignmentFilters"@[0]);
    assert("PowerShellScripts"@[0] != "AssignmentFilters"@[0]);
    assert("PowerShellScripts"@[0] != "ComplianceScripts"@[0]);
    assert("MacScripts"@[0] != "TermsOfUse"@[0]);
    assert("MacCustomAttributes"@[0] != "DeviceHealthScripts"@[0]);
    assert("AppProtection"@[0] != "Notifications"@[0]);
    assert("ConditionalAccess"@[0] != "AssignmentFilters"@[0]);
    assert("ConditionalAccess"@[2] != "ComplianceScripts"@[2]);
    assert("ConditionalAccess"@[0] != "PowerShellScripts"@[0]);
    assert("PolicySets"@[0] != "TermsOfUse"@[0]);
    assert("PolicySets"@[0] != "MacScripts"@[0]);
}

/// Scope tags come before every other type.
pub proof fn lemma_scope_tags_first(type_id: Seq<char>)
    requires
        type_id != "ScopeTags"@,
    ensures
        priority_of(type_id) > priority_of("ScopeTags"@),
{
    law_priority_table();
}

/// A matching entry at `n` means there is a first matching entry.
proof fn lemma_first_exists(c: Seq<ObjectTypeV>, p: spec_fn(ObjectTypeV) -> bool, n: int)
    requires
        0 <= n < c.len(),
        p(c[n]),
    ensures
        exists|i: int| first_match(c, p, i),
    decreases n,
{
    if exists|m: int| 0 <= m < n && p(c[m]) {
        let m = choose|m: int| 0 <= m < n && p(c[m]);
        lemma_first_exists(c, p, m);
    } else {
        assert(first_match(c, p, n));
    }
}

/// Looking a title up ignoring ASCII case finds the entry it belongs to: an
/// entry whose title no earlier entry shares (ignoring ASCII case) is found by
/// its own title written in any ASCII case; and a title finds nothing exactly
/// when no entry's title matches it.
pub proof fn law_find_by_title(c: Seq<ObjectTypeV>, i: int, s: Seq<char>)
    requires
        0 <= i < c.len(),
        eq_ignore_ascii_case(c[i].title, s),
        forall|j: int| 0 <= j < i ==> !eq_ignore_ascii_case(#[trigger] c[j].title, c[i].title),
    ensures
        find_first(c, has_title(s)) == Some(c[i]),
        find_first(c, has_title(c[i].title)) == Some(c[i]),
{
    let p = has_title(s);
    assert forall|j: int| 0 <= j < i implies !p(#[trigger] c[j]) by {
        if eq_ignore_ascii_case(c[j].title, s) {
            assert(eq_ignore_ascii_case(c[j].title, c[i].title)) by {
                assert forall|k: int| 0 <= k < c[j].title.len() implies ascii_lower(#[trigger] c[j].title[k]) == ascii_lower(
                    c[i].title[k],
                ) by {
                    assert(ascii_lower(c[j].title[k]) == ascii_lower(s[k]));
                    assert(ascii_lower(c[i].title[k]) == ascii_lower(s[k]));
                }
            }
        }
    }
    assert(first_match(c, p, i));
    lemma_first_match_unique(c, p, i);
    let q = has_title(c[i].title);
    assert(first_match(c, q, i));
    lemma_first_match_unique(c, q, i);
}

/// A title finds nothing exactly when no entry's title matches it, ignoring
/// ASCII case.
pub proof fn law_find_by_title_none(c: Seq<ObjectTypeV>, s: Seq<char>)
    ensures
        find_first(c, has_title(s)) is None <==> forall|j: int| 0 <= j < c.len() ==> !eq_ignore_ascii_case(#[trigger] c[j].title, s),
{
    let p = has_title(s);
    if exists|j: int| 0 <= j < c.len() && eq_ignore_ascii_case(#[trigger] c[j].title, s) {
        let j = choose|j: int| 0 <= j < c.len() && eq_ignore_ascii_case(#[trigger] c[j].title, s);
        assert(p(c[j]));
        lemma_first_exists(c, p, j);
    } else {
        assert forall|k: int| !first_match(c, p, k) by {
            if 0 <= k < c.len() {
                assert(!p(c[k]));
            }
        }
    }
}

} // verus!
