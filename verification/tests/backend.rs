use intune_core::backend::{
    clean_for_import, copy_name, copy_payload, display_name, document, export_object, extra_collection, file_name,
    find_live_id, list_result, list_url, merge_collection, object_url, assignments_url, create_url, organization,
    plan_import, requested_ids, sanitize, set_name, short_type, template_name, BulkCompareItem, DocFormat, TypedFile,
    dry_run_or_default, plan_object_import, require_type, select_by_name, BulkImportItem, ImportResult, ListItem,
};
use intune_core::error::CoreError;
use intune_core::catalog::ObjectType;
use intune_core::compare::compare;
use intune_core::json::Json;

fn s(x: &str) -> Json {
    Json::Str(x.to_string())
}

fn obj(members: Vec<(&str, Json)>) -> Json {
    Json::Object(members.into_iter().map(|(k, v)| (k.to_string(), v)).collect())
}

fn keys(j: &Json) -> Vec<String> {
    match j {
        Json::Object(m) => m.iter().map(|(k, _)| k.clone()).collect(),
        _ => vec![],
    }
}

fn text(j: &Json) -> String {
    let mut out = Vec::new();
    j.write_text(&mut out);
    out.into_iter().collect()
}

fn object_type(id: &str, title: &str) -> ObjectType {
    ObjectType {
        id: id.to_string(),
        title: title.to_string(),
        api: "/deviceManagement/deviceConfigurations".to_string(),
        group: "Devices".to_string(),
        group_order: 1,
        name_property: "displayName".to_string(),
        query_list: None,
        expand: None,
        assignments: true,
        odata_type_filter: None,
        odata_type_exclude: None,
        icon: "i".to_string(),
    }
}

#[test]
fn display_name_falls_back_in_order() {
    let o = obj(vec![("displayName", s("")), ("name", s("N")), ("id", s("1"))]);
    assert_eq!(display_name(&o, "displayName"), "N");
    let o = obj(vec![("title", s("T")), ("displayName", s("D"))]);
    assert_eq!(display_name(&o, "title"), "T");
    let o = obj(vec![("id", s("only-id"))]);
    assert_eq!(display_name(&o, "displayName"), "only-id");
    assert_eq!(display_name(&obj(vec![]), "displayName"), "(unnamed)");
}

#[test]
fn short_type_drops_namespace() {
    assert_eq!(short_type("#microsoft.graph.windows10GeneralConfiguration"), "windows10GeneralConfiguration");
    assert_eq!(short_type("other.type"), "other.type");
}

#[test]
fn sanitize_file_names() {
    assert_eq!(sanitize("a/b:c*d?"), "a_b_c_d_");
    assert_eq!(sanitize("  name.. "), "name");
    assert_eq!(sanitize(" ... "), "unnamed");
    assert_eq!(sanitize(""), "unnamed");
    assert_eq!(file_name("Policy <1>", "json"), "Policy _1_.json");
}

#[test]
fn set_name_renames_known_properties() {
    let mut p = obj(vec![("displayName", s("Old")), ("name", s("Old"))]);
    set_name(&mut p, "displayName", "New");
    assert_eq!(text(&p), "{\"displayName\":\"New\",\"name\":\"New\"}");
    let mut q = obj(vec![("b", s("x"))]);
    set_name(&mut q, "displayName", "New");
    assert_eq!(text(&q), "{\"b\":\"x\",\"displayName\":\"New\"}");
    assert_eq!(display_name(&q, "displayName"), "New");
    let mut not_object = s("x");
    set_name(&mut not_object, "displayName", "New");
    assert_eq!(text(&not_object), "\"x\"");
}

#[test]
fn clean_for_import_strips_readonly_and_annotations() {
    let v = obj(vec![
        ("@odata.context", s("c")),
        ("@odata.type", s("#microsoft.graph.x")),
        ("assignments", Json::Array(vec![])),
        ("displayName", s("P")),
        ("id", s("1")),
        ("settings@odata.navigationLink", s("l")),
        ("version", Json::Number("2".to_string())),
    ]);
    let c = clean_for_import(v);
    assert_eq!(keys(&c), vec!["@odata.type".to_string(), "displayName".to_string()]);
    let again = clean_for_import(c);
    assert_eq!(keys(&again), vec!["@odata.type".to_string(), "displayName".to_string()]);
    assert_eq!(text(&clean_for_import(s("x"))), "\"x\"");
}

#[test]
fn copy_naming_and_payload() {
    assert_eq!(copy_name("Base", None), "Base - Copy");
    assert_eq!(copy_name("Base", Some("Other".to_string())), "Other");
    assert_eq!(template_name(&None, "Base"), "Base - Copy");
    assert_eq!(template_name(&Some("{name} / {name} v2".to_string()), "B"), "B / B v2");
    let source = obj(vec![("displayName", s("Base")), ("id", s("1")), ("version", Json::Number("4".to_string()))]);
    let payload = copy_payload(source, "displayName", "Base - Copy");
    assert_eq!(text(&payload), "{\"displayName\":\"Base - Copy\"}");
}

#[test]
fn urls_for_objects() {
    let mut t = object_type("DeviceConfiguration", "Device Configuration");
    t.expand = Some("settings".to_string());
    t.query_list = Some("$select=id".to_string());
    assert_eq!(
        object_url(&t, "42"),
        "https://graph.microsoft.com/beta/deviceManagement/deviceConfigurations/42?$expand=settings"
    );
    assert_eq!(
        assignments_url(&t, "42"),
        "https://graph.microsoft.com/beta/deviceManagement/deviceConfigurations/42/assignments"
    );
    assert_eq!(list_url(&t), "https://graph.microsoft.com/beta/deviceManagement/deviceConfigurations?$select=id");
    assert_eq!(create_url(&t), "https://graph.microsoft.com/beta/deviceManagement/deviceConfigurations");
}

#[test]
fn extra_collections_per_type() {
    let (k, u) = extra_collection("EndpointSecurity", "i1").unwrap();
    assert_eq!(k, "settings");
    assert_eq!(u, "https://graph.microsoft.com/beta/deviceManagement/intents/i1/settings");
    let (k, u) = extra_collection("AdministrativeTemplates", "g1").unwrap();
    assert_eq!(k, "definitionValues");
    assert!(u.starts_with("https://graph.microsoft.com/beta/deviceManagement/groupPolicyConfigurations/g1/definitionValues?$expand=definition("));
    assert!(extra_collection("DeviceConfiguration", "x").is_none());
    let merged = merge_collection(obj(vec![("id", s("i1"))]), "settings".to_string(), vec![s("a")]);
    assert_eq!(text(&merged), "{\"id\":\"i1\",\"settings\":[\"a\"]}");
}

#[test]
fn export_object_embeds_assignments() {
    let o = obj(vec![("displayName", s("P")), ("id", s("1"))]);
    let e = export_object(o, &Some(Json::Array(vec![s("a")])));
    assert_eq!(text(&e), "{\"assignments\":[\"a\"],\"displayName\":\"P\",\"id\":\"1\"}");
    let f = export_object(obj(vec![("id", s("1"))]), &None);
    assert_eq!(text(&f), "{\"id\":\"1\"}");
    assert!(requested_ids(Some(vec![])).is_none());
    assert_eq!(requested_ids(Some(vec!["a".to_string()])), Some(vec!["a".to_string()]));
    assert!(requested_ids(None).is_none());
}

#[test]
fn listing_filters_searches_and_sorts() {
    let mut t = object_type("Mixed", "Mixed");
    t.odata_type_filter = Some(" Windows10 , ,macOS".to_string());
    t.odata_type_exclude = Some("Custom".to_string());
    let raw = vec![
        obj(vec![("@odata.type", s("#microsoft.graph.windows10GeneralConfiguration")), ("displayName", s("beta")), ("id", s("2"))]),
        obj(vec![("@odata.type", s("#microsoft.graph.macOSGeneralDeviceConfiguration")), ("displayName", s("Alpha")), ("id", s("1"))]),
        obj(vec![("@odata.type", s("#microsoft.graph.windows10CustomConfiguration")), ("displayName", s("gamma")), ("id", s("3"))]),
        obj(vec![("@odata.type", s("#microsoft.graph.iosGeneralDeviceConfiguration")), ("displayName", s("delta")), ("id", s("4"))]),
    ];
    let r = list_result(&t, &raw, None);
    assert_eq!(r.type_id, "Mixed");
    assert_eq!(r.count, 2);
    let names: Vec<&str> = r.items.iter().map(|i| i.name.as_str()).collect();
    assert_eq!(names, vec!["Alpha", "beta"]);
    assert_eq!(r.items[0].odata_type.as_deref(), Some("macOSGeneralDeviceConfiguration"));
    let r = list_result(&t, &raw, Some("BET"));
    assert_eq!(r.count, 1);
    assert_eq!(r.items[0].id, "2");
    let plain = object_type("Plain", "Plain");
    let r = list_result(&plain, &raw, Some(""));
    assert_eq!(r.count, 4);
    let names: Vec<&str> = r.items.iter().map(|i| i.name.as_str()).collect();
    assert_eq!(names, vec!["Alpha", "beta", "delta", "gamma"]);
}

#[test]
fn live_match_ignores_ascii_case() {
    let listed = vec![("Other".to_string(), "1".to_string()), ("My Policy".to_string(), "2".to_string()), ("my policy".to_string(), "3".to_string())];
    assert_eq!(find_live_id(&listed, "MY POLICY"), Some("2".to_string()));
    assert_eq!(find_live_id(&listed, "missing"), None);
}

#[test]
fn bulk_import_plan_orders_by_dependency() {
    let files = vec![
        TypedFile { object_type: object_type("PolicySets", "Policy Sets"), path: "p1".to_string() },
        TypedFile { object_type: object_type("DeviceConfiguration", "Device Configuration"), path: "d1".to_string() },
        TypedFile { object_type: object_type("ScopeTags", "Scope Tags"), path: "s1".to_string() },
        TypedFile { object_type: object_type("CompliancePolicies", "Compliance Policies"), path: "c1".to_string() },
        TypedFile { object_type: object_type("DeviceConfiguration", "Device Configuration"), path: "d2".to_string() },
    ];
    let (sorted, order) = plan_import(files);
    let paths: Vec<&str> = sorted.iter().map(|f| f.path.as_str()).collect();
    assert_eq!(paths, vec!["s1", "c1", "d1", "d2", "p1"]);
    assert_eq!(order, vec!["ScopeTags", "CompliancePolicies", "DeviceConfiguration", "PolicySets"]);
}

#[test]
fn bulk_compare_items() {
    let t = object_type("DeviceConfiguration", "Device Configuration");
    let left = obj(vec![("a", s("1")), ("id", s("x"))]);
    let right = obj(vec![("a", s("2")), ("id", s("y"))]);
    let cmp = compare(&left, &right);
    let item = BulkCompareItem::matched(&t, "f.json".to_string(), "P".to_string(), &cmp);
    assert!(item.matched);
    assert!(!item.identical);
    assert_eq!(item.changed, 1);
    let item = BulkCompareItem::unmatched(&t, "f.json".to_string(), "P".to_string());
    assert!(!item.matched && item.error.is_none());
    let item = BulkCompareItem::failed(&t, "f.json".to_string(), "parse: bad".to_string());
    assert_eq!(item.error.as_deref(), Some("parse: bad"));
    assert_eq!(item.name, "");
}

#[test]
fn organization_of_first_entry() {
    let v = obj(vec![("value", Json::Array(vec![obj(vec![("displayName", s("Contoso")), ("id", s("t1"))])]))]);
    assert_eq!(organization(&v), Some((Some("Contoso".to_string()), Some("t1".to_string()))));
    assert_eq!(organization(&obj(vec![("value", Json::Array(vec![]))])), None);
}

#[test]
fn documentation_of_an_object() {
    let t = object_type("DeviceConfiguration", "Device Configuration");
    let object = obj(vec![
        ("description", s("")),
        ("displayName", s("Baseline")),
        ("id", s("o1")),
        ("passwordRequired", Json::Bool(true)),
    ]);
    let assignments = Some(Json::Array(vec![obj(vec![
        ("intent", s("apply")),
        ("target", obj(vec![("@odata.type", s("#microsoft.graph.allDevicesAssignmentTarget"))])),
    ])]));
    let doc = document(&t, "o1", &object, &assignments, &vec![]);
    assert_eq!(doc.name, "Baseline");
    assert_eq!(doc.type_title, "Device Configuration");
    assert!(doc.description.is_none());
    let titles: Vec<&str> = doc.sections.iter().map(|s| s.title.as_str()).collect();
    assert_eq!(titles, vec!["Settings", "Assignments", "Metadata"]);
    assert_eq!(doc.sections[0].rows[0].name, "Password Required");
    assert_eq!(doc.sections[1].rows[0].name, "All Devices Assignment Target");
    assert_eq!(DocFormat::Markdown.extension(), "md");
    assert_eq!(DocFormat::Html.extension(), "html");
    assert_eq!(DocFormat::Json.extension(), "json");
    assert!(DocFormat::Markdown.render(&doc).starts_with("# Baseline\n\n**Object type:** Device Configuration  \n"));
    assert!(DocFormat::Html.render(&doc).contains("<h1>Baseline</h1>"));
}

#[test]
fn documentation_falls_back_to_generic_settings() {
    let t = object_type("EndpointSecurity", "Endpoint Security");
    let object = obj(vec![("displayName", s("Intent")), ("settings", Json::Array(vec![])), ("enabled", Json::Bool(false))]);
    let doc = document(&t, "e1", &object, &None, &vec![]);
    let titles: Vec<&str> = doc.sections.iter().map(|s| s.title.as_str()).collect();
    assert_eq!(titles, vec!["Settings", "Metadata"]);
    assert_eq!(doc.sections[0].rows[0].name, "Enabled");
    assert_eq!(doc.sections[0].rows[0].value, "Disabled");
}

#[test]
fn json_documentation_is_indented() {
    let t = object_type("DeviceConfiguration", "Device Configuration");
    let object = obj(vec![("displayName", s("B")), ("id", s("o1"))]);
    let doc = document(&t, "o1", &object, &None, &vec![]);
    let rendered = DocFormat::Json.render(&doc);
    let expected = "{\n  \"description\": null,\n  \"name\": \"B\",\n  \"objectId\": \"o1\",\n  \"sections\": [\n    {\n      \"rows\": [],\n      \"title\": \"Settings\"\n    },\n    {\n      \"rows\": [\n        {\n          \"kind\": \"setting\",\n          \"level\": 0,\n          \"name\": \"Id\",\n          \"value\": \"o1\"\n        }\n      ],\n      \"title\": \"Metadata\"\n    }\n  ],\n  \"typeId\": \"DeviceConfiguration\",\n  \"typeTitle\": \"Device Configuration\"\n}";
    assert_eq!(rendered, expected);
}

#[test]
fn export_round_trips_through_compare_and_import() {
    let live = obj(vec![("displayName", s("P")), ("id", s("1")), ("settings", Json::Array(vec![s("x")]))]);
    let assignments = Some(Json::Array(vec![obj(vec![("intent", s("apply"))])]));
    let exported = export_object(live.deep_clone(), &assignments);
    let cmp = compare(&live, &exported);
    assert!(cmp.identical);
    assert_eq!((cmp.added, cmp.removed, cmp.changed), (0, 0, 0));
    let from_export = clean_for_import(exported);
    let from_live = clean_for_import(live);
    assert!(from_export.equals(&from_live));
    assert_eq!(text(&from_export), "{\"displayName\":\"P\",\"settings\":[\"x\"]}");
}

#[test]
fn imports_are_dry_runs_unless_asked_otherwise() {
    assert!(dry_run_or_default(None));
    assert!(dry_run_or_default(Some(true)));
    assert!(!dry_run_or_default(Some(false)));
}

#[test]
fn import_plan_and_result() {
    let t = object_type("DeviceConfiguration", "Device Configuration");
    let parsed = obj(vec![("id", s("old")), ("displayName", s("P")), ("createdDateTime", s("x")), ("a", s("1"))]);
    let plan = plan_object_import(&t, parsed.deep_clone(), true);
    assert_eq!(plan.name, "P");
    assert!(!plan.create);
    assert_eq!(keys(&plan.payload), vec!["displayName", "a"]);
    assert_eq!(plan.target_api, "https://graph.microsoft.com/beta/deviceManagement/deviceConfigurations");
    let r = ImportResult::from_plan(&t, true, plan, Some(obj(vec![("id", s("new"))])));
    assert!(r.dry_run);
    assert!(r.created.is_none());
    assert_eq!(r.type_id, "DeviceConfiguration");
    let plan = plan_object_import(&t, parsed, false);
    assert!(plan.create);
    let r = ImportResult::from_plan(&t, false, plan, Some(obj(vec![("id", s("new"))])));
    assert!(!r.dry_run);
    assert_eq!(r.created.map(|c| keys(&c)), Some(vec!["id".to_string()]));
}

#[test]
fn bulk_import_items_per_outcome() {
    let t = object_type("DeviceConfiguration", "Device Configuration");
    let item = BulkImportItem::failed(&t, "f.json".to_string(), "parse: bad".to_string());
    assert_eq!(item.type_title, "Device Configuration");
    assert_eq!(item.name, "");
    assert!(matches!(item.payload, Json::Null));
    assert!(item.created.is_none());
    assert_eq!(item.error.as_deref(), Some("parse: bad"));

    let parsed = obj(vec![("displayName", s("P"))]);
    let dry = plan_object_import(&t, parsed.deep_clone(), true);
    let item = BulkImportItem::planned(&t, "f.json".to_string(), dry, Some(Ok(Some(s("ignored")))));
    assert_eq!(item.name, "P");
    assert!(item.created.is_none() && item.error.is_none());

    let wet = plan_object_import(&t, parsed.deep_clone(), false);
    let item = BulkImportItem::planned(&t, "f.json".to_string(), wet, Some(Ok(Some(obj(vec![("id", s("n"))])))));
    assert_eq!(item.created.map(|c| keys(&c)), Some(vec!["id".to_string()]));
    assert!(item.error.is_none());

    let wet = plan_object_import(&t, parsed, false);
    let err = CoreError::Graph { status: 400, message: "bad request".to_string() };
    let item = BulkImportItem::planned(&t, "f.json".to_string(), wet, Some(Err(err)));
    assert!(item.created.is_none());
    assert_eq!(item.error.as_deref(), Some("graph request failed (400): bad request"));
}

#[test]
fn unknown_types_are_refused() {
    let catalog = vec![object_type("DeviceConfiguration", "Device Configuration"), object_type("ScopeTags", "Scope Tags")];
    assert_eq!(require_type(&catalog, "ScopeTags").unwrap().title, "Scope Tags");
    match require_type(&catalog, "Nope") {
        Err(CoreError::UnknownType(t)) => assert_eq!(t, "Nope"),
        _ => panic!("expected an unknown type"),
    }
}

#[test]
fn copy_by_pattern_selects_by_name_only() {
    let item = |id: &str, name: &str, description: Option<&str>| ListItem {
        id: id.to_string(),
        name: name.to_string(),
        description: description.map(|d| d.to_string()),
        odata_type: None,
    };
    let items = vec![
        item("1", "Baseline Windows", None),
        item("baseline-2", "Other", Some("a baseline copy")),
        item("3", "old BASELINE", None),
    ];
    let picked: Vec<String> = select_by_name(items, "baseline").into_iter().map(|i| i.id).collect();
    assert_eq!(picked, vec!["1", "3"]);
}
