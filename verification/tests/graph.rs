use intune_core::catalog::{find, find_by_title, import_priority, ObjectType};
use intune_core::compare::{compare, is_ignored_exec, ChangeKind};
use intune_core::error::{CoreError, ErrorBody};
use intune_core::graph::{collect_page, failure, retry_delay, url};
use intune_core::json::Json;

fn s(x: &str) -> Json {
    Json::Str(x.to_string())
}

fn obj(members: Vec<(&str, Json)>) -> Json {
    Json::Object(members.into_iter().map(|(k, v)| (k.to_string(), v)).collect())
}

fn object_type(id: &str, title: &str) -> ObjectType {
    ObjectType {
        id: id.to_string(),
        title: title.to_string(),
        api: "/x".to_string(),
        group: "g".to_string(),
        group_order: 0,
        name_property: "displayName".to_string(),
        query_list: None,
        expand: None,
        assignments: false,
        odata_type_filter: None,
        odata_type_exclude: None,
        icon: "i".to_string(),
    }
}

#[test]
fn urls_are_made_absolute_and_queried() {
    assert_eq!(url("/organization", Some("$select=id,displayName")), "https://graph.microsoft.com/beta/organization?$select=id,displayName");
    assert_eq!(url("https://example.test/next?page=2", Some("a=b")), "https://example.test/next?page=2&a=b");
    assert_eq!(url("/x", Some("")), "https://graph.microsoft.com/beta/x");
    assert_eq!(url("/x", None), "https://graph.microsoft.com/beta/x");
}

#[test]
fn retries_back_off_and_stop() {
    assert_eq!(retry_delay(429, 0, None), Some(2));
    assert_eq!(retry_delay(503, 3, None), Some(16));
    assert_eq!(retry_delay(500, 4, None), Some(30));
    assert_eq!(retry_delay(429, 1, Some(7)), Some(7));
    assert_eq!(retry_delay(429, 1, Some(120)), Some(30));
    assert_eq!(retry_delay(429, 5, None), None);
    assert_eq!(retry_delay(404, 0, None), None);
    assert_eq!(retry_delay(600, 0, None), None);
}

#[test]
fn failures_report_the_graph_message() {
    let parsed = Some(obj(vec![("error", obj(vec![("code", s("Forbidden")), ("message", s("Access denied"))]))]));
    let e = failure(403, "{...}".to_string(), &parsed);
    assert!(matches!(e, CoreError::Graph { status: 403, ref message } if message == "Access denied"));
    let e = failure(500, "plain body".to_string(), &None);
    assert!(matches!(e, CoreError::Graph { status: 500, ref message } if message == "plain body"));
    assert_eq!(e.message(), "graph request failed (500): plain body");
}

#[test]
fn pages_are_gathered() {
    let mut out = Vec::new();
    let page = obj(vec![("@odata.nextLink", s("https://next")), ("value", Json::Array(vec![s("a"), s("b")]))]);
    assert_eq!(collect_page(page, &mut out), Some("https://next".to_string()));
    let page = obj(vec![("value", Json::Array(vec![s("c")]))]);
    assert_eq!(collect_page(page, &mut out), None);
    assert_eq!(out.len(), 3);
    let single = obj(vec![("id", s("1")), ("@odata.nextLink", s("ignored"))]);
    assert_eq!(collect_page(single, &mut out), None);
    assert_eq!(out.len(), 4);
    assert!(out[3].equals(&obj(vec![("id", s("1")), ("@odata.nextLink", s("ignored"))])));
}

#[test]
fn error_codes_and_messages() {
    let cases: Vec<(CoreError, &str, &str)> = vec![
        (CoreError::NotAuthenticated, "not_authenticated", "not signed in"),
        (CoreError::AuthorizationPending, "authorization_pending", "authorization pending"),
        (CoreError::Auth("bad".into()), "auth_failed", "authentication failed: bad"),
        (CoreError::Graph { status: 404, message: "nope".into() }, "graph_error", "graph request failed (404): nope"),
        (CoreError::UnknownType("X".into()), "unknown_type", "unknown object type: X"),
        (CoreError::Io("disk".into()), "io_error", "io error: disk"),
        (CoreError::Other("other".into()), "error", "other"),
    ];
    for (e, code, message) in cases {
        assert_eq!(e.code(), code);
        assert_eq!(e.message(), message);
        let body = ErrorBody::from_error(&e);
        assert_eq!(body.code, code);
        assert_eq!(body.message, message);
    }
}

#[test]
fn catalog_lookup_and_priority() {
    let catalog = vec![object_type("DeviceConfiguration", "Device Configuration"), object_type("ScopeTags", "Scope Tags")];
    assert_eq!(find(&catalog, "ScopeTags").unwrap().title, "Scope Tags");
    assert!(find(&catalog, "scopetags").is_none());
    assert_eq!(find_by_title(&catalog, "device configuration").unwrap().id, "DeviceConfiguration");
    assert!(find_by_title(&catalog, "Missing").is_none());
    assert_eq!(import_priority("ScopeTags"), 0);
    assert_eq!(import_priority("NamedLocations"), 20);
    assert_eq!(import_priority("MacScripts"), 35);
    assert_eq!(import_priority("AppProtection"), 110);
    assert_eq!(import_priority("ConditionalAccess"), 900);
    assert_eq!(import_priority("PolicySets"), 950);
    assert_eq!(import_priority("Anything"), 100);
}

#[test]
fn compare_reports_changes_and_ignores_volatile_fields() {
    let live = obj(vec![
        ("a", s("1")),
        ("b", Json::Array(vec![s("x")])),
        ("id", s("live")),
        ("nested", obj(vec![("version", s("3")), ("z", Json::Bool(true))])),
        ("only", s("l")),
    ]);
    let file = obj(vec![
        ("a", s("2")),
        ("b", Json::Array(vec![s("x"), s("y")])),
        ("extra", s("r")),
        ("id", s("file")),
        ("nested", obj(vec![("version", s("4")), ("z", Json::Bool(true))])),
    ]);
    let r = compare(&live, &file);
    assert!(!r.identical);
    let paths: Vec<(&str, ChangeKind)> = r.differences.iter().map(|d| (d.path.as_str(), d.kind)).collect();
    assert_eq!(paths, vec![("a", ChangeKind::Changed), ("b[1]", ChangeKind::Added), ("extra", ChangeKind::Added), ("only", ChangeKind::Removed)]);
    assert_eq!((r.added, r.removed, r.changed), (2, 1, 1));
    let same = compare(&live, &live);
    assert!(same.identical);
    assert_eq!(same.differences.len(), 0);
    let swapped = compare(&file, &live);
    assert_eq!((swapped.added, swapped.removed, swapped.changed), (1, 2, 1));
}

#[test]
fn errors_map_to_http_statuses() {
    assert_eq!(CoreError::NotAuthenticated.http_status(), 401);
    assert_eq!(CoreError::AuthorizationPending.http_status(), 202);
    assert_eq!(CoreError::UnknownType("X".into()).http_status(), 404);
    assert_eq!(CoreError::Graph { status: 429, message: String::new() }.http_status(), 429);
    assert_eq!(CoreError::Graph { status: 42, message: String::new() }.http_status(), 502);
    assert_eq!(CoreError::Io("x".into()).http_status(), 400);
    assert_eq!(CoreError::Auth("x".into()).http_status(), 400);
}

#[test]
fn compare_ignores_odata_context() {
    let left = obj(vec![("@odata.context", s("a")), ("a", Json::Number("1".into())), ("id", s("1")), ("version", Json::Number("1".into()))]);
    let right = obj(vec![("@odata.context", s("b")), ("a", Json::Number("1".into())), ("id", s("2"))]);
    let r = compare(&left, &right);
    assert!(r.identical);
    assert!(r.differences.is_empty());
    assert_eq!((r.added, r.removed, r.changed), (0, 0, 0));
    let nested_l = obj(vec![("x", obj(vec![("@odata.context", s("a"))]))]);
    let nested_r = obj(vec![("x", obj(vec![]))]);
    assert!(compare(&nested_l, &nested_r).identical);
}

#[test]
fn ignored_paths() {
    let ig = |p: &str| is_ignored_exec(&p.chars().collect());
    assert!(ig("id") && ig("settings[0].id") && ig("a.lastModifiedDateTime") && ig("assignments") && ig("@odata.context"));
    assert!(ig("x.@odata.context"));
    assert!(!ig("displayName") && !ig("ids") && !ig("a[0]") && !ig("x@odata.context"));
}

#[test]
fn signed_zero_numbers_are_equal() {
    let left = obj(vec![("a", Json::Number("0.0".to_string()))]);
    let right = obj(vec![("a", Json::Number("-0.0".to_string()))]);
    let r = compare(&left, &right);
    assert!(r.identical);
    assert!(r.differences.is_empty());
    assert!(left.equals(&right));
    assert!(!Json::Number("1".to_string()).equals(&Json::Number("1.0".to_string())));
    let changed = compare(&left, &obj(vec![("a", Json::Number("1".to_string()))]));
    assert_eq!(changed.changed, 1);
}
