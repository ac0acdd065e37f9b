use intune_core::catalog::ObjectType;
use intune_core::documentation::{
    admx_section, assignments_section, endpoint_security_section, generic_section, is_settings_catalog, metadata_section,
    settings_catalog_section, settings_endpoint, DocRow, DocSection, DocumentedObject, RowKind, parsed_value_text,
};
use intune_core::json::ParsedTop;
use intune_core::json::Json;
use intune_core::labels::format_key;

fn s(x: &str) -> Json {
    Json::Str(x.to_string())
}

fn n(x: &str) -> Json {
    Json::Number(x.to_string())
}

fn obj(members: Vec<(&str, Json)>) -> Json {
    Json::Object(members.into_iter().map(|(k, v)| (k.to_string(), v)).collect())
}

fn arr(items: Vec<Json>) -> Json {
    Json::Array(items)
}

fn object_type(id: &str, title: &str, api: &str) -> ObjectType {
    ObjectType {
        id: id.to_string(),
        title: title.to_string(),
        api: api.to_string(),
        group: "Device Configuration".to_string(),
        group_order: 1,
        name_property: "displayName".to_string(),
        query_list: None,
        expand: None,
        assignments: true,
        odata_type_filter: None,
        odata_type_exclude: None,
        icon: "settings".to_string(),
    }
}

#[test]
fn settings_catalog_resolves_choice_labels() {
    let settings = vec![obj(vec![
        (
            "settingDefinitions",
            arr(vec![obj(vec![
                ("id", s("device_vendor_msft_policy_allowarchivescanning")),
                ("displayName", s("Allow Archive Scanning")),
                (
                    "options",
                    arr(vec![obj(vec![
                        ("itemId", s("device_vendor_msft_policy_allowarchivescanning_1")),
                        ("displayName", s("Allowed. Scans the archive files.")),
                    ])]),
                ),
            ])]),
        ),
        (
            "settingInstance",
            obj(vec![
                ("@odata.type", s("#microsoft.graph.deviceManagementConfigurationChoiceSettingInstance")),
                ("settingDefinitionId", s("device_vendor_msft_policy_allowarchivescanning")),
                (
                    "choiceSettingValue",
                    obj(vec![("value", s("device_vendor_msft_policy_allowarchivescanning_1")), ("children", arr(vec![]))]),
                ),
            ]),
        ),
    ])];
    let section = settings_catalog_section(&settings);
    assert_eq!(section.rows.len(), 1);
    assert_eq!(section.rows[0].name, "Allow Archive Scanning");
    assert_eq!(section.rows[0].value, "Allowed. Scans the archive files.");
}

#[test]
fn endpoint_security_intent_settings_render() {
    let settings = vec![
        obj(vec![
            ("@odata.type", s("#microsoft.graph.deviceManagementBooleanSettingInstance")),
            ("definitionId", s("deviceConfiguration--windows10EndpointProtectionConfiguration_defenderMonitorFileActivity")),
            ("value", Json::Bool(true)),
        ]),
        obj(vec![
            ("@odata.type", s("#microsoft.graph.deviceManagementIntegerSettingInstance")),
            ("definitionId", s("deviceConfiguration--windows10EndpointProtectionConfiguration_defenderScanMaxCpu")),
            ("valueJson", s("50")),
        ]),
    ];
    let section = endpoint_security_section(&settings);
    assert_eq!(section.rows.len(), 2);
    // sorted by name; "Defender Monitor File Activity" < "Defender Scan Max Cpu"
    assert_eq!(section.rows[0].name, "Defender Monitor File Activity");
    assert_eq!(section.rows[0].value, "Enabled");
    assert_eq!(section.rows[1].name, "Defender Scan Max Cpu");
    assert_eq!(section.rows[1].value, "50");
}

#[test]
fn admx_definition_values_render() {
    let values = vec![
        obj(vec![
            ("enabled", Json::Bool(true)),
            (
                "definition",
                obj(vec![("displayName", s("Allow Telemetry")), ("categoryPath", s("\\Windows Components\\Data Collection"))]),
            ),
            ("presentationValues", arr(vec![obj(vec![("value", s("3")), ("presentation", obj(vec![("label", s("Level"))]))])])),
        ]),
        obj(vec![
            ("enabled", Json::Bool(false)),
            (
                "definition",
                obj(vec![("displayName", s("Turn off Autoplay")), ("categoryPath", s("\\Windows Components\\AutoPlay Policies"))]),
            ),
            ("presentationValues", arr(vec![])),
        ]),
    ];
    let section = admx_section(&values);
    assert_eq!(section.rows.len(), 3);
    assert_eq!(section.rows[0].name, "Windows Components\\Data Collection \\ Allow Telemetry");
    assert_eq!(section.rows[0].value, "Enabled");
    assert_eq!(section.rows[1].level, 1);
    assert_eq!(section.rows[1].name, "Level");
    assert_eq!(section.rows[1].value, "3");
    assert_eq!(section.rows[2].value, "Disabled");
}

#[test]
fn format_key_splits_camel_case_and_separators() {
    assert_eq!(format_key("displayName"), "Display Name");
    assert_eq!(format_key("@odata.type"), "Type");
    assert_eq!(format_key("allow_archive-scanning"), "Allow archive scanning");
}

#[test]
fn endpoint_security_rows_sort_ignoring_case() {
    let settings = vec![
        obj(vec![("definitionId", s("x--zeta")), ("value", Json::Bool(false))]),
        obj(vec![("definitionId", s("x--alpha")), ("valueJson", s("\"on\""))]),
        obj(vec![("value", Json::Bool(true))]),
    ];
    let section = endpoint_security_section(&settings);
    assert_eq!(section.title, "Configuration settings");
    assert_eq!(section.rows.len(), 2);
    assert_eq!(section.rows[0].name, "Alpha");
    assert_eq!(section.rows[0].value, "on");
    assert_eq!(section.rows[1].name, "Zeta");
    assert_eq!(section.rows[1].value, "Disabled");
}

#[test]
fn metadata_and_assignments_sections() {
    let object = obj(vec![
        ("id", s("abc")),
        ("version", n("3")),
        ("displayName", s("Policy")),
        ("isAssigned", Json::Bool(true)),
    ]);
    let meta = metadata_section(&object);
    assert_eq!(meta.title, "Metadata");
    let names: Vec<&str> = meta.rows.iter().map(|r| r.name.as_str()).collect();
    assert_eq!(names, vec!["Id", "Version", "Is Assigned"]);
    assert_eq!(meta.rows[1].value, "3");
    assert_eq!(meta.rows[2].value, "Enabled");

    let assignments = arr(vec![obj(vec![
        ("intent", s("apply")),
        ("target", obj(vec![("@odata.type", s("#microsoft.graph.groupAssignmentTarget")), ("groupId", s("g1"))])),
    ])]);
    let section = assignments_section(&assignments).unwrap();
    assert_eq!(section.title, "Assignments");
    assert_eq!(section.rows[0].name, "Group Assignment Target (g1)");
    assert_eq!(section.rows[0].value, "apply");
    assert!(assignments_section(&arr(vec![])).is_none());
    assert!(assignments_section(&s("x")).is_none());
}

#[test]
fn generic_section_skips_annotations_and_nests_groups() {
    let object = obj(vec![
        ("@odata.type", s("#microsoft.graph.x")),
        ("displayName", s("P")),
        ("settings", arr(vec![])),
        ("passwordRequired", Json::Bool(true)),
        ("nested", obj(vec![("minLength", n("8"))])),
    ]);
    let section = generic_section(&object);
    assert_eq!(section.title, "Settings");
    let rows: Vec<(String, String, u8, RowKind)> =
        section.rows.iter().map(|r| (r.name.clone(), r.value.clone(), r.level, r.kind)).collect();
    assert!(!rows.iter().any(|r| r.0 == "Display Name"));
    assert!(rows.contains(&("Password Required".to_string(), "Enabled".to_string(), 0, RowKind::Setting)));
    assert!(rows.contains(&("Nested".to_string(), String::new(), 0, RowKind::Group)));
    assert!(rows.contains(&("Min Length".to_string(), "8".to_string(), 1, RowKind::Setting)));
    assert!(!rows.iter().any(|r| r.0 == "Settings" || r.0 == "Type"));
}

fn sample_doc() -> DocumentedObject {
    DocumentedObject {
        type_id: "DeviceConfiguration".to_string(),
        type_title: "Device Configuration".to_string(),
        object_id: "id-1".to_string(),
        name: "A|B".to_string(),
        description: Some("Desc".to_string()),
        sections: vec![
            DocSection {
                title: "Settings".to_string(),
                rows: vec![
                    DocRow { name: "Group".to_string(), value: String::new(), level: 0, kind: RowKind::Group },
                    DocRow { name: "Key".to_string(), value: "a<b".to_string(), level: 1, kind: RowKind::Setting },
                ],
            },
            DocSection { title: "Empty".to_string(), rows: vec![] },
        ],
    }
}

#[test]
fn markdown_has_title_meta_and_tables() {
    let md = sample_doc().to_markdown();
    let expected = "# A|B\n\nDesc\n\n**Object type:** Device Configuration  \n**Id:** `id-1`\n\n## Settings\n\n| Setting | Value |\n| --- | --- |\n| **Group** |  |\n| \u{a0}\u{a0}\u{a0}\u{a0}Key | a<b |\n\n";
    assert_eq!(md, expected);
}

#[test]
fn html_escapes_and_indents() {
    let html = sample_doc().to_html();
    assert!(html.starts_with("<!doctype html><html><head><meta charset=\"utf-8\"><title>A|B</title><style>"));
    assert!(html.contains("<h1>A|B</h1><p class=\"desc\">Desc</p>"));
    assert!(html.contains("<tr class=\"group\"><td style=\"padding-left:12px\">Group</td><td></td></tr>"));
    assert!(html.contains("<tr><td style=\"padding-left:32px\">Key</td><td>a&lt;b</td></tr>"));
    assert!(!html.contains("<h2>Empty</h2>"));
    assert!(html.ends_with("</main></body></html>"));
}

#[test]
fn json_form_has_sorted_members() {
    let mut doc = sample_doc();
    doc.sections.truncate(1);
    doc.sections[0].rows.truncate(1);
    let j = doc.to_json();
    let mut text = Vec::new();
    j.write_text(&mut text);
    let text: String = text.into_iter().collect();
    assert_eq!(
        text,
        "{\"description\":\"Desc\",\"name\":\"A|B\",\"objectId\":\"id-1\",\"sections\":[{\"rows\":[{\"kind\":\"group\",\"level\":0,\"name\":\"Group\",\"value\":\"\"}],\"title\":\"Settings\"}],\"typeId\":\"DeviceConfiguration\",\"typeTitle\":\"Device Configuration\"}"
    );
}

#[test]
fn settings_catalog_types_and_endpoint() {
    assert!(is_settings_catalog("SettingsCatalog"));
    assert!(is_settings_catalog("CompliancePoliciesV2"));
    assert!(!is_settings_catalog("DeviceConfiguration"));
    let t = object_type("SettingsCatalog", "Settings Catalog", "/deviceManagement/configurationPolicies");
    assert_eq!(
        settings_endpoint(&t, "p1"),
        "/deviceManagement/configurationPolicies('p1')/settings?$expand=settingDefinitions"
    );
}

#[test]
fn parsed_values_show_scalars_and_keep_other_text() {
    let chars = |x: &str| x.chars().collect::<Vec<char>>();
    let text = |v: Vec<char>| v.into_iter().collect::<String>();
    assert_eq!(text(parsed_value_text(&chars("\"on\""), &Some(ParsedTop::Str("on".to_string())))), "on");
    assert_eq!(text(parsed_value_text(&chars("50"), &Some(ParsedTop::Number("50".to_string())))), "50");
    assert_eq!(text(parsed_value_text(&chars("true"), &Some(ParsedTop::Bool(true)))), "Enabled");
    assert_eq!(text(parsed_value_text(&chars("[1,2]"), &Some(ParsedTop::Array))), "[1,2]");
    assert_eq!(text(parsed_value_text(&chars("null"), &Some(ParsedTop::Null))), "null");
    assert_eq!(text(parsed_value_text(&chars("{oops"), &None)), "{oops");
}
