use qnap::dump::{
    anonymize_json_owners, anonymize_owners, anonymize_principal, first_share_id, listing_share,
    DeviceIdentity, FileOwners,
};
use qnap::files::{check_list_status, item_count_line, FileEntry};
use qnap::shares::{share_output, share_row};
use qnap::status::{mem_used_mb, normalize_cpu_usage};

fn owners(owner: Option<&str>, group: Option<&str>) -> FileOwners {
    FileOwners { owner: owner.map(str::to_string), group: group.map(str::to_string) }
}

#[test]
fn anonymize_json_owners_replaces_personal_names() {
    let json = r#"{"datas":[{"owner":"ruben","group":"everyone"},{"owner":"admin","group":"administrators"}]}"#;
    let result = anonymize_json_owners(json);
    let v: serde_json::Value = serde_json::from_str(&result).unwrap();
    let entries = v["datas"].as_array().unwrap();
    assert_eq!(entries[0]["owner"], "user");
    assert_eq!(entries[0]["group"], "everyone");
    assert_eq!(entries[1]["owner"], "admin");
    assert_eq!(entries[1]["group"], "administrators");
}

#[test]
fn anonymize_json_owners_handles_invalid_json() {
    let bad = "not json";
    assert_eq!(anonymize_json_owners(bad), bad);
}

#[test]
fn anonymize_json_owners_keeps_other_content() {
    let json = r#"{"datas":[{"owner":7,"group":"staff","filename":"a.txt"}],"total":1}"#;
    let v: serde_json::Value = serde_json::from_str(&anonymize_json_owners(json)).unwrap();
    assert_eq!(v["datas"][0]["owner"], 7);
    assert_eq!(v["datas"][0]["group"], "user");
    assert_eq!(v["datas"][0]["filename"], "a.txt");
    assert_eq!(v["total"], 1);
    let plain = r#"{"status":1}"#;
    assert_eq!(anonymize_json_owners(plain), plain);
}

#[test]
fn first_share_id_reads_the_share_tree() {
    assert_eq!(first_share_id(r#"[{"id":"/Multimedia","text":"Multimedia"},{"id":"/Public"}]"#), Some("/Multimedia".to_string()));
    assert_eq!(first_share_id("[]"), None);
    assert_eq!(first_share_id(r#"{"id":"/x"}"#), None);
    assert_eq!(first_share_id("not json"), None);
    assert_eq!(listing_share(first_share_id("[]")), "/Public");
}

#[test]
fn anonymize_owners_keeps_missing_fields() {
    let result = anonymize_owners(&vec![owners(None, Some("staff")), owners(Some(""), None)]);
    assert_eq!(result[0].owner, None);
    assert_eq!(result[0].group.as_deref(), Some("user"));
    assert_eq!(result[1].owner.as_deref(), Some(""));
    assert_eq!(result[1].group, None);
    assert!(anonymize_owners(&vec![]).is_empty());
}

#[test]
fn anonymize_principal_names() {
    assert_eq!(anonymize_principal("ruben"), "user");
    assert_eq!(anonymize_principal("everyone"), "everyone");
    assert_eq!(anonymize_principal("admin"), "admin");
    assert_eq!(anonymize_principal("administrators"), "administrators");
    assert_eq!(anonymize_principal(""), "");
}

#[test]
fn dump_meta_defaults_to_unknown() {
    let id = DeviceIdentity::from_sysinfo("<modelName>TS-228A</modelName><version>5.2.4</version>");
    assert_eq!(id.build, "unknown");
    assert_eq!(
        id.meta_toml(),
        "model = \"TS-228A\"\nfirmware = \"5.2.4\"\nbuild = \"unknown\"\n"
    );
    assert_eq!(listing_share(None), "/Public");
    assert_eq!(listing_share(Some("/Multimedia".to_string())), "/Multimedia");
}

#[test]
fn listing_status_messages() {
    assert_eq!(check_list_status(None, "/p"), None);
    assert_eq!(check_list_status(Some(0), "/p"), None);
    assert_eq!(check_list_status(Some(5), "/p"), Some("path not found: /p".to_string()));
    assert_eq!(check_list_status(Some(20), "/p"), Some("permission denied: /p".to_string()));
    assert_eq!(check_list_status(Some(42), "/p"), Some("error listing /p: status=42".to_string()));
}

#[test]
fn listing_lines() {
    let dir = FileEntry { filename: Some("docs".into()), isfolder: Some(1), filesize: Some("4096".into()), mt: Some("2024/01/02".into()) };
    assert_eq!(dir.list_line(), "d         4096  2024/01/02  docs");
    assert_eq!(dir.entry_type(), "dir");
    let unknown = FileEntry { filename: None, isfolder: None, filesize: None, mt: None };
    assert_eq!(unknown.list_line(), "-            -  -  ?");
    assert_eq!(unknown.entry_type(), "file");
    let long = FileEntry { filename: Some("f".into()), isfolder: Some(0), filesize: Some("12345678901234".into()), mt: None };
    assert_eq!(long.list_line(), "- 12345678901234  -  f");
    assert_eq!(item_count_line(3), "\n  3 item(s)");
}

#[test]
fn share_rows() {
    let s = share_output("/Public".to_string(), "Public".to_string(), Some(2));
    assert_eq!(s.items_count, Some(2));
    let row = share_row(&s);
    assert_eq!((row.name.as_str(), row.path.as_str(), row.items.as_str()), ("Public", "/Public", "2"));
    let none = share_output("/x".to_string(), "x".to_string(), None);
    assert_eq!(share_row(&none).items, "-");
}

#[test]
fn status_figures() {
    assert_eq!(mem_used_mb(Some(2000), Some(500)), Some(1500));
    assert_eq!(mem_used_mb(Some(100), Some(500)), None);
    assert_eq!(mem_used_mb(None, Some(500)), None);
    assert_eq!(normalize_cpu_usage(" 12 . 5 %"), "12.5");
}
