use kyumaru::config::{default_target_url, plan_save_root, save_root, target_url, Config, SaveRootPlan, Settings};
use kyumaru::json::JsonValue;
use kyumaru::persistence::{veteran_save_plan, VeteranPlan, INVENTORY_FILE_NAME, VETERANS_FILE_NAME};
use kyumaru::plugin_api::{v2_entry_check, v3_entry_check, InitResult};
use kyumaru::text::{i64_to_string, replace_all, str_contains, trim_end_matches_char, usize_to_string};

fn some(s: &str) -> Option<String> {
    Some(s.to_string())
}

#[test]
fn config_defaults() {
    let c = Config::default();
    assert_eq!(c.output_path.as_deref(), Some("%USERPROFILE%\\Documents\\Kyumaru"));
    assert_eq!(c.target_url, "https://database.almond-eye.tech/import/");
    assert_eq!(default_target_url(), "https://database.almond-eye.tech/import/");
}

#[test]
fn settings_accessors() {
    let empty = Settings { save_root: None, target_url: None };
    assert_eq!(target_url(&empty), "https://database.almond-eye.tech/import/");
    let set = Settings { save_root: some("/tmp/k"), target_url: some("http://localhost:3000/import/") };
    assert_eq!(target_url(&set), "http://localhost:3000/import/");
    assert_eq!(save_root(&set), "/tmp/k");
}

#[test]
fn save_root_plans() {
    let p = plan_save_root(&some("%USERPROFILE%\\Documents\\Kyumaru"), &some("C:\\Users\\me"), &some("/home/me"));
    assert!(matches!(p, SaveRootPlan::Configured(ref s) if s == "C:\\Users\\me\\Documents\\Kyumaru"));
    let p = plan_save_root(&some("  ~/dumps/$USER  "), &None, &some("/home/me"));
    assert!(matches!(p, SaveRootPlan::Configured(ref s) if s == "/home/me/dumps//home/me"));
    let p = plan_save_root(&some(" out "), &None, &None);
    assert!(matches!(p, SaveRootPlan::Configured(ref s) if s == "out"));
    let p = plan_save_root(&some("   "), &some("C:\\Users\\me"), &some("/home/me"));
    assert!(matches!(p, SaveRootPlan::UnderDocuments(Some(ref s)) if s == "C:\\Users\\me"));
    let p = plan_save_root(&None, &None, &some("/home/me"));
    assert!(matches!(p, SaveRootPlan::UnderDocuments(Some(ref s)) if s == "/home/me"));
    let p = plan_save_root(&None, &None, &None);
    assert!(matches!(p, SaveRootPlan::UnderDocuments(None)));
}

#[test]
fn veteran_plans() {
    assert!(matches!(veteran_save_plan(&JsonValue::Null), VeteranPlan::NotArray));
    assert!(matches!(veteran_save_plan(&JsonValue::Array(vec![])), VeteranPlan::Empty));
    assert!(matches!(
        veteran_save_plan(&JsonValue::Array(vec![JsonValue::Null, JsonValue::Int(1)])),
        VeteranPlan::Save(2)
    ));
    assert_eq!(INVENTORY_FILE_NAME, "inventory.json");
    assert_eq!(VETERANS_FILE_NAME, "veterans.json");
}

#[test]
fn entry_checks() {
    assert_eq!(v2_entry_check(true, 2), InitResult::Success);
    assert_eq!(v2_entry_check(false, 2), InitResult::Error);
    assert_eq!(v2_entry_check(true, 1), InitResult::Error);
    assert_eq!(v3_entry_check(3), InitResult::Success);
    assert_eq!(v3_entry_check(2), InitResult::Error);
}

#[test]
fn text_helpers() {
    assert_eq!(i64_to_string(0), "0");
    assert_eq!(i64_to_string(30005), "30005");
    assert_eq!(i64_to_string(-42), "-42");
    assert_eq!(i64_to_string(i64::MIN), i64::MIN.to_string());
    assert_eq!(i64_to_string(i64::MAX), i64::MAX.to_string());
    assert_eq!(usize_to_string(352), "352");
    assert_eq!(replace_all("aaa", "aa", "b"), "ba");
    assert_eq!(replace_all("x~y~", "~", "/h"), "x/hy/h");
    assert_eq!(replace_all("héllo", "é", "e"), "hello");
    assert_eq!(trim_end_matches_char("a//", '/'), "a");
    assert_eq!(trim_end_matches_char("", '/'), "");
    assert!(str_contains("Gallop.WorkTrainedCharaData", "WorkTrainedCharaData"));
    assert!(!str_contains("Work", "WorkTrained"));
    assert!(str_contains("abc", ""));
}

#[test]
fn json_file_text_is_indented_json() {
    let doc = JsonValue::Object(vec![
        ("user_info".to_string(), JsonValue::Null),
        ("card_list".to_string(), JsonValue::Array(vec![JsonValue::Int(1)])),
    ]);
    assert_eq!(
        kyumaru::persistence::json_file_text(&doc),
        "{\n  \"card_list\": [\n    1\n  ],\n  \"user_info\": null\n}"
    );
}

#[test]
fn blank_output_path_uses_documents() {
    let p = plan_save_root(&some("\u{3000}\t \n"), &None, &some("/home/me"));
    assert!(matches!(p, SaveRootPlan::UnderDocuments(Some(ref s)) if s == "/home/me"));
    let p = plan_save_root(&some("\u{2003}dumps\u{85}"), &None, &None);
    assert!(matches!(p, SaveRootPlan::Configured(ref s) if s == "dumps"));
}
