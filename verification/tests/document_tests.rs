use cmake_forge::codec::{load, save, LoadError};
use cmake_forge::doc::{default_document, BuildJson, CacheJson, ConfigureJson, RunJson};

fn sample_doc() -> CacheJson {
    CacheJson {
        workspace: String::from("/home/user/project"),
        build_targets: vec![String::from("t1"), String::from("t2")],
        current_build_target: String::from("t1"),
        builds: vec![BuildJson {
            name: String::from("t1"),
            command: String::from("cmake"),
            args: vec![String::from("--build"), String::from(".")],
        }],
        runs: vec![RunJson {
            name: String::from("t1"),
            command: String::from("./app"),
            args: vec![],
            pre_build: true,
        }],
        configurations: vec![ConfigureJson {
            name: String::from("t1"),
            command: String::from("cmake"),
            args: vec![String::from("-G"), String::from("Ninja")],
        }],
    }
}

fn assert_docs_equal(a: &CacheJson, b: &CacheJson) {
    assert_eq!(a.workspace, b.workspace);
    assert_eq!(a.build_targets, b.build_targets);
    assert_eq!(a.current_build_target, b.current_build_target);
    assert_eq!(a.builds.len(), b.builds.len());
    for (x, y) in a.builds.iter().zip(b.builds.iter()) {
        assert_eq!(x.name, y.name);
        assert_eq!(x.command, y.command);
        assert_eq!(x.args, y.args);
    }
    assert_eq!(a.runs.len(), b.runs.len());
    for (x, y) in a.runs.iter().zip(b.runs.iter()) {
        assert_eq!(x.name, y.name);
        assert_eq!(x.command, y.command);
        assert_eq!(x.args, y.args);
        assert_eq!(x.pre_build, y.pre_build);
    }
    assert_eq!(a.configurations.len(), b.configurations.len());
    for (x, y) in a.configurations.iter().zip(b.configurations.iter()) {
        assert_eq!(x.name, y.name);
        assert_eq!(x.command, y.command);
        assert_eq!(x.args, y.args);
    }
}

#[test]
fn round_trip_sample() {
    let d = sample_doc();
    let text = save(&d);
    let d2 = load(&text).unwrap();
    assert_docs_equal(&d, &d2);
}

#[test]
fn round_trip_default_document() {
    let d = default_document("/tmp/ws");
    let text = save(&d);
    let d2 = load(&text).unwrap();
    assert_docs_equal(&d, &d2);
}

#[test]
fn round_trip_escapes_and_unicode() {
    let mut d = sample_doc();
    d.workspace = String::from("a \"quoted\" \\ path\nwith\ttabs\u{1}and café—日本");
    d.builds[0].args = vec![String::from(""), String::from("\r\n"), String::from("\u{0008}\u{000C}")];
    let text = save(&d);
    let d2 = load(&text).unwrap();
    assert_docs_equal(&d, &d2);
}

#[test]
fn round_trip_empty_catalogs() {
    let mut d = sample_doc();
    d.build_targets = vec![];
    d.builds = vec![];
    d.runs = vec![];
    d.configurations = vec![];
    let text = save(&d);
    let d2 = load(&text).unwrap();
    assert_docs_equal(&d, &d2);
}

#[test]
fn save_output_is_valid_json() {
    let d = default_document("/tmp/ws");
    let text = save(&d);
    let v: serde_json::Value = serde_json::from_str(&text).unwrap();
    assert_eq!(v.get("workspace").unwrap().as_str().unwrap(), "/tmp/ws");
    assert_eq!(v.get("current_build_target").unwrap().as_str().unwrap(), "test1");
    let targets = v.get("build_targets").unwrap().as_array().unwrap();
    assert_eq!(targets.len(), 2);
    assert_eq!(targets[0].as_str().unwrap(), "test1");
    assert_eq!(targets[1].as_str().unwrap(), "test2");
    let builds = v.get("builds").unwrap().as_array().unwrap();
    assert_eq!(builds.len(), 1);
    assert_eq!(builds[0].get("command").unwrap().as_str().unwrap(), "cmake ..");
    let runs = v.get("runs").unwrap().as_array().unwrap();
    assert_eq!(runs.len(), 2);
    assert_eq!(runs[0].get("pre_build").unwrap().as_bool().unwrap(), true);
    let confs = v.get("configurations").unwrap().as_array().unwrap();
    assert_eq!(confs[0].get("args").unwrap().as_array().unwrap().len(), 4);
}

#[test]
fn save_escapes_match_json_rules() {
    let mut d = sample_doc();
    d.workspace = String::from("say \"hi\"\\\n\u{1}");
    let text = save(&d);
    let v: serde_json::Value = serde_json::from_str(&text).unwrap();
    assert_eq!(v.get("workspace").unwrap().as_str().unwrap(), "say \"hi\"\\\n\u{1}");
}

#[test]
fn load_accepts_extra_whitespace() {
    let d = sample_doc();
    let text = save(&d);
    let spaced = text.replace(": ", " :\n  ");
    let d2 = load(&spaced).unwrap();
    assert_docs_equal(&d, &d2);
}

#[test]
fn load_rejects_malformed_text() {
    assert!(matches!(load(""), Err(LoadError::Invalid)));
    assert!(matches!(load("not json"), Err(LoadError::Invalid)));
    assert!(matches!(load("{"), Err(LoadError::Invalid)));
    assert!(matches!(load("[]"), Err(LoadError::Invalid)));
}

#[test]
fn load_rejects_wrong_schema() {
    // wrong type for workspace
    let text = "{\n  \"workspace\": 3,\n  \"build_targets\": []}";
    assert!(matches!(load(text), Err(LoadError::Invalid)));
    // missing members after workspace
    let text2 = "{\n  \"workspace\": \"w\"\n}";
    assert!(matches!(load(text2), Err(LoadError::Invalid)));
    // trailing garbage after the document
    let d = sample_doc();
    let mut text3 = save(&d);
    text3.push_str("x");
    assert!(matches!(load(&text3), Err(LoadError::Invalid)));
}

#[test]
fn load_error_message() {
    assert_eq!(load("").unwrap_err().message(), "invalid configuration document");
}

#[test]
fn default_document_holds_the_scaffold() {
    let d = default_document("/work/space");
    assert_eq!(d.workspace, "/work/space");
    assert_eq!(d.build_targets, vec!["test1".to_string(), "test2".to_string()]);
    assert_eq!(d.current_build_target, "test1");
    assert_eq!(d.builds.len(), 1);
    assert_eq!(d.builds[0].name, "test1");
    assert_eq!(d.builds[0].command, "cmake ..");
    assert_eq!(d.builds[0].args, vec!["-DCMAKE_BUILD_TYPE=Debug".to_string()]);
    assert_eq!(d.runs.len(), 2);
    assert_eq!(d.runs[0].name, "test1");
    assert_eq!(d.runs[1].name, "test2");
    assert_eq!(d.runs[0].command, "/my/super/app");
    assert!(d.runs[0].pre_build);
    assert!(d.runs[1].pre_build);
    assert_eq!(d.configurations.len(), 1);
    assert_eq!(d.configurations[0].command, "cmake");
    assert_eq!(
        d.configurations[0].args,
        vec![
            "-DCMAKE_BUILD_TYPE=Debug".to_string(),
            "-DCMAKE_EXPORT_COMPILE_COMMANDS=ON".to_string(),
            "-G".to_string(),
            "Ninja".to_string(),
        ]
    );
}

#[test]
fn load_accepts_reordered_members() {
    let text = "{\"build_targets\": [], \"workspace\": \"\", \"current_build_target\": \"x\", \
                \"builds\": [], \"runs\": [], \"configurations\": []}";
    let d = load(text).unwrap();
    assert_eq!(d.workspace, "");
    assert_eq!(d.current_build_target, "x");
    assert!(d.build_targets.is_empty());
    assert!(d.builds.is_empty());
    assert!(d.runs.is_empty());
    assert!(d.configurations.is_empty());
}

#[test]
fn load_accepts_reordered_entry_members() {
    let text = "{\"workspace\": \"w\", \"build_targets\": [\"t\"], \"current_build_target\": \"t\",\
                \"builds\": [{\"args\": [\"-j\"], \"command\": \"make\", \"name\": \"t\"}],\
                \"runs\": [{\"pre_build\": false, \"name\": \"t\", \"args\": [], \"command\": \"./a\"}],\
                \"configurations\": []}";
    let d = load(text).unwrap();
    assert_eq!(d.builds[0].name, "t");
    assert_eq!(d.builds[0].command, "make");
    assert_eq!(d.builds[0].args, vec!["-j".to_string()]);
    assert_eq!(d.runs[0].command, "./a");
    assert!(!d.runs[0].pre_build);
}

#[test]
fn load_accepts_general_unicode_escapes() {
    let text = "{\"workspace\": \"\\u0041\\u00e9\\u4e16\\uD83D\\uDE00\", \"build_targets\": [],\
                \"current_build_target\": \"\\u0078\", \"builds\": [], \"runs\": [],\
                \"configurations\": []}";
    let d = load(text).unwrap();
    assert_eq!(d.workspace, "Aé世\u{1F600}");
    assert_eq!(d.current_build_target, "x");
}

#[test]
fn load_rejects_duplicate_and_unknown_members() {
    // duplicate member
    let dup = "{\"workspace\": \"a\", \"workspace\": \"b\", \"build_targets\": [],\
               \"current_build_target\": \"x\", \"builds\": [], \"runs\": [],\
               \"configurations\": []}";
    assert!(matches!(load(dup), Err(LoadError::Invalid)));
    // member outside the schema
    let unk = "{\"workspace\": \"a\", \"extra\": \"v\", \"build_targets\": [],\
               \"current_build_target\": \"x\", \"builds\": [], \"runs\": [],\
               \"configurations\": []}";
    assert!(matches!(load(unk), Err(LoadError::Invalid)));
    // lone surrogate escape
    let lone = "{\"workspace\": \"\\uD83D\", \"build_targets\": [],\
                \"current_build_target\": \"x\", \"builds\": [], \"runs\": [],\
                \"configurations\": []}";
    assert!(matches!(load(lone), Err(LoadError::Invalid)));
}
