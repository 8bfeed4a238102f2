use grammar_pipeline::codec::{merge_registry_text, MergeError};

fn md(names_exts: &[(&str, Option<&str>)]) -> String {
    let mut grammars = String::new();
    for (i, (name, ext)) in names_exts.iter().enumerate() {
        if i > 0 {
            grammars.push(',');
        }
        match ext {
            Some(e) => grammars.push_str(&format!(
                "{{\"name\":\"{}\",\"file-types\":[\"{}\"]}}",
                name, e
            )),
            None => grammars.push_str(&format!("{{\"name\":\"{}\"}}", name)),
        }
    }
    format!("{{\"grammars\":[{}]}}", grammars)
}

#[test]
fn first_merge_writes_one_entry() {
    let metadata = md(&[("demo", Some("demo"))]);
    let out = merge_registry_text(None, &metadata, "./out/libdemo.so").unwrap();
    assert_eq!(
        out,
        "{\"known_languages\":{\"demo\":{\"extension\":\"demo\",\"path\":\"./out/libdemo.so\"}}}"
    );
}

#[test]
fn empty_descriptor_writes_empty_registry() {
    let out = merge_registry_text(None, "{\"grammars\":[]}", "./out/libx.so").unwrap();
    assert_eq!(out, "{\"known_languages\":{}}");
}

#[test]
fn descriptor_without_grammars_list_writes_empty_registry() {
    let out = merge_registry_text(None, "{}", "./out/libx.so").unwrap();
    assert_eq!(out, "{\"known_languages\":{}}");
}

#[test]
fn missing_file_types_means_empty_extension() {
    let metadata = md(&[("demo", None)]);
    let out = merge_registry_text(None, &metadata, "./out/libdemo.so").unwrap();
    assert_eq!(
        out,
        "{\"known_languages\":{\"demo\":{\"extension\":\"\",\"path\":\"./out/libdemo.so\"}}}"
    );
}

#[test]
fn second_identical_merge_is_byte_identical() {
    let metadata = md(&[("demo", Some("demo"))]);
    let once = merge_registry_text(None, &metadata, "./out/libdemo.so").unwrap();
    let twice = merge_registry_text(Some(&once), &metadata, "./out/libdemo.so").unwrap();
    assert_eq!(once, twice);
}

#[test]
fn merge_order_of_distinct_names_does_not_matter() {
    let md_a = md(&[("ada", Some("adb"))]);
    let md_b = md(&[("bash", Some("sh"))]);
    let ab_1 = merge_registry_text(None, &md_a, "./out/libada.so").unwrap();
    let ab_2 = merge_registry_text(Some(&ab_1), &md_b, "./out/libbash.so").unwrap();
    let ba_1 = merge_registry_text(None, &md_b, "./out/libbash.so").unwrap();
    let ba_2 = merge_registry_text(Some(&ba_1), &md_a, "./out/libada.so").unwrap();
    assert_eq!(ab_2, ba_2);
}

#[test]
fn no_merge_is_lost_across_many_distinct_names() {
    let names = ["ada", "bash", "cpp", "dart", "elm"];
    let mut registry: Option<String> = None;
    for name in names.iter() {
        let metadata = md(&[(name, Some(name))]);
        let artifact = format!("./out/lib{}.so", name);
        let next = merge_registry_text(registry.as_deref(), &metadata, &artifact).unwrap();
        registry = Some(next);
    }
    let parsed: serde_json::Value = serde_json::from_str(registry.as_deref().unwrap()).unwrap();
    let langs = parsed
        .get("known_languages")
        .and_then(serde_json::Value::as_object)
        .unwrap();
    assert_eq!(langs.len(), names.len());
    for name in names.iter() {
        let entry = langs.get(*name).unwrap();
        assert_eq!(
            entry.get("path").and_then(serde_json::Value::as_str),
            Some(format!("./out/lib{}.so", name).as_str())
        );
        assert_eq!(
            entry.get("extension").and_then(serde_json::Value::as_str),
            Some(*name)
        );
    }
}

#[test]
fn unrelated_entries_are_preserved() {
    let first = merge_registry_text(None, &md(&[("ada", Some("adb"))]), "./out/libada.so").unwrap();
    let second =
        merge_registry_text(Some(&first), &md(&[("bash", Some("sh"))]), "./out/libbash.so")
            .unwrap();
    let parsed: serde_json::Value = serde_json::from_str(&second).unwrap();
    let langs = parsed
        .get("known_languages")
        .and_then(serde_json::Value::as_object)
        .unwrap();
    assert_eq!(
        langs.get("ada").unwrap().get("path").and_then(serde_json::Value::as_str),
        Some("./out/libada.so")
    );
    assert_eq!(
        langs.get("bash").unwrap().get("extension").and_then(serde_json::Value::as_str),
        Some("sh")
    );
}

#[test]
fn same_name_twice_last_declaration_wins() {
    let metadata =
        "{\"grammars\":[{\"name\":\"demo\",\"file-types\":[\"a\"]},{\"name\":\"demo\",\"file-types\":[\"b\"]}]}";
    let out = merge_registry_text(None, metadata, "./out/libdemo.so").unwrap();
    assert_eq!(
        out,
        "{\"known_languages\":{\"demo\":{\"extension\":\"b\",\"path\":\"./out/libdemo.so\"}}}"
    );
}

#[test]
fn grammar_without_text_name_is_skipped() {
    let metadata = "{\"grammars\":[{\"file-types\":[\"a\"]},{\"name\":7}]}";
    let out = merge_registry_text(None, metadata, "./out/libx.so").unwrap();
    assert_eq!(out, "{\"known_languages\":{}}");
}

#[test]
fn unparsable_metadata_is_an_error() {
    let r = merge_registry_text(None, "not json", "./out/libx.so");
    assert_eq!(r.unwrap_err(), MergeError::MetadataSyntax);
}

#[test]
fn unparsable_registry_is_an_error() {
    let r = merge_registry_text(Some("{oops"), &md(&[("demo", None)]), "./out/libx.so");
    assert_eq!(r.unwrap_err(), MergeError::RegistrySyntax);
}

#[test]
fn entries_of_other_shapes_are_preserved() {
    let existing = "{\"known_languages\":{\"demo\":42}}";
    let out =
        merge_registry_text(Some(existing), &md(&[("x", Some("x"))]), "./out/libx.so").unwrap();
    assert_eq!(
        out,
        "{\"known_languages\":{\"demo\":42,\"x\":{\"extension\":\"x\",\"path\":\"./out/libx.so\"}}}"
    );
}

#[test]
fn extra_keys_of_existing_entries_are_preserved() {
    let existing = "{\"known_languages\":{\"demo\":{\"extension\":\"demo\",\"note\":\"hand-added\",\"path\":\"p\"}}}";
    let out = merge_registry_text(Some(existing), "{\"grammars\":[]}", "./out/liby.so").unwrap();
    assert_eq!(out, existing);
}

#[test]
fn declared_name_replaces_any_prior_tree() {
    let existing = "{\"known_languages\":{\"demo\":42}}";
    let out = merge_registry_text(Some(existing), &md(&[("demo", Some("d"))]), "./out/libdemo.so")
        .unwrap();
    assert_eq!(
        out,
        "{\"known_languages\":{\"demo\":{\"extension\":\"d\",\"path\":\"./out/libdemo.so\"}}}"
    );
}

#[test]
fn registry_without_known_languages_starts_fresh() {
    let out = merge_registry_text(Some("{}"), &md(&[("demo", None)]), "./out/libdemo.so").unwrap();
    let parsed: serde_json::Value = serde_json::from_str(&out).unwrap();
    assert!(parsed.get("known_languages").unwrap().get("demo").is_some());
}

#[test]
fn merge_error_descriptions_differ() {
    assert_ne!(
        MergeError::MetadataSyntax.describe(),
        MergeError::RegistrySyntax.describe()
    );
    assert_ne!(
        MergeError::RegistrySyntax.describe(),
        MergeError::RegistryDuplicate.describe()
    );
}
