use swcify::translations::{get_locale_id, get_locale_ids, get_translation_file_paths, is_json_file, stem, text_le_exec};

fn strings(v: &[&str]) -> Vec<String> {
    v.iter().map(|s| s.to_string()).collect()
}

#[test]
fn translation_files_are_the_json_entries_in_order() {
    let r = get_translation_file_paths(Some(strings(&["fr.json", "notes.md", "de.json", ".json", "x.JSON"])));
    assert_eq!(r, Some(strings(&["fr.json", "de.json"])));
}

#[test]
fn no_directory_or_no_json_means_no_translations() {
    assert_eq!(get_translation_file_paths(None), None);
    assert_eq!(get_translation_file_paths(Some(vec![])), None);
    assert_eq!(get_translation_file_paths(Some(strings(&["a.txt", "json"]))), None);
}

#[test]
fn json_extension_follows_the_last_dot() {
    assert!(is_json_file("en.json"));
    assert!(is_json_file("en.GB.json"));
    assert!(is_json_file("..json"));
    assert!(!is_json_file(".json"));
    assert!(!is_json_file("json"));
    assert!(!is_json_file("en.json.bak"));
    assert!(!is_json_file(".."));
}

#[test]
fn stems_drop_the_extension() {
    assert_eq!(stem("zh-TW.json"), "zh-TW");
    assert_eq!(stem("a.b.json"), "a.b");
    assert_eq!(stem(".json"), ".json");
    assert_eq!(stem("README"), "README");
    assert_eq!(stem(".."), "..");
    assert_eq!(stem("a."), "a");
}

#[test]
fn locale_ids_are_sorted_without_the_fallback() {
    let files = strings(&["zh-TW.json", "en.json", "fr.json", "de.json", "en-GB.json"]);
    assert_eq!(get_locale_ids(&files, "en"), strings(&["de", "en-GB", "fr", "zh-TW"]));
    assert_eq!(get_locale_ids(&files, "fr"), strings(&["de", "en", "en-GB", "zh-TW"]));
    assert_eq!(get_locale_ids(&strings(&["en.json"]), "en"), Vec::<String>::new());
}

#[test]
fn locale_ids_order_is_the_order_of_strings() {
    let files = strings(&["b.json", "B.json", "ä.json", "a.json", "ab.json", "a.json"]);
    let mut expected = strings(&["b", "B", "ä", "a", "ab", "a"]);
    expected.sort();
    assert_eq!(get_locale_ids(&files, "x"), expected);
}

#[test]
fn text_order_matches_string_order() {
    let words = ["", "a", "ab", "b", "B", "é", "a b", "ab"];
    for x in words.iter() {
        for y in words.iter() {
            assert_eq!(text_le_exec(x, y), x <= y, "{} {}", x, y);
        }
    }
}

#[test]
fn locale_id_is_underscore_and_locale() {
    assert_eq!(get_locale_id("en"), "_en");
    assert_eq!(get_locale_id("zh-TW"), "_zh-TW");
    assert_eq!(get_locale_id(""), "_");
}
