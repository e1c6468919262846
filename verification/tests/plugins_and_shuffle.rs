use rvpacker_json_txt::inject::inject_plugins;
use rvpacker_json_txt::model::Plugin;
use rvpacker_json_txt::shuffle::{shuffle_lines, shuffle_words};
use rvpacker_json_txt::shuffle_words as shuffle_words_reexport;
use rvpacker_json_txt::tmap::EngineError;

fn plugin(name: &str, params: &[(&str, Option<&str>)]) -> Plugin {
    Plugin {
        name: name.to_owned(),
        parameters: params
            .iter()
            .map(|(k, v)| ((*k).to_owned(), v.map(|s| s.to_owned())))
            .collect(),
    }
}

#[test]
fn translatable_plugin_parameters_are_replaced() {
    let plugins = vec![plugin("YEP_ItemCore", &[("Label", Some("Items")), ("Count", None)])];
    let orig = vec!["Items".to_owned()];
    let trans = vec!["Objets".to_owned()];
    let out = inject_plugins(&plugins, &orig, &trans).unwrap();
    assert_eq!(out[0].parameters[0].1.as_deref(), Some("Objets"));
    assert_eq!(out[0].parameters[1].1, None);
}

#[test]
fn unknown_plugin_is_untouched() {
    let plugins = vec![plugin("SomeOtherPlugin", &[("Label", Some("Items"))])];
    let orig = vec!["Items".to_owned()];
    let trans = vec!["Objets".to_owned()];
    let out = inject_plugins(&plugins, &orig, &trans).unwrap();
    assert_eq!(out, plugins);
}

#[test]
fn options_core_categories_fold_all_rows() {
    let plugins = vec![plugin(
        "YEP_OptionsCore",
        &[
            ("OptionsCategories", Some("menu: Audio, Video, Audio")),
            ("Other", Some("Audio")),
        ],
    )];
    let orig = vec!["Audio".to_owned(), "Video".to_owned()];
    let trans = vec!["Son".to_owned(), "Image".to_owned()];
    let out = inject_plugins(&plugins, &orig, &trans).unwrap();
    assert_eq!(out[0].parameters[0].1.as_deref(), Some("menu: Son, Image, Audio"));
    assert_eq!(out[0].parameters[1].1.as_deref(), Some("Son"));
}

#[test]
fn plugin_pool_mismatch_is_rejected() {
    let plugins = vec![plugin("YEP_ItemCore", &[])];
    let orig = vec!["a".to_owned()];
    let trans: Vec<String> = Vec::new();
    assert_eq!(inject_plugins(&plugins, &orig, &trans), Err(EngineError::PoolMismatch));
}

#[test]
fn plugin_lookup_misses_keep_text() {
    let plugins = vec![plugin("Olivia_OctoBattle", &[("Label", Some("Untouched"))])];
    let orig: Vec<String> = Vec::new();
    let trans: Vec<String> = Vec::new();
    let out = inject_plugins(&plugins, &orig, &trans).unwrap();
    assert_eq!(out, plugins);
}

fn sorted(mut v: Vec<String>) -> Vec<String> {
    v.sort();
    v
}

#[test]
fn shuffle_lines_keeps_the_same_lines() {
    let original = vec![
        "alpha".to_owned(),
        "beta".to_owned(),
        "gamma".to_owned(),
        "delta".to_owned(),
        "epsilon".to_owned(),
    ];
    let mut v = original.clone();
    shuffle_lines(&mut v);
    assert_eq!(v.len(), original.len());
    assert_eq!(sorted(v), sorted(original));
}

#[test]
fn shuffle_words_keeps_words_and_whitespace() {
    let s = "  one two\tthree  ";
    let r = shuffle_words(s);
    let mut words: Vec<&str> = s.split_whitespace().collect();
    let mut out_words: Vec<&str> = r.split_whitespace().collect();
    words.sort();
    out_words.sort();
    assert_eq!(words, out_words);
    assert!(r.starts_with("  "));
    assert!(r.ends_with("  "));
    // The gap tokens stay where they were: the runs of whitespace, read in
    // order, are identical.
    let in_gaps: Vec<&str> =
        s.split(|c: char| !c.is_whitespace()).filter(|g| !g.is_empty()).collect();
    let out_gaps: Vec<&str> =
        r.split(|c: char| !c.is_whitespace()).filter(|g| !g.is_empty()).collect();
    assert_eq!(in_gaps, out_gaps);
}

#[test]
fn shuffle_words_of_single_word_is_identity() {
    assert_eq!(shuffle_words_reexport("lonely"), "lonely");
    assert_eq!(shuffle_words_reexport(""), "");
    assert_eq!(shuffle_words_reexport("   "), "   ");
}

#[test]
fn blank_plugin_rows_replace_nothing() {
    let plugins = vec![plugin(
        "YEP_OptionsCore",
        &[("OptionsCategories", Some("menu: Audio")), ("Other", Some("Audio"))],
    )];
    let orig = vec!["Audio".to_owned()];
    let trans = vec!["".to_owned()];
    let out = inject_plugins(&plugins, &orig, &trans).unwrap();
    assert_eq!(out, plugins);
}
