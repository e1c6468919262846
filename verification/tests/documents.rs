use rvpacker_json_txt::classify::{builtin_profiles, detect_profile, termina_profile};
use rvpacker_json_txt::extract::{extract_map, extract_other, extract_system};
use rvpacker_json_txt::inject::{inject_map, inject_other, inject_system};
use rvpacker_json_txt::model::{
    CommandNode, EntityDocument, EntityRecord, Event, MapDocument, Page, Param, SystemDocument,
    TermGroup, TermValue,
};
use rvpacker_json_txt::merge::{merge_map, merge_other};
use rvpacker_json_txt::pool::TextPool;
use rvpacker_json_txt::tmap::{build_translation_map, TranslationMap};

fn dialogue(code: u64, text: &str) -> CommandNode {
    CommandNode { code, parameters: vec![Param::Text(text.to_owned())] }
}

fn sample_map() -> MapDocument {
    MapDocument {
        display_name: "Town".to_owned(),
        events: vec![
            None,
            Some(Event {
                pages: vec![Page {
                    list: vec![
                        dialogue(401, "hello"),
                        dialogue(401, "world"),
                        dialogue(101, "speaker"),
                        dialogue(401, "bye"),
                    ],
                }],
            }),
            None,
        ],
    }
}

fn gather(pool: &TextPool) -> Vec<String> {
    let mut out = Vec::new();
    let mut i = 0;
    while i < pool.len() {
        out.push(pool.get(i).clone());
        i += 1;
    }
    out
}

#[test]
fn map_extraction_collects_runs_and_name() {
    let doc = sample_map();
    let mut text_pool = TextPool::new();
    let mut names_pool = TextPool::new();
    extract_map(&doc, &None, false, &mut text_pool, &mut names_pool);
    assert_eq!(gather(&text_pool), vec!["hello\nworld".to_owned(), "bye".to_owned()]);
    assert_eq!(gather(&names_pool), vec!["Town".to_owned()]);
}

#[test]
fn map_injection_translates_runs_and_name() {
    let doc = sample_map();
    let mut m = TranslationMap::new();
    m.insert("hello\nworld", "bonjour\nmonde");
    let mut names = TranslationMap::new();
    names.insert("Town", "Ville");
    let out = inject_map(&doc, &None, false, &m, &names);
    assert_eq!(out.display_name, "Ville");
    match &out.events[1] {
        Some(ev) => {
            assert_eq!(ev.pages[0].list[0].parameters[0], Param::Text("bonjour".to_owned()));
            assert_eq!(ev.pages[0].list[1].parameters[0], Param::Text("monde".to_owned()));
            assert_eq!(ev.pages[0].list[3].parameters[0], Param::Text("bye".to_owned()));
        },
        None => panic!("event lost"),
    }
}

#[test]
fn map_round_trip_reproduces_document() {
    let doc = sample_map();
    let mut text_pool = TextPool::new();
    let mut names_pool = TextPool::new();
    extract_map(&doc, &None, false, &mut text_pool, &mut names_pool);
    let text_lines = gather(&text_pool);
    let name_lines = gather(&names_pool);
    let m = build_translation_map(&text_lines, &text_lines).unwrap();
    let names = build_translation_map(&name_lines, &name_lines).unwrap();
    let out = inject_map(&doc, &None, false, &m, &names);
    assert_eq!(out, doc);
}

#[test]
fn sentinel_slot_is_never_visited() {
    let mut doc = sample_map();
    doc.events[0] = Some(Event {
        pages: vec![Page { list: vec![dialogue(401, "sentinel text")] }],
    });
    let mut text_pool = TextPool::new();
    let mut names_pool = TextPool::new();
    extract_map(&doc, &None, false, &mut text_pool, &mut names_pool);
    assert!(!gather(&text_pool).iter().any(|u| u.contains("sentinel")));
    let mut m = TranslationMap::new();
    m.insert("sentinel text", "changed");
    let out = inject_map(&doc, &None, false, &m, &TranslationMap::new());
    assert_eq!(out.events[0], doc.events[0]);
}

#[test]
fn romanization_mismatch_makes_every_lookup_miss() {
    let doc = MapDocument {
        display_name: String::new(),
        events: vec![
            None,
            Some(Event {
                pages: vec![Page {
                    list: vec![dialogue(401, "\u{300C}konnichiwa\u{300D}")],
                }],
            }),
        ],
    };
    let mut text_pool = TextPool::new();
    let mut names_pool = TextPool::new();
    extract_map(&doc, &None, true, &mut text_pool, &mut names_pool);
    assert_eq!(gather(&text_pool), vec!["'konnichiwa'".to_owned()]);
    let lines = gather(&text_pool);
    let trans = vec!["hello there".to_owned()];
    let m = build_translation_map(&lines, &trans).unwrap();
    let out = inject_map(&doc, &None, false, &m, &TranslationMap::new());
    assert_eq!(out, doc);
    let translated = inject_map(&doc, &None, true, &m, &TranslationMap::new());
    assert_ne!(translated, doc);
}

fn sample_entities(filename: &str) -> EntityDocument {
    EntityDocument {
        filename: filename.to_owned(),
        records: vec![
            None,
            Some(EntityRecord::Flat {
                name: Some("Sword".to_owned()),
                nickname: None,
                description: Some("A sharp blade.".to_owned()),
                note: Some("note body".to_owned()),
            }),
        ],
    }
}

#[test]
fn flat_records_extract_attributes() {
    let doc = sample_entities("Weapons.json");
    let mut pool = TextPool::new();
    extract_other(&doc, &None, false, &mut pool);
    assert_eq!(
        gather(&pool),
        vec!["Sword".to_owned(), "A sharp blade.".to_owned(), "note body".to_owned()]
    );
}

#[test]
fn flat_records_inject_attributes() {
    let doc = sample_entities("Weapons.json");
    let mut m = TranslationMap::new();
    m.insert("Sword", "Epee");
    m.insert("A sharp blade.", "Une lame.");
    let out = inject_other(&doc, &None, false, &m);
    match &out.records[1] {
        Some(EntityRecord::Flat { name, description, note, .. }) => {
            assert_eq!(name.as_deref(), Some("Epee"));
            assert_eq!(description.as_deref(), Some("Une lame."));
            assert_eq!(note.as_deref(), Some("note body"));
        },
        _ => panic!("record shape lost"),
    }
}

#[test]
fn entity_round_trip_with_paged_records() {
    let doc = EntityDocument {
        filename: "Troops.json".to_owned(),
        records: vec![
            None,
            Some(EntityRecord::Paged {
                pages: vec![Page {
                    list: vec![dialogue(401, "fight"), dialogue(405, "credit line")],
                }],
            }),
            Some(EntityRecord::Listed { list: vec![dialogue(401, "common event text")] }),
        ],
    };
    let mut pool = TextPool::new();
    extract_other(&doc, &None, false, &mut pool);
    let lines = gather(&pool);
    let m = build_translation_map(&lines, &lines).unwrap();
    let out = inject_other(&doc, &None, false, &m);
    assert_eq!(out, doc);
}

#[test]
fn termina_note_rules_follow_the_file() {
    let profile = Some(termina_profile());
    let items = EntityDocument {
        filename: "Items.json".to_owned(),
        records: vec![
            None,
            Some(EntityRecord::Flat {
                name: None,
                nickname: None,
                description: None,
                note: Some("effects <Menu Category: Food> more".to_owned()),
            }),
        ],
    };
    let mut pool = TextPool::new();
    extract_other(&items, &profile, false, &mut pool);
    assert_eq!(gather(&pool), vec!["<Menu Category: Food>".to_owned()]);

    let armors = EntityDocument {
        filename: "Armors.json".to_owned(),
        records: vec![
            None,
            Some(EntityRecord::Flat {
                name: None,
                nickname: None,
                description: None,
                note: Some("/// hidden".to_owned()),
            }),
            Some(EntityRecord::Flat {
                name: None,
                nickname: None,
                description: None,
                note: Some("visible note".to_owned()),
            }),
        ],
    };
    let mut pool2 = TextPool::new();
    extract_other(&armors, &profile, false, &mut pool2);
    assert_eq!(gather(&pool2), vec!["visible note".to_owned()]);

    let weapons = EntityDocument {
        filename: "Weapons.json".to_owned(),
        records: vec![
            None,
            Some(EntityRecord::Flat {
                name: None,
                nickname: None,
                description: None,
                note: Some("never taken".to_owned()),
            }),
        ],
    };
    let mut pool3 = TextPool::new();
    extract_other(&weapons, &profile, false, &mut pool3);
    assert_eq!(pool3.len(), 0);
}

#[test]
fn termina_marker_note_is_replaced_in_place() {
    let profile = Some(termina_profile());
    let items = sample_marker_doc();
    let mut m = TranslationMap::new();
    m.insert("<Menu Category: Food>", "<Menu Category: Nourriture>");
    let out = inject_other(&items, &profile, false, &m);
    match &out.records[1] {
        Some(EntityRecord::Flat { note, .. }) => {
            assert_eq!(note.as_deref(), Some("effects <Menu Category: Nourriture> more"));
        },
        _ => panic!("record shape lost"),
    }
}

fn sample_marker_doc() -> EntityDocument {
    EntityDocument {
        filename: "Items.json".to_owned(),
        records: vec![
            None,
            Some(EntityRecord::Flat {
                name: None,
                nickname: None,
                description: None,
                note: Some("effects <Menu Category: Food> more".to_owned()),
            }),
        ],
    }
}

#[test]
fn termina_system_text_filter() {
    let profile = Some(termina_profile());
    let gab = CommandNode {
        code: 356,
        parameters: vec![Param::Text("GabText hello".to_owned())],
    };
    let other = CommandNode {
        code: 356,
        parameters: vec![Param::Text("PlaySound bell".to_owned())],
    };
    let unfinished = CommandNode {
        code: 356,
        parameters: vec![Param::Text("choice_text item????".to_owned())],
    };
    let ok_choice = CommandNode {
        code: 356,
        parameters: vec![Param::Text("choice_text item".to_owned())],
    };
    let list = vec![gab, other, unfinished, ok_choice];
    let mut pool = TextPool::new();
    rvpacker_json_txt::runs::extract_list(
        &list,
        &rvpacker_json_txt::classify::DocKind::MapFamily,
        &profile,
        false,
        &mut pool,
    );
    assert_eq!(
        gather(&pool),
        vec!["GabText hello".to_owned(), "choice_text item".to_owned()]
    );
}

#[test]
fn profile_detection_is_case_insensitive_substring() {
    let profiles = builtin_profiles();
    assert_eq!(detect_profile("Fear & Hunger 2: TERMINA", &profiles), Some(0));
    assert_eq!(detect_profile("Some Other Game", &profiles), None);
}

fn sample_system() -> SystemDocument {
    SystemDocument {
        game_title: "My Game".to_owned(),
        armor_types: vec!["Heavy".to_owned(), "".to_owned()],
        elements: vec!["Fire".to_owned()],
        equip_types: vec!["Shield".to_owned()],
        skill_types: vec!["Magic".to_owned()],
        weapon_types: vec!["Axe".to_owned()],
        terms: vec![
            TermGroup {
                key: "basic".to_owned(),
                value: TermValue::StringList(vec![Some("Level".to_owned()), None]),
            },
            TermGroup {
                key: "messages".to_owned(),
                value: TermValue::MessageMap(vec![(
                    "actionFailure".to_owned(),
                    "It failed!".to_owned(),
                )]),
            },
        ],
    }
}

#[test]
fn system_extraction_walks_vocabulary_and_terms() {
    let doc = sample_system();
    let mut pool = TextPool::new();
    extract_system(&doc, false, &mut pool);
    assert_eq!(
        gather(&pool),
        vec![
            "Heavy".to_owned(),
            "Fire".to_owned(),
            "Shield".to_owned(),
            "My Game".to_owned(),
            "Magic".to_owned(),
            "Level".to_owned(),
            "It failed!".to_owned(),
            "Axe".to_owned(),
        ]
    );
}

#[test]
fn system_round_trip_reproduces_document() {
    let doc = sample_system();
    let mut pool = TextPool::new();
    extract_system(&doc, false, &mut pool);
    let lines = gather(&pool);
    let m = build_translation_map(&lines, &lines).unwrap();
    let out = inject_system(&doc, false, &m);
    assert_eq!(out, doc);
}

#[test]
fn system_injection_translates_terms() {
    let doc = sample_system();
    let mut m = TranslationMap::new();
    m.insert("It failed!", "Rate!");
    m.insert("Fire", "Feu");
    let out = inject_system(&doc, false, &m);
    assert_eq!(out.elements, vec!["Feu".to_owned()]);
    match &out.terms[1].value {
        TermValue::MessageMap(ps) => assert_eq!(ps[0].1, "Rate!"),
        _ => panic!("terms shape lost"),
    }
}

#[test]
fn merge_map_keeps_sentinel_and_merges_pages() {
    let doc = sample_map();
    let merged = merge_map(&doc);
    assert_eq!(merged.display_name, doc.display_name);
    assert_eq!(merged.events[0], None);
    match &merged.events[1] {
        Some(ev) => {
            let list = &ev.pages[0].list;
            assert_eq!(list.len(), 3);
            assert_eq!(list[0].parameters[0], Param::Text("hello\nworld".to_owned()));
        },
        None => panic!("event lost"),
    }
}

#[test]
fn merge_other_merges_listed_records() {
    let doc = EntityDocument {
        filename: "CommonEvents.json".to_owned(),
        records: vec![
            None,
            Some(EntityRecord::Listed {
                list: vec![dialogue(401, "a"), dialogue(401, "b")],
            }),
        ],
    };
    let merged = merge_other(&doc);
    match &merged.records[1] {
        Some(EntityRecord::Listed { list }) => {
            assert_eq!(list.len(), 1);
            assert_eq!(list[0].parameters[0], Param::Text("a\nb".to_owned()));
        },
        _ => panic!("record shape lost"),
    }
}

#[test]
fn fresh_blank_stub_changes_nothing() {
    let doc = sample_map();
    let mut text_pool = TextPool::new();
    let mut names_pool = TextPool::new();
    extract_map(&doc, &None, false, &mut text_pool, &mut names_pool);
    let text_lines = gather(&text_pool);
    let blank_text: Vec<String> = text_lines.iter().map(|_| String::new()).collect();
    let name_lines = gather(&names_pool);
    let blank_names: Vec<String> = name_lines.iter().map(|_| String::new()).collect();
    let m = build_translation_map(&text_lines, &blank_text).unwrap();
    let names = build_translation_map(&name_lines, &blank_names).unwrap();
    let out = inject_map(&doc, &None, false, &m, &names);
    assert_eq!(out, doc);
}

#[test]
fn blank_title_translation_keeps_the_title() {
    let doc = sample_system();
    let mut pool = TextPool::new();
    extract_system(&doc, false, &mut pool);
    let lines = gather(&pool);
    let blanks: Vec<String> = lines.iter().map(|_| String::new()).collect();
    let m = build_translation_map(&lines, &blanks).unwrap();
    let out = inject_system(&doc, false, &m);
    assert_eq!(out, doc);
    assert_eq!(out.game_title, "My Game");
}

#[test]
fn untranslated_fields_keep_their_whitespace() {
    let doc = SystemDocument {
        game_title: " G ".to_owned(),
        armor_types: vec![],
        elements: vec![" Fire ".to_owned()],
        equip_types: vec![],
        skill_types: vec![],
        weapon_types: vec![],
        terms: vec![],
    };
    let empty = TranslationMap::new();
    let out = inject_system(&doc, false, &empty);
    assert_eq!(out, doc);
    assert_eq!(out.game_title, " G ");
    assert_eq!(out.elements, vec![" Fire ".to_owned()]);
}

#[test]
fn trimmed_key_still_hits_for_padded_fields() {
    let doc = SystemDocument {
        game_title: " G ".to_owned(),
        armor_types: vec![],
        elements: vec![" Fire ".to_owned()],
        equip_types: vec![],
        skill_types: vec![],
        weapon_types: vec![],
        terms: vec![],
    };
    let mut m = TranslationMap::new();
    m.insert("Fire", "Feu");
    m.insert("G", "J");
    let out = inject_system(&doc, false, &m);
    assert_eq!(out.elements, vec!["Feu".to_owned()]);
    assert_eq!(out.game_title, "J");
}

#[test]
fn untranslated_attributes_keep_their_whitespace() {
    let doc = EntityDocument {
        filename: "Weapons.json".to_owned(),
        records: vec![
            None,
            Some(EntityRecord::Flat {
                name: Some(" Sword ".to_owned()),
                nickname: None,
                description: None,
                note: Some("  padded note  ".to_owned()),
            }),
        ],
    };
    let empty = TranslationMap::new();
    let out = inject_other(&doc, &None, false, &empty);
    assert_eq!(out, doc);
    let mut m = TranslationMap::new();
    m.insert("Sword", "Epee");
    let hit = inject_other(&doc, &None, false, &m);
    match &hit.records[1] {
        Some(EntityRecord::Flat { name, note, .. }) => {
            assert_eq!(name.as_deref(), Some("Epee"));
            assert_eq!(note.as_deref(), Some("  padded note  "));
        },
        _ => panic!("record shape lost"),
    }
}
