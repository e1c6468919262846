//! The corpus injector: re-walks a freshly loaded copy of the original
//! document with exactly the extractor's walk, looks every logical unit up
//! in the translation map, and writes translated text back into the same
//! slots. A lookup miss always leaves the original value untouched, and the
//! sentinel slot at index 0 is never visited.

use vstd::prelude::*;

use crate::classify::{
    note_rule_index, spec_note_rule_index, DocKind, NoteAction, TitleProfile,
};
use crate::extract::{first_marker, page_views, spec_first_marker};
use crate::model::{
    clone_event_slot, clone_node_vec, clone_opt_string, clone_page_vec, EntityDocV,
    EntityDocument, EntityRecord, Event, EventV, MapDocV, MapDocument, Page, PageV, Plugin,
    PluginV, RecordV, SystemDocV, SystemDocument, TermGroup, TermGroupV, TermValue, TermValueV,
};
use crate::runs::{
    inject_list, node_views, norm_text, spec_inject_list, spec_norm,
};
use crate::text::{
    replace_first, spec_replace_first, spec_starts_with, spec_trim, starts_with_str, str_eq,
    trim_str, views,
};
use crate::tmap::{EngineError, TranslationMap};

verus! {

/// One page after injection.
pub open spec fn spec_inject_page(
    p: PageV,
    kind: DocKind,
    profile: Option<TitleProfile>,
    romanize: bool,
    m: Map<Seq<char>, Seq<char>>,
) -> PageV {
    PageV { list: spec_inject_list(p.list, kind, profile, romanize, m) }
}

/// One event slot after injection; a null slot stays null.
pub open spec fn spec_inject_event(
    e: Option<EventV>,
    profile: Option<TitleProfile>,
    romanize: bool,
    m: Map<Seq<char>, Seq<char>>,
) -> Option<EventV> {
    match e {
        None => None,
        Some(ev) => Some(
            EventV {
                pages: ev.pages.map_values(
                    |p: PageV| spec_inject_page(p, DocKind::MapFamily, profile, romanize, m),
                ),
            },
        ),
    }
}

/// One text field after lookup: its key (normalized as the extractor
/// normalized it) is looked up, and the field becomes the recorded
/// translation on a hit; on a miss the field keeps its own original text,
/// untouched - in particular not trimmed.
pub open spec fn spec_field_lookup(
    orig: Seq<char>,
    key: Seq<char>,
    romanize: bool,
    m: Map<Seq<char>, Seq<char>>,
) -> Seq<char> {
    let k = spec_norm(key, romanize);
    if m.contains_key(k) {
        m[k]
    } else {
        orig
    }
}

/// A whole map document after injection: the display name goes through the
/// names map, every event after the sentinel goes through the text map,
/// and the sentinel slot is returned exactly as it was.
pub open spec fn spec_inject_map_doc(
    d: MapDocV,
    profile: Option<TitleProfile>,
    romanize: bool,
    m: Map<Seq<char>, Seq<char>>,
    names: Map<Seq<char>, Seq<char>>,
) -> MapDocV {
    MapDocV {
        display_name: spec_field_lookup(d.display_name, d.display_name, romanize, names),
        events: Seq::new(
            d.events.len(),
            |i: int|
                if i == 0 {
                    d.events[i]
                } else {
                    spec_inject_event(d.events[i], profile, romanize, m)
                },
        ),
    }
}

/// Injects the pages of one event.
fn inject_pages(
    pages: &Vec<Page>,
    kind: &DocKind,
    profile: &Option<TitleProfile>,
    romanize: bool,
    m: &TranslationMap,
) -> (r: Vec<Page>)
    requires
        m.wf(),
    ensures
        page_views(r@) == page_views(pages@).map_values(
            |p: PageV| spec_inject_page(p, *kind, *profile, romanize, m@),
        ),
{
    let ghost pv = page_views(pages@);
    let ghost goal = pv.map_values(
        |p: PageV| spec_inject_page(p, *kind, *profile, romanize, m@),
    );
    let n = pages.len();
    let mut r: Vec<Page> = Vec::new();
    let mut i: usize = 0;
    proof {
        assert(page_views(r@) =~= goal.take(0));
    }
    while i < n
        invariant
            m.wf(),
            pv == page_views(pages@),
            goal == pv.map_values(|p: PageV| spec_inject_page(p, *kind, *profile, romanize, m@)),
            n == pages@.len(),
            0 <= i <= n,
            page_views(r@) == goal.take(i as int),
        decreases n - i,
    {
        proof {
            assert(pv[i as int] == pages@[i as int]@);
            assert(goal[i as int] == spec_inject_page(pv[i as int], *kind, *profile, romanize, m@));
        }
        let new_list = inject_list(&pages[i].list, kind, profile, romanize, m);
        let ghost r0 = page_views(r@);
        r.push(Page { list: new_list });
        proof {
            assert(page_views(r@) =~= r0.push(goal[i as int])) by {
                assert(node_views(pages@[i as int].list@) == pv[i as int].list);
                assert(r@.last()@ =~= goal[i as int]);
            }
            assert(goal.take(i as int + 1) =~= goal.take(i as int).push(goal[i as int]));
        }
        i += 1;
    }
    proof {
        assert(goal.take(n as int) =~= goal);
    }
    r
}

/// Injects one event slot.
fn inject_event_slot(
    e: &Option<Event>,
    profile: &Option<TitleProfile>,
    romanize: bool,
    m: &TranslationMap,
) -> (r: Option<Event>)
    requires
        m.wf(),
    ensures
        crate::model::opt_event_view(r) == spec_inject_event(
            crate::model::opt_event_view(*e),
            *profile,
            romanize,
            m@,
        ),
{
    match e {
        None => None,
        Some(ev) => {
            let pages = inject_pages(&ev.pages, &DocKind::MapFamily, profile, romanize, m);
            let out = Event { pages };
            proof {
                assert(out@ =~= spec_inject_event(
                    crate::model::opt_event_view(*e),
                    *profile,
                    romanize,
                    m@,
                )->0) by {
                    assert(page_views(ev.pages@) == ev@.pages);
                }
            }
            Some(out)
        },
    }
}

/// Looks one field up by its key and keeps the field's original text
/// unchanged on a miss.
fn field_lookup(orig: &str, key: &str, romanize: bool, m: &TranslationMap) -> (r: String)
    requires
        m.wf(),
    ensures
        r@ == spec_field_lookup(orig@, key@, romanize, m@),
{
    let k = norm_text(key, romanize);
    match m.lookup(k.as_str()) {
        Some(v) => v,
        None => orig.to_owned(),
    }
}

/// Injects a whole map document. The sentinel slot keeps its content, even
/// when it is not null; every other event is re-walked exactly as the
/// extractor walked it.
pub fn inject_map(
    doc: &MapDocument,
    profile: &Option<TitleProfile>,
    romanize: bool,
    m: &TranslationMap,
    names: &TranslationMap,
) -> (r: MapDocument)
    requires
        m.wf(),
        names.wf(),
    ensures
        r@ == spec_inject_map_doc(doc@, *profile, romanize, m@, names@),
{
    let ghost goal = spec_inject_map_doc(doc@, *profile, romanize, m@, names@);
    let display_name = field_lookup(
        doc.display_name.as_str(),
        doc.display_name.as_str(),
        romanize,
        names,
    );
    let n = doc.events.len();
    let mut events: Vec<Option<Event>> = Vec::new();
    let mut i: usize = 0;
    proof {
        assert(events@.map_values(|e: Option<Event>| crate::model::opt_event_view(e))
            =~= goal.events.take(0));
    }
    while i < n
        invariant
            m.wf(),
            names.wf(),
            goal == spec_inject_map_doc(doc@, *profile, romanize, m@, names@),
            n == doc.events@.len(),
            n == goal.events.len(),
            0 <= i <= n,
            events@.map_values(|e: Option<Event>| crate::model::opt_event_view(e))
                == goal.events.take(i as int),
        decreases n - i,
    {
        proof {
            assert(doc@.events[i as int] == crate::model::opt_event_view(doc.events@[i as int]));
        }
        let slot: Option<Event>;
        if i == 0 {
            slot = clone_event_slot(&doc.events[0]);
            proof {
                assert(goal.events[0] == doc@.events[0]);
            }
        } else {
            slot = inject_event_slot(&doc.events[i], profile, romanize, m);
            proof {
                assert(goal.events[i as int] == spec_inject_event(
                    doc@.events[i as int],
                    *profile,
                    romanize,
                    m@,
                ));
            }
        }
        let ghost e0 = events@.map_values(|e: Option<Event>| crate::model::opt_event_view(e));
        events.push(slot);
        proof {
            assert(events@.map_values(|e: Option<Event>| crate::model::opt_event_view(e))
                =~= e0.push(goal.events[i as int]));
            assert(goal.events.take(i as int + 1) =~= goal.events.take(i as int).push(
                goal.events[i as int],
            ));
        }
        i += 1;
    }
    proof {
        assert(goal.events.take(n as int) =~= goal.events);
    }
    let r = MapDocument { display_name, events };
    proof {
        assert(r@ =~= goal);
    }
    r
}

/// One present attribute after lookup of its trimmed, normalized form; a
/// blank attribute is never looked up, and a miss keeps the attribute's
/// original text.
pub open spec fn spec_inject_attr(
    a: Option<Seq<char>>,
    romanize: bool,
    m: Map<Seq<char>, Seq<char>>,
) -> Option<Seq<char>> {
    match a {
        None => None,
        Some(x) => {
            let t = spec_trim(x);
            if t.len() == 0 {
                Some(x)
            } else {
                Some(spec_field_lookup(x, t, romanize, m))
            }
        },
    }
}

/// A note attribute after injection under the active profile's note rules.
pub open spec fn spec_inject_note(
    a: Option<Seq<char>>,
    filename: Seq<char>,
    profile: Option<TitleProfile>,
    romanize: bool,
    m: Map<Seq<char>, Seq<char>>,
) -> Option<Seq<char>> {
    match a {
        None => None,
        Some(x) => {
            let t = spec_trim(x);
            if t.len() == 0 {
                Some(x)
            } else {
                match profile {
                    None => Some(spec_field_lookup(x, t, romanize, m)),
                    Some(p) => match spec_note_rule_index(p, filename) {
                        None => Some(x),
                        Some(i) => Some(
                            spec_note_action_inject(p.note_rules@[i].action, x, t, romanize, m),
                        ),
                    },
                }
            }
        },
    }
}

/// What a note rule's action writes back for a non-blank note.
pub open spec fn spec_note_action_inject(
    action: NoteAction,
    x: Seq<char>,
    t: Seq<char>,
    romanize: bool,
    m: Map<Seq<char>, Seq<char>>,
) -> Seq<char> {
    match action {
        NoteAction::WholeField => spec_field_lookup(x, t, romanize, m),
        NoteAction::WholeUnlessPrefix(pre) => if spec_starts_with(t, pre@) {
            x
        } else {
            spec_field_lookup(x, t, romanize, m)
        },
        NoteAction::ExtractMarkers(ms) => match spec_first_marker(views(ms@), t) {
            None => x,
            Some(i) => {
                let marker = views(ms@)[i];
                let k = spec_norm(marker, romanize);
                if m.contains_key(k) {
                    crate::text::spec_replace_first(spec_norm(t, romanize), marker, m[k])
                } else {
                    x
                }
            },
        },
    }
}

/// One record slot after injection.
pub open spec fn spec_inject_record(
    r: Option<RecordV>,
    filename: Seq<char>,
    profile: Option<TitleProfile>,
    romanize: bool,
    m: Map<Seq<char>, Seq<char>>,
) -> Option<RecordV> {
    match r {
        None => None,
        Some(rec) => Some(
            match rec {
                RecordV::Flat { name, nickname, description, note } => RecordV::Flat {
                    name: spec_inject_attr(name, romanize, m),
                    nickname: spec_inject_attr(nickname, romanize, m),
                    description: spec_inject_attr(description, romanize, m),
                    note: spec_inject_note(note, filename, profile, romanize, m),
                },
                RecordV::Paged { pages } => RecordV::Paged {
                    pages: pages.map_values(
                        |p: PageV| spec_inject_page(
                            p,
                            DocKind::EntityFamily,
                            profile,
                            romanize,
                            m,
                        ),
                    ),
                },
                RecordV::Listed { list } => RecordV::Listed {
                    list: spec_inject_list(list, DocKind::EntityFamily, profile, romanize, m),
                },
            },
        ),
    }
}

/// A whole entity collection after injection; the sentinel slot keeps its
/// content.
pub open spec fn spec_inject_entity_doc(
    d: EntityDocV,
    profile: Option<TitleProfile>,
    romanize: bool,
    m: Map<Seq<char>, Seq<char>>,
) -> EntityDocV {
    EntityDocV {
        filename: d.filename,
        records: Seq::new(
            d.records.len(),
            |i: int|
                if i == 0 {
                    d.records[i]
                } else {
                    spec_inject_record(d.records[i], d.filename, profile, romanize, m)
                },
        ),
    }
}

/// Injects one present attribute.
fn inject_attr(a: &Option<String>, romanize: bool, m: &TranslationMap) -> (r: Option<String>)
    requires
        m.wf(),
    ensures
        crate::model::opt_str_view(r) == spec_inject_attr(
            crate::model::opt_str_view(*a),
            romanize,
            m@,
        ),
{
    match a {
        None => None,
        Some(x) => {
            let t = trim_str(x.as_str());
            if t.unicode_len() == 0 {
                Some(x.clone())
            } else {
                Some(field_lookup(x.as_str(), t.as_str(), romanize, m))
            }
        },
    }
}

/// Injects a note attribute under the active profile's note rules.
fn inject_note(
    a: &Option<String>,
    filename: &str,
    profile: &Option<TitleProfile>,
    romanize: bool,
    m: &TranslationMap,
) -> (r: Option<String>)
    requires
        m.wf(),
    ensures
        crate::model::opt_str_view(r) == spec_inject_note(
            crate::model::opt_str_view(*a),
            filename@,
            *profile,
            romanize,
            m@,
        ),
{
    match a {
        None => None,
        Some(x) => {
            let t = trim_str(x.as_str());
            if t.unicode_len() == 0 {
                return Some(x.clone());
            }
            match profile {
                None => Some(field_lookup(x.as_str(), t.as_str(), romanize, m)),
                Some(p) => {
                    match note_rule_index(p, filename) {
                        None => Some(x.clone()),
                        Some(ri) => {
                            match &p.note_rules[ri].action {
                                NoteAction::WholeField => Some(
                                    field_lookup(x.as_str(), t.as_str(), romanize, m),
                                ),
                                NoteAction::WholeUnlessPrefix(pre) => {
                                    if starts_with_str(t.as_str(), pre.as_str()) {
                                        Some(x.clone())
                                    } else {
                                        Some(field_lookup(x.as_str(), t.as_str(), romanize, m))
                                    }
                                },
                                NoteAction::ExtractMarkers(ms) => {
                                    match first_marker(ms, t.as_str()) {
                                        None => Some(x.clone()),
                                        Some(mi) => {
                                            let marker = &ms[mi];
                                            let k = norm_text(marker.as_str(), romanize);
                                            proof {
                                                assert(views(ms@)[mi as int]
                                                    == ms@[mi as int]@);
                                            }
                                            match m.lookup(k.as_str()) {
                                                Some(v) => {
                                                    let base = norm_text(t.as_str(), romanize);
                                                    let out = crate::text::replace_first(
                                                        base.as_str(),
                                                        marker.as_str(),
                                                        v.as_str(),
                                                    );
                                                    Some(out)
                                                },
                                                None => Some(x.clone()),
                                            }
                                        },
                                    }
                                },
                            }
                        },
                    }
                },
            }
        },
    }
}

/// Injects an entity collection; the sentinel slot is returned exactly as
/// it was.
pub fn inject_other(
    doc: &EntityDocument,
    profile: &Option<TitleProfile>,
    romanize: bool,
    m: &TranslationMap,
) -> (r: EntityDocument)
    requires
        m.wf(),
    ensures
        r@ == spec_inject_entity_doc(doc@, *profile, romanize, m@),
{
    let ghost goal = spec_inject_entity_doc(doc@, *profile, romanize, m@);
    let n = doc.records.len();
    let mut records: Vec<Option<EntityRecord>> = Vec::new();
    let mut i: usize = 0;
    proof {
        assert(records@.map_values(|e: Option<EntityRecord>| crate::model::opt_record_view(e))
            =~= goal.records.take(0));
    }
    while i < n
        invariant
            m.wf(),
            goal == spec_inject_entity_doc(doc@, *profile, romanize, m@),
            n == doc.records@.len(),
            n == goal.records.len(),
            0 <= i <= n,
            records@.map_values(|e: Option<EntityRecord>| crate::model::opt_record_view(e))
                == goal.records.take(i as int),
        decreases n - i,
    {
        proof {
            assert(doc@.records[i as int] == crate::model::opt_record_view(
                doc.records@[i as int],
            ));
        }
        let slot: Option<EntityRecord>;
        if i == 0 {
            match &doc.records[0] {
                None => {
                    slot = None;
                },
                Some(rec) => {
                    slot = Some(clone_record(rec));
                },
            }
            proof {
                assert(goal.records[0] == doc@.records[0]);
            }
        } else {
            match &doc.records[i] {
                None => {
                    slot = None;
                },
                Some(rec) => {
                    match rec {
                        EntityRecord::Flat { name, nickname, description, note } => {
                            let new_name = inject_attr(name, romanize, m);
                            let new_nickname = inject_attr(nickname, romanize, m);
                            let new_description = inject_attr(description, romanize, m);
                            let new_note = inject_note(
                                note,
                                doc.filename.as_str(),
                                profile,
                                romanize,
                                m,
                            );
                            slot = Some(
                                EntityRecord::Flat {
                                    name: new_name,
                                    nickname: new_nickname,
                                    description: new_description,
                                    note: new_note,
                                },
                            );
                        },
                        EntityRecord::Paged { pages } => {
                            let new_pages = inject_pages(
                                pages,
                                &DocKind::EntityFamily,
                                profile,
                                romanize,
                                m,
                            );
                            slot = Some(EntityRecord::Paged { pages: new_pages });
                            proof {
                                assert(page_views(pages@) == doc@.records[i as int]->0->Paged_pages);
                            }
                        },
                        EntityRecord::Listed { list } => {
                            let new_list = inject_list(
                                list,
                                &DocKind::EntityFamily,
                                profile,
                                romanize,
                                m,
                            );
                            slot = Some(EntityRecord::Listed { list: new_list });
                            proof {
                                assert(node_views(list@) == doc@.records[i as int]->0->Listed_list);
                            }
                        },
                    }
                },
            }
            proof {
                assert(goal.records[i as int] == spec_inject_record(
                    doc@.records[i as int],
                    doc@.filename,
                    *profile,
                    romanize,
                    m@,
                ));
            }
        }
        let ghost e0 = records@.map_values(
            |e: Option<EntityRecord>| crate::model::opt_record_view(e),
        );
        records.push(slot);
        proof {
            assert(records@.map_values(|e: Option<EntityRecord>| crate::model::opt_record_view(e))
                =~= e0.push(goal.records[i as int]));
            assert(goal.records.take(i as int + 1) =~= goal.records.take(i as int).push(
                goal.records[i as int],
            ));
        }
        i += 1;
    }
    proof {
        assert(goal.records.take(n as int) =~= goal.records);
    }
    let r = EntityDocument { filename: doc.filename.clone(), records };
    proof {
        assert(r@ =~= goal);
    }
    r
}

/// Copies a record, preserving its view.
fn clone_record(rec: &EntityRecord) -> (r: EntityRecord)
    ensures
        r@ == rec@,
{
    match rec {
        EntityRecord::Flat { name, nickname, description, note } => EntityRecord::Flat {
            name: clone_opt_string(name),
            nickname: clone_opt_string(nickname),
            description: clone_opt_string(description),
            note: clone_opt_string(note),
        },
        EntityRecord::Paged { pages } => {
            let p = clone_page_vec(pages);
            let r = EntityRecord::Paged { pages: p };
            proof {
                assert(r@ =~= rec@);
            }
            r
        },
        EntityRecord::Listed { list } => {
            let l = clone_node_vec(list);
            let r = EntityRecord::Listed { list: l };
            proof {
                assert(r@ =~= rec@);
            }
            r
        },
    }
}


/// One vocabulary string after lookup of its trimmed, normalized form; a
/// blank string is never looked up, and a miss keeps the string's
/// original text.
pub open spec fn spec_inject_string(
    s: Seq<char>,
    romanize: bool,
    m: Map<Seq<char>, Seq<char>>,
) -> Seq<char> {
    let t = spec_trim(s);
    if t.len() == 0 {
        s
    } else {
        spec_field_lookup(s, t, romanize, m)
    }
}

/// One terms group after injection.
pub open spec fn spec_inject_term_group(
    g: TermGroupV,
    romanize: bool,
    m: Map<Seq<char>, Seq<char>>,
) -> TermGroupV {
    TermGroupV {
        key: g.key,
        value: match g.value {
            TermValueV::StringList(es) => TermValueV::StringList(
                es.map_values(
                    |e: Option<Seq<char>>|
                        match e {
                            None => None,
                            Some(s) => Some(spec_inject_string(s, romanize, m)),
                        },
                ),
            ),
            TermValueV::MessageMap(ps) => TermValueV::MessageMap(
                ps.map_values(
                    |p: (Seq<char>, Seq<char>)| (p.0, spec_inject_string(p.1, romanize, m)),
                ),
            ),
        },
    }
}

/// The whole system document after injection.
pub open spec fn spec_inject_system_doc(
    d: SystemDocV,
    romanize: bool,
    m: Map<Seq<char>, Seq<char>>,
) -> SystemDocV {
    SystemDocV {
        game_title: spec_inject_string(d.game_title, romanize, m),
        armor_types: d.armor_types.map_values(|s: Seq<char>| spec_inject_string(s, romanize, m)),
        elements: d.elements.map_values(|s: Seq<char>| spec_inject_string(s, romanize, m)),
        equip_types: d.equip_types.map_values(|s: Seq<char>| spec_inject_string(s, romanize, m)),
        skill_types: d.skill_types.map_values(|s: Seq<char>| spec_inject_string(s, romanize, m)),
        weapon_types: d.weapon_types.map_values(|s: Seq<char>| spec_inject_string(s, romanize, m)),
        terms: d.terms.map_values(|g: TermGroupV| spec_inject_term_group(g, romanize, m)),
    }
}

/// Injects one vocabulary string.
fn inject_string(s: &str, romanize: bool, m: &TranslationMap) -> (r: String)
    requires
        m.wf(),
    ensures
        r@ == spec_inject_string(s@, romanize, m@),
{
    let t = trim_str(s);
    if t.unicode_len() == 0 {
        s.to_owned()
    } else {
        field_lookup(s, t.as_str(), romanize, m)
    }
}

/// Injects every string of one vocabulary array.
fn inject_vocab(v: &Vec<String>, romanize: bool, m: &TranslationMap) -> (r: Vec<String>)
    requires
        m.wf(),
    ensures
        views(r@) == views(v@).map_values(|s: Seq<char>| spec_inject_string(s, romanize, m@)),
{
    let ghost goal = views(v@).map_values(|s: Seq<char>| spec_inject_string(s, romanize, m@));
    let n = v.len();
    let mut r: Vec<String> = Vec::new();
    let mut i: usize = 0;
    proof {
        assert(views(r@) =~= goal.take(0));
    }
    while i < n
        invariant
            m.wf(),
            goal == views(v@).map_values(|s: Seq<char>| spec_inject_string(s, romanize, m@)),
            n == v@.len(),
            0 <= i <= n,
            views(r@) == goal.take(i as int),
        decreases n - i,
    {
        proof {
            assert(views(v@)[i as int] == v@[i as int]@);
            assert(goal[i as int] == spec_inject_string(views(v@)[i as int], romanize, m@));
        }
        let s = inject_string(v[i].as_str(), romanize, m);
        let ghost r0 = views(r@);
        r.push(s);
        proof {
            assert(views(r@) =~= r0.push(goal[i as int]));
            assert(goal.take(i as int + 1) =~= goal.take(i as int).push(goal[i as int]));
        }
        i += 1;
    }
    proof {
        assert(goal.take(n as int) =~= goal);
    }
    r
}

/// Injects one terms group.
fn inject_term_group(g: &TermGroup, romanize: bool, m: &TranslationMap) -> (r: TermGroup)
    requires
        m.wf(),
    ensures
        r@ == spec_inject_term_group(g@, romanize, m@),
{
    match &g.value {
        TermValue::StringList(es) => {
            let ghost ev = es@.map_values(|s: Option<String>| crate::model::opt_str_view(s));
            let ghost goal = ev.map_values(
                |e: Option<Seq<char>>|
                    match e {
                        None => None,
                        Some(s) => Some(spec_inject_string(s, romanize, m@)),
                    },
            );
            let n = es.len();
            let mut out: Vec<Option<String>> = Vec::new();
            let mut i: usize = 0;
            proof {
                assert(out@.map_values(|s: Option<String>| crate::model::opt_str_view(s))
                    =~= goal.take(0));
            }
            while i < n
                invariant
                    m.wf(),
                    ev == es@.map_values(|s: Option<String>| crate::model::opt_str_view(s)),
                    goal == ev.map_values(
                        |e: Option<Seq<char>>|
                            match e {
                                None => None,
                                Some(s) => Some(spec_inject_string(s, romanize, m@)),
                            },
                    ),
                    n == es@.len(),
                    0 <= i <= n,
                    out@.map_values(|s: Option<String>| crate::model::opt_str_view(s))
                        == goal.take(i as int),
                decreases n - i,
            {
                proof {
                    assert(ev[i as int] == crate::model::opt_str_view(es@[i as int]));
                    assert(goal[i as int] == match ev[i as int] {
                        None => None,
                        Some(s) => Some(spec_inject_string(s, romanize, m@)),
                    });
                }
                let slot: Option<String> = match &es[i] {
                    None => None,
                    Some(s) => Some(inject_string(s.as_str(), romanize, m)),
                };
                let ghost o0 = out@.map_values(|s: Option<String>| crate::model::opt_str_view(s));
                out.push(slot);
                proof {
                    assert(out@.map_values(|s: Option<String>| crate::model::opt_str_view(s))
                        =~= o0.push(goal[i as int]));
                    assert(goal.take(i as int + 1) =~= goal.take(i as int).push(goal[i as int]));
                }
                i += 1;
            }
            proof {
                assert(goal.take(n as int) =~= goal);
            }
            let r = TermGroup { key: g.key.clone(), value: TermValue::StringList(out) };
            proof {
                assert(r@ =~= spec_inject_term_group(g@, romanize, m@));
            }
            r
        },
        TermValue::MessageMap(ps) => {
            let ghost pv = ps@.map_values(|p: (String, String)| (p.0@, p.1@));
            let ghost goal = pv.map_values(
                |p: (Seq<char>, Seq<char>)| (p.0, spec_inject_string(p.1, romanize, m@)),
            );
            let n = ps.len();
            let mut out: Vec<(String, String)> = Vec::new();
            let mut i: usize = 0;
            proof {
                assert(out@.map_values(|p: (String, String)| (p.0@, p.1@)) =~= goal.take(0));
            }
            while i < n
                invariant
                    m.wf(),
                    pv == ps@.map_values(|p: (String, String)| (p.0@, p.1@)),
                    goal == pv.map_values(
                        |p: (Seq<char>, Seq<char>)| (p.0, spec_inject_string(p.1, romanize, m@)),
                    ),
                    n == ps@.len(),
                    0 <= i <= n,
                    out@.map_values(|p: (String, String)| (p.0@, p.1@)) == goal.take(i as int),
                decreases n - i,
            {
                proof {
                    assert(pv[i as int] == (ps@[i as int].0@, ps@[i as int].1@));
                    assert(goal[i as int] == (
                        pv[i as int].0,
                        spec_inject_string(pv[i as int].1, romanize, m@),
                    ));
                }
                let k = ps[i].0.clone();
                let v = inject_string(ps[i].1.as_str(), romanize, m);
                let ghost o0 = out@.map_values(|p: (String, String)| (p.0@, p.1@));
                out.push((k, v));
                proof {
                    assert(out@.map_values(|p: (String, String)| (p.0@, p.1@)) =~= o0.push(
                        goal[i as int],
                    ));
                    assert(goal.take(i as int + 1) =~= goal.take(i as int).push(goal[i as int]));
                }
                i += 1;
            }
            proof {
                assert(goal.take(n as int) =~= goal);
            }
            let r = TermGroup { key: g.key.clone(), value: TermValue::MessageMap(out) };
            proof {
                assert(r@ =~= spec_inject_term_group(g@, romanize, m@));
            }
            r
        },
    }
}

/// Injects the whole system document: the game title, the vocabulary
/// arrays and the terms map, each string through the map with misses left
/// unchanged.
pub fn inject_system(doc: &SystemDocument, romanize: bool, m: &TranslationMap) -> (r:
    SystemDocument)
    requires
        m.wf(),
    ensures
        r@ == spec_inject_system_doc(doc@, romanize, m@),
{
    let game_title = inject_string(doc.game_title.as_str(), romanize, m);
    let armor_types = inject_vocab(&doc.armor_types, romanize, m);
    let elements = inject_vocab(&doc.elements, romanize, m);
    let equip_types = inject_vocab(&doc.equip_types, romanize, m);
    let skill_types = inject_vocab(&doc.skill_types, romanize, m);
    let weapon_types = inject_vocab(&doc.weapon_types, romanize, m);
    let ghost tgoal = doc@.terms.map_values(
        |g: TermGroupV| spec_inject_term_group(g, romanize, m@),
    );
    let n = doc.terms.len();
    let mut terms: Vec<TermGroup> = Vec::new();
    let mut i: usize = 0;
    proof {
        assert(terms@.map_values(|g: TermGroup| g@) =~= tgoal.take(0));
    }
    while i < n
        invariant
            m.wf(),
            tgoal == doc@.terms.map_values(|g: TermGroupV| spec_inject_term_group(g, romanize, m@)),
            n == doc.terms@.len(),
            0 <= i <= n,
            terms@.map_values(|g: TermGroup| g@) == tgoal.take(i as int),
        decreases n - i,
    {
        proof {
            assert(doc@.terms[i as int] == doc.terms@[i as int]@);
            assert(tgoal[i as int] == spec_inject_term_group(
                doc@.terms[i as int],
                romanize,
                m@,
            ));
        }
        let g = inject_term_group(&doc.terms[i], romanize, m);
        let ghost t0 = terms@.map_values(|g: TermGroup| g@);
        terms.push(g);
        proof {
            assert(terms@.map_values(|g: TermGroup| g@) =~= t0.push(tgoal[i as int]));
            assert(tgoal.take(i as int + 1) =~= tgoal.take(i as int).push(tgoal[i as int]));
        }
        i += 1;
    }
    proof {
        assert(tgoal.take(n as int) =~= tgoal);
    }
    let r = SystemDocument {
        game_title,
        armor_types,
        elements,
        equip_types,
        skill_types,
        weapon_types,
        terms,
    };
    proof {
        assert(r@ =~= spec_inject_system_doc(doc@, romanize, m@));
    }
    r
}


/// The views of a vector of plugins.
pub open spec fn plugin_views(s: Seq<Plugin>) -> Seq<PluginV> {
    s.map_values(|p: Plugin| p@)
}

/// The fixed set of plugin names whose parameters carry translatable
/// text; every other plugin is passed through untouched.
pub open spec fn spec_translatable_plugin(name: Seq<char>) -> bool {
    ||| name == "YEP_BattleEngineCore"@
    ||| name == "YEP_OptionsCore"@
    ||| name == "SRD_NameInputUpgrade"@
    ||| name == "YEP_KeyboardConfig"@
    ||| name == "YEP_ItemCore"@
    ||| name == "YEP_X_ItemDiscard"@
    ||| name == "YEP_EquipCore"@
    ||| name == "YEP_ItemSynthesis"@
    ||| name == "ARP_CommandIcons"@
    ||| name == "YEP_X_ItemCategories"@
    ||| name == "Olivia_OctoBattle"@
}

/// Whether this plugin is one of the translatable ones.
pub fn is_translatable_plugin(name: &str) -> (r: bool)
    ensures
        r == spec_translatable_plugin(name@),
{
    str_eq(name, "YEP_BattleEngineCore") || str_eq(name, "YEP_OptionsCore") || str_eq(
        name,
        "SRD_NameInputUpgrade",
    ) || str_eq(name, "YEP_KeyboardConfig") || str_eq(name, "YEP_ItemCore") || str_eq(
        name,
        "YEP_X_ItemDiscard",
    ) || str_eq(name, "YEP_EquipCore") || str_eq(name, "YEP_ItemSynthesis") || str_eq(
        name,
        "ARP_CommandIcons",
    ) || str_eq(name, "YEP_X_ItemCategories") || str_eq(name, "Olivia_OctoBattle")
}

/// The raw row map of the plugin pool files: lines pair positionally, with
/// no unescaping and no trimming, a later row overriding an earlier one,
/// and a row whose translated line is blank (untranslated) left out.
pub open spec fn spec_raw_rows_map(orig: Seq<Seq<char>>, trans: Seq<Seq<char>>) -> Map<
    Seq<char>,
    Seq<char>,
>
    decreases orig.len(),
{
    if orig.len() == 0 || trans.len() == 0 {
        Map::empty()
    } else {
        let prev = spec_raw_rows_map(orig.drop_last(), trans.drop_last());
        if trans.last().len() == 0 {
            prev
        } else {
            prev.insert(orig.last(), trans.last())
        }
    }
}

/// Replacing, row by row in file order, the first occurrence of each
/// original line by its translated line; a row whose translated line is
/// blank is untranslated and replaces nothing.
pub open spec fn spec_fold_replace(
    s: Seq<char>,
    orig: Seq<Seq<char>>,
    trans: Seq<Seq<char>>,
) -> Seq<char>
    decreases orig.len(),
{
    if orig.len() == 0 || trans.len() == 0 {
        s
    } else {
        let s2 = if trans[0].len() == 0 {
            s
        } else {
            spec_replace_first(s, orig[0], trans[0])
        };
        spec_fold_replace(s2, orig.drop_first(), trans.drop_first())
    }
}

/// One parameter row of a plugin after injection.
pub open spec fn spec_inject_plugin_param(
    name: Seq<char>,
    kv: (Seq<char>, Option<Seq<char>>),
    m: Map<Seq<char>, Seq<char>>,
    orig: Seq<Seq<char>>,
    trans: Seq<Seq<char>>,
) -> (Seq<char>, Option<Seq<char>>) {
    match kv.1 {
        None => kv,
        Some(s) => if name == "YEP_OptionsCore"@ && kv.0 == "OptionsCategories"@ {
            (kv.0, Some(spec_fold_replace(s, orig, trans)))
        } else {
            (
                kv.0,
                Some(
                    if m.contains_key(s) {
                        m[s]
                    } else {
                        s
                    },
                ),
            )
        },
    }
}

/// One plugin after injection; a plugin outside the translatable set is
/// passed through untouched.
pub open spec fn spec_inject_plugin(
    p: PluginV,
    m: Map<Seq<char>, Seq<char>>,
    orig: Seq<Seq<char>>,
    trans: Seq<Seq<char>>,
) -> PluginV {
    if !spec_translatable_plugin(p.name) {
        p
    } else {
        PluginV {
            name: p.name,
            parameters: p.parameters.map_values(
                |kv: (Seq<char>, Option<Seq<char>>)| spec_inject_plugin_param(
                    p.name,
                    kv,
                    m,
                    orig,
                    trans,
                ),
            ),
        }
    }
}

/// The whole plugin array after injection.
pub open spec fn spec_inject_plugins(
    ps: Seq<PluginV>,
    m: Map<Seq<char>, Seq<char>>,
    orig: Seq<Seq<char>>,
    trans: Seq<Seq<char>>,
) -> Seq<PluginV> {
    ps.map_values(|p: PluginV| spec_inject_plugin(p, m, orig, trans))
}

/// Copies a plugin, preserving its view.
fn clone_plugin(p: &Plugin) -> (r: Plugin)
    ensures
        r@ == p@,
{
    let n = p.parameters.len();
    let mut parameters: Vec<(String, Option<String>)> = Vec::new();
    let mut i: usize = 0;
    while i < n
        invariant
            n == p.parameters@.len(),
            0 <= i <= n,
            parameters@.map_values(
                |kv: (String, Option<String>)| (kv.0@, crate::model::opt_str_view(kv.1)),
            ) == p.parameters@.take(i as int).map_values(
                |kv: (String, Option<String>)| (kv.0@, crate::model::opt_str_view(kv.1)),
            ),
        decreases n - i,
    {
        let ghost r0 = parameters@.map_values(
            |kv: (String, Option<String>)| (kv.0@, crate::model::opt_str_view(kv.1)),
        );
        let k = p.parameters[i].0.clone();
        let v = clone_opt_string(&p.parameters[i].1);
        parameters.push((k, v));
        proof {
            let f = |kv: (String, Option<String>)| (kv.0@, crate::model::opt_str_view(kv.1));
            assert(parameters@.map_values(f) =~= r0.push(f(p.parameters@[i as int])));
            assert(p.parameters@.take(i as int + 1).map_values(f) =~= p.parameters@.take(
                i as int,
            ).map_values(f).push(f(p.parameters@[i as int])));
        }
        i += 1;
    }
    proof {
        assert(p.parameters@.take(n as int) =~= p.parameters@);
    }
    let r = Plugin { name: p.name.clone(), parameters };
    proof {
        assert(r@ =~= p@);
    }
    r
}

/// Applies the row-by-row replacement that the special options category
/// parameter receives.
fn fold_replace_rows(s: &str, orig: &Vec<String>, trans: &Vec<String>) -> (r: String)
    requires
        orig@.len() == trans@.len(),
    ensures
        r@ == spec_fold_replace(s@, views(orig@), views(trans@)),
{
    let n = orig.len();
    let mut cur = s.to_owned();
    let mut i: usize = 0;
    proof {
        assert(views(orig@).skip(0) =~= views(orig@));
        assert(views(trans@).skip(0) =~= views(trans@));
    }
    while i < n
        invariant
            n == orig@.len(),
            n == trans@.len(),
            0 <= i <= n,
            spec_fold_replace(s@, views(orig@), views(trans@)) == spec_fold_replace(
                cur@,
                views(orig@).skip(i as int),
                views(trans@).skip(i as int),
            ),
        decreases n - i,
    {
        proof {
            assert(views(orig@).skip(i as int).drop_first() =~= views(orig@).skip(i as int + 1));
            assert(views(trans@).skip(i as int).drop_first() =~= views(trans@).skip(i as int + 1));
            assert(views(orig@).skip(i as int)[0] == views(orig@)[i as int]);
            assert(views(trans@).skip(i as int)[0] == views(trans@)[i as int]);
            assert(views(orig@)[i as int] == orig@[i as int]@);
            assert(views(trans@)[i as int] == trans@[i as int]@);
        }
        if trans[i].unicode_len() > 0 {
            cur = replace_first(cur.as_str(), orig[i].as_str(), trans[i].as_str());
        }
        i += 1;
    }
    proof {
        assert(views(orig@).skip(n as int) =~= Seq::<Seq<char>>::empty());
    }
    cur
}

/// Injects one plugin.
fn inject_plugin(
    p: &Plugin,
    m: &TranslationMap,
    orig: &Vec<String>,
    trans: &Vec<String>,
) -> (r: Plugin)
    requires
        m.wf(),
        orig@.len() == trans@.len(),
    ensures
        r@ == spec_inject_plugin(p@, m@, views(orig@), views(trans@)),
{
    if !is_translatable_plugin(p.name.as_str()) {
        let r = clone_plugin(p);
        return r;
    }
    let is_options_core = str_eq(p.name.as_str(), "YEP_OptionsCore");
    let ghost f = |kv: (Seq<char>, Option<Seq<char>>)| spec_inject_plugin_param(
        p@.name,
        kv,
        m@,
        views(orig@),
        views(trans@),
    );
    let ghost goal = p@.parameters.map_values(f);
    let n = p.parameters.len();
    let mut parameters: Vec<(String, Option<String>)> = Vec::new();
    let mut i: usize = 0;
    proof {
        let g = |kv: (String, Option<String>)| (kv.0@, crate::model::opt_str_view(kv.1));
        assert(parameters@.map_values(g) =~= goal.take(0));
    }
    while i < n
        invariant
            m.wf(),
            orig@.len() == trans@.len(),
            f == (|kv: (Seq<char>, Option<Seq<char>>)| spec_inject_plugin_param(
                p@.name,
                kv,
                m@,
                views(orig@),
                views(trans@),
            )),
            goal == p@.parameters.map_values(f),
            n == p.parameters@.len(),
            0 <= i <= n,
            is_options_core == (p@.name == "YEP_OptionsCore"@),
            parameters@.map_values(
                |kv: (String, Option<String>)| (kv.0@, crate::model::opt_str_view(kv.1)),
            ) == goal.take(i as int),
        decreases n - i,
    {
        proof {
            assert(p@.parameters[i as int] == (
                p.parameters@[i as int].0@,
                crate::model::opt_str_view(p.parameters@[i as int].1),
            ));
            assert(goal[i as int] == f(p@.parameters[i as int]));
        }
        let key = p.parameters[i].0.clone();
        let slot: Option<String> = match &p.parameters[i].1 {
            None => None,
            Some(s) => {
                if is_options_core && str_eq(key.as_str(), "OptionsCategories") {
                    Some(fold_replace_rows(s.as_str(), orig, trans))
                } else {
                    match m.lookup(s.as_str()) {
                        Some(v) => Some(v),
                        None => Some(s.clone()),
                    }
                }
            },
        };
        let ghost o0 = parameters@.map_values(
            |kv: (String, Option<String>)| (kv.0@, crate::model::opt_str_view(kv.1)),
        );
        parameters.push((key, slot));
        proof {
            assert(parameters@.map_values(
                |kv: (String, Option<String>)| (kv.0@, crate::model::opt_str_view(kv.1)),
            ) =~= o0.push(goal[i as int]));
            assert(goal.take(i as int + 1) =~= goal.take(i as int).push(goal[i as int]));
        }
        i += 1;
    }
    proof {
        assert(goal.take(n as int) =~= goal);
    }
    let r = Plugin { name: p.name.clone(), parameters };
    proof {
        assert(r@ =~= spec_inject_plugin(p@, m@, views(orig@), views(trans@)));
    }
    r
}

/// Injects the plugin array from its raw pool files. The two files must
/// pair line for line; a mismatch is rejected before anything is built.
pub fn inject_plugins(
    plugins: &Vec<Plugin>,
    original_lines: &Vec<String>,
    translated_lines: &Vec<String>,
) -> (r: Result<Vec<Plugin>, EngineError>)
    ensures
        original_lines@.len() != translated_lines@.len() <==> r is Err,
        r is Err ==> r->Err_0 is PoolMismatch,
        r is Ok ==> plugin_views(r->Ok_0@) == spec_inject_plugins(
            plugin_views(plugins@),
            spec_raw_rows_map(views(original_lines@), views(translated_lines@)),
            views(original_lines@),
            views(translated_lines@),
        ),
{
    let n = original_lines.len();
    if n != translated_lines.len() {
        return Err(EngineError::PoolMismatch);
    }
    let mut m = TranslationMap::new();
    let mut i: usize = 0;
    proof {
        assert(views(original_lines@).take(0) =~= Seq::<Seq<char>>::empty());
        assert(m@ =~= spec_raw_rows_map(
            views(original_lines@).take(0),
            views(translated_lines@).take(0),
        ));
    }
    while i < n
        invariant
            n == original_lines@.len(),
            n == translated_lines@.len(),
            0 <= i <= n,
            m.wf(),
            m@ == spec_raw_rows_map(
                views(original_lines@).take(i as int),
                views(translated_lines@).take(i as int),
            ),
        decreases n - i,
    {
        if translated_lines[i].as_str().unicode_len() > 0 {
            m.insert(original_lines[i].as_str(), translated_lines[i].as_str());
        }
        proof {
            let ko = views(original_lines@);
            let kt = views(translated_lines@);
            assert(ko.take(i as int + 1).drop_last() =~= ko.take(i as int));
            assert(kt.take(i as int + 1).drop_last() =~= kt.take(i as int));
            assert(ko.take(i as int + 1).last() == ko[i as int]);
            assert(kt.take(i as int + 1).last() == kt[i as int]);
        }
        i += 1;
    }
    proof {
        assert(views(original_lines@).take(n as int) =~= views(original_lines@));
        assert(views(translated_lines@).take(n as int) =~= views(translated_lines@));
    }
    let ghost goal = spec_inject_plugins(
        plugin_views(plugins@),
        m@,
        views(original_lines@),
        views(translated_lines@),
    );
    let cnt = plugins.len();
    let mut out: Vec<Plugin> = Vec::new();
    let mut j: usize = 0;
    proof {
        assert(plugin_views(out@) =~= goal.take(0));
    }
    while j < cnt
        invariant
            m.wf(),
            m@ == spec_raw_rows_map(views(original_lines@), views(translated_lines@)),
            original_lines@.len() == translated_lines@.len(),
            goal == spec_inject_plugins(
                plugin_views(plugins@),
                m@,
                views(original_lines@),
                views(translated_lines@),
            ),
            cnt == plugins@.len(),
            0 <= j <= cnt,
            plugin_views(out@) == goal.take(j as int),
        decreases cnt - j,
    {
        proof {
            assert(plugin_views(plugins@)[j as int] == plugins@[j as int]@);
            assert(goal[j as int] == spec_inject_plugin(
                plugin_views(plugins@)[j as int],
                m@,
                views(original_lines@),
                views(translated_lines@),
            ));
        }
        let q = inject_plugin(&plugins[j], &m, original_lines, translated_lines);
        let ghost o0 = plugin_views(out@);
        out.push(q);
        proof {
            assert(plugin_views(out@) =~= o0.push(goal[j as int]));
            assert(goal.take(j as int + 1) =~= goal.take(j as int).push(goal[j as int]));
        }
        j += 1;
    }
    proof {
        assert(goal.take(cnt as int) =~= goal);
    }
    Ok(out)
}

} // verus!
