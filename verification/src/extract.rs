//! The corpus extractor: walks a document tree, applies the classifier and
//! the run merger, and inserts every logical text unit into an
//! insertion-ordered pool. The first element of an event or record array is
//! the reserved sentinel and is never visited.

use vstd::prelude::*;

use crate::classify::{
    note_rule_index, spec_note_rule_index, DocKind, NoteAction, TitleProfile,
};
use crate::model::{
    EntityDocument, EntityRecord, EventV, MapDocument, Page, PageV, RecordV, SystemDocument,
    TermGroup, TermGroupV, TermValue, TermValueV,
};
use crate::pool::{
    lemma_pool_insert_all_concat, spec_pool_insert, spec_pool_insert_all, TextPool,
};
use crate::runs::{
    extract_list, node_views, norm_text, spec_extract_list, spec_norm,
};
use crate::text::{
    contains_sub, spec_has_sub_at, spec_starts_with, spec_trim, starts_with_str, trim_str, views,
};

verus! {

/// The views of a vector of pages.
pub open spec fn page_views(s: Seq<Page>) -> Seq<PageV> {
    s.map_values(|p: Page| p@)
}

/// The units of the pages of one event, in page order.
pub open spec fn spec_pages_units(
    pages: Seq<PageV>,
    kind: DocKind,
    profile: Option<TitleProfile>,
    romanize: bool,
) -> Seq<Seq<char>>
    decreases pages.len(),
{
    if pages.len() == 0 {
        Seq::empty()
    } else {
        spec_extract_list(pages[0].list, kind, profile, romanize) + spec_pages_units(
            pages.drop_first(),
            kind,
            profile,
            romanize,
        )
    }
}

/// The units of one event slot; a null slot yields nothing.
pub open spec fn spec_event_units(
    e: Option<EventV>,
    profile: Option<TitleProfile>,
    romanize: bool,
) -> Seq<Seq<char>> {
    match e {
        None => Seq::empty(),
        Some(ev) => spec_pages_units(ev.pages, DocKind::MapFamily, profile, romanize),
    }
}

/// The units of a sequence of event slots, in order.
pub open spec fn spec_events_units(
    events: Seq<Option<EventV>>,
    profile: Option<TitleProfile>,
    romanize: bool,
) -> Seq<Seq<char>>
    decreases events.len(),
{
    if events.len() == 0 {
        Seq::empty()
    } else {
        spec_event_units(events[0], profile, romanize) + spec_events_units(
            events.drop_first(),
            profile,
            romanize,
        )
    }
}

/// The units of a map document: everything after the sentinel slot.
pub open spec fn spec_map_doc_units(
    d: crate::model::MapDocV,
    profile: Option<TitleProfile>,
    romanize: bool,
) -> Seq<Seq<char>> {
    if d.events.len() == 0 {
        Seq::empty()
    } else {
        spec_events_units(d.events.skip(1), profile, romanize)
    }
}

/// Extracts the pages of one event into the pool.
fn extract_pages(
    pages: &Vec<Page>,
    kind: &DocKind,
    profile: &Option<TitleProfile>,
    romanize: bool,
    pool: &mut TextPool,
)
    requires
        old(pool).wf(),
    ensures
        final(pool).wf(),
        final(pool)@ == spec_pool_insert_all(
            old(pool)@,
            spec_pages_units(page_views(pages@), *kind, *profile, romanize),
        ),
{
    let ghost p0 = pool@;
    let ghost pv = page_views(pages@);
    let n = pages.len();
    let mut i: usize = 0;
    proof {
        assert(pv.skip(0) =~= pv);
    }
    while i < n
        invariant
            old(pool)@ == p0,
            pv == page_views(pages@),
            n == pages@.len(),
            0 <= i <= n,
            pool.wf(),
            spec_pool_insert_all(p0, spec_pages_units(pv, *kind, *profile, romanize))
                == spec_pool_insert_all(
                pool@,
                spec_pages_units(pv.skip(i as int), *kind, *profile, romanize),
            ),
        decreases n - i,
    {
        proof {
            assert(pv.skip(i as int).drop_first() =~= pv.skip(i as int + 1));
            assert(pv.skip(i as int)[0] == pv[i as int]);
            assert(pv[i as int] == pages@[i as int]@);
            lemma_pool_insert_all_concat(
                pool@,
                spec_extract_list(pv[i as int].list, *kind, *profile, romanize),
                spec_pages_units(pv.skip(i as int + 1), *kind, *profile, romanize),
            );
        }
        extract_list(&pages[i].list, kind, profile, romanize, pool);
        proof {
            assert(node_views(pages@[i as int].list@) == pv[i as int].list);
        }
        i += 1;
    }
    proof {
        assert(pv.skip(n as int) =~= Seq::<PageV>::empty());
    }
}

/// Extracts a map document: the display name goes to the names pool, the
/// dialogue, choices and system lines of every event after the sentinel go
/// to the text pool.
pub fn extract_map(
    doc: &MapDocument,
    profile: &Option<TitleProfile>,
    romanize: bool,
    text_pool: &mut TextPool,
    names_pool: &mut TextPool,
)
    requires
        old(text_pool).wf(),
        old(names_pool).wf(),
    ensures
        final(text_pool).wf(),
        final(names_pool).wf(),
        final(names_pool)@ == spec_pool_insert(
            old(names_pool)@,
            spec_norm(doc@.display_name, romanize),
        ),
        final(text_pool)@ == spec_pool_insert_all(
            old(text_pool)@,
            spec_map_doc_units(doc@, *profile, romanize),
        ),
{
    let name = norm_text(doc.display_name.as_str(), romanize);
    names_pool.insert(name.as_str());
    let ghost p0 = text_pool@;
    let ghost ev = doc@.events;
    let n = doc.events.len();
    if n == 0 {
        proof {
            assert(spec_map_doc_units(doc@, *profile, romanize) =~= Seq::<Seq<char>>::empty());
        }
        return ;
    }
    let mut i: usize = 1;
    proof {
        assert(ev.skip(1) =~= ev.skip(1));
    }
    while i < n
        invariant
            old(text_pool)@ == p0,
            ev == doc@.events,
            n == doc.events@.len(),
            n == ev.len(),
            n >= 1,
            1 <= i <= n,
            text_pool.wf(),
            names_pool.wf(),
            names_pool@ == spec_pool_insert(
                old(names_pool)@,
                spec_norm(doc@.display_name, romanize),
            ),
            spec_pool_insert_all(p0, spec_events_units(ev.skip(1), *profile, romanize))
                == spec_pool_insert_all(
                text_pool@,
                spec_events_units(ev.skip(i as int), *profile, romanize),
            ),
        decreases n - i,
    {
        proof {
            assert(ev.skip(i as int).drop_first() =~= ev.skip(i as int + 1));
            assert(ev.skip(i as int)[0] == ev[i as int]);
            assert(ev[i as int] == crate::model::opt_event_view(doc.events@[i as int]));
            lemma_pool_insert_all_concat(
                text_pool@,
                spec_event_units(ev[i as int], *profile, romanize),
                spec_events_units(ev.skip(i as int + 1), *profile, romanize),
            );
        }
        match &doc.events[i] {
            Some(event) => {
                extract_pages(
                    &event.pages,
                    &DocKind::MapFamily,
                    profile,
                    romanize,
                    text_pool,
                );
                proof {
                    assert(page_views(event.pages@) == (ev[i as int])->0.pages);
                }
            },
            None => {
                proof {
                    assert(spec_event_units(ev[i as int], *profile, romanize)
                        =~= Seq::<Seq<char>>::empty());
                }
            },
        }
        i += 1;
    }
    proof {
        assert(ev.skip(n as int) =~= Seq::<Option<EventV>>::empty());
    }
}

/// The single unit of one present, non-blank attribute.
pub open spec fn spec_attr_units(a: Option<Seq<char>>, romanize: bool) -> Seq<Seq<char>> {
    match a {
        None => Seq::empty(),
        Some(x) => if spec_trim(x).len() == 0 {
            Seq::empty()
        } else {
            seq![spec_norm(spec_trim(x), romanize)]
        },
    }
}

/// The first of the markers that occurs in the text, if any.
pub open spec fn spec_first_marker(markers: Seq<Seq<char>>, t: Seq<char>) -> Option<int>
    decreases markers.len(),
{
    spec_first_marker_from(markers, t, 0)
}

pub open spec fn spec_first_marker_from(
    markers: Seq<Seq<char>>,
    t: Seq<char>,
    i: int,
) -> Option<int>
    decreases markers.len() - i,
{
    if i < 0 || i >= markers.len() {
        None
    } else if exists|k: int| spec_has_sub_at(t, markers[i], k) {
        Some(i)
    } else {
        spec_first_marker_from(markers, t, i + 1)
    }
}

/// The unit a note attribute yields under a note rule's action.
pub open spec fn spec_note_action_units(
    action: NoteAction,
    t: Seq<char>,
    romanize: bool,
) -> Seq<Seq<char>> {
    match action {
        NoteAction::WholeField => seq![spec_norm(t, romanize)],
        NoteAction::WholeUnlessPrefix(pre) => if spec_starts_with(t, pre@) {
            Seq::empty()
        } else {
            seq![spec_norm(t, romanize)]
        },
        NoteAction::ExtractMarkers(ms) => match spec_first_marker(views(ms@), t) {
            None => Seq::empty(),
            Some(i) => seq![spec_norm(views(ms@)[i], romanize)],
        },
    }
}

/// The units of a note attribute: the whole trimmed field by default, and
/// under a profile whatever the first matching note rule extracts.
pub open spec fn spec_note_units(
    a: Option<Seq<char>>,
    filename: Seq<char>,
    profile: Option<TitleProfile>,
    romanize: bool,
) -> Seq<Seq<char>> {
    match a {
        None => Seq::empty(),
        Some(x) => {
            let t = spec_trim(x);
            if t.len() == 0 {
                Seq::empty()
            } else {
                match profile {
                    None => seq![spec_norm(t, romanize)],
                    Some(p) => match spec_note_rule_index(p, filename) {
                        None => Seq::empty(),
                        Some(i) => spec_note_action_units(p.note_rules@[i].action, t, romanize),
                    },
                }
            }
        },
    }
}

/// The units of one record slot.
pub open spec fn spec_record_units(
    r: Option<RecordV>,
    filename: Seq<char>,
    profile: Option<TitleProfile>,
    romanize: bool,
) -> Seq<Seq<char>> {
    match r {
        None => Seq::empty(),
        Some(rec) => match rec {
            RecordV::Flat { name, nickname, description, note } => spec_attr_units(name, romanize)
                + spec_attr_units(nickname, romanize) + spec_attr_units(description, romanize)
                + spec_note_units(note, filename, profile, romanize),
            RecordV::Paged { pages } => spec_pages_units(
                pages,
                DocKind::EntityFamily,
                profile,
                romanize,
            ),
            RecordV::Listed { list } => spec_extract_list(
                list,
                DocKind::EntityFamily,
                profile,
                romanize,
            ),
        },
    }
}

/// The units of a sequence of record slots, in order.
pub open spec fn spec_records_units(
    records: Seq<Option<RecordV>>,
    filename: Seq<char>,
    profile: Option<TitleProfile>,
    romanize: bool,
) -> Seq<Seq<char>>
    decreases records.len(),
{
    if records.len() == 0 {
        Seq::empty()
    } else {
        spec_record_units(records[0], filename, profile, romanize) + spec_records_units(
            records.drop_first(),
            filename,
            profile,
            romanize,
        )
    }
}

/// The units of an entity collection: everything after the sentinel slot.
pub open spec fn spec_entity_doc_units(
    d: crate::model::EntityDocV,
    profile: Option<TitleProfile>,
    romanize: bool,
) -> Seq<Seq<char>> {
    if d.records.len() == 0 {
        Seq::empty()
    } else {
        spec_records_units(d.records.skip(1), d.filename, profile, romanize)
    }
}

/// Finds the first listed marker occurring in the text.
pub fn first_marker(markers: &Vec<String>, t: &str) -> (r: Option<usize>)
    ensures
        match r {
            Some(i) => i < markers@.len() && Some(i as int) == spec_first_marker(
                views(markers@),
                t@,
            ),
            None => spec_first_marker(views(markers@), t@) is None,
        },
{
    let n = markers.len();
    let mut i: usize = 0;
    while i < n
        invariant
            n == markers@.len(),
            0 <= i <= n,
            spec_first_marker(views(markers@), t@) == spec_first_marker_from(
                views(markers@),
                t@,
                i as int,
            ),
        decreases n - i,
    {
        if contains_sub(t, markers[i].as_str()) {
            proof {
                assert(views(markers@)[i as int] == markers@[i as int]@);
                assert(spec_first_marker_from(views(markers@), t@, i as int) == Some(i as int));
            }
            return Some(i);
        }
        i += 1;
    }
    None
}

/// Extracts one present attribute value as a unit.
fn extract_attr(a: &Option<String>, romanize: bool, pool: &mut TextPool)
    requires
        old(pool).wf(),
    ensures
        final(pool).wf(),
        final(pool)@ == spec_pool_insert_all(
            old(pool)@,
            spec_attr_units(crate::model::opt_str_view(*a), romanize),
        ),
{
    let ghost p0 = pool@;
    let ghost au = spec_attr_units(crate::model::opt_str_view(*a), romanize);
    match a {
        Some(x) => {
            let t = trim_str(x.as_str());
            if t.unicode_len() > 0 {
                let u = norm_text(t.as_str(), romanize);
                pool.insert(u.as_str());
                proof {
                    assert(au =~= seq![u@]);
                    assert(au[0] == u@);
                    assert(au.drop_first() =~= Seq::<Seq<char>>::empty());
                    assert(spec_pool_insert_all(
                        spec_pool_insert(p0, u@),
                        Seq::<Seq<char>>::empty(),
                    ) == spec_pool_insert(p0, u@));
                }
            } else {
                proof {
                    assert(au =~= Seq::<Seq<char>>::empty());
                }
            }
        },
        None => {
            proof {
                assert(au =~= Seq::<Seq<char>>::empty());
            }
        },
    }
}

/// Extracts a note attribute under the active profile's note rules.
fn extract_note(
    a: &Option<String>,
    filename: &str,
    profile: &Option<TitleProfile>,
    romanize: bool,
    pool: &mut TextPool,
)
    requires
        old(pool).wf(),
    ensures
        final(pool).wf(),
        final(pool)@ == spec_pool_insert_all(
            old(pool)@,
            spec_note_units(crate::model::opt_str_view(*a), filename@, *profile, romanize),
        ),
{
    let ghost p0 = pool@;
    let ghost nu = spec_note_units(crate::model::opt_str_view(*a), filename@, *profile, romanize);
    match a {
        Some(x) => {
            let t = trim_str(x.as_str());
            if t.unicode_len() == 0 {
                proof {
                    assert(nu =~= Seq::<Seq<char>>::empty());
                }
                return ;
            }
            match profile {
                None => {
                    let u = norm_text(t.as_str(), romanize);
                    pool.insert(u.as_str());
                    proof {
                        assert(nu =~= seq![u@]);
                        assert(nu[0] == u@);
                        assert(nu.drop_first() =~= Seq::<Seq<char>>::empty());
                        assert(spec_pool_insert_all(
                            spec_pool_insert(p0, u@),
                            Seq::<Seq<char>>::empty(),
                        ) == spec_pool_insert(p0, u@));
                    }
                },
                Some(p) => {
                    match note_rule_index(p, filename) {
                        None => {
                            proof {
                                assert(nu =~= Seq::<Seq<char>>::empty());
                            }
                        },
                        Some(ri) => {
                            let ghost act = p.note_rules@[ri as int].action;
                            match &p.note_rules[ri].action {
                                NoteAction::WholeField => {
                                    let u = norm_text(t.as_str(), romanize);
                                    pool.insert(u.as_str());
                                    proof {
                                        assert(nu =~= seq![u@]);
                                        assert(nu[0] == u@);
                                        assert(nu.drop_first() =~= Seq::<Seq<char>>::empty());
                                        assert(spec_pool_insert_all(
                                            spec_pool_insert(p0, u@),
                                            Seq::<Seq<char>>::empty(),
                                        ) == spec_pool_insert(p0, u@));
                                    }
                                },
                                NoteAction::WholeUnlessPrefix(pre) => {
                                    if starts_with_str(t.as_str(), pre.as_str()) {
                                        proof {
                                            assert(nu =~= Seq::<Seq<char>>::empty());
                                        }
                                    } else {
                                        let u = norm_text(t.as_str(), romanize);
                                        pool.insert(u.as_str());
                                        proof {
                                            assert(nu =~= seq![u@]);
                                            assert(nu[0] == u@);
                                            assert(nu.drop_first() =~= Seq::<Seq<char>>::empty());
                                            assert(spec_pool_insert_all(
                                                spec_pool_insert(p0, u@),
                                                Seq::<Seq<char>>::empty(),
                                            ) == spec_pool_insert(p0, u@));
                                        }
                                    }
                                },
                                NoteAction::ExtractMarkers(ms) => {
                                    match first_marker(ms, t.as_str()) {
                                        Some(mi) => {
                                            let u = norm_text(ms[mi].as_str(), romanize);
                                            pool.insert(u.as_str());
                                            proof {
                                                assert(views(ms@)[mi as int] == ms@[mi as int]@);
                                                assert(nu =~= seq![u@]);
                                                assert(nu[0] == u@);
                                                assert(nu.drop_first()
                                                    =~= Seq::<Seq<char>>::empty());
                                                assert(spec_pool_insert_all(
                                                    spec_pool_insert(p0, u@),
                                                    Seq::<Seq<char>>::empty(),
                                                ) == spec_pool_insert(p0, u@));
                                            }
                                        },
                                        None => {
                                            proof {
                                                assert(nu =~= Seq::<Seq<char>>::empty());
                                            }
                                        },
                                    }
                                },
                            }
                        },
                    }
                },
            }
        },
        None => {
            proof {
                assert(nu =~= Seq::<Seq<char>>::empty());
            }
        },
    }
}

/// Extracts an entity collection: flat records attribute by attribute,
/// paged and listed records through the run merger; the sentinel slot is
/// never visited.
pub fn extract_other(
    doc: &EntityDocument,
    profile: &Option<TitleProfile>,
    romanize: bool,
    pool: &mut TextPool,
)
    requires
        old(pool).wf(),
    ensures
        final(pool).wf(),
        final(pool)@ == spec_pool_insert_all(
            old(pool)@,
            spec_entity_doc_units(doc@, *profile, romanize),
        ),
{
    let ghost p0 = pool@;
    let ghost rv = doc@.records;
    let n = doc.records.len();
    if n == 0 {
        proof {
            assert(spec_entity_doc_units(doc@, *profile, romanize) =~= Seq::<Seq<char>>::empty());
        }
        return ;
    }
    let mut i: usize = 1;
    while i < n
        invariant
            old(pool)@ == p0,
            rv == doc@.records,
            n == doc.records@.len(),
            n == rv.len(),
            n >= 1,
            1 <= i <= n,
            pool.wf(),
            spec_pool_insert_all(
                p0,
                spec_records_units(rv.skip(1), doc@.filename, *profile, romanize),
            ) == spec_pool_insert_all(
                pool@,
                spec_records_units(rv.skip(i as int), doc@.filename, *profile, romanize),
            ),
        decreases n - i,
    {
        proof {
            assert(rv.skip(i as int).drop_first() =~= rv.skip(i as int + 1));
            assert(rv.skip(i as int)[0] == rv[i as int]);
            assert(rv[i as int] == crate::model::opt_record_view(doc.records@[i as int]));
            lemma_pool_insert_all_concat(
                pool@,
                spec_record_units(rv[i as int], doc@.filename, *profile, romanize),
                spec_records_units(rv.skip(i as int + 1), doc@.filename, *profile, romanize),
            );
        }
        match &doc.records[i] {
            Some(rec) => {
                match rec {
                    EntityRecord::Flat { name, nickname, description, note } => {
                        let ghost q0 = pool@;
                        let ghost u1 = spec_attr_units(
                            crate::model::opt_str_view(*name),
                            romanize,
                        );
                        let ghost u2 = spec_attr_units(
                            crate::model::opt_str_view(*nickname),
                            romanize,
                        );
                        let ghost u3 = spec_attr_units(
                            crate::model::opt_str_view(*description),
                            romanize,
                        );
                        let ghost u4 = spec_note_units(
                            crate::model::opt_str_view(*note),
                            doc@.filename,
                            *profile,
                            romanize,
                        );
                        extract_attr(name, romanize, pool);
                        extract_attr(nickname, romanize, pool);
                        extract_attr(description, romanize, pool);
                        extract_note(note, doc.filename.as_str(), profile, romanize, pool);
                        proof {
                            assert(spec_record_units(rv[i as int], doc@.filename, *profile,
                            romanize) == u1 + u2 + u3 + u4);
                            assert(pool@ == spec_pool_insert_all(q0, u1 + u2 + u3 + u4)) by {
                                lemma_pool_insert_all_concat(q0, u1, u2 + u3 + u4);
                                lemma_pool_insert_all_concat(
                                    spec_pool_insert_all(q0, u1),
                                    u2,
                                    u3 + u4,
                                );
                                lemma_pool_insert_all_concat(
                                    spec_pool_insert_all(spec_pool_insert_all(q0, u1), u2),
                                    u3,
                                    u4,
                                );
                                assert(u1 + u2 + u3 + u4 =~= u1 + ((u2 + u3) + u4));
                                assert((u2 + u3) + u4 =~= u2 + (u3 + u4));
                            }
                        }
                    },
                    EntityRecord::Paged { pages } => {
                        extract_pages(pages, &DocKind::EntityFamily, profile, romanize, pool);
                        proof {
                            assert(page_views(pages@) == (rv[i as int])->0->Paged_pages);
                        }
                    },
                    EntityRecord::Listed { list } => {
                        extract_list(list, &DocKind::EntityFamily, profile, romanize, pool);
                        proof {
                            assert(node_views(list@) == (rv[i as int])->0->Listed_list);
                        }
                    },
                }
            },
            None => {
                proof {
                    assert(spec_record_units(rv[i as int], doc@.filename, *profile, romanize)
                        =~= Seq::<Seq<char>>::empty());
                }
            },
        }
        i += 1;
    }
    proof {
        assert(rv.skip(n as int) =~= Seq::<Option<RecordV>>::empty());
    }
}


/// The unit of one vocabulary string: nothing when it trims to nothing.
pub open spec fn spec_string_unit(s: Seq<char>, romanize: bool) -> Seq<Seq<char>> {
    if spec_trim(s).len() == 0 {
        Seq::empty()
    } else {
        seq![spec_norm(spec_trim(s), romanize)]
    }
}

/// The units of one vocabulary array, in order.
pub open spec fn spec_vocab_units(v: Seq<Seq<char>>, romanize: bool) -> Seq<Seq<char>>
    decreases v.len(),
{
    if v.len() == 0 {
        Seq::empty()
    } else {
        spec_string_unit(v[0], romanize) + spec_vocab_units(v.drop_first(), romanize)
    }
}

/// The units of the entries of one terms list group; non-string entries
/// yield nothing.
pub open spec fn spec_entries_units(es: Seq<Option<Seq<char>>>, romanize: bool) -> Seq<Seq<char>>
    decreases es.len(),
{
    if es.len() == 0 {
        Seq::empty()
    } else {
        (match es[0] {
            None => Seq::<Seq<char>>::empty(),
            Some(s) => spec_string_unit(s, romanize),
        }) + spec_entries_units(es.drop_first(), romanize)
    }
}

/// The units of the values of the message map.
pub open spec fn spec_msgs_units(ps: Seq<(Seq<char>, Seq<char>)>, romanize: bool) -> Seq<Seq<char>>
    decreases ps.len(),
{
    if ps.len() == 0 {
        Seq::empty()
    } else {
        spec_string_unit(ps[0].1, romanize) + spec_msgs_units(ps.drop_first(), romanize)
    }
}

/// The units of one terms group.
pub open spec fn spec_term_group_units(g: TermGroupV, romanize: bool) -> Seq<Seq<char>> {
    match g.value {
        TermValueV::StringList(es) => spec_entries_units(es, romanize),
        TermValueV::MessageMap(ps) => spec_msgs_units(ps, romanize),
    }
}

/// The units of the whole terms map, group by group.
pub open spec fn spec_terms_units(gs: Seq<TermGroupV>, romanize: bool) -> Seq<Seq<char>>
    decreases gs.len(),
{
    if gs.len() == 0 {
        Seq::empty()
    } else {
        spec_term_group_units(gs[0], romanize) + spec_terms_units(gs.drop_first(), romanize)
    }
}

/// The units of the system document: the vocabulary arrays, the game
/// title, and the terms map, in the order the walk visits them.
pub open spec fn spec_system_units(d: crate::model::SystemDocV, romanize: bool) -> Seq<Seq<char>> {
    spec_vocab_units(d.armor_types, romanize) + spec_vocab_units(d.elements, romanize)
        + spec_vocab_units(d.equip_types, romanize) + spec_string_unit(d.game_title, romanize)
        + spec_vocab_units(d.skill_types, romanize) + spec_terms_units(d.terms, romanize)
        + spec_vocab_units(d.weapon_types, romanize)
}

/// Extracts one vocabulary string as a unit.
fn extract_string(s: &str, romanize: bool, pool: &mut TextPool)
    requires
        old(pool).wf(),
    ensures
        final(pool).wf(),
        final(pool)@ == spec_pool_insert_all(old(pool)@, spec_string_unit(s@, romanize)),
{
    let ghost p0 = pool@;
    let ghost su = spec_string_unit(s@, romanize);
    let t = trim_str(s);
    if t.unicode_len() > 0 {
        let u = norm_text(t.as_str(), romanize);
        pool.insert(u.as_str());
        proof {
            assert(su =~= seq![u@]);
            assert(su[0] == u@);
            assert(su.drop_first() =~= Seq::<Seq<char>>::empty());
            assert(spec_pool_insert_all(spec_pool_insert(p0, u@), Seq::<Seq<char>>::empty())
                == spec_pool_insert(p0, u@));
        }
    } else {
        proof {
            assert(su =~= Seq::<Seq<char>>::empty());
        }
    }
}

/// Extracts every string of one vocabulary array.
fn extract_vocab(v: &Vec<String>, romanize: bool, pool: &mut TextPool)
    requires
        old(pool).wf(),
    ensures
        final(pool).wf(),
        final(pool)@ == spec_pool_insert_all(old(pool)@, spec_vocab_units(views(v@), romanize)),
{
    let ghost p0 = pool@;
    let ghost vv = views(v@);
    let n = v.len();
    let mut i: usize = 0;
    proof {
        assert(vv.skip(0) =~= vv);
    }
    while i < n
        invariant
            old(pool)@ == p0,
            vv == views(v@),
            n == v@.len(),
            0 <= i <= n,
            pool.wf(),
            spec_pool_insert_all(p0, spec_vocab_units(vv, romanize)) == spec_pool_insert_all(
                pool@,
                spec_vocab_units(vv.skip(i as int), romanize),
            ),
        decreases n - i,
    {
        proof {
            assert(vv.skip(i as int).drop_first() =~= vv.skip(i as int + 1));
            assert(vv.skip(i as int)[0] == vv[i as int]);
            assert(vv[i as int] == v@[i as int]@);
            lemma_pool_insert_all_concat(
                pool@,
                spec_string_unit(vv[i as int], romanize),
                spec_vocab_units(vv.skip(i as int + 1), romanize),
            );
        }
        extract_string(v[i].as_str(), romanize, pool);
        i += 1;
    }
    proof {
        assert(vv.skip(n as int) =~= Seq::<Seq<char>>::empty());
    }
}

/// Extracts one terms group.
fn extract_term_group(g: &TermGroup, romanize: bool, pool: &mut TextPool)
    requires
        old(pool).wf(),
    ensures
        final(pool).wf(),
        final(pool)@ == spec_pool_insert_all(old(pool)@, spec_term_group_units(g@, romanize)),
{
    let ghost p0 = pool@;
    match &g.value {
        TermValue::StringList(es) => {
            let ghost ev = es@.map_values(|s: Option<String>| crate::model::opt_str_view(s));
            let n = es.len();
            let mut i: usize = 0;
            proof {
                assert(ev.skip(0) =~= ev);
                assert(spec_term_group_units(g@, romanize) == spec_entries_units(ev, romanize));
            }
            while i < n
                invariant
                    old(pool)@ == p0,
                    ev == es@.map_values(|s: Option<String>| crate::model::opt_str_view(s)),
                    n == es@.len(),
                    0 <= i <= n,
                    pool.wf(),
                    spec_pool_insert_all(p0, spec_entries_units(ev, romanize))
                        == spec_pool_insert_all(
                        pool@,
                        spec_entries_units(ev.skip(i as int), romanize),
                    ),
                decreases n - i,
            {
                proof {
                    assert(ev.skip(i as int).drop_first() =~= ev.skip(i as int + 1));
                    assert(ev.skip(i as int)[0] == ev[i as int]);
                    assert(ev[i as int] == crate::model::opt_str_view(es@[i as int]));
                    lemma_pool_insert_all_concat(
                        pool@,
                        match ev[i as int] {
                            None => Seq::<Seq<char>>::empty(),
                            Some(s) => spec_string_unit(s, romanize),
                        },
                        spec_entries_units(ev.skip(i as int + 1), romanize),
                    );
                }
                match &es[i] {
                    Some(s) => {
                        extract_string(s.as_str(), romanize, pool);
                    },
                    None => {
                        proof {
                            assert(spec_pool_insert_all(pool@, Seq::<Seq<char>>::empty())
                                == pool@);
                        }
                    },
                }
                i += 1;
            }
            proof {
                assert(ev.skip(n as int) =~= Seq::<Option<Seq<char>>>::empty());
            }
        },
        TermValue::MessageMap(ps) => {
            let ghost pv = ps@.map_values(|p: (String, String)| (p.0@, p.1@));
            let n = ps.len();
            let mut i: usize = 0;
            proof {
                assert(pv.skip(0) =~= pv);
                assert(spec_term_group_units(g@, romanize) == spec_msgs_units(pv, romanize));
            }
            while i < n
                invariant
                    old(pool)@ == p0,
                    pv == ps@.map_values(|p: (String, String)| (p.0@, p.1@)),
                    n == ps@.len(),
                    0 <= i <= n,
                    pool.wf(),
                    spec_pool_insert_all(p0, spec_msgs_units(pv, romanize))
                        == spec_pool_insert_all(
                        pool@,
                        spec_msgs_units(pv.skip(i as int), romanize),
                    ),
                decreases n - i,
            {
                proof {
                    assert(pv.skip(i as int).drop_first() =~= pv.skip(i as int + 1));
                    assert(pv.skip(i as int)[0] == pv[i as int]);
                    assert(pv[i as int] == (ps@[i as int].0@, ps@[i as int].1@));
                    lemma_pool_insert_all_concat(
                        pool@,
                        spec_string_unit(pv[i as int].1, romanize),
                        spec_msgs_units(pv.skip(i as int + 1), romanize),
                    );
                }
                extract_string(ps[i].1.as_str(), romanize, pool);
                i += 1;
            }
            proof {
                assert(pv.skip(n as int) =~= Seq::<(Seq<char>, Seq<char>)>::empty());
            }
        },
    }
}

/// Extracts the system document: the vocabulary arrays, the game title and
/// the terms map, in walk order.
pub fn extract_system(doc: &SystemDocument, romanize: bool, pool: &mut TextPool)
    requires
        old(pool).wf(),
    ensures
        final(pool).wf(),
        final(pool)@ == spec_pool_insert_all(old(pool)@, spec_system_units(doc@, romanize)),
{
    let ghost p0 = pool@;
    let ghost a = spec_vocab_units(doc@.armor_types, romanize);
    let ghost b = spec_vocab_units(doc@.elements, romanize);
    let ghost c = spec_vocab_units(doc@.equip_types, romanize);
    let ghost t = spec_string_unit(doc@.game_title, romanize);
    let ghost s = spec_vocab_units(doc@.skill_types, romanize);
    let ghost g = spec_terms_units(doc@.terms, romanize);
    let ghost w = spec_vocab_units(doc@.weapon_types, romanize);
    extract_vocab(&doc.armor_types, romanize, pool);
    proof {
        lemma_pool_insert_all_concat(p0, a, b);
    }
    extract_vocab(&doc.elements, romanize, pool);
    proof {
        lemma_pool_insert_all_concat(p0, a + b, c);
    }
    extract_vocab(&doc.equip_types, romanize, pool);
    proof {
        lemma_pool_insert_all_concat(p0, a + b + c, t);
    }
    extract_string(doc.game_title.as_str(), romanize, pool);
    proof {
        lemma_pool_insert_all_concat(p0, a + b + c + t, s);
    }
    extract_vocab(&doc.skill_types, romanize, pool);
    proof {
        lemma_pool_insert_all_concat(p0, a + b + c + t + s, g);
    }
    let ghost q0 = pool@;
    let n = doc.terms.len();
    let ghost gv = doc@.terms;
    let mut i: usize = 0;
    proof {
        assert(gv.skip(0) =~= gv);
    }
    while i < n
        invariant
            gv == doc@.terms,
            n == doc.terms@.len(),
            0 <= i <= n,
            pool.wf(),
            spec_pool_insert_all(q0, spec_terms_units(gv, romanize)) == spec_pool_insert_all(
                pool@,
                spec_terms_units(gv.skip(i as int), romanize),
            ),
        decreases n - i,
    {
        proof {
            assert(gv.skip(i as int).drop_first() =~= gv.skip(i as int + 1));
            assert(gv.skip(i as int)[0] == gv[i as int]);
            assert(gv[i as int] == doc.terms@[i as int]@);
            lemma_pool_insert_all_concat(
                pool@,
                spec_term_group_units(gv[i as int], romanize),
                spec_terms_units(gv.skip(i as int + 1), romanize),
            );
        }
        extract_term_group(&doc.terms[i], romanize, pool);
        i += 1;
    }
    proof {
        assert(gv.skip(n as int) =~= Seq::<TermGroupV>::empty());
        lemma_pool_insert_all_concat(p0, a + b + c + t + s, g);
        lemma_pool_insert_all_concat(p0, a + b + c + t + s + g, w);
    }
    extract_vocab(&doc.weapon_types, romanize, pool);
}

} // verus!
