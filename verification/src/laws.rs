//! The engine's global laws, stated and proved over the specifications the
//! executable functions are verified against: re-injecting a document
//! against a translation map that sends every original to itself
//! reproduces the document, the sentinel slot never influences extraction,
//! and a pool built with romanization carries only romanized keys.

use vstd::prelude::*;

use crate::classify::{
    spec_classify, spec_mergeable, spec_system_accepts, DocKind, TitleProfile,
};
use crate::inject::{
    spec_field_lookup, spec_inject_attr, spec_inject_entity_doc, spec_inject_event,
    spec_inject_map_doc, spec_inject_note, spec_inject_page, spec_inject_string,
    spec_inject_system_doc, spec_inject_term_group,
};
use crate::model::{
    EntityDocV, EventV, MapDocV, NodeV, ParamV, RecordV, SystemDocV, TermGroupV, TermValueV,
};
use crate::romanize::spec_romanize;
use crate::runs::{
    spec_close_unit, spec_extract_list, spec_flush_run, spec_inject_list, spec_inject_list_rec,
    spec_inject_node, spec_list_units, spec_node_payload, spec_node_units, spec_norm,
    spec_patch_pending, spec_redistribute, spec_run_unit, spec_set_payload,
};
use crate::text::{
    is_space, lemma_escape_round_trip, lemma_find_sub_char, lemma_split_join, lemma_trim_stable,
    spec_escape, spec_find_sub, spec_join, spec_replace_first, spec_split, spec_trim,
    spec_unescape,
};
use crate::tmap::{spec_build_tmap, spec_key_of, spec_val_of};

verus! {

/// A map that sends every key it holds to that key itself, as the builder
/// produces from a pool paired with an unedited copy of itself.
pub open spec fn identity_map(m: Map<Seq<char>, Seq<char>>) -> bool {
    forall|k: Seq<char>| m.contains_key(k) ==> m[k] == k
}

/// A dialogue or credits payload in canonical form: non-empty, free of
/// embedded newlines, and with no whitespace at either end, so that
/// joining, trimming and splitting reproduce it exactly.
pub open spec fn canonical_payload(t: Seq<char>) -> bool {
    t.len() > 0 && !is_space(t[0]) && !is_space(t.last()) && forall|j: int|
        0 <= j < t.len() ==> t[j] != '\n'
}

/// A node in canonical form: a mergeable node's payload, when present, is
/// canonical.
pub open spec fn canonical_node(n: NodeV, kind: DocKind) -> bool {
    spec_mergeable(spec_classify(n.code, kind)) ==> match spec_node_payload(n) {
        Some(t) => canonical_payload(t),
        None => true,
    }
}

/// Every node of the list is canonical.
pub open spec fn canonical_list(nodes: Seq<NodeV>, kind: DocKind) -> bool {
    forall|i: int| 0 <= i < nodes.len() ==> canonical_node(#[trigger] nodes[i], kind)
}

/// The number of payload-bearing nodes among the pending run nodes.
pub open spec fn payload_count(pending: Seq<NodeV>) -> nat
    decreases pending.len(),
{
    if pending.len() == 0 {
        0
    } else {
        (if spec_node_payload(pending[0]) is Some {
            1nat
        } else {
            0nat
        }) + payload_count(pending.drop_first())
    }
}

/// Writing a node's own payload back into its payload slot leaves the node
/// unchanged.
proof fn lemma_set_own_payload(n: NodeV)
    requires
        spec_node_payload(n) is Some,
    ensures
        spec_set_payload(n, spec_node_payload(n)->0) == n,
{
    let pi = crate::classify::spec_payload_index(n.code);
    let t = spec_node_payload(n)->0;
    match n.parameters[pi] {
        ParamV::Text(a) => {
            assert(n.parameters[pi] == ParamV::Text(a));
            assert(a == t);
        },
        _ => {
            assert(false);
        },
    }
    assert(n.parameters.update(pi, ParamV::Text(t)) =~= n.parameters);
    assert(spec_set_payload(n, t) =~= n);
}

/// Appending a payload node and its payload to a run leaves patching
/// pointwise: the new node is patched with the new segment.
proof fn lemma_patch_snoc_payload(pending: Seq<NodeV>, segs: Seq<Seq<char>>, n: NodeV, t: Seq<char>)
    requires
        payload_count(pending) == segs.len(),
        spec_node_payload(n) is Some,
    ensures
        spec_patch_pending(pending.push(n), segs.push(t)) == spec_patch_pending(
            pending,
            segs,
        ).push(spec_set_payload(n, t)),
    decreases pending.len(),
{
    if pending.len() == 0 {
        assert(segs.len() == 0);
        assert(pending.push(n)[0] == n);
        assert(pending.push(n).drop_first() =~= Seq::<NodeV>::empty());
        assert(segs.push(t)[0] == t);
        assert(segs.push(t).len() > 0);
        assert(segs.push(t).drop_first() =~= Seq::<Seq<char>>::empty());
        assert(spec_patch_pending(Seq::<NodeV>::empty(), Seq::<Seq<char>>::empty())
            =~= Seq::<NodeV>::empty());
        assert(spec_patch_pending(pending.push(n), segs.push(t)) =~= seq![
            spec_set_payload(n, t),
        ]);
        assert(spec_patch_pending(pending, segs).push(spec_set_payload(n, t)) =~= seq![
            spec_set_payload(n, t),
        ]);
    } else {
        let h = pending[0];
        assert(pending.push(n)[0] == h);
        assert(pending.push(n).drop_first() =~= pending.drop_first().push(n));
        if spec_node_payload(h) is Some {
            assert(segs.len() >= 1);
            assert(segs.push(t)[0] == segs[0]);
            assert(segs.push(t).drop_first() =~= segs.drop_first().push(t));
            lemma_patch_snoc_payload(pending.drop_first(), segs.drop_first(), n, t);
            assert(spec_patch_pending(pending.push(n), segs.push(t)) =~= spec_patch_pending(
                pending,
                segs,
            ).push(spec_set_payload(n, t)));
        } else {
            lemma_patch_snoc_payload(pending.drop_first(), segs, n, t);
            if segs.len() > 0 {
                assert(segs.push(t)[0] == segs[0]);
            }
            assert(spec_patch_pending(pending.push(n), segs.push(t)) =~= spec_patch_pending(
                pending,
                segs,
            ).push(spec_set_payload(n, t)));
        }
    }
}

/// Appending a node without a payload changes nothing about how the
/// segments are assigned.
proof fn lemma_patch_snoc_plain(pending: Seq<NodeV>, segs: Seq<Seq<char>>, n: NodeV)
    requires
        payload_count(pending) == segs.len(),
        spec_node_payload(n) is None,
    ensures
        spec_patch_pending(pending.push(n), segs) == spec_patch_pending(pending, segs).push(n),
    decreases pending.len(),
{
    if pending.len() == 0 {
        assert(segs.len() == 0);
        assert(pending.push(n)[0] == n);
        assert(pending.push(n).drop_first() =~= Seq::<NodeV>::empty());
        assert(spec_patch_pending(Seq::<NodeV>::empty(), segs) =~= Seq::<NodeV>::empty());
        assert(spec_patch_pending(pending.push(n), segs) =~= seq![n]);
        assert(spec_patch_pending(pending, segs).push(n) =~= seq![n]);
    } else {
        let h = pending[0];
        assert(pending.push(n)[0] == h);
        assert(pending.push(n).drop_first() =~= pending.drop_first().push(n));
        if spec_node_payload(h) is Some {
            assert(segs.len() >= 1);
            lemma_patch_snoc_plain(pending.drop_first(), segs.drop_first(), n);
            assert(spec_patch_pending(pending.push(n), segs) =~= spec_patch_pending(
                pending,
                segs,
            ).push(n));
        } else {
            lemma_patch_snoc_plain(pending.drop_first(), segs, n);
            assert(spec_patch_pending(pending.push(n), segs) =~= spec_patch_pending(
                pending,
                segs,
            ).push(n));
        }
    }
}

/// The join of one or more canonical payloads starts and ends with a
/// non-space character, so trimming leaves it unchanged.
proof fn lemma_join_canonical_trim_stable(buf: Seq<Seq<char>>)
    requires
        buf.len() >= 1,
        forall|i: int| 0 <= i < buf.len() ==> canonical_payload(#[trigger] buf[i]),
    ensures
        spec_trim(spec_join(buf, '\n')) == spec_join(buf, '\n'),
        spec_join(buf, '\n').len() > 0,
    decreases buf.len(),
{
    let j = spec_join(buf, '\n');
    if buf.len() == 1 {
        assert(j == buf[0]);
        lemma_trim_stable(j);
    } else {
        let rest = buf.drop_first();
        assert(forall|i: int| 0 <= i < rest.len() ==> canonical_payload(#[trigger] rest[i])) by {
            assert(forall|i: int| 0 <= i < rest.len() ==> rest[i] == buf[i + 1]);
        }
        lemma_join_canonical_trim_stable(rest);
        let jr = spec_join(rest, '\n');
        assert(j == buf[0] + seq!['\n'] + jr);
        assert(j.len() > 0);
        assert(j[0] == buf[0][0]);
        assert(j.last() == jr.last()) by {
            assert(jr.len() > 0);
        }
        assert(!is_space(jr.last())) by {
            lemma_join_last_nonspace(rest);
        }
        lemma_trim_stable(j);
    }
}

/// The last character of a join of canonical payloads is the last
/// character of the last payload.
proof fn lemma_join_last_nonspace(buf: Seq<Seq<char>>)
    requires
        buf.len() >= 1,
        forall|i: int| 0 <= i < buf.len() ==> canonical_payload(#[trigger] buf[i]),
    ensures
        spec_join(buf, '\n').len() > 0,
        spec_join(buf, '\n').last() == buf.last().last(),
        !is_space(spec_join(buf, '\n').last()),
    decreases buf.len(),
{
    if buf.len() == 1 {
    } else {
        let rest = buf.drop_first();
        assert(forall|i: int| 0 <= i < rest.len() ==> canonical_payload(#[trigger] rest[i])) by {
            assert(forall|i: int| 0 <= i < rest.len() ==> rest[i] == buf[i + 1]);
        }
        lemma_join_last_nonspace(rest);
        assert(spec_join(buf, '\n') == buf[0] + seq!['\n'] + spec_join(rest, '\n'));
        assert(rest.last() == buf.last());
    }
}

/// Against an identity map, injecting one non-mergeable node returns the
/// node unchanged.
proof fn lemma_inject_node_identity(
    n: NodeV,
    kind: DocKind,
    profile: Option<TitleProfile>,
    m: Map<Seq<char>, Seq<char>>,
)
    requires
        identity_map(m),
    ensures
        spec_inject_node(n, kind, profile, false, m) == n,
{
    match spec_classify(n.code, kind) {
        crate::classify::Category::Choice => {
            if 0 < n.parameters.len() && n.parameters[0] is Choices {
                let items = n.parameters[0]->Choices_0;
                let mapped = crate::runs::spec_inject_choices(items, false, m);
                assert(mapped =~= items) by {
                    assert(forall|i: int|
                        0 <= i < items.len() ==> #[trigger] mapped[i] == items[i]);
                }
                match n.parameters[0] {
                    ParamV::Choices(a) => {
                        assert(n.parameters[0] == ParamV::Choices(a));
                        assert(a == items);
                    },
                    _ => {
                        assert(false);
                    },
                }
                assert(n.parameters.update(0, ParamV::Choices(items)) =~= n.parameters);
                assert(spec_inject_node(n, kind, profile, false, m) =~= n);
            }
        },
        crate::classify::Category::SystemText => {
            match spec_node_payload(n) {
                Some(raw) => {
                    if spec_system_accepts(profile, raw) && m.contains_key(raw) {
                        assert(m[raw] == raw);
                        lemma_set_own_payload(n);
                    }
                },
                None => {},
            }
        },
        _ => {},
    }
}

/// Against an identity map, closing a canonical run writes every slot's
/// own payload back.
proof fn lemma_flush_identity(
    pending: Seq<NodeV>,
    buf: Seq<Seq<char>>,
    m: Map<Seq<char>, Seq<char>>,
)
    requires
        identity_map(m),
        payload_count(pending) == buf.len(),
        spec_patch_pending(pending, buf) == pending,
        forall|i: int| 0 <= i < buf.len() ==> canonical_payload(#[trigger] buf[i]),
    ensures
        spec_flush_run(pending, buf, false, m) == pending,
{
    if buf.len() == 0 {
    } else {
        lemma_join_canonical_trim_stable(buf);
        let key = spec_run_unit(buf, false);
        assert(key == spec_join(buf, '\n'));
        if m.contains_key(key) {
            assert(m[key] == key);
            assert(forall|i: int, j: int|
                0 <= i < buf.len() && 0 <= j < buf[i].len() ==> #[trigger] buf[i][j] != '\n');
            lemma_split_join(buf, '\n');
            assert(spec_split(key, '\n') == buf);
            crate::runs::lemma_redistribute_exact(buf, buf.len());
            assert(spec_redistribute(spec_split(key, '\n'), buf.len()) == buf);
        }
    }
}

/// Against an identity map, injecting a canonical command list returns the
/// pending run and the remaining nodes exactly as they are.
proof fn lemma_inject_list_rec_identity(
    nodes: Seq<NodeV>,
    kind: DocKind,
    profile: Option<TitleProfile>,
    m: Map<Seq<char>, Seq<char>>,
    pending: Seq<NodeV>,
    buf: Seq<Seq<char>>,
)
    requires
        identity_map(m),
        canonical_list(nodes, kind),
        payload_count(pending) == buf.len(),
        spec_patch_pending(pending, buf) == pending,
        forall|i: int| 0 <= i < buf.len() ==> canonical_payload(#[trigger] buf[i]),
    ensures
        spec_inject_list_rec(nodes, kind, profile, false, m, pending, buf) == pending + nodes,
    decreases nodes.len(),
{
    if nodes.len() == 0 {
        lemma_flush_identity(pending, buf, m);
        assert(pending + nodes =~= pending);
    } else {
        let n = nodes[0];
        assert(canonical_node(n, kind));
        let rest = nodes.drop_first();
        assert(canonical_list(rest, kind)) by {
            assert(forall|i: int| 0 <= i < rest.len() ==> rest[i] == nodes[i + 1]);
        }
        if spec_mergeable(spec_classify(n.code, kind)) {
            match spec_node_payload(n) {
                Some(t) => {
                    assert(canonical_payload(t));
                    lemma_patch_snoc_payload(pending, buf, n, t);
                    lemma_set_own_payload(n);
                    assert(spec_patch_pending(pending.push(n), buf.push(t))
                        =~= pending.push(n));
                    assert(payload_count(pending.push(n)) == buf.push(t).len()) by {
                        lemma_payload_count_snoc(pending, n);
                    }
                    assert(forall|i: int|
                        0 <= i < buf.push(t).len() ==> canonical_payload(
                            #[trigger] buf.push(t)[i],
                        )) by {
                        assert(forall|i: int| 0 <= i < buf.len() ==> buf.push(t)[i] == buf[i]);
                        assert(buf.push(t)[buf.len() as int] == t);
                    }
                    lemma_inject_list_rec_identity(
                        rest,
                        kind,
                        profile,
                        m,
                        pending.push(n),
                        buf.push(t),
                    );
                    assert(pending.push(n) + rest =~= pending + nodes);
                },
                None => {
                    lemma_patch_snoc_plain(pending, buf, n);
                    assert(spec_patch_pending(pending.push(n), buf) =~= pending.push(n));
                    assert(payload_count(pending.push(n)) == buf.len()) by {
                        lemma_payload_count_snoc(pending, n);
                    }
                    lemma_inject_list_rec_identity(rest, kind, profile, m, pending.push(n), buf);
                    assert(pending.push(n) + rest =~= pending + nodes);
                },
            }
        } else {
            lemma_flush_identity(pending, buf, m);
            lemma_inject_node_identity(n, kind, profile, m);
            assert(spec_patch_pending(Seq::<NodeV>::empty(), Seq::<Seq<char>>::empty())
                =~= Seq::<NodeV>::empty());
            lemma_inject_list_rec_identity(
                rest,
                kind,
                profile,
                m,
                Seq::<NodeV>::empty(),
                Seq::<Seq<char>>::empty(),
            );
            assert(Seq::<NodeV>::empty() + rest =~= rest);
            assert(pending + seq![n] + rest =~= pending + nodes);
        }
    }
}

/// Appending one node adds its slot, if any, to the payload count.
proof fn lemma_payload_count_snoc(pending: Seq<NodeV>, n: NodeV)
    ensures
        payload_count(pending.push(n)) == payload_count(pending) + (
        if spec_node_payload(n) is Some {
            1nat
        } else {
            0nat
        }),
    decreases pending.len(),
{
    if pending.len() == 0 {
        assert(pending.push(n)[0] == n);
        assert(pending.push(n).drop_first() =~= Seq::<NodeV>::empty());
        assert(payload_count(Seq::<NodeV>::empty()) == 0);
        assert(payload_count(pending) == 0);
    } else {
        assert(pending.push(n)[0] == pending[0]);
        assert(pending.push(n).drop_first() =~= pending.drop_first().push(n));
        lemma_payload_count_snoc(pending.drop_first(), n);
    }
}

/// Round-trip identity for one command list: against a map that sends
/// every key to itself, and with no normalization enabled, injection
/// reproduces the list exactly.
pub proof fn lemma_list_round_trip(
    nodes: Seq<NodeV>,
    kind: DocKind,
    profile: Option<TitleProfile>,
    m: Map<Seq<char>, Seq<char>>,
)
    requires
        identity_map(m),
        canonical_list(nodes, kind),
    ensures
        spec_inject_list(nodes, kind, profile, false, m) == nodes,
{
    assert(spec_patch_pending(Seq::<NodeV>::empty(), Seq::<Seq<char>>::empty())
        =~= Seq::<NodeV>::empty());
    lemma_inject_list_rec_identity(
        nodes,
        kind,
        profile,
        m,
        Seq::<NodeV>::empty(),
        Seq::<Seq<char>>::empty(),
    );
    assert(Seq::<NodeV>::empty() + nodes =~= nodes);
}


/// An event in canonical form: every command list of every page is
/// canonical.
pub open spec fn canonical_event(e: Option<EventV>) -> bool {
    match e {
        None => true,
        Some(ev) => forall|i: int|
            0 <= i < ev.pages.len() ==> canonical_list(
                (#[trigger] ev.pages[i]).list,
                DocKind::MapFamily,
            ),
    }
}

/// A map document in canonical form: every event after the sentinel is
/// canonical.
pub open spec fn canonical_map_doc(d: MapDocV) -> bool {
    forall|i: int| 1 <= i < d.events.len() ==> canonical_event(#[trigger] d.events[i])
}

/// Against an identity map, a field whose key is its own text comes back
/// unchanged: a hit writes the key itself, a miss keeps the original.
proof fn lemma_field_lookup_identity(x: Seq<char>, t: Seq<char>, m: Map<Seq<char>, Seq<char>>)
    requires
        identity_map(m),
        t == x,
    ensures
        spec_field_lookup(x, t, false, m) == x,
{
}

/// Round-trip identity for one event slot.
proof fn lemma_event_round_trip(
    e: Option<EventV>,
    profile: Option<TitleProfile>,
    m: Map<Seq<char>, Seq<char>>,
)
    requires
        identity_map(m),
        canonical_event(e),
    ensures
        spec_inject_event(e, profile, false, m) == e,
{
    match e {
        None => {},
        Some(ev) => {
            let mapped = ev.pages.map_values(
                |p: crate::model::PageV| spec_inject_page(
                    p,
                    DocKind::MapFamily,
                    profile,
                    false,
                    m,
                ),
            );
            assert(mapped =~~= ev.pages) by {
                assert(forall|i: int| 0 <= i < ev.pages.len() ==> #[trigger] mapped[i]
                    == ev.pages[i]) by {
                    assert forall|i: int| 0 <= i < ev.pages.len() implies #[trigger] mapped[i]
                        == ev.pages[i] by {
                        lemma_list_round_trip(ev.pages[i].list, DocKind::MapFamily, profile, m);
                        assert(mapped[i] =~= ev.pages[i]);
                    }
                }
            }
            assert(spec_inject_event(e, profile, false, m)->0 =~= ev);
        },
    }
}

/// Round-trip identity for a whole map document: against maps that send
/// every key to themselves, and with no normalization enabled, injection
/// reproduces the document exactly, the sentinel slot included.
pub proof fn lemma_map_doc_round_trip(
    d: MapDocV,
    profile: Option<TitleProfile>,
    m: Map<Seq<char>, Seq<char>>,
    names: Map<Seq<char>, Seq<char>>,
)
    requires
        identity_map(m),
        identity_map(names),
        canonical_map_doc(d),
    ensures
        spec_inject_map_doc(d, profile, false, m, names) == d,
{
    let out = spec_inject_map_doc(d, profile, false, m, names);
    lemma_field_lookup_identity(d.display_name, d.display_name, names);
    assert(out.events =~~= d.events) by {
        assert forall|i: int| 0 <= i < d.events.len() implies #[trigger] out.events[i]
            == d.events[i] by {
            if i != 0 {
                lemma_event_round_trip(d.events[i], profile, m);
            }
        }
    }
    assert(out =~= d);
}

/// A text that trimming leaves unchanged.
pub open spec fn trim_stable(x: Seq<char>) -> bool {
    spec_trim(x) == x
}

/// An attribute slot in canonical form: its text, when present, is
/// trim-stable.
pub open spec fn canonical_attr(a: Option<Seq<char>>) -> bool {
    match a {
        None => true,
        Some(x) => trim_stable(x),
    }
}

/// A record slot in canonical form.
pub open spec fn canonical_record(r: Option<RecordV>) -> bool {
    match r {
        None => true,
        Some(rec) => match rec {
            RecordV::Flat { name, nickname, description, note } => canonical_attr(name)
                && canonical_attr(nickname) && canonical_attr(description) && canonical_attr(note),
            RecordV::Paged { pages } => forall|i: int|
                0 <= i < pages.len() ==> canonical_list(
                    (#[trigger] pages[i]).list,
                    DocKind::EntityFamily,
                ),
            RecordV::Listed { list } => canonical_list(list, DocKind::EntityFamily),
        },
    }
}

/// An entity collection in canonical form: every record after the
/// sentinel is canonical.
pub open spec fn canonical_entity_doc(d: EntityDocV) -> bool {
    forall|i: int| 1 <= i < d.records.len() ==> canonical_record(#[trigger] d.records[i])
}

/// Replacing the first occurrence of a pattern by that same pattern
/// changes nothing.
proof fn lemma_replace_self(s: Seq<char>, p: Seq<char>)
    ensures
        spec_replace_first(s, p, p) == s,
{
    lemma_find_sub_char(s, p);
    match spec_find_sub(s, p) {
        None => {},
        Some(i) => {
            assert(s.subrange(i, i + p.len()) == p);
            assert(s.take(i) + p + s.skip(i + p.len()) =~= s);
        },
    }
}

/// Against an identity map, an attribute comes back unchanged.
proof fn lemma_attr_identity(a: Option<Seq<char>>, m: Map<Seq<char>, Seq<char>>)
    requires
        identity_map(m),
        canonical_attr(a),
    ensures
        spec_inject_attr(a, false, m) == a,
{
    match a {
        None => {},
        Some(x) => {
            if spec_trim(x).len() != 0 {
                lemma_field_lookup_identity(x, spec_trim(x), m);
            }
        },
    }
}

/// Against an identity map, a note attribute comes back unchanged under
/// every note rule.
proof fn lemma_note_identity(
    a: Option<Seq<char>>,
    filename: Seq<char>,
    profile: Option<TitleProfile>,
    m: Map<Seq<char>, Seq<char>>,
)
    requires
        identity_map(m),
        canonical_attr(a),
    ensures
        spec_inject_note(a, filename, profile, false, m) == a,
{
    match a {
        None => {},
        Some(x) => {
            let t = spec_trim(x);
            if t.len() != 0 {
                assert(t == x);
                match profile {
                    None => {
                        lemma_field_lookup_identity(x, t, m);
                    },
                    Some(p) => {
                        match crate::classify::spec_note_rule_index(p, filename) {
                            None => {},
                            Some(i) => {
                                match p.note_rules@[i].action {
                                    crate::classify::NoteAction::WholeField => {
                                        lemma_field_lookup_identity(x, t, m);
                                    },
                                    crate::classify::NoteAction::WholeUnlessPrefix(pre) => {
                                        lemma_field_lookup_identity(x, t, m);
                                    },
                                    crate::classify::NoteAction::ExtractMarkers(ms) => {
                                        match crate::extract::spec_first_marker(
                                            crate::text::views(ms@),
                                            t,
                                        ) {
                                            None => {},
                                            Some(k) => {
                                                let marker = crate::text::views(ms@)[k];
                                                if m.contains_key(marker) {
                                                    lemma_replace_self(t, marker);
                                                }
                                            },
                                        }
                                    },
                                }
                            },
                        }
                    },
                }
            }
        },
    }
}

/// Round-trip identity for one record slot.
proof fn lemma_record_round_trip(
    r: Option<RecordV>,
    filename: Seq<char>,
    profile: Option<TitleProfile>,
    m: Map<Seq<char>, Seq<char>>,
)
    requires
        identity_map(m),
        canonical_record(r),
    ensures
        crate::inject::spec_inject_record(r, filename, profile, false, m) == r,
{
    match r {
        None => {},
        Some(rec) => {
            match rec {
                RecordV::Flat { name, nickname, description, note } => {
                    lemma_attr_identity(name, m);
                    lemma_attr_identity(nickname, m);
                    lemma_attr_identity(description, m);
                    lemma_note_identity(note, filename, profile, m);
                },
                RecordV::Paged { pages } => {
                    let mapped = pages.map_values(
                        |p: crate::model::PageV| spec_inject_page(
                            p,
                            DocKind::EntityFamily,
                            profile,
                            false,
                            m,
                        ),
                    );
                    assert(mapped =~~= pages) by {
                        assert forall|i: int| 0 <= i < pages.len() implies #[trigger] mapped[i]
                            == pages[i] by {
                            lemma_list_round_trip(
                                pages[i].list,
                                DocKind::EntityFamily,
                                profile,
                                m,
                            );
                            assert(mapped[i] =~= pages[i]);
                        }
                    }
                    assert(crate::inject::spec_inject_record(r, filename, profile, false, m)->0
                        =~= rec);
                },
                RecordV::Listed { list } => {
                    lemma_list_round_trip(list, DocKind::EntityFamily, profile, m);
                    assert(crate::inject::spec_inject_record(r, filename, profile, false, m)->0
                        =~= rec);
                },
            }
        },
    }
}

/// Round-trip identity for a whole entity collection.
pub proof fn lemma_entity_doc_round_trip(
    d: EntityDocV,
    profile: Option<TitleProfile>,
    m: Map<Seq<char>, Seq<char>>,
)
    requires
        identity_map(m),
        canonical_entity_doc(d),
    ensures
        spec_inject_entity_doc(d, profile, false, m) == d,
{
    let out = spec_inject_entity_doc(d, profile, false, m);
    assert(out.records =~~= d.records) by {
        assert forall|i: int| 0 <= i < d.records.len() implies #[trigger] out.records[i]
            == d.records[i] by {
            if i != 0 {
                lemma_record_round_trip(d.records[i], d.filename, profile, m);
            }
        }
    }
    assert(out =~= d);
}

/// A system document in canonical form: every vocabulary string, the game
/// title, and every term entry and message value are trim-stable.
pub open spec fn canonical_system_doc(d: SystemDocV) -> bool {
    &&& trim_stable(d.game_title)
    &&& forall|i: int| 0 <= i < d.armor_types.len() ==> trim_stable(#[trigger] d.armor_types[i])
    &&& forall|i: int| 0 <= i < d.elements.len() ==> trim_stable(#[trigger] d.elements[i])
    &&& forall|i: int| 0 <= i < d.equip_types.len() ==> trim_stable(#[trigger] d.equip_types[i])
    &&& forall|i: int| 0 <= i < d.skill_types.len() ==> trim_stable(#[trigger] d.skill_types[i])
    &&& forall|i: int| 0 <= i < d.weapon_types.len() ==> trim_stable(#[trigger] d.weapon_types[i])
    &&& forall|i: int| 0 <= i < d.terms.len() ==> canonical_term_group(#[trigger] d.terms[i])
}

pub open spec fn canonical_term_group(g: TermGroupV) -> bool {
    match g.value {
        TermValueV::StringList(es) => forall|i: int|
            0 <= i < es.len() ==> canonical_attr(#[trigger] es[i]),
        TermValueV::MessageMap(ps) => forall|i: int|
            0 <= i < ps.len() ==> trim_stable((#[trigger] ps[i]).1),
    }
}

proof fn lemma_string_identity(s: Seq<char>, m: Map<Seq<char>, Seq<char>>)
    requires
        identity_map(m),
        trim_stable(s),
    ensures
        spec_inject_string(s, false, m) == s,
{
    if spec_trim(s).len() != 0 {
        lemma_field_lookup_identity(s, spec_trim(s), m);
    }
}

proof fn lemma_vocab_identity(v: Seq<Seq<char>>, m: Map<Seq<char>, Seq<char>>)
    requires
        identity_map(m),
        forall|i: int| 0 <= i < v.len() ==> trim_stable(#[trigger] v[i]),
    ensures
        v.map_values(|s: Seq<char>| spec_inject_string(s, false, m)) == v,
{
    let mapped = v.map_values(|s: Seq<char>| spec_inject_string(s, false, m));
    assert(mapped =~~= v) by {
        assert forall|i: int| 0 <= i < v.len() implies #[trigger] mapped[i] == v[i] by {
            lemma_string_identity(v[i], m);
        }
    }
}

proof fn lemma_term_group_identity(g: TermGroupV, m: Map<Seq<char>, Seq<char>>)
    requires
        identity_map(m),
        canonical_term_group(g),
    ensures
        spec_inject_term_group(g, false, m) == g,
{
    let out = spec_inject_term_group(g, false, m);
    match g.value {
        TermValueV::StringList(es) => {
            let mapped = es.map_values(
                |e: Option<Seq<char>>|
                    match e {
                        None => None,
                        Some(s) => Some(spec_inject_string(s, false, m)),
                    },
            );
            assert(mapped =~~= es) by {
                assert forall|i: int| 0 <= i < es.len() implies #[trigger] mapped[i] == es[i] by {
                    match es[i] {
                        None => {},
                        Some(s) => {
                            lemma_string_identity(s, m);
                        },
                    }
                }
            }
            assert(out =~= g);
        },
        TermValueV::MessageMap(ps) => {
            let mapped = ps.map_values(
                |p: (Seq<char>, Seq<char>)| (p.0, spec_inject_string(p.1, false, m)),
            );
            assert(mapped =~~= ps) by {
                assert forall|i: int| 0 <= i < ps.len() implies #[trigger] mapped[i] == ps[i] by {
                    lemma_string_identity(ps[i].1, m);
                }
            }
            assert(out =~= g);
        },
    }
}

/// Round-trip identity for the system document.
pub proof fn lemma_system_doc_round_trip(d: SystemDocV, m: Map<Seq<char>, Seq<char>>)
    requires
        identity_map(m),
        canonical_system_doc(d),
    ensures
        spec_inject_system_doc(d, false, m) == d,
{
    let out = spec_inject_system_doc(d, false, m);
    lemma_string_identity(d.game_title, m);
    lemma_vocab_identity(d.armor_types, m);
    lemma_vocab_identity(d.elements, m);
    lemma_vocab_identity(d.equip_types, m);
    lemma_vocab_identity(d.skill_types, m);
    lemma_vocab_identity(d.weapon_types, m);
    let mapped = d.terms.map_values(|g: TermGroupV| spec_inject_term_group(g, false, m));
    assert(mapped =~~= d.terms) by {
        assert forall|i: int| 0 <= i < d.terms.len() implies #[trigger] mapped[i]
            == d.terms[i] by {
            lemma_term_group_identity(d.terms[i], m);
        }
    }
    assert(out =~= d);
}

/// A blank translated line means untranslated: a key whose every pairing
/// carries a blank translation is absent from the built map, so every
/// lookup of it misses and injection passes its text through unchanged.
pub proof fn lemma_blank_translation_untranslated(
    orig: Seq<Seq<char>>,
    trans: Seq<Seq<char>>,
    k: Seq<char>,
)
    requires
        orig.len() == trans.len(),
        forall|i: int|
            0 <= i < orig.len() && spec_key_of(#[trigger] orig[i]) == k ==> spec_val_of(
                trans[i],
            ).len() == 0,
    ensures
        !spec_build_tmap(orig, trans).contains_key(k),
    decreases orig.len(),
{
    if orig.len() > 0 {
        let po = orig.drop_last();
        let pt = trans.drop_last();
        assert(forall|i: int|
            0 <= i < po.len() && spec_key_of(#[trigger] po[i]) == k ==> spec_val_of(
                pt[i],
            ).len() == 0) by {
            assert(forall|i: int| 0 <= i < po.len() ==> po[i] == orig[i] && pt[i] == trans[i]);
        }
        lemma_blank_translation_untranslated(po, pt, k);
        if spec_val_of(trans.last()).len() != 0 {
            assert(spec_key_of(orig.last()) != k);
        }
    }
}

/// A translation map built from a pool file paired with an unedited copy
/// of itself sends every key to itself, provided each line unescapes to a
/// trim-stable text.
pub proof fn lemma_self_paired_build_identity(lines: Seq<Seq<char>>)
    requires
        forall|i: int|
            0 <= i < lines.len() ==> spec_trim(spec_unescape(#[trigger] lines[i]))
                == spec_unescape(lines[i]),
    ensures
        identity_map(spec_build_tmap(lines, lines)),
    decreases lines.len(),
{
    if lines.len() == 0 {
    } else {
        let prefix = lines.drop_last();
        assert(forall|i: int|
            0 <= i < prefix.len() ==> spec_trim(spec_unescape(#[trigger] prefix[i]))
                == spec_unescape(prefix[i])) by {
            assert(forall|i: int| 0 <= i < prefix.len() ==> prefix[i] == lines[i]);
        }
        lemma_self_paired_build_identity(prefix);
        assert(spec_val_of(lines.last()) == spec_key_of(lines.last()));
    }
}

/// The escaped lines of a pool of trim-stable units that never hold the
/// escape token themselves build, self-paired, an identity map.
pub proof fn lemma_pool_identity(units: Seq<Seq<char>>)
    requires
        forall|i: int| 0 <= i < units.len() ==> trim_stable(#[trigger] units[i]),
        forall|i: int, j: int|
            0 <= i < units.len() && 0 <= j < units[i].len() - 1 ==> !(#[trigger] units[i][j]
                == '\\' && units[i][j + 1] == '#'),
    ensures
        identity_map(
            spec_build_tmap(
                units.map_values(|u: Seq<char>| spec_escape(u)),
                units.map_values(|u: Seq<char>| spec_escape(u)),
            ),
        ),
{
    let lines = units.map_values(|u: Seq<char>| spec_escape(u));
    assert(forall|i: int|
        0 <= i < lines.len() ==> spec_trim(spec_unescape(#[trigger] lines[i])) == spec_unescape(
            lines[i],
        )) by {
        assert forall|i: int| 0 <= i < lines.len() implies spec_trim(
            spec_unescape(#[trigger] lines[i]),
        ) == spec_unescape(lines[i]) by {
            assert(lines[i] == spec_escape(units[i]));
            assert(forall|j: int|
                0 <= j < units[i].len() - 1 ==> !(#[trigger] units[i][j] == '\\' && units[i][j
                    + 1] == '#'));
            lemma_escape_round_trip(units[i]);
            assert(spec_unescape(lines[i]) == units[i]);
        }
    }
    lemma_self_paired_build_identity(lines);
}

/// Extraction never reads the sentinel slot: two map documents that agree
/// everywhere but in slot 0 yield the same units.
pub proof fn lemma_map_sentinel_ignored(
    d1: MapDocV,
    d2: MapDocV,
    profile: Option<TitleProfile>,
    romanize: bool,
)
    requires
        d1.events.len() == d2.events.len(),
        d1.events.len() >= 1,
        d1.events.skip(1) == d2.events.skip(1),
    ensures
        crate::extract::spec_map_doc_units(d1, profile, romanize)
            == crate::extract::spec_map_doc_units(d2, profile, romanize),
{
}

/// Injection keeps the sentinel slot of a map document exactly as it was,
/// whatever it holds.
pub proof fn lemma_map_sentinel_kept(
    d: MapDocV,
    profile: Option<TitleProfile>,
    romanize: bool,
    m: Map<Seq<char>, Seq<char>>,
    names: Map<Seq<char>, Seq<char>>,
)
    requires
        d.events.len() >= 1,
    ensures
        spec_inject_map_doc(d, profile, romanize, m, names).events[0] == d.events[0],
{
}

/// Extraction never reads the sentinel slot of an entity collection.
pub proof fn lemma_entity_sentinel_ignored(
    d1: EntityDocV,
    d2: EntityDocV,
    profile: Option<TitleProfile>,
    romanize: bool,
)
    requires
        d1.filename == d2.filename,
        d1.records.len() == d2.records.len(),
        d1.records.len() >= 1,
        d1.records.skip(1) == d2.records.skip(1),
    ensures
        crate::extract::spec_entity_doc_units(d1, profile, romanize)
            == crate::extract::spec_entity_doc_units(d2, profile, romanize),
{
}

/// Injection keeps the sentinel slot of an entity collection exactly as
/// it was, whatever it holds.
pub proof fn lemma_entity_sentinel_kept(
    d: EntityDocV,
    profile: Option<TitleProfile>,
    romanize: bool,
    m: Map<Seq<char>, Seq<char>>,
)
    requires
        d.records.len() >= 1,
    ensures
        spec_inject_entity_doc(d, profile, romanize, m).records[0] == d.records[0],
{
}


/// A text in the image of the romanizer.
pub open spec fn romanized_text(u: Seq<char>) -> bool {
    exists|s: Seq<char>| u == #[trigger] spec_romanize(s)
}

/// All members of a unit sequence are romanized.
pub open spec fn all_romanized(us: Seq<Seq<char>>) -> bool {
    forall|i: int| 0 <= i < us.len() ==> romanized_text(#[trigger] us[i])
}

proof fn lemma_all_romanized_concat(a: Seq<Seq<char>>, b: Seq<Seq<char>>)
    requires
        all_romanized(a),
        all_romanized(b),
    ensures
        all_romanized(a + b),
{
    assert forall|i: int| 0 <= i < (a + b).len() implies romanized_text(#[trigger] (a + b)[i]) by {
        if i < a.len() {
            assert((a + b)[i] == a[i]);
        } else {
            assert((a + b)[i] == b[i - a.len()]);
        }
    }
}

proof fn lemma_close_unit_romanized(buf: Seq<Seq<char>>)
    ensures
        all_romanized(spec_close_unit(buf, true)),
{
    let cu = spec_close_unit(buf, true);
    if buf.len() > 0 {
        let u = spec_run_unit(buf, true);
        assert(u == spec_romanize(spec_trim(spec_join(buf, '\n'))));
        assert(romanized_text(u));
        if u.len() > 0 {
            assert(forall|i: int| 0 <= i < cu.len() ==> cu[i] == u);
        }
    }
}

proof fn lemma_choice_units_romanized(items: Seq<Seq<char>>)
    ensures
        all_romanized(crate::runs::spec_choice_units(items, true)),
    decreases items.len(),
{
    if items.len() == 0 {
    } else {
        lemma_choice_units_romanized(items.drop_first());
        if items[0].len() > 0 {
            let u = crate::runs::spec_norm(items[0], true);
            assert(u == spec_romanize(items[0]));
            assert(romanized_text(u));
            assert(all_romanized(seq![u])) by {
                assert(seq![u][0] == u);
            }
            lemma_all_romanized_concat(
                seq![u],
                crate::runs::spec_choice_units(items.drop_first(), true),
            );
        }
    }
}

proof fn lemma_node_units_romanized(n: NodeV, kind: DocKind, profile: Option<TitleProfile>)
    ensures
        all_romanized(spec_node_units(n, kind, profile, true)),
{
    match spec_classify(n.code, kind) {
        crate::classify::Category::Choice => {
            if 0 < n.parameters.len() && n.parameters[0] is Choices {
                lemma_choice_units_romanized(n.parameters[0]->Choices_0);
            }
        },
        crate::classify::Category::SystemText => {
            match spec_node_payload(n) {
                Some(raw) => {
                    let u = crate::runs::spec_norm(raw, true);
                    assert(u == spec_romanize(raw));
                    assert(romanized_text(u));
                    let nu = spec_node_units(n, kind, profile, true);
                    assert(forall|i: int| 0 <= i < nu.len() ==> nu[i] == u);
                },
                None => {},
            }
        },
        _ => {},
    }
}

proof fn lemma_list_units_romanized_rec(
    nodes: Seq<NodeV>,
    kind: DocKind,
    profile: Option<TitleProfile>,
    buf: Seq<Seq<char>>,
)
    ensures
        all_romanized(spec_list_units(nodes, kind, profile, true, buf)),
    decreases nodes.len(),
{
    if nodes.len() == 0 {
        lemma_close_unit_romanized(buf);
    } else {
        let n = nodes[0];
        if spec_mergeable(spec_classify(n.code, kind)) {
            match spec_node_payload(n) {
                Some(t) => {
                    lemma_list_units_romanized_rec(nodes.drop_first(), kind, profile, buf.push(t));
                },
                None => {
                    lemma_list_units_romanized_rec(nodes.drop_first(), kind, profile, buf);
                },
            }
        } else {
            lemma_close_unit_romanized(buf);
            lemma_node_units_romanized(n, kind, profile);
            lemma_list_units_romanized_rec(nodes.drop_first(), kind, profile, Seq::empty());
            lemma_all_romanized_concat(
                spec_close_unit(buf, true),
                spec_node_units(n, kind, profile, true),
            );
            lemma_all_romanized_concat(
                spec_close_unit(buf, true) + spec_node_units(n, kind, profile, true),
                spec_list_units(nodes.drop_first(), kind, profile, true, Seq::empty()),
            );
        }
    }
}

/// Romanization symmetry on the extraction side: with romanization
/// enabled, every unit a command list yields is in the image of the
/// romanizer, so the pool and the translation map keys built from it
/// already reflect romanized text.
pub proof fn lemma_extracted_units_romanized(
    nodes: Seq<NodeV>,
    kind: DocKind,
    profile: Option<TitleProfile>,
)
    ensures
        all_romanized(spec_extract_list(nodes, kind, profile, true)),
{
    lemma_list_units_romanized_rec(nodes, kind, profile, Seq::empty());
}


/// Every key the injection walk of one non-mergeable node can look up.
pub open spec fn spec_node_keys(n: NodeV, kind: DocKind, romanize: bool) -> Set<Seq<char>> {
    match spec_classify(n.code, kind) {
        crate::classify::Category::Choice => if 0 < n.parameters.len() && n.parameters[0]
            is Choices {
            Set::new(
                |k: Seq<char>|
                    exists|i: int|
                        0 <= i < n.parameters[0]->Choices_0.len() && k == spec_norm(
                            #[trigger] n.parameters[0]->Choices_0[i],
                            romanize,
                        ),
            )
        } else {
            Set::empty()
        },
        crate::classify::Category::SystemText => match spec_node_payload(n) {
            Some(raw) => Set::empty().insert(spec_norm(raw, romanize)),
            None => Set::empty(),
        },
        _ => Set::empty(),
    }
}

/// Every key the injection walk of a command list can look up, with the
/// run buffer `buf` open.
pub open spec fn spec_list_keys_rec(
    nodes: Seq<NodeV>,
    kind: DocKind,
    romanize: bool,
    buf: Seq<Seq<char>>,
) -> Set<Seq<char>>
    decreases nodes.len(),
{
    if nodes.len() == 0 {
        if buf.len() == 0 {
            Set::empty()
        } else {
            Set::empty().insert(spec_run_unit(buf, romanize))
        }
    } else {
        let n = nodes[0];
        if spec_mergeable(spec_classify(n.code, kind)) {
            match spec_node_payload(n) {
                Some(t) => spec_list_keys_rec(nodes.drop_first(), kind, romanize, buf.push(t)),
                None => spec_list_keys_rec(nodes.drop_first(), kind, romanize, buf),
            }
        } else {
            (if buf.len() == 0 {
                Set::empty()
            } else {
                Set::empty().insert(spec_run_unit(buf, romanize))
            }).union(spec_node_keys(n, kind, romanize)).union(
                spec_list_keys_rec(nodes.drop_first(), kind, romanize, Seq::empty()),
            )
        }
    }
}

/// Every key the injection walk of a whole command list can look up.
pub open spec fn spec_list_keys(nodes: Seq<NodeV>, kind: DocKind, romanize: bool) -> Set<
    Seq<char>,
> {
    spec_list_keys_rec(nodes, kind, romanize, Seq::empty())
}

proof fn lemma_inject_node_all_miss(
    n: NodeV,
    kind: DocKind,
    profile: Option<TitleProfile>,
    romanize: bool,
    m: Map<Seq<char>, Seq<char>>,
)
    requires
        forall|k: Seq<char>| spec_node_keys(n, kind, romanize).contains(k) ==> !m.contains_key(k),
    ensures
        spec_inject_node(n, kind, profile, romanize, m) == n,
{
    match spec_classify(n.code, kind) {
        crate::classify::Category::Choice => {
            if 0 < n.parameters.len() && n.parameters[0] is Choices {
                let items = n.parameters[0]->Choices_0;
                let mapped = crate::runs::spec_inject_choices(items, romanize, m);
                assert(mapped =~= items) by {
                    assert forall|i: int| 0 <= i < items.len() implies #[trigger] mapped[i]
                        == items[i] by {
                        assert(spec_node_keys(n, kind, romanize).contains(
                            spec_norm(items[i], romanize),
                        ));
                    }
                }
                match n.parameters[0] {
                    ParamV::Choices(a) => {
                        assert(n.parameters[0] == ParamV::Choices(a));
                    },
                    _ => {
                        assert(false);
                    },
                }
                assert(n.parameters.update(0, ParamV::Choices(items)) =~= n.parameters);
                assert(spec_inject_node(n, kind, profile, romanize, m) =~= n);
            }
        },
        crate::classify::Category::SystemText => {
            match spec_node_payload(n) {
                Some(raw) => {
                    assert(spec_node_keys(n, kind, romanize).contains(spec_norm(raw, romanize)));
                },
                None => {},
            }
        },
        _ => {},
    }
}

proof fn lemma_inject_list_rec_all_miss(
    nodes: Seq<NodeV>,
    kind: DocKind,
    profile: Option<TitleProfile>,
    romanize: bool,
    m: Map<Seq<char>, Seq<char>>,
    pending: Seq<NodeV>,
    buf: Seq<Seq<char>>,
)
    requires
        forall|k: Seq<char>|
            spec_list_keys_rec(nodes, kind, romanize, buf).contains(k) ==> !m.contains_key(k),
    ensures
        spec_inject_list_rec(nodes, kind, profile, romanize, m, pending, buf) == pending + nodes,
    decreases nodes.len(),
{
    if nodes.len() == 0 {
        if buf.len() > 0 {
            assert(spec_list_keys_rec(nodes, kind, romanize, buf).contains(
                spec_run_unit(buf, romanize),
            ));
        }
        assert(pending + nodes =~= pending);
    } else {
        let n = nodes[0];
        let rest = nodes.drop_first();
        if spec_mergeable(spec_classify(n.code, kind)) {
            match spec_node_payload(n) {
                Some(t) => {
                    lemma_inject_list_rec_all_miss(
                        rest,
                        kind,
                        profile,
                        romanize,
                        m,
                        pending.push(n),
                        buf.push(t),
                    );
                    assert(pending.push(n) + rest =~= pending + nodes);
                },
                None => {
                    lemma_inject_list_rec_all_miss(
                        rest,
                        kind,
                        profile,
                        romanize,
                        m,
                        pending.push(n),
                        buf,
                    );
                    assert(pending.push(n) + rest =~= pending + nodes);
                },
            }
        } else {
            if buf.len() > 0 {
                assert(spec_list_keys_rec(nodes, kind, romanize, buf).contains(
                    spec_run_unit(buf, romanize),
                ));
            }
            assert(forall|k: Seq<char>|
                spec_node_keys(n, kind, romanize).contains(k) ==> !m.contains_key(k)) by {
                assert(forall|k: Seq<char>|
                    spec_node_keys(n, kind, romanize).contains(k)
                        ==> spec_list_keys_rec(nodes, kind, romanize, buf).contains(k));
            }
            lemma_inject_node_all_miss(n, kind, profile, romanize, m);
            assert(forall|k: Seq<char>|
                spec_list_keys_rec(rest, kind, romanize, Seq::empty()).contains(k)
                    ==> !m.contains_key(k)) by {
                assert(forall|k: Seq<char>|
                    spec_list_keys_rec(rest, kind, romanize, Seq::empty()).contains(k)
                        ==> spec_list_keys_rec(nodes, kind, romanize, buf).contains(k));
            }
            lemma_inject_list_rec_all_miss(
                rest,
                kind,
                profile,
                romanize,
                m,
                Seq::<NodeV>::empty(),
                Seq::<Seq<char>>::empty(),
            );
            assert(Seq::<NodeV>::empty() + rest =~= rest);
            assert(pending + seq![n] + rest =~= pending + nodes);
        }
    }
}

/// When no key the walk can look up is in the map's domain, injection
/// changes nothing at all. In particular, a map whose keys were built with
/// romanization carries only romanized keys, so re-injecting with
/// romanization switched off misses everywhere the two differ and every
/// slot keeps its original text.
pub proof fn lemma_all_miss_no_change(
    nodes: Seq<NodeV>,
    kind: DocKind,
    profile: Option<TitleProfile>,
    romanize: bool,
    m: Map<Seq<char>, Seq<char>>,
)
    requires
        forall|k: Seq<char>|
            spec_list_keys(nodes, kind, romanize).contains(k) ==> !m.contains_key(k),
    ensures
        spec_inject_list(nodes, kind, profile, romanize, m) == nodes,
{
    lemma_inject_list_rec_all_miss(
        nodes,
        kind,
        profile,
        romanize,
        m,
        Seq::<NodeV>::empty(),
        Seq::<Seq<char>>::empty(),
    );
    assert(Seq::<NodeV>::empty() + nodes =~= nodes);
}

/// A text the romanizer produced by actually changing its source.
pub open spec fn changed_romanized(k: Seq<char>) -> bool {
    exists|s: Seq<char>| k == #[trigger] spec_romanize(s) && k != s
}

/// The bridge for a mismatched romanization setting: a map built from a
/// pool extracted with romanization holds only romanized keys, and where
/// romanization really changed each of them, a walk run without
/// romanization - whose keys are the raw texts, none of them such a
/// changed romanized form - misses on every lookup and changes nothing.
pub proof fn lemma_mismatched_setting_no_change(
    nodes: Seq<NodeV>,
    kind: DocKind,
    profile: Option<TitleProfile>,
    m: Map<Seq<char>, Seq<char>>,
)
    requires
        forall|k: Seq<char>| m.contains_key(k) ==> changed_romanized(k),
        forall|q: Seq<char>|
            spec_list_keys(nodes, kind, false).contains(q) ==> !changed_romanized(q),
    ensures
        spec_inject_list(nodes, kind, profile, false, m) == nodes,
{
    assert forall|q: Seq<char>|
        spec_list_keys(nodes, kind, false).contains(q) implies !m.contains_key(q) by {
        if m.contains_key(q) {
            assert(changed_romanized(q));
        }
    }
    lemma_all_miss_no_change(nodes, kind, profile, false, m);
}


proof fn lemma_pages_units_romanized(
    pages: Seq<crate::model::PageV>,
    kind: DocKind,
    profile: Option<TitleProfile>,
)
    ensures
        all_romanized(crate::extract::spec_pages_units(pages, kind, profile, true)),
    decreases pages.len(),
{
    if pages.len() == 0 {
    } else {
        lemma_extracted_units_romanized(pages[0].list, kind, profile);
        lemma_pages_units_romanized(pages.drop_first(), kind, profile);
        lemma_all_romanized_concat(
            spec_extract_list(pages[0].list, kind, profile, true),
            crate::extract::spec_pages_units(pages.drop_first(), kind, profile, true),
        );
    }
}

proof fn lemma_events_units_romanized(
    events: Seq<Option<EventV>>,
    profile: Option<TitleProfile>,
)
    ensures
        all_romanized(crate::extract::spec_events_units(events, profile, true)),
    decreases events.len(),
{
    if events.len() == 0 {
    } else {
        match events[0] {
            None => {},
            Some(ev) => {
                lemma_pages_units_romanized(ev.pages, DocKind::MapFamily, profile);
            },
        }
        lemma_events_units_romanized(events.drop_first(), profile);
        lemma_all_romanized_concat(
            crate::extract::spec_event_units(events[0], profile, true),
            crate::extract::spec_events_units(events.drop_first(), profile, true),
        );
    }
}

/// With romanization enabled, every unit a map document yields, the
/// display name included, is in the image of the romanizer.
pub proof fn lemma_map_doc_units_romanized(d: MapDocV, profile: Option<TitleProfile>)
    ensures
        all_romanized(crate::extract::spec_map_doc_units(d, profile, true)),
        romanized_text(crate::runs::spec_norm(d.display_name, true)),
{
    if d.events.len() != 0 {
        lemma_events_units_romanized(d.events.skip(1), profile);
    }
    assert(crate::runs::spec_norm(d.display_name, true) == spec_romanize(d.display_name));
}

proof fn lemma_attr_units_romanized(a: Option<Seq<char>>)
    ensures
        all_romanized(crate::extract::spec_attr_units(a, true)),
{
    match a {
        None => {},
        Some(x) => {
            if spec_trim(x).len() != 0 {
                let u = crate::runs::spec_norm(spec_trim(x), true);
                assert(u == spec_romanize(spec_trim(x)));
                assert(romanized_text(u));
                let us = crate::extract::spec_attr_units(a, true);
                assert(forall|i: int| 0 <= i < us.len() ==> us[i] == u);
            }
        },
    }
}

proof fn lemma_note_units_romanized(
    a: Option<Seq<char>>,
    filename: Seq<char>,
    profile: Option<TitleProfile>,
)
    ensures
        all_romanized(crate::extract::spec_note_units(a, filename, profile, true)),
{
    let us = crate::extract::spec_note_units(a, filename, profile, true);
    assert forall|i: int| 0 <= i < us.len() implies romanized_text(#[trigger] us[i]) by {
        match a {
            None => {},
            Some(x) => {
                let t = spec_trim(x);
                if t.len() != 0 {
                    match profile {
                        None => {
                            assert(us[i] == spec_romanize(t));
                        },
                        Some(p) => {
                            match crate::classify::spec_note_rule_index(p, filename) {
                                None => {},
                                Some(ri) => {
                                    match p.note_rules@[ri].action {
                                        crate::classify::NoteAction::WholeField => {
                                            assert(us[i] == spec_romanize(t));
                                        },
                                        crate::classify::NoteAction::WholeUnlessPrefix(pre) => {
                                            assert(us[i] == spec_romanize(t));
                                        },
                                        crate::classify::NoteAction::ExtractMarkers(ms) => {
                                            match crate::extract::spec_first_marker(
                                                crate::text::views(ms@),
                                                t,
                                            ) {
                                                None => {},
                                                Some(k) => {
                                                    assert(us[i] == spec_romanize(
                                                        crate::text::views(ms@)[k],
                                                    ));
                                                },
                                            }
                                        },
                                    }
                                },
                            }
                        },
                    }
                }
            },
        }
    }
}

proof fn lemma_records_units_romanized(
    records: Seq<Option<RecordV>>,
    filename: Seq<char>,
    profile: Option<TitleProfile>,
)
    ensures
        all_romanized(crate::extract::spec_records_units(records, filename, profile, true)),
    decreases records.len(),
{
    if records.len() == 0 {
    } else {
        let head = crate::extract::spec_record_units(records[0], filename, profile, true);
        assert(all_romanized(head)) by {
            match records[0] {
                None => {},
                Some(rec) => {
                    match rec {
                        RecordV::Flat { name, nickname, description, note } => {
                            lemma_attr_units_romanized(name);
                            lemma_attr_units_romanized(nickname);
                            lemma_attr_units_romanized(description);
                            lemma_note_units_romanized(note, filename, profile);
                            let a = crate::extract::spec_attr_units(name, true);
                            let b = crate::extract::spec_attr_units(nickname, true);
                            let c = crate::extract::spec_attr_units(description, true);
                            let d = crate::extract::spec_note_units(
                                note,
                                filename,
                                profile,
                                true,
                            );
                            lemma_all_romanized_concat(a, b);
                            lemma_all_romanized_concat(a + b, c);
                            lemma_all_romanized_concat(a + b + c, d);
                        },
                        RecordV::Paged { pages } => {
                            lemma_pages_units_romanized(pages, DocKind::EntityFamily, profile);
                        },
                        RecordV::Listed { list } => {
                            lemma_extracted_units_romanized(list, DocKind::EntityFamily, profile);
                        },
                    }
                },
            }
        }
        lemma_records_units_romanized(records.drop_first(), filename, profile);
        lemma_all_romanized_concat(
            head,
            crate::extract::spec_records_units(records.drop_first(), filename, profile, true),
        );
    }
}

/// With romanization enabled, every unit an entity collection yields is in
/// the image of the romanizer.
pub proof fn lemma_entity_doc_units_romanized(d: EntityDocV, profile: Option<TitleProfile>)
    ensures
        all_romanized(crate::extract::spec_entity_doc_units(d, profile, true)),
{
    if d.records.len() != 0 {
        lemma_records_units_romanized(d.records.skip(1), d.filename, profile);
    }
}

proof fn lemma_string_unit_romanized(s: Seq<char>)
    ensures
        all_romanized(crate::extract::spec_string_unit(s, true)),
{
    if spec_trim(s).len() != 0 {
        let u = crate::runs::spec_norm(spec_trim(s), true);
        assert(u == spec_romanize(spec_trim(s)));
        assert(romanized_text(u));
        let us = crate::extract::spec_string_unit(s, true);
        assert(forall|i: int| 0 <= i < us.len() ==> us[i] == u);
    }
}

proof fn lemma_vocab_units_romanized(v: Seq<Seq<char>>)
    ensures
        all_romanized(crate::extract::spec_vocab_units(v, true)),
    decreases v.len(),
{
    if v.len() == 0 {
    } else {
        lemma_string_unit_romanized(v[0]);
        lemma_vocab_units_romanized(v.drop_first());
        lemma_all_romanized_concat(
            crate::extract::spec_string_unit(v[0], true),
            crate::extract::spec_vocab_units(v.drop_first(), true),
        );
    }
}

proof fn lemma_entries_units_romanized(es: Seq<Option<Seq<char>>>)
    ensures
        all_romanized(crate::extract::spec_entries_units(es, true)),
    decreases es.len(),
{
    if es.len() == 0 {
    } else {
        let head = match es[0] {
            None => Seq::<Seq<char>>::empty(),
            Some(s) => crate::extract::spec_string_unit(s, true),
        };
        match es[0] {
            None => {},
            Some(s) => {
                lemma_string_unit_romanized(s);
            },
        }
        lemma_entries_units_romanized(es.drop_first());
        lemma_all_romanized_concat(
            head,
            crate::extract::spec_entries_units(es.drop_first(), true),
        );
    }
}

proof fn lemma_msgs_units_romanized(ps: Seq<(Seq<char>, Seq<char>)>)
    ensures
        all_romanized(crate::extract::spec_msgs_units(ps, true)),
    decreases ps.len(),
{
    if ps.len() == 0 {
    } else {
        lemma_string_unit_romanized(ps[0].1);
        lemma_msgs_units_romanized(ps.drop_first());
        lemma_all_romanized_concat(
            crate::extract::spec_string_unit(ps[0].1, true),
            crate::extract::spec_msgs_units(ps.drop_first(), true),
        );
    }
}

proof fn lemma_terms_units_romanized(gs: Seq<TermGroupV>)
    ensures
        all_romanized(crate::extract::spec_terms_units(gs, true)),
    decreases gs.len(),
{
    if gs.len() == 0 {
    } else {
        assert(all_romanized(crate::extract::spec_term_group_units(gs[0], true))) by {
            match gs[0].value {
                TermValueV::StringList(es) => {
                    lemma_entries_units_romanized(es);
                },
                TermValueV::MessageMap(ps) => {
                    lemma_msgs_units_romanized(ps);
                },
            }
        }
        lemma_terms_units_romanized(gs.drop_first());
        lemma_all_romanized_concat(
            crate::extract::spec_term_group_units(gs[0], true),
            crate::extract::spec_terms_units(gs.drop_first(), true),
        );
    }
}

/// With romanization enabled, every unit the system document yields is in
/// the image of the romanizer.
pub proof fn lemma_system_units_romanized(d: SystemDocV)
    ensures
        all_romanized(crate::extract::spec_system_units(d, true)),
{
    let a = crate::extract::spec_vocab_units(d.armor_types, true);
    let b = crate::extract::spec_vocab_units(d.elements, true);
    let c = crate::extract::spec_vocab_units(d.equip_types, true);
    let t = crate::extract::spec_string_unit(d.game_title, true);
    let s = crate::extract::spec_vocab_units(d.skill_types, true);
    let g = crate::extract::spec_terms_units(d.terms, true);
    let w = crate::extract::spec_vocab_units(d.weapon_types, true);
    lemma_vocab_units_romanized(d.armor_types);
    lemma_vocab_units_romanized(d.elements);
    lemma_vocab_units_romanized(d.equip_types);
    lemma_string_unit_romanized(d.game_title);
    lemma_vocab_units_romanized(d.skill_types);
    lemma_terms_units_romanized(d.terms);
    lemma_vocab_units_romanized(d.weapon_types);
    lemma_all_romanized_concat(a, b);
    lemma_all_romanized_concat(a + b, c);
    lemma_all_romanized_concat(a + b + c, t);
    lemma_all_romanized_concat(a + b + c + t, s);
    lemma_all_romanized_concat(a + b + c + t + s, g);
    lemma_all_romanized_concat(a + b + c + t + s + g, w);
}

} // verus!
