//! The sequence merger and splitter. On extraction, a maximal contiguous
//! run of dialogue or credits nodes inside one command list becomes one
//! logical unit, its payloads joined by newlines and trimmed. On injection,
//! the same run detection finds the run again and the translated unit is
//! split back across the run's slots: slot `i` takes split segment `i`,
//! missing segments leave trailing slots empty, and surplus segments are
//! re-joined into the last slot so no translated content is ever dropped.

use vstd::prelude::*;

use crate::classify::{
    classify, payload_index, spec_classify, spec_mergeable, spec_payload_index,
    spec_system_accepts, system_accepts, Category, DocKind, TitleProfile,
};
use crate::model::{CommandNode, NodeV, Param, ParamV};
use crate::pool::{
    spec_pool_insert, spec_pool_insert_all, TextPool,
};
use crate::tmap::TranslationMap;
use crate::romanize::{romanize_string, spec_romanize};
use crate::text::{
    join_char, spec_join, spec_split, spec_trim, split_char, trim_str, views,
};

verus! {

/// The text payload a node carries, when its payload slot holds a scalar
/// text parameter.
pub open spec fn spec_node_payload(n: NodeV) -> Option<Seq<char>> {
    let pi = spec_payload_index(n.code);
    if pi < n.parameters.len() && n.parameters[pi] is Text {
        Some(n.parameters[pi]->Text_0)
    } else {
        None
    }
}

/// The node with its payload slot replaced by the given text; everything
/// else is untouched.
pub open spec fn spec_set_payload(n: NodeV, t: Seq<char>) -> NodeV {
    NodeV {
        code: n.code,
        parameters: n.parameters.update(spec_payload_index(n.code), ParamV::Text(t)),
    }
}

/// Reads the payload of a node.
pub fn node_payload(n: &CommandNode) -> (r: Option<String>)
    ensures
        match r {
            Some(s) => spec_node_payload(n@) == Some(s@),
            None => spec_node_payload(n@) is None,
        },
{
    let pi = payload_index(n.code);
    if pi < n.parameters.len() {
        match &n.parameters[pi] {
            Param::Text(s) => {
                proof {
                    assert(n@.parameters[pi as int] == n.parameters@[pi as int]@);
                }
                Some(s.clone())
            },
            _ => {
                proof {
                    assert(n@.parameters[pi as int] == n.parameters@[pi as int]@);
                }
                None
            },
        }
    } else {
        None
    }
}

/// Rebuilds a node with its payload slot set to the given text.
pub fn set_payload(n: &CommandNode, t: String) -> (r: CommandNode)
    requires
        spec_payload_index(n@.code) < n@.parameters.len(),
    ensures
        r@ == spec_set_payload(n@, t@),
{
    let pi = payload_index(n.code);
    let c = crate::model::clone_node(n);
    let mut parameters = c.parameters;
    parameters.remove(pi);
    parameters.insert(pi, Param::Text(t));
    let r = CommandNode { code: n.code, parameters };
    proof {
        assert(r@.parameters =~= n@.parameters.update(
            spec_payload_index(n@.code),
            ParamV::Text(t@),
        )) by {
            assert(c@ == n@);
        }
        assert(r@ =~= spec_set_payload(n@, t@));
    }
    r
}

/// The redistribution of split segments over a run's slots: with enough
/// slots the segments fill them in order and trailing slots are left
/// empty; with more segments than slots, the surplus is re-joined with
/// newlines into the last slot.
pub open spec fn spec_redistribute(segs: Seq<Seq<char>>, n: nat) -> Seq<Seq<char>> {
    if n == 0 {
        Seq::empty()
    } else if segs.len() >= n {
        segs.take(n - 1).push(spec_join(segs.skip(n - 1), '\n'))
    } else {
        segs + Seq::new((n - segs.len()) as nat, |i: int| Seq::<char>::empty())
    }
}

/// With exactly as many segments as slots, redistribution gives the
/// segments back unchanged.
pub proof fn lemma_redistribute_exact(segs: Seq<Seq<char>>, n: nat)
    requires
        segs.len() == n,
        n >= 1,
    ensures
        spec_redistribute(segs, n) == segs,
{
    assert(segs.skip(n - 1) =~= seq![segs[n - 1]]);
    assert(spec_join(segs.skip(n - 1), '\n') == segs[n - 1]);
    assert(segs.take(n - 1).push(segs[n - 1]) =~= segs);
}

/// Splits a translated unit on newlines and redistributes the segments
/// over the given number of slots.
pub fn split_for_slots(translated: &str, slot_count: usize) -> (r: Vec<String>)
    requires
        slot_count >= 1,
    ensures
        views(r@) == spec_redistribute(spec_split(translated@, '\n'), slot_count as nat),
        r@.len() == slot_count,
{
    let segs = split_char(translated, '\n');
    let m = segs.len();
    let ghost sv = spec_split(translated@, '\n');
    if m >= slot_count {
        let mut r: Vec<String> = Vec::new();
        let mut i: usize = 0;
        while i < slot_count - 1
            invariant
                m == segs@.len(),
                views(segs@) == sv,
                1 <= slot_count <= m,
                0 <= i <= slot_count - 1,
                views(r@) == sv.take(i as int),
            decreases slot_count - i,
        {
            let ghost r0 = r@;
            r.push(segs[i].clone());
            proof {
                assert(views(r@) =~= views(r0).push(sv[i as int]));
                assert(sv.take(i as int + 1) =~= sv.take(i as int).push(sv[i as int]));
            }
            i += 1;
        }
        let mut rest: Vec<String> = Vec::new();
        let mut j: usize = slot_count - 1;
        while j < m
            invariant
                m == segs@.len(),
                views(segs@) == sv,
                1 <= slot_count <= m,
                slot_count - 1 <= j <= m,
                views(rest@) == sv.subrange(slot_count - 1, j as int),
            decreases m - j,
        {
            let ghost rest0 = rest@;
            rest.push(segs[j].clone());
            proof {
                assert(views(rest@) =~= views(rest0).push(sv[j as int]));
                assert(sv.subrange(slot_count - 1, j as int + 1) =~= sv.subrange(
                    slot_count - 1,
                    j as int,
                ).push(sv[j as int]));
            }
            j += 1;
        }
        proof {
            assert(sv.subrange(slot_count - 1, m as int) =~= sv.skip(slot_count - 1));
        }
        let joined = join_char(&rest, '\n');
        let ghost r1 = r@;
        r.push(joined);
        proof {
            assert(views(r@) =~= views(r1).push(spec_join(sv.skip(slot_count - 1), '\n')));
            assert(views(r@) =~= spec_redistribute(sv, slot_count as nat));
        }
        r
    } else {
        let mut r: Vec<String> = Vec::new();
        let mut i: usize = 0;
        while i < m
            invariant
                m == segs@.len(),
                views(segs@) == sv,
                m < slot_count,
                0 <= i <= m,
                views(r@) == sv.take(i as int),
            decreases m - i,
        {
            let ghost r0 = r@;
            r.push(segs[i].clone());
            proof {
                assert(views(r@) =~= views(r0).push(sv[i as int]));
                assert(sv.take(i as int + 1) =~= sv.take(i as int).push(sv[i as int]));
            }
            i += 1;
        }
        while i < slot_count
            invariant
                m == segs@.len(),
                views(segs@) == sv,
                m < slot_count,
                m <= i <= slot_count,
                views(r@) == sv + Seq::new((i - m) as nat, |k: int| Seq::<char>::empty()),
            decreases slot_count - i,
        {
            let ghost r0 = r@;
            r.push(String::new());
            proof {
                assert(views(r@) =~= views(r0).push(Seq::<char>::empty()));
                assert(sv + Seq::new((i + 1 - m) as nat, |k: int| Seq::<char>::empty()) =~= (sv
                    + Seq::new((i - m) as nat, |k: int| Seq::<char>::empty())).push(
                    Seq::<char>::empty(),
                ));
            }
            i += 1;
        }
        proof {
            assert(sv.take(m as int) =~= sv);
            assert(sv + Seq::new(0, |k: int| Seq::<char>::empty()) =~= sv);
        }
        r
    }
}

/// The lookup key and pooled unit of a run: the payloads joined with
/// newlines, trimmed, and romanized when that normalization is enabled.
pub open spec fn spec_run_unit(buf: Seq<Seq<char>>, romanize: bool) -> Seq<char> {
    if romanize {
        spec_romanize(spec_trim(spec_join(buf, '\n')))
    } else {
        spec_trim(spec_join(buf, '\n'))
    }
}

/// Computes the run unit from the buffered payloads.
pub fn run_unit(buf: &Vec<String>, romanize: bool) -> (r: String)
    ensures
        r@ == spec_run_unit(views(buf@), romanize),
{
    let joined = join_char(buf, '\n');
    let trimmed = trim_str(joined.as_str());
    if romanize {
        romanize_string(trimmed.as_str())
    } else {
        trimmed
    }
}

/// The normalized lookup key of a single text occurrence.
pub open spec fn spec_norm(s: Seq<char>, romanize: bool) -> Seq<char> {
    if romanize {
        spec_romanize(s)
    } else {
        s
    }
}

/// Normalizes a single text occurrence.
pub fn norm_text(s: &str, romanize: bool) -> (r: String)
    ensures
        r@ == spec_norm(s@, romanize),
{
    if romanize {
        romanize_string(s)
    } else {
        s.to_owned()
    }
}


/// The views of a vector of command nodes.
pub open spec fn node_views(s: Seq<CommandNode>) -> Seq<NodeV> {
    s.map_values(|n: CommandNode| n@)
}

/// The unit a closing run emits: nothing when no run is open or the unit
/// trims to nothing, else exactly the run unit.
pub open spec fn spec_close_unit(buf: Seq<Seq<char>>, romanize: bool) -> Seq<Seq<char>> {
    if buf.len() == 0 {
        Seq::empty()
    } else {
        let u = spec_run_unit(buf, romanize);
        if u.len() == 0 {
            Seq::empty()
        } else {
            seq![u]
        }
    }
}

/// The units of a choice array: each non-empty sub-string, normalized, in
/// order.
pub open spec fn spec_choice_units(items: Seq<Seq<char>>, romanize: bool) -> Seq<Seq<char>>
    decreases items.len(),
{
    if items.len() == 0 {
        Seq::empty()
    } else if items[0].len() > 0 {
        seq![spec_norm(items[0], romanize)] + spec_choice_units(items.drop_first(), romanize)
    } else {
        spec_choice_units(items.drop_first(), romanize)
    }
}

/// The units a single non-mergeable node emits on extraction: choice
/// sub-strings for a choice node, the accepted payload for a system-text
/// node, nothing otherwise.
pub open spec fn spec_node_units(
    n: NodeV,
    kind: DocKind,
    profile: Option<TitleProfile>,
    romanize: bool,
) -> Seq<Seq<char>> {
    match spec_classify(n.code, kind) {
        Category::Choice => if 0 < n.parameters.len() && n.parameters[0] is Choices {
            spec_choice_units(n.parameters[0]->Choices_0, romanize)
        } else {
            Seq::empty()
        },
        Category::SystemText => match spec_node_payload(n) {
            Some(raw) => {
                let k = spec_norm(raw, romanize);
                if raw.len() > 0 && spec_system_accepts(profile, k) {
                    seq![k]
                } else {
                    Seq::empty()
                }
            },
            None => Seq::empty(),
        },
        _ => Seq::empty(),
    }
}

/// The ordered units of a command list, scanned left to right with the run
/// buffer `buf` open.
pub open spec fn spec_list_units(
    nodes: Seq<NodeV>,
    kind: DocKind,
    profile: Option<TitleProfile>,
    romanize: bool,
    buf: Seq<Seq<char>>,
) -> Seq<Seq<char>>
    decreases nodes.len(),
{
    if nodes.len() == 0 {
        spec_close_unit(buf, romanize)
    } else {
        let n = nodes[0];
        if spec_mergeable(spec_classify(n.code, kind)) {
            match spec_node_payload(n) {
                Some(t) => spec_list_units(
                    nodes.drop_first(),
                    kind,
                    profile,
                    romanize,
                    buf.push(t),
                ),
                None => spec_list_units(nodes.drop_first(), kind, profile, romanize, buf),
            }
        } else {
            spec_close_unit(buf, romanize) + spec_node_units(n, kind, profile, romanize)
                + spec_list_units(nodes.drop_first(), kind, profile, romanize, Seq::empty())
        }
    }
}

/// The ordered logical units of a whole command list.
pub open spec fn spec_extract_list(
    nodes: Seq<NodeV>,
    kind: DocKind,
    profile: Option<TitleProfile>,
    romanize: bool,
) -> Seq<Seq<char>> {
    spec_list_units(nodes, kind, profile, romanize, Seq::empty())
}

/// Closes the open run, if any, into the pool.
fn close_run_into(pool: &mut TextPool, buf: &Vec<String>, romanize: bool)
    requires
        old(pool).wf(),
    ensures
        final(pool).wf(),
        final(pool)@ == spec_pool_insert_all(old(pool)@, spec_close_unit(views(buf@), romanize)),
{
    let ghost p0 = pool@;
    if buf.len() > 0 {
        let u = run_unit(buf, romanize);
        pool.insert(u.as_str());
        proof {
            let cu = spec_close_unit(views(buf@), romanize);
            if u@.len() == 0 {
                assert(cu =~= Seq::<Seq<char>>::empty());
                assert(pool@ == p0);
            } else {
                assert(cu =~= seq![u@]);
                assert(cu[0] == u@);
                assert(cu.drop_first() =~= Seq::<Seq<char>>::empty());
                assert(spec_pool_insert_all(spec_pool_insert(p0, u@), Seq::<Seq<char>>::empty())
                    == spec_pool_insert(p0, u@));
                assert(pool@ == spec_pool_insert_all(p0, cu));
            }
        }
    } else {
        proof {
            assert(spec_close_unit(views(buf@), romanize) =~= Seq::<Seq<char>>::empty());
        }
    }
}

/// Extracts one non-mergeable node's units into the pool.
fn extract_node_into(
    pool: &mut TextPool,
    n: &CommandNode,
    kind: &DocKind,
    profile: &Option<TitleProfile>,
    romanize: bool,
)
    requires
        old(pool).wf(),
    ensures
        final(pool).wf(),
        final(pool)@ == spec_pool_insert_all(
            old(pool)@,
            spec_node_units(n@, *kind, *profile, romanize),
        ),
{
    let ghost p0 = pool@;
    let ghost nu = spec_node_units(n@, *kind, *profile, romanize);
    let cat = classify(n.code, kind);
    match cat {
        Category::Choice => {
            if n.parameters.len() > 0 {
                match &n.parameters[0] {
                    Param::Choices(items) => {
                        proof {
                            assert(n@.parameters[0] == n.parameters@[0]@);
                        }
                        let ghost iv = views(items@);
                        let m = items.len();
                        let mut j: usize = 0;
                        proof {
                            assert(iv == n@.parameters[0]->Choices_0);
                            assert(nu == spec_choice_units(iv, romanize));
                            assert(iv.skip(0) =~= iv);
                        }
                        while j < m
                            invariant
                                old(pool)@ == p0,
                                m == items@.len(),
                                iv == views(items@),
                                nu == spec_choice_units(iv, romanize),
                                0 <= j <= m,
                                pool.wf(),
                                spec_pool_insert_all(p0, nu) == spec_pool_insert_all(
                                    pool@,
                                    spec_choice_units(iv.skip(j as int), romanize),
                                ),
                            decreases m - j,
                        {
                            proof {
                                assert(iv.skip(j as int).drop_first() =~= iv.skip(j as int + 1));
                                assert(iv.skip(j as int)[0] == iv[j as int]);
                            }
                            if items[j].unicode_len() > 0 {
                                let k = norm_text(items[j].as_str(), romanize);
                                let ghost pp = pool@;
                                pool.insert(k.as_str());
                                proof {
                                    let cs = spec_choice_units(iv.skip(j as int), romanize);
                                    assert(cs == seq![k@] + spec_choice_units(
                                        iv.skip(j as int + 1),
                                        romanize,
                                    ));
                                    assert(cs[0] == k@);
                                    assert(cs.drop_first() =~= spec_choice_units(
                                        iv.skip(j as int + 1),
                                        romanize,
                                    ));
                                }
                            } else {
                                proof {
                                    assert(spec_choice_units(iv.skip(j as int), romanize)
                                        == spec_choice_units(iv.skip(j as int + 1), romanize));
                                }
                            }
                            j += 1;
                        }
                        proof {
                            assert(iv.skip(m as int) =~= Seq::<Seq<char>>::empty());
                            assert(spec_choice_units(Seq::<Seq<char>>::empty(), romanize)
                                =~= Seq::<Seq<char>>::empty());
                            assert(spec_pool_insert_all(pool@, Seq::<Seq<char>>::empty())
                                == pool@);
                        }
                    },
                    _ => {
                        proof {
                            assert(n@.parameters[0] == n.parameters@[0]@);
                            assert(nu =~= Seq::<Seq<char>>::empty());
                        }
                    },
                }
            } else {
                proof {
                    assert(nu =~= Seq::<Seq<char>>::empty());
                }
            }
        },
        Category::SystemText => {
            match node_payload(n) {
                Some(raw) => {
                    if raw.unicode_len() > 0 {
                        let k = norm_text(raw.as_str(), romanize);
                        if system_accepts(profile, k.as_str()) {
                            pool.insert(k.as_str());
                            proof {
                                assert(nu =~= seq![k@]);
                                assert(nu[0] == k@);
                                assert(nu.drop_first() =~= Seq::<Seq<char>>::empty());
                                assert(spec_pool_insert_all(
                                    spec_pool_insert(p0, k@),
                                    Seq::<Seq<char>>::empty(),
                                ) == spec_pool_insert(p0, k@));
                                assert(pool@ == spec_pool_insert_all(p0, nu));
                            }
                        } else {
                            proof {
                                assert(nu =~= Seq::<Seq<char>>::empty());
                            }
                        }
                    } else {
                        proof {
                            assert(nu =~= Seq::<Seq<char>>::empty());
                        }
                    }
                },
                None => {
                    proof {
                        assert(nu =~= Seq::<Seq<char>>::empty());
                    }
                },
            }
        },
        _ => {
            proof {
                assert(nu =~= Seq::<Seq<char>>::empty());
            }
        },
    }
}

/// Scans a command list left to right, merging runs of dialogue and
/// credits nodes, and inserts every logical unit into the pool in order.
pub fn extract_list(
    list: &Vec<CommandNode>,
    kind: &DocKind,
    profile: &Option<TitleProfile>,
    romanize: bool,
    pool: &mut TextPool,
)
    requires
        old(pool).wf(),
    ensures
        final(pool).wf(),
        final(pool)@ == spec_pool_insert_all(
            old(pool)@,
            spec_extract_list(node_views(list@), *kind, *profile, romanize),
        ),
{
    let ghost p0 = pool@;
    let ghost all = spec_extract_list(node_views(list@), *kind, *profile, romanize);
    let n = list.len();
    let mut buf: Vec<String> = Vec::new();
    let mut i: usize = 0;
    proof {
        assert(node_views(list@).skip(0) =~= node_views(list@));
        assert(views(buf@) =~= Seq::<Seq<char>>::empty());
    }
    while i < n
        invariant
            old(pool)@ == p0,
            all == spec_extract_list(node_views(list@), *kind, *profile, romanize),
            n == list@.len(),
            0 <= i <= n,
            pool.wf(),
            spec_pool_insert_all(p0, all) == spec_pool_insert_all(
                pool@,
                spec_list_units(
                    node_views(list@).skip(i as int),
                    *kind,
                    *profile,
                    romanize,
                    views(buf@),
                ),
            ),
        decreases n - i,
    {
        let ghost nv = node_views(list@);
        proof {
            assert(nv.skip(i as int).drop_first() =~= nv.skip(i as int + 1));
            assert(nv.skip(i as int)[0] == nv[i as int]);
            assert(nv[i as int] == list@[i as int]@);
        }
        let node = &list[i];
        let cat = classify(node.code, kind);
        let mergeable = match cat {
            Category::Dialogue => true,
            Category::Credits => true,
            _ => false,
        };
        if mergeable {
            match node_payload(node) {
                Some(t) => {
                    let ghost b0 = views(buf@);
                    buf.push(t);
                    proof {
                        assert(views(buf@) =~= b0.push(spec_node_payload(nv[i as int])->0));
                    }
                },
                None => {},
            }
        } else {
            let ghost units_here = spec_close_unit(views(buf@), romanize) + spec_node_units(
                nv[i as int],
                *kind,
                *profile,
                romanize,
            );
            proof {
                assert(spec_list_units(nv.skip(i as int), *kind, *profile, romanize, views(buf@))
                    == spec_close_unit(views(buf@), romanize) + spec_node_units(
                    nv[i as int],
                    *kind,
                    *profile,
                    romanize,
                ) + spec_list_units(
                    nv.skip(i as int + 1),
                    *kind,
                    *profile,
                    romanize,
                    Seq::empty(),
                ));
                crate::pool::lemma_pool_insert_all_concat(
                    pool@,
                    spec_close_unit(views(buf@), romanize),
                    spec_node_units(nv[i as int], *kind, *profile, romanize) + spec_list_units(
                        nv.skip(i as int + 1),
                        *kind,
                        *profile,
                        romanize,
                        Seq::empty(),
                    ),
                );
                assert(spec_close_unit(views(buf@), romanize) + (spec_node_units(
                    nv[i as int],
                    *kind,
                    *profile,
                    romanize,
                ) + spec_list_units(
                    nv.skip(i as int + 1),
                    *kind,
                    *profile,
                    romanize,
                    Seq::empty(),
                )) =~= spec_close_unit(views(buf@), romanize) + spec_node_units(
                    nv[i as int],
                    *kind,
                    *profile,
                    romanize,
                ) + spec_list_units(nv.skip(i as int + 1), *kind, *profile, romanize, Seq::empty()));
            }
            close_run_into(pool, &buf, romanize);
            proof {
                crate::pool::lemma_pool_insert_all_concat(
                    pool@,
                    spec_node_units(nv[i as int], *kind, *profile, romanize),
                    spec_list_units(nv.skip(i as int + 1), *kind, *profile, romanize, Seq::empty()),
                );
            }
            extract_node_into(pool, node, kind, profile, romanize);
            buf.clear();
            proof {
                assert(views(buf@) =~= Seq::<Seq<char>>::empty());
            }
        }
        i += 1;
    }
    proof {
        assert(node_views(list@).skip(n as int) =~= Seq::<NodeV>::empty());
    }
    close_run_into(pool, &buf, romanize);
}


/// The pending nodes of an open run with the split segments assigned in
/// order to the payload-bearing slots; nodes without a payload keep their
/// content and consume no segment.
pub open spec fn spec_patch_pending(pending: Seq<NodeV>, segs: Seq<Seq<char>>) -> Seq<NodeV>
    decreases pending.len(),
{
    if pending.len() == 0 {
        Seq::empty()
    } else {
        let n = pending[0];
        if spec_node_payload(n) is Some {
            let rest_segs = if segs.len() > 0 {
                segs.drop_first()
            } else {
                segs
            };
            seq![
                spec_set_payload(
                    n,
                    if segs.len() > 0 {
                        segs[0]
                    } else {
                        Seq::<char>::empty()
                    },
                ),
            ] + spec_patch_pending(pending.drop_first(), rest_segs)
        } else {
            seq![n] + spec_patch_pending(pending.drop_first(), segs)
        }
    }
}

/// What closing a run writes back: nothing changes when no run is open or
/// the unit misses the map; on a hit the translated unit is split and
/// redistributed over the run's slots.
pub open spec fn spec_flush_run(
    pending: Seq<NodeV>,
    buf: Seq<Seq<char>>,
    romanize: bool,
    m: Map<Seq<char>, Seq<char>>,
) -> Seq<NodeV> {
    if buf.len() == 0 {
        pending
    } else {
        let key = spec_run_unit(buf, romanize);
        if m.contains_key(key) {
            spec_patch_pending(
                pending,
                spec_redistribute(spec_split(m[key], '\n'), buf.len()),
            )
        } else {
            pending
        }
    }
}

/// Each choice sub-string replaced by its translation when its normalized
/// form is in the map, and kept as it is otherwise.
pub open spec fn spec_inject_choices(
    items: Seq<Seq<char>>,
    romanize: bool,
    m: Map<Seq<char>, Seq<char>>,
) -> Seq<Seq<char>> {
    items.map_values(
        |c: Seq<char>|
            {
                let k = spec_norm(c, romanize);
                if m.contains_key(k) {
                    m[k]
                } else {
                    c
                }
            },
    )
}

/// Injection of one non-mergeable node: choice arrays item by item,
/// system text through the profile filter and the map, everything else
/// untouched.
pub open spec fn spec_inject_node(
    n: NodeV,
    kind: DocKind,
    profile: Option<TitleProfile>,
    romanize: bool,
    m: Map<Seq<char>, Seq<char>>,
) -> NodeV {
    match spec_classify(n.code, kind) {
        Category::Choice => if 0 < n.parameters.len() && n.parameters[0] is Choices {
            NodeV {
                code: n.code,
                parameters: n.parameters.update(
                    0,
                    ParamV::Choices(
                        spec_inject_choices(n.parameters[0]->Choices_0, romanize, m),
                    ),
                ),
            }
        } else {
            n
        },
        Category::SystemText => match spec_node_payload(n) {
            Some(raw) => {
                let k = spec_norm(raw, romanize);
                if spec_system_accepts(profile, k) && m.contains_key(k) {
                    spec_set_payload(n, m[k])
                } else {
                    n
                }
            },
            None => n,
        },
        _ => n,
    }
}

/// The injected form of a command list: the same nodes in the same order,
/// with translated text written into the translatable slots and every
/// lookup miss left untouched.
pub open spec fn spec_inject_list_rec(
    nodes: Seq<NodeV>,
    kind: DocKind,
    profile: Option<TitleProfile>,
    romanize: bool,
    m: Map<Seq<char>, Seq<char>>,
    pending: Seq<NodeV>,
    buf: Seq<Seq<char>>,
) -> Seq<NodeV>
    decreases nodes.len(),
{
    if nodes.len() == 0 {
        spec_flush_run(pending, buf, romanize, m)
    } else {
        let n = nodes[0];
        if spec_mergeable(spec_classify(n.code, kind)) {
            match spec_node_payload(n) {
                Some(t) => spec_inject_list_rec(
                    nodes.drop_first(),
                    kind,
                    profile,
                    romanize,
                    m,
                    pending.push(n),
                    buf.push(t),
                ),
                None => spec_inject_list_rec(
                    nodes.drop_first(),
                    kind,
                    profile,
                    romanize,
                    m,
                    pending.push(n),
                    buf,
                ),
            }
        } else {
            spec_flush_run(pending, buf, romanize, m) + seq![
                spec_inject_node(n, kind, profile, romanize, m),
            ] + spec_inject_list_rec(
                nodes.drop_first(),
                kind,
                profile,
                romanize,
                m,
                Seq::empty(),
                Seq::empty(),
            )
        }
    }
}

/// The injected form of a whole command list.
pub open spec fn spec_inject_list(
    nodes: Seq<NodeV>,
    kind: DocKind,
    profile: Option<TitleProfile>,
    romanize: bool,
    m: Map<Seq<char>, Seq<char>>,
) -> Seq<NodeV> {
    spec_inject_list_rec(nodes, kind, profile, romanize, m, Seq::empty(), Seq::empty())
}

/// Assigns the split segments to the payload slots of the pending nodes.
fn patch_pending(pending: &Vec<CommandNode>, segs: &Vec<String>) -> (r: Vec<CommandNode>)
    ensures
        node_views(r@) == spec_patch_pending(node_views(pending@), views(segs@)),
{
    let n = pending.len();
    let total = segs.len();
    let mut out: Vec<CommandNode> = Vec::new();
    let mut i: usize = 0;
    let mut si: usize = 0;
    proof {
        assert(node_views(pending@).skip(0) =~= node_views(pending@));
        assert(views(segs@).skip(0) =~= views(segs@));
        assert(Seq::<NodeV>::empty() + spec_patch_pending(node_views(pending@), views(segs@))
            =~= spec_patch_pending(node_views(pending@), views(segs@)));
    }
    while i < n
        invariant
            n == pending@.len(),
            total == segs@.len(),
            0 <= i <= n,
            0 <= si <= total,
            spec_patch_pending(node_views(pending@), views(segs@)) == node_views(out@)
                + spec_patch_pending(
                node_views(pending@).skip(i as int),
                views(segs@).skip(si as int),
            ),
        decreases n - i,
    {
        let ghost pv = node_views(pending@);
        let ghost sv = views(segs@);
        proof {
            assert(pv.skip(i as int).drop_first() =~= pv.skip(i as int + 1));
            assert(pv.skip(i as int)[0] == pv[i as int]);
            assert(pv[i as int] == pending@[i as int]@);
        }
        let node = &pending[i];
        let has_payload = match node_payload(node) {
            Some(_) => true,
            None => false,
        };
        let ghost out0 = node_views(out@);
        if has_payload {
            let ghost si0 = si as int;
            let ghost seg_used = if sv.skip(si0).len() > 0 {
                sv.skip(si0)[0]
            } else {
                Seq::<char>::empty()
            };
            let t: String;
            if si < total {
                t = segs[si].clone();
                proof {
                    assert(sv.skip(si0)[0] == sv[si0]);
                    assert(t@ == seg_used);
                }
                si += 1;
                proof {
                    assert(sv.skip(si0).drop_first() =~= sv.skip(si as int));
                }
            } else {
                t = String::new();
                proof {
                    assert(sv.skip(si0) =~= Seq::<Seq<char>>::empty());
                    assert(t@ == seg_used);
                }
            }
            let patched = set_payload(node, t);
            out.push(patched);
            proof {
                assert(node_views(out@) =~= out0.push(spec_set_payload(pv[i as int], seg_used)));
                assert(spec_patch_pending(pv.skip(i as int), sv.skip(si0)) == seq![
                    spec_set_payload(pv[i as int], seg_used),
                ] + spec_patch_pending(pv.skip(i as int + 1), sv.skip(si as int)));
                assert(node_views(out@) + spec_patch_pending(
                    pv.skip(i as int + 1),
                    sv.skip(si as int),
                ) =~= out0 + spec_patch_pending(pv.skip(i as int), sv.skip(si0)));
            }
        } else {
            let kept = crate::model::clone_node(node);
            out.push(kept);
            proof {
                assert(node_views(out@) =~= out0.push(pv[i as int]));
                assert(spec_patch_pending(pv.skip(i as int), sv.skip(si as int)) == seq![
                    pv[i as int],
                ] + spec_patch_pending(pv.skip(i as int + 1), sv.skip(si as int)));
                assert(node_views(out@) + spec_patch_pending(
                    pv.skip(i as int + 1),
                    sv.skip(si as int),
                ) =~= out0 + spec_patch_pending(pv.skip(i as int), sv.skip(si as int)));
            }
        }
        i += 1;
    }
    proof {
        assert(node_views(pending@).skip(n as int) =~= Seq::<NodeV>::empty());
        assert(spec_patch_pending(Seq::<NodeV>::empty(), views(segs@).skip(si as int))
            =~= Seq::<NodeV>::empty());
        assert(node_views(out@) + Seq::<NodeV>::empty() =~= node_views(out@));
    }
    out
}

/// Closes the open run against the map: on a hit the translated unit is
/// split and redistributed over the run's slots, on a miss nothing
/// changes.
fn flush_run(
    pending: &Vec<CommandNode>,
    buf: &Vec<String>,
    romanize: bool,
    m: &TranslationMap,
) -> (r: Vec<CommandNode>)
    requires
        m.wf(),
    ensures
        node_views(r@) == spec_flush_run(node_views(pending@), views(buf@), romanize, m@),
{
    if buf.len() == 0 {
        let r = crate::model::clone_node_vec(pending);
        proof {
            assert(views(buf@).len() == 0);
        }
        return r;
    }
    let key = run_unit(buf, romanize);
    match m.lookup(key.as_str()) {
        Some(v) => {
            let segs = split_for_slots(v.as_str(), buf.len());
            let r = patch_pending(pending, &segs);
            proof {
                assert(views(segs@) == spec_redistribute(
                    spec_split(m@[spec_run_unit(views(buf@), romanize)], '\n'),
                    views(buf@).len(),
                ));
            }
            r
        },
        None => {
            let r = crate::model::clone_node_vec(pending);
            r
        },
    }
}

/// Injects one non-mergeable node.
fn inject_node(
    n: &CommandNode,
    kind: &DocKind,
    profile: &Option<TitleProfile>,
    romanize: bool,
    m: &TranslationMap,
) -> (r: CommandNode)
    requires
        m.wf(),
    ensures
        r@ == spec_inject_node(n@, *kind, *profile, romanize, m@),
{
    let cat = classify(n.code, kind);
    match cat {
        Category::Choice => {
            if n.parameters.len() > 0 {
                let is_choices = match &n.parameters[0] {
                    Param::Choices(_) => true,
                    _ => false,
                };
                proof {
                    assert(n@.parameters[0] == n.parameters@[0]@);
                }
                if is_choices {
                    match &n.parameters[0] {
                        Param::Choices(items) => {
                            let ghost iv = views(items@);
                            let cnt = items.len();
                            let mut new_items: Vec<String> = Vec::new();
                            let mut j: usize = 0;
                            proof {
                                assert(views(new_items@) =~= spec_inject_choices(
                                    iv.take(0),
                                    romanize,
                                    m@,
                                )) by {
                                    assert(iv.take(0) =~= Seq::<Seq<char>>::empty());
                                    assert(spec_inject_choices(
                                        Seq::<Seq<char>>::empty(),
                                        romanize,
                                        m@,
                                    ) =~= Seq::<Seq<char>>::empty());
                                }
                            }
                            while j < cnt
                                invariant
                                    m.wf(),
                                    cnt == items@.len(),
                                    iv == views(items@),
                                    0 <= j <= cnt,
                                    views(new_items@) == spec_inject_choices(
                                        iv.take(j as int),
                                        romanize,
                                        m@,
                                    ),
                                decreases cnt - j,
                            {
                                let k = norm_text(items[j].as_str(), romanize);
                                let ghost ni0 = views(new_items@);
                                let ghost expected = (
                                {
                                    let kk = spec_norm(iv[j as int], romanize);
                                    if m@.contains_key(kk) {
                                        m@[kk]
                                    } else {
                                        iv[j as int]
                                    }
                                });
                                match m.lookup(k.as_str()) {
                                    Some(v) => {
                                        new_items.push(v);
                                    },
                                    None => {
                                        new_items.push(items[j].clone());
                                    },
                                }
                                proof {
                                    assert(views(new_items@) =~= ni0.push(expected));
                                    assert(spec_inject_choices(iv.take(j as int + 1), romanize, m@)
                                        =~= spec_inject_choices(
                                        iv.take(j as int),
                                        romanize,
                                        m@,
                                    ).push(expected));
                                }
                                j += 1;
                            }
                            proof {
                                assert(iv.take(cnt as int) =~= iv);
                            }
                            let c = crate::model::clone_node(n);
                            let mut parameters = c.parameters;
                            parameters.remove(0);
                            parameters.insert(0, Param::Choices(new_items));
                            let r = CommandNode { code: n.code, parameters };
                            proof {
                                assert(c@ == n@);
                                assert(r@.parameters =~= n@.parameters.update(
                                    0,
                                    ParamV::Choices(spec_inject_choices(iv, romanize, m@)),
                                ));
                                assert(r@ =~= spec_inject_node(n@, *kind, *profile, romanize, m@));
                            }
                            r
                        },
                        _ => crate::model::clone_node(n),
                    }
                } else {
                    crate::model::clone_node(n)
                }
            } else {
                crate::model::clone_node(n)
            }
        },
        Category::SystemText => {
            match node_payload(n) {
                Some(raw) => {
                    let k = norm_text(raw.as_str(), romanize);
                    if system_accepts(profile, k.as_str()) {
                        match m.lookup(k.as_str()) {
                            Some(v) => set_payload(n, v),
                            None => crate::model::clone_node(n),
                        }
                    } else {
                        crate::model::clone_node(n)
                    }
                },
                None => crate::model::clone_node(n),
            }
        },
        _ => crate::model::clone_node(n),
    }
}

/// Re-scans a command list exactly as extraction does, and writes the
/// translated text of every unit the map holds back into the unit's own
/// slots; units the map misses are left unchanged.
pub fn inject_list(
    list: &Vec<CommandNode>,
    kind: &DocKind,
    profile: &Option<TitleProfile>,
    romanize: bool,
    m: &TranslationMap,
) -> (r: Vec<CommandNode>)
    requires
        m.wf(),
    ensures
        node_views(r@) == spec_inject_list(node_views(list@), *kind, *profile, romanize, m@),
{
    let ghost all = spec_inject_list(node_views(list@), *kind, *profile, romanize, m@);
    let n = list.len();
    let mut out: Vec<CommandNode> = Vec::new();
    let mut pending: Vec<CommandNode> = Vec::new();
    let mut buf: Vec<String> = Vec::new();
    let mut i: usize = 0;
    proof {
        assert(node_views(list@).skip(0) =~= node_views(list@));
        assert(node_views(out@) =~= Seq::<NodeV>::empty());
        assert(node_views(pending@) =~= Seq::<NodeV>::empty());
        assert(views(buf@) =~= Seq::<Seq<char>>::empty());
        assert(Seq::<NodeV>::empty() + all =~= all);
    }
    while i < n
        invariant
            m.wf(),
            all == spec_inject_list(node_views(list@), *kind, *profile, romanize, m@),
            n == list@.len(),
            0 <= i <= n,
            all == node_views(out@) + spec_inject_list_rec(
                node_views(list@).skip(i as int),
                *kind,
                *profile,
                romanize,
                m@,
                node_views(pending@),
                views(buf@),
            ),
        decreases n - i,
    {
        let ghost nv = node_views(list@);
        proof {
            assert(nv.skip(i as int).drop_first() =~= nv.skip(i as int + 1));
            assert(nv.skip(i as int)[0] == nv[i as int]);
            assert(nv[i as int] == list@[i as int]@);
        }
        let node = &list[i];
        let cat = classify(node.code, kind);
        let mergeable = match cat {
            Category::Dialogue => true,
            Category::Credits => true,
            _ => false,
        };
        if mergeable {
            let ghost pv0 = node_views(pending@);
            let ghost bv0 = views(buf@);
            match node_payload(node) {
                Some(t) => {
                    pending.push(crate::model::clone_node(node));
                    buf.push(t);
                    proof {
                        assert(node_views(pending@) =~= pv0.push(nv[i as int]));
                        assert(views(buf@) =~= bv0.push(spec_node_payload(nv[i as int])->0));
                    }
                },
                None => {
                    pending.push(crate::model::clone_node(node));
                    proof {
                        assert(node_views(pending@) =~= pv0.push(nv[i as int]));
                    }
                },
            }
        } else {
            let ghost pv0 = node_views(pending@);
            let ghost bv0 = views(buf@);
            let ghost fl_v = spec_flush_run(pv0, bv0, romanize, m@);
            let ghost nj = spec_inject_node(nv[i as int], *kind, *profile, romanize, m@);
            let ghost rest = spec_inject_list_rec(
                nv.skip(i as int + 1),
                *kind,
                *profile,
                romanize,
                m@,
                Seq::empty(),
                Seq::empty(),
            );
            proof {
                assert(spec_inject_list_rec(
                    nv.skip(i as int),
                    *kind,
                    *profile,
                    romanize,
                    m@,
                    pv0,
                    bv0,
                ) == fl_v + seq![nj] + rest);
            }
            let mut fl = flush_run(&pending, &buf, romanize, m);
            let ghost out0 = node_views(out@);
            out.append(&mut fl);
            proof {
                assert(node_views(out@) =~= out0 + fl_v);
            }
            let injected = inject_node(node, kind, profile, romanize, m);
            let ghost out1 = node_views(out@);
            out.push(injected);
            proof {
                assert(node_views(out@) =~= out1.push(nj));
            }
            pending = Vec::new();
            buf = Vec::new();
            proof {
                assert(node_views(pending@) =~= Seq::<NodeV>::empty());
                assert(views(buf@) =~= Seq::<Seq<char>>::empty());
                assert(node_views(out@) + rest =~= out0 + (fl_v + seq![nj] + rest));
                assert(out0 + (fl_v + seq![nj] + rest) =~= out0 + spec_inject_list_rec(
                    nv.skip(i as int),
                    *kind,
                    *profile,
                    romanize,
                    m@,
                    pv0,
                    bv0,
                ));
            }
        }
        i += 1;
    }
    proof {
        assert(node_views(list@).skip(n as int) =~= Seq::<NodeV>::empty());
    }
    let mut fl = flush_run(&pending, &buf, romanize, m);
    let ghost outf = node_views(out@);
    out.append(&mut fl);
    proof {
        assert(node_views(out@) =~= outf + spec_flush_run(
            node_views(pending@),
            views(buf@),
            romanize,
            m@,
        ));
    }
    out
}

} // verus!
