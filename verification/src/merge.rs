//! The destructive run merger: rewrites a document so that each maximal
//! contiguous run of dialogue or credits nodes becomes a single node whose
//! payload is the newline-joined text of the whole run. Engines of this
//! family accept merged command lists, and a merged document gives the
//! extractor and injector one slot per run instead of one per fragment.

use vstd::prelude::*;

use crate::model::{
    clone_node, CommandNode, EntityDocument, EntityRecord, Event, EventV, MapDocument, MapDocV,
    NodeV, Page, PageV, RecordV,
};
use crate::runs::{
    node_payload, node_views, set_payload, spec_node_payload, spec_set_payload,
};
use crate::text::{join_char, spec_join, views};

verus! {

/// The codes whose runs are merged: dialogue and credits lines.
pub open spec fn spec_merge_code(code: u64) -> bool {
    code == 401 || code == 405
}

/// The node that stands for a whole merged run: the run's first node with
/// the joined text in its payload slot; a first node without a parameter
/// slot is kept as it is.
pub open spec fn spec_merged_node(f: NodeV, buf: Seq<Seq<char>>) -> NodeV {
    if crate::classify::spec_payload_index(f.code) < f.parameters.len() {
        spec_set_payload(f, spec_join(buf, '\n'))
    } else {
        f
    }
}

/// What an open run contributes when it closes.
pub open spec fn spec_merge_flush(first: Option<NodeV>, buf: Seq<Seq<char>>) -> Seq<NodeV> {
    match first {
        None => Seq::empty(),
        Some(f) => seq![spec_merged_node(f, buf)],
    }
}

/// The merged form of a command list.
pub open spec fn spec_merge_list_rec(
    nodes: Seq<NodeV>,
    first: Option<NodeV>,
    buf: Seq<Seq<char>>,
) -> Seq<NodeV>
    decreases nodes.len(),
{
    if nodes.len() == 0 {
        spec_merge_flush(first, buf)
    } else {
        let n = nodes[0];
        if spec_merge_code(n.code) {
            let nf = if first is None {
                Some(n)
            } else {
                first
            };
            let nb = match spec_node_payload(n) {
                Some(t) => buf.push(t),
                None => buf,
            };
            spec_merge_list_rec(nodes.drop_first(), nf, nb)
        } else {
            spec_merge_flush(first, buf) + seq![n] + spec_merge_list_rec(
                nodes.drop_first(),
                None,
                Seq::empty(),
            )
        }
    }
}

/// The merged form of a whole command list.
pub open spec fn spec_merge_list(nodes: Seq<NodeV>) -> Seq<NodeV> {
    spec_merge_list_rec(nodes, None, Seq::empty())
}

/// Merges every run of dialogue and credits nodes in one command list into
/// its first node, joining the fragments with newlines.
pub fn merge_seq(list: &Vec<CommandNode>) -> (r: Vec<CommandNode>)
    ensures
        node_views(r@) == spec_merge_list(node_views(list@)),
{
    let ghost all = spec_merge_list(node_views(list@));
    let n = list.len();
    let mut out: Vec<CommandNode> = Vec::new();
    let mut first: Option<CommandNode> = None;
    let mut buf: Vec<String> = Vec::new();
    let mut i: usize = 0;
    proof {
        assert(node_views(list@).skip(0) =~= node_views(list@));
        assert(node_views(out@) =~= Seq::<NodeV>::empty());
        assert(views(buf@) =~= Seq::<Seq<char>>::empty());
        assert(Seq::<NodeV>::empty() + all =~= all);
    }
    while i < n
        invariant
            all == spec_merge_list(node_views(list@)),
            n == list@.len(),
            0 <= i <= n,
            all == node_views(out@) + spec_merge_list_rec(
                node_views(list@).skip(i as int),
                match first {
                    Some(f) => Some(f@),
                    None => None,
                },
                views(buf@),
            ),
        decreases n - i,
    {
        let ghost nv = node_views(list@);
        proof {
            assert(nv.skip(i as int).drop_first() =~= nv.skip(i as int + 1));
            assert(nv.skip(i as int)[0] == nv[i as int]);
            assert(nv[i as int] == list@[i as int]@);
        }
        let node = &list[i];
        if node.code == 401 || node.code == 405 {
            if first.is_none() {
                first = Some(clone_node(node));
            }
            match node_payload(node) {
                Some(t) => {
                    let ghost b0 = views(buf@);
                    buf.push(t);
                    proof {
                        assert(views(buf@) =~= b0.push(spec_node_payload(nv[i as int])->0));
                    }
                },
                None => {},
            }
        } else {
            let ghost f0: Option<NodeV> = match &first {
                Some(f) => Some(f@),
                None => None,
            };
            let ghost b0 = views(buf@);
            let ghost rest = spec_merge_list_rec(
                nv.skip(i as int + 1),
                None,
                Seq::empty(),
            );
            proof {
                assert(spec_merge_list_rec(nv.skip(i as int), f0, b0) == spec_merge_flush(f0, b0)
                    + seq![nv[i as int]] + rest);
            }
            let ghost out0 = node_views(out@);
            match first {
                Some(f) => {
                    let merged = finish_run(&f, &buf);
                    out.push(merged);
                    proof {
                        assert(node_views(out@) =~= out0.push(spec_merged_node(f@, b0)));
                        assert(out0.push(spec_merged_node(f@, b0)) =~= out0 + spec_merge_flush(
                            f0,
                            b0,
                        ));
                    }
                },
                None => {
                    proof {
                        assert(spec_merge_flush(f0, b0) =~= Seq::<NodeV>::empty());
                        assert(out0 + Seq::<NodeV>::empty() =~= out0);
                    }
                },
            }
            let ghost out1 = node_views(out@);
            let kept = clone_node(node);
            out.push(kept);
            proof {
                assert(node_views(out@) =~= out1.push(nv[i as int]));
            }
            first = None;
            buf = Vec::new();
            proof {
                assert(views(buf@) =~= Seq::<Seq<char>>::empty());
                assert(node_views(out@) + rest =~= out0 + (spec_merge_flush(f0, b0) + seq![
                    nv[i as int],
                ] + rest));
            }
        }
        i += 1;
    }
    proof {
        assert(node_views(list@).skip(n as int) =~= Seq::<NodeV>::empty());
    }
    let ghost outf = node_views(out@);
    let ghost ff: Option<NodeV> = match &first {
        Some(f) => Some(f@),
        None => None,
    };
    match first {
        Some(f) => {
            let merged = finish_run(&f, &buf);
            out.push(merged);
            proof {
                assert(node_views(out@) =~= outf.push(spec_merged_node(f@, views(buf@))));
                assert(outf.push(spec_merged_node(f@, views(buf@))) =~= outf + spec_merge_flush(
                    ff,
                    views(buf@),
                ));
            }
        },
        None => {
            proof {
                assert(spec_merge_flush(ff, views(buf@)) =~= Seq::<NodeV>::empty());
                assert(outf + Seq::<NodeV>::empty() =~= outf);
            }
        },
    }
    out
}

/// Builds the merged node that closes a run.
fn finish_run(f: &CommandNode, buf: &Vec<String>) -> (r: CommandNode)
    ensures
        r@ == spec_merged_node(f@, views(buf@)),
{
    let pi = crate::classify::payload_index(f.code);
    if pi < f.parameters.len() {
        let joined = join_char(buf, '\n');
        set_payload(f, joined)
    } else {
        clone_node(f)
    }
}

/// The merged form of a map document: every page's command list is merged;
/// the sentinel slot is kept as it is.
pub open spec fn spec_merge_map_doc(d: MapDocV) -> MapDocV {
    MapDocV {
        display_name: d.display_name,
        events: Seq::new(
            d.events.len(),
            |i: int|
                if i == 0 {
                    d.events[i]
                } else {
                    match d.events[i] {
                        None => None,
                        Some(ev) => Some(
                            EventV {
                                pages: ev.pages.map_values(
                                    |p: PageV| PageV { list: spec_merge_list(p.list) },
                                ),
                            },
                        ),
                    }
                },
        ),
    }
}

/// Merges the runs of every page of a map document.
pub fn merge_map(doc: &MapDocument) -> (r: MapDocument)
    ensures
        r@ == spec_merge_map_doc(doc@),
{
    let ghost goal = spec_merge_map_doc(doc@);
    let n = doc.events.len();
    let mut events: Vec<Option<Event>> = Vec::new();
    let mut i: usize = 0;
    proof {
        assert(events@.map_values(|e: Option<Event>| crate::model::opt_event_view(e))
            =~= goal.events.take(0));
    }
    while i < n
        invariant
            goal == spec_merge_map_doc(doc@),
            n == doc.events@.len(),
            n == goal.events.len(),
            0 <= i <= n,
            events@.map_values(|e: Option<Event>| crate::model::opt_event_view(e))
                == goal.events.take(i as int),
        decreases n - i,
    {
        proof {
            assert(doc@.events[i as int] == crate::model::opt_event_view(doc.events@[i as int]));
        }
        let slot: Option<Event>;
        if i == 0 {
            slot = crate::model::clone_event_slot(&doc.events[0]);
            proof {
                assert(goal.events[0] == doc@.events[0]);
            }
        } else {
            match &doc.events[i] {
                None => {
                    slot = None;
                },
                Some(ev) => {
                    slot = Some(Event { pages: merge_pages(&ev.pages) });
                },
            }
            proof {
                assert(goal.events[i as int] == (match doc@.events[i as int] {
                    None => None,
                    Some(ev) => Some(
                        EventV {
                            pages: ev.pages.map_values(
                                |p: PageV| PageV { list: spec_merge_list(p.list) },
                            ),
                        },
                    ),
                }));
            }
        }
        let ghost e0 = events@.map_values(|e: Option<Event>| crate::model::opt_event_view(e));
        events.push(slot);
        proof {
            assert(events@.map_values(|e: Option<Event>| crate::model::opt_event_view(e))
                =~= e0.push(goal.events[i as int]));
            assert(goal.events.take(i as int + 1) =~= goal.events.take(i as int).push(
                goal.events[i as int],
            ));
        }
        i += 1;
    }
    proof {
        assert(goal.events.take(n as int) =~= goal.events);
    }
    let r = MapDocument { display_name: doc.display_name.clone(), events };
    proof {
        assert(r@ =~= goal);
    }
    r
}

/// Merges the runs of every page of a page vector.
fn merge_pages(pages: &Vec<Page>) -> (r: Vec<Page>)
    ensures
        crate::extract::page_views(r@) == crate::extract::page_views(pages@).map_values(
            |p: PageV| PageV { list: spec_merge_list(p.list) },
        ),
{
    let ghost pv = crate::extract::page_views(pages@);
    let ghost goal = pv.map_values(|p: PageV| PageV { list: spec_merge_list(p.list) });
    let n = pages.len();
    let mut r: Vec<Page> = Vec::new();
    let mut i: usize = 0;
    proof {
        assert(crate::extract::page_views(r@) =~= goal.take(0));
    }
    while i < n
        invariant
            pv == crate::extract::page_views(pages@),
            goal == pv.map_values(|p: PageV| PageV { list: spec_merge_list(p.list) }),
            n == pages@.len(),
            0 <= i <= n,
            crate::extract::page_views(r@) == goal.take(i as int),
        decreases n - i,
    {
        proof {
            assert(pv[i as int] == pages@[i as int]@);
            assert(goal[i as int] == (PageV { list: spec_merge_list(pv[i as int].list) }));
        }
        let merged = merge_seq(&pages[i].list);
        let ghost r0 = crate::extract::page_views(r@);
        r.push(Page { list: merged });
        proof {
            assert(crate::extract::page_views(r@) =~= r0.push(goal[i as int])) by {
                assert(node_views(pages@[i as int].list@) == pv[i as int].list);
                assert(r@.last()@ =~= goal[i as int]);
            }
            assert(goal.take(i as int + 1) =~= goal.take(i as int).push(goal[i as int]));
        }
        i += 1;
    }
    proof {
        assert(goal.take(n as int) =~= goal);
    }
    r
}

/// The merged form of one entity record.
pub open spec fn spec_merge_record(r: Option<RecordV>) -> Option<RecordV> {
    match r {
        None => None,
        Some(rec) => Some(
            match rec {
                RecordV::Flat { name, nickname, description, note } => RecordV::Flat {
                    name,
                    nickname,
                    description,
                    note,
                },
                RecordV::Paged { pages } => RecordV::Paged {
                    pages: pages.map_values(|p: PageV| PageV { list: spec_merge_list(p.list) }),
                },
                RecordV::Listed { list } => RecordV::Listed { list: spec_merge_list(list) },
            },
        ),
    }
}

/// The merged form of an entity collection: every page and list of every
/// record is merged.
pub open spec fn spec_merge_entity_doc(d: crate::model::EntityDocV) -> crate::model::EntityDocV {
    crate::model::EntityDocV {
        filename: d.filename,
        records: d.records.map_values(|r: Option<RecordV>| spec_merge_record(r)),
    }
}

/// Merges the runs of every paged and listed record of an entity
/// collection.
pub fn merge_other(doc: &EntityDocument) -> (r: EntityDocument)
    ensures
        r@ == spec_merge_entity_doc(doc@),
{
    let ghost goal = spec_merge_entity_doc(doc@);
    let n = doc.records.len();
    let mut records: Vec<Option<EntityRecord>> = Vec::new();
    let mut i: usize = 0;
    proof {
        assert(records@.map_values(|e: Option<EntityRecord>| crate::model::opt_record_view(e))
            =~= goal.records.take(0));
    }
    while i < n
        invariant
            goal == spec_merge_entity_doc(doc@),
            n == doc.records@.len(),
            n == goal.records.len(),
            0 <= i <= n,
            records@.map_values(|e: Option<EntityRecord>| crate::model::opt_record_view(e))
                == goal.records.take(i as int),
        decreases n - i,
    {
        proof {
            assert(doc@.records[i as int] == crate::model::opt_record_view(
                doc.records@[i as int],
            ));
            assert(goal.records[i as int] == spec_merge_record(doc@.records[i as int]));
        }
        let slot: Option<EntityRecord> = match &doc.records[i] {
            None => None,
            Some(rec) => match rec {
                EntityRecord::Flat { name, nickname, description, note } => Some(
                    EntityRecord::Flat {
                        name: crate::model::clone_opt_string(name),
                        nickname: crate::model::clone_opt_string(nickname),
                        description: crate::model::clone_opt_string(description),
                        note: crate::model::clone_opt_string(note),
                    },
                ),
                EntityRecord::Paged { pages } => Some(
                    EntityRecord::Paged { pages: merge_pages(pages) },
                ),
                EntityRecord::Listed { list } => Some(
                    EntityRecord::Listed { list: merge_seq(list) },
                ),
            },
        };
        proof {
            match doc@.records[i as int] {
                None => {},
                Some(rec) => {
                    match rec {
                        RecordV::Paged { pages } => {
                            assert(crate::extract::page_views(
                                doc.records@[i as int]->0->Paged_pages@,
                            ) == pages);
                        },
                        RecordV::Listed { list } => {
                            assert(node_views(doc.records@[i as int]->0->Listed_list@) == list);
                        },
                        _ => {},
                    }
                },
            }
        }
        let ghost e0 = records@.map_values(
            |e: Option<EntityRecord>| crate::model::opt_record_view(e),
        );
        records.push(slot);
        proof {
            assert(records@.map_values(|e: Option<EntityRecord>| crate::model::opt_record_view(e))
                =~= e0.push(goal.records[i as int]));
            assert(goal.records.take(i as int + 1) =~= goal.records.take(i as int).push(
                goal.records[i as int],
            ));
        }
        i += 1;
    }
    proof {
        assert(goal.records.take(n as int) =~= goal.records);
    }
    let r = EntityDocument { filename: doc.filename.clone(), records };
    proof {
        assert(r@ =~= goal);
    }
    r
}

} // verus!
