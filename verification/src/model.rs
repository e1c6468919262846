//! The document model: typed trees for the three schema families the engine
//! walks. Each executable type has a ghost mirror used by the
//! specifications, reached through its view.
//!
//! The first element of a map document's event array and of an entity
//! collection's record array is a structurally reserved sentinel: it is
//! represented like any other slot but the walks never visit index 0.

use vstd::prelude::*;

verus! {

/// One parameter slot of a command node: a scalar text payload, an array of
/// choice sub-strings, or a value the engine never touches.
#[derive(Debug, Clone, PartialEq)]
pub enum Param {
    Text(String),
    Choices(Vec<String>),
    Other,
}

/// The ghost mirror of a parameter.
pub enum ParamV {
    Text(Seq<char>),
    Choices(Seq<Seq<char>>),
    Other,
}

impl View for Param {
    type V = ParamV;

    open spec fn view(&self) -> ParamV {
        match self {
            Param::Text(s) => ParamV::Text(s@),
            Param::Choices(v) => ParamV::Choices(
                v@.map_values(|x: String| x@),
            ),
            Param::Other => ParamV::Other,
        }
    }
}

/// One coded instruction entry in a command list, optionally carrying text.
#[derive(Debug, Clone, PartialEq)]
pub struct CommandNode {
    pub code: u64,
    pub parameters: Vec<Param>,
}

/// The ghost mirror of a command node.
#[verifier::ext_equal]
pub struct NodeV {
    pub code: u64,
    pub parameters: Seq<ParamV>,
}

impl View for CommandNode {
    type V = NodeV;

    open spec fn view(&self) -> NodeV {
        NodeV { code: self.code, parameters: self.parameters@.map_values(|p: Param| p@) }
    }
}

/// One page of an event: an ordered command list.
#[derive(Debug, Clone, PartialEq)]
pub struct Page {
    pub list: Vec<CommandNode>,
}

#[verifier::ext_equal]
pub struct PageV {
    pub list: Seq<NodeV>,
}

impl View for Page {
    type V = PageV;

    open spec fn view(&self) -> PageV {
        PageV { list: self.list@.map_values(|n: CommandNode| n@) }
    }
}

/// One event of a map document.
#[derive(Debug, Clone, PartialEq)]
pub struct Event {
    pub pages: Vec<Page>,
}

#[verifier::ext_equal]
pub struct EventV {
    pub pages: Seq<PageV>,
}

impl View for Event {
    type V = EventV;

    open spec fn view(&self) -> EventV {
        EventV { pages: self.pages@.map_values(|p: Page| p@) }
    }
}

pub open spec fn opt_event_view(e: Option<Event>) -> Option<EventV> {
    match e {
        Some(ev) => Some(ev@),
        None => None,
    }
}

/// A map document: a display name and an event array whose index 0 is the
/// reserved sentinel slot.
#[derive(Debug, Clone, PartialEq)]
pub struct MapDocument {
    pub display_name: String,
    pub events: Vec<Option<Event>>,
}

#[verifier::ext_equal]
pub struct MapDocV {
    pub display_name: Seq<char>,
    pub events: Seq<Option<EventV>>,
}

impl View for MapDocument {
    type V = MapDocV;

    open spec fn view(&self) -> MapDocV {
        MapDocV {
            display_name: self.display_name@,
            events: self.events@.map_values(|e: Option<Event>| opt_event_view(e)),
        }
    }
}

pub open spec fn opt_str_view(s: Option<String>) -> Option<Seq<char>> {
    match s {
        Some(x) => Some(x@),
        None => None,
    }
}

/// One record of an entity collection: either a flat record with the four
/// translatable attributes, or a page or list holder of the troop and
/// common-event family.
#[derive(Debug, Clone, PartialEq)]
pub enum EntityRecord {
    Flat {
        name: Option<String>,
        nickname: Option<String>,
        description: Option<String>,
        note: Option<String>,
    },
    Paged { pages: Vec<Page> },
    Listed { list: Vec<CommandNode> },
}

#[verifier::ext_equal]
pub enum RecordV {
    Flat {
        name: Option<Seq<char>>,
        nickname: Option<Seq<char>>,
        description: Option<Seq<char>>,
        note: Option<Seq<char>>,
    },
    Paged { pages: Seq<PageV> },
    Listed { list: Seq<NodeV> },
}

impl View for EntityRecord {
    type V = RecordV;

    open spec fn view(&self) -> RecordV {
        match self {
            EntityRecord::Flat { name, nickname, description, note } => RecordV::Flat {
                name: opt_str_view(*name),
                nickname: opt_str_view(*nickname),
                description: opt_str_view(*description),
                note: opt_str_view(*note),
            },
            EntityRecord::Paged { pages } => RecordV::Paged {
                pages: pages@.map_values(|p: Page| p@),
            },
            EntityRecord::Listed { list } => RecordV::Listed {
                list: list@.map_values(|n: CommandNode| n@),
            },
        }
    }
}

pub open spec fn opt_record_view(r: Option<EntityRecord>) -> Option<RecordV> {
    match r {
        Some(rec) => Some(rec@),
        None => None,
    }
}

/// An entity collection: its file name (which the note rules of a title
/// profile key on) and a record array whose index 0 is the reserved
/// sentinel slot.
#[derive(Debug, Clone, PartialEq)]
pub struct EntityDocument {
    pub filename: String,
    pub records: Vec<Option<EntityRecord>>,
}

#[verifier::ext_equal]
pub struct EntityDocV {
    pub filename: Seq<char>,
    pub records: Seq<Option<RecordV>>,
}

impl View for EntityDocument {
    type V = EntityDocV;

    open spec fn view(&self) -> EntityDocV {
        EntityDocV {
            filename: self.filename@,
            records: self.records@.map_values(|r: Option<EntityRecord>| opt_record_view(r)),
        }
    }
}

/// The value of one group under the system document's terms map: either a
/// string array (whose entries may also be non-strings, represented as
/// None) or the nested string-valued message map.
#[derive(Debug, Clone, PartialEq)]
pub enum TermValue {
    StringList(Vec<Option<String>>),
    MessageMap(Vec<(String, String)>),
}

#[verifier::ext_equal]
pub enum TermValueV {
    StringList(Seq<Option<Seq<char>>>),
    MessageMap(Seq<(Seq<char>, Seq<char>)>),
}

impl View for TermValue {
    type V = TermValueV;

    open spec fn view(&self) -> TermValueV {
        match self {
            TermValue::StringList(v) => TermValueV::StringList(
                v@.map_values(|s: Option<String>| opt_str_view(s)),
            ),
            TermValue::MessageMap(v) => TermValueV::MessageMap(
                v@.map_values(|p: (String, String)| (p.0@, p.1@)),
            ),
        }
    }
}

/// One keyed group of the terms map.
#[derive(Debug, Clone, PartialEq)]
pub struct TermGroup {
    pub key: String,
    pub value: TermValue,
}

#[verifier::ext_equal]
pub struct TermGroupV {
    pub key: Seq<char>,
    pub value: TermValueV,
}

impl View for TermGroup {
    type V = TermGroupV;

    open spec fn view(&self) -> TermGroupV {
        TermGroupV { key: self.key@, value: self.value@ }
    }
}

/// The system document: the game title, the typed vocabulary arrays and the
/// terms map.
#[derive(Debug, Clone, PartialEq)]
pub struct SystemDocument {
    pub game_title: String,
    pub armor_types: Vec<String>,
    pub elements: Vec<String>,
    pub equip_types: Vec<String>,
    pub skill_types: Vec<String>,
    pub weapon_types: Vec<String>,
    pub terms: Vec<TermGroup>,
}

#[verifier::ext_equal]
pub struct SystemDocV {
    pub game_title: Seq<char>,
    pub armor_types: Seq<Seq<char>>,
    pub elements: Seq<Seq<char>>,
    pub equip_types: Seq<Seq<char>>,
    pub skill_types: Seq<Seq<char>>,
    pub weapon_types: Seq<Seq<char>>,
    pub terms: Seq<TermGroupV>,
}

impl View for SystemDocument {
    type V = SystemDocV;

    open spec fn view(&self) -> SystemDocV {
        SystemDocV {
            game_title: self.game_title@,
            armor_types: self.armor_types@.map_values(|s: String| s@),
            elements: self.elements@.map_values(|s: String| s@),
            equip_types: self.equip_types@.map_values(|s: String| s@),
            skill_types: self.skill_types@.map_values(|s: String| s@),
            weapon_types: self.weapon_types@.map_values(|s: String| s@),
            terms: self.terms@.map_values(|g: TermGroup| g@),
        }
    }
}

/// One plugin entry: its name and its string-keyed parameter rows (a
/// non-string parameter value is represented as None and never touched).
#[derive(Debug, Clone, PartialEq)]
pub struct Plugin {
    pub name: String,
    pub parameters: Vec<(String, Option<String>)>,
}

#[verifier::ext_equal]
pub struct PluginV {
    pub name: Seq<char>,
    pub parameters: Seq<(Seq<char>, Option<Seq<char>>)>,
}

impl View for Plugin {
    type V = PluginV;

    open spec fn view(&self) -> PluginV {
        PluginV {
            name: self.name@,
            parameters: self.parameters@.map_values(
                |p: (String, Option<String>)| (p.0@, opt_str_view(p.1)),
            ),
        }
    }
}


/// Copies a vector of strings, preserving every element's characters.
pub fn clone_string_vec(v: &Vec<String>) -> (r: Vec<String>)
    ensures
        r@.map_values(|s: String| s@) == v@.map_values(|s: String| s@),
{
    let n = v.len();
    let mut r: Vec<String> = Vec::new();
    let mut i: usize = 0;
    while i < n
        invariant
            n == v@.len(),
            0 <= i <= n,
            r@.map_values(|s: String| s@) == v@.take(i as int).map_values(|s: String| s@),
        decreases n - i,
    {
        let ghost r0 = r@;
        r.push(v[i].clone());
        proof {
            assert(r@.map_values(|s: String| s@) =~= r0.map_values(|s: String| s@).push(
                v@[i as int]@,
            ));
            assert(v@.take(i as int + 1).map_values(|s: String| s@) =~= v@.take(
                i as int,
            ).map_values(|s: String| s@).push(v@[i as int]@));
        }
        i += 1;
    }
    proof {
        assert(v@.take(n as int) =~= v@);
    }
    r
}

/// Copies one parameter, preserving its view.
pub fn clone_param(p: &Param) -> (r: Param)
    ensures
        r@ == p@,
{
    match p {
        Param::Text(s) => Param::Text(s.clone()),
        Param::Choices(v) => {
            let c = clone_string_vec(v);
            Param::Choices(c)
        },
        Param::Other => Param::Other,
    }
}

/// Copies a command node, preserving its view.
pub fn clone_node(n: &CommandNode) -> (r: CommandNode)
    ensures
        r@ == n@,
{
    let m = n.parameters.len();
    let mut parameters: Vec<Param> = Vec::new();
    let mut i: usize = 0;
    while i < m
        invariant
            m == n.parameters@.len(),
            0 <= i <= m,
            parameters@.map_values(|p: Param| p@) == n.parameters@.take(i as int).map_values(
                |p: Param| p@,
            ),
        decreases m - i,
    {
        let ghost r0 = parameters@;
        let c = clone_param(&n.parameters[i]);
        parameters.push(c);
        proof {
            assert(parameters@.map_values(|p: Param| p@) =~= r0.map_values(|p: Param| p@).push(
                n.parameters@[i as int]@,
            ));
            assert(n.parameters@.take(i as int + 1).map_values(|p: Param| p@) =~= n.parameters@.take(
                i as int,
            ).map_values(|p: Param| p@).push(n.parameters@[i as int]@));
        }
        i += 1;
    }
    proof {
        assert(n.parameters@.take(m as int) =~= n.parameters@);
    }
    let r = CommandNode { code: n.code, parameters };
    proof {
        assert(r@ =~= n@);
    }
    r
}


/// Copies a vector of command nodes, preserving every node's view.
pub fn clone_node_vec(v: &Vec<CommandNode>) -> (r: Vec<CommandNode>)
    ensures
        r@.map_values(|n: CommandNode| n@) == v@.map_values(|n: CommandNode| n@),
{
    let n = v.len();
    let mut r: Vec<CommandNode> = Vec::new();
    let mut i: usize = 0;
    while i < n
        invariant
            n == v@.len(),
            0 <= i <= n,
            r@.map_values(|x: CommandNode| x@) == v@.take(i as int).map_values(
                |x: CommandNode| x@,
            ),
        decreases n - i,
    {
        let ghost r0 = r@;
        let c = clone_node(&v[i]);
        r.push(c);
        proof {
            assert(r@.map_values(|x: CommandNode| x@) =~= r0.map_values(|x: CommandNode| x@).push(
                v@[i as int]@,
            ));
            assert(v@.take(i as int + 1).map_values(|x: CommandNode| x@) =~= v@.take(
                i as int,
            ).map_values(|x: CommandNode| x@).push(v@[i as int]@));
        }
        i += 1;
    }
    proof {
        assert(v@.take(n as int) =~= v@);
    }
    r
}


/// Copies a page, preserving its view.
pub fn clone_page(p: &Page) -> (r: Page)
    ensures
        r@ == p@,
{
    let list = clone_node_vec(&p.list);
    let r = Page { list };
    proof {
        assert(r@ =~= p@);
    }
    r
}

/// Copies a vector of pages, preserving every page's view.
pub fn clone_page_vec(v: &Vec<Page>) -> (r: Vec<Page>)
    ensures
        r@.map_values(|p: Page| p@) == v@.map_values(|p: Page| p@),
{
    let n = v.len();
    let mut r: Vec<Page> = Vec::new();
    let mut i: usize = 0;
    while i < n
        invariant
            n == v@.len(),
            0 <= i <= n,
            r@.map_values(|x: Page| x@) == v@.take(i as int).map_values(|x: Page| x@),
        decreases n - i,
    {
        let ghost r0 = r@;
        let c = clone_page(&v[i]);
        r.push(c);
        proof {
            assert(r@.map_values(|x: Page| x@) =~= r0.map_values(|x: Page| x@).push(
                v@[i as int]@,
            ));
            assert(v@.take(i as int + 1).map_values(|x: Page| x@) =~= v@.take(
                i as int,
            ).map_values(|x: Page| x@).push(v@[i as int]@));
        }
        i += 1;
    }
    proof {
        assert(v@.take(n as int) =~= v@);
    }
    r
}

/// Copies an optional event slot, preserving its view.
pub fn clone_event_slot(e: &Option<Event>) -> (r: Option<Event>)
    ensures
        opt_event_view(r) == opt_event_view(*e),
{
    match e {
        Some(ev) => {
            let pages = clone_page_vec(&ev.pages);
            let c = Event { pages };
            proof {
                assert(c@ =~= ev@);
            }
            Some(c)
        },
        None => None,
    }
}

/// Copies an optional string, preserving its view.
pub fn clone_opt_string(s: &Option<String>) -> (r: Option<String>)
    ensures
        opt_str_view(r) == opt_str_view(*s),
{
    match s {
        Some(x) => Some(x.clone()),
        None => None,
    }
}

} // verus!
