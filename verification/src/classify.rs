//! The command classifier: maps a node's numeric code and its document
//! family to a semantic category, and carries the per-title override rules
//! as a strategy table. Adding support for a new title means registering
//! one more profile in the table, not growing a central conditional.

use vstd::prelude::*;

use crate::text::{
    contains_sub, ends_with_str, spec_ends_with, spec_has_sub_at, spec_starts_with,
    starts_with_str,
};

verus! {

/// The semantic category of a command node.
#[derive(Debug, Clone, PartialEq)]
pub enum Category {
    Dialogue,
    Choice,
    SystemText,
    Credits,
    Unrecognized,
}

/// The schema family whose code table applies: map documents accept a
/// slightly smaller code set than the entity collections, which also carry
/// credits lines.
#[derive(Debug, Clone, PartialEq)]
pub enum DocKind {
    MapFamily,
    EntityFamily,
}

/// The classification table. Every code not listed is Unrecognized and is
/// always skipped.
pub open spec fn spec_classify(code: u64, kind: DocKind) -> Category {
    if code == 401 {
        Category::Dialogue
    } else if code == 405 {
        match kind {
            DocKind::EntityFamily => Category::Credits,
            DocKind::MapFamily => Category::Unrecognized,
        }
    } else if code == 102 || code == 402 {
        Category::Choice
    } else if code == 356 || code == 324 {
        Category::SystemText
    } else {
        Category::Unrecognized
    }
}

/// Which parameter slot carries the text payload: one system-line code
/// keeps its text in the second slot, every other recognized code in the
/// first.
pub open spec fn spec_payload_index(code: u64) -> int {
    if code == 324 {
        1
    } else {
        0
    }
}

pub fn classify(code: u64, kind: &DocKind) -> (r: Category)
    ensures
        r == spec_classify(code, *kind),
{
    if code == 401 {
        Category::Dialogue
    } else if code == 405 {
        match kind {
            DocKind::EntityFamily => Category::Credits,
            DocKind::MapFamily => Category::Unrecognized,
        }
    } else if code == 102 || code == 402 {
        Category::Choice
    } else if code == 356 || code == 324 {
        Category::SystemText
    } else {
        Category::Unrecognized
    }
}

pub fn payload_index(code: u64) -> (r: usize)
    ensures
        r == spec_payload_index(code),
{
    if code == 324 {
        1
    } else {
        0
    }
}

/// A node's category merges into a run exactly when it is dialogue or
/// credits.
pub open spec fn spec_mergeable(c: Category) -> bool {
    c is Dialogue || c is Credits
}

/// One acceptance pattern for system text: the string must carry the
/// prefix, and must not carry the forbidden suffix when one is given.
pub struct PrefixRule {
    pub prefix: String,
    pub forbid_suffix: Option<String>,
}

pub open spec fn spec_rule_accepts(r: PrefixRule, s: Seq<char>) -> bool {
    spec_starts_with(s, r.prefix@) && match r.forbid_suffix {
        Some(f) => !spec_ends_with(s, f@),
        None => true,
    }
}

/// What a title profile does with a note attribute of a matching entity
/// file: extract or replace one of the listed marker strings, take the
/// whole field, or take the whole field unless it starts with the given
/// prefix.
pub enum NoteAction {
    ExtractMarkers(Vec<String>),
    WholeField,
    WholeUnlessPrefix(String),
}

/// Pairs an entity file name prefix with the note action that applies
/// there; the first matching rule decides, and a file no rule matches has
/// its notes skipped.
pub struct NoteRule {
    pub file_prefix: String,
    pub action: NoteAction,
}

/// The per-title override of classification and extraction rules. When no
/// profile matches a game, default acceptance applies with no filtering.
pub struct TitleProfile {
    /// The profile applies when the lowercased game title holds this key.
    pub title_key: String,
    /// System text is accepted only when one of these patterns matches.
    pub system_rules: Vec<PrefixRule>,
    /// The note rules, tried in order against the entity file name.
    pub note_rules: Vec<NoteRule>,
}

/// Whether a system-text string passes the active profile; with no profile
/// everything passes.
pub open spec fn spec_system_accepts(p: Option<TitleProfile>, s: Seq<char>) -> bool {
    match p {
        None => true,
        Some(prof) => exists|i: int|
            0 <= i < prof.system_rules@.len() && spec_rule_accepts(
                #[trigger] prof.system_rules@[i],
                s,
            ),
    }
}

pub fn system_accepts(p: &Option<TitleProfile>, s: &str) -> (r: bool)
    ensures
        r == spec_system_accepts(*p, s@),
{
    if p.is_none() {
        return true;
    }
    let prof = p.as_ref().unwrap();
    proof {
        assert(*p is Some && (*p)->0 == *prof);
    }
    {
        {
            let n = prof.system_rules.len();
            let mut i: usize = 0;
            while i < n
                invariant
                    *p is Some && (*p)->0 == *prof,
                    n == prof.system_rules@.len(),
                    0 <= i <= n,
                    forall|j: int|
                        0 <= j < i ==> !spec_rule_accepts(#[trigger] prof.system_rules@[j], s@),
                decreases n - i,
            {
                let rule = &prof.system_rules[i];
                let pref_ok = starts_with_str(s, rule.prefix.as_str());
                let suff_ok = match &rule.forbid_suffix {
                    Some(f) => !ends_with_str(s, f.as_str()),
                    None => true,
                };
                if pref_ok && suff_ok {
                    proof {
                        assert(spec_rule_accepts((*p)->0.system_rules@[i as int], s@));
                    }
                    return true;
                }
                i += 1;
            }
            false
        }
    }
}

/// The index of the first note rule whose file prefix matches, if any.
pub open spec fn spec_note_rule_index(p: TitleProfile, filename: Seq<char>) -> Option<int>
    decreases p.note_rules@.len(),
{
    spec_note_rule_index_from(p.note_rules@, filename, 0)
}

pub open spec fn spec_note_rule_index_from(
    rules: Seq<NoteRule>,
    filename: Seq<char>,
    i: int,
) -> Option<int>
    decreases rules.len() - i,
{
    if i < 0 || i >= rules.len() {
        None
    } else if spec_starts_with(filename, rules[i].file_prefix@) {
        Some(i)
    } else {
        spec_note_rule_index_from(rules, filename, i + 1)
    }
}

/// Finds the first note rule of the profile that applies to this entity
/// file name.
pub fn note_rule_index(p: &TitleProfile, filename: &str) -> (r: Option<usize>)
    ensures
        match r {
            Some(i) => i < p.note_rules@.len() && Some(i as int) == spec_note_rule_index(
                *p,
                filename@,
            ),
            None => spec_note_rule_index(*p, filename@) is None,
        },
{
    let n = p.note_rules.len();
    let mut i: usize = 0;
    while i < n
        invariant
            n == p.note_rules@.len(),
            0 <= i <= n,
            spec_note_rule_index(*p, filename@) == spec_note_rule_index_from(
                p.note_rules@,
                filename@,
                i as int,
            ),
        decreases n - i,
    {
        if starts_with_str(filename, p.note_rules[i].file_prefix.as_str()) {
            return Some(i);
        }
        i += 1;
    }
    None
}


/// The lowercased form of a game title, as the standard library computes
/// it. The result depends on the characters alone.
pub uninterp spec fn lower_of(s: Seq<char>) -> Seq<char>;

/// Relies on str::to_lowercase: the lowercase mapping of the string,
/// depending on its characters alone.
#[verifier::external_body]
fn to_lowercase(s: &str) -> (r: String)
    ensures
        r@ == lower_of(s@),
{
    s.to_lowercase()
}

/// The index of the first profile whose title key occurs in the lowercased
/// game title, if any.
pub open spec fn spec_detect_from(
    profiles: Seq<TitleProfile>,
    lowered: Seq<char>,
    i: int,
) -> Option<int>
    decreases profiles.len() - i,
{
    if i < 0 || i >= profiles.len() {
        None
    } else if exists|k: int| spec_has_sub_at(lowered, profiles[i].title_key@, k) {
        Some(i)
    } else {
        spec_detect_from(profiles, lowered, i + 1)
    }
}

/// Finds the first profile of the table whose title key occurs in the
/// lowercased game title; with no match, default rules apply and no
/// profile is used.
pub fn detect_profile(game_title: &str, profiles: &Vec<TitleProfile>) -> (r: Option<usize>)
    ensures
        match r {
            Some(i) => Some(i as int) == spec_detect_from(profiles@, lower_of(game_title@), 0),
            None => spec_detect_from(profiles@, lower_of(game_title@), 0) is None,
        },
{
    let lowered = to_lowercase(game_title);
    let n = profiles.len();
    let mut i: usize = 0;
    while i < n
        invariant
            n == profiles@.len(),
            0 <= i <= n,
            lowered@ == lower_of(game_title@),
            spec_detect_from(profiles@, lower_of(game_title@), 0) == spec_detect_from(
                profiles@,
                lower_of(game_title@),
                i as int,
            ),
        decreases n - i,
    {
        if contains_sub(lowered.as_str(), profiles[i].title_key.as_str()) {
            return Some(i);
        }
        i += 1;
    }
    None
}

/// Exactly the profile the table registers for the one built-in title:
/// every rule of it, field by field.
pub open spec fn spec_is_termina_profile(p: TitleProfile) -> bool {
    &&& p.title_key@ == "termina"@
    &&& p.system_rules@.len() == 2
    &&& p.system_rules@[0].prefix@ == "GabText"@
    &&& p.system_rules@[0].forbid_suffix is None
    &&& p.system_rules@[1].prefix@ == "choice_text"@
    &&& p.system_rules@[1].forbid_suffix is Some
    &&& p.system_rules@[1].forbid_suffix->0@ == "????"@
    &&& p.note_rules@.len() == 5
    &&& p.note_rules@[0].file_prefix@ == "Common"@
    &&& p.note_rules@[0].action is WholeField
    &&& p.note_rules@[1].file_prefix@ == "Troops"@
    &&& p.note_rules@[1].action is WholeField
    &&& p.note_rules@[2].file_prefix@ == "Items"@
    &&& p.note_rules@[2].action is ExtractMarkers
    &&& p.note_rules@[2].action->ExtractMarkers_0@.len() == 4
    &&& p.note_rules@[2].action->ExtractMarkers_0@[0]@ == "<Menu Category: Items>"@
    &&& p.note_rules@[2].action->ExtractMarkers_0@[1]@ == "<Menu Category: Food>"@
    &&& p.note_rules@[2].action->ExtractMarkers_0@[2]@ == "<Menu Category: Healing>"@
    &&& p.note_rules@[2].action->ExtractMarkers_0@[3]@ == "<Menu Category: Body bag>"@
    &&& p.note_rules@[3].file_prefix@ == "Classes"@
    &&& p.note_rules@[3].action is WholeField
    &&& p.note_rules@[4].file_prefix@ == "Armors"@
    &&& p.note_rules@[4].action is WholeUnlessPrefix
    &&& p.note_rules@[4].action->WholeUnlessPrefix_0@ == "///"@
}

/// The built-in profile table. New titles are registered by appending a
/// profile here; the table's fallback (no entry matching) is the default
/// behaviour with no extra filtering.
pub fn builtin_profiles() -> (r: Vec<TitleProfile>)
    ensures
        r@.len() == 1,
        spec_is_termina_profile(r@[0]),
{
    let mut r: Vec<TitleProfile> = Vec::new();
    r.push(termina_profile());
    r
}

/// The profile for the one title with built-in custom rules: system text
/// must look like a gab line or an unfinished choice line, and note
/// attributes are taken whole, by marker, or not at all depending on the
/// entity file.
pub fn termina_profile() -> (r: TitleProfile)
    ensures
        spec_is_termina_profile(r),
{
    let mut system_rules: Vec<PrefixRule> = Vec::new();
    system_rules.push(PrefixRule { prefix: "GabText".to_owned(), forbid_suffix: None });
    system_rules.push(
        PrefixRule { prefix: "choice_text".to_owned(), forbid_suffix: Some("????".to_owned()) },
    );
    let mut markers: Vec<String> = Vec::new();
    markers.push("<Menu Category: Items>".to_owned());
    markers.push("<Menu Category: Food>".to_owned());
    markers.push("<Menu Category: Healing>".to_owned());
    markers.push("<Menu Category: Body bag>".to_owned());
    let mut note_rules: Vec<NoteRule> = Vec::new();
    note_rules.push(NoteRule { file_prefix: "Common".to_owned(), action: NoteAction::WholeField });
    note_rules.push(NoteRule { file_prefix: "Troops".to_owned(), action: NoteAction::WholeField });
    note_rules.push(
        NoteRule { file_prefix: "Items".to_owned(), action: NoteAction::ExtractMarkers(markers) },
    );
    note_rules.push(NoteRule { file_prefix: "Classes".to_owned(), action: NoteAction::WholeField });
    note_rules.push(
        NoteRule {
            file_prefix: "Armors".to_owned(),
            action: NoteAction::WholeUnlessPrefix("///".to_owned()),
        },
    );
    TitleProfile { title_key: "termina".to_owned(), system_rules, note_rules }
}

} // verus!
