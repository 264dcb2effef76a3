//! The `/client pet` chat command: what its arguments ask for, and which
//! entity a `copy` names.

use vstd::prelude::*;
use crate::text::{
    has_substring, joined, str_contains, texts, to_lowercase, trim, trimmed, unicode_lowercase,
};

verus! {

/// Entity id of the local player.
pub const ENTITY_SELF_ID: u8 = 255;

/// The first candidate at or after `i` whose model renders something.
pub open spec fn first_renderable_from(candidates: Seq<(u8, bool)>, i: int) -> Option<u8>
    decreases candidates.len() - i,
{
    if i < 0 || i >= candidates.len() {
        None
    } else if !candidates[i].1 {
        Some(candidates[i].0)
    } else {
        first_renderable_from(candidates, i + 1)
    }
}

/// The pick among name-matched `(id, renders_nothing)` candidates: the first
/// that renders something, else the first candidate, else nothing.
pub open spec fn picked(candidates: Seq<(u8, bool)>) -> Option<u8> {
    match first_renderable_from(candidates, 0) {
        Some(id) => Some(id),
        None => if candidates.len() > 0 {
            Some(candidates[0].0)
        } else {
            None
        },
    }
}

/// From name-matched candidates `(id, renders_nothing)` in scan order, pick the
/// first that renders something. Falls back to the first candidate if every
/// match is invisible, so the caller's "invisible model" error still names a
/// real entity.
pub fn pick_match(candidates: &[(u8, bool)]) -> (r: Option<u8>)
    ensures
        r == picked(candidates@),
{
    let mut i: usize = 0;
    while i < candidates.len()
        invariant
            i <= candidates@.len(),
            first_renderable_from(candidates@, 0) == first_renderable_from(candidates@, i as int),
        decreases candidates@.len() - i,
    {
        let (id, nothing) = candidates[i];
        if !nothing {
            return Some(id);
        }
        i = i + 1;
    }
    if candidates.len() > 0 {
        Some(candidates[0].0)
    } else {
        None
    }
}

/// `query` names `candidate`: case-folded on both sides, the candidate
/// contains the query.
pub open spec fn names_match(candidate: Seq<char>, query: Seq<char>) -> bool {
    has_substring(unicode_lowercase(candidate), unicode_lowercase(query))
}

/// True if `candidate` contains `query`, case-folded on both sides. Both
/// names come with their `&`-colour codes already stripped.
pub fn stripped_names_match(candidate: &str, query: &str) -> (r: bool)
    ensures
        r == names_match(candidate@, query@),
{
    let c = to_lowercase(candidate);
    let q = to_lowercase(query);
    str_contains(c.as_str(), q.as_str())
}

/// A live entity of the current map, as the name search sees it.
pub struct EntityInfo {
    /// The entity's id (0..=255).
    pub id: u8,
    /// The entity's display name with colour codes stripped.
    pub name: String,
    /// The entity's model draws nothing (e.g. a bot whose model name was not
    /// yet registered when it spawned).
    pub renders_nothing: bool,
}

/// ClassiCube's `BLOCK_AIR`.
pub const BLOCK_AIR: u16 = 0;

/// An entity whose model is `model_name` showing block `model_block` draws
/// nothing: it is the shared `block` model showing air, which is what
/// ClassiCube falls back to for some model names it does not know yet.
pub open spec fn renders_nothing(model_name: Seq<char>, model_block: u16) -> bool {
    model_name == seq!['b', 'l', 'o', 'c', 'k'] && model_block == BLOCK_AIR
}

/// Whether an entity with model `model_name` showing block `model_block`
/// draws nothing.
pub fn model_renders_nothing(model_name: &str, model_block: u16) -> (r: bool)
    ensures
        r == renders_nothing(model_name@, model_block),
{
    proof {
        reveal_strlit("block");
        assert("block"@ =~= seq!['b', 'l', 'o', 'c', 'k']);
    }
    model_block == BLOCK_AIR && crate::text::str_eq(model_name, "block")
}

/// The name-matched candidates among `entities`, in scan order.
pub open spec fn matching_candidates(entities: Seq<EntityInfo>, query: Seq<char>) -> Seq<
    (u8, bool),
>
    decreases entities.len(),
{
    if entities.len() == 0 {
        Seq::empty()
    } else {
        let rest = matching_candidates(entities.drop_last(), query);
        let e = entities.last();
        if names_match(e.name@, query) {
            rest.push((e.id, e.renders_nothing))
        } else {
            rest
        }
    }
}

/// Return the id of the best entity among `entities` (the live entities of
/// the current map in id order) whose display name matches `query`
/// (case-insensitive substring, colour codes already stripped). Prefers a
/// renderable entity over one whose model draws nothing.
pub fn find_entity_by_name(entities: &Vec<EntityInfo>, query: &str) -> (r: Option<u8>)
    ensures
        r == picked(matching_candidates(entities@, query@)),
{
    let mut candidates: Vec<(u8, bool)> = Vec::new();
    let mut i: usize = 0;
    while i < entities.len()
        invariant
            i <= entities@.len(),
            candidates@ == matching_candidates(entities@.take(i as int), query@),
        decreases entities@.len() - i,
    {
        let e = &entities[i];
        assert(entities@.take(i + 1).drop_last() =~= entities@.take(i as int));
        assert(entities@.take(i + 1).last() == entities@[i as int]);
        if stripped_names_match(e.name.as_str(), query) {
            candidates.push((e.id, e.renders_nothing));
        }
        i = i + 1;
    }
    assert(entities@.take(entities@.len() as int) =~= entities@);
    pick_match(candidates.as_slice())
}

/// What a `/client pet ...` invocation asks for.
pub enum PetCommand {
    /// `here`: bring the pet to the player.
    Here,
    /// `copy [name]`: copy a model to the pet; `None` copies the player's own.
    Copy { query: Option<String> },
    /// `go`: walk the pet to the player.
    Go,
    /// Anything else: print usage.
    Usage,
}

/// The copy query of `args`: the arguments after the first, joined by
/// spaces and trimmed.
pub open spec fn copy_query(args: Seq<String>) -> Seq<char> {
    trimmed(joined(texts(args.skip(1)), seq![' ']))
}

/// What `args` (the command's arguments) ask for.
pub open spec fn command_of(args: Seq<String>) -> PetCommandView {
    if args.len() == 0 {
        PetCommandView::Usage
    } else if args[0]@ == seq!['h', 'e', 'r', 'e'] {
        PetCommandView::Here
    } else if args[0]@ == seq!['c', 'o', 'p', 'y'] {
        PetCommandView::Copy {
            query: if copy_query(args).len() == 0 {
                None
            } else {
                Some(copy_query(args))
            },
        }
    } else if args[0]@ == seq!['g', 'o'] {
        PetCommandView::Go
    } else {
        PetCommandView::Usage
    }
}

/// Abstract form of [`PetCommand`].
pub enum PetCommandView {
    Here,
    Copy { query: Option<Seq<char>> },
    Go,
    Usage,
}

impl View for PetCommand {
    type V = PetCommandView;

    open spec fn view(&self) -> PetCommandView {
        match self {
            PetCommand::Here => PetCommandView::Here,
            PetCommand::Copy { query } => PetCommandView::Copy {
                query: match query {
                    Some(q) => Some(q@),
                    None => None,
                },
            },
            PetCommand::Go => PetCommandView::Go,
            PetCommand::Usage => PetCommandView::Usage,
        }
    }
}

/// Read `/client pet here | copy [name] | go`.
pub fn parse_pet_command(args: &Vec<String>) -> (c: PetCommand)
    ensures
        c@ == command_of(args@),
{
    if args.len() == 0 {
        return PetCommand::Usage;
    }
    let first = args[0].as_str();
    proof {
        reveal_strlit("here");
        reveal_strlit("copy");
        reveal_strlit("go");
        reveal_strlit(" ");
        assert("here"@ =~= seq!['h', 'e', 'r', 'e']);
        assert("copy"@ =~= seq!['c', 'o', 'p', 'y']);
        assert("go"@ =~= seq!['g', 'o']);
        assert(" "@ =~= seq![' ']);
    }
    if crate::text::str_eq(first, "here") {
        PetCommand::Here
    } else if crate::text::str_eq(first, "copy") {
        let joined_args = crate::text::join_from(args, 1, " ");
        let query = trim(joined_args.as_str());
        if query.as_str().unicode_len() == 0 {
            PetCommand::Copy { query: None }
        } else {
            PetCommand::Copy { query: Some(query) }
        }
    } else if crate::text::str_eq(first, "go") {
        PetCommand::Go
    } else {
        PetCommand::Usage
    }
}

/// Which entity a `copy` takes its model from: the local player when no
/// name was given, else the best name match among `entities` (none when
/// nothing matches).
pub fn copy_target(query: &Option<String>, entities: &Vec<EntityInfo>) -> (r: Option<u8>)
    ensures
        r == match query {
            None => Some(ENTITY_SELF_ID),
            Some(q) => picked(matching_candidates(entities@, q@)),
        },
{
    match query {
        None => Some(ENTITY_SELF_ID),
        Some(q) => find_entity_by_name(entities, q.as_str()),
    }
}

proof fn lemma_first_renderable_push(s: Seq<(u8, bool)>, x: (u8, bool), i: int)
    requires
        0 <= i <= s.len(),
    ensures
        first_renderable_from(s.push(x), i) == match first_renderable_from(s, i) {
            Some(id) => Some(id),
            None => if !x.1 {
                Some(x.0)
            } else {
                None
            },
        },
    decreases s.len() - i,
{
    if i < s.len() {
        assert(s.push(x)[i] == s[i]);
        lemma_first_renderable_push(s, x, i + 1);
    } else {
        assert(s.push(x)[i] == x);
        assert(first_renderable_from(s.push(x), i + 1) is None);
    }
}

/// `e` matches the query and its model renders something.
spec fn renderable_match(e: EntityInfo, query: Seq<char>) -> bool {
    names_match(e.name@, query) && !e.renders_nothing
}

proof fn lemma_candidates(es: Seq<EntityInfo>, q: Seq<char>)
    ensures
        matching_candidates(es, q).len() == 0 <==> forall|j: int|
            0 <= j < es.len() ==> !names_match(#[trigger] es[j].name@, q),
        forall|k: int|
            0 <= k < es.len() && names_match(es[k].name@, q) && (forall|j: int|
                0 <= j < k ==> !names_match(#[trigger] es[j].name@, q)) ==> matching_candidates(
                es,
                q,
            ).len() > 0 && matching_candidates(es, q)[0] == (es[k].id, es[k].renders_nothing),
        (forall|j: int| 0 <= j < es.len() ==> !renderable_match(#[trigger] es[j], q))
            ==> first_renderable_from(matching_candidates(es, q), 0) is None,
        forall|k: int|
            0 <= k < es.len() && renderable_match(es[k], q) && (forall|j: int|
                0 <= j < k ==> !renderable_match(#[trigger] es[j], q)) ==> first_renderable_from(
                matching_candidates(es, q),
                0,
            ) == Some(es[k].id),
    decreases es.len(),
{
    if es.len() > 0 {
        let es1 = es.drop_last();
        let e = es.last();
        let n = es.len() - 1;
        lemma_candidates(es1, q);
        let c1 = matching_candidates(es1, q);
        assert forall|j: int| 0 <= j < n implies #[trigger] es1[j] == es[j] by {}
        if names_match(e.name@, q) {
            lemma_first_renderable_push(c1, (e.id, e.renders_nothing), 0);
        }
        assert(es[n] == e);
        if (forall|j: int| 0 <= j < es.len() ==> !renderable_match(#[trigger] es[j], q)) {
            assert forall|j: int| 0 <= j < es1.len() implies !renderable_match(#[trigger] es1[j], q) by {
                assert(es1[j] == es[j]);
            }
            assert(!renderable_match(es[n], q));
        }
        assert forall|k: int|
            0 <= k < es.len() && renderable_match(es[k], q) && (forall|j: int|
                0 <= j < k ==> !renderable_match(#[trigger] es[j], q)) implies first_renderable_from(
            matching_candidates(es, q),
            0,
        ) == Some(es[k].id) by {
            if k < n {
                assert(es1[k] == es[k]);
                assert forall|j: int| 0 <= j < k implies !renderable_match(#[trigger] es1[j], q) by {
                    assert(es1[j] == es[j]);
                }
            } else {
                assert forall|j: int| 0 <= j < es1.len() implies !renderable_match(
                    #[trigger] es1[j],
                    q,
                ) by {
                    assert(es1[j] == es[j]);
                }
            }
        }
        assert forall|k: int|
            0 <= k < es.len() && names_match(es[k].name@, q) && (forall|j: int|
                0 <= j < k ==> !names_match(#[trigger] es[j].name@, q)) implies matching_candidates(
            es,
            q,
        ).len() > 0 && matching_candidates(es, q)[0] == (es[k].id, es[k].renders_nothing) by {
            if k < n {
                assert(es1[k] == es[k]);
                assert forall|j: int| 0 <= j < k implies !names_match(#[trigger] es1[j].name@, q) by {
                    assert(es1[j] == es[j]);
                }
            } else {
                assert forall|j: int| 0 <= j < es1.len() implies !names_match(
                    #[trigger] es1[j].name@,
                    q,
                ) by {
                    assert(es1[j] == es[j]);
                }
            }
        }
        if matching_candidates(es, q).len() == 0 {
            assert forall|j: int| 0 <= j < es.len() implies !names_match(#[trigger] es[j].name@, q) by {
                if j < n {
                    assert(es1[j] == es[j]);
                }
            }
        }
        if (forall|j: int| 0 <= j < es.len() ==> !names_match(#[trigger] es[j].name@, q)) {
            assert forall|j: int| 0 <= j < es1.len() implies !names_match(#[trigger] es1[j].name@, q) by {
                assert(es1[j] == es[j]);
            }
            assert(!names_match(es[n].name@, q));
        }
    }
}

/// Which entity a name search picks, in terms of the entities alone: every
/// entity whose name matches (whatever its id, the local player's
/// included) is considered. The first matching entity whose model renders
/// something wins; when every match renders nothing, the first match wins;
/// and the search finds nothing only when no name matches.
pub proof fn law_name_search_picks_first_match(entities: Seq<EntityInfo>, query: Seq<char>)
    ensures
        (forall|j: int| 0 <= j < entities.len() ==> !names_match(#[trigger] entities[j].name@, query))
            ==> picked(matching_candidates(entities, query)) is None,
        forall|k: int|
            0 <= k < entities.len() && names_match(entities[k].name@, query)
                && !entities[k].renders_nothing && (forall|j: int|
                0 <= j < k ==> !(names_match(#[trigger] entities[j].name@, query)
                    && !entities[j].renders_nothing)) ==> picked(
                matching_candidates(entities, query),
            ) == Some(entities[k].id),
        forall|k: int|
            0 <= k < entities.len() && names_match(entities[k].name@, query) && (forall|j: int|
                0 <= j < k ==> !names_match(#[trigger] entities[j].name@, query)) && (forall|j: int|
                0 <= j < entities.len() && names_match(entities[j].name@, query)
                    ==> #[trigger] entities[j].renders_nothing) ==> picked(
                matching_candidates(entities, query),
            ) == Some(entities[k].id),
{
    lemma_candidates(entities, query);
    assert forall|k: int|
        0 <= k < entities.len() && names_match(entities[k].name@, query)
            && !entities[k].renders_nothing && (forall|j: int|
            0 <= j < k ==> !(names_match(#[trigger] entities[j].name@, query)
                && !entities[j].renders_nothing)) implies picked(
        matching_candidates(entities, query),
    ) == Some(entities[k].id) by {
        assert(renderable_match(entities[k], query));
        assert forall|j: int| 0 <= j < k implies !renderable_match(#[trigger] entities[j], query) by {
            assert(!(names_match(entities[j].name@, query) && !entities[j].renders_nothing));
        }
    }
    if (forall|j: int|
        0 <= j < entities.len() && names_match(entities[j].name@, query)
            ==> #[trigger] entities[j].renders_nothing) {
        assert forall|j: int| 0 <= j < entities.len() implies !renderable_match(
            #[trigger] entities[j],
            query,
        ) by {}
    }
}

} // verus!
