//! Tournament organisers and the brackets they run

use crate::bracket::Id as BracketId;
use std::collections::{HashMap, HashSet};
use vstd::prelude::*;

verus! {

broadcast use vstd::std_specs::hash::group_hash_axioms;

/// Organiser identifier
pub type Id = crate::ID;

/// Identifier of a discussion channel of the service where brackets run
pub type DiscussionChannelId = crate::ID;

/// Bracket running in each discussion channel
pub type ActiveBrackets = HashMap<DiscussionChannelId, BracketId>;

/// Brackets where players have finished playing
pub type FinalizedBrackets = HashSet<BracketId>;

/// Organiser of events
#[derive(Debug, Default)]
pub struct Organiser {
    /// Active brackets from organiser
    active_brackets: ActiveBrackets,
    /// Finalized brackets from organiser
    finalized_brackets: FinalizedBrackets,
    /// Identifier of organiser
    organiser_id: Id,
    /// Name of the organiser
    organiser_name: String,
}

/// Mathematical model of an organiser
pub struct OrganiserView {
    /// Bracket running in each discussion channel
    pub active_brackets: Map<DiscussionChannelId, BracketId>,
    /// Finished brackets
    pub finalized_brackets: Set<BracketId>,
    /// Identifier
    pub id: Id,
    /// Name
    pub name: Seq<char>,
}

impl View for Organiser {
    type V = OrganiserView;

    closed spec fn view(&self) -> OrganiserView {
        OrganiserView {
            active_brackets: self.active_brackets@,
            finalized_brackets: self.finalized_brackets@,
            id: self.organiser_id,
            name: self.organiser_name@,
        }
    }
}

/// Copy of a set of brackets, through `Clone` of `std::collections::HashSet`,
/// which gives a set with the same elements
#[verifier::external_body]
fn copy_brackets(brackets: &FinalizedBrackets) -> (res: FinalizedBrackets)
    ensures
        res@ == brackets@,
{
    brackets.clone()
}

impl Organiser {
    /// Create new organiser of events, with a fresh random identifier
    ///
    /// # Errors
    /// thrown when no random identifier can be drawn
    pub fn new(organiser_name: String, active_brackets: Option<ActiveBrackets>) -> (res: Result<
        Self,
        crate::ids::RandomIdError,
    >)
        ensures
            res matches Ok(o) ==> {
                &&& o@.name == organiser_name@
                &&& o@.active_brackets == (match active_brackets {
                    Some(a) => a@,
                    None => Map::<DiscussionChannelId, BracketId>::empty(),
                })
                &&& o@.finalized_brackets == Set::<BracketId>::empty()
            },
    {
        let organiser_id = crate::ids::new_random_id()?;
        let active_brackets = match active_brackets {
            Some(a) => a,
            None => HashMap::new(),
        };
        Ok(
            Self {
                organiser_id,
                organiser_name,
                active_brackets,
                finalized_brackets: HashSet::new(),
            },
        )
    }

    /// Create organiser from values
    #[must_use]
    pub fn from(
        active_brackets: ActiveBrackets,
        finalized_brackets: FinalizedBrackets,
        organiser_id: Id,
        organiser_name: String,
    ) -> (res: Self)
        ensures
            res@ == (OrganiserView {
                active_brackets: active_brackets@,
                finalized_brackets: finalized_brackets@,
                id: organiser_id,
                name: organiser_name@,
            }),
    {
        Self { active_brackets, finalized_brackets, organiser_id, organiser_name }
    }

    /// Get identifier of organiser
    #[must_use]
    pub fn get_id(&self) -> (res: Id)
        ensures
            res == self@.id,
    {
        self.organiser_id
    }

    /// Get name of organiser
    #[must_use]
    pub fn get_organiser_name(&self) -> (res: String)
        ensures
            res@ == self@.name,
    {
        self.organiser_name.clone()
    }

    /// Get active brackets
    #[must_use]
    pub fn get_active_brackets(&self) -> (res: ActiveBrackets)
        ensures
            res@ == self@.active_brackets,
    {
        self.active_brackets.clone()
    }

    /// Get finalized brackets
    #[must_use]
    pub fn get_finalized_brackets(&self) -> (res: FinalizedBrackets)
        ensures
            res@ == self@.finalized_brackets,
    {
        copy_brackets(&self.finalized_brackets)
    }

    /// Set active bracket in discussion channel for organiser, in place of
    /// the one running there if any. Returns updated organiser
    #[must_use]
    pub fn add_active_bracket(self, discussion_channel_id: DiscussionChannelId, bracket_id: BracketId) -> (res:
        Self)
        ensures
            res@ == (OrganiserView {
                active_brackets: self@.active_brackets.insert(discussion_channel_id, bracket_id),
                ..self@
            }),
    {
        let mut updated_organiser = self;
        updated_organiser.active_brackets.insert(discussion_channel_id, bracket_id);
        updated_organiser
    }
}

/// Request to create an organiser
#[derive(Debug)]
pub struct POSTRequest {
    /// Name of the organiser to create
    pub organiser_name: String,
}

/// Organiser as sent in answer to a query
#[derive(Debug)]
pub struct GETResponse {
    /// Identifier of the organiser
    pub organiser_id: Id,
    /// Name of the organiser
    pub organiser_name: String,
    /// Active bracket managed by this organiser
    pub active_brackets: ActiveBrackets,
    /// Finalized bracket from this organiser
    pub finalized_brackets: FinalizedBrackets,
}

impl GETResponse {
    /// Answer describing organiser `o`
    pub fn from(o: Organiser) -> (res: Self)
        ensures
            res.organiser_id == o@.id,
            res.organiser_name@ == o@.name,
            res.active_brackets@ == o@.active_brackets,
            res.finalized_brackets@ == o@.finalized_brackets,
    {
        Self {
            organiser_id: o.get_id(),
            organiser_name: o.get_organiser_name(),
            active_brackets: o.get_active_brackets(),
            finalized_brackets: o.get_finalized_brackets(),
        }
    }
}

} // verus!
