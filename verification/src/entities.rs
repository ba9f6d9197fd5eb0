//! The records that the engines read and write.

use vstd::prelude::*;

verus! {

/// The whole group, within which people form crews.
#[derive(Debug, Clone, PartialEq, Eq)]
pub struct Collective {
    pub id: i64,
    pub name: Option<String>,
    pub description: Option<String>,
    pub links: Vec<Link>,
}

/// A member of the collective.
#[derive(Debug, Clone, PartialEq, Eq)]
pub struct Person {
    pub id: i64,
    pub display_name: String,
    pub about: Option<String>,
    pub avatar_id: Option<i64>,
}

/// A scheduling period. Intervals are ordered by `id`; the dates are carried
/// along and never compared.
#[derive(Debug, Clone, PartialEq, Eq)]
pub struct Interval {
    pub id: i64,
    pub start_date: String,
    pub end_date: String,
}

/// A person's standing in the collective for an interval.
#[derive(Debug, Clone, Copy, PartialEq, Eq, Structural)]
pub enum InvolvementStatus {
    Participating,
    OnHiatus,
    Exiting,
}

/// Whether a person means to take part in an interval.
#[derive(Debug, Clone, Copy, PartialEq, Eq, Structural)]
pub enum ParticipationIntention {
    OptIn,
    OptOut,
}

/// How a person who opts out steps back: for a while, or for good.
#[derive(Debug, Clone, Copy, PartialEq, Eq, Structural)]
pub enum OptOutType {
    Hiatus,
    Exit,
}

/// The status that a piece of text names, if it names one.
pub open spec fn involvement_status_named(s: Seq<char>) -> Option<InvolvementStatus> {
    if s == "Participating"@ {
        Some(InvolvementStatus::Participating)
    } else if s == "OnHiatus"@ {
        Some(InvolvementStatus::OnHiatus)
    } else if s == "Exiting"@ {
        Some(InvolvementStatus::Exiting)
    } else {
        None
    }
}

/// The participation intention that a piece of text names, if it names one.
pub open spec fn participation_intention_named(s: Seq<char>) -> Option<ParticipationIntention> {
    if s == "OptIn"@ {
        Some(ParticipationIntention::OptIn)
    } else if s == "OptOut"@ {
        Some(ParticipationIntention::OptOut)
    } else {
        None
    }
}

/// The kind of opt-out that a piece of text names, if it names one.
pub open spec fn opt_out_type_named(s: Seq<char>) -> Option<OptOutType> {
    if s == "Hiatus"@ {
        Some(OptOutType::Hiatus)
    } else if s == "Exit"@ {
        Some(OptOutType::Exit)
    } else {
        None
    }
}

impl InvolvementStatus {
    /// Reads a status from its exact name.
    pub fn from_str(s: &str) -> (res: Result<InvolvementStatus, ()>)
        ensures
            res == match involvement_status_named(s@) {
                Some(v) => Ok::<InvolvementStatus, ()>(v),
                None => Err::<InvolvementStatus, ()>(()),
            },
    {
        InvolvementStatus::try_from(s.to_owned())
    }

    /// Reads a status from its exact name, taking the text by value.
    pub fn try_from(value: String) -> (res: Result<InvolvementStatus, ()>)
        ensures
            res == match involvement_status_named(value@) {
                Some(v) => Ok::<InvolvementStatus, ()>(v),
                None => Err::<InvolvementStatus, ()>(()),
            },
    {
        if value == "Participating".to_owned() {
            Ok(InvolvementStatus::Participating)
        } else if value == "OnHiatus".to_owned() {
            Ok(InvolvementStatus::OnHiatus)
        } else if value == "Exiting".to_owned() {
            Ok(InvolvementStatus::Exiting)
        } else {
            Err(())
        }
    }
}

impl ParticipationIntention {
    /// Reads an intention from its exact name.
    pub fn from_str(s: &str) -> (res: Result<ParticipationIntention, ()>)
        ensures
            res == match participation_intention_named(s@) {
                Some(v) => Ok::<ParticipationIntention, ()>(v),
                None => Err::<ParticipationIntention, ()>(()),
            },
    {
        ParticipationIntention::try_from(s.to_owned())
    }

    /// Reads an intention from its exact name, taking the text by value.
    pub fn try_from(value: String) -> (res: Result<ParticipationIntention, ()>)
        ensures
            res == match participation_intention_named(value@) {
                Some(v) => Ok::<ParticipationIntention, ()>(v),
                None => Err::<ParticipationIntention, ()>(()),
            },
    {
        if value == "OptIn".to_owned() {
            Ok(ParticipationIntention::OptIn)
        } else if value == "OptOut".to_owned() {
            Ok(ParticipationIntention::OptOut)
        } else {
            Err(())
        }
    }
}

impl OptOutType {
    /// Reads an opt-out kind from its exact name.
    pub fn from_str(s: &str) -> (res: Result<OptOutType, ()>)
        ensures
            res == match opt_out_type_named(s@) {
                Some(v) => Ok::<OptOutType, ()>(v),
                None => Err::<OptOutType, ()>(()),
            },
    {
        OptOutType::try_from(s.to_owned())
    }

    /// Reads an opt-out kind from its exact name, taking the text by value.
    pub fn try_from(value: String) -> (res: Result<OptOutType, ()>)
        ensures
            res == match opt_out_type_named(value@) {
                Some(v) => Ok::<OptOutType, ()>(v),
                None => Err::<OptOutType, ()>(()),
            },
    {
        if value == "Hiatus".to_owned() {
            Ok(OptOutType::Hiatus)
        } else if value == "Exit".to_owned() {
            Ok(OptOutType::Exit)
        } else {
            Err(())
        }
    }
}

/// One person's membership of one crew in one interval.
///
/// The triple `(person_id, crew_id, interval_id)` is the natural key of a
/// stored row; `id` is the key that the store gave the row.
#[derive(Debug, Clone, Copy, PartialEq, Eq, Structural)]
pub struct CrewInvolvement {
    pub id: i64,
    pub person_id: i64,
    pub crew_id: i64,
    pub interval_id: i64,
    pub convenor: bool,
    pub volunteered_convenor: bool,
}

/// What a person notes about their capacity for an interval.
#[derive(Debug, Clone, PartialEq, Eq)]
pub struct CapacityPlanning {
    pub wellbeing: Option<String>,
    pub focus: Option<String>,
    pub capacity: Option<String>,
}

/// One person's standing in a collective for one interval.
#[derive(Debug, Clone, PartialEq, Eq)]
pub struct CollectiveInvolvement {
    pub id: i64,
    pub person_id: i64,
    pub collective_id: i64,
    pub interval_id: i64,
    pub status: InvolvementStatus,
    pub private_capacity_planning: bool,
    pub capacity_planning: Option<CapacityPlanning>,
    pub capacity_score: Option<i64>,
    pub participation_intention: Option<ParticipationIntention>,
    pub opt_out_type: Option<OptOutType>,
    pub opt_out_planned_return_date: Option<String>,
    pub intention_context: Option<String>,
}

/// A sub-team of the collective that people join interval by interval.
#[derive(Debug, Clone, PartialEq, Eq)]
pub struct Crew {
    pub id: i64,
    pub name: String,
    pub description: Option<String>,
}

/// A link that a crew or a collective shows.
#[derive(Debug, Clone, PartialEq, Eq)]
pub struct Link {
    pub link_type: String,
    pub url: String,
    pub label: Option<String>,
}

/// A stored link together with the entity that owns it. The owner is a
/// back-reference: an id and the kind of entity the id belongs to.
#[derive(Debug, Clone, PartialEq, Eq)]
pub struct LinkWithOwner {
    pub id: i64,
    pub link_type: String,
    pub url: String,
    pub label: Option<String>,
    pub owner_id: i64,
    pub owner_type: String,
}

impl LinkWithOwner {
    /// The link as its owner shows it.
    pub open spec fn link(self) -> Link {
        Link { link_type: self.link_type, url: self.url, label: self.label }
    }

    /// Drops the owner reference and the row id, keeping the link itself.
    pub fn strip_owner(self) -> (res: Link)
        ensures
            res == self.link(),
    {
        Link { link_type: self.link_type, url: self.url, label: self.label }
    }
}

/// A crew together with its links.
#[derive(Debug, Clone, PartialEq, Eq)]
pub struct CrewWithLinks {
    pub id: i64,
    pub name: String,
    pub description: Option<String>,
    pub links: Option<Vec<Link>>,
}

} // verus!
