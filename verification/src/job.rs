//! A job: a unit of work posted by a client, keyed by a system-generated
//! identifier, created open and with no freelancer assigned.

use vstd::prelude::*;

verus! {

/// A job's lifecycle stage. Every job is created [`JobStatus::Open`]; no
/// operation in scope transitions it, though the later stages are declared
/// for a fuller system.
#[derive(Clone, Copy, PartialEq, Eq, Structural, Debug)]
pub enum JobStatus {
    /// Posted and not yet assigned: the only stage any operation reaches.
    Open,
    /// Taken by a freelancer.
    Assigned,
    /// Finished work.
    Completed,
    /// Contested work.
    Disputed,
}

/// A unit of work posted by a client.
pub struct Job {
    /// The system-generated identifier, the board's key.
    pub id: String,
    /// Free-form title.
    pub title: String,
    /// Free-form description.
    pub description: String,
    /// Non-negative amount offered.
    pub budget: u32,
    /// The posting party's identifier; not checked against the user registry.
    pub client: String,
    /// The assigned party, absent in scope: no operation sets it.
    pub freelancer: Option<String>,
    /// The lifecycle stage.
    pub status: JobStatus,
}

/// The mathematical value of a [`Job`].
pub ghost struct JobV {
    /// The identifier's characters.
    pub id: Seq<char>,
    /// The title's characters.
    pub title: Seq<char>,
    /// The description's characters.
    pub description: Seq<char>,
    /// The amount offered.
    pub budget: u32,
    /// The posting party's identifier.
    pub client: Seq<char>,
    /// The assigned party, if any.
    pub freelancer: Option<Seq<char>>,
    /// The lifecycle stage.
    pub status: JobStatus,
}

impl View for Job {
    type V = JobV;

    open spec fn view(&self) -> JobV {
        JobV {
            id: self.id@,
            title: self.title@,
            description: self.description@,
            budget: self.budget,
            client: self.client@,
            freelancer: match self.freelancer {
                Some(f) => Some(f@),
                None => None,
            },
            status: self.status,
        }
    }
}

impl Clone for Job {
    /// A clone carries the same value.
    fn clone(&self) -> (r: Self)
        ensures
            r == *self,
    {
        Job {
            id: self.id.clone(),
            title: self.title.clone(),
            description: self.description.clone(),
            budget: self.budget,
            client: self.client.clone(),
            freelancer: match &self.freelancer {
                Some(f) => Some(f.clone()),
                None => None,
            },
            status: self.status,
        }
    }
}

} // verus!
