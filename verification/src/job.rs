//! Job numbers, and what the shell keeps of a job.

use std::num::ParseIntError;
use std::str::FromStr;
use vstd::prelude::*;
use crate::number::{
    decimal, law_decimal_reads_back, parse_usize, push_decimal, unsigned_number, usize_error,
};
use crate::process::Pid;

verus! {

/// The process group of a job and the command line it was started with.
#[derive(Debug)]
pub struct JobInfo {
    pub pgid: Pid,
    pub command: String,
}

impl Clone for JobInfo {
    fn clone(&self) -> (r: Self)
        ensures
            r == *self,
    {
        JobInfo { pgid: self.pgid, command: self.command.clone() }
    }
}

/// The number of a job.
#[derive(Debug, Clone, Copy, PartialEq, Eq, PartialOrd, Ord, Hash, Structural)]
pub struct JobId(usize);

impl JobId {
    /// The number itself.
    pub closed spec fn id(self) -> usize {
        self.0
    }

    /// The job number `id`.
    pub closed spec fn of(id: usize) -> JobId {
        JobId(id)
    }

    /// The number in decimal.
    pub fn to_string(&self) -> (r: String)
        ensures
            r@ == decimal(self.id() as nat),
    {
        let mut r = String::new();
        push_decimal(&mut r, self.0 as u64);
        r
    }
}

impl FromStr for JobId {
    type Err = ParseIntError;

    fn from_str(s: &str) -> (r: Result<Self, ParseIntError>)
        ensures
            match r {
                Ok(v) => unsigned_number(s@) == Some(v.id() as int),
                Err(e) => {
                    &&& unsigned_number(s@) matches Some(n) ==> n > usize::MAX
                    &&& e == usize_error(s@)
                },
            },
    {
        match parse_usize(s) {
            Ok(id) => Ok(JobId(id)),
            Err(e) => Err(e),
        }
    }
}

impl Into<usize> for JobId {
    fn into(self) -> usize {
        self.0
    }
}

impl vstd::std_specs::convert::IntoSpecImpl<usize> for JobId {
    open spec fn obeys_into_spec() -> bool {
        true
    }

    open spec fn into_spec(self) -> usize {
        self.id()
    }
}

impl From<usize> for JobId {
    fn from(id: usize) -> (r: Self)
        ensures
            r.id() == id,
    {
        JobId(id)
    }
}

impl vstd::std_specs::convert::FromSpecImpl<usize> for JobId {
    open spec fn obeys_from_spec() -> bool {
        true
    }

    open spec fn from_spec(id: usize) -> JobId {
        JobId::of(id)
    }
}

/// A job number made from `id` gives `id` back.
pub proof fn law_job_id_round_trip(id: usize)
    ensures
        JobId::of(id).id() == id,
{
}

/// Two job numbers with the same number are the same.
pub proof fn law_job_id_by_number(a: JobId, b: JobId)
    requires
        a.id() == b.id(),
    ensures
        a == b,
{
}

/// The text of a job number reads back as that number.
pub proof fn law_job_id_text_reads_back(id: JobId)
    ensures
        unsigned_number(decimal(id.id() as nat)) == Some(id.id() as int),
{
    law_decimal_reads_back(id.id() as nat);
}

} // verus!
