//! The competency actor: the single-writer, per-id owner of an ordered
//! rating sequence. The runtime that guarantees one live instance per id is
//! outside; this module holds the state and the request handler that the
//! instance runs, so every transition it can make is pinned down here.

use vstd::prelude::*;

use crate::model::{spec_placeholder_record, placeholder_record, CompetencyRating};

verus! {

/// The in-memory rating sequence for one entity id. It starts empty, grows
/// by one record per accepted append, and is never otherwise mutated.
pub struct CompetencyActor {
    ratings: Vec<CompetencyRating>,
}

impl View for CompetencyActor {
    type V = Seq<CompetencyRating>;

    closed spec fn view(&self) -> Seq<CompetencyRating> {
        self.ratings@
    }
}

/// A request addressed to one actor instance: read the sequence, append a
/// record (or the placeholder when none is supplied), or anything else,
/// which the actor rejects.
pub enum ActorRequest {
    Read,
    Append(Option<CompetencyRating>),
    Unsupported,
}

/// What the actor answers: the current full sequence, or a client error for
/// a request kind it does not implement.
pub enum ActorResponse {
    Ratings(Vec<CompetencyRating>),
    UnsupportedMethod,
}

/// The record an append call stores: the caller's, or the placeholder.
pub open spec fn effective_record(rec: Option<CompetencyRating>) -> CompetencyRating {
    match rec {
        Some(r) => r,
        None => spec_placeholder_record(),
    }
}

/// Copies a rating sequence element for element.
fn copy_ratings(v: &Vec<CompetencyRating>) -> (out: Vec<CompetencyRating>)
    ensures
        out@ == v@,
{
    let mut out: Vec<CompetencyRating> = Vec::new();
    let mut i: usize = 0;
    while i < v.len()
        invariant
            0 <= i <= v.len(),
            out@ == v@.subrange(0, i as int),
        decreases v.len() - i,
    {
        out.push(v[i]);
        i = i + 1;
        proof {
            assert(out@ =~= v@.subrange(0, i as int));
        }
    }
    proof {
        assert(out@ =~= v@);
    }
    out
}

impl CompetencyActor {
    /// A freshly created actor instance owns an empty sequence.
    pub fn new() -> (a: CompetencyActor)
        ensures
            a@ == Seq::<CompetencyRating>::empty(),
    {
        CompetencyActor { ratings: Vec::new() }
    }

    /// Returns the current sequence, in insertion order, without side effect.
    pub fn read(&self) -> (r: Vec<CompetencyRating>)
        ensures
            r@ == self@,
    {
        copy_ratings(&self.ratings)
    }

    /// Appends one record (the placeholder when the caller supplies none)
    /// and returns the resulting full sequence.
    pub fn append(&mut self, rec: Option<CompetencyRating>) -> (r: Vec<CompetencyRating>)
        ensures
            final(self)@ == old(self)@.push(effective_record(rec)),
            r@ == final(self)@,
    {
        let record = match rec {
            Some(r) => r,
            None => placeholder_record(),
        };
        self.ratings.push(record);
        copy_ratings(&self.ratings)
    }

    /// Runs one request to completion. Reads leave the sequence untouched,
    /// appends grow it by exactly the one effective record, and any other
    /// request kind is rejected without touching the sequence.
    pub fn handle(&mut self, req: ActorRequest) -> (resp: ActorResponse)
        ensures
            match req {
                ActorRequest::Read => {
                    &&& final(self)@ == old(self)@
                    &&& resp matches ActorResponse::Ratings(v) && v@ == old(self)@
                },
                ActorRequest::Append(rec) => {
                    &&& final(self)@ == old(self)@.push(effective_record(rec))
                    &&& resp matches ActorResponse::Ratings(v) && v@ == final(self)@
                },
                ActorRequest::Unsupported => {
                    &&& final(self)@ == old(self)@
                    &&& resp matches ActorResponse::UnsupportedMethod
                },
            },
    {
        match req {
            ActorRequest::Read => ActorResponse::Ratings(self.read()),
            ActorRequest::Append(rec) => ActorResponse::Ratings(self.append(rec)),
            ActorRequest::Unsupported => ActorResponse::UnsupportedMethod,
        }
    }
}

/// Applies a sequence of effective records to a rating sequence, one append
/// per record, in call order.
pub open spec fn append_all(v: Seq<CompetencyRating>, recs: Seq<CompetencyRating>) -> Seq<
    CompetencyRating,
>
    decreases recs.len(),
{
    if recs.len() == 0 {
        v
    } else {
        append_all(v.push(recs[0]), recs.drop_first())
    }
}

/// Appending records one at a time extends the sequence by exactly those
/// records, in order.
pub proof fn lemma_append_all(v: Seq<CompetencyRating>, recs: Seq<CompetencyRating>)
    ensures
        append_all(v, recs) == v + recs,
    decreases recs.len(),
{
    if recs.len() == 0 {
        assert(append_all(v, recs) =~= v + recs);
    } else {
        lemma_append_all(v.push(recs[0]), recs.drop_first());
        assert(v.push(recs[0]) + recs.drop_first() =~= v + recs);
    }
}

/// Serial appends against one id, starting from a fresh (empty) actor,
/// leave exactly the appended records, in call order: the read after N
/// accepted appends has length N, and its i-th record is the i-th appended
/// one. Because the runtime serializes all requests for one id against one
/// instance, this also rules out lost or duplicated updates among appends
/// that race on the same id: each accepted call contributes exactly one
/// record.
pub proof fn lemma_serial_appends(recs: Seq<CompetencyRating>)
    ensures
        append_all(Seq::<CompetencyRating>::empty(), recs) == recs,
        append_all(Seq::<CompetencyRating>::empty(), recs).len() == recs.len(),
{
    lemma_append_all(Seq::<CompetencyRating>::empty(), recs);
    assert(Seq::<CompetencyRating>::empty() + recs =~= recs);
}

} // verus!
