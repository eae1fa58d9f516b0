//! A list of a chat's media, step by step, with a second try where the channel was lost.

use vstd::prelude::*;

use super::list_media::{
    after_history, after_resolve, after_second_resolve, are_searches, combine_searches,
    fetch_media_via_history, first_failure, found_media, give_up_hash, lemma_what_is_searched_for,
    list_start, merged, newest, page_lost, searches, start_of, still_lost_text, AfterHistory, GetHistory, Search,
};
use super::media::{filter_for, TelegramMediaItem};
use super::models::InputPeer;
use super::requests::{input_peer, make_input_peer};
use super::rpc::{channel_invalid, is_channel_invalid_error};
use super::search::as_signed;
use super::session::{ApiError, Session};
use crate::text::{opt_text, upper_text};

verus! {

/// What is asked for.
pub struct ListRequest {
    pub chat_id: i64,
    pub chat_type: String,
    /// The kind of media, or all kinds.
    pub media_type: Option<String>,
    pub offset: i32,
    pub limit: u32,
}

/// Where a list stands.
pub enum ListPhase {
    /// The channel is looked for before the first try.
    Resolving,
    Trying,
    /// The first try failed with this, and the channel is looked for once more.
    ResolvingAgain { err: String },
    TryingAgain,
    Ended,
}

/// A list of media that is being made.
pub struct MediaListing {
    pub request: ListRequest,
    pub access_hash: i64,
    pub phase: ListPhase,
}

/// What a list needs next.
pub enum ListStep {
    /// Look for the access hash of the channel.
    Resolve,
    /// Read this piece of the history.
    History(GetHistory),
    /// Make these searches.
    Search(Vec<Search>),
    /// Nothing: this is the list, or why there is none.
    Done(Result<Vec<TelegramMediaItem>, String>),
}

/// Nothing else of the session changes.
pub open spec fn same_but_hashes(before: Session, after: Session) -> bool {
    &&& after.authenticated == before.authenticated
    &&& after.peer_photo_ids == before.peer_photo_ids
    &&& after.takeout_session_id == before.takeout_session_id
}

impl MediaListing {
    /// The peer to read from.
    pub open spec fn peer(self) -> InputPeer {
        input_peer(self.request.chat_id, self.request.chat_type@, self.access_hash)
    }

    pub open spec fn is_trying(self) -> bool {
        self.phase is Trying || self.phase is TryingAgain
    }

    pub open spec fn is_resolving(self) -> bool {
        self.phase is Resolving || self.phase is ResolvingAgain
    }

    /// `step` begins a try: a piece of the history where all kinds are asked for, a
    /// search otherwise.
    pub open spec fn begins_try(self, step: ListStep) -> bool {
        let q = self.request;
        if q.media_type is None {
            step matches ListStep::History(h) && {
                &&& h.peer == self.peer()
                &&& h.offset_id == q.offset
                &&& h.limit == as_signed(q.limit)
            }
        } else {
            self.asks_searches(step)
        }
    }

    /// `step` asks for the searches of a try.
    pub open spec fn asks_searches(self, step: ListStep) -> bool {
        let q = self.request;
        step matches ListStep::Search(list) && are_searches(
            list@,
            self.peer(),
            opt_text(q.media_type),
            ""@,
            q.offset,
            q.limit,
        )
    }

    /// `after` and `step` are what a try that found `items` leads to.
    pub open spec fn succeeds(
        self,
        items: Seq<TelegramMediaItem>,
        after: MediaListing,
        step: ListStep,
    ) -> bool {
        &&& step matches ListStep::Done(Ok(list)) && list@ == items
        &&& after == (MediaListing { phase: ListPhase::Ended, ..self })
    }

    /// `after` and `step` are what a try that failed with `err` leads to, where `lost`
    /// says that the channel cannot be reached. A channel that is lost at the first try
    /// is looked for once more, and its old hash is forgotten.
    pub open spec fn fails(
        self,
        err: Seq<char>,
        lost: bool,
        before: Session,
        after: MediaListing,
        session: Session,
        step: ListStep,
    ) -> bool {
        &&& after.request == self.request
        &&& after.access_hash == self.access_hash
        &&& same_but_hashes(before, session)
        &&& if self.phase is Trying && self.request.chat_type@ == "channel"@ && lost {
            &&& step is Resolve
            &&& after.phase matches ListPhase::ResolvingAgain { err: e } && e@ == err
            &&& session.peer_hashes@ == before.peer_hashes@.remove(self.request.chat_id)
        } else {
            &&& step matches ListStep::Done(Err(e)) && e@ == err
            &&& after.phase is Ended
            &&& session.peer_hashes@ == before.peer_hashes@
        }
    }

    /// How far a list is from its end.
    pub open spec fn rank(self) -> nat {
        match self.phase {
            ListPhase::Resolving => 4,
            ListPhase::Trying => 3,
            ListPhase::ResolvingAgain { .. } => 2,
            ListPhase::TryingAgain => 1,
            ListPhase::Ended => 0,
        }
    }

    fn begin_try(&self) -> (r: ListStep)
        ensures
            self.begins_try(r),
    {
        let q = &self.request;
        let peer = make_input_peer(q.chat_id, q.chat_type.as_str(), self.access_hash);
        match &q.media_type {
            None => ListStep::History(fetch_media_via_history(peer, q.offset, q.limit)),
            Some(kind) => ListStep::Search(
                searches(peer, Some(kind.as_str()), "", q.offset, q.limit),
            ),
        }
    }

    fn done(&mut self, items: Vec<TelegramMediaItem>) -> (r: ListStep)
        ensures
            old(self).succeeds(items@, *final(self), r),
    {
        self.phase = ListPhase::Ended;
        ListStep::Done(Ok(items))
    }

    /// Ends a try that failed with `err`, where `lost` says that the channel cannot be
    /// reached.
    pub fn failed_given(&mut self, session: &mut Session, err: String, lost: bool) -> (r: ListStep)
        ensures
            old(self).fails(err@, lost, *old(session), *final(self), *final(session), r),
    {
        let first = match &self.phase {
            ListPhase::Trying => true,
            _ => false,
        };
        if first && give_up_hash(
            session,
            self.request.chat_id,
            self.request.chat_type.as_str(),
            lost,
        ) {
            self.phase = ListPhase::ResolvingAgain { err };
            ListStep::Resolve
        } else {
            self.phase = ListPhase::Ended;
            ListStep::Done(Err(err))
        }
    }

    fn failed(&mut self, session: &mut Session, err: String) -> (r: ListStep)
        ensures
            old(self).fails(
                err@,
                channel_invalid(upper_text(err@)),
                *old(session),
                *final(self),
                *final(session),
                r,
            ),
    {
        let lost = is_channel_invalid_error(err.as_str());
        self.failed_given(session, err, lost)
    }

    /// Goes on after the channel was looked for. What was found is remembered; a second
    /// try is made only with a hash that differs from the one of the first.
    pub fn resolved(&mut self, session: &mut Session, outcome: &Result<Option<i64>, String>) -> (r:
        ListStep)
        requires
            old(self).is_resolving(),
        ensures
            final(self).request == old(self).request,
            same_but_hashes(*old(session), *final(session)),
            match old(self).phase {
                ListPhase::ResolvingAgain { err } => if outcome matches Ok(Some(h)) && h != old(
                    self,
                ).access_hash {
                    &&& final(self).phase is TryingAgain
                    &&& final(self).access_hash == outcome->Ok_0->0
                    &&& final(session).peer_hashes@ == old(session).peer_hashes@.insert(
                        old(self).request.chat_id,
                        outcome->Ok_0->0,
                    )
                    &&& final(self).begins_try(r)
                } else {
                    &&& final(self).phase is Ended
                    &&& final(self).access_hash == old(self).access_hash
                    &&& final(session).peer_hashes@ == old(session).peer_hashes@
                    &&& r matches ListStep::Done(Err(e)) && e@ == still_lost_text(
                        old(self).access_hash,
                        err@,
                        *outcome,
                    )
                },
                _ => {
                    &&& final(self).phase is Trying
                    &&& final(self).begins_try(r)
                    &&& match *outcome {
                        Ok(Some(h)) => {
                            &&& final(self).access_hash == h
                            &&& final(session).peer_hashes@ == old(session).peer_hashes@.insert(
                                old(self).request.chat_id,
                                h,
                            )
                        },
                        _ => {
                            &&& final(self).access_hash == old(self).access_hash
                            &&& final(session).peer_hashes@ == old(session).peer_hashes@
                        },
                    }
                },
            },
    {
        let id = self.request.chat_id;
        let again = match &self.phase {
            ListPhase::ResolvingAgain { err } => Some(
                after_second_resolve(session, id, self.access_hash, err.as_str(), outcome),
            ),
            _ => None,
        };
        match again {
            Some(Ok(hash)) => {
                self.access_hash = hash;
                self.phase = ListPhase::TryingAgain;
                self.begin_try()
            },
            Some(Err(text)) => {
                self.phase = ListPhase::Ended;
                ListStep::Done(Err(text))
            },
            None => {
                self.access_hash = after_resolve(session, id, self.access_hash, outcome);
                self.phase = ListPhase::Trying;
                self.begin_try()
            },
        }
    }

    /// Goes on after a piece of the history was read. Where it holds no media, each kind
    /// is searched for.
    pub fn history_read(
        &mut self,
        session: &mut Session,
        page: Result<Vec<TelegramMediaItem>, String>,
    ) -> (r: ListStep)
        requires
            old(self).is_trying(),
            old(self).request.media_type is None,
        ensures
            match page {
                Err(e) => old(self).fails(
                    e@,
                    channel_invalid(upper_text(e@)),
                    *old(session),
                    *final(self),
                    *final(session),
                    r,
                ),
                Ok(items) => {
                    &&& *final(session) == *old(session)
                    &&& if items@.len() > 0 {
                        old(self).succeeds(
                            newest(items@, old(self).request.limit as int),
                            *final(self),
                            r,
                        )
                    } else {
                        &&& *final(self) == *old(self)
                        &&& old(self).asks_searches(r)
                    }
                },
            },
    {
        match after_history(page, self.request.limit) {
            AfterHistory::Done(items) => self.done(items),
            AfterHistory::Fail(err) => self.failed(session, err),
            AfterHistory::SearchKinds => {
                let q = &self.request;
                let peer = make_input_peer(q.chat_id, q.chat_type.as_str(), self.access_hash);
                ListStep::Search(searches(peer, None, "", q.offset, q.limit))
            },
        }
    }

    /// Goes on after the searches of a try were made.
    pub fn searched(
        &mut self,
        session: &mut Session,
        pages: Vec<Result<Vec<TelegramMediaItem>, String>>,
    ) -> (r: ListStep)
        requires
            old(self).is_trying(),
            old(self).request.media_type is Some ==> pages@.len() == 1,
        ensures
            if old(self).request.media_type is Some {
                match pages@[0] {
                    Ok(items) => {
                        &&& *final(session) == *old(session)
                        &&& old(self).succeeds(items@, *final(self), r)
                    },
                    Err(e) => old(self).fails(
                        e@,
                        channel_invalid(upper_text(e@)),
                        *old(session),
                        *final(self),
                        *final(session),
                        r,
                    ),
                }
            } else if exists|i: int| 0 <= i < pages@.len() && page_lost(#[trigger] pages@[i]) {
                let err = "CHANNEL_INVALID propagated: "@ + first_failure(pages@);
                old(self).fails(
                    err,
                    channel_invalid(upper_text(err)),
                    *old(session),
                    *final(self),
                    *final(session),
                    r,
                )
            } else {
                &&& *final(session) == *old(session)
                &&& old(self).succeeds(
                    merged(pages@, old(self).request.limit as int),
                    *final(self),
                    r,
                )
            },
    {
        let result = if self.request.media_type.is_some() {
            found_media(true, pages, self.request.limit)
        } else {
            combine_searches(pages, self.request.limit)
        };
        match result {
            Ok(items) => self.done(items),
            Err(err) => self.failed(session, err),
        }
    }
}

/// Begins a list of a chat's media. A channel without an access hash is looked for first.
pub fn list_media(session: &Session, request: ListRequest) -> (r: Result<
    (MediaListing, ListStep),
    ApiError,
>)
    ensures
        if session.authenticated {
            let start = start_of(*session, request.chat_id, request.chat_type@);
            &&& r matches Ok((listing, step)) && {
                &&& listing.request == request
                &&& listing.access_hash == start.access_hash
                &&& if start.resolve_first {
                    listing.phase is Resolving && step is Resolve
                } else {
                    listing.phase is Trying && listing.begins_try(step)
                }
            }
        } else {
            r == Err::<(MediaListing, ListStep), ApiError>(ApiError::NotAuthenticated)
        },
{
    match list_start(session, request.chat_id, request.chat_type.as_str()) {
        Err(e) => Err(e),
        Ok(start) => {
            let access_hash = start.access_hash;
            if start.resolve_first {
                let listing = MediaListing { request, access_hash, phase: ListPhase::Resolving };
                Ok((listing, ListStep::Resolve))
            } else {
                let listing = MediaListing { request, access_hash, phase: ListPhase::Trying };
                let step = listing.begin_try();
                Ok((listing, step))
            }
        },
    }
}

// ------------------------------------------------------------ laws

/// A try that fails brings a list nearer to its end: there is no third try, and the
/// channel is looked for once after a try at most.
pub proof fn lemma_failures_end(
    listing: MediaListing,
    err: Seq<char>,
    lost: bool,
    before: Session,
    after: MediaListing,
    session: Session,
    step: ListStep,
)
    requires
        listing.is_trying(),
        listing.fails(err, lost, before, after, session, step),
    ensures
        after.rank() < listing.rank(),
        listing.phase is TryingAgain ==> step is Done,
        step is Resolve ==> after.is_resolving(),
{
}

/// A hash with which a channel could not be reached is not used again: after such a
/// failure none is known for the channel, so that a later list looks for it first.
pub proof fn lemma_lost_hash_is_forgotten(
    listing: MediaListing,
    err: Seq<char>,
    before: Session,
    after: MediaListing,
    session: Session,
    step: ListStep,
)
    requires
        listing.phase is Trying,
        listing.request.chat_type@ == "channel"@,
        listing.fails(err, true, before, after, session, step),
    ensures
        session.hash(listing.request.chat_id) == 0,
        start_of(session, listing.request.chat_id, "channel"@).resolve_first,
{
}

/// A list without a kind begins with the history of its chat, from the offset and with the
/// limit that were asked for; one with a kind begins with the search for it.
pub proof fn lemma_how_a_list_begins(listing: MediaListing, step: ListStep)
    requires
        listing.begins_try(step),
    ensures
        listing.request.media_type is None ==> (step matches ListStep::History(h) && h.offset_id
            == listing.request.offset && (listing.request.limit <= i32::MAX ==> h.limit
            == listing.request.limit)),
        listing.request.media_type matches Some(kind) ==> (step matches ListStep::Search(list)
            && list@.len() == 1 && list@[0].filter == filter_for(Some(kind@)) && list@[0].offset_id
            == listing.request.offset && (listing.request.limit <= i32::MAX ==> list@[0].limit
            == listing.request.limit)),
{
}

/// The searches of a list go to its chat, from its offset and with its limit, without a text:
/// four for all kinds, and one for one kind. So does the piece of history.
pub proof fn lemma_requests_of_a_list(listing: MediaListing, step: ListStep)
    ensures
        ({
            let q = listing.request;
            let peer = input_peer(q.chat_id, q.chat_type@, listing.access_hash);
            &&& listing.asks_searches(step) ==> (step matches ListStep::Search(list) && {
                &&& list@.len() == (if q.media_type is None {
                    4int
                } else {
                    1
                })
                &&& forall|i: int|
                    0 <= i < list@.len() ==> {
                        &&& (#[trigger] list@[i]).peer == peer
                        &&& list@[i].offset_id == q.offset
                        &&& list@[i].q@ == ""@
                        &&& q.limit <= i32::MAX ==> list@[i].limit == q.limit
                    }
            })
            &&& listing.begins_try(step) && q.media_type is None ==> (
            step matches ListStep::History(h) && h.peer == peer)
            &&& listing.begins_try(step) && q.media_type is Some ==> listing.asks_searches(step)
        }),
{
    if listing.asks_searches(step) {
        let q = listing.request;
        lemma_what_is_searched_for(
            step->Search_0@,
            listing.peer(),
            opt_text(q.media_type),
            ""@,
            q.offset,
            q.limit,
        );
    }
}

/// A list that was found is returned as it is, and ends; one that failed is looked for again
/// once, where its channel could not be reached, and else fails with what was reported.
pub proof fn lemma_how_a_list_ends(
    listing: MediaListing,
    items: Seq<TelegramMediaItem>,
    err: Seq<char>,
    lost: bool,
    before: Session,
    after: MediaListing,
    session: Session,
    step: ListStep,
)
    ensures
        listing.succeeds(items, after, step) ==> (step matches ListStep::Done(Ok(list)) && list@
            == items) && after.phase is Ended && after.request == listing.request,
        listing.fails(err, lost, before, after, session, step) ==> {
            &&& step is Resolve <==> listing.phase is Trying && listing.request.chat_type@
                == "channel"@ && lost
            &&& !(step is Resolve) ==> (step matches ListStep::Done(Err(e)) && e@ == err)
            &&& after.request == listing.request
            &&& session.authenticated == before.authenticated
            &&& forall|id: i64| #![trigger session.peer_hashes@.contains_key(id)]
                id != listing.request.chat_id ==> (session.peer_hashes@.contains_key(id)
                    <==> before.peer_hashes@.contains_key(id))
        },
{
}

/// A list leaves the sign-in, the photos and the export of a session as they are.
pub proof fn lemma_session_stays(before: Session, after: Session)
    requires
        same_but_hashes(before, after),
    ensures
        after.authenticated == before.authenticated,
        after.peer_photo_ids == before.peer_photo_ids,
        after.takeout_session_id == before.takeout_session_id,
{
}

} // verus!
