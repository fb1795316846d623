//! The scheduler's decision core.  Each cycle selects the due tasks with
//! [`crate::store::QueryStore::list_due_queries`], runs one search per task
//! — strictly in turn, never concurrently — and feeds each outcome back in
//! here: bookkeeping and notifications follow from the outcome alone, so
//! the fetching itself can live at the edge.

use vstd::prelude::*;
use crate::extract::{Listing, ListingView, lviews};
use crate::pagination::FetchError;
use crate::store::{QueryStore, SearchTask, TaskView, spec_record_success};

verus! {

/// One listing-found event for the notifier, tagged with the query that
/// produced it.
#[derive(Debug)]
pub struct Notification {
    pub subscriber_id: i64,
    pub query_text: String,
    pub listing: Listing,
}

/// The mathematical value of a [`Notification`].
pub struct NotificationView {
    pub subscriber_id: int,
    pub query_text: Seq<char>,
    pub listing: ListingView,
}

impl View for Notification {
    type V = NotificationView;

    open spec fn view(&self) -> NotificationView {
        NotificationView {
            subscriber_id: self.subscriber_id as int,
            query_text: self.query_text@,
            listing: self.listing@,
        }
    }
}

/// The views of a vector of notifications.
pub open spec fn nviews(ns: Seq<Notification>) -> Seq<NotificationView> {
    ns.map_values(|n: Notification| n@)
}

/// The notifications a successful run of one task produces: one per
/// listing, in order, each tagged with the originating query's text.
pub open spec fn notes_of(t: TaskView, ls: Seq<ListingView>) -> Seq<NotificationView> {
    ls.map_values(
        |l: ListingView|
            NotificationView {
                subscriber_id: t.subscriber_id,
                query_text: t.query_text,
                listing: l,
            },
    )
}

/// Applies one finished task to the store.  A successful run records the
/// task's selection instant as the query's `lastExecutedAt` — exactly once,
/// a no-op if the query was removed meanwhile — and turns every listing
/// into one notification.  A failed run leaves the store untouched, so the
/// query stays due and is retried on the next cycle.
pub fn apply_task_outcome(
    store: &mut QueryStore,
    task: &SearchTask,
    outcome: Result<Vec<Listing>, FetchError>,
) -> (notes: Vec<Notification>)
    requires
        old(store).wf(),
    ensures
        final(store).wf(),
        match outcome {
            Ok(ls) => final(store)@ == spec_record_success(
                old(store)@,
                task.subscriber_id as int,
                task.query_id as int,
                task.due_at as int,
            ) && nviews(notes@) == notes_of(task@, lviews(ls@)),
            Err(_) => final(store)@ == old(store)@ && notes@ == Seq::<Notification>::empty(),
        },
{
    match outcome {
        Err(_) => Vec::new(),
        Ok(ls) => {
            let _ = store.record_success(task.subscriber_id, task.query_id, task.due_at);
            let ghost total = lviews(ls@);
            let mut remaining = ls;
            let mut notes: Vec<Notification> = Vec::new();
            proof {
                assert(lviews(remaining@) =~= total.subrange(0, total.len() as int));
                assert(nviews(notes@) =~= notes_of(task@, total.subrange(0, 0)));
            }
            loop
                invariant
                    notes@.len() + remaining@.len() == total.len(),
                    lviews(remaining@) == total.subrange(
                        notes@.len() as int,
                        total.len() as int,
                    ),
                    nviews(notes@) == notes_of(task@, total.subrange(0, notes@.len() as int)),
                decreases remaining@.len(),
            {
                if remaining.len() == 0 {
                    proof {
                        assert(total.subrange(0, total.len() as int) =~= total);
                    }
                    return notes;
                }
                let ghost k = notes@.len() as int;
                let ghost rem0 = remaining@;
                let ghost notes0 = notes@;
                let listing = remaining.remove(0);
                proof {
                    assert(lviews(rem0)[0] == total[k]);
                    assert(listing@ == total[k]);
                    assert(remaining@ =~= rem0.subrange(1, rem0.len() as int));
                    assert forall|i: int| 0 <= i < remaining@.len() implies (#[trigger] lviews(
                        remaining@,
                    )[i]) == total[k + 1 + i] by {
                        assert(remaining@[i] == rem0[i + 1]);
                        assert(lviews(rem0)[i + 1] == total.subrange(k, total.len() as int)[i
                            + 1]);
                    }
                    assert(lviews(remaining@) =~= total.subrange(k + 1, total.len() as int));
                }
                notes.push(
                    Notification {
                        subscriber_id: task.subscriber_id,
                        query_text: task.query_text.clone(),
                        listing,
                    },
                );
                proof {
                    assert(nviews(notes@) =~= nviews(notes0).push(notes@.last()@));
                    assert(nviews(notes@) =~= notes_of(task@, total.subrange(0, k + 1)));
                }
            }
        },
    }
}

} // verus!
