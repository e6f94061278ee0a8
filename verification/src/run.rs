//! One synchronization run: filtering the fetched item map against the
//! completion ledger, and the decisions of a worker-pool iteration. The
//! workers' network and file work happens outside the library; each worker
//! hands the outcomes in and this module says what to do next.

use vstd::prelude::*;
use crate::api::structs::digital_item::DigitalItem;
use crate::api::ApiError;
use crate::util::contains_str;

verus! {

/// The items a run keeps after the ledger filter: all of them under force,
/// otherwise those whose identifier the ledger does not record.
pub open spec fn kept_items(
    items: Seq<(Seq<char>, Seq<char>)>,
    done: Seq<Seq<char>>,
    force: bool,
) -> Seq<(Seq<char>, Seq<char>)> {
    items.filter(|p: (Seq<char>, Seq<char>)| force || !done.contains(p.0))
}

/// Filters the fetched (identifier, URL) pairs against the ledger snapshot:
/// an already-recorded identifier is dropped, unless force asks for a
/// from-scratch run.
pub fn filter_new_items(items: Vec<(String, String)>, done: &Vec<String>, force: bool) -> (r: Vec<
    (String, String),
>)
    ensures
        r.deep_view() == kept_items(items.deep_view(), done.deep_view(), force),
{
    let ghost iv = items.deep_view();
    let n = items.len();
    let mut r: Vec<(String, String)> = Vec::new();
    let mut i: usize = 0;
    proof {
        reveal(Seq::filter);
        assert(iv.take(0) =~= Seq::<(Seq<char>, Seq<char>)>::empty());
        assert(r.deep_view() =~= kept_items(iv.take(0), done.deep_view(), force));
    }
    while i < n
        invariant
            i <= n,
            n == items.len(),
            iv == items.deep_view(),
            r.deep_view() == kept_items(iv.take(i as int), done.deep_view(), force),
        decreases n - i,
    {
        let pair = &items[i];
        let keep = force || !contains_str(done, pair.0.as_str());
        proof {
            reveal(Seq::filter);
            assert(iv.take(i + 1).drop_last() =~= iv.take(i as int));
            assert(iv.take(i + 1).last() == iv[i as int]);
            assert(iv[i as int] == (pair.0@, pair.1@));
        }
        if keep {
            let ghost rdv = r.deep_view();
            r.push((pair.0.clone(), pair.1.clone()));
            proof {
                assert(r.deep_view() =~= rdv.push((pair.0@, pair.1@)));
            }
        }
        i += 1;
    }
    proof {
        assert(iv.take(n as int) =~= iv);
    }
    r
}

/// What a worker does with one claimed item, decided from what resolving its
/// detail page produced.
pub enum WorkerPlan {
    /// No digital item at the detail page: record the unknown-item sentinel
    /// and move on.
    RecordUnknown,
    /// Resolving failed: skip without a ledger write, so a later run retries
    /// the item.
    SkipNoRecord,
    /// The item declares no downloads at all: record the no-downloads
    /// sentinel and move on.
    RecordNoDownloads,
    /// Download the item, extract it when it is a multi-track package, and
    /// record it on success.
    Download(DigitalItem),
}

/// Decides a worker's next move from the outcome of resolving an item: a
/// resolved item with downloads is downloaded, one without downloads gets
/// its sentinel, a missing item gets the unknown sentinel, and a resolve
/// error skips the item without any ledger write.
pub fn worker_plan(resolved: Result<Option<DigitalItem>, ApiError>) -> (p: WorkerPlan)
    ensures
        match resolved {
            Ok(found) => match found {
                Some(item) => (match item.downloads {
                    Some(_) => p == WorkerPlan::Download(item),
                    None => p == WorkerPlan::RecordNoDownloads,
                }),
                None => p == WorkerPlan::RecordUnknown,
            },
            Err(_) => p == WorkerPlan::SkipNoRecord,
        },
{
    match resolved {
        Ok(Some(item)) => {
            if item.downloads.is_some() {
                WorkerPlan::Download(item)
            } else {
                WorkerPlan::RecordNoDownloads
            }
        },
        Ok(None) => WorkerPlan::RecordUnknown,
        Err(_) => WorkerPlan::SkipNoRecord,
    }
}

/// The ledger description a sentinel plan records; a download plan records
/// nothing until the download has succeeded, and a skip records nothing at
/// all.
pub fn sentinel_description(p: &WorkerPlan) -> (r: Option<String>)
    ensures
        match p {
            WorkerPlan::RecordUnknown => (r matches Some(s) && s@ == "UNKNOWN"@),
            WorkerPlan::RecordNoDownloads => (r matches Some(s) && s@ == "No downloads"@),
            _ => r is None,
        },
{
    match p {
        WorkerPlan::RecordUnknown => Some("UNKNOWN".to_owned()),
        WorkerPlan::RecordNoDownloads => Some("No downloads".to_owned()),
        _ => None,
    }
}

/// The descriptive ledger record of a successfully processed item: its
/// title, release year and artist.
pub fn completion_description(item: &DigitalItem) -> (r: String)
    ensures
        r@ == item.title@ + " ("@ + item.spec_release_year() + ") by "@ + item.artist@,
{
    let out = item.title.clone();
    let out = out.concat(" (");
    let year = item.release_year();
    let out = out.concat(year.as_str());
    let out = out.concat(") by ");
    let out = out.concat(item.artist.as_str());
    proof {
        assert(out@ =~= item.title@ + " ("@ + item.spec_release_year() + ") by "@ + item.artist@);
    }
    out
}

/// The line a dry run reports for one item: its identifier, title and
/// artist.
pub fn dry_run_line(id: &str, item: &DigitalItem) -> (r: String)
    ensures
        r@ == id@ + ", "@ + item.title@ + " - "@ + item.artist@,
{
    let out = id.to_owned();
    let out = out.concat(", ");
    let out = out.concat(item.title.as_str());
    let out = out.concat(" - ");
    let out = out.concat(item.artist.as_str());
    proof {
        assert(out@ =~= id@ + ", "@ + item.title@ + " - "@ + item.artist@);
    }
    out
}

/// Idempotent resume: an identifier the ledger already records never
/// survives the filter of a fresh run without force. (Even when a recorded
/// item is processed again, the ledger's check-then-append step writes no
/// duplicate record: that is the contract of the append step itself.)
pub proof fn lemma_idempotent_resume(
    items: Seq<(Seq<char>, Seq<char>)>,
    done: Seq<Seq<char>>,
    id: Seq<char>,
    force: bool,
)
    requires
        done.contains(id),
        !force,
    ensures
        forall|j: int|
            0 <= j < kept_items(items, done, force).len() ==> (#[trigger] kept_items(
                items,
                done,
                force,
            )[j]).0 != id,
{
    let pred = |p: (Seq<char>, Seq<char>)| force || !done.contains(p.0);
    assert(kept_items(items, done, force) == items.filter(pred));
    assert forall|j: int|
        0 <= j < kept_items(items, done, force).len() implies (#[trigger] kept_items(
        items,
        done,
        force,
    )[j]).0 != id by {
        items.lemma_filter_pred(pred, j);
        assert(pred(items.filter(pred)[j]));
    }
}

} // verus!
