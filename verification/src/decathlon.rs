//! Decathlon: the postings of a Workable widget feed.
use vstd::prelude::*;

use crate::feed::{feed_jobs, feed_jobs_spec, FeedKeys};
use crate::job::{job_views, Job, JobView, ScrapeError};
use crate::json::Json;

verus! {

/// The feed's address.
pub const FEED_URL: &'static str = "https://apply.workable.com/api/v1/widget/accounts/404273";

/// The members of a Workable entry.
pub open spec fn workable_keys() -> FeedKeys {
    FeedKeys { id: "shortcode", title: "title", link: "url", city: "city" }
}

/// The postings of the feed: the array `jobs`, each entry with `shortcode`,
/// `title`, `url` and `city`; company "Decathlon", country "Romania".
pub open spec fn feed_postings(data: Json) -> Result<Seq<JobView>, ScrapeError> {
    feed_jobs_spec(data, "jobs"@, None, workable_keys(), "Decathlon"@, "Romania"@)
}

/// Reads the feed's postings (`fetch_jobs` after the request).
pub fn jobs_from_feed(data: &Json) -> (r: Result<Vec<Job>, ScrapeError>)
    ensures
        r matches Ok(v) ==> crate::job::ascii_cities(v@),
        match r {
            Ok(v) => feed_postings(*data) == Ok::<_, ScrapeError>(job_views(v@)),
            Err(e) => feed_postings(*data) == Err::<Seq<JobView>, _>(e),
        },
{
    let keys = FeedKeys { id: "shortcode", title: "title", link: "url", city: "city" };
    feed_jobs(data, "jobs", None, &keys, "Decathlon", "Romania")
}

} // verus!
