//! The reader template for boards that answer a POST with a Workable-style
//! feed.
use vstd::prelude::*;

use crate::decathlon::workable_keys;
use crate::feed::{feed_jobs, feed_jobs_spec, FeedKeys};
use crate::job::{job_views, Job, JobView, ScrapeError};
use crate::json::Json;

verus! {

/// Reads the postings of a feed: the array `jobs`, each entry with
/// `shortcode`, `title`, `url` and `city` (`fetch_jobs` after the request).
pub fn jobs_from_feed(data: &Json, company: &str, country: &str) -> (r: Result<Vec<Job>, ScrapeError>)
    ensures
        r matches Ok(v) ==> crate::job::ascii_cities(v@),
        match r {
            Ok(v) => feed_jobs_spec(*data, "jobs"@, None, workable_keys(), company@, country@)
                == Ok::<_, ScrapeError>(job_views(v@)),
            Err(e) => feed_jobs_spec(*data, "jobs"@, None, workable_keys(), company@, country@)
                == Err::<Seq<JobView>, _>(e),
        },
{
    let keys = FeedKeys { id: "shortcode", title: "title", link: "url", city: "city" };
    feed_jobs(data, "jobs", None, &keys, company, country)
}

} // verus!
