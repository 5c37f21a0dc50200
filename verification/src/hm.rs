//! H&M: a search API answered by POST, nine postings per page.
use vstd::prelude::*;

use crate::feed::{feed_jobs, feed_jobs_spec, read_u64, FeedKeys};
use crate::job::{job_views, Job, JobView, ScrapeError};
use crate::json::{as_u64_spec, index_key, Json};
use crate::paging::{page_numbers, page_numbers_spec};

verus! {

/// The search API's address.
pub const SEARCH_URL: &'static str = "https://career.hm.com/wp-json/hm/v1/sr/jobs/search?_locale=user";

/// Postings per page.
pub const PAGE_SIZE: u64 = 9;

/// The members of an H&M entry.
pub open spec fn hm_keys() -> FeedKeys {
    FeedKeys { id: "ref_number", title: "title", link: "apply_on_web_url", city: "city" }
}

/// Reads the postings of one page: the array `jobs`, each entry with
/// `ref_number`, `title`, `apply_on_web_url` and `city` (`fetch_jobs` after
/// the request).
pub fn jobs_from_feed(data: &Json, company: &str, country: &str) -> (r: Result<Vec<Job>, ScrapeError>)
    ensures
        r matches Ok(v) ==> crate::job::ascii_cities(v@),
        match r {
            Ok(v) => feed_jobs_spec(*data, "jobs"@, None, hm_keys(), company@, country@)
                == Ok::<_, ScrapeError>(job_views(v@)),
            Err(e) => feed_jobs_spec(*data, "jobs"@, None, hm_keys(), company@, country@)
                == Err::<Seq<JobView>, _>(e),
        },
{
    let keys = FeedKeys { id: "ref_number", title: "title", link: "apply_on_web_url", city: "city" };
    feed_jobs(data, "jobs", None, &keys, company, country)
}

/// Reads the posting count, the number member `total` (`job_count` after the
/// request).
pub fn count_from_feed(data: &Json) -> (r: Result<u64, ScrapeError>)
    ensures
        match r {
            Ok(n) => as_u64_spec(index_key(*data, "total"@)) == Some(n),
            Err(e) => as_u64_spec(index_key(*data, "total"@)) is None && e == ScrapeError::MissingField,
        },
{
    read_u64(data, "total")
}

/// The pages to ask for: `1 ..= (count + 8) / 9`.
pub fn pages(count: u64) -> (r: Vec<u64>)
    requires
        count + PAGE_SIZE - 1 <= u64::MAX,
    ensures
        r@ == page_numbers_spec(count as nat, PAGE_SIZE as nat),
{
    page_numbers(count, PAGE_SIZE)
}

} // verus!
