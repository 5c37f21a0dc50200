//! FedEx: a jobs API with the posting under `data`, 100 postings per page.
use vstd::prelude::*;

use crate::feed::{feed_jobs, feed_jobs_spec, read_u64, FeedKeys};
use crate::job::{job_views, Job, JobView, ScrapeError};
use crate::json::{as_u64_spec, index_key, Json};
use crate::paging::{numbered_texts, numbered_urls, page_count, page_numbers, page_numbers_spec};
use crate::text::views;

verus! {

/// The request that gives the posting count.
pub const COUNT_URL: &'static str = "https://careers.fedex.com/api/jobs?location=Romania&woe=12&stretchUnit=MILES&stretch=10&page=1&limit=1&brand=FedEx%20Express%20EU";

/// A page's address, before the page number.
pub const PAGE_URL_PREFIX: &'static str = "https://careers.fedex.com/api/jobs?location=Romania&woe=12&stretchUnit=MILES&stretch=10&page=";

/// A page's address, after the page number.
pub const PAGE_URL_SUFFIX: &'static str = "&limit=100&brand=FedEx%20Express%20EU";

/// Postings per page.
pub const PAGE_SIZE: u64 = 100;

/// The members of a FedEx entry's `data`.
pub open spec fn fedex_keys() -> FeedKeys {
    FeedKeys { id: "slug", title: "title", link: "apply_url", city: "city" }
}

/// Reads the postings of one page: the array `jobs`, each entry's `data`
/// with `slug`, `title`, `apply_url` and `city` (`fetch_jobs` after the
/// request).
pub fn jobs_from_feed(data: &Json, company: &str, country: &str) -> (r: Result<Vec<Job>, ScrapeError>)
    ensures
        r matches Ok(v) ==> crate::job::ascii_cities(v@),
        match r {
            Ok(v) => feed_jobs_spec(*data, "jobs"@, Some("data"@), fedex_keys(), company@, country@)
                == Ok::<_, ScrapeError>(job_views(v@)),
            Err(e) => feed_jobs_spec(*data, "jobs"@, Some("data"@), fedex_keys(), company@, country@)
                == Err::<Seq<JobView>, _>(e),
        },
{
    let keys = FeedKeys { id: "slug", title: "title", link: "apply_url", city: "city" };
    feed_jobs(data, "jobs", Some("data"), &keys, company, country)
}

/// Reads the posting count, the number member `totalCount` (`job_count`
/// after the request).
pub fn count_from_feed(data: &Json) -> (r: Result<u64, ScrapeError>)
    ensures
        match r {
            Ok(n) => as_u64_spec(index_key(*data, "totalCount"@)) == Some(n),
            Err(e) => as_u64_spec(index_key(*data, "totalCount"@)) is None && e == ScrapeError::MissingField,
        },
{
    read_u64(data, "totalCount")
}

/// The pages to ask for: page `p` for each `p >= 1` with `(p - 1) * 100`
/// below the count.
pub fn page_urls(count: u64) -> (r: Vec<String>)
    requires
        page_count(count as nat, PAGE_SIZE as nat) * PAGE_SIZE <= u64::MAX,
    ensures
        views(r@) == numbered_texts(
            page_numbers_spec(count as nat, PAGE_SIZE as nat),
            PAGE_URL_PREFIX@,
            PAGE_URL_SUFFIX@,
        ),
{
    let pages = page_numbers(count, PAGE_SIZE);
    numbered_urls(&pages, PAGE_URL_PREFIX, PAGE_URL_SUFFIX)
}

} // verus!
