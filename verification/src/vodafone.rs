//! Vodafone: a jobs API read in batches of ten.
use vstd::prelude::*;

use crate::job::{new_job, Job, JobId, JobIdView, JobView, text_with_number};
use crate::paging::{lemma_page_count_bounds, numbered_texts, numbered_urls, start_rows, start_rows_spec};
use crate::text::{decimal, first_piece, split_seq, views};

verus! {

/// The API's address, before the batch's start.
pub const BATCH_URL_PREFIX: &'static str = "https://jobs.vodafone.com/api/apply/v2/jobs?domain=vodafone.com&location=Romania&start=";

/// The API's address, after the batch's start.
pub const BATCH_URL_SUFFIX: &'static str = "&num=10";

/// Postings per batch.
pub const BATCH_SIZE: u64 = 10;

/// The page that a position's id is appended to.
pub const LINK_PREFIX: &'static str = "https://jobs.vodafone.com/careers?pid=";

/// One position of a batch, as the API sends it.
#[derive(Debug, PartialEq, Eq)]
pub struct Position {
    pub id: u64,
    pub name: String,
    pub location: String,
}

/// The posting of a position: its city is the location's first
/// comma-separated part.
pub open spec fn position_job(id: u64, name: Seq<char>, location: Seq<char>) -> JobView {
    JobView {
        id: JobIdView::Number(id),
        job_title: name,
        job_link: LINK_PREFIX@ + decimal(id as nat),
        company: "Vodafone"@,
        country: "Romania"@,
        city: split_seq(location, seq![','])[0],
    }
}

/// The posting of a position (the loop body of `scrape`).
pub fn job_from_position(p: &Position) -> (r: Job)
    ensures
        r@ == position_job(p.id, p.name@, p.location@),
{
    proof {
        reveal_strlit(",");
        reveal_strlit("");
    }
    let city = first_piece(p.location.as_str(), ",");
    assert((",")@ =~= seq![',']);
    let link = text_with_number(LINK_PREFIX, p.id, "");
    assert(link@ =~= LINK_PREFIX@ + decimal(p.id as nat));
    new_job(JobId::Number(p.id), p.name.clone(), link, "Vodafone", "Romania", city)
}

/// The batch that gives the posting count (start 0).
pub fn first_batch_url() -> (r: String)
    ensures
        r@ == BATCH_URL_PREFIX@ + decimal(0) + BATCH_URL_SUFFIX@,
{
    text_with_number(BATCH_URL_PREFIX, 0, BATCH_URL_SUFFIX)
}

/// The batches to ask for: one per start `0, 10, 20, ...` below `count`
/// (`(count + 9) / 10` of them).
pub fn batch_urls(count: u64) -> (r: Vec<String>)
    requires
        count + BATCH_SIZE - 1 <= u64::MAX,
    ensures
        views(r@) == numbered_texts(
            start_rows_spec(count as nat, BATCH_SIZE as nat),
            BATCH_URL_PREFIX@,
            BATCH_URL_SUFFIX@,
        ),
{
    proof {
        lemma_page_count_bounds(count as nat, BATCH_SIZE as nat);
    }
    let starts = start_rows(count, BATCH_SIZE);
    numbered_urls(&starts, BATCH_URL_PREFIX, BATCH_URL_SUFFIX)
}

} // verus!
