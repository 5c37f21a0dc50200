//! Medicover: one request to the Mingle job board.
use vstd::prelude::*;

use crate::feed::str_member;
use crate::job::{
    collect_steps, concat, job_views, lemma_collect_steps_push, lemma_collect_steps_stop, new_job,
    romanian_city, romanian_city_name, Job, JobId, JobIdView, JobView, ScrapeError, Step,
};
use crate::json::{as_i64_spec, as_str_spec, index_key, index_pos, Json};
use crate::text::{signed_decimal, signed_decimal_string};
use crate::transliterate::{ascii_form, unidecode};

verus! {

/// The board's request for Medicover's postings.
pub const FEED_URL: &'static str = "https://mingle.ro/api/boards/mingle/jobs?q=companyUid~eq~%22medicover%22&page=0&pageSize=1000&sort=modifiedDate~DESC";

/// The page that a posting's public id is appended to.
pub const LINK_PREFIX: &'static str = "https://medicover.mingle.ro/en/apply/";

/// The city of a posting without a named first location.
pub const DEFAULT_CITY: &'static str = "Romania";

/// The city of a posting: the name of its first location, "Romania" where
/// that is not a string.
pub open spec fn posting_city(job: Json) -> Seq<char> {
    match as_str_spec(index_key(index_pos(index_key(job, "locations"@), 0), "name"@)) {
        Some(c) => c,
        None => DEFAULT_CITY@,
    }
}

/// The posting of one result: `id` must be an integer, `jobTitle` and
/// `publicUid` strings.
pub open spec fn result_job(job: Json, company: Seq<char>, country: Seq<char>) -> Step {
    match (
        as_i64_spec(index_key(job, "id"@)),
        str_member(job, "jobTitle"@),
        str_member(job, "publicUid"@),
    ) {
        (Some(n), Some(title), Some(uid)) => Ok(
            Some(
                JobView {
                    id: JobIdView::Text(signed_decimal(n as int)),
                    job_title: title,
                    job_link: LINK_PREFIX@ + uid,
                    company: company,
                    country: country,
                    city: ascii_form(romanian_city(posting_city(job))),
                },
            ),
        ),
        _ => Err(ScrapeError::MissingField),
    }
}

/// The postings of the board's answer: `data.results` must be an array.
pub open spec fn feed_postings(data: Json, company: Seq<char>, country: Seq<char>) -> Result<
    Seq<JobView>,
    ScrapeError,
> {
    match index_key(index_key(data, "data"@), "results"@) {
        Json::Array(items) => collect_steps(
            Seq::new(items@.len(), |i: int| result_job(items@[i], company, country)),
        ),
        _ => Err(ScrapeError::MissingField),
    }
}

/// When the board's answer is read, it gives one posting per result, in
/// order; a result whose first location has the name `c` is placed in `c`
/// ("Bucuresti" for "Bucharest", transliterated), whatever its later
/// locations hold.
pub proof fn lemma_feed_postings_first_location(data: Json, company: Seq<char>, country: Seq<char>)
    ensures
        index_key(index_key(data, "data"@), "results"@) matches Json::Array(items) ==> (
        feed_postings(data, company, country) matches Ok(v) ==> v.len() == items@.len() && forall|
            k: int,
        |
            0 <= k < items@.len() ==> (index_key(items@[k], "locations"@) matches Json::Array(locs)
                ==> (locs@.len() > 0 ==> (as_str_spec(index_key(locs@[0], "name"@)) matches Some(c)
                ==> (#[trigger] v[k]).city == ascii_form(romanian_city(c)))))),
{
    if let Json::Array(items) = index_key(index_key(data, "data"@), "results"@) {
        let steps = Seq::new(items@.len(), |i: int| result_job(items@[i], company, country));
        assert forall|i: int| 0 <= i < steps.len() implies !(#[trigger] steps[i] matches Ok(None)) by {
        }
        crate::job::lemma_collect_steps_one_each(steps);
        if let Ok(v) = feed_postings(data, company, country) {
            assert forall|k: int| 0 <= k < items@.len() implies (index_key(items@[k], "locations"@) matches Json::Array(locs)
                ==> (locs@.len() > 0 ==> (as_str_spec(index_key(locs@[0], "name"@)) matches Some(c)
                ==> (#[trigger] v[k]).city == ascii_form(romanian_city(c))))) by {
                assert(steps[k] == Ok::<Option<JobView>, ScrapeError>(Some(v[k])));
            }
        }
    }
}

/// Reads the posting count: the length of `data.results` (`job_count`
/// after the request).
pub fn count_from_feed(data: &Json) -> (r: Result<u64, ScrapeError>)
    ensures
        match index_key(index_key(*data, "data"@), "results"@) {
            Json::Array(items) => r == Ok::<u64, ScrapeError>(items@.len() as u64),
            _ => r == Err::<u64, ScrapeError>(ScrapeError::MissingField),
        },
{
    let null = Json::Null;
    match data.member_or("data", &null).member_or("results", &null).as_array() {
        Some(items) => Ok(items.len() as u64),
        None => Err(ScrapeError::MissingField),
    }
}

/// Reads the postings of the board's answer (`fetch_jobs` after the
/// request).
pub fn jobs_from_feed(data: &Json, company: &str, country: &str) -> (r: Result<Vec<Job>, ScrapeError>)
    ensures
        r matches Ok(v) ==> crate::job::ascii_cities(v@),
        match r {
            Ok(v) => feed_postings(*data, company@, country@) == Ok::<_, ScrapeError>(job_views(v@)),
            Err(e) => feed_postings(*data, company@, country@) == Err::<Seq<JobView>, _>(e),
        },
{
    let null = Json::Null;
    let items = match data.member_or("data", &null).member_or("results", &null).as_array() {
        Some(items) => items,
        None => return Err(ScrapeError::MissingField),
    };
    let ghost steps = Seq::new(items@.len(), |i: int| result_job(items@[i], company@, country@));
    let mut jobs: Vec<Job> = Vec::new();
    assert(steps.take(0) =~= Seq::<Step>::empty());
    assert(job_views(jobs@) =~= Seq::<JobView>::empty());
    let mut i: usize = 0;
    while i < items.len()
        invariant
            i <= items@.len() == steps.len(),
            index_key(index_key(*data, "data"@), "results"@) == Json::Array(*items),
            steps == Seq::new(items@.len(), |i: int| result_job(items@[i], company@, country@)),
            collect_steps(steps.take(i as int)) == Ok::<_, ScrapeError>(job_views(jobs@)),
            crate::job::ascii_cities(jobs@),
        decreases items.len() - i,
    {
        proof {
            lemma_collect_steps_push(steps, i as int);
        }
        let job = &items[i];
        let null = Json::Null;
        let n = job.member_or("id", &null).as_i64();
        let title = job.member_or("jobTitle", &null).as_str();
        let uid = job.member_or("publicUid", &null).as_str();
        match (n, title, uid) {
            (Some(n), Some(title), Some(uid)) => {
                let place = job.member_or("locations", &null).element_or(0, &null).member_or(
                    "name",
                    &null,
                ).as_str();
                let city = match place {
                    Some(c) => c,
                    None => DEFAULT_CITY,
                };
                let city = unidecode(romanian_city_name(city).as_str());
                let posting = new_job(
                    JobId::Text(signed_decimal_string(n)),
                    String::from_str(title),
                    concat(LINK_PREFIX, uid),
                    company,
                    country,
                    city,
                );
                let ghost before = jobs@;
                jobs.push(posting);
                proof {
                    crate::job::lemma_ascii_cities_push(before, jobs@);
                }
                assert(job_views(jobs@) =~= job_views(before).push(posting@));
            },
            _ => {
                proof {
                    lemma_collect_steps_stop(steps, i as int);
                }
                return Err(ScrapeError::MissingField);
            },
        }
        i = i + 1;
    }
    assert(steps.take(items@.len() as int) =~= steps);
    Ok(jobs)
}

} // verus!
