//! Zentiva: a Workday search answered by POST, twenty postings per request.
use vstd::prelude::*;

use crate::feed::{read_str, str_member};
use crate::job::{
    collect_steps, job_views, lemma_collect_steps_push, lemma_collect_steps_stop, new_job,
    romanian_city, romanian_city_name, Job, JobId, JobIdView, JobView, ScrapeError, Step,
};
use crate::json::{as_str_spec, as_u64_spec, index_key, index_pos, Json};
use crate::paging::{page_count, start_rows, start_rows_spec};
use crate::text::{split_seq, split_str, views};
use crate::transliterate::{ascii_form, unidecode};

verus! {

/// The search's address.
pub const SEARCH_URL: &'static str = "https://zentiva.wd3.myworkdayjobs.com/wday/cxs/zentiva/Zentiva/jobs";

/// The posting page's address, before the posting's path.
pub const LINK_PREFIX: &'static str = "https://zentiva.wd3.myworkdayjobs.com/en-US/Zentiva";

/// The posting page's address, after the posting's path.
pub const LINK_SUFFIX: &'static str = "?locations=ca7924da36fa0149be9376945a35dd27";

/// The location facet that the search is narrowed to.
pub const LOCATION_FACET: &'static str = "ca7924da36fa0149be9376945a35dd27";

/// Postings per request.
pub const PAGE_SIZE: u64 = 20;

/// The city of a posting: the second ` / `-separated part of
/// `bulletfields[1]` where that is a string with such a part, "Romania"
/// otherwise; "Bucharest" is written "Bucuresti".
pub open spec fn posting_city(job: Json) -> Seq<char> {
    let raw = match as_str_spec(index_pos(index_key(job, "bulletfields"@), 1)) {
        Some(s) => {
            let parts = split_seq(s, " / "@);
            if parts.len() >= 2 {
                parts[1]
            } else {
                "Romania"@
            }
        },
        None => "Romania"@,
    };
    romanian_city(raw)
}

/// The posting of one entry: `bulletFields[0][0]`, `title` and
/// `externalPath` must be strings.
pub open spec fn posting_job(job: Json, company: Seq<char>, country: Seq<char>) -> Step {
    match (
        as_str_spec(index_pos(index_pos(index_key(job, "bulletFields"@), 0), 0)),
        str_member(job, "title"@),
        str_member(job, "externalPath"@),
    ) {
        (Some(id), Some(title), Some(path)) => Ok(
            Some(
                JobView {
                    id: JobIdView::Text(id),
                    job_title: title,
                    job_link: LINK_PREFIX@ + path + LINK_SUFFIX@,
                    company: company,
                    country: country,
                    city: ascii_form(posting_city(job)),
                },
            ),
        ),
        _ => Err(ScrapeError::MissingField),
    }
}

/// The postings of one answer: `jobPostings` must be an array.
pub open spec fn page_postings(data: Json, company: Seq<char>, country: Seq<char>) -> Result<
    Seq<JobView>,
    ScrapeError,
> {
    match index_key(data, "jobPostings"@) {
        Json::Array(items) => collect_steps(
            Seq::new(items@.len(), |i: int| posting_job(items@[i], company, country)),
        ),
        _ => Err(ScrapeError::MissingField),
    }
}

/// When an answer is read, it gives one posting per entry of `jobPostings`,
/// in order: posting `k` has the id `bulletFields[0][0]`, the title and the
/// link path of entry `k`.
pub proof fn lemma_page_postings_one_per_entry(data: Json, company: Seq<char>, country: Seq<char>)
    ensures
        index_key(data, "jobPostings"@) matches Json::Array(items) ==> (page_postings(
            data,
            company,
            country,
        ) matches Ok(v) ==> v.len() == items@.len() && forall|k: int|
            0 <= k < items@.len() ==> {
                &&& as_str_spec(index_pos(index_pos(index_key(items@[k], "bulletFields"@), 0), 0))
                    == Some(#[trigger] v[k].id->Text_0)
                &&& v[k].id is Text
                &&& str_member(items@[k], "title"@) == Some(v[k].job_title)
                &&& str_member(items@[k], "externalPath"@) matches Some(path) && v[k].job_link
                    == LINK_PREFIX@ + path + LINK_SUFFIX@
            }),
{
    if let Json::Array(items) = index_key(data, "jobPostings"@) {
        let steps = Seq::new(items@.len(), |i: int| posting_job(items@[i], company, country));
        assert forall|i: int| 0 <= i < steps.len() implies !(#[trigger] steps[i] matches Ok(None)) by {
        }
        crate::job::lemma_collect_steps_one_each(steps);
        if let Ok(v) = page_postings(data, company, country) {
            assert forall|k: int| 0 <= k < items@.len() implies {
                &&& as_str_spec(index_pos(index_pos(index_key(items@[k], "bulletFields"@), 0), 0))
                    == Some(#[trigger] v[k].id->Text_0)
                &&& v[k].id is Text
                &&& str_member(items@[k], "title"@) == Some(v[k].job_title)
                &&& str_member(items@[k], "externalPath"@) matches Some(path) && v[k].job_link
                    == LINK_PREFIX@ + path + LINK_SUFFIX@
            } by {
                assert(steps[k] == Ok::<Option<JobView>, ScrapeError>(Some(v[k])));
            }
        }
    }
}

/// The city of an entry.
fn city_of(job: &Json) -> (r: String)
    ensures
        r@ == posting_city(*job),
{
    let null = Json::Null;
    proof {
        reveal_strlit(" / ");
    }
    let raw = match job.member_or("bulletfields", &null).element_or(1, &null).as_str() {
        Some(s) => {
            let parts = split_str(s, " / ");
            if parts.len() >= 2 {
                assert(views(parts@)[1] == parts@[1]@);
                parts[1].clone()
            } else {
                String::from_str("Romania")
            }
        },
        None => String::from_str("Romania"),
    };
    romanian_city_name(raw.as_str())
}

/// Reads the postings of one answer (`fetch_jobs` after the request).
pub fn jobs_from_feed(data: &Json, company: &str, country: &str) -> (r: Result<Vec<Job>, ScrapeError>)
    ensures
        r matches Ok(v) ==> crate::job::ascii_cities(v@),
        match r {
            Ok(v) => page_postings(*data, company@, country@) == Ok::<_, ScrapeError>(job_views(v@)),
            Err(e) => page_postings(*data, company@, country@) == Err::<Seq<JobView>, _>(e),
        },
{
    let null = Json::Null;
    let items = match data.member_or("jobPostings", &null).as_array() {
        Some(items) => items,
        None => return Err(ScrapeError::MissingField),
    };
    let ghost steps = Seq::new(items@.len(), |i: int| posting_job(items@[i], company@, country@));
    let mut jobs: Vec<Job> = Vec::new();
    assert(steps.take(0) =~= Seq::<Step>::empty());
    assert(job_views(jobs@) =~= Seq::<JobView>::empty());
    let mut i: usize = 0;
    while i < items.len()
        invariant
            i <= items@.len() == steps.len(),
            index_key(*data, "jobPostings"@) == Json::Array(*items),
            steps == Seq::new(items@.len(), |i: int| posting_job(items@[i], company@, country@)),
            collect_steps(steps.take(i as int)) == Ok::<_, ScrapeError>(job_views(jobs@)),
            crate::job::ascii_cities(jobs@),
        decreases items.len() - i,
    {
        proof {
            lemma_collect_steps_push(steps, i as int);
        }
        let job = &items[i];
        let null = Json::Null;
        let id = job.member_or("bulletFields", &null).element_or(0, &null).element_or(0, &null).as_str();
        let fields = (read_str(job, "title"), read_str(job, "externalPath"));
        match (id, fields) {
            (Some(id), (Ok(title), Ok(path))) => {
                let mut link = String::from_str(LINK_PREFIX);
                link.append(path.as_str());
                link.append(LINK_SUFFIX);
                let posting = new_job(
                    JobId::Text(String::from_str(id)),
                    title,
                    link,
                    company,
                    country,
                    unidecode(city_of(job).as_str()),
                );
                let ghost before = jobs@;
                jobs.push(posting);
                proof {
                    crate::job::lemma_ascii_cities_push(before, jobs@);
                }
                assert(job_views(jobs@) =~= job_views(before).push(posting@));
            },
            _ => {
                proof {
                    lemma_collect_steps_stop(steps, i as int);
                }
                return Err(ScrapeError::MissingField);
            },
        }
        i = i + 1;
    }
    assert(steps.take(items@.len() as int) =~= steps);
    Ok(jobs)
}

/// Reads the posting count, the number member `total` (`job_count` after
/// the request).
pub fn count_from_feed(data: &Json) -> (r: Result<u64, ScrapeError>)
    ensures
        match r {
            Ok(n) => as_u64_spec(index_key(*data, "total"@)) == Some(n),
            Err(e) => as_u64_spec(index_key(*data, "total"@)) is None && e == ScrapeError::MissingField,
        },
{
    crate::feed::read_u64(data, "total")
}

/// The request offsets of `scrape`: `0, 20, 40, ...`, one per page of
/// twenty postings below the count (the loop's last addition gives
/// `page_count * 20`, which must fit in a `u64`).
pub fn page_offsets(count: u64) -> (r: Vec<u64>)
    requires
        page_count(count as nat, PAGE_SIZE as nat) * PAGE_SIZE <= u64::MAX,
    ensures
        r@ == start_rows_spec(count as nat, PAGE_SIZE as nat),
{
    start_rows(count, PAGE_SIZE)
}

} // verus!
