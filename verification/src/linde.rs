//! Linde: a token read from the careers page, then a job-search API
//! answered by POST, twenty postings counted per page.
use vstd::prelude::*;

use crate::feed::{read_str, str_member};
use crate::job::{
    collect_steps, concat, job_views, lemma_collect_steps_push, lemma_collect_steps_stop, new_job,
    romanian_city, romanian_city_name, Job, JobId, JobIdView, JobView, ScrapeError, Step,
};
use crate::json::{as_i64_spec, as_str_spec, as_u64_spec, index_key, Json};
use crate::paging::{page_numbers, page_numbers_spec};
use crate::pattern::{capture, first_capture, pattern_compiles, Capture};
use crate::text::{signed_decimal, signed_decimal_string};
use crate::transliterate::{ascii_form, unidecode};

verus! {

/// The careers page that holds the token.
pub const TOKEN_PAGE_URL: &'static str = "https://linde.csod.com/ux/ats/careersite/20/home?c=linde&country=ro";

/// The job-search API.
pub const SEARCH_URL: &'static str = "https://eu-fra.api.csod.com/rec-job-search/external/jobs";

/// The token's assignment; its first group is the token.
pub const TOKEN_PATTERN: &'static str = "\"token\":\"([^\"]+)";

/// The page that a requisition's id is appended to.
pub const LINK_PREFIX: &'static str = "https://linde.csod.com/ux/ats/careersite/20/home/requisition/";

/// Postings counted per page.
pub const PAGE_SIZE: u64 = 20;

/// The token of the careers page: the first group of the first match of
/// the token's assignment, the empty text where there is none.
pub open spec fn page_token(html: Seq<char>) -> Result<Seq<char>, ScrapeError> {
    if !pattern_compiles(TOKEN_PATTERN@) {
        Err(ScrapeError::BadPattern)
    } else {
        match first_capture(TOKEN_PATTERN@, html, 1) {
            Some(Some(t)) => Ok(t),
            _ => Ok(seq![]),
        }
    }
}

/// Reads the token from the careers page (`get_token` after the request).
pub fn token_from_page(html: &str) -> (r: Result<String, ScrapeError>)
    ensures
        match r {
            Ok(t) => page_token(html@) == Ok::<_, ScrapeError>(t@),
            Err(e) => page_token(html@) == Err::<Seq<char>, _>(e),
        },
{
    match capture(TOKEN_PATTERN, html, 1) {
        Capture::BadPattern => Err(ScrapeError::BadPattern),
        Capture::NoMatch => Ok(String::new()),
        Capture::Group(None) => Ok(String::new()),
        Capture::Group(Some(t)) => Ok(t),
    }
}

/// Reads the posting count, `data.totalCount` (`job_count` after the
/// request).
pub fn count_from_feed(data: &Json) -> (r: Result<u64, ScrapeError>)
    ensures
        match r {
            Ok(n) => as_u64_spec(index_key(index_key(*data, "data"@), "totalCount"@)) == Some(n),
            Err(e) => as_u64_spec(index_key(index_key(*data, "data"@), "totalCount"@)) is None && e
                == ScrapeError::MissingField,
        },
{
    let null = Json::Null;
    crate::feed::read_u64(data.member_or("data", &null), "totalCount")
}

/// What one location of a requisition gives: its `country` must be a
/// string; a Romanian location with a `city` gives a posting, any other
/// location nothing.
pub open spec fn location_step(
    loc: Json,
    id: Seq<char>,
    title: Seq<char>,
    company: Seq<char>,
    country: Seq<char>,
) -> Step {
    match str_member(loc, "country"@) {
        None => Err(ScrapeError::MissingField),
        Some(c) => if c == "RO"@ {
            match str_member(loc, "city"@) {
                None => Ok(None),
                Some(city) => Ok(
                    Some(
                        JobView {
                            id: JobIdView::Text(id),
                            job_title: title,
                            job_link: LINK_PREFIX@ + id,
                            company: company,
                            country: country,
                            city: ascii_form(romanian_city(city)),
                        },
                    ),
                ),
            }
        } else {
            Ok(None)
        },
    }
}

/// The postings of one requisition: `requisitionId` must be an integer,
/// `displayJobTitle` a string and `locations` an array; one posting per
/// Romanian location with a city.
pub open spec fn requisition_jobs(job: Json, company: Seq<char>, country: Seq<char>) -> Result<
    Seq<JobView>,
    ScrapeError,
> {
    match (
        as_i64_spec(index_key(job, "requisitionId"@)),
        as_str_spec(index_key(job, "displayJobTitle"@)),
        index_key(job, "locations"@),
    ) {
        (Some(n), Some(title), Json::Array(locs)) => {
            let id = signed_decimal(n as int);
            collect_steps(
                Seq::new(locs@.len(), |k: int| location_step(locs@[k], id, title, company, country)),
            )
        },
        _ => Err(ScrapeError::MissingField),
    }
}

/// The postings of a run of requisitions; the first error stops the run.
pub open spec fn requisitions_jobs(jobs: Seq<Json>, company: Seq<char>, country: Seq<char>) -> Result<
    Seq<JobView>,
    ScrapeError,
>
    decreases jobs.len(),
{
    if jobs.len() == 0 {
        Ok(seq![])
    } else {
        match requisitions_jobs(jobs.drop_last(), company, country) {
            Err(e) => Err(e),
            Ok(prev) => match requisition_jobs(jobs.last(), company, country) {
                Err(e) => Err(e),
                Ok(more) => Ok(prev + more),
            },
        }
    }
}

/// A location that gives a posting: Romanian, with a city.
pub open spec fn romanian_with_city(loc: Json) -> bool {
    str_member(loc, "country"@) == Some("RO"@) && str_member(loc, "city"@) is Some
}

proof fn lemma_location_steps_count(
    locs: Seq<Json>,
    id: Seq<char>,
    title: Seq<char>,
    company: Seq<char>,
    country: Seq<char>,
    k: int,
)
    requires
        0 <= k <= locs.len(),
    ensures
        collect_steps(
            Seq::new(locs.len(), |i: int| location_step(locs[i], id, title, company, country)).take(k),
        ) matches Ok(w) ==> w.len() == locs.take(k).filter(|l: Json| romanian_with_city(l)).len()
            && forall|j: int|
            0 <= j < w.len() ==> (#[trigger] w[j]).id == JobIdView::Text(id) && w[j].job_title
                == title,
    decreases k,
{
    let steps = Seq::new(locs.len(), |i: int| location_step(locs[i], id, title, company, country));
    let pred = |l: Json| romanian_with_city(l);
    reveal(Seq::filter);
    if k == 0 {
        assert(steps.take(0) =~= Seq::<Step>::empty());
        assert(locs.take(0) =~= Seq::<Json>::empty());
    } else {
        lemma_location_steps_count(locs, id, title, company, country, k - 1);
        lemma_collect_steps_push(steps, k - 1);
        assert(locs.take(k).drop_last() =~= locs.take(k - 1));
        assert(locs.take(k).last() == locs[k - 1]);
    }
}

/// A requisition that is read gives one posting per Romanian location with
/// a city, each with the requisition's id and title.
pub proof fn lemma_requisition_one_per_romanian_location(r: Json, company: Seq<char>, country: Seq<char>)
    ensures
        requisition_jobs(r, company, country) matches Ok(v) ==> {
            &&& index_key(r, "locations"@) is Array
            &&& v.len() == index_key(r, "locations"@)->Array_0@.filter(
                |l: Json| romanian_with_city(l),
            ).len()
            &&& as_i64_spec(index_key(r, "requisitionId"@)) is Some
            &&& as_str_spec(index_key(r, "displayJobTitle"@)) is Some
            &&& forall|j: int|
                0 <= j < v.len() ==> (#[trigger] v[j]).id == JobIdView::Text(
                    signed_decimal(as_i64_spec(index_key(r, "requisitionId"@))->Some_0 as int),
                ) && v[j].job_title == as_str_spec(index_key(r, "displayJobTitle"@))->Some_0
        },
{
    if let (Some(n), Some(title), Json::Array(locs)) = (
        as_i64_spec(index_key(r, "requisitionId"@)),
        as_str_spec(index_key(r, "displayJobTitle"@)),
        index_key(r, "locations"@),
    ) {
        let id = signed_decimal(n as int);
        let steps = Seq::new(locs@.len(), |k: int| location_step(locs@[k], id, title, company, country));
        lemma_location_steps_count(locs@, id, title, company, country, locs@.len() as int);
        assert(steps.take(locs@.len() as int) =~= steps);
        assert(locs@.take(locs@.len() as int) =~= locs@);
    }
}

/// The outcome of reading two runs one after the other: the first error,
/// or the postings of the first run followed by those of the second.
pub open spec fn then_jobs(
    first: Result<Seq<JobView>, ScrapeError>,
    second: Result<Seq<JobView>, ScrapeError>,
) -> Result<Seq<JobView>, ScrapeError> {
    match first {
        Err(e) => Err(e),
        Ok(x) => match second {
            Err(e) => Err(e),
            Ok(y) => Ok(x + y),
        },
    }
}

/// Reading requisitions `a` followed by `b` gives the postings of `a`
/// followed by those of `b` (or the first error): no requisition's postings
/// replace those read before them.
pub proof fn lemma_requisitions_append(a: Seq<Json>, b: Seq<Json>, company: Seq<char>, country: Seq<char>)
    ensures
        requisitions_jobs(a + b, company, country) == then_jobs(
            requisitions_jobs(a, company, country),
            requisitions_jobs(b, company, country),
        ),
    decreases b.len(),
{
    if b.len() == 0 {
        assert(a + b =~= a);
        if let Ok(x) = requisitions_jobs(a, company, country) {
            assert(x + seq![] =~= x);
        }
    } else {
        lemma_requisitions_append(a, b.drop_last(), company, country);
        assert((a + b).drop_last() =~= a + b.drop_last());
        assert((a + b).last() == b.last());
        let ra = requisitions_jobs(a, company, country);
        let rb0 = requisitions_jobs(b.drop_last(), company, country);
        let rl = requisition_jobs(b.last(), company, country);
        if let (Ok(x), Ok(y), Ok(z)) = (ra, rb0, rl) {
            assert(x + y + z =~= x + (y + z));
        }
    }
}

/// A single requisition's postings are those of the requisition alone.
pub proof fn lemma_requisitions_single(r: Json, company: Seq<char>, country: Seq<char>)
    ensures
        requisitions_jobs(seq![r], company, country) == requisition_jobs(r, company, country),
{
    assert(seq![r].drop_last() =~= Seq::<Json>::empty());
    assert(requisitions_jobs(Seq::<Json>::empty(), company, country) == Ok::<_, ScrapeError>(Seq::<JobView>::empty()));
    assert(seq![r].last() == r);
    if let Ok(y) = requisition_jobs(r, company, country) {
        assert(Seq::<JobView>::empty() + y =~= y);
    }
}

/// The postings of a page are those of its requisitions, each read in turn
/// and added after the ones before: for requisitions `a` then `r`, the
/// page's postings are those of `a` followed by those of `r`.
pub proof fn lemma_page_postings_concatenate(
    data: Json,
    a: Seq<Json>,
    r: Json,
    company: Seq<char>,
    country: Seq<char>,
)
    requires
        index_key(index_key(data, "data"@), "requisitions"@) matches Json::Array(items) && items@
            == a.push(r),
    ensures
        feed_postings(data, company, country) == then_jobs(
            requisitions_jobs(a, company, country),
            requisition_jobs(r, company, country),
        ),
{
    assert(a.push(r) =~= a + seq![r]);
    lemma_requisitions_append(a, seq![r], company, country);
    lemma_requisitions_single(r, company, country);
}

/// The postings of a page: `data.requisitions` must be an array.
pub open spec fn feed_postings(data: Json, company: Seq<char>, country: Seq<char>) -> Result<
    Seq<JobView>,
    ScrapeError,
> {
    match index_key(index_key(data, "data"@), "requisitions"@) {
        Json::Array(items) => requisitions_jobs(items@, company, country),
        _ => Err(ScrapeError::MissingField),
    }
}

/// An error in a prefix of the requisitions is the error of the whole run.
proof fn lemma_requisitions_error(jobs: Seq<Json>, k: int, company: Seq<char>, country: Seq<char>)
    requires
        0 <= k <= jobs.len(),
        requisitions_jobs(jobs.take(k), company, country) is Err,
    ensures
        requisitions_jobs(jobs, company, country) == requisitions_jobs(jobs.take(k), company, country),
    decreases jobs.len() - k,
{
    if k < jobs.len() {
        assert(jobs.take(k + 1).drop_last() =~= jobs.take(k));
        lemma_requisitions_error(jobs, k + 1, company, country);
    } else {
        assert(jobs.take(k) =~= jobs);
    }
}

/// The postings of one requisition.
fn read_requisition(job: &Json, company: &str, country: &str) -> (r: Result<Vec<Job>, ScrapeError>)
    ensures
        r matches Ok(v) ==> crate::job::ascii_cities(v@),
        match r {
            Ok(v) => requisition_jobs(*job, company@, country@) == Ok::<_, ScrapeError>(job_views(v@)),
            Err(e) => requisition_jobs(*job, company@, country@) == Err::<Seq<JobView>, _>(e),
        },
{
    let null = Json::Null;
    let n = match job.member_or("requisitionId", &null).as_i64() {
        Some(n) => n,
        None => return Err(ScrapeError::MissingField),
    };
    let title = match job.member_or("displayJobTitle", &null).as_str() {
        Some(t) => String::from_str(t),
        None => return Err(ScrapeError::MissingField),
    };
    let locs = match job.member_or("locations", &null).as_array() {
        Some(l) => l,
        None => return Err(ScrapeError::MissingField),
    };
    let id = signed_decimal_string(n);
    let link = concat(LINK_PREFIX, id.as_str());
    let ghost steps = Seq::new(
        locs@.len(),
        |k: int| location_step(locs@[k], id@, title@, company@, country@),
    );
    let mut jobs: Vec<Job> = Vec::new();
    assert(steps.take(0) =~= Seq::<Step>::empty());
    assert(job_views(jobs@) =~= Seq::<JobView>::empty());
    assert(requisition_jobs(*job, company@, country@) == collect_steps(steps));
    let mut i: usize = 0;
    while i < locs.len()
        invariant
            i <= locs@.len() == steps.len(),
            requisition_jobs(*job, company@, country@) == collect_steps(steps),
            link@ == LINK_PREFIX@ + id@,
            steps == Seq::new(
                locs@.len(),
                |k: int| location_step(locs@[k], id@, title@, company@, country@),
            ),
            collect_steps(steps.take(i as int)) == Ok::<_, ScrapeError>(job_views(jobs@)),
            crate::job::ascii_cities(jobs@),
        decreases locs.len() - i,
    {
        proof {
            lemma_collect_steps_push(steps, i as int);
        }
        let loc = &locs[i];
        let c = match read_str(loc, "country") {
            Ok(c) => c,
            Err(e) => {
                proof {
                    lemma_collect_steps_stop(steps, i as int);
                }
                return Err(e);
            },
        };
        proof {
            reveal_strlit("RO");
        }
        if crate::text::same_text(c.as_str(), "RO") {
            if let Ok(city) = read_str(loc, "city") {
                let city = unidecode(romanian_city_name(city.as_str()).as_str());
                let posting = new_job(
                    JobId::Text(id.clone()),
                    title.clone(),
                    link.clone(),
                    company,
                    country,
                    city,
                );
                let ghost before = jobs@;
                jobs.push(posting);
                proof {
                    crate::job::lemma_ascii_cities_push(before, jobs@);
                }
                assert(job_views(jobs@) =~= job_views(before).push(posting@));
            }
        }
        i = i + 1;
    }
    assert(steps.take(locs@.len() as int) =~= steps);
    Ok(jobs)
}

/// Reads the postings of one page (`fetch_jobs` after the request).
pub fn jobs_from_feed(data: &Json, company: &str, country: &str) -> (r: Result<Vec<Job>, ScrapeError>)
    ensures
        r matches Ok(v) ==> crate::job::ascii_cities(v@),
        match r {
            Ok(v) => feed_postings(*data, company@, country@) == Ok::<_, ScrapeError>(job_views(v@)),
            Err(e) => feed_postings(*data, company@, country@) == Err::<Seq<JobView>, _>(e),
        },
{
    let null = Json::Null;
    let items = match data.member_or("data", &null).member_or("requisitions", &null).as_array() {
        Some(items) => items,
        None => return Err(ScrapeError::MissingField),
    };
    let mut jobs: Vec<Job> = Vec::new();
    assert(items@.take(0) =~= Seq::<Json>::empty());
    assert(job_views(jobs@) =~= Seq::<JobView>::empty());
    let mut i: usize = 0;
    while i < items.len()
        invariant
            i <= items@.len(),
            index_key(index_key(*data, "data"@), "requisitions"@) == Json::Array(*items),
            requisitions_jobs(items@.take(i as int), company@, country@) == Ok::<_, ScrapeError>(
                job_views(jobs@),
            ),
            crate::job::ascii_cities(jobs@),
        decreases items.len() - i,
    {
        assert(items@.take(i + 1).drop_last() =~= items@.take(i as int));
        match read_requisition(&items[i], company, country) {
            Ok(more) => {
                let ghost before = jobs@;
                let ghost added = more@;
                let mut more = more;
                jobs.append(&mut more);
                assert(job_views(jobs@) =~= job_views(before) + job_views(added));
                proof {
                    crate::job::lemma_ascii_cities_append(before, added);
                }
            },
            Err(e) => {
                proof {
                    lemma_requisitions_error(items@, i + 1, company@, country@);
                }
                return Err(e);
            },
        }
        i = i + 1;
    }
    assert(items@.take(items@.len() as int) =~= items@);
    Ok(jobs)
}

/// The pages to ask for: `1 ..= (count + 19) / 20`.
pub fn pages(count: u64) -> (r: Vec<u64>)
    requires
        count + PAGE_SIZE - 1 <= u64::MAX,
    ensures
        r@ == page_numbers_spec(count as nat, PAGE_SIZE as nat),
{
    page_numbers(count, PAGE_SIZE)
}

} // verus!
