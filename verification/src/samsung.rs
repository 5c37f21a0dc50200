//! Samsung: a Workday search answered by POST, read ten postings at a time
//! until the offset reaches the total.
use vstd::prelude::*;

use crate::feed::{read_str, str_member};
use crate::job::{
    collect_steps, job_views, lemma_collect_steps_push, lemma_collect_steps_stop, new_job, Job,
    JobId, JobIdView, JobView, ScrapeError, Step,
};
use crate::json::{as_i64_spec, as_str_spec, as_u64_spec, index_key, index_pos, Json};
use crate::text::{
    contains_seq, contains_str, lemma_split_char_absent, lemma_split_char_concat, split_seq, split_str,
    trim, trimmed, views,
};
use crate::transliterate::{ascii_form, unidecode};

verus! {

/// The search's address.
pub const SEARCH_URL: &'static str = "https://sec.wd3.myworkdayjobs.com/wday/cxs/sec/Samsung_Careers/jobs";

/// Postings asked per request.
pub const PAGE_LIMIT: i64 = 10;

/// The text that the search is asked with.
pub const SEARCH_TEXT: &'static str = "Romania";

/// The city of a posting: the second comma-separated part of its locations
/// text, trimmed; "Bucuresti" where that mentions Bucharest.
pub open spec fn posting_city(locations: Seq<char>) -> Option<Seq<char>> {
    let parts = split_seq(locations, seq![',']);
    if parts.len() < 2 {
        None
    } else {
        let c = trimmed(parts[1]);
        Some(
            if contains_seq(c, "Bucharest"@) {
                "Bucuresti"@
            } else {
                c
            },
        )
    }
}

/// The city of a locations text is its second comma-separated part,
/// trimmed ("Bucuresti" where that mentions Bucharest), and the parts that
/// follow the second one do not change it.
pub proof fn lemma_posting_city_second_part(first: Seq<char>, second: Seq<char>, rest: Seq<char>)
    requires
        !first.contains(','),
        !second.contains(','),
    ensures
        posting_city(first + seq![','] + second) == Some(
            if contains_seq(trimmed(second), "Bucharest"@) {
                "Bucuresti"@
            } else {
                trimmed(second)
            },
        ),
        posting_city(first + seq![','] + second + seq![','] + rest) == posting_city(
            first + seq![','] + second,
        ),
{
    let two = first + seq![','] + second;
    lemma_split_char_concat(first, second, ',');
    lemma_split_char_absent(first, ',');
    lemma_split_char_absent(second, ',');
    assert(split_seq(two, seq![',']) =~= seq![first, second]);
    lemma_split_char_concat(two, rest, ',');
    let more = seq![first, second] + split_seq(rest, seq![',']);
    assert(more[1] == second);
}

/// The posting of one entry: `bulletFields[0]`, `title`, `externalPath` and
/// `locationsText` must be strings, and the locations text must have a
/// second part.
pub open spec fn posting_job(job: Json, company: Seq<char>, country: Seq<char>) -> Step {
    match (
        as_str_spec(index_pos(index_key(job, "bulletFields"@), 0)),
        str_member(job, "title"@),
        str_member(job, "externalPath"@),
        str_member(job, "locationsText"@),
    ) {
        (Some(id), Some(title), Some(path), Some(locations)) => match posting_city(locations) {
            None => Err(ScrapeError::MissingPart),
            Some(city) => Ok(
                Some(
                    JobView {
                        id: JobIdView::Text(id),
                        job_title: title,
                        job_link: path,
                        company: company,
                        country: country,
                        city: ascii_form(city),
                    },
                ),
            ),
        },
        _ => Err(ScrapeError::MissingField),
    }
}

/// The postings of one answer: `jobPostings` must be an array.
pub open spec fn page_postings(data: Json, company: Seq<char>, country: Seq<char>) -> Result<
    Seq<JobView>,
    ScrapeError,
> {
    match index_key(data, "jobPostings"@) {
        Json::Array(items) => collect_steps(
            Seq::new(items@.len(), |i: int| posting_job(items@[i], company, country)),
        ),
        _ => Err(ScrapeError::MissingField),
    }
}

/// When an answer is read, it gives one posting per entry of `jobPostings`,
/// in order, and posting `k` is placed in the city of entry `k`'s
/// locations text.
pub proof fn lemma_page_postings_cities(data: Json, company: Seq<char>, country: Seq<char>)
    ensures
        index_key(data, "jobPostings"@) matches Json::Array(items) ==> (page_postings(
            data,
            company,
            country,
        ) matches Ok(v) ==> v.len() == items@.len() && forall|k: int|
            0 <= k < items@.len() ==> (str_member(items@[k], "locationsText"@) matches Some(loc)
                && posting_city(loc) matches Some(c) && (#[trigger] v[k]).city == ascii_form(c))),
{
    if let Json::Array(items) = index_key(data, "jobPostings"@) {
        let steps = Seq::new(items@.len(), |i: int| posting_job(items@[i], company, country));
        assert forall|i: int| 0 <= i < steps.len() implies !(#[trigger] steps[i] matches Ok(None)) by {
        }
        crate::job::lemma_collect_steps_one_each(steps);
        if let Ok(v) = page_postings(data, company, country) {
            assert forall|k: int| 0 <= k < items@.len() implies (str_member(items@[k], "locationsText"@) matches Some(loc)
                && posting_city(loc) matches Some(c) && (#[trigger] v[k]).city == ascii_form(c)) by {
                assert(steps[k] == Ok::<Option<JobView>, ScrapeError>(Some(v[k])));
            }
        }
    }
}

/// The city of a locations text.
fn city_of(locations: &str) -> (r: Option<String>)
    ensures
        crate::html::opt_view(r) == posting_city(locations@),
{
    proof {
        reveal_strlit(",");
    }
    let parts = split_str(locations, ",");
    assert((",")@ =~= seq![',']);
    if parts.len() < 2 {
        return None;
    }
    assert(views(parts@)[1] == parts@[1]@);
    let c = trim(parts[1].as_str());
    if contains_str(c.as_str(), "Bucharest") {
        Some(String::from_str("Bucuresti"))
    } else {
        Some(c)
    }
}

/// Reads the postings of one answer (the reading part of `fetch_jobs`'
/// loop).
pub fn jobs_from_page(data: &Json, company: &str, country: &str) -> (r: Result<Vec<Job>, ScrapeError>)
    ensures
        r matches Ok(v) ==> crate::job::ascii_cities(v@),
        match r {
            Ok(v) => page_postings(*data, company@, country@) == Ok::<_, ScrapeError>(job_views(v@)),
            Err(e) => page_postings(*data, company@, country@) == Err::<Seq<JobView>, _>(e),
        },
{
    let null = Json::Null;
    let items = match data.member_or("jobPostings", &null).as_array() {
        Some(items) => items,
        None => return Err(ScrapeError::MissingField),
    };
    let ghost steps = Seq::new(items@.len(), |i: int| posting_job(items@[i], company@, country@));
    let mut jobs: Vec<Job> = Vec::new();
    assert(steps.take(0) =~= Seq::<Step>::empty());
    assert(job_views(jobs@) =~= Seq::<JobView>::empty());
    let mut i: usize = 0;
    while i < items.len()
        invariant
            i <= items@.len() == steps.len(),
            index_key(*data, "jobPostings"@) == Json::Array(*items),
            steps == Seq::new(items@.len(), |i: int| posting_job(items@[i], company@, country@)),
            collect_steps(steps.take(i as int)) == Ok::<_, ScrapeError>(job_views(jobs@)),
            crate::job::ascii_cities(jobs@),
        decreases items.len() - i,
    {
        proof {
            lemma_collect_steps_push(steps, i as int);
        }
        let job = &items[i];
        let null = Json::Null;
        let id = job.member_or("bulletFields", &null).element_or(0, &null).as_str();
        let fields = (read_str(job, "title"), read_str(job, "externalPath"), read_str(job, "locationsText"));
        match (id, fields) {
            (Some(id), (Ok(title), Ok(path), Ok(locations))) => {
                match city_of(locations.as_str()) {
                    Some(city) => {
                        let posting = new_job(
                            JobId::Text(String::from_str(id)),
                            title,
                            path,
                            company,
                            country,
                            unidecode(city.as_str()),
                        );
                        let ghost before = jobs@;
                        jobs.push(posting);
                        proof {
                            crate::job::lemma_ascii_cities_push(before, jobs@);
                        }
                        assert(job_views(jobs@) =~= job_views(before).push(posting@));
                    },
                    None => {
                        proof {
                            lemma_collect_steps_stop(steps, i as int);
                        }
                        return Err(ScrapeError::MissingPart);
                    },
                }
            },
            _ => {
                proof {
                    lemma_collect_steps_stop(steps, i as int);
                }
                return Err(ScrapeError::MissingField);
            },
        }
        i = i + 1;
    }
    assert(steps.take(items@.len() as int) =~= steps);
    Ok(jobs)
}

/// Reads the total that an answer states, `total` as a signed integer (the
/// first read of `fetch_jobs`' loop).
pub fn total_from_page(data: &Json) -> (r: Result<i64, ScrapeError>)
    ensures
        match r {
            Ok(n) => as_i64_spec(index_key(*data, "total"@)) == Some(n),
            Err(e) => as_i64_spec(index_key(*data, "total"@)) is None && e == ScrapeError::MissingField,
        },
{
    let null = Json::Null;
    match data.member_or("total", &null).as_i64() {
        Some(n) => Ok(n),
        None => Err(ScrapeError::MissingField),
    }
}

/// Reads the posting count, `total` as an unsigned integer (`job_count`
/// after the request).
pub fn count_from_page(data: &Json) -> (r: Result<u64, ScrapeError>)
    ensures
        match r {
            Ok(n) => as_u64_spec(index_key(*data, "total"@)) == Some(n),
            Err(e) => as_u64_spec(index_key(*data, "total"@)) is None && e == ScrapeError::MissingField,
        },
{
    crate::feed::read_u64(data, "total")
}

/// The offset of the next request after the one at `offset`: none once
/// `offset + limit` reaches the total (the decision of `fetch_jobs`' loop).
pub fn next_offset(offset: i64, limit: i64, total: i64) -> (r: Option<i64>)
    requires
        i64::MIN <= offset + limit <= i64::MAX,
    ensures
        r == (if offset + limit >= total {
            None::<i64>
        } else {
            Some((offset + limit) as i64)
        }),
{
    if offset + limit >= total {
        None
    } else {
        Some(offset + limit)
    }
}

} // verus!
