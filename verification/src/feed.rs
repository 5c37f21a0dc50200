//! Postings of JSON feeds whose entries carry the posting's id, title, link
//! and city as string members (the boards behind Decathlon, FedEx, H&M and
//! the reader template).
use vstd::prelude::*;

use crate::job::{
    collect_steps, job_views, lemma_collect_steps_push, lemma_collect_steps_stop, new_job,
    romanian_city, romanian_city_name, Job, JobId, JobIdView, JobView, ScrapeError, Step,
};
use crate::json::{as_str_spec, as_u64_spec, index_key, Json};
use crate::transliterate::{ascii_form, unidecode};

verus! {

/// The members that hold a posting's id, title, link and city.
pub struct FeedKeys {
    pub id: &'static str,
    pub title: &'static str,
    pub link: &'static str,
    pub city: &'static str,
}

/// The object that holds the posting's members: the entry itself, or its
/// member `nest`.
pub open spec fn entry_of(job: Json, nest: Option<Seq<char>>) -> Json {
    match nest {
        Some(k) => index_key(job, k),
        None => job,
    }
}

/// The string member `key` of `e`, if it is one.
pub open spec fn str_member(e: Json, key: Seq<char>) -> Option<Seq<char>> {
    as_str_spec(index_key(e, key))
}

/// The posting of one entry: all four members must be strings; the city is
/// written the Romanian way and transliterated to ASCII.
pub open spec fn feed_job(
    job: Json,
    nest: Option<Seq<char>>,
    keys: FeedKeys,
    company: Seq<char>,
    country: Seq<char>,
) -> Step {
    let e = entry_of(job, nest);
    match (
        str_member(e, keys.id@),
        str_member(e, keys.title@),
        str_member(e, keys.link@),
        str_member(e, keys.city@),
    ) {
        (Some(id), Some(title), Some(link), Some(city)) => Ok(
            Some(
                JobView {
                    id: JobIdView::Text(id),
                    job_title: title,
                    job_link: link,
                    company: company,
                    country: country,
                    city: ascii_form(romanian_city(city)),
                },
            ),
        ),
        _ => Err(ScrapeError::MissingField),
    }
}

/// The postings of a feed: the member `list_key` must be an array; each of
/// its entries gives one posting.
pub open spec fn feed_jobs_spec(
    data: Json,
    list_key: Seq<char>,
    nest: Option<Seq<char>>,
    keys: FeedKeys,
    company: Seq<char>,
    country: Seq<char>,
) -> Result<Seq<JobView>, ScrapeError> {
    match index_key(data, list_key) {
        Json::Array(items) => collect_steps(
            Seq::new(items@.len(), |i: int| feed_job(items@[i], nest, keys, company, country)),
        ),
        _ => Err(ScrapeError::MissingField),
    }
}

/// The string member `key` of `e` (`e[key].as_str()`), or `MissingField`.
pub fn read_str(e: &Json, key: &str) -> (r: Result<String, ScrapeError>)
    ensures
        match r {
            Ok(s) => str_member(*e, key@) == Some(s@),
            Err(err) => str_member(*e, key@) is None && err == ScrapeError::MissingField,
        },
{
    match e.member(key) {
        Some(v) => match v.as_str() {
            Some(s) => Ok(String::from_str(s)),
            None => Err(ScrapeError::MissingField),
        },
        None => Err(ScrapeError::MissingField),
    }
}

/// The number member `key` of `e` (`e[key].as_u64()`), or `MissingField`.
pub fn read_u64(e: &Json, key: &str) -> (r: Result<u64, ScrapeError>)
    ensures
        match r {
            Ok(n) => as_u64_spec(index_key(*e, key@)) == Some(n),
            Err(err) => as_u64_spec(index_key(*e, key@)) is None && err == ScrapeError::MissingField,
        },
{
    match e.member(key) {
        Some(v) => match v.as_u64() {
            Some(n) => Ok(n),
            None => Err(ScrapeError::MissingField),
        },
        None => Err(ScrapeError::MissingField),
    }
}

/// The posting of one entry.
fn read_feed_job(job: &Json, nest: Option<&str>, keys: &FeedKeys, company: &str, country: &str) -> (r: Result<Job, ScrapeError>)
    ensures
        r matches Ok(j) ==> crate::transliterate::is_ascii_text(j.city@),
        match r {
            Ok(j) => feed_job(*job, opt_str_view(nest), *keys, company@, country@) == Ok::<_, ScrapeError>(Some(j@)),
            Err(e) => feed_job(*job, opt_str_view(nest), *keys, company@, country@) == Err::<Option<JobView>, _>(e),
        },
{
    let null = Json::Null;
    let e: &Json = match nest {
        None => job,
        Some(k) => match job.member(k) {
            Some(v) => v,
            None => &null,
        },
    };
    assert(*e == entry_of(*job, opt_str_view(nest)));
    let id = read_str(e, keys.id)?;
    let title = read_str(e, keys.title)?;
    let link = read_str(e, keys.link)?;
    let city = read_str(e, keys.city)?;
    let city = unidecode(romanian_city_name(city.as_str()).as_str());
    Ok(new_job(JobId::Text(id), title, link, company, country, city))
}

/// The characters of an optional `&str`.
pub open spec fn opt_str_view(o: Option<&str>) -> Option<Seq<char>> {
    match o {
        Some(s) => Some(s@),
        None => None,
    }
}

/// Reads the postings of a feed (the readers' `fetch_jobs` after the
/// request).
pub fn feed_jobs(
    data: &Json,
    list_key: &str,
    nest: Option<&str>,
    keys: &FeedKeys,
    company: &str,
    country: &str,
) -> (r: Result<Vec<Job>, ScrapeError>)
    ensures
        r matches Ok(v) ==> crate::job::ascii_cities(v@),
        match r {
            Ok(v) => feed_jobs_spec(*data, list_key@, opt_str_view(nest), *keys, company@, country@)
                == Ok::<_, ScrapeError>(job_views(v@)),
            Err(e) => feed_jobs_spec(*data, list_key@, opt_str_view(nest), *keys, company@, country@)
                == Err::<Seq<JobView>, _>(e),
        },
{
    let items = match data.member(list_key) {
        Some(v) => match v.as_array() {
            Some(items) => items,
            None => return Err(ScrapeError::MissingField),
        },
        None => return Err(ScrapeError::MissingField),
    };
    let ghost steps = Seq::new(
        items@.len(),
        |i: int| feed_job(items@[i], opt_str_view(nest), *keys, company@, country@),
    );
    let mut jobs: Vec<Job> = Vec::new();
    assert(steps.take(0) =~= Seq::<Step>::empty());
    assert(job_views(jobs@) =~= Seq::<JobView>::empty());
    let mut i: usize = 0;
    while i < items.len()
        invariant
            i <= items@.len() == steps.len(),
            index_key(*data, list_key@) == Json::Array(*items),
            steps == Seq::new(
                items@.len(),
                |i: int| feed_job(items@[i], opt_str_view(nest), *keys, company@, country@),
            ),
            collect_steps(steps.take(i as int)) == Ok::<_, ScrapeError>(job_views(jobs@)),
            crate::job::ascii_cities(jobs@),
        decreases items.len() - i,
    {
        proof {
            lemma_collect_steps_push(steps, i as int);
        }
        match read_feed_job(&items[i], nest, keys, company, country) {
            Ok(job) => {
                let ghost before = jobs@;
                jobs.push(job);
                proof {
                    crate::job::lemma_ascii_cities_push(before, jobs@);
                }
                assert(job_views(jobs@) =~= job_views(before).push(job@));
            },
            Err(e) => {
                proof {
                    lemma_collect_steps_stop(steps, i as int);
                }
                return Err(e);
            },
        }
        i = i + 1;
    }
    assert(steps.take(items@.len() as int) =~= steps);
    Ok(jobs)
}

} // verus!
