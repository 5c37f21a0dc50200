//! Kaufland: a job-map service asked once per location that its facets
//! list.
use vstd::prelude::*;

use crate::feed::{read_str, str_member};
use crate::job::{
    collect_steps, job_views, lemma_collect_steps_push, lemma_collect_steps_stop, new_job,
    romanian_city, romanian_city_name, Job, JobId, JobIdView, JobView, ScrapeError, Step,
};
use crate::json::{index_key, json_text, Json};
use crate::transliterate::{ascii_form, unidecode};

verus! {

/// The facets request that lists the locations.
pub const FACETS_URL: &'static str = "https://rmk-map-12.jobs2web.com/services/jobmap/jobs/facets?siteid=Gi8p27qFoBvZm%2FcnHxoZEQ%3D%3D&mapType=GOOGLE_MAP&jobTitle=&locale=ro_RO&brand=Romania&limittobrand=true";

/// The jobs request of a location, before its coordinates are put in.
pub const BASE_URL: &'static str = "https://rmk-map-12.jobs2web.com/services/jobmap/jobs?siteid=Gi8p27qFoBvZm%2FcnHxoZEQ%3D%3D&mapType=GOOGLE_MAP&jobTitle=&coordinates=45.7684%2C24.1805&locale=ro_RO&brand=Romania&limittobrand=false";

/// The coordinates part of `BASE_URL`, which a location's coordinates
/// replace.
pub const COORDINATES_PART: &'static str = "coordinates=45.7684%2C24.1805";

/// `BASE_URL` up to its coordinates part.
pub const URL_HEAD: &'static str = "https://rmk-map-12.jobs2web.com/services/jobmap/jobs?siteid=Gi8p27qFoBvZm%2FcnHxoZEQ%3D%3D&mapType=GOOGLE_MAP&jobTitle=&";

/// `BASE_URL` after its coordinates part.
pub const URL_TAIL: &'static str = "&locale=ro_RO&brand=Romania&limittobrand=false";

/// The text that precedes a location's coordinates.
pub const COORDINATES_LABEL: &'static str = "coordinates=";

/// `BASE_URL` is its head, its coordinates part and its tail.
pub proof fn lemma_base_url_parts()
    ensures
        BASE_URL@ == URL_HEAD@ + COORDINATES_PART@ + URL_TAIL@,
{
    reveal_strlit("https://rmk-map-12.jobs2web.com/services/jobmap/jobs?siteid=Gi8p27qFoBvZm%2FcnHxoZEQ%3D%3D&mapType=GOOGLE_MAP&jobTitle=&coordinates=45.7684%2C24.1805&locale=ro_RO&brand=Romania&limittobrand=false");
    reveal_strlit("https://rmk-map-12.jobs2web.com/services/jobmap/jobs?siteid=Gi8p27qFoBvZm%2FcnHxoZEQ%3D%3D&mapType=GOOGLE_MAP&jobTitle=&");
    reveal_strlit("coordinates=45.7684%2C24.1805");
    reveal_strlit("&locale=ro_RO&brand=Romania&limittobrand=false");
    assert(BASE_URL@ =~= URL_HEAD@ + COORDINATES_PART@ + URL_TAIL@);
}

/// One location of the facets list.
#[derive(Debug, PartialEq, Eq)]
pub struct Location {
    pub latitude: String,
    pub longitude: String,
    pub total: i32,
}

/// The jobs request of a location: `BASE_URL` with its coordinates part
/// replaced by the location's `coordinates=latitude,longitude`.
pub open spec fn location_url_spec(latitude: Seq<char>, longitude: Seq<char>) -> Seq<char> {
    URL_HEAD@ + COORDINATES_LABEL@ + latitude + seq![','] + longitude + URL_TAIL@
}

/// The jobs request of a location (the start of `fetch_jobs`).
pub fn location_url(location: &Location) -> (r: String)
    ensures
        r@ == location_url_spec(location.latitude@, location.longitude@),
{
    let mut url = String::from_str(URL_HEAD);
    url.append(COORDINATES_LABEL);
    url.append(location.latitude.as_str());
    url.append(",");
    url.append(location.longitude.as_str());
    url.append(URL_TAIL);
    proof {
        reveal_strlit(",");
        assert((",")@ =~= seq![',']);
    }
    url
}

/// The posting of one job: `title`, `url` and `city` must be strings; the id
/// is the JSON text of `siteid`.
pub open spec fn map_job(job: Json, company: Seq<char>, country: Seq<char>) -> Step {
    match (str_member(job, "title"@), str_member(job, "url"@), str_member(job, "city"@)) {
        (Some(title), Some(url), Some(city)) => Ok(
            Some(
                JobView {
                    id: JobIdView::Text(json_text(index_key(job, "siteid"@))),
                    job_title: title,
                    job_link: url,
                    company: company,
                    country: country,
                    city: ascii_form(romanian_city(city)),
                },
            ),
        ),
        _ => Err(ScrapeError::MissingField),
    }
}

/// The postings of a location's answer, which must be an array.
pub open spec fn answer_jobs(data: Json, company: Seq<char>, country: Seq<char>) -> Result<
    Seq<JobView>,
    ScrapeError,
> {
    match data {
        Json::Array(items) => collect_steps(
            Seq::new(items@.len(), |i: int| map_job(items@[i], company, country)),
        ),
        _ => Err(ScrapeError::MissingField),
    }
}

/// Reads the postings of a location's answer (`fetch_jobs` after the
/// request).
pub fn jobs_from_answer(data: &Json, company: &str, country: &str) -> (r: Result<Vec<Job>, ScrapeError>)
    ensures
        r matches Ok(v) ==> crate::job::ascii_cities(v@),
        match r {
            Ok(v) => answer_jobs(*data, company@, country@) == Ok::<_, ScrapeError>(job_views(v@)),
            Err(e) => answer_jobs(*data, company@, country@) == Err::<Seq<JobView>, _>(e),
        },
{
    let items = match data.as_array() {
        Some(items) => items,
        None => return Err(ScrapeError::MissingField),
    };
    let ghost steps = Seq::new(items@.len(), |i: int| map_job(items@[i], company@, country@));
    let mut jobs: Vec<Job> = Vec::new();
    assert(steps.take(0) =~= Seq::<Step>::empty());
    assert(job_views(jobs@) =~= Seq::<JobView>::empty());
    let mut i: usize = 0;
    while i < items.len()
        invariant
            i <= items@.len() == steps.len(),
            *data == Json::Array(*items),
            steps == Seq::new(items@.len(), |i: int| map_job(items@[i], company@, country@)),
            collect_steps(steps.take(i as int)) == Ok::<_, ScrapeError>(job_views(jobs@)),
            crate::job::ascii_cities(jobs@),
        decreases items.len() - i,
    {
        proof {
            lemma_collect_steps_push(steps, i as int);
        }
        let job = &items[i];
        let null = Json::Null;
        let id = job.member_or("siteid", &null).to_text();
        let fields = (read_str(job, "title"), read_str(job, "url"), read_str(job, "city"));
        match fields {
            (Ok(title), Ok(url), Ok(city)) => {
                let city = unidecode(romanian_city_name(city.as_str()).as_str());
                let posting = new_job(JobId::Text(id), title, url, company, country, city);
                let ghost before = jobs@;
                jobs.push(posting);
                proof {
                    crate::job::lemma_ascii_cities_push(before, jobs@);
                }
                assert(job_views(jobs@) =~= job_views(before).push(posting@));
            },
            _ => {
                proof {
                    lemma_collect_steps_stop(steps, i as int);
                }
                return Err(ScrapeError::MissingField);
            },
        }
        i = i + 1;
    }
    assert(steps.take(items@.len() as int) =~= steps);
    Ok(jobs)
}

} // verus!
