//! Generali: the title headings of one HTML search page.
use vstd::prelude::*;

use crate::html::{
    element_views, first_within, matches_of, opt_element_views, select_all, select_first_within,
    selector_parses, ElementView,
};
use crate::job::{
    collect_steps, job_views, lemma_collect_steps_push, lemma_collect_steps_stop, new_job, Job,
    JobId, JobIdView, JobView, ScrapeError, Step,
};
use crate::transliterate::{hash_text, xxhash64};

verus! {

/// The search page.
pub const PAGE_URL: &'static str = "https://cariere.generali.ro/jobs/search";

/// A posting's title heading.
pub const HEADING_SELECTOR: &'static str = ".h3-list-job-title";

/// The link inside a heading.
pub const ANCHOR_SELECTOR: &'static str = "a";

/// What one heading gives: its link (with an `href`) must be there. The
/// title is the link's text as it stands, the city is the country, and the
/// id is the xxHash (seed 0) of the link.
pub open spec fn heading_step(anchor: Option<ElementView>, company: Seq<char>, country: Seq<char>) -> Step {
    match anchor {
        None => Err(ScrapeError::MissingElement),
        Some(a) => match a.href {
            None => Err(ScrapeError::MissingAttribute),
            Some(link) => Ok(
                Some(
                    JobView {
                        id: JobIdView::Number(xxhash64(0, link)),
                        job_title: a.text,
                        job_link: link,
                        company: company,
                        country: country,
                        city: country,
                    },
                ),
            ),
        },
    }
}

/// The postings of the search page.
pub open spec fn page_jobs(body: Seq<char>, company: Seq<char>, country: Seq<char>) -> Result<
    Seq<JobView>,
    ScrapeError,
> {
    if !(selector_parses(HEADING_SELECTOR@) && selector_parses(ANCHOR_SELECTOR@)) {
        Err(ScrapeError::BadSelector)
    } else {
        let anchors = first_within(body, HEADING_SELECTOR@, ANCHOR_SELECTOR@);
        collect_steps(Seq::new(anchors.len(), |i: int| heading_step(anchors[i], company, country)))
    }
}

/// Reads the postings of the search page (`fetch_jobs` after the request).
pub fn parse_jobs(body: &str, company: &str, country: &str) -> (r: Result<Vec<Job>, ScrapeError>)
    ensures
        match r {
            Ok(v) => page_jobs(body@, company@, country@) == Ok::<_, ScrapeError>(job_views(v@)),
            Err(e) => page_jobs(body@, company@, country@) == Err::<Seq<JobView>, _>(e),
        },
{
    let anchors = match select_first_within(body, HEADING_SELECTOR, ANCHOR_SELECTOR) {
        Some(v) => v,
        None => return Err(ScrapeError::BadSelector),
    };
    let ghost av = first_within(body@, HEADING_SELECTOR@, ANCHOR_SELECTOR@);
    let ghost steps = Seq::new(av.len(), |i: int| heading_step(av[i], company@, country@));
    let mut jobs: Vec<Job> = Vec::new();
    assert(steps.take(0) =~= Seq::<Step>::empty());
    assert(job_views(jobs@) =~= Seq::<JobView>::empty());
    let mut i: usize = 0;
    while i < anchors.len()
        invariant
            i <= anchors@.len() == av.len() == steps.len(),
            opt_element_views(anchors@) == av,
            av == first_within(body@, HEADING_SELECTOR@, ANCHOR_SELECTOR@),
            selector_parses(HEADING_SELECTOR@) && selector_parses(ANCHOR_SELECTOR@),
            steps == Seq::new(av.len(), |i: int| heading_step(av[i], company@, country@)),
            collect_steps(steps.take(i as int)) == Ok::<_, ScrapeError>(job_views(jobs@)),
        decreases anchors.len() - i,
    {
        proof {
            lemma_collect_steps_push(steps, i as int);
        }
        let a = match &anchors[i] {
            Some(a) => a,
            None => {
                proof {
                    lemma_collect_steps_stop(steps, i as int);
                }
                return Err(ScrapeError::MissingElement);
            },
        };
        assert(av[i as int] == Some(a@));
        let link = match &a.href {
            Some(h) => h,
            None => {
                proof {
                    lemma_collect_steps_stop(steps, i as int);
                }
                return Err(ScrapeError::MissingAttribute);
            },
        };
        let job = new_job(
            JobId::Number(hash_text(0, link.as_str())),
            a.text.clone(),
            link.clone(),
            company,
            country,
            String::from_str(country),
        );
        let ghost before = jobs@;
        jobs.push(job);
        assert(job_views(jobs@) =~= job_views(before).push(job@));
        i = i + 1;
    }
    assert(steps.take(anchors@.len() as int) =~= steps);
    Ok(jobs)
}

/// The count that `job_count` reads: how many elements of the page carry
/// the heading class; a page with none has no first heading to read from.
pub open spec fn page_count_of(body: Seq<char>) -> Result<u64, ScrapeError> {
    if !selector_parses(HEADING_SELECTOR@) {
        Err(ScrapeError::BadSelector)
    } else {
        let headings = matches_of(body, HEADING_SELECTOR@);
        if headings.len() == 0 {
            Err(ScrapeError::MissingElement)
        } else {
            Ok(headings.len() as u64)
        }
    }
}

/// Reads that count from the search page (`job_count` after the request).
pub fn parse_job_count(body: &str) -> (r: Result<u64, ScrapeError>)
    ensures
        r == page_count_of(body@),
{
    let headings = match select_all(body, HEADING_SELECTOR) {
        Some(v) => v,
        None => return Err(ScrapeError::BadSelector),
    };
    if headings.len() == 0 {
        return Err(ScrapeError::MissingElement);
    }
    assert(element_views(headings@).len() == headings@.len());
    Ok(headings.len() as u64)
}

} // verus!
