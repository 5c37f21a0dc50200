//! BRD: the cards of one HTML careers page.
use vstd::prelude::*;

use crate::html::{
    first_within, matches_of, opt_element_views, select_all, select_first_within, selector_parses,
    ElementView,
};
use crate::job::{
    collect_steps, concat, job_views, lemma_collect_steps_push, lemma_collect_steps_stop, new_job,
    Job, JobId, JobIdView, JobView, ScrapeError, Step,
};
use crate::text::{trim, trimmed};
use crate::transliterate::{hash_text, xxhash64};

verus! {

/// The careers page that the postings are read from.
pub const PAGE_URL: &'static str = "https://www.brd.ro/cariere/cariere-brd";

/// The page that the posting count is read from.
pub const COUNT_URL: &'static str = "https://www.brd.ro/ro/cariere";

/// A posting's card.
pub const CARD_SELECTOR: &'static str = ".col-sm-12.col-md-6";

/// The title inside a card.
pub const TITLE_SELECTOR: &'static str = ".card-header";

/// The posting's link inside a card.
pub const LINK_SELECTOR: &'static str = ".button.button-red";

/// The site that posting links are relative to.
pub const LINK_PREFIX: &'static str = "https://www.brd.ro";

/// The city given to every posting.
pub const CITY: &'static str = "Romania";

/// What one card gives: its title and its link (with an `href`) must be
/// there; the id is the xxHash (seed 0) of the link.
pub open spec fn card_step(
    title: Option<ElementView>,
    link: Option<ElementView>,
    company: Seq<char>,
    country: Seq<char>,
) -> Step {
    match (title, link) {
        (None, _) => Err(ScrapeError::MissingElement),
        (Some(_), None) => Err(ScrapeError::MissingElement),
        (Some(t), Some(l)) => match l.href {
            None => Err(ScrapeError::MissingAttribute),
            Some(href) => Ok(
                Some(
                    JobView {
                        id: JobIdView::Number(xxhash64(0, href)),
                        job_title: trimmed(t.text),
                        job_link: LINK_PREFIX@ + href,
                        company: company,
                        country: country,
                        city: CITY@,
                    },
                ),
            ),
        },
    }
}

/// The postings of the careers page.
pub open spec fn page_jobs(body: Seq<char>, company: Seq<char>, country: Seq<char>) -> Result<
    Seq<JobView>,
    ScrapeError,
> {
    if !(selector_parses(CARD_SELECTOR@) && selector_parses(TITLE_SELECTOR@) && selector_parses(
        LINK_SELECTOR@,
    )) {
        Err(ScrapeError::BadSelector)
    } else {
        let titles = first_within(body, CARD_SELECTOR@, TITLE_SELECTOR@);
        let links = first_within(body, CARD_SELECTOR@, LINK_SELECTOR@);
        collect_steps(
            Seq::new(titles.len(), |i: int| card_step(titles[i], links[i], company, country)),
        )
    }
}

/// Reads the postings of the careers page (`fetch_jobs` after the request).
pub fn parse_jobs(body: &str, company: &str, country: &str) -> (r: Result<Vec<Job>, ScrapeError>)
    ensures
        match r {
            Ok(v) => page_jobs(body@, company@, country@) == Ok::<_, ScrapeError>(job_views(v@)),
            Err(e) => page_jobs(body@, company@, country@) == Err::<Seq<JobView>, _>(e),
        },
{
    let titles = match select_first_within(body, CARD_SELECTOR, TITLE_SELECTOR) {
        Some(v) => v,
        None => return Err(ScrapeError::BadSelector),
    };
    let links = match select_first_within(body, CARD_SELECTOR, LINK_SELECTOR) {
        Some(v) => v,
        None => return Err(ScrapeError::BadSelector),
    };
    let ghost tv = first_within(body@, CARD_SELECTOR@, TITLE_SELECTOR@);
    let ghost kv = first_within(body@, CARD_SELECTOR@, LINK_SELECTOR@);
    let ghost steps = Seq::new(tv.len(), |i: int| card_step(tv[i], kv[i], company@, country@));
    let mut jobs: Vec<Job> = Vec::new();
    assert(steps.take(0) =~= Seq::<Step>::empty());
    assert(job_views(jobs@) =~= Seq::<JobView>::empty());
    let mut i: usize = 0;
    while i < titles.len()
        invariant
            i <= titles@.len() == links@.len() == tv.len() == steps.len(),
            opt_element_views(titles@) == tv,
            opt_element_views(links@) == kv,
            tv == first_within(body@, CARD_SELECTOR@, TITLE_SELECTOR@),
            kv == first_within(body@, CARD_SELECTOR@, LINK_SELECTOR@),
            selector_parses(CARD_SELECTOR@) && selector_parses(TITLE_SELECTOR@)
                && selector_parses(LINK_SELECTOR@),
            steps == Seq::new(tv.len(), |i: int| card_step(tv[i], kv[i], company@, country@)),
            collect_steps(steps.take(i as int)) == Ok::<_, ScrapeError>(job_views(jobs@)),
        decreases titles.len() - i,
    {
        proof {
            lemma_collect_steps_push(steps, i as int);
        }
        let t = match &titles[i] {
            Some(t) => t,
            None => {
                proof {
                    lemma_collect_steps_stop(steps, i as int);
                }
                return Err(ScrapeError::MissingElement);
            },
        };
        let l = match &links[i] {
            Some(l) => l,
            None => {
                proof {
                    lemma_collect_steps_stop(steps, i as int);
                }
                return Err(ScrapeError::MissingElement);
            },
        };
        assert(tv[i as int] == Some(t@) && kv[i as int] == Some(l@));
        let href = match &l.href {
            Some(h) => h,
            None => {
                proof {
                    lemma_collect_steps_stop(steps, i as int);
                }
                return Err(ScrapeError::MissingAttribute);
            },
        };
        let job = new_job(
            JobId::Number(hash_text(0, href.as_str())),
            trim(t.text.as_str()),
            concat(LINK_PREFIX, href.as_str()),
            company,
            country,
            String::from_str(CITY),
        );
        let ghost before = jobs@;
        jobs.push(job);
        assert(job_views(jobs@) =~= job_views(before).push(job@));
        i = i + 1;
    }
    assert(steps.take(titles@.len() as int) =~= steps);
    Ok(jobs)
}

/// The posting count of a page: the number of cards on it.
pub open spec fn page_count_of(body: Seq<char>) -> Result<u64, ScrapeError> {
    if selector_parses(CARD_SELECTOR@) {
        Ok(matches_of(body, CARD_SELECTOR@).len() as u64)
    } else {
        Err(ScrapeError::BadSelector)
    }
}

/// Reads the posting count: the number of cards on the page (`job_count`
/// after the request).
pub fn parse_job_count(body: &str) -> (r: Result<u64, ScrapeError>)
    ensures
        r == page_count_of(body@),
{
    match select_all(body, CARD_SELECTOR) {
        Some(cards) => {
            assert(crate::html::element_views(cards@).len() == cards@.len());
            Ok(cards.len() as u64)
        },
        None => Err(ScrapeError::BadSelector),
    }
}

} // verus!
