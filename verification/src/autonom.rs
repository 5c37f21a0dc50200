//! Autonom: one HTML careers page; each listing is a link.
use vstd::prelude::*;

use crate::html::{
    element_views, first_within, matches_of, opt_element_views, select_all, select_first_within,
    selector_parses, ElementView,
};
use crate::job::{
    collect_steps, job_views, lemma_collect_steps_push, lemma_collect_steps_stop, new_job, Job,
    JobId, JobIdView, JobView, ScrapeError, Step,
};
use crate::text::{replace_seq, replace_str, trim, trimmed};
use crate::transliterate::{
    ascii_form, bracket_count, count_brackets, hash_text, title_cased, titlecase, unidecode, xxhash64,
    MAX_BRACKETS,
};

verus! {

/// The careers page.
pub const PAGE_URL: &'static str = "https://www.autonom.ro/cariere";

/// A listing (a link to the posting).
pub const LISTING_SELECTOR: &'static str = ".box-listing-job";

/// The title inside a listing.
pub const TITLE_SELECTOR: &'static str = ".nume-listing-job";

/// The location inside a listing.
pub const LOCATION_SELECTOR: &'static str = ".locatie-job";

/// What one listing gives: its title, its location and its `href` must be
/// there. The id is the xxHash (seed 0) of the link; the link loses its
/// spaces; the city is the title-cased location, transliterated to ASCII. A
/// location with more than `MAX_BRACKETS` `(` characters is refused before
/// it is title-cased.
pub open spec fn listing_step(
    listing: ElementView,
    title: Option<ElementView>,
    location: Option<ElementView>,
    company: Seq<char>,
    country: Seq<char>,
) -> Step {
    match (title, location, listing.href) {
        (None, _, _) => Err(ScrapeError::MissingElement),
        (Some(_), None, _) => Err(ScrapeError::MissingElement),
        (Some(_), Some(_), None) => Err(ScrapeError::MissingAttribute),
        (Some(t), Some(l), Some(link)) => if bracket_count(trimmed(l.text)) > MAX_BRACKETS {
            Err(ScrapeError::TooManyBrackets)
        } else {
            Ok(
                Some(
                    JobView {
                        id: JobIdView::Number(xxhash64(0, link)),
                        job_title: trimmed(t.text),
                        job_link: replace_seq(link, seq![' '], seq![]),
                        company: company,
                        country: country,
                        city: ascii_form(title_cased(trimmed(l.text))),
                    },
                ),
            )
        },
    }
}

/// The postings of the careers page.
pub open spec fn page_jobs(body: Seq<char>, company: Seq<char>, country: Seq<char>) -> Result<
    Seq<JobView>,
    ScrapeError,
> {
    if !(selector_parses(LISTING_SELECTOR@) && selector_parses(TITLE_SELECTOR@) && selector_parses(
        LOCATION_SELECTOR@,
    )) {
        Err(ScrapeError::BadSelector)
    } else {
        let listings = matches_of(body, LISTING_SELECTOR@);
        let titles = first_within(body, LISTING_SELECTOR@, TITLE_SELECTOR@);
        let locations = first_within(body, LISTING_SELECTOR@, LOCATION_SELECTOR@);
        collect_steps(
            Seq::new(
                listings.len(),
                |i: int| listing_step(listings[i], titles[i], locations[i], company, country),
            ),
        )
    }
}

/// Reads the postings of the careers page (`fetch_jobs` after the request).
pub fn parse_jobs(body: &str, company: &str, country: &str) -> (r: Result<Vec<Job>, ScrapeError>)
    ensures
        r matches Ok(v) ==> crate::job::ascii_cities(v@),
        match r {
            Ok(v) => page_jobs(body@, company@, country@) == Ok::<_, ScrapeError>(job_views(v@)),
            Err(e) => page_jobs(body@, company@, country@) == Err::<Seq<JobView>, _>(e),
        },
{
    let listings = match select_all(body, LISTING_SELECTOR) {
        Some(v) => v,
        None => return Err(ScrapeError::BadSelector),
    };
    let titles = match select_first_within(body, LISTING_SELECTOR, TITLE_SELECTOR) {
        Some(v) => v,
        None => return Err(ScrapeError::BadSelector),
    };
    let locations = match select_first_within(body, LISTING_SELECTOR, LOCATION_SELECTOR) {
        Some(v) => v,
        None => return Err(ScrapeError::BadSelector),
    };
    let ghost lv = matches_of(body@, LISTING_SELECTOR@);
    let ghost tv = first_within(body@, LISTING_SELECTOR@, TITLE_SELECTOR@);
    let ghost cv = first_within(body@, LISTING_SELECTOR@, LOCATION_SELECTOR@);
    let ghost steps = Seq::new(
        lv.len(),
        |i: int| listing_step(lv[i], tv[i], cv[i], company@, country@),
    );
    let mut jobs: Vec<Job> = Vec::new();
    assert(steps.take(0) =~= Seq::<Step>::empty());
    assert(job_views(jobs@) =~= Seq::<JobView>::empty());
    let mut i: usize = 0;
    while i < listings.len()
        invariant
            i <= listings@.len() == titles@.len() == locations@.len() == lv.len() == steps.len(),
            element_views(listings@) == lv,
            opt_element_views(titles@) == tv,
            opt_element_views(locations@) == cv,
            lv == matches_of(body@, LISTING_SELECTOR@),
            tv == first_within(body@, LISTING_SELECTOR@, TITLE_SELECTOR@),
            cv == first_within(body@, LISTING_SELECTOR@, LOCATION_SELECTOR@),
            selector_parses(LISTING_SELECTOR@) && selector_parses(TITLE_SELECTOR@)
                && selector_parses(LOCATION_SELECTOR@),
            steps == Seq::new(
                lv.len(),
                |i: int| listing_step(lv[i], tv[i], cv[i], company@, country@),
            ),
            collect_steps(steps.take(i as int)) == Ok::<_, ScrapeError>(job_views(jobs@)),
            crate::job::ascii_cities(jobs@),
        decreases listings.len() - i,
    {
        proof {
            lemma_collect_steps_push(steps, i as int);
        }
        assert(lv[i as int] == listings@[i as int]@);
        let t = match &titles[i] {
            Some(t) => t,
            None => {
                proof {
                    lemma_collect_steps_stop(steps, i as int);
                }
                return Err(ScrapeError::MissingElement);
            },
        };
        let l = match &locations[i] {
            Some(l) => l,
            None => {
                proof {
                    lemma_collect_steps_stop(steps, i as int);
                }
                return Err(ScrapeError::MissingElement);
            },
        };
        let link = match &listings[i].href {
            Some(h) => h,
            None => {
                proof {
                    lemma_collect_steps_stop(steps, i as int);
                }
                return Err(ScrapeError::MissingAttribute);
            },
        };
        assert(tv[i as int] == Some(t@) && cv[i as int] == Some(l@));
        let title = trim(t.text.as_str());
        let place = trim(l.text.as_str());
        if count_brackets(place.as_str()) > MAX_BRACKETS {
            proof {
                lemma_collect_steps_stop(steps, i as int);
            }
            return Err(ScrapeError::TooManyBrackets);
        }
        let city = unidecode(titlecase(place.as_str()).as_str());
        let id = hash_text(0, link.as_str());
        proof {
            reveal_strlit(" ");
            reveal_strlit("");
        }
        let job_link = replace_str(link.as_str(), " ", "");
        assert((" ")@ =~= seq![' '] && ("")@ =~= Seq::<char>::empty());
        let job = new_job(JobId::Number(id), title, job_link, company, country, city);
        let ghost before = jobs@;
        jobs.push(job);
        proof {
            crate::job::lemma_ascii_cities_push(before, jobs@);
        }
        assert(job_views(jobs@) =~= job_views(before).push(job@));
        i = i + 1;
    }
    assert(steps.take(listings@.len() as int) =~= steps);
    Ok(jobs)
}

} // verus!
