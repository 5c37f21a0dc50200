//! BCR: the rows of one HTML search page.
use vstd::prelude::*;

use crate::html::{first_within, opt_element_views, select_first_within, selector_parses, ElementView};
use crate::job::{
    collect_steps, concat, job_views, lemma_collect_steps_push, lemma_collect_steps_stop, new_job,
    Job, JobId, JobIdView, JobView, ScrapeError, Step,
};
use crate::text::{split_seq, split_str};

verus! {

/// The search page.
pub const PAGE_URL: &'static str = "https://erstegroup-careers.com/bcr/search/?createNewAlert=false&q=";

/// A posting's row.
pub const ROW_SELECTOR: &'static str = "tr.data-row";

/// The title link inside a row.
pub const TITLE_SELECTOR: &'static str = ".jobTitle-link";

/// The location inside a row.
pub const LOCATION_SELECTOR: &'static str = ".jobShifttype";

/// The site that posting links are relative to.
pub const LINK_PREFIX: &'static str = "https://erstegroup-careers.com";

/// The company.
pub const COMPANY: &'static str = "BCR";

/// The country.
pub const COUNTRY: &'static str = "Romania";

/// The next-to-last `/`-separated piece of a link (what
/// `link.rsplit('/').collect()[1]` gives), if the link has two pieces.
pub open spec fn next_to_last_piece(link: Seq<char>) -> Option<Seq<char>> {
    let pieces = split_seq(link, seq!['/']);
    if pieces.len() >= 2 {
        Some(pieces[pieces.len() - 2])
    } else {
        None
    }
}

/// What one row gives: its title link with an `href`, its location, and a
/// link of at least two pieces. The title and the location are taken as they
/// stand.
pub open spec fn row_step(title: Option<ElementView>, location: Option<ElementView>) -> Step {
    match title {
        None => Err(ScrapeError::MissingElement),
        Some(t) => match t.href {
            None => Err(ScrapeError::MissingAttribute),
            Some(link) => match location {
                None => Err(ScrapeError::MissingElement),
                Some(l) => match next_to_last_piece(link) {
                    None => Err(ScrapeError::MissingPart),
                    Some(id) => Ok(
                        Some(
                            JobView {
                                id: JobIdView::Text(id),
                                job_title: t.text,
                                job_link: LINK_PREFIX@ + link,
                                company: COMPANY@,
                                country: COUNTRY@,
                                city: l.text,
                            },
                        ),
                    ),
                },
            },
        },
    }
}

/// The postings of the search page.
pub open spec fn page_jobs(body: Seq<char>) -> Result<Seq<JobView>, ScrapeError> {
    if !(selector_parses(ROW_SELECTOR@) && selector_parses(TITLE_SELECTOR@) && selector_parses(
        LOCATION_SELECTOR@,
    )) {
        Err(ScrapeError::BadSelector)
    } else {
        let titles = first_within(body, ROW_SELECTOR@, TITLE_SELECTOR@);
        let locations = first_within(body, ROW_SELECTOR@, LOCATION_SELECTOR@);
        collect_steps(Seq::new(titles.len(), |i: int| row_step(titles[i], locations[i])))
    }
}

/// The next-to-last piece of a link.
fn next_to_last_piece_of(link: &str) -> (r: Option<String>)
    ensures
        opt_string_view(r) == next_to_last_piece(link@),
{
    proof {
        reveal_strlit("/");
    }
    let pieces = split_str(link, "/");
    assert(("/")@ =~= seq!['/']);
    let n = pieces.len();
    if n >= 2 {
        Some(pieces[n - 2].clone())
    } else {
        None
    }
}

/// The characters of an optional string.
pub open spec fn opt_string_view(o: Option<String>) -> Option<Seq<char>> {
    crate::html::opt_view(o)
}

/// Reads the postings of the search page (the reading part of `scrape`).
pub fn parse_jobs(body: &str) -> (r: Result<Vec<Job>, ScrapeError>)
    ensures
        match r {
            Ok(v) => page_jobs(body@) == Ok::<_, ScrapeError>(job_views(v@)),
            Err(e) => page_jobs(body@) == Err::<Seq<JobView>, _>(e),
        },
{
    let titles = match select_first_within(body, ROW_SELECTOR, TITLE_SELECTOR) {
        Some(v) => v,
        None => return Err(ScrapeError::BadSelector),
    };
    let locations = match select_first_within(body, ROW_SELECTOR, LOCATION_SELECTOR) {
        Some(v) => v,
        None => return Err(ScrapeError::BadSelector),
    };
    let ghost tv = first_within(body@, ROW_SELECTOR@, TITLE_SELECTOR@);
    let ghost cv = first_within(body@, ROW_SELECTOR@, LOCATION_SELECTOR@);
    let ghost steps = Seq::new(tv.len(), |i: int| row_step(tv[i], cv[i]));
    let mut jobs: Vec<Job> = Vec::new();
    assert(steps.take(0) =~= Seq::<Step>::empty());
    assert(job_views(jobs@) =~= Seq::<JobView>::empty());
    let mut i: usize = 0;
    while i < titles.len()
        invariant
            i <= titles@.len() == locations@.len() == tv.len() == steps.len(),
            opt_element_views(titles@) == tv,
            opt_element_views(locations@) == cv,
            tv == first_within(body@, ROW_SELECTOR@, TITLE_SELECTOR@),
            cv == first_within(body@, ROW_SELECTOR@, LOCATION_SELECTOR@),
            selector_parses(ROW_SELECTOR@) && selector_parses(TITLE_SELECTOR@)
                && selector_parses(LOCATION_SELECTOR@),
            steps == Seq::new(tv.len(), |i: int| row_step(tv[i], cv[i])),
            collect_steps(steps.take(i as int)) == Ok::<_, ScrapeError>(job_views(jobs@)),
        decreases titles.len() - i,
    {
        proof {
            lemma_collect_steps_push(steps, i as int);
        }
        let t = match &titles[i] {
            Some(t) => t,
            None => {
                proof {
                    lemma_collect_steps_stop(steps, i as int);
                }
                return Err(ScrapeError::MissingElement);
            },
        };
        assert(tv[i as int] == Some(t@));
        let link = match &t.href {
            Some(h) => h,
            None => {
                proof {
                    lemma_collect_steps_stop(steps, i as int);
                }
                return Err(ScrapeError::MissingAttribute);
            },
        };
        let l = match &locations[i] {
            Some(l) => l,
            None => {
                proof {
                    lemma_collect_steps_stop(steps, i as int);
                }
                return Err(ScrapeError::MissingElement);
            },
        };
        assert(cv[i as int] == Some(l@));
        let id = match next_to_last_piece_of(link.as_str()) {
            Some(id) => id,
            None => {
                proof {
                    lemma_collect_steps_stop(steps, i as int);
                }
                return Err(ScrapeError::MissingPart);
            },
        };
        let job = new_job(
            JobId::Text(id),
            t.text.clone(),
            concat(LINK_PREFIX, link.as_str()),
            COMPANY,
            COUNTRY,
            l.text.clone(),
        );
        let ghost before = jobs@;
        jobs.push(job);
        assert(job_views(jobs@) =~= job_views(before).push(job@));
        i = i + 1;
    }
    assert(steps.take(titles@.len() as int) =~= steps);
    Ok(jobs)
}

} // verus!
