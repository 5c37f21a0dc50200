//! Draexlmaier: rows of an HTML search page, 25 postings per page, and the
//! posting count from the page's pagination label.
use vstd::prelude::*;

use crate::html::{
    element_views, first_within, matches_of, opt_element_views, select_all, select_first_within,
    selector_parses, ElementView,
};
use crate::job::{
    collect_steps, concat, job_views, lemma_collect_steps_push, lemma_collect_steps_stop, new_job,
    Job, JobId, JobIdView, JobView, ScrapeError, Step,
};
use crate::paging::{numbered_texts, numbered_urls, page_count, start_rows, start_rows_spec};
use crate::text::{first_piece, parse_u32, parse_u32_spec, split_seq, trim, trimmed, views};
use crate::transliterate::{
    ascii_form, bracket_count, count_brackets, hash_text, title_cased, titlecase, unidecode, xxhash64,
    MAX_BRACKETS,
};

verus! {

/// The first search page, that the posting count is read from.
pub const COUNT_URL: &'static str = "https://d-career.org/Draexlmaier/go/DR%C3%84XLMAIER-Job-Opportunities-in-Romania-%28Romanian%29/4196801/0/?q=&sortColumn=referencedate&sortDirection=desc";

/// A search page's address, before the start row.
pub const PAGE_URL_PREFIX: &'static str = "https://d-career.org/Draexlmaier/go/DR%C3%84XLMAIER-Job-Opportunities-in-Romania-%28Romanian%29/4196801/";

/// A search page's address, after the start row.
pub const PAGE_URL_SUFFIX: &'static str = "/?q=&sortColumn=referencedate&sortDirection=desc";

/// Postings per page.
pub const PAGE_SIZE: u64 = 25;

/// A posting's row.
pub const ROW_SELECTOR: &'static str = ".data-row";

/// The title link inside a row.
pub const TITLE_SELECTOR: &'static str = ".jobTitle-link";

/// The location inside a row.
pub const LOCATION_SELECTOR: &'static str = ".jobLocation";

/// The numbers of the pagination label.
pub const LABEL_SELECTOR: &'static str = ".paginationLabel b";

/// The site that posting links are relative to.
pub const LINK_PREFIX: &'static str = "https://d-career.org";

/// What one row gives: its title link (with an `href`) and its location
/// must be there. The city is the location's first comma-separated part,
/// trimmed, title-cased and transliterated to ASCII; the id is the xxHash
/// (seed 0) of the link. A city with more than `MAX_BRACKETS` `(`
/// characters is refused before it is title-cased.
pub open spec fn row_step(
    title: Option<ElementView>,
    location: Option<ElementView>,
    company: Seq<char>,
    country: Seq<char>,
) -> Step {
    match (title, location) {
        (None, _) => Err(ScrapeError::MissingElement),
        (Some(_), None) => Err(ScrapeError::MissingElement),
        (Some(t), Some(l)) => match t.href {
            None => Err(ScrapeError::MissingAttribute),
            Some(link) => {
                let place = trimmed(split_seq(trimmed(l.text), seq![','])[0]);
                if bracket_count(place) > MAX_BRACKETS {
                    Err(ScrapeError::TooManyBrackets)
                } else {
                    Ok(
                        Some(
                            JobView {
                                id: JobIdView::Number(xxhash64(0, link)),
                                job_title: trimmed(t.text),
                                job_link: LINK_PREFIX@ + link,
                                company: company,
                                country: country,
                                city: ascii_form(title_cased(place)),
                            },
                        ),
                    )
                }
            },
        },
    }
}

/// The postings of a search page.
pub open spec fn page_jobs(body: Seq<char>, company: Seq<char>, country: Seq<char>) -> Result<
    Seq<JobView>,
    ScrapeError,
> {
    if !(selector_parses(ROW_SELECTOR@) && selector_parses(TITLE_SELECTOR@) && selector_parses(
        LOCATION_SELECTOR@,
    )) {
        Err(ScrapeError::BadSelector)
    } else {
        let titles = first_within(body, ROW_SELECTOR@, TITLE_SELECTOR@);
        let locations = first_within(body, ROW_SELECTOR@, LOCATION_SELECTOR@);
        collect_steps(
            Seq::new(titles.len(), |i: int| row_step(titles[i], locations[i], company, country)),
        )
    }
}

/// Reads the postings of a search page (`fetch_jobs` after the request).
pub fn parse_jobs(body: &str, company: &str, country: &str) -> (r: Result<Vec<Job>, ScrapeError>)
    ensures
        r matches Ok(v) ==> crate::job::ascii_cities(v@),
        match r {
            Ok(v) => page_jobs(body@, company@, country@) == Ok::<_, ScrapeError>(job_views(v@)),
            Err(e) => page_jobs(body@, company@, country@) == Err::<Seq<JobView>, _>(e),
        },
{
    let titles = match select_first_within(body, ROW_SELECTOR, TITLE_SELECTOR) {
        Some(v) => v,
        None => return Err(ScrapeError::BadSelector),
    };
    let locations = match select_first_within(body, ROW_SELECTOR, LOCATION_SELECTOR) {
        Some(v) => v,
        None => return Err(ScrapeError::BadSelector),
    };
    let ghost tv = first_within(body@, ROW_SELECTOR@, TITLE_SELECTOR@);
    let ghost cv = first_within(body@, ROW_SELECTOR@, LOCATION_SELECTOR@);
    let ghost steps = Seq::new(tv.len(), |i: int| row_step(tv[i], cv[i], company@, country@));
    let mut jobs: Vec<Job> = Vec::new();
    assert(steps.take(0) =~= Seq::<Step>::empty());
    assert(job_views(jobs@) =~= Seq::<JobView>::empty());
    let mut i: usize = 0;
    while i < titles.len()
        invariant
            i <= titles@.len() == locations@.len() == tv.len() == steps.len(),
            opt_element_views(titles@) == tv,
            opt_element_views(locations@) == cv,
            tv == first_within(body@, ROW_SELECTOR@, TITLE_SELECTOR@),
            cv == first_within(body@, ROW_SELECTOR@, LOCATION_SELECTOR@),
            selector_parses(ROW_SELECTOR@) && selector_parses(TITLE_SELECTOR@)
                && selector_parses(LOCATION_SELECTOR@),
            steps == Seq::new(tv.len(), |i: int| row_step(tv[i], cv[i], company@, country@)),
            collect_steps(steps.take(i as int)) == Ok::<_, ScrapeError>(job_views(jobs@)),
            crate::job::ascii_cities(jobs@),
        decreases titles.len() - i,
    {
        proof {
            lemma_collect_steps_push(steps, i as int);
        }
        let t = match &titles[i] {
            Some(t) => t,
            None => {
                proof {
                    lemma_collect_steps_stop(steps, i as int);
                }
                return Err(ScrapeError::MissingElement);
            },
        };
        let l = match &locations[i] {
            Some(l) => l,
            None => {
                proof {
                    lemma_collect_steps_stop(steps, i as int);
                }
                return Err(ScrapeError::MissingElement);
            },
        };
        assert(tv[i as int] == Some(t@) && cv[i as int] == Some(l@));
        let location = trim(l.text.as_str());
        proof {
            reveal_strlit(",");
        }
        let place = first_piece(location.as_str(), ",");
        assert((",")@ =~= seq![',']);
        let city = trim(place.as_str());
        let link = match &t.href {
            Some(h) => h,
            None => {
                proof {
                    lemma_collect_steps_stop(steps, i as int);
                }
                return Err(ScrapeError::MissingAttribute);
            },
        };
        if count_brackets(city.as_str()) > MAX_BRACKETS {
            proof {
                lemma_collect_steps_stop(steps, i as int);
            }
            return Err(ScrapeError::TooManyBrackets);
        }
        let job = new_job(
            JobId::Number(hash_text(0, link.as_str())),
            trim(t.text.as_str()),
            concat(LINK_PREFIX, link.as_str()),
            company,
            country,
            unidecode(titlecase(city.as_str()).as_str()),
        );
        let ghost before = jobs@;
        jobs.push(job);
        proof {
            crate::job::lemma_ascii_cities_push(before, jobs@);
        }
        assert(job_views(jobs@) =~= job_views(before).push(job@));
        i = i + 1;
    }
    assert(steps.take(titles@.len() as int) =~= steps);
    Ok(jobs)
}

/// The posting count of a page: the second number of its pagination label.
pub open spec fn page_count_of(body: Seq<char>) -> Result<u32, ScrapeError> {
    if !selector_parses(LABEL_SELECTOR@) {
        Err(ScrapeError::BadSelector)
    } else {
        let numbers = matches_of(body, LABEL_SELECTOR@);
        if numbers.len() < 2 {
            Err(ScrapeError::MissingElement)
        } else {
            match parse_u32_spec(numbers[1].inner_html) {
                Some(n) => Ok(n),
                None => Err(ScrapeError::BadNumber),
            }
        }
    }
}

/// Reads the posting count from the first search page (`job_count` after
/// the request).
pub fn parse_job_count(body: &str) -> (r: Result<u32, ScrapeError>)
    ensures
        r == page_count_of(body@),
{
    let numbers = match select_all(body, LABEL_SELECTOR) {
        Some(v) => v,
        None => return Err(ScrapeError::BadSelector),
    };
    assert(element_views(numbers@).len() == numbers@.len());
    if numbers.len() < 2 {
        return Err(ScrapeError::MissingElement);
    }
    assert(element_views(numbers@)[1] == numbers@[1]@);
    match parse_u32(numbers[1].inner_html.as_str()) {
        Some(n) => Ok(n),
        None => Err(ScrapeError::BadNumber),
    }
}

/// The search pages to ask for: one per start row `0, 25, 50, ...` below
/// `count`.
pub fn page_urls(count: u32) -> (r: Vec<String>)
    requires
        page_count(count as nat, PAGE_SIZE as nat) * PAGE_SIZE <= u32::MAX,
    ensures
        views(r@) == numbered_texts(
            start_rows_spec(count as nat, PAGE_SIZE as nat),
            PAGE_URL_PREFIX@,
            PAGE_URL_SUFFIX@,
        ),
{
    let rows = start_rows(count as u64, PAGE_SIZE);
    numbered_urls(&rows, PAGE_URL_PREFIX, PAGE_URL_SUFFIX)
}

} // verus!
