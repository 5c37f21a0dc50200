//! Auchan: the postings stand in a JSON object (`vmCfg`) that a script of
//! the careers page assigns.
use vstd::prelude::*;

use crate::html::{element_views, matches_of, select_all, selector_parses, ElementView};
use crate::job::{concat, job_views, new_job, Job, JobId, JobIdView, JobView, ScrapeError};
use crate::json::{index_key, index_pos, json_text, plain_json_text, plain_member, Json};
use crate::pattern::{capture, first_capture, pattern_compiles, Capture};
use crate::text::{contains_seq, contains_str, lemma_replace_enclosing, replace_seq, replace_str};
use crate::transliterate::{bracket_count, count_brackets, title_cased, titlecase, MAX_BRACKETS};

verus! {

/// The careers page.
pub const PAGE_URL: &'static str = "https://cariere.auchan.ro/";

/// The script elements of the page.
pub const SCRIPT_SELECTOR: &'static str = "script";

/// The text that marks the script with the configuration.
pub const CONFIG_MARK: &'static str = "var vmCfg =";

/// The assignment whose first group is the configuration's JSON text.
pub const CONFIG_PATTERN: &'static str = "var vmCfg = (\\{.*\\});";

/// The page that a posting's id is appended to.
pub const LINK_PREFIX: &'static str = "https://cariere.auchan.ro/Position/Details?id=";

/// The configuration text of the first marked script whose assignment
/// matches; the empty text where none does.
pub open spec fn config_in(scripts: Seq<ElementView>) -> Result<Seq<char>, ScrapeError>
    decreases scripts.len(),
{
    if scripts.len() == 0 {
        Ok(seq![])
    } else {
        let html = scripts[0].inner_html;
        if !contains_seq(html, CONFIG_MARK@) {
            config_in(scripts.drop_first())
        } else if !pattern_compiles(CONFIG_PATTERN@) {
            Err(ScrapeError::BadPattern)
        } else {
            match first_capture(CONFIG_PATTERN@, html, 1) {
                None => config_in(scripts.drop_first()),
                Some(None) => Err(ScrapeError::MissingGroup),
                Some(Some(text)) => Ok(text),
            }
        }
    }
}

/// The configuration text of the careers page.
pub open spec fn page_config(body: Seq<char>) -> Result<Seq<char>, ScrapeError> {
    if selector_parses(SCRIPT_SELECTOR@) {
        config_in(matches_of(body, SCRIPT_SELECTOR@))
    } else {
        Err(ScrapeError::BadSelector)
    }
}

/// Reads the configuration's JSON text from the careers page (the part of
/// `fetch_jobs` before the JSON is parsed).
pub fn find_config(body: &str) -> (r: Result<String, ScrapeError>)
    ensures
        match r {
            Ok(s) => page_config(body@) == Ok::<_, ScrapeError>(s@),
            Err(e) => page_config(body@) == Err::<Seq<char>, _>(e),
        },
{
    let scripts = match select_all(body, SCRIPT_SELECTOR) {
        Some(v) => v,
        None => return Err(ScrapeError::BadSelector),
    };
    let ghost sv = matches_of(body@, SCRIPT_SELECTOR@);
    assert(sv.skip(0) =~= sv);
    let mut i: usize = 0;
    while i < scripts.len()
        invariant
            i <= scripts@.len() == sv.len(),
            element_views(scripts@) == sv,
            selector_parses(SCRIPT_SELECTOR@),
            page_config(body@) == config_in(sv.skip(i as int)),
        decreases scripts.len() - i,
    {
        assert(sv.skip(i as int).drop_first() =~= sv.skip(i + 1));
        assert(sv.skip(i as int)[0] == scripts@[i as int]@);
        let html = scripts[i].inner_html.as_str();
        if contains_str(html, CONFIG_MARK) {
            match capture(CONFIG_PATTERN, html, 1) {
                Capture::BadPattern => return Err(ScrapeError::BadPattern),
                Capture::NoMatch => {},
                Capture::Group(None) => return Err(ScrapeError::MissingGroup),
                Capture::Group(Some(text)) => return Ok(text),
            }
        }
        i = i + 1;
    }
    Ok(String::new())
}

/// The text of a member, with its double quotes taken out: `"` removed from
/// the member's JSON text.
pub open spec fn unquoted_member(pos: Json, key: Seq<char>) -> Seq<char> {
    replace_seq(json_text(index_key(pos, key)), seq!['"'], seq![])
}

/// The posting of one entry of `PositionList`: the title and the city are
/// the members' texts without quotes (the city title-cased), the id is the
/// text of `PositionId`.
pub open spec fn position_job(pos: Json, company: Seq<char>, country: Seq<char>) -> JobView {
    let id = json_text(index_key(pos, "PositionId"@));
    JobView {
        id: JobIdView::Text(id),
        job_title: unquoted_member(pos, "PositionName"@),
        job_link: LINK_PREFIX@ + id,
        company: company,
        country: country,
        city: title_cased(unquoted_member(pos, "CityList"@)),
    }
}

/// A title and a city that JSON writes without escapes are read as they
/// stand (the city title-cased).
pub open spec fn plain_titles(pos: Json, job: Job) -> bool {
    &&& (plain_member(pos, "PositionName"@) matches Some(t) ==> job.job_title@ == t)
    &&& (plain_member(pos, "CityList"@) matches Some(c) ==> job.city@ == title_cased(c))
}

/// The city text of a position has more `(` characters than title casing
/// is given.
pub open spec fn city_too_deep(pos: Json) -> bool {
    bracket_count(unquoted_member(pos, "CityList"@)) > MAX_BRACKETS
}

/// The postings of the configuration: its member `PositionList` must be an
/// array, and no position's city text may hold more than `MAX_BRACKETS` `(`
/// characters.
pub open spec fn config_jobs(cfg: Json, company: Seq<char>, country: Seq<char>) -> Result<
    Seq<JobView>,
    ScrapeError,
> {
    match index_key(cfg, "PositionList"@) {
        Json::Array(items) => if exists|k: int| 0 <= k < items@.len() && city_too_deep(#[trigger] items@[k]) {
            Err(ScrapeError::TooManyBrackets)
        } else {
            Ok(Seq::new(items@.len(), |i: int| position_job(items@[i], company, country)))
        },
        _ => Err(ScrapeError::MissingField),
    }
}

/// The text of member `key` of `pos` without its quotes; a string member
/// with nothing to escape comes out as it is.
fn unquoted(pos: &Json, key: &str) -> (r: String)
    ensures
        r@ == unquoted_member(*pos, key@),
        plain_member(*pos, key@) matches Some(t) ==> r@ == t,
{
    let null = Json::Null;
    let v: &Json = match pos.member(key) {
        Some(v) => v,
        None => &null,
    };
    let text = v.to_text();
    proof {
        reveal_strlit("\"");
        reveal_strlit("");
    }
    let r = replace_str(text.as_str(), "\"", "");
    assert(("\"")@ =~= seq!['"'] && ("")@ =~= Seq::<char>::empty());
    proof {
        if let Json::Str(t) = index_key(*pos, key@) {
            if plain_json_text(t@) {
                assert(!t@.contains('"')) by {
                    if t@.contains('"') {
                        let j = choose|j: int| 0 <= j < t@.len() && t@[j] == '"';
                        assert(t@[j] != '"');
                    }
                }
                lemma_replace_enclosing(t@, '"');
            }
        }
    }
    r
}

/// Reads the postings of the configuration (`fetch_jobs` after the JSON is
/// parsed).
pub fn jobs_from_config(cfg: &Json, company: &str, country: &str) -> (r: Result<Vec<Job>, ScrapeError>)
    ensures
        match r {
            Ok(v) => config_jobs(*cfg, company@, country@) == Ok::<_, ScrapeError>(job_views(v@)),
            Err(e) => config_jobs(*cfg, company@, country@) == Err::<Seq<JobView>, _>(e),
        },
        r matches Ok(v) ==> forall|k: int|
            0 <= k < v.len() ==> plain_titles(
                index_pos(index_key(*cfg, "PositionList"@), k),
                #[trigger] v@[k],
            ),
{
    let items = match cfg.member("PositionList") {
        Some(v) => match v.as_array() {
            Some(items) => items,
            None => return Err(ScrapeError::MissingField),
        },
        None => return Err(ScrapeError::MissingField),
    };
    let mut jobs: Vec<Job> = Vec::new();
    let mut i: usize = 0;
    while i < items.len()
        invariant
            i <= items@.len(),
            index_key(*cfg, "PositionList"@) == Json::Array(*items),
            job_views(jobs@) =~= Seq::new(
                i as nat,
                |k: int| position_job(items@[k], company@, country@),
            ),
            forall|k: int|
                0 <= k < jobs@.len() ==> plain_titles(
                    index_pos(index_key(*cfg, "PositionList"@), k),
                    #[trigger] jobs@[k],
                ),
            forall|k: int| 0 <= k < i ==> !city_too_deep(#[trigger] items@[k]),
        decreases items.len() - i,
    {
        let pos = &items[i];
        let null = Json::Null;
        let id_value: &Json = match pos.member("PositionId") {
            Some(v) => v,
            None => &null,
        };
        let id = id_value.to_text();
        let title = unquoted(pos, "PositionName");
        let place = unquoted(pos, "CityList");
        if count_brackets(place.as_str()) > MAX_BRACKETS {
            assert(city_too_deep(items@[i as int]));
            return Err(ScrapeError::TooManyBrackets);
        }
        let city = titlecase(place.as_str());
        let link = concat(LINK_PREFIX, id.as_str());
        let job = new_job(JobId::Text(id), title, link, company, country, city);
        let ghost before = jobs@;
        jobs.push(job);
        assert(job_views(jobs@) =~= job_views(before).push(job@));
        i = i + 1;
    }
    Ok(jobs)
}

} // verus!
