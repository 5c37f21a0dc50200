//! Allianz: tiles of an HTML search page, 25 postings per page, and the
//! posting count from a script of the first page.
use vstd::prelude::*;

use crate::html::{
    first_within, matches_of, select_all, select_first_within, selector_parses, ElementView,
};
use crate::job::{
    collect_steps, concat, job_views, lemma_collect_steps_push, lemma_collect_steps_stop, new_job,
    Job, JobId, JobIdView, JobView, ScrapeError, Step,
};
use crate::paging::{numbered_texts, numbered_urls, page_count, start_rows, start_rows_spec};
use crate::pattern::{capture, first_capture, pattern_compiles, Capture};
use crate::text::{
    contains_char, lemma_split_char_absent, lemma_split_char_concat, parse_u32, parse_u32_spec,
    split_seq, split_str, trim, trimmed,
};
use crate::transliterate::{ascii_form, unidecode};

verus! {

/// The element that holds one posting's tile.
pub const TILE_SELECTOR: &'static str = ".col-md-12.sub-section.sub-section-desktop.hidden-xs.hidden-sm";

/// The posting's title link inside a tile.
pub const TITLE_SELECTOR: &'static str = ".tiletitle a";

/// The site that posting links are relative to.
pub const LINK_PREFIX: &'static str = "https://careers.allianz.com";

/// The script statement that holds the number of postings.
pub const COUNT_PATTERN: &'static str = "jobRecordsFound:\\s*parseInt\\(\"(\\d+)\"\\)";

/// The script elements of a page.
pub const SCRIPT_SELECTOR: &'static str = "script";

/// The search page for a start row, before the row's number.
pub const PAGE_URL_PREFIX: &'static str = "https://careers.allianz.com/tile-search-results?q=&locationsearch=Romania&searchby=location&d=100&startrow=";

/// Postings per result page.
pub const PAGE_SIZE: u64 = 25;

/// Titles with one of these characters are left out.
pub open spec fn accented() -> Seq<char> {
    seq!['ç', 'é', 'û', 'ê', 'ô', 'û', 'ê', 'ô', 'û', 'ë', 'ï', 'ü']
}

fn accented_chars() -> (r: Vec<char>)
    ensures
        r@ == accented(),
{
    let r = vec!['ç', 'é', 'û', 'ê', 'ô', 'û', 'ê', 'ô', 'û', 'ë', 'ï', 'ü'];
    assert(r@ =~= accented());
    r
}

/// `title` holds one of the left-out characters.
pub open spec fn has_accented(title: Seq<char>) -> bool {
    exists|i: int| 0 <= i < accented().len() && title.contains(#[trigger] accented()[i])
}

/// The last non-empty piece among `pieces`.
pub open spec fn last_nonempty(pieces: Seq<Seq<char>>) -> Option<Seq<char>>
    decreases pieces.len(),
{
    if pieces.len() == 0 {
        None
    } else if pieces.last().len() > 0 {
        Some(pieces.last())
    } else {
        last_nonempty(pieces.drop_last())
    }
}

/// A posting's id: the last non-empty `/`-separated segment of its link,
/// or "error" when there is none.
pub open spec fn link_id(href: Seq<char>) -> Seq<char> {
    match last_nonempty(split_seq(href, seq!['/'])) {
        Some(s) => s,
        None => "error"@,
    }
}

/// A link that ends in the non-empty segment `seg` after a `/` has the id
/// `seg`, whatever comes before.
pub proof fn lemma_link_id_last_segment(prefix: Seq<char>, seg: Seq<char>)
    requires
        seg.len() > 0,
        !seg.contains('/'),
    ensures
        link_id(prefix + seq!['/'] + seg) == seg,
{
    lemma_split_char_concat(prefix, seg, '/');
    lemma_split_char_absent(seg, '/');
    let pieces = split_seq(prefix, seq!['/']) + seq![seg];
    assert(pieces.last() == seg);
}

/// A trailing `/` does not change a link's id.
pub proof fn lemma_link_id_trailing_slash(href: Seq<char>)
    ensures
        link_id(href + seq!['/']) == link_id(href),
{
    let empty = Seq::<char>::empty();
    assert(href + seq!['/'] =~= href + seq!['/'] + empty);
    lemma_split_char_concat(href, empty, '/');
    lemma_split_char_absent(empty, '/');
    let pieces = split_seq(href, seq!['/']) + seq![empty];
    assert(pieces.drop_last() =~= split_seq(href, seq!['/']));
    assert(pieces.last() == empty);
}

/// What one tile gives: its title link must be there and carry an `href`;
/// a title with a left-out character is skipped.
pub open spec fn tile_step(title_link: Option<ElementView>, company: Seq<char>, country: Seq<char>) -> Step {
    match title_link {
        None => Err(ScrapeError::MissingElement),
        Some(t) => match t.href {
            None => Err(ScrapeError::MissingAttribute),
            Some(href) => {
                let title = trimmed(t.text);
                if has_accented(title) {
                    Ok(None)
                } else {
                    Ok(
                        Some(
                            JobView {
                                id: JobIdView::Text(link_id(href)),
                                job_title: title,
                                job_link: LINK_PREFIX@ + href,
                                company: company,
                                country: country,
                                city: ascii_form(country),
                            },
                        ),
                    )
                }
            },
        },
    }
}

/// The postings of a result page.
pub open spec fn page_jobs(body: Seq<char>, company: Seq<char>, country: Seq<char>) -> Result<
    Seq<JobView>,
    ScrapeError,
> {
    if !(selector_parses(TILE_SELECTOR@) && selector_parses(TITLE_SELECTOR@)) {
        Err(ScrapeError::BadSelector)
    } else {
        let titles = first_within(body, TILE_SELECTOR@, TITLE_SELECTOR@);
        collect_steps(Seq::new(titles.len(), |i: int| tile_step(titles[i], company, country)))
    }
}

/// Every posting read from a result page has a title without the
/// left-out characters, a link on the Allianz careers site, and the company
/// and country it was read for.
pub proof fn lemma_page_jobs_shape(body: Seq<char>, company: Seq<char>, country: Seq<char>)
    ensures
        page_jobs(body, company, country) matches Ok(v) ==> forall|k: int|
            0 <= k < v.len() ==> !has_accented((#[trigger] v[k]).job_title)
                && v[k].job_link.take(LINK_PREFIX@.len() as int) == LINK_PREFIX@ && v[k].company
                == company && v[k].country == country,
{
    if selector_parses(TILE_SELECTOR@) && selector_parses(TITLE_SELECTOR@) {
        let titles = first_within(body, TILE_SELECTOR@, TITLE_SELECTOR@);
        let steps = Seq::new(titles.len(), |i: int| tile_step(titles[i], company, country));
        crate::job::lemma_collect_steps_from(steps);
        if let Ok(v) = page_jobs(body, company, country) {
            assert forall|k: int| 0 <= k < v.len() implies !has_accented((#[trigger] v[k]).job_title)
                && v[k].job_link.take(LINK_PREFIX@.len() as int) == LINK_PREFIX@ && v[k].company
                == company && v[k].country == country by {
                let i = choose|i: int|
                    0 <= i < steps.len() && steps[i] == Ok::<Option<JobView>, ScrapeError>(
                        Some(#[trigger] v[k]),
                    );
                let href = titles[i]->Some_0.href->Some_0;
                assert((LINK_PREFIX@ + href).take(LINK_PREFIX@.len() as int) =~= LINK_PREFIX@);
            }
        }
    }
}

/// Every posting read from a result page has as its id the id of its
/// link's part after the careers site, its last non-empty `/` segment.
pub proof fn lemma_page_jobs_ids(body: Seq<char>, company: Seq<char>, country: Seq<char>)
    ensures
        page_jobs(body, company, country) matches Ok(v) ==> forall|k: int|
            0 <= k < v.len() ==> (#[trigger] v[k]).id == JobIdView::Text(
                link_id(v[k].job_link.skip(LINK_PREFIX@.len() as int)),
            ),
{
    if selector_parses(TILE_SELECTOR@) && selector_parses(TITLE_SELECTOR@) {
        let titles = first_within(body, TILE_SELECTOR@, TITLE_SELECTOR@);
        let steps = Seq::new(titles.len(), |i: int| tile_step(titles[i], company, country));
        crate::job::lemma_collect_steps_from(steps);
        if let Ok(v) = page_jobs(body, company, country) {
            assert forall|k: int| 0 <= k < v.len() implies (#[trigger] v[k]).id == JobIdView::Text(
                link_id(v[k].job_link.skip(LINK_PREFIX@.len() as int)),
            ) by {
                let i = choose|i: int|
                    0 <= i < steps.len() && steps[i] == Ok::<Option<JobView>, ScrapeError>(
                        Some(#[trigger] v[k]),
                    );
                let href = titles[i]->Some_0.href->Some_0;
                assert((LINK_PREFIX@ + href).skip(LINK_PREFIX@.len() as int) =~= href);
            }
        }
    }
}

/// The identifier of a link.
fn link_id_of(href: &str) -> (r: String)
    ensures
        r@ == link_id(href@),
{
    proof {
        reveal_strlit("/");
    }
    let pieces = split_str(href, "/");
    assert(("/")@ =~= seq!['/']);
    let ghost views = crate::text::views(pieces@);
    let mut i: usize = pieces.len();
    assert(views.take(i as int) =~= views);
    while i > 0
        invariant
            i <= pieces@.len(),
            views == crate::text::views(pieces@),
            views == split_seq(href@, seq!['/']),
            last_nonempty(views) == last_nonempty(views.take(i as int)),
            forall|j: int| i <= j < pieces@.len() ==> views[j].len() == 0,
        decreases i,
    {
        assert(views.take(i as int).last() == pieces@[i - 1]@);
        if pieces[i - 1].as_str().unicode_len() > 0 {
            return pieces[i - 1].clone();
        }
        assert(views.take(i as int).drop_last() =~= views.take(i - 1));
        i = i - 1;
    }
    String::from_str("error")
}

/// Whether the title holds a left-out character.
fn has_accented_char(title: &str) -> (r: bool)
    ensures
        r == has_accented(title@),
{
    let cs = accented_chars();
    let mut i: usize = 0;
    while i < cs.len()
        invariant
            i <= cs@.len(),
            cs@ == accented(),
            forall|j: int| 0 <= j < i ==> !title@.contains(#[trigger] accented()[j]),
        decreases cs.len() - i,
    {
        if contains_char(title, cs[i]) {
            return true;
        }
        i = i + 1;
    }
    false
}

/// Reads the postings of one result page (`fetch_jobs` after the request).
pub fn parse_jobs(body: &str, company: &str, country: &str) -> (r: Result<Vec<Job>, ScrapeError>)
    ensures
        r matches Ok(v) ==> crate::job::ascii_cities(v@),
        match r {
            Ok(v) => page_jobs(body@, company@, country@) == Ok::<_, ScrapeError>(job_views(v@)),
            Err(e) => page_jobs(body@, company@, country@) == Err::<Seq<JobView>, _>(e),
        },
{
    let titles = match select_first_within(body, TILE_SELECTOR, TITLE_SELECTOR) {
        Some(t) => t,
        None => return Err(ScrapeError::BadSelector),
    };
    let ghost tviews = first_within(body@, TILE_SELECTOR@, TITLE_SELECTOR@);
    let ghost steps = Seq::new(tviews.len(), |i: int| tile_step(tviews[i], company@, country@));
    let mut jobs: Vec<Job> = Vec::new();
    let mut i: usize = 0;
    assert(steps.take(0) =~= Seq::<Step>::empty());
    assert(job_views(jobs@) =~= Seq::<JobView>::empty());
    while i < titles.len()
        invariant
            i <= titles@.len() == tviews.len() == steps.len(),
            selector_parses(TILE_SELECTOR@) && selector_parses(TITLE_SELECTOR@),
            tviews == first_within(body@, TILE_SELECTOR@, TITLE_SELECTOR@),
            crate::html::opt_element_views(titles@) == tviews,
            steps == Seq::new(tviews.len(), |i: int| tile_step(tviews[i], company@, country@)),
            collect_steps(steps.take(i as int)) == Ok::<_, ScrapeError>(job_views(jobs@)),
            crate::job::ascii_cities(jobs@),
        decreases titles.len() - i,
    {
        proof {
            lemma_collect_steps_push(steps, i as int);
        }
        let ghost before = jobs@;
        match &titles[i] {
            None => {
                proof {
                    assert(tviews[i as int] is None);
                    assert(steps[i as int] == Err::<Option<JobView>, _>(ScrapeError::MissingElement));
                    lemma_collect_steps_stop(steps, i as int);
                    assert(page_jobs(body@, company@, country@) == collect_steps(steps));
                }
                return Err(ScrapeError::MissingElement);
            },
            Some(t) => {
                assert(tviews[i as int] == Some(t@));
                match &t.href {
                    None => {
                        proof {
                            assert(steps[i as int] == Err::<Option<JobView>, _>(ScrapeError::MissingAttribute));
                            lemma_collect_steps_stop(steps, i as int);
                            assert(page_jobs(body@, company@, country@) == collect_steps(steps));
                        }
                        return Err(ScrapeError::MissingAttribute);
                    },
                    Some(href) => {
                        let title = trim(t.text.as_str());
                        if !has_accented_char(title.as_str()) {
                            let id = link_id_of(href.as_str());
                            let link = concat(LINK_PREFIX, href.as_str());
                            let city = unidecode(country);
                            let job = new_job(JobId::Text(id), title, link, company, country, city);
                            jobs.push(job);
                            proof {
                                crate::job::lemma_ascii_cities_push(before, jobs@);
                            }
                            assert(job_views(jobs@) =~= job_views(before).push(job@));
                        }
                    },
                }
            },
        }
        i = i + 1;
    }
    assert(steps.take(titles@.len() as int) =~= steps);
    Ok(jobs)
}

// ---------------------------------------------------------------------------
// One posting per link
// ---------------------------------------------------------------------------

/// Some posting of `jobs` has the link `link`.
pub open spec fn link_seen(jobs: Seq<JobView>, link: Seq<char>) -> bool {
    exists|i: int| 0 <= i < jobs.len() && (#[trigger] jobs[i]).job_link == link
}

/// The postings of `jobs` in order, keeping only the first posting for each
/// link.
pub open spec fn unique_by_link(jobs: Seq<JobView>) -> Seq<JobView>
    decreases jobs.len(),
{
    if jobs.len() == 0 {
        seq![]
    } else {
        let kept = unique_by_link(jobs.drop_last());
        if link_seen(kept, jobs.last().job_link) {
            kept
        } else {
            kept.push(jobs.last())
        }
    }
}

/// No two postings of `jobs` share a link.
pub open spec fn distinct_links(jobs: Seq<JobView>) -> bool {
    forall|i: int, j: int|
        0 <= i < j < jobs.len() ==> (#[trigger] jobs[i]).job_link != (#[trigger] jobs[j]).job_link
}

/// Keeps the first posting for each link, in the order of `jobs`.
pub fn remove_duplicates(jobs: Vec<Job>) -> (r: Vec<Job>)
    ensures
        job_views(r@) == unique_by_link(job_views(jobs@)),
{
    let ghost input = job_views(jobs@);
    let mut results: Vec<Job> = Vec::new();
    assert(job_views(results@) =~= unique_by_link(input.take(0)));
    for job in it: jobs
        invariant
            job_views(it.seq()) == input,
            job_views(results@) == unique_by_link(input.take(it.index() as int)),
    {
        let ghost i = it.index() as int;
        assert(job@ == input[i]);
        let ghost kept = job_views(results@);
        let mut seen = false;
        let mut k: usize = 0;
        while k < results.len()
            invariant
                k <= results@.len(),
                kept == job_views(results@),
                seen == (exists|m: int| 0 <= m < k && (#[trigger] kept[m]).job_link == job.job_link@),
            decreases results.len() - k,
        {
            assert(kept[k as int] == results@[k as int]@);
            if results[k].job_link == job.job_link {
                seen = true;
            }
            assert(seen == (exists|m: int| 0 <= m < k + 1 && (#[trigger] kept[m]).job_link == job.job_link@));
            k = k + 1;
        }
        assert(input.take(i + 1).drop_last() =~= input.take(i));
        assert(seen == link_seen(kept, job@.job_link));
        if !seen {
            results.push(job);
            assert(job_views(results@) =~= kept.push(input[i]));
        }
    }
    assert(input.take(input.len() as int) =~= input);
    results
}

/// Every posting that is kept comes from the input, and none is kept twice
/// for one link.
pub proof fn lemma_unique_by_link_sound(jobs: Seq<JobView>)
    ensures
        distinct_links(unique_by_link(jobs)),
        forall|k: int| 0 <= k < unique_by_link(jobs).len() ==> jobs.contains(#[trigger] unique_by_link(jobs)[k]),
    decreases jobs.len(),
{
    if jobs.len() > 0 {
        let init = jobs.drop_last();
        lemma_unique_by_link_sound(init);
        let kept = unique_by_link(init);
        assert forall|k: int| 0 <= k < kept.len() implies jobs.contains(#[trigger] kept[k]) by {
            let m = choose|m: int| 0 <= m < init.len() && init[m] == kept[k];
            assert(jobs[m] == kept[k]);
        }
        if !link_seen(kept, jobs.last().job_link) {
            let out = kept.push(jobs.last());
            assert forall|i: int, j: int| 0 <= i < j < out.len() implies (#[trigger] out[i]).job_link
                != (#[trigger] out[j]).job_link by {
                if j == kept.len() {
                    assert(kept[i] == out[i]);
                    if out[i].job_link == out[j].job_link {
                        assert(link_seen(kept, jobs.last().job_link));
                    }
                } else {
                    assert(kept[i] == out[i] && kept[j] == out[j]);
                }
            }
            assert forall|k: int| 0 <= k < out.len() implies jobs.contains(#[trigger] out[k]) by {
                if k == kept.len() {
                    assert(jobs[jobs.len() - 1] == out[k]);
                } else {
                    assert(kept[k] == out[k]);
                }
            }
        }
    }
}

/// Every link of the input is the link of a kept posting.
pub proof fn lemma_unique_by_link_covers(jobs: Seq<JobView>)
    ensures
        forall|i: int| 0 <= i < jobs.len() ==> link_seen(unique_by_link(jobs), (#[trigger] jobs[i]).job_link),
    decreases jobs.len(),
{
    if jobs.len() > 0 {
        let init = jobs.drop_last();
        lemma_unique_by_link_covers(init);
        let kept = unique_by_link(init);
        let out = unique_by_link(jobs);
        assert forall|i: int| 0 <= i < jobs.len() implies link_seen(out, (#[trigger] jobs[i]).job_link) by {
            if i < init.len() {
                assert(init[i] == jobs[i]);
                assert(link_seen(kept, init[i].job_link));
                let m = choose|m: int| 0 <= m < kept.len() && (#[trigger] kept[m]).job_link == init[i].job_link;
                assert(out[m] == kept[m]);
            } else if !link_seen(kept, jobs.last().job_link) {
                assert(out[kept.len() as int] == jobs.last());
            }
        }
    }
}

/// Each kept posting is the first posting of the input with its link.
pub proof fn lemma_unique_by_link_keeps_first(jobs: Seq<JobView>)
    ensures
        forall|k: int|
            0 <= k < unique_by_link(jobs).len() ==> exists|i: int|
                0 <= i < jobs.len() && jobs[i] == #[trigger] unique_by_link(jobs)[k] && (forall|m: int|
                    0 <= m < i ==> jobs[m].job_link != jobs[i].job_link),
    decreases jobs.len(),
{
    if jobs.len() > 0 {
        let init = jobs.drop_last();
        lemma_unique_by_link_keeps_first(init);
        lemma_unique_by_link_covers(init);
        let kept = unique_by_link(init);
        let out = unique_by_link(jobs);
        assert forall|k: int| 0 <= k < out.len() implies exists|i: int|
            0 <= i < jobs.len() && jobs[i] == #[trigger] out[k] && (forall|m: int|
                0 <= m < i ==> jobs[m].job_link != jobs[i].job_link) by {
            if k < kept.len() {
                assert(out[k] == kept[k]);
                let i = choose|i: int|
                    0 <= i < init.len() && init[i] == #[trigger] kept[k] && (forall|m: int|
                        0 <= m < i ==> init[m].job_link != init[i].job_link);
                assert(jobs[i] == init[i]);
                assert forall|m: int| 0 <= m < i implies jobs[m].job_link != jobs[i].job_link by {
                    assert(jobs[m] == init[m]);
                }
            } else {
                let i = jobs.len() - 1;
                assert(out[k] == jobs[i]);
                assert(!link_seen(kept, jobs[i].job_link));
                assert forall|m: int| 0 <= m < i implies jobs[m].job_link != jobs[i].job_link by {
                    assert(jobs[m] == init[m]);
                    assert(link_seen(kept, (#[trigger] init[m]).job_link));
                }
            }
        }
    }
}

/// A list whose links are already distinct is kept whole.
pub proof fn lemma_unique_by_link_of_distinct(jobs: Seq<JobView>)
    requires
        distinct_links(jobs),
    ensures
        unique_by_link(jobs) == jobs,
    decreases jobs.len(),
{
    if jobs.len() > 0 {
        let init = jobs.drop_last();
        assert(distinct_links(init)) by {
            assert forall|i: int, j: int| 0 <= i < j < init.len() implies (#[trigger] init[i]).job_link
                != (#[trigger] init[j]).job_link by {
                assert(init[i] == jobs[i] && init[j] == jobs[j]);
            }
        }
        lemma_unique_by_link_of_distinct(init);
        if link_seen(init, jobs.last().job_link) {
            let m = choose|m: int| 0 <= m < init.len() && (#[trigger] init[m]).job_link == jobs.last().job_link;
            assert(jobs[m] == init[m]);
            assert(false);
        }
        assert(init.push(jobs.last()) =~= jobs);
    }
}

/// A link is held by the kept postings exactly when the input holds it.
proof fn lemma_seen_in_unique(jobs: Seq<JobView>, link: Seq<char>)
    ensures
        link_seen(unique_by_link(jobs), link) <==> link_seen(jobs, link),
{
    let kept = unique_by_link(jobs);
    lemma_unique_by_link_sound(jobs);
    lemma_unique_by_link_covers(jobs);
    if link_seen(jobs, link) {
        let i = choose|i: int| 0 <= i < jobs.len() && (#[trigger] jobs[i]).job_link == link;
        assert(link_seen(kept, jobs[i].job_link));
    }
    if link_seen(kept, link) {
        let k = choose|k: int| 0 <= k < kept.len() && (#[trigger] kept[k]).job_link == link;
        assert(jobs.contains(kept[k]));
        let i = choose|i: int| 0 <= i < jobs.len() && jobs[i] == kept[k];
        assert(jobs[i].job_link == link);
    }
}

/// The postings of `b` whose link `a` does not hold.
pub open spec fn new_links(a: Seq<JobView>, b: Seq<JobView>) -> Seq<JobView> {
    b.filter(|j: JobView| !link_seen(a, j.job_link))
}

/// Removing duplicates from `a` followed by `b` keeps what it keeps of `a`,
/// then what it keeps of `b` for the links that `a` does not hold.
pub proof fn lemma_unique_by_link_append(a: Seq<JobView>, b: Seq<JobView>)
    ensures
        unique_by_link(a + b) == unique_by_link(a) + new_links(a, unique_by_link(b)),
    decreases b.len(),
{
    let f = |j: JobView| !link_seen(a, j.job_link);
    if b.len() == 0 {
        assert(a + b =~= a);
        assert(unique_by_link(b) =~= Seq::<JobView>::empty());
        reveal(Seq::filter);
        assert(unique_by_link(a) + new_links(a, unique_by_link(b)) =~= unique_by_link(a));
    } else {
        let b0 = b.drop_last();
        let x = b.last();
        lemma_unique_by_link_append(a, b0);
        assert((a + b).drop_last() =~= a + b0);
        assert((a + b).last() == x);
        let ua = unique_by_link(a);
        let u0 = unique_by_link(b0);
        let f0 = u0.filter(f);
        let k = ua + f0;
        assert(unique_by_link(a + b0) == k);
        lemma_seen_in_unique(a, x.job_link);
        assert(u0.push(x).drop_last() =~= u0);
        reveal(Seq::filter);
        if link_seen(a, x.job_link) {
            let m = choose|m: int| 0 <= m < ua.len() && (#[trigger] ua[m]).job_link == x.job_link;
            assert(k[m] == ua[m]);
            assert(link_seen(k, x.job_link));
            assert(unique_by_link(b).filter(f) == f0);
        } else if link_seen(u0, x.job_link) {
            let m = choose|m: int| 0 <= m < u0.len() && (#[trigger] u0[m]).job_link == x.job_link;
            assert(f(u0[m]));
            u0.lemma_filter_contains(f, m);
            let p = choose|p: int| 0 <= p < f0.len() && f0[p] == u0[m];
            assert(k[ua.len() + p] == f0[p]);
            assert(link_seen(k, x.job_link));
            assert(unique_by_link(b) == u0);
        } else {
            assert(!link_seen(ua, x.job_link));
            assert forall|i: int| 0 <= i < k.len() implies (#[trigger] k[i]).job_link != x.job_link by {
                if i < ua.len() {
                    assert(k[i] == ua[i]);
                } else {
                    let p = i - ua.len();
                    assert(k[i] == f0[p]);
                    assert(f0.contains(f0[p]));
                    u0.lemma_filter_contains_rev(f, f0[p]);
                    let m = choose|m: int| 0 <= m < u0.len() && u0[m] == f0[p];
                    if f0[p].job_link == x.job_link {
                        assert(u0[m].job_link == x.job_link);
                        assert(link_seen(u0, x.job_link));
                    }
                }
            }
            assert(!link_seen(k, x.job_link));
            assert(unique_by_link(b) == u0.push(x));
            assert(f(x));
            assert(unique_by_link(b).filter(f) == f0.push(x));
            assert(ua + f0.push(x) =~= k.push(x));
        }
    }
}

/// Removing duplicates twice is removing them once.
pub proof fn lemma_unique_by_link_idempotent(jobs: Seq<JobView>)
    ensures
        unique_by_link(unique_by_link(jobs)) == unique_by_link(jobs),
{
    lemma_unique_by_link_sound(jobs);
    lemma_unique_by_link_of_distinct(unique_by_link(jobs));
}

/// The posting count that the scripts of a page state.
pub open spec fn script_count(scripts: Seq<ElementView>) -> Result<u64, ScrapeError>
    decreases scripts.len(),
{
    if scripts.len() == 0 {
        Ok(0)
    } else {
        let e = scripts[0];
        let rest = script_count(scripts.drop_first());
        if e.src is Some {
            rest
        } else {
            match e.first_text {
                None => rest,
                Some(contents) => match first_capture(COUNT_PATTERN@, contents, 1) {
                    None => rest,
                    Some(None) => Err(ScrapeError::BadNumber),
                    Some(Some(digits)) => match parse_u32_spec(digits) {
                        Some(n) => Ok(n as u64),
                        None => Err(ScrapeError::BadNumber),
                    },
                },
            }
        }
    }
}

/// The posting count of a page: the number in the first inline script that
/// the count statement matches, 0 where none does.
pub open spec fn page_count_of(body: Seq<char>) -> Result<u64, ScrapeError> {
    if !pattern_compiles(COUNT_PATTERN@) {
        Err(ScrapeError::BadPattern)
    } else if !selector_parses(SCRIPT_SELECTOR@) {
        Err(ScrapeError::BadSelector)
    } else {
        script_count(matches_of(body, SCRIPT_SELECTOR@))
    }
}

/// Reads the posting count from the first result page (`job_count` after
/// the request).
pub fn parse_job_count(body: &str) -> (r: Result<u64, ScrapeError>)
    ensures
        r == page_count_of(body@),
{
    if let Capture::BadPattern = capture(COUNT_PATTERN, "", 1) {
        return Err(ScrapeError::BadPattern);
    }
    let scripts = match select_all(body, SCRIPT_SELECTOR) {
        Some(s) => s,
        None => return Err(ScrapeError::BadSelector),
    };
    let ghost sviews = matches_of(body@, SCRIPT_SELECTOR@);
    let mut i: usize = 0;
    assert(sviews.skip(0) =~= sviews);
    while i < scripts.len()
        invariant
            i <= scripts@.len() == sviews.len(),
            crate::html::element_views(scripts@) == sviews,
            pattern_compiles(COUNT_PATTERN@),
            selector_parses(SCRIPT_SELECTOR@),
            page_count_of(body@) == script_count(sviews.skip(i as int)),
        decreases scripts.len() - i,
    {
        assert(sviews.skip(i as int).drop_first() =~= sviews.skip(i + 1));
        assert(sviews.skip(i as int)[0] == scripts@[i as int]@);
        let e = &scripts[i];
        if e.src.is_none() {
            if let Some(contents) = &e.first_text {
                match capture(COUNT_PATTERN, contents.as_str(), 1) {
                    Capture::BadPattern => {
                        return Err(ScrapeError::BadPattern);
                    },
                    Capture::NoMatch => {},
                    Capture::Group(None) => {
                        return Err(ScrapeError::BadNumber);
                    },
                    Capture::Group(Some(digits)) => {
                        return match parse_u32(digits.as_str()) {
                            Some(n) => Ok(n as u64),
                            None => Err(ScrapeError::BadNumber),
                        };
                    },
                }
            }
        }
        i = i + 1;
    }
    Ok(0)
}

/// The result pages to ask for: one per start row `0, 25, 50, ...` below
/// `count`.
pub open spec fn page_urls_spec(count: nat) -> Seq<Seq<char>> {
    numbered_texts(start_rows_spec(count, PAGE_SIZE as nat), PAGE_URL_PREFIX@, ""@)
}

/// The result pages to ask for (the `scrape` loop that builds them).
pub fn page_urls(count: u64) -> (r: Vec<String>)
    requires
        page_count(count as nat, PAGE_SIZE as nat) * PAGE_SIZE <= u64::MAX,
    ensures
        crate::text::views(r@) == page_urls_spec(count as nat),
        r@.len() == page_count(count as nat, PAGE_SIZE as nat),
{
    let rows = start_rows(count, PAGE_SIZE);
    let r = numbered_urls(&rows, PAGE_URL_PREFIX, "");
    assert(crate::text::views(r@).len() == r@.len());
    r
}

} // verus!
