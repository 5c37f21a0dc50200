//! The job record that every site reader produces, the reader's errors, and
//! the helpers that several readers share.
use vstd::prelude::*;

use crate::text::{decimal, decimal_string};

verus! {

/// A posting's identifier: a text taken from the site, or a number.
#[derive(Debug, PartialEq, Eq)]
pub enum JobId {
    Text(String),
    Number(u64),
}

/// One job posting.
#[derive(Debug, PartialEq, Eq)]
pub struct Job {
    pub id: JobId,
    pub job_title: String,
    pub job_link: String,
    pub company: String,
    pub country: String,
    pub city: String,
}

/// A posting's identifier by its characters.
pub enum JobIdView {
    Text(Seq<char>),
    Number(u64),
}

/// A posting by its characters.
pub struct JobView {
    pub id: JobIdView,
    pub job_title: Seq<char>,
    pub job_link: Seq<char>,
    pub company: Seq<char>,
    pub country: Seq<char>,
    pub city: Seq<char>,
}

impl View for JobId {
    type V = JobIdView;

    open spec fn view(&self) -> JobIdView {
        match self {
            JobId::Text(s) => JobIdView::Text(s@),
            JobId::Number(n) => JobIdView::Number(*n),
        }
    }
}

impl View for Job {
    type V = JobView;

    open spec fn view(&self) -> JobView {
        JobView {
            id: self.id@,
            job_title: self.job_title@,
            job_link: self.job_link@,
            company: self.company@,
            country: self.country@,
            city: self.city@,
        }
    }
}

/// Every posting's city is written in ASCII.
pub open spec fn ascii_cities(v: Seq<Job>) -> bool {
    forall|i: int| 0 <= i < v.len() ==> crate::transliterate::is_ascii_text(#[trigger] v[i].city@)
}

/// A list of ASCII-city postings stays so when one more is added.
pub proof fn lemma_ascii_cities_push(v: Seq<Job>, w: Seq<Job>)
    requires
        ascii_cities(v),
        w.len() == v.len() + 1,
        forall|i: int| 0 <= i < v.len() ==> w[i] == v[i],
        crate::transliterate::is_ascii_text(w.last().city@),
    ensures
        ascii_cities(w),
{
    assert forall|i: int| 0 <= i < w.len() implies crate::transliterate::is_ascii_text(
        #[trigger] w[i].city@,
    ) by {
        if i < v.len() {
            assert(w[i] == v[i]);
        }
    }
}

/// Two lists of ASCII-city postings, one after the other.
pub proof fn lemma_ascii_cities_append(v: Seq<Job>, u: Seq<Job>)
    requires
        ascii_cities(v),
        ascii_cities(u),
    ensures
        ascii_cities(v + u),
{
    let w = v + u;
    assert forall|i: int| 0 <= i < w.len() implies crate::transliterate::is_ascii_text(
        #[trigger] w[i].city@,
    ) by {
        if i < v.len() {
            assert(w[i] == v[i]);
        } else {
            assert(w[i] == u[i - v.len()]);
        }
    }
}

/// The views of a list of postings.
pub open spec fn job_views(v: Seq<Job>) -> Seq<JobView> {
    v.map_values(|j: Job| j@)
}

/// Why a page could not be read. Each stands for a place where the reader
/// expects something of the page that is not there.
#[derive(Debug, PartialEq, Eq)]
pub enum ScrapeError {
    /// A CSS selector was refused.
    BadSelector,
    /// A regular expression was refused.
    BadPattern,
    /// An element that the page should hold is missing.
    MissingElement,
    /// An attribute that an element should hold is missing.
    MissingAttribute,
    /// A pattern matched without the capture group that should hold the value.
    MissingGroup,
    /// A JSON member is missing or of another type.
    MissingField,
    /// A text has fewer separated parts than it should.
    MissingPart,
    /// A text that should be a number is not one.
    BadNumber,
    /// A text to title-case holds more `(` characters than
    /// `MAX_BRACKETS`.
    TooManyBrackets,
}

/// One reading step's outcome: a posting, nothing (the entry is skipped), or
/// an error.
pub type Step = Result<Option<JobView>, ScrapeError>;

/// The postings of a run of steps; the first error, if any, stops the run.
pub open spec fn collect_steps(s: Seq<Step>) -> Result<Seq<JobView>, ScrapeError>
    decreases s.len(),
{
    if s.len() == 0 {
        Ok(seq![])
    } else {
        match collect_steps(s.drop_last()) {
            Err(e) => Err(e),
            Ok(prev) => match s.last() {
                Err(e) => Err(e),
                Ok(None) => Ok(prev),
                Ok(Some(j)) => Ok(prev.push(j)),
            },
        }
    }
}

/// Every posting of a run comes from one of its steps.
pub proof fn lemma_collect_steps_from(s: Seq<Step>)
    ensures
        collect_steps(s) matches Ok(v) ==> forall|k: int|
            0 <= k < v.len() ==> exists|i: int|
                0 <= i < s.len() && s[i] == Ok::<Option<JobView>, ScrapeError>(Some(#[trigger] v[k])),
    decreases s.len(),
{
    if s.len() > 0 {
        let init = s.drop_last();
        lemma_collect_steps_from(init);
        if let Ok(v) = collect_steps(s) {
            let prev = collect_steps(init)->Ok_0;
            assert forall|k: int| 0 <= k < v.len() implies exists|i: int|
                0 <= i < s.len() && s[i] == Ok::<Option<JobView>, ScrapeError>(Some(#[trigger] v[k])) by {
                if k < prev.len() {
                    assert(v[k] == prev[k]);
                    let i = choose|i: int|
                        0 <= i < init.len() && init[i] == Ok::<Option<JobView>, ScrapeError>(
                            Some(#[trigger] prev[k]),
                        );
                    assert(s[i] == init[i]);
                } else {
                    assert(s[s.len() - 1] == Ok::<Option<JobView>, ScrapeError>(Some(v[k])));
                }
            }
        }
    }
}

/// A run whose steps each give a posting or an error gives, when it gives
/// postings, exactly one per step, in the order of the steps.
pub proof fn lemma_collect_steps_one_each(s: Seq<Step>)
    requires
        forall|i: int| 0 <= i < s.len() ==> !(#[trigger] s[i] matches Ok(None)),
    ensures
        collect_steps(s) matches Ok(v) ==> v.len() == s.len() && forall|k: int|
            0 <= k < s.len() ==> s[k] == Ok::<Option<JobView>, ScrapeError>(Some(#[trigger] v[k])),
    decreases s.len(),
{
    if s.len() > 0 {
        let init = s.drop_last();
        assert forall|i: int| 0 <= i < init.len() implies !(#[trigger] init[i] matches Ok(None)) by {
            assert(init[i] == s[i]);
        }
        lemma_collect_steps_one_each(init);
        if let Ok(v) = collect_steps(s) {
            let prev = collect_steps(init)->Ok_0;
            assert(!(s[s.len() - 1] matches Ok(None)));
            assert forall|k: int| 0 <= k < s.len() implies s[k] == Ok::<Option<JobView>, ScrapeError>(
                Some(#[trigger] v[k]),
            ) by {
                if k < init.len() {
                    assert(init[k] == s[k]);
                    assert(v[k] == prev[k]);
                }
            }
        }
    }
}

/// An error in a prefix of the steps is the error of the whole run.
pub proof fn lemma_collect_steps_error(s: Seq<Step>, k: int)
    requires
        0 <= k <= s.len(),
        collect_steps(s.take(k)) is Err,
    ensures
        collect_steps(s) == collect_steps(s.take(k)),
    decreases s.len() - k,
{
    if k < s.len() {
        assert(s.take(k + 1).drop_last() =~= s.take(k));
        lemma_collect_steps_error(s, k + 1);
    } else {
        assert(s.take(k) =~= s);
    }
}

/// One more step, as the loops of the readers take it.
pub proof fn lemma_collect_steps_push(s: Seq<Step>, k: int)
    requires
        0 <= k < s.len(),
    ensures
        collect_steps(s.take(k + 1)) == match collect_steps(s.take(k)) {
            Err(e) => Err(e),
            Ok(prev) => match s[k] {
                Err(e) => Err(e),
                Ok(None) => Ok(prev),
                Ok(Some(j)) => Ok(prev.push(j)),
            },
        },
{
    assert(s.take(k + 1).drop_last() =~= s.take(k));
}

/// A step that ends in error makes the whole run that error.
pub proof fn lemma_collect_steps_stop(s: Seq<Step>, k: int)
    requires
        0 <= k < s.len(),
        collect_steps(s.take(k)) is Ok,
        s[k] is Err,
    ensures
        collect_steps(s) == Err::<Seq<JobView>, ScrapeError>(s[k]->Err_0),
{
    lemma_collect_steps_push(s, k);
    lemma_collect_steps_error(s, k + 1);
}

// ---------------------------------------------------------------------------
// Shared helpers
// ---------------------------------------------------------------------------

/// The city name with "Bucharest" written the Romanian way, "Bucuresti".
pub open spec fn romanian_city(city: Seq<char>) -> Seq<char> {
    if city == "Bucharest"@ {
        "Bucuresti"@
    } else {
        city
    }
}

/// `city`, with "Bucharest" written "Bucuresti".
pub fn romanian_city_name(city: &str) -> (r: String)
    ensures
        r@ == romanian_city(city@),
{
    if crate::text::same_text(city, "Bucharest") {
        String::from_str("Bucuresti")
    } else {
        String::from_str(city)
    }
}

/// `prefix` followed by the decimal numeral of `n` and by `suffix` (what
/// `format!("{prefix}{n}{suffix}")` gives).
pub fn text_with_number(prefix: &str, n: u64, suffix: &str) -> (r: String)
    ensures
        r@ == prefix@ + decimal(n as nat) + suffix@,
{
    let mut r = String::from_str(prefix);
    r.append(decimal_string(n).as_str());
    r.append(suffix);
    r
}

/// `a` followed by `b`.
pub fn concat(a: &str, b: &str) -> (r: String)
    ensures
        r@ == a@ + b@,
{
    let mut r = String::from_str(a);
    r.append(b);
    r
}

/// A posting made of its parts.
pub fn new_job(id: JobId, title: String, link: String, company: &str, country: &str, city: String) -> (r: Job)
    ensures
        r@ == (JobView {
            id: id@,
            job_title: title@,
            job_link: link@,
            company: company@,
            country: country@,
            city: city@,
        }),
{
    Job {
        id,
        job_title: title,
        job_link: link,
        company: String::from_str(company),
        country: String::from_str(country),
        city,
    }
}

} // verus!
