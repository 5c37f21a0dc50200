use based_scrapper::job::{JobId, ScrapeError};
use std::hash::Hasher;
use based_scrapper::{allianz, autonom, bcr, brd, draexlmaier, generali};

fn hash_text(seed: u64, s: &str) -> u64 {
    let mut h = twox_hash::XxHash::with_seed(seed);
    h.write(s.as_bytes());
    h.finish()
}

fn tile(title: &str, href: Option<&str>) -> String {
    let link = match href {
        Some(h) => format!("<a href=\"{}\">{}</a>", h, title),
        None => format!("<a>{}</a>", title),
    };
    format!(
        "<div class=\"col-md-12 sub-section sub-section-desktop hidden-xs hidden-sm\"><span class=\"tiletitle\">{}</span></div>",
        link
    )
}

#[test]
fn allianz_reads_tiles_and_leaves_out_accented_titles() {
    let page = format!(
        "<html><body>{}{}{}</body></html>",
        tile("  Claims Specialist ", Some("/job/Bucuresti-Claims/1234/")),
        tile("Chargé de clientèle", Some("/job/Paris/9/")),
        tile("Actuary", Some("///")),
    );
    let jobs = allianz::parse_jobs(&page, "Allianz", "România").unwrap();
    assert_eq!(jobs.len(), 2);
    assert_eq!(jobs[0].id, JobId::Text("1234".to_string()));
    assert_eq!(jobs[0].job_title, "Claims Specialist");
    assert_eq!(jobs[0].job_link, "https://careers.allianz.com/job/Bucuresti-Claims/1234/");
    assert_eq!(jobs[0].company, "Allianz");
    assert_eq!(jobs[0].country, "România");
    assert_eq!(jobs[0].city, "Romania");
    assert_eq!(jobs[1].id, JobId::Text("error".to_string()));
    assert_eq!(jobs[1].job_title, "Actuary");
}

#[test]
fn allianz_titles_are_free_of_left_out_characters() {
    let page = format!("{}{}", tile("Chargée clientèle", Some("/a/1")), tile("Analyst", Some("/a/2")));
    let jobs = allianz::parse_jobs(&page, "Allianz", "Romania").unwrap();
    for job in &jobs {
        assert!(!job.job_title.chars().any(|c| "çéûêôëïü".contains(c)));
        assert!(job.job_link.starts_with(allianz::LINK_PREFIX));
    }
    assert_eq!(jobs.len(), 1);
}

#[test]
fn allianz_tile_without_link_or_href_is_an_error() {
    let no_link = "<div class=\"col-md-12 sub-section sub-section-desktop hidden-xs hidden-sm\"><p>x</p></div>";
    assert_eq!(allianz::parse_jobs(no_link, "A", "R"), Err(ScrapeError::MissingElement));
    let no_href = tile("Analyst", None);
    assert_eq!(allianz::parse_jobs(&no_href, "A", "R"), Err(ScrapeError::MissingAttribute));
    assert_eq!(allianz::parse_jobs("<p>no tiles</p>", "A", "R"), Ok(vec![]));
}

#[test]
fn allianz_count_comes_from_the_first_inline_script_that_states_it() {
    let page = "<script src=\"x.js\">jobRecordsFound: parseInt(\"99\")</script><script>var a = 1;</script><script>jobRecordsFound: parseInt(\"37\")</script><script>jobRecordsFound: parseInt(\"5\")</script>";
    assert_eq!(allianz::parse_job_count(page), Ok(37));
    assert_eq!(allianz::parse_job_count("<script>nothing</script>"), Ok(0));
    let too_big = "<script>jobRecordsFound:parseInt(\"99999999999\")</script>";
    assert_eq!(allianz::parse_job_count(too_big), Err(ScrapeError::BadNumber));
}

#[test]
fn allianz_pages_start_every_25_rows_below_the_count() {
    assert!(allianz::page_urls(0).is_empty());
    assert_eq!(allianz::page_urls(25).len(), 1);
    let urls = allianz::page_urls(26);
    assert_eq!(urls.len(), 2);
    assert_eq!(urls[0], format!("{}0", allianz::PAGE_URL_PREFIX));
    assert_eq!(urls[1], format!("{}25", allianz::PAGE_URL_PREFIX));
}

#[test]
fn autonom_reads_listings() {
    let page = "<a class=\"box-listing-job\" href=\"/cariere/agent vanzari\"><span class=\"nume-listing-job\"> Agent vanzari </span><span class=\"locatie-job\"> cluj napoca </span></a>";
    let jobs = autonom::parse_jobs(page, "Autonom", "Romania").unwrap();
    assert_eq!(jobs.len(), 1);
    assert_eq!(jobs[0].id, JobId::Number(hash_text(0, "/cariere/agent vanzari")));
    assert_eq!(jobs[0].job_title, "Agent vanzari");
    assert_eq!(jobs[0].job_link, "/cariere/agentvanzari");
    assert_eq!(jobs[0].city, "Cluj Napoca");
    let no_href = "<div class=\"box-listing-job\"><span class=\"nume-listing-job\">A</span><span class=\"locatie-job\">B</span></div>";
    assert_eq!(autonom::parse_jobs(no_href, "A", "R"), Err(ScrapeError::MissingAttribute));
    let no_location = "<a class=\"box-listing-job\" href=\"/x\"><span class=\"nume-listing-job\">A</span></a>";
    assert_eq!(autonom::parse_jobs(no_location, "A", "R"), Err(ScrapeError::MissingElement));
}

#[test]
fn bcr_reads_rows_with_the_next_to_last_link_piece_as_id() {
    let page = "<table><tr class=\"data-row\"><td><a class=\"jobTitle-link\" href=\"/bcr/job/Bucuresti-Analyst/123/\">Analyst </a></td><td><span class=\"jobShifttype\">Bucuresti</span></td></tr></table>";
    let jobs = bcr::parse_jobs(page).unwrap();
    assert_eq!(jobs.len(), 1);
    assert_eq!(jobs[0].id, JobId::Text("123".to_string()));
    assert_eq!(jobs[0].job_title, "Analyst ");
    assert_eq!(jobs[0].job_link, "https://erstegroup-careers.com/bcr/job/Bucuresti-Analyst/123/");
    assert_eq!(jobs[0].company, "BCR");
    assert_eq!(jobs[0].country, "Romania");
    assert_eq!(jobs[0].city, "Bucuresti");
    let short = "<table><tr class=\"data-row\"><td><a class=\"jobTitle-link\" href=\"job\">A</a><span class=\"jobShifttype\">B</span></td></tr></table>";
    assert_eq!(bcr::parse_jobs(short), Err(ScrapeError::MissingPart));
}

#[test]
fn brd_reads_cards_and_counts_them() {
    let page = "<div class=\"col-sm-12 col-md-6\"><div class=\"card-header\"> Consilier </div><a class=\"button button-red\" href=\"/cariere/consilier\">Aplica</a></div><div class=\"col-sm-12 col-md-6\"><div class=\"card-header\">Casier</div><a class=\"button button-red\" href=\"/c\">Aplica</a></div>";
    let jobs = brd::parse_jobs(page, "BRD", "Romania").unwrap();
    assert_eq!(jobs.len(), 2);
    assert_eq!(jobs[0].job_title, "Consilier");
    assert_eq!(jobs[0].job_link, "https://www.brd.ro/cariere/consilier");
    assert_eq!(jobs[0].id, JobId::Number(hash_text(0, "/cariere/consilier")));
    assert_eq!(jobs[0].city, "Romania");
    assert_eq!(brd::parse_job_count(page), Ok(2));
    let no_button = "<div class=\"col-sm-12 col-md-6\"><div class=\"card-header\">A</div></div>";
    assert_eq!(brd::parse_jobs(no_button, "BRD", "Romania"), Err(ScrapeError::MissingElement));
}

#[test]
fn draexlmaier_reads_rows_count_and_pages() {
    let page = "<table><tr class=\"data-row\"><td><a class=\"jobTitle-link\" href=\"/job/Timisoara-Engineer/77/\"> Engineer </a></td><td><span class=\"jobLocation\"> timisoara, TM, RO </span></td></tr></table><span class=\"paginationLabel\">Results <b>1 – 25</b> of <b>57</b></span>";
    let jobs = draexlmaier::parse_jobs(page, "Draexlmaier", "Romania").unwrap();
    assert_eq!(jobs.len(), 1);
    assert_eq!(jobs[0].job_title, "Engineer");
    assert_eq!(jobs[0].job_link, "https://d-career.org/job/Timisoara-Engineer/77/");
    assert_eq!(jobs[0].city, "Timisoara");
    assert_eq!(jobs[0].id, JobId::Number(hash_text(0, "/job/Timisoara-Engineer/77/")));
    assert_eq!(draexlmaier::parse_job_count(page), Ok(57));
    assert_eq!(draexlmaier::parse_job_count("<span class=\"paginationLabel\"><b>1</b></span>"), Err(ScrapeError::MissingElement));
    assert_eq!(draexlmaier::parse_job_count("<span class=\"paginationLabel\"><b>1</b><b>x</b></span>"), Err(ScrapeError::BadNumber));
    let urls = draexlmaier::page_urls(57);
    assert_eq!(urls.len(), 3);
    assert_eq!(urls[2], format!("{}50{}", draexlmaier::PAGE_URL_PREFIX, draexlmaier::PAGE_URL_SUFFIX));
}

#[test]
fn generali_reads_headings_and_counts_them() {
    let page = "<h3 class=\"h3-list-job-title\"><a href=\"https://cariere.generali.ro/job/1\">Agent</a></h3><h3 class=\"h3-list-job-title\"><a href=\"/2\">Broker</a></h3>";
    let jobs = generali::parse_jobs(page, "Generali", "Romania").unwrap();
    assert_eq!(jobs.len(), 2);
    assert_eq!(jobs[0].job_title, "Agent");
    assert_eq!(jobs[0].job_link, "https://cariere.generali.ro/job/1");
    assert_eq!(jobs[0].city, "Romania");
    assert_eq!(generali::parse_job_count(page), Ok(2));
    let nested = "<div class=\"h3-list-job-title\"><h3 class=\"h3-list-job-title\">a</h3></div><h3 class=\"h3-list-job-title\">b</h3>";
    assert_eq!(generali::parse_job_count(nested), Ok(3));
    assert_eq!(generali::parse_job_count("<p></p>"), Err(ScrapeError::MissingElement));
    let no_anchor = "<h3 class=\"h3-list-job-title\">x</h3>";
    assert_eq!(generali::parse_jobs(no_anchor, "G", "R"), Err(ScrapeError::MissingElement));
}

#[test]
fn regex_and_selector_results_reach_the_readers() {
    // A script whose count statement does not match leaves the count at 0;
    // one that matches gives its number.
    assert_eq!(allianz::parse_job_count("<script>jobRecordsFound: 12</script>"), Ok(0));
    assert_eq!(allianz::parse_job_count("<script>jobRecordsFound:   parseInt(\"8\")</script>"), Ok(8));
    // Text, first text node, inner HTML and attributes are those of the element.
    let page = "<div class=\"col-sm-12 col-md-6\"><div class=\"card-header\"><b>Ana</b> lyst</div><a class=\"button button-red\" href=\"/z\">x</a></div>";
    let jobs = brd::parse_jobs(page, "BRD", "Romania").unwrap();
    assert_eq!(jobs[0].job_title, "Ana lyst");
    assert_eq!(jobs[0].id, JobId::Number(hash_text(0, "/z")));
    assert_ne!(hash_text(0, "/z"), hash_text(0, "/y"));
}

#[test]
fn autonom_and_draexlmaier_refuse_a_city_with_too_many_brackets() {
    let many = "(".repeat(33);
    let enough = "(".repeat(32);
    let autonom_page = |place: &str| {
        format!("<a class=\"box-listing-job\" href=\"/x\"><span class=\"nume-listing-job\">A</span><span class=\"locatie-job\">{}cluj</span></a>", place)
    };
    assert_eq!(autonom::parse_jobs(&autonom_page(&many), "A", "R"), Err(ScrapeError::TooManyBrackets));
    assert_eq!(autonom::parse_jobs(&autonom_page(&enough), "A", "R").unwrap().len(), 1);
    let draexlmaier_page = |place: &str| {
        format!("<table><tr class=\"data-row\"><td><a class=\"jobTitle-link\" href=\"/j\">E</a></td><td><span class=\"jobLocation\">{}arad, AR</span></td></tr></table>", place)
    };
    assert_eq!(
        draexlmaier::parse_jobs(&draexlmaier_page(&many), "D", "R"),
        Err(ScrapeError::TooManyBrackets)
    );
    assert_eq!(draexlmaier::parse_jobs(&draexlmaier_page(&enough), "D", "R").unwrap().len(), 1);
}
