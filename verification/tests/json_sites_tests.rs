use based_scrapper::job::{JobId, ScrapeError};
use based_scrapper::json::{Json, JsonNumber};
use based_scrapper::kaufland::Location;
use based_scrapper::vodafone::Position;
use based_scrapper::{
    auchan, decathlon, fedex, hm, kaufland, linde, medicover, samsung, template_post, vodafone,
    zentiva,
};

fn s(t: &str) -> Json {
    Json::Str(t.to_string())
}

fn n(v: u64) -> Json {
    Json::Number(JsonNumber::PosInt(v))
}

fn obj(members: Vec<(&str, Json)>) -> Json {
    Json::Object(members.into_iter().map(|(k, v)| (k.to_string(), v)).collect())
}

fn workable(code: &str, city: &str) -> Json {
    obj(vec![
        ("city", s(city)),
        ("shortcode", s(code)),
        ("title", s("Vanzator")),
        ("url", s("https://apply.workable.com/j/1")),
    ])
}

#[test]
fn decathlon_reads_the_feed_and_writes_bucharest_the_romanian_way() {
    let data = obj(vec![("jobs", Json::Array(vec![workable("A1", "Bucharest"), workable("B2", "Brașov")]))]);
    let jobs = decathlon::jobs_from_feed(&data).unwrap();
    assert_eq!(jobs.len(), 2);
    assert_eq!(jobs[0].id, JobId::Text("A1".to_string()));
    assert_eq!(jobs[0].job_title, "Vanzator");
    assert_eq!(jobs[0].job_link, "https://apply.workable.com/j/1");
    assert_eq!(jobs[0].company, "Decathlon");
    assert_eq!(jobs[0].country, "Romania");
    assert_eq!(jobs[0].city, "Bucuresti");
    assert_eq!(jobs[1].city, "Brasov");
    assert!(jobs.iter().all(|j| j.city.is_ascii()));
}

#[test]
fn decathlon_missing_members_are_errors() {
    assert_eq!(decathlon::jobs_from_feed(&obj(vec![])), Err(ScrapeError::MissingField));
    let bad = obj(vec![("jobs", Json::Array(vec![obj(vec![("title", s("x"))])]))]);
    assert_eq!(decathlon::jobs_from_feed(&bad), Err(ScrapeError::MissingField));
}

#[test]
fn template_reads_a_workable_feed_for_any_company() {
    let data = obj(vec![("jobs", Json::Array(vec![workable("C3", "Iasi")]))]);
    let jobs = template_post::jobs_from_feed(&data, "Acme", "Romania").unwrap();
    assert_eq!(jobs[0].company, "Acme");
    assert_eq!(jobs[0].city, "Iasi");
}

#[test]
fn hm_reads_pages_count_and_page_numbers() {
    let entry = obj(vec![
        ("apply_on_web_url", s("https://hm/1")),
        ("city", s("Bucharest")),
        ("ref_number", s("R9")),
        ("title", s("Sales Advisor")),
    ]);
    let data = obj(vec![("jobs", Json::Array(vec![entry])), ("total", n(10))]);
    let jobs = hm::jobs_from_feed(&data, "HM", "Romania").unwrap();
    assert_eq!(jobs[0].id, JobId::Text("R9".to_string()));
    assert_eq!(jobs[0].job_link, "https://hm/1");
    assert_eq!(jobs[0].city, "Bucuresti");
    assert_eq!(hm::count_from_feed(&data), Ok(10));
    assert_eq!(hm::count_from_feed(&obj(vec![("total", s("10"))])), Err(ScrapeError::MissingField));
    assert_eq!(hm::pages(10), vec![1, 2]);
    assert_eq!(hm::pages(9), vec![1]);
    assert!(hm::pages(0).is_empty());
}

#[test]
fn fedex_reads_entries_under_data_and_numbers_pages() {
    let entry = obj(vec![(
        "data",
        obj(vec![
            ("apply_url", s("https://fedex/apply/7")),
            ("city", s("Cluj-Napoca")),
            ("slug", s("7")),
            ("title", s("Courier")),
        ]),
    )]);
    let data = obj(vec![("jobs", Json::Array(vec![entry])), ("totalCount", n(250))]);
    let jobs = fedex::jobs_from_feed(&data, "Fedex", "Romania").unwrap();
    assert_eq!(jobs[0].id, JobId::Text("7".to_string()));
    assert_eq!(jobs[0].city, "Cluj-Napoca");
    assert_eq!(fedex::count_from_feed(&data), Ok(250));
    let urls = fedex::page_urls(250);
    assert_eq!(urls.len(), 3);
    assert_eq!(urls[0], format!("{}1{}", fedex::PAGE_URL_PREFIX, fedex::PAGE_URL_SUFFIX));
    assert_eq!(urls[2], format!("{}3{}", fedex::PAGE_URL_PREFIX, fedex::PAGE_URL_SUFFIX));
    let flat = obj(vec![("jobs", Json::Array(vec![workable("x", "y")]))]);
    assert_eq!(fedex::jobs_from_feed(&flat, "F", "R"), Err(ScrapeError::MissingField));
}

#[test]
fn auchan_finds_the_configuration_and_reads_its_positions() {
    let page = "<html><head><script>var other = 1;</script><script>var vmCfg = {\"PositionList\":[]};</script></head></html>";
    assert_eq!(auchan::find_config(page), Ok("{\"PositionList\":[]}".to_string()));
    assert_eq!(auchan::find_config("<script>var x;</script>"), Ok(String::new()));
    let pos = obj(vec![
        ("CityList", s("bucuresti")),
        ("PositionId", n(123)),
        ("PositionName", s("Casier")),
    ]);
    let cfg = obj(vec![("PositionList", Json::Array(vec![pos, obj(vec![])]))]);
    let jobs = auchan::jobs_from_config(&cfg, "Auchan", "Romania").unwrap();
    assert_eq!(jobs.len(), 2);
    assert_eq!(jobs[0].id, JobId::Text("123".to_string()));
    assert_eq!(jobs[0].job_title, "Casier");
    assert_eq!(jobs[0].job_link, "https://cariere.auchan.ro/Position/Details?id=123");
    assert_eq!(jobs[0].city, "Bucuresti");
    assert_eq!(jobs[1].id, JobId::Text("null".to_string()));
    assert_eq!(jobs[1].job_title, "null");
    assert_eq!(auchan::jobs_from_config(&obj(vec![]), "A", "R"), Err(ScrapeError::MissingField));
}

#[test]
fn auchan_title_with_quotes_keeps_the_escapes_of_its_json_text() {
    let pos = obj(vec![("PositionId", s("7")), ("PositionName", s("Casier \"senior\""))]);
    let cfg = obj(vec![("PositionList", Json::Array(vec![pos]))]);
    let jobs = auchan::jobs_from_config(&cfg, "Auchan", "Romania").unwrap();
    assert_eq!(jobs[0].job_title, "Casier \\senior\\");
    assert_eq!(jobs[0].id, JobId::Text("\"7\"".to_string()));
    assert_eq!(jobs[0].job_link, "https://cariere.auchan.ro/Position/Details?id=\"7\"");
}

#[test]
fn kaufland_location_url_puts_in_the_location_coordinates() {
    let a = Location { latitude: "44.4".to_string(), longitude: "26.1".to_string(), total: 3 };
    let b = Location { latitude: "46.7".to_string(), longitude: "23.6".to_string(), total: 1 };
    assert_eq!(
        kaufland::location_url(&a),
        "https://rmk-map-12.jobs2web.com/services/jobmap/jobs?siteid=Gi8p27qFoBvZm%2FcnHxoZEQ%3D%3D&mapType=GOOGLE_MAP&jobTitle=&coordinates=44.4,26.1&locale=ro_RO&brand=Romania&limittobrand=false"
    );
    assert_eq!(
        kaufland::location_url(&b),
        kaufland::BASE_URL.replace(kaufland::COORDINATES_PART, "coordinates=46.7,23.6")
    );
    assert_ne!(kaufland::location_url(&a), kaufland::location_url(&b));
    assert!(kaufland::BASE_URL.contains(kaufland::COORDINATES_PART));
}

#[test]
fn kaufland_reads_jobs_with_the_json_text_of_siteid() {
    let job = |id: Json| {
        obj(vec![("city", s("Bucharest")), ("siteid", id), ("title", s("Casier")), ("url", s("https://k/1"))])
    };
    let data = Json::Array(vec![job(s("abc")), job(n(5))]);
    let jobs = kaufland::jobs_from_answer(&data, "Kaufland", "Romania").unwrap();
    assert_eq!(jobs[0].id, JobId::Text("\"abc\"".to_string()));
    assert_eq!(jobs[1].id, JobId::Text("5".to_string()));
    assert_eq!(jobs[0].city, "Bucuresti");
    assert_eq!(kaufland::jobs_from_answer(&obj(vec![]), "K", "R"), Err(ScrapeError::MissingField));
}

#[test]
fn linde_reads_token_count_and_romanian_locations() {
    assert_eq!(linde::token_from_page("x \"token\":\"abc.def\",\"y\":1"), Ok("abc.def".to_string()));
    assert_eq!(linde::token_from_page("no token here"), Ok(String::new()));
    let loc = |c: &str, city: Option<&str>| {
        let mut m = vec![("country", s(c))];
        if let Some(city) = city {
            m.insert(0, ("city", s(city)));
        }
        obj(m)
    };
    let req = obj(vec![
        ("displayJobTitle", s("Operator")),
        ("locations", Json::Array(vec![loc("RO", Some("Bucharest")), loc("DE", Some("Berlin")), loc("RO", None), loc("RO", Some("Iași"))])),
        ("requisitionId", n(4411)),
    ]);
    let data = obj(vec![("data", obj(vec![("requisitions", Json::Array(vec![req])), ("totalCount", n(41))]))]);
    let jobs = linde::jobs_from_feed(&data, "Linde", "Romania").unwrap();
    assert_eq!(jobs.len(), 2);
    assert_eq!(jobs[0].id, JobId::Text("4411".to_string()));
    assert_eq!(jobs[0].job_link, "https://linde.csod.com/ux/ats/careersite/20/home/requisition/4411");
    assert_eq!(jobs[0].city, "Bucuresti");
    assert_eq!(jobs[1].city, "Iasi");
    assert_eq!(linde::count_from_feed(&data), Ok(41));
    assert_eq!(linde::pages(41), vec![1, 2, 3]);
    let bad = obj(vec![("data", obj(vec![("requisitions", Json::Array(vec![obj(vec![])]))]))]);
    assert_eq!(linde::jobs_from_feed(&bad, "L", "R"), Err(ScrapeError::MissingField));
}

#[test]
fn medicover_reads_results_with_a_default_city() {
    let r1 = obj(vec![
        ("id", Json::Number(JsonNumber::NegInt(-5))),
        ("jobTitle", s("Medic")),
        ("locations", Json::Array(vec![obj(vec![("name", s("Bucharest"))])])),
        ("publicUid", s("u1")),
    ]);
    let r2 = obj(vec![("id", n(6)), ("jobTitle", s("Asistent")), ("publicUid", s("u2"))]);
    let data = obj(vec![("data", obj(vec![("results", Json::Array(vec![r1, r2]))]))]);
    let jobs = medicover::jobs_from_feed(&data, "Medicover", "Romania").unwrap();
    assert_eq!(jobs[0].id, JobId::Text("-5".to_string()));
    assert_eq!(jobs[0].job_link, "https://medicover.mingle.ro/en/apply/u1");
    assert_eq!(jobs[0].city, "Bucuresti");
    assert_eq!(jobs[1].city, "Romania");
    assert_eq!(medicover::count_from_feed(&data), Ok(2));
    assert_eq!(medicover::count_from_feed(&obj(vec![])), Err(ScrapeError::MissingField));
}

#[test]
fn samsung_reads_postings_and_decides_the_next_offset() {
    let post = |loc: &str| {
        obj(vec![
            ("bulletFields", Json::Array(vec![s("R100")])),
            ("externalPath", s("/job/1")),
            ("locationsText", s(loc)),
            ("title", s("Engineer")),
        ])
    };
    let data = obj(vec![("jobPostings", Json::Array(vec![post("Romania, Bucharest Office, RO")])), ("total", n(25))]);
    let jobs = samsung::jobs_from_page(&data, "Samsung", "Romania").unwrap();
    assert_eq!(jobs[0].id, JobId::Text("R100".to_string()));
    assert_eq!(jobs[0].job_link, "/job/1");
    assert_eq!(jobs[0].city, "Bucuresti");
    let lone = obj(vec![("jobPostings", Json::Array(vec![post("Romania")]))]);
    assert_eq!(samsung::jobs_from_page(&lone, "S", "R"), Err(ScrapeError::MissingPart));
    assert_eq!(samsung::total_from_page(&data), Ok(25));
    assert_eq!(samsung::count_from_page(&data), Ok(25));
    assert_eq!(samsung::next_offset(0, 10, 25), Some(10));
    assert_eq!(samsung::next_offset(10, 10, 25), Some(20));
    assert_eq!(samsung::next_offset(20, 10, 25), None);
    assert_eq!(samsung::next_offset(0, 10, 0), None);
}

#[test]
fn vodafone_builds_postings_and_batches() {
    let p = Position { id: 42, name: "Engineer".to_string(), location: "Bucharest, Romania".to_string() };
    let job = vodafone::job_from_position(&p);
    assert_eq!(job.id, JobId::Number(42));
    assert_eq!(job.job_link, "https://jobs.vodafone.com/careers?pid=42");
    assert_eq!(job.city, "Bucharest");
    assert_eq!(job.company, "Vodafone");
    assert_eq!(
        vodafone::first_batch_url(),
        "https://jobs.vodafone.com/api/apply/v2/jobs?domain=vodafone.com&location=Romania&start=0&num=10"
    );
    let urls = vodafone::batch_urls(25);
    assert_eq!(urls.len(), 3);
    assert_eq!(
        urls[2],
        "https://jobs.vodafone.com/api/apply/v2/jobs?domain=vodafone.com&location=Romania&start=20&num=10"
    );
}

#[test]
fn zentiva_reads_postings_and_asks_for_each_page_of_twenty() {
    let post = obj(vec![
        ("bulletFields", Json::Array(vec![Json::Array(vec![s("Z1")])])),
        ("externalPath", s("/job/x")),
        ("title", s("Chemist")),
    ]);
    let data = obj(vec![("jobPostings", Json::Array(vec![post])), ("total", n(40))]);
    let jobs = zentiva::jobs_from_feed(&data, "Zentiva", "Romania").unwrap();
    assert_eq!(jobs[0].id, JobId::Text("Z1".to_string()));
    assert_eq!(jobs[0].job_link, "https://zentiva.wd3.myworkdayjobs.com/en-US/Zentiva/job/x?locations=ca7924da36fa0149be9376945a35dd27");
    assert_eq!(jobs[0].city, "Romania");
    assert_eq!(zentiva::count_from_feed(&data), Ok(40));
    assert_eq!(zentiva::page_offsets(40), vec![0, 20]);
    assert_eq!(zentiva::page_offsets(41), vec![0, 20, 40]);
    assert_eq!(zentiva::page_offsets(1), vec![0]);
    assert!(zentiva::page_offsets(0).is_empty());
}

#[test]
fn auchan_refuses_a_city_with_too_many_brackets() {
    let pos = |city: String| obj(vec![("CityList", Json::Str(city)), ("PositionId", n(1)), ("PositionName", s("Casier"))]);
    let cfg = obj(vec![("PositionList", Json::Array(vec![pos("arad".to_string()), pos(format!("{}arad", "(".repeat(33)))]))]);
    assert_eq!(auchan::jobs_from_config(&cfg, "Auchan", "Romania"), Err(ScrapeError::TooManyBrackets));
    let cfg = obj(vec![("PositionList", Json::Array(vec![pos(format!("{}arad", "(".repeat(32)))]))]);
    assert_eq!(auchan::jobs_from_config(&cfg, "Auchan", "Romania").unwrap().len(), 1);
}
