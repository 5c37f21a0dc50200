use based_scrapper::allianz::remove_duplicates;
use based_scrapper::job::{Job, JobId};

fn job(id: &str, link: &str) -> Job {
    Job {
        id: JobId::Text(id.to_string()),
        job_title: format!("title {}", id),
        job_link: link.to_string(),
        company: "Allianz".to_string(),
        country: "Romania".to_string(),
        city: "Romania".to_string(),
    }
}

fn ids(jobs: &[Job]) -> Vec<String> {
    jobs.iter()
        .map(|j| match &j.id {
            JobId::Text(t) => t.clone(),
            JobId::Number(n) => n.to_string(),
        })
        .collect()
}

#[test]
fn remove_duplicates_keeps_the_first_posting_per_link() {
    let jobs = vec![job("1", "/a"), job("2", "/b"), job("3", "/a"), job("4", "/c"), job("5", "/b")];
    let out = remove_duplicates(jobs);
    assert_eq!(ids(&out), vec!["1", "2", "4"]);
}

#[test]
fn remove_duplicates_twice_is_once() {
    let once = remove_duplicates(vec![job("1", "/a"), job("2", "/a"), job("3", "/b")]);
    let again = remove_duplicates(vec![job("1", "/a"), job("3", "/b")]);
    assert_eq!(ids(&once), ids(&again));
    assert_eq!(ids(&remove_duplicates(once)), ids(&again));
}

#[test]
fn remove_duplicates_leaves_distinct_links_alone() {
    let out = remove_duplicates(vec![job("1", "/a"), job("2", "/b"), job("3", "/c")]);
    assert_eq!(ids(&out), vec!["1", "2", "3"]);
    assert!(remove_duplicates(vec![]).is_empty());
}

#[test]
fn remove_duplicates_of_two_lists_is_the_first_then_the_new_links_of_the_second() {
    let a = || vec![job("1", "/a"), job("2", "/b"), job("3", "/a")];
    let b = || vec![job("4", "/c"), job("5", "/b"), job("6", "/c"), job("7", "/d")];
    let mut both = a();
    both.extend(b());
    let whole = remove_duplicates(both);
    let a_links: Vec<String> = a().iter().map(|j| j.job_link.clone()).collect();
    let mut parts = remove_duplicates(a());
    parts.extend(remove_duplicates(b()).into_iter().filter(|j| !a_links.contains(&j.job_link)));
    assert_eq!(ids(&whole), vec!["1", "2", "4", "7"]);
    assert_eq!(whole, parts);
}
