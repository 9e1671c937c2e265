use chrono::{DateTime, Utc};
use pps::extract::SNIPPET_SELECTOR;
use pps::model::{Package, PpsError, Timestamp};
use pps::search::collect_pages;

const GITLAB3: &str = r#"
            <a class="package-snippet" href="/project/gitlab3/">
            <h3 class="package-snippet__title">
              <span class="package-snippet__name">gitlab3</span>
              <span class="package-snippet__version">0.5.8</span>
              <span class="package-snippet__released"><time datetime="2017-03-18T19:38:52+0000" data-controller="localized-time" data-localized-time-relative="true" data-localized-time-show-time="false" title="2017-03-18 20:38:52" aria-label="2017-03-18 20:38:52">Mar 18, 2017</time></span>
            </h3>
            <p class="package-snippet__description">GitLab API v3 Python Wrapper.</p>
          </a>"#;

fn snippet(name: &str, version: &str, datetime: &str) -> String {
    format!(
        "<a class=\"package-snippet\" href=\"/project/{0}/\"><h3><span class=\"package-snippet__name\">{0}</span><span class=\"package-snippet__version\">{1}</span><span class=\"package-snippet__released\"><time datetime=\"{2}\">x</time></span></h3><p class=\"package-snippet__description\">about {0}</p></a>",
        name, version, datetime
    )
}

fn page(snippets: &[String]) -> String {
    format!("<html><body><ul>{}</ul></body></html>", snippets.concat())
}

fn names(packages: &[Package]) -> Vec<String> {
    packages.iter().map(|p| p.name.clone()).collect()
}

#[test]
fn parse_package_data_test() {
    let package = Package::from_fragment(GITLAB3).unwrap();

    assert_eq!(package.name, "gitlab3");
    assert_eq!(package.version, "0.5.8");
    let t = "2017-03-18T19:38:52+0000".parse::<DateTime<Utc>>().unwrap();
    assert_eq!(package.release, Timestamp { secs: t.timestamp(), nanos: t.timestamp_subsec_nanos() });
    assert_eq!(package.description, "GitLab API v3 Python Wrapper.");
}

#[test]
fn release_is_the_utc_instant() {
    let package = Package::from_fragment(GITLAB3).unwrap();
    assert_eq!(package.release, Timestamp { secs: 1489865932, nanos: 0 });
    assert_eq!(package.installed, None);
    assert_eq!(package.downloads, None);
}

#[test]
fn release_offset_is_converted_to_utc() {
    let text = snippet("a", "1", "2017-03-18T21:38:52+02:00");
    let package = Package::from_fragment(&text).unwrap();
    assert_eq!(package.release, Timestamp { secs: 1489865932, nanos: 0 });
}

#[test]
fn missing_description_is_empty() {
    let text = r#"<a class="package-snippet"><span class="package-snippet__name">x</span><span class="package-snippet__released"><time datetime="2020-01-01T00:00:00+00:00">Jan</time></span></a>"#;
    let package = Package::from_fragment(text).unwrap();
    assert_eq!(package.name, "x");
    assert_eq!(package.description, "");
    assert_eq!(package.version, "");
}

#[test]
fn missing_time_element_fails() {
    let text = r#"<a class="package-snippet"><span class="package-snippet__name">x</span><span class="package-snippet__released">Jan 1, 2020</span></a>"#;
    assert_eq!(Package::from_fragment(text).unwrap_err(), PpsError::Extraction);
}

#[test]
fn missing_release_element_fails() {
    let text = r#"<a class="package-snippet"><span class="package-snippet__name">x</span></a>"#;
    assert_eq!(Package::from_fragment(text).unwrap_err(), PpsError::Extraction);
}

#[test]
fn unparseable_datetime_fails() {
    let text = snippet("x", "1", "yesterday");
    assert_eq!(Package::from_fragment(&text).unwrap_err(), PpsError::Extraction);
}

#[test]
fn missing_datetime_attribute_fails() {
    let text = r#"<a class="package-snippet"><span class="package-snippet__released"><time>Jan 1, 2020</time></span></a>"#;
    assert_eq!(Package::from_fragment(text).unwrap_err(), PpsError::Extraction);
}

#[test]
fn pages_are_concatenated_in_page_order() {
    let first = page(&[snippet("a", "1", "2020-01-01T00:00:00Z"), snippet("b", "2", "2021-01-01T00:00:00Z")]);
    let second = page(&[snippet("c", "3", "2019-01-01T00:00:00Z")]);
    let packages = collect_pages(&vec![Ok(first), Ok(second)]).unwrap();
    assert_eq!(names(&packages), vec!["a", "b", "c"]);
    assert_eq!(packages[1].version, "2");
    assert_eq!(packages[2].description, "about c");
}

#[test]
fn page_without_entries_adds_nothing() {
    let first = page(&[]);
    let second = page(&[snippet("c", "3", "2019-01-01T00:00:00Z")]);
    let packages = collect_pages(&vec![Ok(first), Ok(second)]).unwrap();
    assert_eq!(names(&packages), vec!["c"]);
    assert_eq!(collect_pages(&vec![]).unwrap().len(), 0);
}

#[test]
fn transport_failure_fails_the_search() {
    let first = page(&[snippet("a", "1", "2020-01-01T00:00:00Z")]);
    let result = collect_pages(&vec![Ok(first), Err("timed out".to_string())]);
    assert_eq!(result.unwrap_err(), PpsError::Transport("timed out".to_string()));
}

#[test]
fn bad_entry_fails_the_search() {
    let first = page(&[snippet("a", "1", "2020-01-01T00:00:00Z"), snippet("b", "2", "soon")]);
    let result = collect_pages(&vec![Ok(first), Err("later".to_string())]);
    assert_eq!(result.unwrap_err(), PpsError::Extraction);
}

#[test]
fn entry_selector_is_the_snippet_anchor() {
    assert_eq!(SNIPPET_SELECTOR, "a.package-snippet");
}

fn texts(items: &[&str]) -> Vec<String> {
    items.iter().map(|s| s.to_string()).collect()
}

#[test]
fn parts_take_the_first_of_each_field() {
    let p = Package::from_parts(
        &texts(&["gitlab3", "other"]),
        &texts(&["0.5.8"]),
        &texts(&["GitLab API v3 Python Wrapper."]),
        &Some("2017-03-18T19:38:52+0000".to_string()),
    )
    .unwrap();
    assert_eq!(p.name, "gitlab3");
    assert_eq!(p.version, "0.5.8");
    assert_eq!(p.description, "GitLab API v3 Python Wrapper.");
    assert_eq!(p.release, Timestamp { secs: 1489865932, nanos: 0 });
    assert_eq!(p.installed, None);
    assert_eq!(p.downloads, None);
}

#[test]
fn parts_without_fields_give_empty_texts() {
    let p = Package::from_parts(&vec![], &vec![], &vec![], &Some("2020-01-01T00:00:00.5Z".to_string())).unwrap();
    assert_eq!(p.name, "");
    assert_eq!(p.version, "");
    assert_eq!(p.description, "");
    assert_eq!(p.release, Timestamp { secs: 1577836800, nanos: 500_000_000 });
}

#[test]
fn parts_without_readable_release_fail() {
    let names = texts(&["x"]);
    assert_eq!(Package::from_parts(&names, &names, &names, &None).unwrap_err(), PpsError::Extraction);
    let bad = Some("March 2020".to_string());
    assert_eq!(Package::from_parts(&names, &names, &names, &bad).unwrap_err(), PpsError::Extraction);
}

#[test]
fn arrivals_are_put_back_in_page_order() {
    let a = page(&[snippet("a", "1", "2020-01-01T00:00:00Z"), snippet("b", "2", "2021-01-01T00:00:00Z")]);
    let c = page(&[snippet("c", "3", "2019-01-01T00:00:00Z")]);
    let late_first = vec![(1, Ok(c.clone())), (0, Ok(a.clone()))];
    let bodies = pps::search::pages_in_order(late_first, 2).unwrap();
    assert_eq!(bodies, vec![Ok(a.clone()), Ok(c.clone())]);
    assert_eq!(names(&collect_pages(&bodies).unwrap()), vec!["a", "b", "c"]);
    let in_order = pps::search::pages_in_order(vec![(0, Ok(a)), (1, Ok(c))], 2).unwrap();
    assert_eq!(in_order, bodies);
}

#[test]
fn arrivals_must_cover_each_page_once() {
    let x: Result<String, String> = Ok("x".to_string());
    assert_eq!(pps::search::pages_in_order(vec![(0, x.clone()), (0, x.clone())], 2), None);
    assert_eq!(pps::search::pages_in_order(vec![(0, x.clone()), (2, x.clone())], 2), None);
    assert_eq!(pps::search::pages_in_order(vec![(0, x.clone())], 2), None);
    assert_eq!(pps::search::pages_in_order(vec![], 0), Some(vec![]));
}

fn entry(name: &str, version: &str, description: &str, datetime: Option<&str>) -> pps::search::EntryFields {
    pps::search::EntryFields {
        names: texts(&[name]),
        versions: texts(&[version]),
        descriptions: texts(&[description]),
        datetime: datetime.map(|d| d.to_string()),
    }
}

#[test]
fn packages_of_pages_follow_page_and_entry_order() {
    let first = vec![
        entry("a", "1", "about a", Some("2020-01-01T00:00:00Z")),
        entry("b", "2", "about b", Some("2021-01-01T00:00:00Z")),
    ];
    let second = vec![entry("c", "3", "about c", Some("2019-01-01T00:00:00Z"))];
    let packages = pps::search::packages_of_pages(&vec![Ok(first), Ok(second)]).unwrap();
    assert_eq!(names(&packages), vec!["a", "b", "c"]);
    let versions: Vec<&str> = packages.iter().map(|p| p.version.as_str()).collect();
    assert_eq!(versions, vec!["1", "2", "3"]);
    let descriptions: Vec<&str> = packages.iter().map(|p| p.description.as_str()).collect();
    assert_eq!(descriptions, vec!["about a", "about b", "about c"]);
    assert_eq!(packages[2].release, Timestamp { secs: 1546300800, nanos: 0 });
}

#[test]
fn packages_of_pages_stop_at_the_first_failing_page() {
    let good = vec![entry("a", "1", "", Some("2020-01-01T00:00:00Z"))];
    let bad = vec![entry("b", "2", "", None)];
    let result = pps::search::packages_of_pages(&vec![Ok(good.clone()), Err("refused".to_string()), Ok(bad.clone())]);
    assert_eq!(result.unwrap_err(), PpsError::Transport("refused".to_string()));
    let result = pps::search::packages_of_pages(&vec![Ok(good), Ok(bad), Err("refused".to_string())]);
    assert_eq!(result.unwrap_err(), PpsError::Extraction);
    assert_eq!(pps::search::packages_of_pages(&vec![]).unwrap().len(), 0);
}
