use relay_rs::event::Event;
use relay_rs::filter::{copy_filters, matches_any, Filter, TagSelector};
use relay_rs::json::Json;

fn event(id: &str, pubkey: &str, kind: u64, at: u64, tags: Vec<Vec<&str>>) -> Event {
    Event {
        id: id.to_string(),
        pubkey: pubkey.to_string(),
        created_at: at,
        kind,
        tags: tags.into_iter().map(|t| t.into_iter().map(|s| s.to_string()).collect()).collect(),
        content: String::new(),
        sig: String::new(),
    }
}

fn strings(v: &[&str]) -> Vec<String> {
    v.iter().map(|s| s.to_string()).collect()
}

fn parse(text: &str) -> Json {
    Json::parse(text).expect("the text is JSON")
}

#[test]
fn the_open_filter_matches_everything() {
    let f = Filter::new();
    assert!(f.matches(&event("aa", "bb", 1, 5, vec![])));
    assert!(f.matches(&event("", "", 0, 0, vec![vec!["e", "x"]])));
    assert_eq!(f.limit, None);
}

#[test]
fn ids_and_authors_match_by_prefix() {
    let e = event("abcdef", "123456", 1, 5, vec![]);
    let mut f = Filter::new();
    f.ids = strings(&["abc"]);
    assert!(f.matches(&e));
    f.ids = strings(&["abcdef"]);
    assert!(f.matches(&e));
    f.ids = strings(&["abd", "zz"]);
    assert!(!f.matches(&e));
    f.ids = strings(&["zz", "ab"]);
    assert!(f.matches(&e));
    f.ids = strings(&["abcdefa"]);
    assert!(!f.matches(&e));
    let mut g = Filter::new();
    g.authors = strings(&["12"]);
    assert!(g.matches(&e));
    g.authors = strings(&["23"]);
    assert!(!g.matches(&e));
}

#[test]
fn kinds_and_times_bound_the_match() {
    let e = event("a", "b", 7, 100, vec![]);
    let mut f = Filter::new();
    f.kinds = vec![1, 7];
    assert!(f.matches(&e));
    f.kinds = vec![1];
    assert!(!f.matches(&e));
    let mut g = Filter::new();
    g.since = Some(100);
    g.until = Some(100);
    assert!(g.matches(&e));
    g.since = Some(101);
    assert!(!g.matches(&e));
    g.since = None;
    g.until = Some(99);
    assert!(!g.matches(&e));
}

#[test]
fn every_dimension_must_match() {
    let e = event("abc", "def", 7, 100, vec![vec!["t", "x"]]);
    let mut f = Filter::new();
    f.ids = strings(&["a"]);
    f.authors = strings(&["d"]);
    f.kinds = vec![7];
    f.since = Some(1);
    f.until = Some(200);
    f.tags = vec![TagSelector { name: "t".to_string(), values: strings(&["x"]) }];
    assert!(f.matches(&e));
    let mut g = f.clone();
    g.authors = strings(&["e"]);
    assert!(!g.matches(&e));
    let mut h = f.clone();
    h.tags = vec![TagSelector { name: "t".to_string(), values: strings(&["y"]) }];
    assert!(!h.matches(&e));
}

#[test]
fn a_tag_selector_wants_a_tag_of_its_name_with_one_of_its_values() {
    let e = event("a", "b", 1, 1, vec![vec!["e", "x"], vec!["p", "y"], vec!["t"]]);
    let sel = |name: &str, values: &[&str]| TagSelector { name: name.to_string(), values: strings(values) };
    assert!(sel("e", &["x"]).met_by(&e));
    assert!(sel("e", &["w", "x"]).met_by(&e));
    assert!(!sel("e", &["y"]).met_by(&e));
    assert!(!sel("e", &[]).met_by(&e));
    assert!(!sel("t", &[""]).met_by(&e));
    assert!(!sel("q", &["x"]).met_by(&e));
    let mut f = Filter::new();
    f.tags = vec![sel("e", &["x"]), sel("p", &["y"])];
    assert!(f.matches(&e));
    f.tags = vec![sel("e", &["x"]), sel("p", &["z"])];
    assert!(!f.matches(&e));
}

#[test]
fn any_filter_may_match() {
    let e = event("a", "b", 7, 100, vec![]);
    let mut f1 = Filter::new();
    f1.kinds = vec![1];
    let mut f2 = Filter::new();
    f2.kinds = vec![7];
    assert!(matches_any(&vec![f1.clone(), f2.clone()], &e));
    assert!(matches_any(&vec![f2.clone(), f1.clone()], &e));
    assert!(!matches_any(&vec![f1.clone()], &e));
    assert!(!matches_any(&vec![], &e));
    assert_eq!(copy_filters(&vec![f1.clone(), f2.clone()]), vec![f1, f2]);
}

#[test]
fn a_filter_is_read_from_json_with_tolerance() {
    let j = parse(r##"{"ids":["ab",5,"cd"],"authors":["f8"],"kinds":[1,"x",-2,30000,1.5],"since":10,"until":20,"limit":7,"#e":["x","y"],"#p":[],"#ee":["z"],"e":["q"],"#1":["n"],"search":"s"}"##);
    let f = Filter::from_json(&j);
    assert_eq!(f.ids, strings(&["ab", "cd"]));
    assert_eq!(f.authors, strings(&["f8"]));
    assert_eq!(f.kinds, vec![1, 30000]);
    assert_eq!(f.since, Some(10));
    assert_eq!(f.until, Some(20));
    assert_eq!(f.limit, Some(7));
    assert_eq!(
        f.tags,
        vec![
            TagSelector { name: "e".to_string(), values: strings(&["x", "y"]) },
            TagSelector { name: "p".to_string(), values: vec![] },
        ]
    );
}

#[test]
fn what_is_no_filter_object_reads_as_the_open_filter() {
    assert_eq!(Filter::from_json(&Json::Null), Filter::new());
    assert_eq!(Filter::from_json(&Json::Array(vec![])), Filter::new());
    assert_eq!(Filter::from_json(&parse(r#"{"ids":"ab","kinds":7,"since":"x","limit":-1}"#)), Filter::new());
    assert_eq!(Filter::from_json(&parse("{}")), Filter::new());
}
