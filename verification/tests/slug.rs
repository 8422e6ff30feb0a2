use touch_markdown::slug::{heading_slug, EmittedSlugs, SlugCounters};
use touch_markdown::text::confirm_ascii_char_tables;

#[test]
fn github_heading_slugs_are_stable_and_suffix_duplicates() {
    let mut prior = SlugCounters::new();
    let mut emitted = EmittedSlugs::new();
    assert_eq!(
        heading_slug("Customer Overview!", &mut prior, &mut emitted),
        "customer-overview"
    );
    assert_eq!(
        heading_slug("Customer   Overview", &mut prior, &mut emitted),
        "customer-overview-1"
    );
    assert_eq!(
        heading_slug("API: `create()`", &mut prior, &mut emitted),
        "api-create"
    );
}

#[test]
fn heading_slugs_skip_natural_suffix_collisions() {
    let mut prior = SlugCounters::new();
    let mut emitted = EmittedSlugs::new();
    assert_eq!(heading_slug("Foo", &mut prior, &mut emitted), "foo");
    assert_eq!(heading_slug("Foo-1", &mut prior, &mut emitted), "foo-1");
    assert_eq!(heading_slug("Foo", &mut prior, &mut emitted), "foo-2");
}

#[test]
fn slug_drops_punctuation_and_collapses_whitespace() {
    let mut prior = SlugCounters::new();
    let mut emitted = EmittedSlugs::new();
    assert_eq!(heading_slug("  Hello,\tWorld  ", &mut prior, &mut emitted), "hello-world");
    assert_eq!(heading_slug("a - b", &mut prior, &mut emitted), "a--b");
    assert_eq!(heading_slug("snake_case Name", &mut prior, &mut emitted), "snake_case-name");
    assert_eq!(heading_slug("ÄÖÜ Straße", &mut prior, &mut emitted), "äöü-straße");
}

#[test]
fn empty_and_symbol_only_headings_share_the_empty_base() {
    let mut prior = SlugCounters::new();
    let mut emitted = EmittedSlugs::new();
    assert_eq!(heading_slug("", &mut prior, &mut emitted), "");
    assert_eq!(heading_slug("!!!", &mut prior, &mut emitted), "-1");
    assert_eq!(emitted.len(), 2);
}

#[test]
fn counters_advance_past_each_assigned_suffix() {
    let mut prior = SlugCounters::new();
    let mut emitted = EmittedSlugs::new();
    for _ in 0..11 {
        heading_slug("Item", &mut prior, &mut emitted);
    }
    assert_eq!(prior.get(&"item".to_string()), Some(11));
    assert!(emitted.contains(&"item-10".to_string()));
    assert_eq!(heading_slug("Item", &mut prior, &mut emitted), "item-11");
}

#[test]
fn emitted_set_insert_reports_novelty() {
    let mut emitted = EmittedSlugs::new();
    assert!(emitted.insert("a".to_string()));
    assert!(!emitted.insert("a".to_string()));
    assert_eq!(emitted.len(), 1);
}

#[test]
fn counters_set_overwrites() {
    let mut prior = SlugCounters::new();
    assert_eq!(prior.get(&"x".to_string()), None);
    prior.set("x".to_string(), 3);
    prior.set("x".to_string(), 5);
    assert_eq!(prior.get(&"x".to_string()), Some(5));
}

fn fresh_slug(text: &str) -> String {
    heading_slug(text, &mut SlugCounters::new(), &mut EmittedSlugs::new())
}

#[test]
fn ascii_case_does_not_change_a_slug() {
    confirm_ascii_char_tables();
    assert_eq!(fresh_slug("Customer Overview"), fresh_slug("cUSTOMER oVERVIEW"));
    assert_eq!(fresh_slug("Customer Overview"), "customer-overview");
}

#[test]
fn runs_of_ascii_whitespace_become_one_dash() {
    assert_eq!(fresh_slug("Customer \t\n Overview"), fresh_slug("Customer Overview"));
    assert_eq!(fresh_slug("  a   b  "), "a-b");
}

#[test]
fn an_ascii_slug_is_its_own_slug() {
    let once = fresh_slug("API: `create()` -- Step_2!");
    assert_eq!(once, "api-create---step_2");
    assert_eq!(fresh_slug(&once), once);
}
