//! Runs over packages and their dependencies.
use wheelfs::materialize::{Action, Event, Materializer};
use wheelfs::package::PkgInfo;
use wheelfs::sorted_map::SortedMap;

fn names(list: &[&str]) -> Vec<String> {
    list.iter().map(|n| n.to_string()).collect()
}

fn info(deps: &[(&str, &str)]) -> PkgInfo {
    let mut map = SortedMap::new();
    for (name, version) in deps {
        map.insert(name.chars().collect(), version.to_string());
    }
    PkgInfo { name: String::new(), version: String::new(), deps: map }
}

fn say(run: &Materializer) -> String {
    match run.action() {
        Action::Locate(name) => format!("locate {name}"),
        Action::Fetch(name) => format!("fetch {name}"),
        Action::LocateAgain(name) => format!("again {name}"),
        Action::Convert(name) => format!("convert {name}"),
        Action::Finish => "finish".to_string(),
    }
}

fn made(run: Materializer, wheel: &str, deps: &[(&str, &str)]) -> Materializer {
    run.handle(Event::Found).handle(Event::Converted(wheel.to_string(), info(deps)))
}

#[test]
fn nothing_asked_for_is_no_run() {
    assert!(Materializer::new(&Vec::new(), "3.12", false).is_none());
}

#[test]
fn takes_up_what_is_asked_for() {
    let run = Materializer::new(&names(&["NumPy", "py311-six"]), "3.12", false).unwrap();
    assert_eq!(say(&run), "locate py312-numpy");
    let run = made(run, "n.whl", &[]);
    assert_eq!(say(&run), "locate py311-six");
    let run = made(run, "s.whl", &[]);
    assert_eq!(say(&run), "finish");
    assert_eq!(run.failures(), 0);
    assert_eq!(run.report("out", &Vec::new()), ["", "materialized 2 wheel(s) into out"]);
}

#[test]
fn follows_python_dependencies_once() {
    let run = Materializer::begin(names(&["py312-a", "py312-a"]), "py312", true);
    let run = made(
        run,
        "a.whl",
        &[("py312-c", "1"), ("py312-b", "1"), ("python312", "3.12"), ("py312-a", "1"), ("py311-x", "0")],
    );
    assert_eq!(say(&run), "locate py312-b");
    let run = made(run, "b.whl", &[("py312-c", "2")]);
    assert_eq!(say(&run), "locate py312-c");
    let run = made(run, "c.whl", &[]);
    assert_eq!(say(&run), "finish");
    assert_eq!(run.native_deps(), ["py311-x"]);
}

#[test]
fn fetches_what_is_not_there() {
    let run = Materializer::begin(names(&["py312-a"]), "py312", false);
    let run = run.handle(Event::NotFound);
    assert_eq!(say(&run), "fetch py312-a");
    let run = run.handle(Event::Fetched);
    assert_eq!(say(&run), "again py312-a");
    let found = run.handle(Event::Found);
    assert_eq!(say(&found), "convert py312-a");
}

#[test]
fn a_package_that_stays_away_is_missing() {
    let run = Materializer::begin(names(&["py312-a", "py312-b"]), "py312", false)
        .handle(Event::NotFound)
        .handle(Event::Fetched)
        .handle(Event::NotFound);
    assert_eq!(say(&run), "locate py312-b");
    assert_eq!(run.failures(), 1);
    let run = run.handle(Event::NotFound).handle(Event::Fetched).handle(Event::NotFound);
    assert_eq!(
        run.report("/o", &Vec::new())[1..],
        [
            "materialized 0 wheel(s) into /o",
            "no .pkg found for: py312-a, py312-b",
            "  (fetch with: doas pkg fetch -y py312-a py312-b)",
        ]
    );
}

#[test]
fn nothing_is_fetched_where_nothing_is_to_be() {
    let run = Materializer::begin(names(&["py312-a"]), "py312", true).handle(Event::NotFound);
    assert_eq!(say(&run), "finish");
    assert_eq!(run.failures(), 1);
}

#[test]
fn a_failed_conversion_is_reported() {
    let run = Materializer::begin(names(&["py312-a", "py312-b"]), "py312", true)
        .handle(Event::Found)
        .handle(Event::Failed("no wheel".to_string()));
    assert_eq!(say(&run), "locate py312-b");
    let run = run.handle(Event::NotFound);
    assert_eq!(run.failures(), 2);
    assert_eq!(
        run.report("o", &Vec::new())[2..],
        [
            "no .pkg found for: py312-b",
            "  (fetch with: doas pkg fetch -y py312-b)",
            "conversion failed: py312-a: no wheel",
        ]
    );
}

#[test]
fn notes_what_is_needed_beside_the_wheels() {
    let run = Materializer::begin(names(&["py312-a", "py312-b"]), "py312", true);
    let run = made(run, "a.whl", &[("openblas", "0.3"), ("python312", "3.12"), ("gcc13", "13")]);
    let run = made(run, "b.whl", &[("openblas", "0.4")]);
    assert_eq!(run.native_deps(), ["gcc13", "openblas"]);
    assert_eq!(
        run.report("o", &vec![true, false]),
        [
            "",
            "materialized 2 wheel(s) into o",
            "native pkg deps required at runtime (converted wheels link against /usr/local/lib):",
            "  gcc13 13 [installed]",
            "  openblas 0.3 [MISSING — pkg install]",
        ]
    );
}

#[test]
fn an_event_out_of_turn_changes_nothing() {
    let run = Materializer::begin(names(&["py312-a"]), "py312", false).handle(Event::Fetched);
    assert_eq!(say(&run), "locate py312-a");
    let run = run.handle(Event::Failed("x".to_string()));
    assert_eq!(say(&run), "locate py312-a");
    assert_eq!(run.failures(), 0);
    let done = Materializer::begin(Vec::new(), "py312", false).handle(Event::Found);
    assert_eq!(say(&done), "finish");
}

#[test]
fn every_name_is_accounted_for() {
    let run = Materializer::begin(names(&["py312-a", "py312-b", "py312-c"]), "py312", true);
    let run = made(run, "a.whl", &[("py312-d", "1")]).handle(Event::NotFound);
    let run = run.handle(Event::Found).handle(Event::Failed("f".to_string()));
    assert_eq!(say(&run), "locate py312-d");
    let run = made(run, "d.whl", &[]);
    assert_eq!(say(&run), "finish");
    assert_eq!(run.failures(), 2);
    assert_eq!(run.report("o", &Vec::new())[1], "materialized 2 wheel(s) into o");
}
