use file_opening_windows::bridge::{
    launch_result, plan_listing, plan_search, push_decimal, shell_execute_outcome, LaunchOutcome,
    LaunchStep, Plan,
};
use file_opening_windows::handlers::{
    AppSearch, EnumStep, HandlerEvent, HandlerListing, SearchAction,
};
use file_opening_windows::order::{name_precedes, sort_names};
use file_opening_windows::path::association_key;
use file_opening_windows::{OpenResult, OpenWithApp, WindowsFileOpener};

fn key(path: &str) -> Option<String> {
    association_key(path)
}

fn list(names: &[&str]) -> Result<Vec<OpenWithApp>, String> {
    let mut listing = HandlerListing::new();
    for name in names {
        assert!(listing.step(HandlerEvent::Found(name.to_string())).is_none());
    }
    listing.step(HandlerEvent::Exhausted).unwrap()
}

fn app(name: &str) -> OpenWithApp {
    OpenWithApp { id: name.to_string(), name: name.to_string(), icon: None }
}

#[test]
fn key_of_plain_file() {
    assert_eq!(key("C:\\Users\\me\\notes.txt"), Some(".txt".to_string()));
    assert_eq!(key("notes.txt"), Some(".txt".to_string()));
}

#[test]
fn key_takes_last_dot() {
    assert_eq!(key("archive.tar.gz"), Some(".gz".to_string()));
}

#[test]
fn key_ignores_dots_in_directories() {
    assert_eq!(key("C:/work.d/Makefile"), None);
    assert_eq!(key("dir.d\\file"), None);
}

#[test]
fn key_of_hidden_style_names() {
    assert_eq!(key(".gitignore"), None);
    assert_eq!(key("a/.profile.bak"), Some(".bak".to_string()));
}

#[test]
fn key_with_trailing_separators_and_dots() {
    assert_eq!(key("a/b.txt/"), Some(".txt".to_string()));
    assert_eq!(key("a/b.md/."), Some(".md".to_string()));
    assert_eq!(key("a\\b.md\\.\\\\"), Some(".md".to_string()));
}

#[test]
fn key_of_degenerate_paths() {
    assert_eq!(key(""), None);
    assert_eq!(key("."), None);
    assert_eq!(key(".."), None);
    assert_eq!(key("a/.."), None);
    assert_eq!(key("/"), None);
}

#[test]
fn key_of_trailing_dot_is_bare_dot() {
    assert_eq!(key("report."), Some(".".to_string()));
}

#[test]
fn key_keeps_non_ascii() {
    assert_eq!(key("C:\\données\\café.ñü"), Some(".ñü".to_string()));
}

#[test]
fn no_extension_lists_nothing_and_cannot_open_by_name() {
    match plan_listing("C:\\docs\\README") {
        Plan::Answer(apps) => assert!(apps.is_empty()),
        Plan::Enumerate(_) => panic!("no lookup expected"),
    }
    match plan_search("C:\\docs\\README") {
        Plan::Answer(r) => assert_eq!(
            r,
            OpenResult::PlatformError { message: "File has no extension".to_string() }
        ),
        Plan::Enumerate(_) => panic!("no lookup expected"),
    }
}

#[test]
fn extension_leads_to_lookup() {
    match plan_listing("C:\\docs\\a.txt") {
        Plan::Enumerate(k) => assert_eq!(k, ".txt"),
        Plan::Answer(_) => panic!("lookup expected"),
    }
    match plan_search("C:\\docs\\a.txt") {
        Plan::Enumerate(k) => assert_eq!(k, ".txt"),
        Plan::Answer(_) => panic!("lookup expected"),
    }
}

#[test]
fn listing_sorts_by_name() {
    let apps = list(&["WordPad", "Notepad"]).unwrap();
    assert_eq!(apps, vec![app("Notepad"), app("WordPad")]);
    assert!(apps.iter().all(|a| a.id == a.name && a.icon.is_none()));
}

#[test]
fn listing_order_is_ordinal() {
    let apps = list(&["alpha", "Zeta", "Alpha", "Alp", "Éclair"]).unwrap();
    let names: Vec<&str> = apps.iter().map(|a| a.name.as_str()).collect();
    assert_eq!(names, vec!["Alp", "Alpha", "Zeta", "alpha", "Éclair"]);
}

#[test]
fn listing_keeps_equal_names() {
    let apps = list(&["Paint", "Paint", "Edge"]).unwrap();
    assert_eq!(apps, vec![app("Edge"), app("Paint"), app("Paint")]);
}

#[test]
fn listing_of_nothing_is_empty() {
    assert_eq!(list(&[]).unwrap(), vec![]);
}

#[test]
fn listing_is_repeatable_in_any_order() {
    let first = list(&["WordPad", "Notepad", "Photos"]).unwrap();
    let second = list(&["Photos", "WordPad", "Notepad"]).unwrap();
    assert_eq!(first, second);
}

#[test]
fn listing_stops_on_failure() {
    let mut listing = HandlerListing::new();
    assert!(listing.step(HandlerEvent::Found("Notepad".to_string())).is_none());
    let r = listing.step(HandlerEvent::Failed(EnumStep::GetName, "Access denied".to_string()));
    assert_eq!(r, Some(Err("Failed to get handler name: Access denied".to_string())));
}

#[test]
fn enumeration_failure_messages() {
    let mut listing = HandlerListing::new();
    let r = listing.step(HandlerEvent::Failed(EnumStep::Enumerate, "E_FAIL".to_string()));
    assert_eq!(r, Some(Err("Failed to enumerate handlers: E_FAIL".to_string())));
    let mut listing = HandlerListing::new();
    let r = listing.step(HandlerEvent::Failed(EnumStep::ConvertName, "bad utf-16".to_string()));
    assert_eq!(r, Some(Err("Failed to convert name to string: bad utf-16".to_string())));
}

#[test]
fn search_launches_named_handler() {
    let search = AppSearch::new("WordPad");
    assert!(matches!(
        search.step(&HandlerEvent::Found("Notepad".to_string())),
        SearchAction::Continue
    ));
    assert!(matches!(
        search.step(&HandlerEvent::Found("WordPad".to_string())),
        SearchAction::Launch
    ));
    assert_eq!(launch_result(LaunchOutcome::Launched), OpenResult::Success);
}

#[test]
fn search_is_case_sensitive() {
    let search = AppSearch::new("WordPad");
    assert!(matches!(
        search.step(&HandlerEvent::Found("wordpad".to_string())),
        SearchAction::Continue
    ));
}

#[test]
fn search_reports_missing_handler() {
    let search = AppSearch::new("NoSuchApp");
    assert!(matches!(
        search.step(&HandlerEvent::Found("Notepad".to_string())),
        SearchAction::Continue
    ));
    match search.step(&HandlerEvent::Exhausted) {
        SearchAction::Finish(r) => {
            assert_eq!(r, Ok(OpenResult::AppNotFound { app_id: "NoSuchApp".to_string() }))
        }
        _ => panic!("search should be over"),
    }
}

#[test]
fn search_stops_on_failure() {
    let search = AppSearch::new("WordPad");
    match search.step(&HandlerEvent::Failed(EnumStep::ConvertName, "bad".to_string())) {
        SearchAction::Finish(r) => {
            assert_eq!(r, Err("Failed to convert name to string: bad".to_string()))
        }
        _ => panic!("search should be over"),
    }
}

#[test]
fn search_is_repeatable() {
    let search = AppSearch::new("NoSuchApp");
    let a = search.step(&HandlerEvent::Exhausted);
    let b = search.step(&HandlerEvent::Exhausted);
    match (a, b) {
        (SearchAction::Finish(x), SearchAction::Finish(y)) => assert_eq!(x, y),
        _ => panic!("search should be over"),
    }
}

#[test]
fn launch_failure_messages() {
    assert_eq!(
        launch_result(LaunchOutcome::Failed(LaunchStep::CreateItem, "not found".to_string())),
        OpenResult::PlatformError { message: "Failed to create shell item: not found".to_string() }
    );
    assert_eq!(
        launch_result(LaunchOutcome::Failed(LaunchStep::BindDataObject, "E".to_string())),
        OpenResult::PlatformError { message: "Failed to bind to data object: E".to_string() }
    );
    assert_eq!(
        launch_result(LaunchOutcome::Failed(LaunchStep::Invoke, "E".to_string())),
        OpenResult::PlatformError { message: "Failed to invoke handler: E".to_string() }
    );
}

#[test]
fn default_open_success_above_limit() {
    assert_eq!(shell_execute_outcome(42), OpenResult::Success);
    assert_eq!(shell_execute_outcome(33), OpenResult::Success);
    assert_eq!(shell_execute_outcome(i64::MAX), OpenResult::Success);
}

#[test]
fn default_open_failure_carries_code() {
    assert_eq!(
        shell_execute_outcome(2),
        OpenResult::PlatformError { message: "ShellExecute failed with code 2".to_string() }
    );
    assert_eq!(
        shell_execute_outcome(32),
        OpenResult::PlatformError { message: "ShellExecute failed with code 32".to_string() }
    );
    assert_eq!(
        shell_execute_outcome(0),
        OpenResult::PlatformError { message: "ShellExecute failed with code 0".to_string() }
    );
    assert_eq!(
        shell_execute_outcome(-7),
        OpenResult::PlatformError { message: "ShellExecute failed with code -7".to_string() }
    );
}

#[test]
fn decimal_of_extremes() {
    let mut s = String::from("n=");
    push_decimal(&mut s, i64::MIN);
    assert_eq!(s, "n=-9223372036854775808");
    let mut s = String::new();
    push_decimal(&mut s, 1_000_000_007);
    assert_eq!(s, "1000000007");
}

#[test]
fn initialization_happens_once_per_context() {
    let mut opener = WindowsFileOpener::new();
    assert!(!opener.is_initialized());
    assert!(opener.enter());
    assert!(opener.is_initialized());
    assert!(!opener.enter());
    assert!(!opener.enter());
    let mut other = WindowsFileOpener::new();
    assert!(other.enter());
}

#[test]
fn ordinal_comparison() {
    assert!(name_precedes("Notepad", "WordPad"));
    assert!(!name_precedes("WordPad", "Notepad"));
    assert!(name_precedes("Zeta", "alpha"));
    assert!(name_precedes("Alp", "Alpha"));
    assert!(!name_precedes("Alpha", "Alp"));
    assert!(name_precedes("same", "same"));
    assert!(name_precedes("", ""));
}

#[test]
fn sorting_names_directly() {
    let names: Vec<String> = ["b", "a", "B", "a"].iter().map(|s| s.to_string()).collect();
    assert_eq!(sort_names(&names), vec!["B", "a", "a", "b"]);
}
