use convertbar::auth::Method;
use convertbar::config::AuthMode;
use convertbar::embed::{asset_name, fallback, has_extension, is_asset_name, served, Page};
use convertbar::info::app_info;
use convertbar::listing::{io_refusal, path_allowed, sort_entries, FsEntry, ListRefusal};
use convertbar::routes::{api_routes, resolve, resolve_api, Resolution};

#[test]
fn root_and_directory_like_paths_have_no_extension() {
    assert!(!has_extension(""));
    assert!(!has_extension("queue"));
    assert!(!has_extension("settings/general"));
}

#[test]
fn file_like_paths_have_an_extension() {
    assert!(has_extension("app.js"));
    assert!(has_extension("assets/logo.png"));
}

#[test]
fn trailing_slash_after_a_file_name_is_not_an_extension() {
    assert!(!has_extension("assets/logo.png/"));
}

#[test]
fn a_page_is_the_asset_or_the_index() {
    assert_eq!(asset_name("/app.js"), "app.js");
    assert_eq!(fallback("/app.js", true, true), Page::Asset);
    assert_eq!(fallback("/app.js", false, true), Page::NotFound);
    assert_eq!(fallback("/settings", false, true), Page::Index);
    assert_eq!(fallback("/settings", false, false), Page::NotFound);
    assert_eq!(
        served("/assets/logo.png", Page::Asset),
        Some(("assets/logo.png".to_string(), "image/png".to_string()))
    );
    assert_eq!(
        served("/settings", Page::Index),
        Some(("index.html".to_string(), "text/html".to_string()))
    );
    assert_eq!(served("/x", Page::NotFound), None);
    assert_eq!(
        served("/x.unknownkind", Page::Asset),
        Some((
            "x.unknownkind".to_string(),
            "application/octet-stream".to_string()
        ))
    );
}

fn roots(paths: &[&str]) -> Vec<String> {
    paths.iter().map(|p| p.to_string()).collect()
}

#[test]
fn routes_json_has_no_duplicate_commands() {
    let routes = api_routes();
    for (i, a) in routes.iter().enumerate() {
        for b in &routes[i + 1..] {
            assert_ne!(a.command, b.command, "duplicate command");
            assert!(
                a.method != b.method || a.path != b.path,
                "duplicate route {}",
                a.path
            );
        }
    }
}

#[test]
fn routes_json_row_count_matches_the_pinned_literal() {
    let commands = api_routes()
        .into_iter()
        .filter(|r| r.path != "/events")
        .count();
    assert_eq!(commands, 39);
}

#[test]
fn every_route_is_reached_by_its_method() {
    for route in api_routes() {
        let path = route
            .path
            .replace("{id}", "some-id")
            .replace("{key}", "some-id")
            .replace("{preset}", "some-id");
        let given = if path == route.path {
            None
        } else {
            Some("some-id".to_string())
        };
        match resolve(route.method, &format!("/api{path}")) {
            Resolution::Command(command, param) => {
                assert_eq!(command, route.command);
                assert_eq!(param, given);
            }
            other => panic!("{path} is not registered: {other:?}"),
        }
        assert!(matches!(
            resolve(Method::Other, &format!("/api{path}")),
            Resolution::MethodNotAllowed
        ));
    }
}

#[test]
fn an_unknown_path_of_the_interface_is_no_page() {
    assert!(matches!(
        resolve(Method::Get, "/api/no-such-thing"),
        Resolution::NotFound
    ));
    assert!(matches!(resolve(Method::Get, "/api"), Resolution::NotFound));
    assert!(matches!(resolve(Method::Get, "/apix"), Resolution::Page));
    assert!(matches!(resolve(Method::Get, "/"), Resolution::Page));
}

#[test]
fn a_path_that_is_written_out_goes_before_one_with_a_parameter() {
    assert!(matches!(
        resolve_api(Method::Get, "/history/summary"),
        Resolution::Command("get_history_summary", None)
    ));
    assert!(matches!(
        resolve_api(Method::Delete, "/history/summary"),
        Resolution::MethodNotAllowed
    ));
    assert!(matches!(
        resolve_api(Method::Delete, "/history/abc"),
        Resolution::Command("remove_history_entry", Some(id)) if id == "abc"
    ));
    assert!(matches!(
        resolve_api(Method::Delete, "/history/"),
        Resolution::NotFound
    ));
}

#[test]
fn exact_root_is_allowed() {
    let roots = roots(&["/media"]);
    assert!(path_allowed("/media", &roots));
}

#[test]
fn child_of_root_is_allowed() {
    let roots = roots(&["/media"]);
    assert!(path_allowed("/media/movies/foo.mp4", &roots));
}

#[test]
fn sibling_with_shared_string_prefix_is_not_allowed() {
    let roots = roots(&["/media"]);
    assert!(!path_allowed("/media2", &roots));
    assert!(!path_allowed("/media2/foo.mp4", &roots));
}

#[test]
fn root_slash_admits_everything() {
    let roots = roots(&["/"]);
    assert!(path_allowed("/", &roots));
    assert!(path_allowed("/etc/passwd", &roots));
    assert!(path_allowed("/media/anything", &roots));
}

#[test]
fn outside_every_configured_root_is_not_allowed() {
    let roots = roots(&["/media", "/data"]);
    assert!(!path_allowed("/etc/passwd", &roots));
}

#[test]
fn folders_come_first_and_names_go_without_case() {
    let entry = |name: &str, size: Option<u64>| FsEntry {
        name: name.to_string(),
        path: format!("/data/{name}"),
        is_dir: size.is_none(),
        size,
    };
    let sorted = sort_entries(vec![
        entry("banana.txt", Some(0)),
        entry("Apple.txt", Some(5)),
        entry("zzz-folder", None),
    ]);
    let names: Vec<&str> = sorted.iter().map(|e| e.name.as_str()).collect();
    assert_eq!(names, vec!["zzz-folder", "Apple.txt", "banana.txt"]);
    assert!(sorted[0].is_dir);
    assert_eq!(sorted[0].size, None);
    assert!(!sorted[1].is_dir);
    assert_eq!(sorted[1].size, Some(5));
}

#[test]
fn entries_with_capitals_stand_among_the_others() {
    let entry = |name: &str| FsEntry {
        name: name.to_string(),
        path: String::new(),
        is_dir: false,
        size: Some(1),
    };
    let sorted = sort_entries(vec![entry("b"), entry("Ä"), entry("A"), entry("C"), entry("a")]);
    let names: Vec<&str> = sorted.iter().map(|e| e.name.as_str()).collect();
    assert_eq!(names, vec!["A", "a", "b", "C", "Ä"]);
}

#[test]
fn refusals_have_their_status() {
    assert_eq!(io_refusal(true), ListRefusal::NotFound);
    assert_eq!(io_refusal(false), ListRefusal::Failed);
    assert_eq!(ListRefusal::NotFound.status(), 404);
    assert_eq!(ListRefusal::Outside.status(), 403);
    assert_eq!(ListRefusal::Failed.status(), 500);
}

#[test]
fn the_server_says_five_things_of_itself() {
    let info = app_info(
        "1.2.3",
        true,
        &AuthMode::Open,
        &roots(&["/"]),
        &vec![Some("/".to_string())],
    );
    assert_eq!(info.version, "1.2.3");
    assert_eq!(info.head, "server");
    assert!(info.can_pause_process);
    assert!(!info.auth_required);
    assert_eq!(info.browse_roots, roots(&["/"]));
}

#[test]
fn roots_are_shown_as_they_resolve() {
    let info = app_info(
        "1",
        true,
        &AuthMode::Token("abcdefghijklmnop".to_string()),
        &roots(&["/link"]),
        &vec![Some("/real/media".to_string())],
    );
    assert!(info.auth_required);
    assert_eq!(info.browse_roots, roots(&["/real/media"]));
}

#[test]
fn a_root_that_is_not_there_is_shown_as_configured() {
    let info = app_info(
        "1",
        false,
        &AuthMode::Open,
        &roots(&["/mnt/nas"]),
        &vec![None],
    );
    assert_eq!(info.browse_roots, roots(&["/mnt/nas"]));
}

#[test]
fn names_that_lead_elsewhere_are_no_assets() {
    for name in ["index.html", "assets/logo.png", "a/b/c.js", "..a/b"] {
        assert!(is_asset_name(name), "{name}");
    }
    for name in ["", "../x", "a/../../x", "a//b", "./a", "a/..", "a\\b", "C:x", "a/"] {
        assert!(!is_asset_name(name), "{name}");
    }
}
