//! The server's interface: which command a method and a path stand for.

use crate::auth::Method;
use crate::paths::opt_view;
use crate::text::{chars_of, same, slice_of, split, split_on, starts_with, begins, text_of};
use vstd::prelude::*;
use vstd::string::*;

verus! {

/// A command of the interface.
#[derive(Debug, Clone, Copy, PartialEq, Eq)]
pub struct Route {
    pub method: Method,
    /// The path below `/api`; a segment in braces stands for any segment.
    pub path: &'static str,
    pub command: &'static str,
}

/// A command of the interface, by its texts.
pub open spec fn route_view(r: Route) -> (Method, Seq<char>, Seq<char>) {
    (r.method, r.path@, r.command@)
}

/// The commands of the interface, and at the end the stream of events.
pub open spec fn table() -> Seq<(Method, Seq<char>, Seq<char>)> {
    seq![
        (Method::Get, "/info"@, "get_app_info"@),
        (Method::Post, "/login"@, "login"@),
        (Method::Post, "/queue/files"@, "add_files"@),
        (Method::Post, "/folders/scan"@, "scan_folder"@),
        (Method::Post, "/queue/folder"@, "confirm_folder_add"@),
        (Method::Post, "/paths/classify"@, "classify_paths"@),
        (Method::Get, "/queue"@, "get_queue"@),
        (Method::Delete, "/queue"@, "clear_queue"@),
        (Method::Delete, "/queue/jobs/{id}"@, "remove_job"@),
        (Method::Put, "/queue/order"@, "reorder_queue"@),
        (Method::Get, "/bad-sources"@, "get_bad_sources"@),
        (Method::Post, "/bad-sources/purge"@, "purge_bad_sources"@),
        (Method::Get, "/history"@, "get_history"@),
        (Method::Get, "/history/summary"@, "get_history_summary"@),
        (Method::Delete, "/history/{id}"@, "remove_history_entry"@),
        (Method::Post, "/history/clear"@, "clear_completed"@),
        (Method::Post, "/converter/start"@, "start_queue"@),
        (Method::Post, "/converter/pause"@, "pause_conversion"@),
        (Method::Post, "/converter/resume"@, "resume_conversion"@),
        (Method::Post, "/converter/cancel"@, "cancel_conversion"@),
        (Method::Post, "/converter/pause-after-current"@, "pause_after_current"@),
        (Method::Delete, "/converter/pause-after-current"@, "cancel_pause_after_current"@),
        (Method::Get, "/converter/pause-after-current"@, "get_pause_after_current"@),
        (Method::Get, "/converter/low-disk-pause"@, "get_low_disk_pause"@),
        (Method::Get, "/settings"@, "get_settings"@),
        (Method::Put, "/settings/{key}"@, "update_setting"@),
        (Method::Get, "/presets/{preset}/suffix"@, "get_preset_suffix"@),
        (Method::Put, "/presets/{preset}/suffix"@, "set_preset_suffix"@),
        (Method::Post, "/presets/{preset}/suffix/generate"@, "generate_preset_suffix"@),
        (Method::Post, "/suffix/resolve"@, "resolve_suffix_template"@),
        (Method::Get, "/handbrake/detect"@, "detect_handbrake"@),
        (Method::Get, "/handbrake/presets"@, "list_handbrake_presets"@),
        (Method::Get, "/handbrake/validate"@, "validate_handbrake"@),
        (Method::Get, "/watched"@, "get_watched_directories"@),
        (Method::Post, "/watched"@, "add_watched_directory"@),
        (Method::Put, "/watched/{id}"@, "update_watched_directory"@),
        (Method::Delete, "/watched/{id}"@, "remove_watched_directory"@),
        (Method::Put, "/watched/{id}/enabled"@, "set_watched_directory_enabled"@),
        (Method::Get, "/fs/list"@, "fs_list"@),
        (Method::Get, "/events"@, "sse_handler"@),
    ]
}

/// One route.
fn route(method: Method, path: &'static str, command: &'static str) -> (r: Route)
    ensures
        route_view(r) == (method, path@, command@),
{
    Route { method, path, command }
}

/// The commands of the interface, and at the end the stream of events.
pub fn api_routes() -> (r: Vec<Route>)
    ensures
        r@.map_values(|x: Route| route_view(x)) == table(),
{
    let r: Vec<Route> = vec![
        route(Method::Get, "/info", "get_app_info"),
        route(Method::Post, "/login", "login"),
        route(Method::Post, "/queue/files", "add_files"),
        route(Method::Post, "/folders/scan", "scan_folder"),
        route(Method::Post, "/queue/folder", "confirm_folder_add"),
        route(Method::Post, "/paths/classify", "classify_paths"),
        route(Method::Get, "/queue", "get_queue"),
        route(Method::Delete, "/queue", "clear_queue"),
        route(Method::Delete, "/queue/jobs/{id}", "remove_job"),
        route(Method::Put, "/queue/order", "reorder_queue"),
        route(Method::Get, "/bad-sources", "get_bad_sources"),
        route(Method::Post, "/bad-sources/purge", "purge_bad_sources"),
        route(Method::Get, "/history", "get_history"),
        route(Method::Get, "/history/summary", "get_history_summary"),
        route(Method::Delete, "/history/{id}", "remove_history_entry"),
        route(Method::Post, "/history/clear", "clear_completed"),
        route(Method::Post, "/converter/start", "start_queue"),
        route(Method::Post, "/converter/pause", "pause_conversion"),
        route(Method::Post, "/converter/resume", "resume_conversion"),
        route(Method::Post, "/converter/cancel", "cancel_conversion"),
        route(Method::Post, "/converter/pause-after-current", "pause_after_current"),
        route(Method::Delete, "/converter/pause-after-current", "cancel_pause_after_current"),
        route(Method::Get, "/converter/pause-after-current", "get_pause_after_current"),
        route(Method::Get, "/converter/low-disk-pause", "get_low_disk_pause"),
        route(Method::Get, "/settings", "get_settings"),
        route(Method::Put, "/settings/{key}", "update_setting"),
        route(Method::Get, "/presets/{preset}/suffix", "get_preset_suffix"),
        route(Method::Put, "/presets/{preset}/suffix", "set_preset_suffix"),
        route(Method::Post, "/presets/{preset}/suffix/generate", "generate_preset_suffix"),
        route(Method::Post, "/suffix/resolve", "resolve_suffix_template"),
        route(Method::Get, "/handbrake/detect", "detect_handbrake"),
        route(Method::Get, "/handbrake/presets", "list_handbrake_presets"),
        route(Method::Get, "/handbrake/validate", "validate_handbrake"),
        route(Method::Get, "/watched", "get_watched_directories"),
        route(Method::Post, "/watched", "add_watched_directory"),
        route(Method::Put, "/watched/{id}", "update_watched_directory"),
        route(Method::Delete, "/watched/{id}", "remove_watched_directory"),
        route(Method::Put, "/watched/{id}/enabled", "set_watched_directory_enabled"),
        route(Method::Get, "/fs/list", "fs_list"),
        route(Method::Get, "/events", "sse_handler"),
    ];
    assert(r@.map_values(|x: Route| route_view(x)) =~= table());
    r
}

/// Whether a segment of a pattern stands for any segment.
pub open spec fn is_param(segment: Seq<char>) -> bool {
    segment.len() >= 2 && segment[0] == '{' && segment.last() == '}'
}

/// Whether a segment of a pattern stands for any segment.
fn any_segment(segment: &str) -> (r: bool)
    ensures
        r == is_param(segment@),
{
    let cs: Vec<char> = chars_of(segment);
    cs.len() >= 2 && cs[0] == '{' && cs[cs.len() - 1] == '}'
}

/// Whether a segment of a path fits one of a pattern. No empty segment fits one that stands for
/// any.
pub open spec fn segment_fits(pattern: Seq<char>, segment: Seq<char>) -> bool {
    if is_param(pattern) {
        segment.len() > 0
    } else {
        pattern == segment
    }
}

/// Whether a path fits a pattern, segment by segment.
pub open spec fn path_fits(pattern: Seq<char>, path: Seq<char>) -> bool {
    let p = split(pattern, '/');
    let s = split(path, '/');
    p.len() == s.len() && forall|i: int| 0 <= i < p.len() ==> segment_fits(#[trigger] p[i], s[i])
}

/// Whether a pattern has a segment that stands for any.
pub open spec fn has_param(pattern: Seq<char>) -> bool {
    exists|i: int| 0 <= i < split(pattern, '/').len() && is_param(#[trigger] split(pattern, '/')[i])
}

/// What stands for the first segment of a pattern that stands for any, from segment `from` on.
pub open spec fn param_from(pattern: Seq<Seq<char>>, path: Seq<Seq<char>>, from: int) -> Option<
    Seq<char>,
>
    decreases pattern.len() - from,
{
    if from < 0 || from >= pattern.len() {
        None
    } else if is_param(pattern[from]) {
        Some(path[from])
    } else {
        param_from(pattern, path, from + 1)
    }
}

/// What a path has for the segment of a pattern that stands for any.
pub open spec fn param_of(pattern: Seq<char>, path: Seq<char>) -> Option<Seq<char>> {
    param_from(split(pattern, '/'), split(path, '/'), 0)
}

/// Whether a path fits a pattern, segment by segment.
fn fits_pattern(pattern: &str, path: &str) -> (r: bool)
    ensures
        r == path_fits(pattern@, path@),
{
    let p: Vec<String> = split_on(pattern, '/');
    let s: Vec<String> = split_on(path, '/');
    let ghost pv = split(pattern@, '/');
    let ghost sv = split(path@, '/');
    assert(p.deep_view().len() == p.len() && s.deep_view().len() == s.len());
    if p.len() != s.len() {
        return false;
    }
    let mut i: usize = 0;
    while i < p.len()
        invariant
            i <= p.len() == s.len(),
            p.deep_view() == pv,
            s.deep_view() == sv,
            pv == split(pattern@, '/'),
            sv == split(path@, '/'),
            pv.len() == p.len(),
            sv.len() == s.len(),
            forall|j: int| 0 <= j < i ==> segment_fits(#[trigger] pv[j], sv[j]),
        decreases p.len() - i,
    {
        assert(pv[i as int] == p[i as int]@ && sv[i as int] == s[i as int]@);
        let fits: bool = if any_segment(&p[i]) {
            !s[i].as_str().is_empty()
        } else {
            same(&p[i], &s[i])
        };
        if !fits {
            assert(!segment_fits(pv[i as int], sv[i as int]));
            return false;
        }
        i = i + 1;
    }
    true
}

/// Whether a pattern has a segment that stands for any.
fn takes_param(pattern: &str) -> (r: bool)
    ensures
        r == has_param(pattern@),
{
    let p: Vec<String> = split_on(pattern, '/');
    let ghost pv = split(pattern@, '/');
    let mut i: usize = 0;
    assert(p.deep_view().len() == p.len());
    while i < p.len()
        invariant
            i <= p.len() == pv.len(),
            p.deep_view() == pv,
            pv == split(pattern@, '/'),
            forall|j: int| 0 <= j < i ==> !is_param(#[trigger] pv[j]),
        decreases p.len() - i,
    {
        assert(pv[i as int] == p[i as int]@);
        if any_segment(&p[i]) {
            assert(is_param(split(pattern@, '/')[i as int]));
            return true;
        }
        i = i + 1;
    }
    false
}

/// What a path has for the segment of a pattern that stands for any.
fn read_param(pattern: &str, path: &str) -> (r: Option<String>)
    requires
        path_fits(pattern@, path@),
    ensures
        opt_view(r) == param_of(pattern@, path@),
{
    let p: Vec<String> = split_on(pattern, '/');
    let s: Vec<String> = split_on(path, '/');
    let ghost pv = split(pattern@, '/');
    let ghost sv = split(path@, '/');
    assert(p.deep_view().len() == p.len() && s.deep_view().len() == s.len());
    let mut i: usize = 0;
    while i < p.len()
        invariant
            i <= p.len() == s.len(),
            p.deep_view() == pv,
            s.deep_view() == sv,
            pv.len() == p.len(),
            sv.len() == s.len(),
            pv == split(pattern@, '/'),
            sv == split(path@, '/'),
            param_of(pattern@, path@) == param_from(pv, sv, i as int),
        decreases p.len() - i,
    {
        assert(pv[i as int] == p[i as int]@ && sv[i as int] == s[i as int]@);
        if any_segment(&p[i]) {
            return Some(s[i].clone());
        }
        i = i + 1;
    }
    None
}

/// Whether a row is asked for by a path: it fits, and where `plain` is set it has no segment that
/// stands for any.
pub open spec fn row_asked(row: (Method, Seq<char>, Seq<char>), path: Seq<char>, plain: bool) -> bool {
    path_fits(row.1, path) && (plain ==> !has_param(row.1))
}

/// Whether any row is asked for by a path.
pub open spec fn any_asked(path: Seq<char>, plain: bool) -> bool {
    exists|i: int| 0 <= i < table().len() && row_asked(#[trigger] table()[i], path, plain)
}

/// The first row from `from` on that is asked for by a path and a method.
pub open spec fn first_asked(method: Method, path: Seq<char>, plain: bool, from: int) -> Option<int>
    decreases table().len() - from,
{
    if from < 0 || from >= table().len() {
        None
    } else if row_asked(table()[from], path, plain) && table()[from].0 == method {
        Some(from)
    } else {
        first_asked(method, path, plain, from + 1)
    }
}

/// What a request to the interface stands for.
#[derive(Debug, Clone)]
pub enum Resolution {
    /// A command, and what the path gives it.
    Command(&'static str, Option<String>),
    /// The path is known, but not with this method.
    MethodNotAllowed,
    /// The path is not known.
    NotFound,
    /// The request is for a page.
    Page,
}

/// Whether a path belongs to the interface.
pub open spec fn is_api(path: Seq<char>) -> bool {
    path == "/api"@ || begins(path, "/api/"@)
}

/// Whether a resolution is that of a method and a path below `/api`: a path that is written out
/// goes before one that fits a segment that stands for any.
pub open spec fn resolves(method: Method, path: Seq<char>, r: Resolution) -> bool {
    let plain = any_asked(path, true);
    match first_asked(method, path, plain, 0) {
        Some(i) => r matches Resolution::Command(command, param) && command@ == table()[i].2
            && opt_view(param) == param_of(table()[i].1, path),
        None => if plain || any_asked(path, false) {
            r is MethodNotAllowed
        } else {
            r is NotFound
        },
    }
}

/// Whether a path asks for any route, and which one with the method.
fn find_route(routes: &Vec<Route>, method: Method, path: &str, plain: bool) -> (r: (
    bool,
    Option<usize>,
))
    requires
        routes@.map_values(|x: Route| route_view(x)) == table(),
    ensures
        r.0 == any_asked(path@, plain),
        match r.1 {
            Some(i) => first_asked(method, path@, plain, 0) == Some(i as int) && i < routes.len()
                && path_fits(routes@[i as int].path@, path@),
            None => first_asked(method, path@, plain, 0) is None,
        },
{
    let ghost tv = table();
    assert(tv.len() == routes.len());
    let mut any: bool = false;
    let mut found: Option<usize> = None;
    let mut i: usize = 0;
    while i < routes.len()
        invariant
            i <= routes.len() == tv.len(),
            tv == table(),
            routes@.map_values(|x: Route| route_view(x)) == tv,
            any == exists|j: int| 0 <= j < i && row_asked(#[trigger] tv[j], path@, plain),
            match found {
                Some(k) => first_asked(method, path@, plain, 0) == Some(k as int) && k < i
                    && path_fits(routes@[k as int].path@, path@),
                None => first_asked(method, path@, plain, 0) == first_asked(
                    method,
                    path@,
                    plain,
                    i as int,
                ),
            },
        decreases routes.len() - i,
    {
        assert(tv[i as int] == route_view(routes@[i as int]));
        let row: Route = routes[i];
        let asked: bool = fits_pattern(row.path, path) && (!plain || !takes_param(row.path));
        assert(asked == row_asked(tv[i as int], path@, plain));
        if asked {
            any = true;
            if found.is_none() && row.method == method {
                found = Some(i);
            }
        }
        i = i + 1;
    }
    (any, found)
}

/// What a method and a path below `/api` stand for.
pub fn resolve_api(method: Method, path: &str) -> (r: Resolution)
    ensures
        resolves(method, path@, r),
{
    let routes: Vec<Route> = api_routes();
    let (plain_any, plain_found): (bool, Option<usize>) = find_route(&routes, method, path, true);
    let (any, found): (bool, Option<usize>) = if plain_any {
        (true, plain_found)
    } else {
        find_route(&routes, method, path, false)
    };
    match found {
        Some(i) => {
            assert(table()[i as int] == route_view(routes@[i as int]));
            let param: Option<String> = read_param(routes[i].path, path);
            Resolution::Command(routes[i].command, param)
        },
        None => if any {
            Resolution::MethodNotAllowed
        } else {
            Resolution::NotFound
        },
    }
}

/// What a request stands for.
pub fn resolve(method: Method, path: &str) -> (r: Resolution)
    ensures
        is_api(path@) ==> resolves(method, path@.skip(4), r),
        !is_api(path@) ==> r is Page,
{
    if !same(path, "/api") && !starts_with(path, "/api/") {
        return Resolution::Page;
    }
    let cs: Vec<char> = chars_of(path);
    proof {
        reveal_strlit("/api");
        reveal_strlit("/api/");
        assert("/api"@.len() == 4 && "/api/"@.len() == 5);
    }
    let below: String = text_of(&slice_of(&cs, 4, cs.len()));
    assert(below@ =~= path@.skip(4));
    resolve_api(method, &below)
}

/// The command of a request is that of the first row that its method and its path ask for; where no
/// row is found, none is asked for with that method.
pub proof fn the_first_row_asked_for_answers(method: Method, path: Seq<char>, plain: bool)
    ensures
        match first_asked(method, path, plain, 0) {
            Some(i) => 0 <= i < table().len() && row_asked(table()[i], path, plain) && table()[i].0
                == method,
            None => forall|k: int|
                0 <= k < table().len() && row_asked(#[trigger] table()[k], path, plain)
                    ==> table()[k].0 != method,
        },
{
    lemma_first_asked(method, path, plain, 0);
}

/// The first row from `from` on that is asked for.
proof fn lemma_first_asked(method: Method, path: Seq<char>, plain: bool, from: int)
    requires
        0 <= from,
    ensures
        match first_asked(method, path, plain, from) {
            Some(i) => from <= i < table().len() && row_asked(table()[i], path, plain)
                && table()[i].0 == method,
            None => forall|k: int|
                from <= k < table().len() && row_asked(#[trigger] table()[k], path, plain)
                    ==> table()[k].0 != method,
        },
    decreases table().len() - from,
{
    if from < table().len() && !(row_asked(table()[from], path, plain) && table()[from].0
        == method) {
        lemma_first_asked(method, path, plain, from + 1);
    }
}

/// A path of plain segments fits itself and nothing else of that kind; a segment in braces fits any
/// one segment that is not empty, and gives it to the command.
pub proof fn patterns_fit_their_paths(pattern: Seq<char>, path: Seq<char>)
    ensures
        !has_param(pattern) ==> (path_fits(pattern, path) <==> split(pattern, '/') == split(
            path,
            '/',
        )),
        path_fits(pattern, path) ==> split(pattern, '/').len() == split(path, '/').len(),
        path_fits(pattern, path) ==> forall|i: int|
            0 <= i < split(pattern, '/').len() ==> {
                let p = #[trigger] split(pattern, '/')[i];
                let s = split(path, '/')[i];
                if p.len() >= 2 && p[0] == '{' && p.last() == '}' {
                    s.len() > 0
                } else {
                    s == p
                }
            },
        path_fits(pattern, path) && has_param(pattern) ==> (param_of(pattern, path) matches Some(v)
            && v.len() > 0 && split(path, '/').contains(v)),
        !has_param(pattern) ==> param_of(pattern, path) is None,
{
    let p = split(pattern, '/');
    let s = split(path, '/');
    if !has_param(pattern) {
        assert forall|i: int| 0 <= i < p.len() implies !is_param(#[trigger] p[i]) by {}
        if path_fits(pattern, path) {
            assert(p =~= s);
        }
    }
    lemma_param(p, s, 0);
    if path_fits(pattern, path) && has_param(pattern) {
        let i = choose|i: int| 0 <= i < p.len() && is_param(#[trigger] p[i]);
        assert(is_param(p[i]));
    }
}

/// What stands for the first segment in braces from `from` on is a segment of the path.
proof fn lemma_param(p: Seq<Seq<char>>, s: Seq<Seq<char>>, from: int)
    requires
        0 <= from,
    ensures
        param_from(p, s, from) is Some <==> exists|i: int|
            from <= i < p.len() && is_param(#[trigger] p[i]),
        param_from(p, s, from) is Some ==> exists|i: int|
            from <= i < p.len() && is_param(#[trigger] p[i]) && param_from(p, s, from)
                == Some(s[i]),
    decreases p.len() - from,
{
    if from < p.len() {
        if is_param(p[from]) {
            assert(param_from(p, s, from) == Some(s[from]));
        } else {
            lemma_param(p, s, from + 1);
        }
    }
}


/// What only reads is asked for at its own path. Each such command stands in the table
/// with its path, and no other command stands there under its method.
pub proof fn readers_have_their_paths(row: (Method, Seq<char>, Seq<char>))
    ensures
        table().contains(row) && row.0 == Method::Get <==> {
            ||| row == (Method::Get, "/info"@, "get_app_info"@)
            ||| row == (Method::Get, "/queue"@, "get_queue"@)
            ||| row == (Method::Get, "/bad-sources"@, "get_bad_sources"@)
            ||| row == (Method::Get, "/history"@, "get_history"@)
            ||| row == (Method::Get, "/history/summary"@, "get_history_summary"@)
            ||| row == (Method::Get, "/converter/pause-after-current"@, "get_pause_after_current"@)
            ||| row == (Method::Get, "/converter/low-disk-pause"@, "get_low_disk_pause"@)
            ||| row == (Method::Get, "/settings"@, "get_settings"@)
            ||| row == (Method::Get, "/presets/{preset}/suffix"@, "get_preset_suffix"@)
            ||| row == (Method::Get, "/handbrake/detect"@, "detect_handbrake"@)
            ||| row == (Method::Get, "/handbrake/presets"@, "list_handbrake_presets"@)
            ||| row == (Method::Get, "/handbrake/validate"@, "validate_handbrake"@)
            ||| row == (Method::Get, "/watched"@, "get_watched_directories"@)
            ||| row == (Method::Get, "/fs/list"@, "fs_list"@)
            ||| row == (Method::Get, "/events"@, "sse_handler"@)
        },
{
    let all = table();
    assert(all[0].2 == "get_app_info"@);
    assert(all[6].2 == "get_queue"@);
    assert(all[10].2 == "get_bad_sources"@);
    assert(all[12].2 == "get_history"@);
    assert(all[13].2 == "get_history_summary"@);
    assert(all[22].2 == "get_pause_after_current"@);
    assert(all[23].2 == "get_low_disk_pause"@);
    assert(all[24].2 == "get_settings"@);
    assert(all[26].2 == "get_preset_suffix"@);
    assert(all[30].2 == "detect_handbrake"@);
    assert(all[31].2 == "list_handbrake_presets"@);
    assert(all[32].2 == "validate_handbrake"@);
    assert(all[33].2 == "get_watched_directories"@);
    assert(all[38].2 == "fs_list"@);
    assert(all[39].2 == "sse_handler"@);
    if all.contains(row) {
        let i = choose|i: int| 0 <= i < all.len() && all[i] == row;
    }
}

/// What sets something going is asked for at its own path. Each such command stands in the table
/// with its path, and no other command stands there under its method.
pub proof fn actions_have_their_paths(row: (Method, Seq<char>, Seq<char>))
    ensures
        table().contains(row) && row.0 == Method::Post <==> {
            ||| row == (Method::Post, "/login"@, "login"@)
            ||| row == (Method::Post, "/queue/files"@, "add_files"@)
            ||| row == (Method::Post, "/folders/scan"@, "scan_folder"@)
            ||| row == (Method::Post, "/queue/folder"@, "confirm_folder_add"@)
            ||| row == (Method::Post, "/paths/classify"@, "classify_paths"@)
            ||| row == (Method::Post, "/bad-sources/purge"@, "purge_bad_sources"@)
            ||| row == (Method::Post, "/history/clear"@, "clear_completed"@)
            ||| row == (Method::Post, "/converter/start"@, "start_queue"@)
            ||| row == (Method::Post, "/converter/pause"@, "pause_conversion"@)
            ||| row == (Method::Post, "/converter/resume"@, "resume_conversion"@)
            ||| row == (Method::Post, "/converter/cancel"@, "cancel_conversion"@)
            ||| row == (Method::Post, "/converter/pause-after-current"@, "pause_after_current"@)
            ||| row == (Method::Post, "/presets/{preset}/suffix/generate"@, "generate_preset_suffix"@)
            ||| row == (Method::Post, "/suffix/resolve"@, "resolve_suffix_template"@)
            ||| row == (Method::Post, "/watched"@, "add_watched_directory"@)
        },
{
    let all = table();
    assert(all[1].2 == "login"@);
    assert(all[2].2 == "add_files"@);
    assert(all[3].2 == "scan_folder"@);
    assert(all[4].2 == "confirm_folder_add"@);
    assert(all[5].2 == "classify_paths"@);
    assert(all[11].2 == "purge_bad_sources"@);
    assert(all[15].2 == "clear_completed"@);
    assert(all[16].2 == "start_queue"@);
    assert(all[17].2 == "pause_conversion"@);
    assert(all[18].2 == "resume_conversion"@);
    assert(all[19].2 == "cancel_conversion"@);
    assert(all[20].2 == "pause_after_current"@);
    assert(all[28].2 == "generate_preset_suffix"@);
    assert(all[29].2 == "resolve_suffix_template"@);
    assert(all[34].2 == "add_watched_directory"@);
    if all.contains(row) {
        let i = choose|i: int| 0 <= i < all.len() && all[i] == row;
    }
}

/// What changes something that is there is asked for at its own path. Each such command stands in the table
/// with its path, and no other command stands there under its method.
pub proof fn changes_have_their_paths(row: (Method, Seq<char>, Seq<char>))
    ensures
        table().contains(row) && row.0 == Method::Put <==> {
            ||| row == (Method::Put, "/queue/order"@, "reorder_queue"@)
            ||| row == (Method::Put, "/settings/{key}"@, "update_setting"@)
            ||| row == (Method::Put, "/presets/{preset}/suffix"@, "set_preset_suffix"@)
            ||| row == (Method::Put, "/watched/{id}"@, "update_watched_directory"@)
            ||| row == (Method::Put, "/watched/{id}/enabled"@, "set_watched_directory_enabled"@)
        },
{
    let all = table();
    assert(all[9].2 == "reorder_queue"@);
    assert(all[25].2 == "update_setting"@);
    assert(all[27].2 == "set_preset_suffix"@);
    assert(all[35].2 == "update_watched_directory"@);
    assert(all[37].2 == "set_watched_directory_enabled"@);
    if all.contains(row) {
        let i = choose|i: int| 0 <= i < all.len() && all[i] == row;
    }
}

/// What takes something away is asked for at its own path. Each such command stands in the table
/// with its path, and no other command stands there under its method.
pub proof fn removals_have_their_paths(row: (Method, Seq<char>, Seq<char>))
    ensures
        table().contains(row) && row.0 == Method::Delete <==> {
            ||| row == (Method::Delete, "/queue"@, "clear_queue"@)
            ||| row == (Method::Delete, "/queue/jobs/{id}"@, "remove_job"@)
            ||| row == (Method::Delete, "/history/{id}"@, "remove_history_entry"@)
            ||| row == (Method::Delete, "/converter/pause-after-current"@, "cancel_pause_after_current"@)
            ||| row == (Method::Delete, "/watched/{id}"@, "remove_watched_directory"@)
        },
{
    let all = table();
    assert(all[7].2 == "clear_queue"@);
    assert(all[8].2 == "remove_job"@);
    assert(all[14].2 == "remove_history_entry"@);
    assert(all[21].2 == "cancel_pause_after_current"@);
    assert(all[36].2 == "remove_watched_directory"@);
    if all.contains(row) {
        let i = choose|i: int| 0 <= i < all.len() && all[i] == row;
    }
}

/// A request is answered by a command of its method whose path it fits; where only commands of other
/// methods fit, the method is refused, and where none fits, the path is not known. A path that is
/// written out goes before one with a segment in braces.
pub proof fn requests_find_their_command(method: Method, path: Seq<char>, r: Resolution)
    requires
        resolves(method, path, r),
    ensures
        r is NotFound <==> forall|k: int|
            0 <= k < table().len() ==> !path_fits((#[trigger] table()[k]).1, path),
        r matches Resolution::Command(command, _) ==> exists|i: int|
            0 <= i < table().len() && path_fits((#[trigger] table()[i]).1, path) && table()[i].0
                == method && command@ == table()[i].2,
        !(r is Page),
        (exists|i: int|
            0 <= i < table().len() && path_fits((#[trigger] table()[i]).1, path) && !has_param(
                table()[i].1,
            ) && table()[i].0 == method) ==> r is Command,
{
    let plain = any_asked(path, true);
    the_first_row_asked_for_answers(method, path, plain);
    if any_asked(path, true) {
        let i = choose|i: int|
            0 <= i < table().len() && row_asked(#[trigger] table()[i], path, true);
        assert(row_asked(table()[i], path, false));
    }
    if exists|i: int|
        0 <= i < table().len() && path_fits((#[trigger] table()[i]).1, path) && !has_param(
            table()[i].1,
        ) && table()[i].0 == method {
        let i = choose|i: int|
            0 <= i < table().len() && path_fits((#[trigger] table()[i]).1, path) && !has_param(
                table()[i].1,
            ) && table()[i].0 == method;
        assert(row_asked(table()[i], path, true));
        assert(plain);
        assert(row_asked(table()[i], path, plain));
    }
    if any_asked(path, false) {
        let i = choose|i: int|
            0 <= i < table().len() && row_asked(#[trigger] table()[i], path, false);
        assert(path_fits(table()[i].1, path));
    }
    if first_asked(method, path, plain, 0) is Some {
        let i = first_asked(method, path, plain, 0)->0;
        assert(path_fits(table()[i].1, path));
    }
    assert forall|k: int| 0 <= k < table().len()
        && path_fits((#[trigger] table()[k]).1, path) implies
        any_asked(path, false) by {
        assert(row_asked(table()[k], path, false));
    }
}

/// The interface is what stands below `/api`, and nothing that merely begins like it.
pub proof fn the_interface_stands_below_its_name(rest: Seq<char>, path: Seq<char>)
    ensures
        is_api("/api"@),
        is_api("/api/"@ + rest),
        is_api(path) && path != "/api"@ ==> path.len() >= 5 && path[4] == '/',
{
    reveal_strlit("/api");
    reveal_strlit("/api/");
    let whole = "/api/"@ + rest;
    assert(whole.subrange(0, 5) =~= "/api/"@);
    if begins(path, "/api/"@) {
        assert(path.subrange(0, 5)[4] == path[4]);
    }
}


} // verus!
