//! What the menu bar shows, and where the window goes.

use crate::db::{read_switch, switch_of};
use crate::text::{chars_of, decimal_of, decimal_text, join, joined2, joined_from, same, slice_of};
use crate::text::text_of;
use vstd::prelude::*;
use vstd::string::*;

verus! {

/// A file name as the menu bar shows it: cut to twenty characters, the last one a mark of the cut.
pub open spec fn short_title(name: Seq<char>) -> Seq<char> {
    if name.len() > 20 {
        name.take(19) + "…"@
    } else {
        name
    }
}

/// A file name as the menu bar shows it.
pub fn truncate_tray_title(name: &str) -> (r: String)
    ensures
        r@ == short_title(name@),
{
    let cs: Vec<char> = chars_of(name);
    if cs.len() > 20 {
        assert(cs@.subrange(0, 19) =~= name@.take(19));
        text_of(&slice_of(&cs, 0, 19)).concat("…")
    } else {
        name.to_owned()
    }
}

/// A file name as the menu bar shows it has at most twenty characters, and is the name itself if
/// that has no more.
pub proof fn titles_are_short(name: Seq<char>)
    ensures
        short_title(name).len() <= 20,
        name.len() <= 20 ==> short_title(name) == name,
        name.len() > 20 ==> short_title(name).take(19) == name.take(19),
{
    reveal_strlit("…");
    if name.len() > 20 {
        assert(short_title(name).take(19) =~= name.take(19));
    }
}

/// What the queue tells the menu bar. The percentage and the rate are whole numbers; the rate is
/// there only if it is above 0.
#[derive(Debug, Clone)]
pub struct TrayUpdate {
    pub status: String,
    pub percent: Option<u64>,
    pub file_name: Option<String>,
    pub eta_seconds: Option<u64>,
    pub queue_count: Option<u64>,
    pub fps: Option<u64>,
}

/// What the user wants to see in the menu bar.
#[derive(Debug, Clone, Copy, PartialEq, Eq, Structural)]
pub struct TraySettings {
    pub show_percent: bool,
    pub show_eta: bool,
    pub show_queue: bool,
    pub show_filename: bool,
    pub show_fps: bool,
}

impl Default for TraySettings {
    fn default() -> (r: Self)
        ensures
            r == (TraySettings {
                show_percent: true,
                show_eta: true,
                show_queue: false,
                show_filename: false,
                show_fps: false,
            }),
    {
        TraySettings {
            show_percent: true,
            show_eta: true,
            show_queue: false,
            show_filename: false,
            show_fps: false,
        }
    }
}

/// A setting, or what it is by default.
pub open spec fn shown_if(setting: Option<bool>, default: bool) -> bool {
    match setting {
        Some(b) => b,
        None => default,
    }
}

/// What the user wants to see, by the settings and by default.
pub open spec fn wanted(rows: Seq<(Seq<char>, Seq<char>)>) -> TraySettings {
    TraySettings {
        show_percent: shown_if(switch_of(rows, "menubar_show_percent"@), true),
        show_eta: shown_if(switch_of(rows, "menubar_show_eta"@), true),
        show_queue: shown_if(switch_of(rows, "menubar_show_queue"@), false),
        show_filename: shown_if(switch_of(rows, "menubar_show_filename"@), false),
        show_fps: shown_if(switch_of(rows, "menubar_show_fps"@), false),
    }
}

/// What the user wants to see in the menu bar.
pub fn read_tray_settings(rows: &Vec<(String, String)>) -> (r: TraySettings)
    ensures
        r == wanted(rows.deep_view()),
{
    TraySettings {
        show_percent: read_switch(rows, "menubar_show_percent") != Some(false),
        show_eta: read_switch(rows, "menubar_show_eta") != Some(false),
        show_queue: read_switch(rows, "menubar_show_queue") == Some(true),
        show_filename: read_switch(rows, "menubar_show_filename") == Some(true),
        show_fps: read_switch(rows, "menubar_show_fps") == Some(true),
    }
}

/// Seconds as minutes and seconds, the seconds in two digits.
pub open spec fn clock(seconds: nat) -> Seq<char> {
    let s = seconds % 60;
    decimal_text(seconds / 60) + (if s < 10 {
        ":0"@
    } else {
        ":"@
    }) + decimal_text(s)
}

/// Seconds as minutes and seconds.
fn clock_text(seconds: u64) -> (r: String)
    ensures
        r@ == clock(seconds as nat),
{
    let minutes: String = decimal_of(seconds / 60);
    let rest: u64 = seconds % 60;
    if rest < 10 {
        minutes.concat(":0").concat(&decimal_of(rest))
    } else {
        minutes.concat(":").concat(&decimal_of(rest))
    }
}

/// One part, if there is one.
pub open spec fn part(shown: bool, text: Seq<char>) -> Seq<Seq<char>> {
    if shown {
        seq![text]
    } else {
        Seq::empty()
    }
}

/// How many jobs wait, by the update or else by the count.
pub open spec fn waiting_jobs(update: TrayUpdate, counted: u64) -> u64 {
    match update.queue_count {
        Some(n) => n,
        None => counted,
    }
}

/// What the menu bar shows while a job is encoded, part by part.
pub open spec fn title_parts(update: TrayUpdate, settings: TraySettings, counted: u64) -> Seq<
    Seq<char>,
> {
    let waiting = waiting_jobs(update, counted);
    part(
        settings.show_percent && update.percent is Some,
        decimal_text(update.percent->0 as nat) + "%"@,
    ) + part(
        settings.show_eta && update.eta_seconds is Some && update.eta_seconds->0 > 0,
        "ETA "@ + clock(update.eta_seconds->0 as nat),
    ) + part(settings.show_queue && waiting > 0, "+"@ + decimal_text(waiting as nat)) + part(
        settings.show_filename && update.file_name is Some,
        short_title(update.file_name->0@),
    ) + part(
        settings.show_fps && update.fps is Some,
        decimal_text(update.fps->0 as nat) + "fps"@,
    )
}

/// Adds a text to a list.
proof fn lemma_add_part(parts: Seq<Seq<char>>, shown: bool, text: Seq<char>)
    ensures
        shown ==> parts + part(shown, text) == parts.push(text),
        !shown ==> parts + part(shown, text) == parts,
{
    if shown {
        assert(parts + part(shown, text) =~= parts.push(text));
    } else {
        assert(parts + part(shown, text) =~= parts);
    }
}

/// What the menu bar shows while a job is encoded. `counted` is how many jobs wait, where the
/// update does not tell.
pub fn encoding_title(update: &TrayUpdate, settings: TraySettings, counted: u64) -> (r: String)
    ensures
        r@ == join(title_parts(*update, settings, counted), " · "@),
{
    let mut parts: Vec<String> = Vec::new();
    let ghost mut pv: Seq<Seq<char>> = Seq::empty();
    assert(parts.deep_view() =~= pv);
    if settings.show_percent {
        match update.percent {
            Some(p) => {
                parts.push(decimal_of(p).concat("%"));
            },
            None => {},
        }
    }
    let ghost t1 = decimal_text(update.percent->0 as nat) + "%"@;
    let ghost c1 = settings.show_percent && update.percent is Some;
    proof {
        lemma_add_part(pv, c1, t1);
        pv = pv + part(c1, t1);
    }
    assert(parts.deep_view() =~= pv);
    if settings.show_eta {
        match update.eta_seconds {
            Some(eta) => {
                if eta > 0 {
                    parts.push(joined2("ETA ", &clock_text(eta)));
                }
            },
            None => {},
        }
    }
    let ghost t2 = "ETA "@ + clock(update.eta_seconds->0 as nat);
    let ghost c2 = settings.show_eta && update.eta_seconds is Some && update.eta_seconds->0 > 0;
    proof {
        lemma_add_part(pv, c2, t2);
        pv = pv + part(c2, t2);
    }
    assert(parts.deep_view() =~= pv);
    let waiting: u64 = match update.queue_count {
        Some(n) => n,
        None => counted,
    };
    if settings.show_queue && waiting > 0 {
        parts.push(joined2("+", &decimal_of(waiting)));
    }
    let ghost t3 = "+"@ + decimal_text(waiting as nat);
    let ghost c3 = settings.show_queue && waiting > 0;
    proof {
        lemma_add_part(pv, c3, t3);
        pv = pv + part(c3, t3);
    }
    assert(parts.deep_view() =~= pv);
    if settings.show_filename {
        match &update.file_name {
            Some(name) => {
                parts.push(truncate_tray_title(name));
            },
            None => {},
        }
    }
    let ghost t4 = short_title(update.file_name->0@);
    let ghost c4 = settings.show_filename && update.file_name is Some;
    proof {
        lemma_add_part(pv, c4, t4);
        pv = pv + part(c4, t4);
    }
    assert(parts.deep_view() =~= pv);
    if settings.show_fps {
        match update.fps {
            Some(f) => {
                parts.push(decimal_of(f).concat("fps"));
            },
            None => {},
        }
    }
    let ghost t5 = decimal_text(update.fps->0 as nat) + "fps"@;
    let ghost c5 = settings.show_fps && update.fps is Some;
    proof {
        lemma_add_part(pv, c5, t5);
        pv = pv + part(c5, t5);
    }
    assert(parts.deep_view() =~= pv);
    assert(pv =~= title_parts(*update, settings, counted));
    assert(parts.deep_view().skip(0) =~= parts.deep_view());
    joined_from(&parts, 0, " · ")
}

/// A text, or nothing.
pub open spec fn when(shown: bool, text: Seq<char>) -> Seq<char> {
    if shown {
        text
    } else {
        Seq::empty()
    }
}

/// What is shown at the icon while a job is encoded.
pub open spec fn encoding_words(update: TrayUpdate) -> Seq<char> {
    "ConvertBar"@ + when(
        update.file_name is Some,
        " — Converting "@ + update.file_name->0@,
    ) + when(update.percent is Some, " — "@ + decimal_text(update.percent->0 as nat) + "%"@) + when(
        update.eta_seconds is Some,
        " — ETA "@ + clock(update.eta_seconds->0 as nat),
    ) + when(
        update.queue_count is Some && update.queue_count->0 > 0,
        " — "@ + decimal_text(update.queue_count->0 as nat) + " queued"@,
    )
}

/// What is shown at the icon while a job is encoded.
pub fn encoding_tooltip(update: &TrayUpdate) -> (r: String)
    ensures
        r@ == encoding_words(*update),
{
    let mut r: String = "ConvertBar".to_owned();
    let ghost w1 = when(update.file_name is Some, " — Converting "@ + update.file_name->0@);
    let ghost w2 = when(
        update.percent is Some,
        " — "@ + decimal_text(update.percent->0 as nat) + "%"@,
    );
    let ghost w3 = when(
        update.eta_seconds is Some,
        " — ETA "@ + clock(update.eta_seconds->0 as nat),
    );
    let ghost w4 = when(
        update.queue_count is Some && update.queue_count->0 > 0,
        " — "@ + decimal_text(update.queue_count->0 as nat) + " queued"@,
    );
    match &update.file_name {
        Some(name) => {
            r.append(&joined2(" — Converting ", name));
        },
        None => {},
    }
    assert(r@ =~= "ConvertBar"@ + w1);
    match update.percent {
        Some(p) => {
            r.append(&joined2(" — ", &decimal_of(p)).concat("%"));
        },
        None => {},
    }
    assert(r@ =~= "ConvertBar"@ + w1 + w2);
    match update.eta_seconds {
        Some(eta) => {
            r.append(&joined2(" — ETA ", &clock_text(eta)));
        },
        None => {},
    }
    assert(r@ =~= "ConvertBar"@ + w1 + w2 + w3);
    match update.queue_count {
        Some(n) => {
            if n > 0 {
                r.append(&joined2(" — ", &decimal_of(n)).concat(" queued"));
            }
        },
        None => {},
    }
    assert(r@ =~= "ConvertBar"@ + w1 + w2 + w3 + w4);
    r
}

/// What the menu bar shows, and what is shown at the icon.
pub open spec fn face_of(update: TrayUpdate, settings: TraySettings, counted: u64) -> (
    Seq<char>,
    Seq<char>,
) {
    if update.status@ == "encoding"@ {
        (join(title_parts(update, settings, counted), " · "@), encoding_words(update))
    } else if update.status@ == "paused"@ {
        ("⏸"@, "ConvertBar — Paused"@)
    } else if update.status@ == "error"@ {
        ("!"@, "ConvertBar — Error"@)
    } else {
        (""@, "ConvertBar — No active conversions"@)
    }
}

/// What the menu bar shows, and what is shown at the icon.
pub fn tray_face(update: &TrayUpdate, settings: TraySettings, counted: u64) -> (r: (String, String))
    ensures
        (r.0@, r.1@) == face_of(*update, settings, counted),
{
    if same(&update.status, "encoding") {
        (encoding_title(update, settings, counted), encoding_tooltip(update))
    } else if same(&update.status, "paused") {
        ("⏸".to_owned(), "ConvertBar — Paused".to_owned())
    } else if same(&update.status, "error") {
        ("!".to_owned(), "ConvertBar — Error".to_owned())
    } else {
        ("".to_owned(), "ConvertBar — No active conversions".to_owned())
    }
}

/// Whether an error is to be shown until the user looks.
pub fn error_flag(status: &str, before: bool) -> (r: bool)
    ensures
        r == (if status@ == "encoding"@ {
            false
        } else if status@ == "error"@ {
            true
        } else {
            before
        }),
{
    if same(status, "encoding") {
        false
    } else if same(status, "error") {
        proof {
            reveal_strlit("encoding");
            reveal_strlit("error");
        }
        true
    } else {
        before
    }
}

/// Whether the face is to be cleared when the user opens the window: an error was shown and the
/// queue does not run.
pub fn clears_face(error_shown: bool, queue_running: bool) -> (r: bool)
    ensures
        r == (error_shown && !queue_running),
{
    error_shown && !queue_running
}

/// A number brought between two others.
pub open spec fn between(n: int, low: int, high: int) -> int {
    if n < low {
        low
    } else if n > high {
        high
    } else {
        n
    }
}

/// Where a window and a screen are, and how large.
#[derive(Debug, Clone, Copy, PartialEq, Eq, Structural)]
pub struct Area {
    pub x: i32,
    pub y: i32,
    pub width: i32,
    pub height: i32,
}

/// Whether a window can be brought onto a screen: its sides are no shorter than nothing, half the
/// window fits the height, and no place is beyond the numbers.
pub open spec fn confinable(window: Area, screen: Area) -> bool {
    &&& window.width >= 0 && window.height >= 0 && screen.width >= 0 && screen.height >= 0
    &&& window.height / 2 <= screen.height
    &&& i32::MIN <= screen.x - window.width / 2
    &&& screen.x + screen.width - window.width / 2 <= i32::MAX
    &&& screen.x + screen.width <= i32::MAX
    &&& screen.y + screen.height <= i32::MAX
}

/// Where a window goes so that half of it is on the screen on each axis, and its top is.
pub fn confine(window: Area, screen: Area) -> (r: (i32, i32))
    requires
        confinable(window, screen),
    ensures
        r.0 == between(
            window.x as int,
            screen.x - window.width / 2,
            screen.x + screen.width - window.width / 2,
        ),
        r.1 == between(
            window.y as int,
            screen.y as int,
            screen.y + screen.height - window.height / 2,
        ),
{
    let min_x: i32 = screen.x - window.width / 2;
    let max_x: i32 = screen.x + screen.width - window.width / 2;
    let min_y: i32 = screen.y;
    let max_y: i32 = screen.y + screen.height - window.height / 2;
    let x: i32 = if window.x < min_x {
        min_x
    } else if window.x > max_x {
        max_x
    } else {
        window.x
    };
    let y: i32 = if window.y < min_y {
        min_y
    } else if window.y > max_y {
        max_y
    } else {
        window.y
    };
    (x, y)
}

/// A window that was brought onto a screen stays where it is when it is brought there again.
pub proof fn confined_windows_stay(window: Area, screen: Area)
    requires
        confinable(window, screen),
    ensures
        ({
            let low = screen.x - window.width / 2;
            let high = screen.x + screen.width - window.width / 2;
            between(between(window.x as int, low, high), low, high) == between(
                window.x as int,
                low,
                high,
            )
        }),
        ({
            let low = screen.y as int;
            let high = screen.y + screen.height - window.height / 2;
            between(between(window.y as int, low, high), low, high) == between(
                window.y as int,
                low,
                high,
            )
        }),
{
}

/// Each part of the title is shown exactly where the user wants it and there is something to show,
/// in a fixed order; what there is nothing of is left out.
pub proof fn titles_show_what_is_wanted(update: TrayUpdate, settings: TraySettings, counted: u64)
    ensures
        ({
            let parts = title_parts(update, settings, counted);
            let waiting = match update.queue_count {
                Some(n) => n,
                None => counted,
            };
            &&& settings.show_percent && update.percent is Some ==> parts.len() > 0 && parts[0]
                == decimal_text(update.percent->0 as nat) + "%"@
            &&& settings.show_fps && update.fps is Some ==> parts.len() > 0 && parts.last()
                == decimal_text(update.fps->0 as nat) + "fps"@
            &&& settings.show_eta && update.eta_seconds is Some && update.eta_seconds->0 > 0
                ==> parts.contains("ETA "@ + clock(update.eta_seconds->0 as nat))
            &&& settings.show_queue && waiting > 0 ==> parts.contains(
                "+"@ + decimal_text(waiting as nat),
            )
            &&& settings.show_filename && update.file_name is Some ==> parts.contains(
                short_title(update.file_name->0@),
            )
            &&& parts.len() == count_if(settings.show_percent && update.percent is Some) + count_if(
                settings.show_eta && update.eta_seconds is Some && update.eta_seconds->0 > 0,
            ) + count_if(settings.show_queue && waiting > 0) + count_if(
                settings.show_filename && update.file_name is Some,
            ) + count_if(settings.show_fps && update.fps is Some)
        }),
{
    let waiting = waiting_jobs(update, counted);
    let parts = title_parts(update, settings, counted);
    let a = count_if(settings.show_percent && update.percent is Some);
    let b = count_if(settings.show_eta && update.eta_seconds is Some && update.eta_seconds->0 > 0);
    let c = count_if(settings.show_queue && waiting > 0);
    if b == 1 {
        assert(parts[a] == "ETA "@ + clock(update.eta_seconds->0 as nat));
    }
    if c == 1 {
        assert(parts[a + b] == "+"@ + decimal_text(waiting as nat));
    }
    if settings.show_filename && update.file_name is Some {
        assert(parts[a + b + c] == short_title(update.file_name->0@));
    }
}

/// One if something holds, else nothing.
pub open spec fn count_if(holds: bool) -> int {
    if holds {
        1
    } else {
        0
    }
}

/// A time is shown in minutes and seconds, the seconds in two digits.
pub proof fn times_are_shown_in_minutes_and_seconds(minutes: nat, seconds: nat)
    requires
        seconds < 60,
    ensures
        seconds >= 10 ==> clock(60 * minutes + seconds) == decimal_text(minutes) + ":"@
            + decimal_text(seconds),
        seconds < 10 ==> clock(60 * minutes + seconds) == decimal_text(minutes) + ":0"@
            + decimal_text(seconds),
{
    assert((60 * minutes + seconds) / 60 == minutes);
    assert((60 * minutes + seconds) % 60 == seconds);
}

/// Without word of the user the percentage and the time left are shown, and nothing else; a setting
/// that is stored is obeyed.
pub proof fn settings_say_what_is_shown(rows: Seq<(Seq<char>, Seq<char>)>, on: bool)
    ensures
        wanted(Seq::empty()) == (TraySettings {
            show_percent: true,
            show_eta: true,
            show_queue: false,
            show_filename: false,
            show_fps: false,
        }),
        switch_of(rows, "menubar_show_percent"@) == Some(on) ==> wanted(rows).show_percent == on,
        switch_of(rows, "menubar_show_eta"@) == Some(on) ==> wanted(rows).show_eta == on,
        switch_of(rows, "menubar_show_queue"@) == Some(on) ==> wanted(rows).show_queue == on,
        switch_of(rows, "menubar_show_filename"@) == Some(on) ==> wanted(rows).show_filename == on,
        switch_of(rows, "menubar_show_fps"@) == Some(on) ==> wanted(rows).show_fps == on,
{
}

/// A window is moved no further than it has to be: it stays where it fits, and else goes to the
/// nearer border.
pub proof fn windows_move_no_further_than_needed(n: int, low: int, high: int)
    requires
        low <= high,
    ensures
        low <= between(n, low, high) <= high,
        low <= n <= high ==> between(n, low, high) == n,
        n < low ==> between(n, low, high) == low,
        n > high ==> between(n, low, high) == high,
{
}

/// The icon tells what is going on: the title only while a job is encoded, and of a pause and an
/// error as such.
pub proof fn the_icon_tells_what_goes_on(update: TrayUpdate, settings: TraySettings, counted: u64)
    ensures
        update.status@ == "encoding"@ ==> face_of(update, settings, counted) == (
            join(title_parts(update, settings, counted), " · "@),
            encoding_words(update),
        ),
        update.status@ == "paused"@ ==> face_of(update, settings, counted) == (
            "⏸"@,
            "ConvertBar — Paused"@,
        ),
        update.status@ == "error"@ ==> face_of(update, settings, counted) == (
            "!"@,
            "ConvertBar — Error"@,
        ),
        update.status@ == "idle"@ ==> face_of(update, settings, counted) == (
            ""@,
            "ConvertBar — No active conversions"@,
        ),
{
    reveal_strlit("encoding");
    reveal_strlit("paused");
    reveal_strlit("error");
    reveal_strlit("idle");
    assert("encoding"@.len() == 8 && "paused"@.len() == 6 && "error"@.len() == 5 && "idle"@.len()
        == 4);
}


/// What is shown at the icon names the file, the percentage, the time left and the jobs that wait, as
/// far as they are told, in this order.
pub proof fn the_icon_names_what_is_told(update: TrayUpdate)
    ensures
        ({
            let words = encoding_words(update);
            let name = match update.file_name {
                Some(n) => " — Converting "@ + n@,
                None => Seq::empty(),
            };
            let percent = match update.percent {
                Some(p) => " — "@ + decimal_text(p as nat) + "%"@,
                None => Seq::empty(),
            };
            let eta = match update.eta_seconds {
                Some(t) => " — ETA "@ + clock(t as nat),
                None => Seq::empty(),
            };
            let queued = match update.queue_count {
                Some(n) => if n > 0 {
                    " — "@ + decimal_text(n as nat) + " queued"@
                } else {
                    Seq::empty()
                },
                None => Seq::empty(),
            };
            words == "ConvertBar"@ + name + percent + eta + queued
        }),
{
}


} // verus!
