//! The tile server as an OS background service (a `systemd` unit): the unit file, the
//! steps of installing, removing, starting and stopping it, how its state is read, and
//! the command line of the `tile-serviced` program.

use vstd::prelude::*;
use crate::paths::{joined, path_join};
use crate::text::{
    chars_of, concat2, join_with, push_arg, push_owned, push_str, starts_with, string_of,
    string_views, trim_ws, trim_ws_vec,
};

verus! {

/// Windows service key name.
pub const SERVICE_NAME: &'static str = "MapTileStudioTiles";

/// systemd unit name.
pub const UNIT_NAME: &'static str = "maptilestudio-tiles";

/// Human display name of the service.
pub const DISPLAY_NAME: &'static str = "Map Tile Studio Tile Service";

/// Where the tile service listens by default (all interfaces, so the LAN can reach it).
pub const DEFAULT_BIND: &'static str = "0.0.0.0:7765";

/// The unit's full name, `maptilestudio-tiles.service`.
pub open spec fn unit_service() -> Seq<char> {
    "maptilestudio-tiles.service"@
}

/// Where the unit file is written.
pub open spec fn unit_path_spec() -> Seq<char> {
    "/etc/systemd/system/maptilestudio-tiles.service"@
}

/// The systemd unit that runs `{exe} run --maps {maps} --bind {bind}` after the network
/// is up, restarting it on failure, for the multi-user target.
pub open spec fn unit_text(exe: Seq<char>, maps: Seq<char>, bind: Seq<char>) -> Seq<char> {
    "[Unit]\nDescription=Map Tile Studio Tile Service\nAfter=network-online.target\nWants=network-online.target\n\n[Service]\nType=simple\nExecStart="@
        + exe + " run --maps "@ + maps + " --bind "@ + bind
        + "\nRestart=on-failure\nRestartSec=2\n\n[Install]\nWantedBy=multi-user.target\n"@
}

/// The unit file of the service.
pub fn unit_file(exe: &str, maps: &str, bind: &str) -> (r: String)
    ensures
        r@ == unit_text(exe@, maps@, bind@),
{
    let mut v = chars_of(
        "[Unit]\nDescription=Map Tile Studio Tile Service\nAfter=network-online.target\nWants=network-online.target\n\n[Service]\nType=simple\nExecStart=",
    );
    push_str(&mut v, exe);
    push_str(&mut v, " run --maps ");
    push_str(&mut v, maps);
    push_str(&mut v, " --bind ");
    push_str(&mut v, bind);
    push_str(&mut v, "\nRestart=on-failure\nRestartSec=2\n\n[Install]\nWantedBy=multi-user.target\n");
    proof {
        reveal_strlit(
            "[Unit]\nDescription=Map Tile Studio Tile Service\nAfter=network-online.target\nWants=network-online.target\n\n[Service]\nType=simple\nExecStart=",
        );
        reveal_strlit(" run --maps ");
        reveal_strlit(" --bind ");
        reveal_strlit("\nRestart=on-failure\nRestartSec=2\n\n[Install]\nWantedBy=multi-user.target\n");
    }
    string_of(&v)
}

/// Where the unit file is written.
pub fn unit_path() -> (r: String)
    ensures
        r@ == unit_path_spec(),
{
    proof {
        reveal_strlit("/etc/systemd/system/maptilestudio-tiles.service");
    }
    "/etc/systemd/system/maptilestudio-tiles.service".to_string()
}

/// One step of managing the service.
pub enum ServiceStep {
    /// Write the unit file with this text.
    WriteUnit(String),
    /// Remove the unit file.
    RemoveUnit,
    /// Run `systemctl` with these arguments; a failure aborts only when it must succeed.
    Systemctl { args: Vec<String>, must_succeed: bool },
}

/// `systemctl` with the given arguments.
fn systemctl(args: Vec<String>, must_succeed: bool) -> (r: ServiceStep)
    ensures
        r matches ServiceStep::Systemctl { args: a, must_succeed: m } && a == args && m
            == must_succeed,
{
    ServiceStep::Systemctl { args, must_succeed }
}

/// `[verb, "maptilestudio-tiles.service"]`, optionally with `--now` between.
fn unit_args(verb: &str, now: bool) -> (r: Vec<String>)
    ensures
        string_views(r@) == seq![verb@] + (if now {
            seq!["--now"@]
        } else {
            Seq::empty()
        }) + seq![unit_service()],
{
    let mut a: Vec<String> = Vec::new();
    push_arg(&mut a, verb);
    if now {
        push_arg(&mut a, "--now");
    }
    proof {
        reveal_strlit("maptilestudio-tiles.service");
    }
    push_arg(&mut a, "maptilestudio-tiles.service");
    assert(string_views(a@) =~= seq![verb@] + (if now {
        seq!["--now"@]
    } else {
        Seq::empty()
    }) + seq![unit_service()]);
    a
}

/// `daemon-reload`.
fn reload_args() -> (r: Vec<String>)
    ensures
        string_views(r@) == seq!["daemon-reload"@],
{
    let mut a: Vec<String> = Vec::new();
    push_arg(&mut a, "daemon-reload");
    assert(string_views(a@) =~= seq!["daemon-reload"@]);
    a
}

/// Register and start the service: write the unit, reload systemd, enable and start it.
pub fn install(exe: &str, maps: &str, bind: &str) -> (r: Vec<ServiceStep>)
    ensures
        r@.len() == 3,
        r@[0] matches ServiceStep::WriteUnit(t) && t@ == unit_text(exe@, maps@, bind@),
        r@[1] matches ServiceStep::Systemctl { args, must_succeed } && must_succeed
            && string_views(args@) == seq!["daemon-reload"@],
        r@[2] matches ServiceStep::Systemctl { args, must_succeed } && must_succeed
            && string_views(args@) == seq!["enable"@, "--now"@, unit_service()],
{
    let mut steps: Vec<ServiceStep> = Vec::new();
    steps.push(ServiceStep::WriteUnit(unit_file(exe, maps, bind)));
    steps.push(systemctl(reload_args(), true));
    let a = unit_args("enable", true);
    proof {
        reveal_strlit("enable");
    }
    steps.push(systemctl(a, true));
    steps
}

/// Stop and remove the service: disable it (a failure is ignored), remove the unit,
/// reload systemd.
pub fn uninstall() -> (r: Vec<ServiceStep>)
    ensures
        r@.len() == 3,
        r@[0] matches ServiceStep::Systemctl { args, must_succeed } && !must_succeed
            && string_views(args@) == seq!["disable"@, "--now"@, unit_service()],
        r@[1] is RemoveUnit,
        r@[2] matches ServiceStep::Systemctl { args, must_succeed } && must_succeed
            && string_views(args@) == seq!["daemon-reload"@],
{
    let mut steps: Vec<ServiceStep> = Vec::new();
    let a = unit_args("disable", true);
    proof {
        reveal_strlit("disable");
    }
    steps.push(systemctl(a, false));
    steps.push(ServiceStep::RemoveUnit);
    steps.push(systemctl(reload_args(), true));
    steps
}

/// Start (`true`) or stop (`false`) the installed service.
pub fn set_running(start: bool) -> (r: Vec<ServiceStep>)
    ensures
        r@.len() == 1,
        r@[0] matches ServiceStep::Systemctl { args, must_succeed } && must_succeed
            && string_views(args@) == seq![
            if start {
                "start"@
            } else {
                "stop"@
            },
            unit_service(),
        ],
{
    let verb = if start {
        "start"
    } else {
        "stop"
    };
    proof {
        reveal_strlit("start");
        reveal_strlit("stop");
    }
    let a = unit_args(verb, false);
    let mut steps: Vec<ServiceStep> = Vec::new();
    steps.push(systemctl(a, true));
    steps
}

/// The arguments of `systemctl is-active` on the unit.
pub fn status_args() -> (r: Vec<String>)
    ensures
        string_views(r@) == seq!["is-active"@, unit_service()],
{
    let a = unit_args("is-active", false);
    proof {
        reveal_strlit("is-active");
    }
    a
}

/// The state reported for the service: the trimmed answer of `systemctl is-active`,
/// or `not installed` when it could not run or said nothing.
pub open spec fn status_spec(stdout: Option<Seq<char>>) -> Seq<char> {
    match stdout {
        Some(s) => if trim_ws(s).len() > 0 {
            trim_ws(s)
        } else {
            "not installed"@
        },
        None => "not installed"@,
    }
}

/// Human-readable service state, from the output of `systemctl is-active`.
pub fn status(stdout: Option<String>) -> (r: String)
    ensures
        r@ == status_spec(crate::text::opt_view(stdout)),
{
    proof {
        reveal_strlit("not installed");
    }
    match stdout {
        Some(s) => {
            let t = trim_ws_vec(&chars_of(s.as_str()));
            if t.len() > 0 {
                string_of(&t)
            } else {
                "not installed".to_string()
            }
        },
        None => "not installed".to_string(),
    }
}

/// The error of a `systemctl` run that failed.
pub open spec fn systemctl_failed_spec(args: Seq<Seq<char>>) -> Seq<char> {
    "`systemctl "@ + join_with(args, " "@) + "` failed (need root?)"@
}

/// The error of a `systemctl` run that failed.
pub fn systemctl_failed(args: &Vec<String>) -> (r: String)
    ensures
        r@ == systemctl_failed_spec(string_views(args@)),
{
    let mut v = chars_of("`systemctl ");
    let j = crate::text::join_strings(args, " ");
    push_str(&mut v, j.as_str());
    push_str(&mut v, "` failed (need root?)");
    proof {
        reveal_strlit("`systemctl ");
        reveal_strlit("` failed (need root?)");
    }
    string_of(&v)
}

// ---------------------------------------------------------------------------
// the tile-serviced command line
// ---------------------------------------------------------------------------

/// What the `tile-serviced` command line asks for.
pub struct ServiceCli {
    /// `--help` / `-h` was given.
    pub help: bool,
    /// The command (`run`, `install`, ...), empty when none was given.
    pub command: String,
    /// `--maps <dir>`.
    pub maps: Option<String>,
    /// `--bind <addr:port>`.
    pub bind: Option<String>,
}

/// What the arguments from position `i` on leave of the command line, given the command,
/// maps folder and bind address read so far: `--help`/`-h` stops parsing; `--maps` and
/// `--bind` take the next argument (none when it is missing, which ends the arguments);
/// the first argument not starting with `-` is the command; anything else is ignored.
/// The result is `(help, command, maps, bind)`.
pub open spec fn cli_from(
    args: Seq<Seq<char>>,
    i: int,
    cmd: Seq<char>,
    maps: Option<Seq<char>>,
    bind: Option<Seq<char>>,
) -> (bool, Seq<char>, Option<Seq<char>>, Option<Seq<char>>)
    decreases args.len() - i,
{
    if i < 0 || i >= args.len() {
        (false, cmd, maps, bind)
    } else if args[i] == "--help"@ || args[i] == "-h"@ {
        (true, cmd, maps, bind)
    } else if args[i] == "--maps"@ {
        if i + 1 < args.len() {
            cli_from(args, i + 2, cmd, Some(args[i + 1]), bind)
        } else {
            (false, cmd, None, bind)
        }
    } else if args[i] == "--bind"@ {
        if i + 1 < args.len() {
            cli_from(args, i + 2, cmd, maps, Some(args[i + 1]))
        } else {
            (false, cmd, maps, None)
        }
    } else if !starts_with(args[i], "-"@) && cmd.len() == 0 {
        cli_from(args, i + 1, args[i], maps, bind)
    } else {
        cli_from(args, i + 1, cmd, maps, bind)
    }
}

/// What a whole command line asks for.
pub open spec fn service_cli_spec(args: Seq<Seq<char>>) -> (
    bool,
    Seq<char>,
    Option<Seq<char>>,
    Option<Seq<char>>,
) {
    cli_from(args, 0, Seq::empty(), None, None)
}

/// Parse the arguments (after the program name).
pub fn parse_service_args(args: &Vec<String>) -> (r: ServiceCli)
    ensures
        (r.help, r.command@, crate::text::opt_view(r.maps), crate::text::opt_view(r.bind))
            == service_cli_spec(string_views(args@)),
{
    let ghost av = string_views(args@);
    let mut command = String::new();
    let mut maps: Option<String> = None;
    let mut bind: Option<String> = None;
    let mut i: usize = 0;
    proof {
        reveal_strlit("--help");
        reveal_strlit("-h");
        reveal_strlit("--maps");
        reveal_strlit("--bind");
        reveal_strlit("-");
    }
    while i < args.len()
        invariant
            i <= args@.len(),
            av == string_views(args@),
            service_cli_spec(av) == cli_from(
                av,
                i as int,
                command@,
                crate::text::opt_view(maps),
                crate::text::opt_view(bind),
            ),
        decreases args.len() - i,
    {
        let a = args[i].as_str();
        assert(av[i as int] == a@);
        let av_i = chars_of(a);
        let is_help = crate::decimal::eq_chars(&av_i, &chars_of("--help"))
            || crate::decimal::eq_chars(&av_i, &chars_of("-h"));
        if is_help {
            return ServiceCli { help: true, command, maps, bind };
        }
        if crate::decimal::eq_chars(&av_i, &chars_of("--maps")) {
            if i + 1 < args.len() {
                assert(av[i + 1] == args@[i + 1]@);
                maps = Some(args[i + 1].clone());
                i = i + 1;
            } else {
                return ServiceCli { help: false, command, maps: None, bind };
            }
        } else if crate::decimal::eq_chars(&av_i, &chars_of("--bind")) {
            if i + 1 < args.len() {
                assert(av[i + 1] == args@[i + 1]@);
                bind = Some(args[i + 1].clone());
                i = i + 1;
            } else {
                return ServiceCli { help: false, command, maps, bind: None };
            }
        } else {
            let v = chars_of(a);
            if !crate::text::starts_with_str(&v, "-") && command.as_str().is_empty() {
                command = a.to_string();
            }
        }
        i = i + 1;
    }
    ServiceCli { help: false, command, maps, bind }
}

/// The default maps folder: `MapTileStudio/maps` under the local application data
/// directory (`LOCALAPPDATA` on Windows, `~/.local/share` elsewhere), else under the
/// temporary directory.
pub fn default_maps_dir(base: Option<String>, temp_dir: &str) -> (r: String)
    ensures
        exists|b: Seq<char>, app: Seq<char>|
            (b == match base {
                Some(x) => x@,
                None => temp_dir@,
            }) && joined(app, b, "MapTileStudio"@) && joined(r@, app, "maps"@),
{
    proof {
        reveal_strlit("MapTileStudio");
        reveal_strlit("maps");
    }
    let b = match base {
        Some(x) => x,
        None => temp_dir.to_string(),
    };
    let app = path_join(b.as_str(), "MapTileStudio");
    path_join(app.as_str(), "maps")
}

/// `dir` is `home/.local/share` (and there is one exactly when there is a home).
pub open spec fn share_under_home(dir: Option<String>, home: Option<String>) -> bool {
    match (dir, home) {
        (Some(x), Some(h)) => exists|l: Seq<char>|
            joined(l, h@, ".local"@) && joined(x@, l, "share"@),
        (None, None) => true,
        _ => false,
    }
}

/// The local application data directory of the current user: `LOCALAPPDATA` on Windows,
/// `$HOME/.local/share` elsewhere.
pub fn local_data_dir(windows: bool, local_app_data: Option<String>, home: Option<String>) -> (r: Option<String>)
    ensures
        windows ==> r == local_app_data,
        !windows ==> share_under_home(r, home),
{
    if windows {
        return local_app_data;
    }
    proof {
        reveal_strlit(".local");
        reveal_strlit("share");
    }
    match home {
        Some(h) => {
            let l = path_join(h.as_str(), ".local");
            let x = path_join(l.as_str(), "share");
            assert(joined(l@, h@, ".local"@) && joined(x@, l@, "share"@));
            assert(exists|w: Seq<char>| joined(w, h@, ".local"@) && joined(x@, w, "share"@));
            Some(x)
        },
        None => None,
    }
}

} // verus!
