use map_tile_studio::embed::{
    configured_conf, createdb_args, db_step, default_data_dir, find_proj_lib, initdb_args,
    proj_lib_choice, any_yes, files_in_order, grant_access_args,
    psql_args, run_plan, same_dir_text, start_args, stop_args, CmdOutcome, DbAction, DbPhase,
    PgEmbed, RunPlan,
};
use map_tile_studio::pgconfig::PgConnection;
use map_tile_studio::service::{
    default_maps_dir, install, local_data_dir, parse_service_args, set_running, status,
    status_args, systemctl_failed, uninstall, unit_file, unit_path, ServiceStep, DEFAULT_BIND,
};

fn strs(v: &[&str]) -> Vec<String> {
    v.iter().map(|s| s.to_string()).collect()
}

fn out(success: bool, stdout: &str, stderr: &str) -> Option<CmdOutcome> {
    Some(CmdOutcome { success, stdout: stdout.to_string(), stderr: stderr.to_string() })
}

#[test]
fn embed_layout() {
    let e = PgEmbed::new(
        "/app/pgsql".to_string(),
        "/data/pgdata".to_string(),
        "/app/pgsql/share/ext",
        &strs(&["postgis-3.5", "other"]),
    );
    assert_eq!(e.root, "/app/pgsql");
    assert_eq!(e.bin, "/app/pgsql/bin");
    assert_eq!(e.data, "/data/pgdata");
    assert_eq!(e.proj_lib, "/app/pgsql/share/ext/postgis-3.6/proj");
    assert!(!e.binaries_present());
    assert!(!e.is_initialized());
    assert_eq!(find_proj_lib("/x", &vec![]), "/x/postgis-3.6/proj");
    assert_eq!(default_data_dir("/data/MapTileStudio/maps"), "/data/MapTileStudio/pgdata");
}

#[test]
fn conf_is_appended_once() {
    let body = "shared_buffers = 128MB\n";
    let once = configured_conf(body, 5433).unwrap();
    assert_eq!(
        once,
        "shared_buffers = 128MB\n\n# map-tile-studio\nport = 5433\nlisten_addresses = '127.0.0.1'\nmax_connections = 50\n"
    );
    assert_eq!(configured_conf(&once, 5433), None);
}

#[test]
fn postgres_tool_arguments() {
    assert_eq!(
        initdb_args("/d", "postgres", "/tmp/pw"),
        strs(&["-D", "/d", "-U", "postgres", "-A", "scram-sha-256", "--pwfile=/tmp/pw", "-E", "UTF8", "--locale=C"])
    );
    assert_eq!(
        start_args("/d", "/d/log.txt", 5433),
        strs(&["-D", "/d", "-l", "/d/log.txt", "-o", "-p 5433", "-w", "start"])
    );
    assert_eq!(stop_args("/d"), strs(&["-D", "/d", "-m", "fast", "-w", "stop"]));
    assert_eq!(
        psql_args(5433, "postgres", "gis", "SELECT 1"),
        strs(&["-h", "127.0.0.1", "-p", "5433", "-U", "postgres", "-d", "gis", "-tAc", "SELECT 1"])
    );
    assert_eq!(
        createdb_args(5433, "postgres", "gis"),
        strs(&["-h", "127.0.0.1", "-p", "5433", "-U", "postgres", "gis"])
    );
}

#[test]
fn directories_compare_by_text() {
    assert!(same_dir_text("C:\\Data\\PgData\\", "c:/data/pgdata"));
    assert!(!same_dir_text("/a/b", "/a/c"));
}

#[test]
fn run_plans() {
    match run_plan("/app/pg", "/d", false, false, false, false) {
        RunPlan::Fail(m) => assert_eq!(m, "bundled PostgreSQL not found at /app/pg"),
        _ => panic!("no binaries"),
    }
    assert!(matches!(run_plan("/r", "/d", true, true, false, true), RunPlan::EnsureDatabase));
    assert!(matches!(run_plan("/r", "/d", true, false, true, true), RunPlan::ConfigureStartEnsure));
    assert!(matches!(run_plan("/r", "/d", true, false, false, false), RunPlan::InitConfigureStartEnsure));
    match run_plan("/r", "/d", true, false, false, true) {
        RunPlan::Fail(m) => assert!(m.starts_with(
            "the PostgreSQL data directory looks broken (no PG_VERSION but not empty): /d."
        )),
        _ => panic!("half-initialised data directory"),
    }
}

#[test]
fn ensure_database_steps() {
    let c = PgConnection::bundled_default();
    let (p, a) = db_step(&c, DbPhase::Start, None, false);
    assert!(matches!(p, DbPhase::AskedDataDir));
    match a {
        DbAction::Psql { db, sql } => {
            assert_eq!(db, "postgres");
            assert_eq!(sql, "SHOW data_directory");
        }
        _ => panic!("first asks for the data directory"),
    }
    let (_, a) = db_step(&c, DbPhase::AskedDataDir, out(false, "", " refused \n"), false);
    match a {
        DbAction::Finish(Err(m)) => {
            assert_eq!(m, "could not reach the bundled PostgreSQL on port 5433: refused")
        }
        _ => panic!("unreachable server"),
    }
    let (_, a) = db_step(&c, DbPhase::AskedDataDir, out(true, " /other\n", ""), false);
    match a {
        DbAction::Finish(Err(m)) => assert!(m.starts_with(
            "port 5433 is in use by a different PostgreSQL (data dir: /other)."
        )),
        _ => panic!("foreign server"),
    }
    let (p, a) = db_step(&c, DbPhase::AskedDataDir, out(true, "/mine", ""), true);
    assert!(matches!(p, DbPhase::AskedExists));
    match a {
        DbAction::Psql { db, sql } => {
            assert_eq!(db, "postgres");
            assert_eq!(sql, "SELECT 1 FROM pg_database WHERE datname='gis'");
        }
        _ => panic!("asks whether the database exists"),
    }
    let (p, a) = db_step(&c, DbPhase::AskedExists, out(true, "", ""), true);
    assert!(matches!(p, DbPhase::RanCreatedb) && matches!(a, DbAction::Createdb));
    let (p, a) = db_step(&c, DbPhase::AskedExists, out(true, " 1\n", ""), true);
    assert!(matches!(p, DbPhase::RanExtension));
    match a {
        DbAction::Psql { db, sql } => {
            assert_eq!(db, "gis");
            assert_eq!(sql, "CREATE EXTENSION IF NOT EXISTS postgis");
        }
        _ => panic!("enables PostGIS"),
    }
    match db_step(&c, DbPhase::RanCreatedb, out(false, "", "exists"), true).1 {
        DbAction::Finish(Err(m)) => assert_eq!(m, "createdb gis failed: exists"),
        _ => panic!("createdb failed"),
    }
    match db_step(&c, DbPhase::RanExtension, out(false, "", " no postgis "), true).1 {
        DbAction::Finish(Err(m)) => assert_eq!(m, "enabling postgis failed: no postgis"),
        _ => panic!("extension failed"),
    }
    assert!(matches!(
        db_step(&c, DbPhase::RanExtension, out(true, "", ""), true).1,
        DbAction::Finish(Ok(()))
    ));
}

#[test]
fn systemd_unit() {
    let u = unit_file("/usr/bin/tile-serviced", "/srv/maps", DEFAULT_BIND);
    assert!(u.starts_with("[Unit]\nDescription=Map Tile Studio Tile Service\n"));
    assert!(u.contains("\nExecStart=/usr/bin/tile-serviced run --maps /srv/maps --bind 0.0.0.0:7765\n"));
    assert!(u.ends_with("[Install]\nWantedBy=multi-user.target\n"));
    assert_eq!(unit_path(), "/etc/systemd/system/maptilestudio-tiles.service");
}

fn systemctl_args(s: &ServiceStep) -> (Vec<String>, bool) {
    match s {
        ServiceStep::Systemctl { args, must_succeed } => (args.clone(), *must_succeed),
        _ => panic!("expected a systemctl step"),
    }
}

#[test]
fn service_step_plans() {
    let i = install("/e", "/m", "0.0.0.0:1");
    assert_eq!(i.len(), 3);
    assert!(matches!(&i[0], ServiceStep::WriteUnit(t) if t.contains("ExecStart=/e run --maps /m --bind 0.0.0.0:1")));
    assert_eq!(systemctl_args(&i[1]), (strs(&["daemon-reload"]), true));
    assert_eq!(systemctl_args(&i[2]), (strs(&["enable", "--now", "maptilestudio-tiles.service"]), true));
    let u = uninstall();
    assert_eq!(systemctl_args(&u[0]), (strs(&["disable", "--now", "maptilestudio-tiles.service"]), false));
    assert!(matches!(u[1], ServiceStep::RemoveUnit));
    assert_eq!(systemctl_args(&u[2]), (strs(&["daemon-reload"]), true));
    assert_eq!(systemctl_args(&set_running(true)[0]), (strs(&["start", "maptilestudio-tiles.service"]), true));
    assert_eq!(systemctl_args(&set_running(false)[0]), (strs(&["stop", "maptilestudio-tiles.service"]), true));
    assert_eq!(status_args(), strs(&["is-active", "maptilestudio-tiles.service"]));
    assert_eq!(status(Some(" active\n".to_string())), "active");
    assert_eq!(status(Some("\n".to_string())), "not installed");
    assert_eq!(status(None), "not installed");
    assert_eq!(
        systemctl_failed(&strs(&["enable", "--now", "x"])),
        "`systemctl enable --now x` failed (need root?)"
    );
}

#[test]
fn service_arguments() {
    let c = parse_service_args(&strs(&["install", "--maps", "/srv/maps", "--bind", "0.0.0.0:80"]));
    assert!(!c.help);
    assert_eq!(c.command, "install");
    assert_eq!(c.maps.as_deref(), Some("/srv/maps"));
    assert_eq!(c.bind.as_deref(), Some("0.0.0.0:80"));
    let h = parse_service_args(&strs(&["--maps", "/m", "-h", "run"]));
    assert!(h.help);
    assert_eq!(h.command, "");
    let e = parse_service_args(&strs(&["--maps"]));
    assert_eq!(e.maps, None);
    assert_eq!(e.command, "");
}

#[test]
fn default_directories() {
    assert_eq!(default_maps_dir(Some("/home/u/.local/share".to_string()), "/tmp"), "/home/u/.local/share/MapTileStudio/maps");
    assert_eq!(default_maps_dir(None, "/tmp"), "/tmp/MapTileStudio/maps");
    assert_eq!(local_data_dir(false, None, Some("/home/u".to_string())), Some("/home/u/.local/share".to_string()));
    assert_eq!(local_data_dir(false, None, None), None);
    assert_eq!(local_data_dir(true, Some("C:\\L".to_string()), None), Some("C:\\L".to_string()));
}

#[test]
fn proj_lib_follows_the_answers() {
    let dirs = vec!["postgis-3.4".to_string(), "other".to_string(), "postgis-3.5".to_string()];
    assert_eq!(proj_lib_choice("/pg/share/contrib", &dirs, &vec![false, false, true]), "/pg/share/contrib/postgis-3.5/proj");
    assert_eq!(proj_lib_choice("/pg/share/contrib", &dirs, &vec![true]), "/pg/share/contrib/postgis-3.4/proj");
    assert_eq!(proj_lib_choice("/pg/share/contrib", &dirs, &vec![false, false, false]), "/pg/share/contrib/postgis-3.6/proj");
    let e = PgEmbed::new("/no/such/pg".to_string(), "/no/such/data".to_string(), "/no/such/pg/share/contrib", &dirs);
    assert_eq!(e.proj_lib, "/no/such/pg/share/contrib/postgis-3.6/proj");
}

#[test]
fn cluster_probes() {
    let e = PgEmbed::new("/pg".to_string(), "/pgdata".to_string(), "/pg/share/contrib", &vec![]);
    assert_eq!(e.postgres_binaries(), vec!["/pg/bin/postgres.exe".to_string(), "/pg/bin/postgres".to_string()]);
    assert_eq!(e.pg_version_file(), "/pgdata/PG_VERSION");
    assert_eq!(files_in_order(&vec!["/no/such".to_string(), "/bin/sh".to_string()]), vec![false, true]);
    assert!(any_yes(&vec![false, true]) && !any_yes(&vec![false, false]) && !any_yes(&vec![]));
    assert_eq!(grant_access_args("C:\\pgdata"), vec!["C:\\pgdata", "/grant", "*S-1-5-32-545:(OI)(CI)F", "/T", "/Q"]);
}
