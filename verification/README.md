# map_tile_studio

Tools for turning GeoTIFF imagery and PostGIS tables into web map tiles: a
command-line tiler (inspect, generate, validate), a small tile server, a
background service and the desktop studio's PostGIS commands.

## Layout

- `src/` is the library. Its functions carry `requires`/`ensures` contracts
  that Verus proves (the small trusted wrappers around std and outside crates say
  only what those document): command lines handed to GDAL, PostgreSQL and
  systemctl, SQL and libpq quoting, the CRS repair for Bangladesh imagery,
  `gdalinfo` parsing, tile URL routing, stage plans and zoom ranges, archive
  validation verdicts, the embedded-database and job state machines, and the
  source registry. Public proof functions state the laws that hold across
  calls (quoting reads back, flips undo themselves, ids stay fresh, logs stay
  bounded, and so on).
- `tests/` runs the library on concrete values.
- `app/` is the unverified shell: argument parsing, processes, files, SQLite,
  HTTP (the tile server and the studio's `/studio/*` API) and PostgreSQL I/O, and
  everything that computes with floating point.
  It hands plain values to the library and acts on what comes back.

Where the file system or the platform decides (does a file exist, is a path inside a
directory), the library builds the paths it asks about with verified functions, asks
in a fixed order, and hands the answers to a verified function whose contract says
exactly what follows from each answer; the function that asks states the order and
that its result is what the answers give.

Calls into outside crates that the library needs (`regex`, `percent-encoding`,
`num_cpus`, `martin-tile-utils`, parts of `std::path`) sit behind small
trusted wrappers whose contracts say only what those crates document.
