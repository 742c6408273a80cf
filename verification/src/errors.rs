//! What can go wrong while inspecting, generating or validating a tile map, and the
//! message each failure is reported with.

use vstd::prelude::*;
use crate::text::{chars_of, decimal, push_decimal, push_str, string_of};

verus! {

/// A failure of the tiler engine.
#[derive(Debug)]
pub enum TilerError {
    /// The GDAL toolchain could not be located; the directories that were tried.
    GdalNotFound(String),
    /// A required GDAL tool was missing from an otherwise valid install.
    GdalToolMissing(String, String),
    /// An external command exited with a non-zero status.
    CommandFailed { cmd: String, status: String, stderr: String },
    /// No input files were supplied.
    NoInputs,
    /// A supplied input path does not exist.
    InputMissing(String),
    /// `gdalinfo` produced output that could not be understood.
    InspectParse { path: String, reason: String },
    /// A computed zoom range was empty.
    BadZoomRange { min: u8, max: u8 },
    /// Any other engine-level problem, with its message.
    Other(String),
}

/// The message of a failure.
pub open spec fn tiler_error_message(e: TilerError) -> Seq<char> {
    match e {
        TilerError::GdalNotFound(t) => "GDAL was not found. Install GDAL (e.g. OSGeo4W on Windows) or set MARTIN_GDAL_PREFIX/MARTIN_GDAL_BIN. Tried: "@
            + t@,
        TilerError::GdalToolMissing(tool, dir) => "required GDAL tool `"@ + tool@
            + "` was not found in the GDAL installation at "@ + dir@,
        TilerError::CommandFailed { cmd, status, stderr } => "command `"@ + cmd@
            + "` failed with status "@ + status@ + ":\n"@ + stderr@,
        TilerError::NoInputs => "no input rasters were supplied"@,
        TilerError::InputMissing(p) => "input raster does not exist: "@ + p@,
        TilerError::InspectParse { path, reason } => "could not parse gdalinfo output for "@ + path@
            + ": "@ + reason@,
        TilerError::BadZoomRange { min, max } => "invalid zoom range: min_zoom ("@ + decimal(
            min as nat,
        ) + ") must be <= max_zoom ("@ + decimal(max as nat) + ")"@,
        TilerError::Other(m) => m@,
    }
}

impl TilerError {
    /// The message the failure is reported with.
    pub fn message(&self) -> (r: String)
        ensures
            r@ == tiler_error_message(*self),
    {
        match self {
            TilerError::GdalNotFound(t) => {
                let mut v = chars_of(
                    "GDAL was not found. Install GDAL (e.g. OSGeo4W on Windows) or set MARTIN_GDAL_PREFIX/MARTIN_GDAL_BIN. Tried: ",
                );
                push_str(&mut v, t.as_str());
                proof {
                    reveal_strlit(
                        "GDAL was not found. Install GDAL (e.g. OSGeo4W on Windows) or set MARTIN_GDAL_PREFIX/MARTIN_GDAL_BIN. Tried: ",
                    );
                }
                string_of(&v)
            },
            TilerError::GdalToolMissing(tool, dir) => {
                let mut v = chars_of("required GDAL tool `");
                push_str(&mut v, tool.as_str());
                push_str(&mut v, "` was not found in the GDAL installation at ");
                push_str(&mut v, dir.as_str());
                proof {
                    reveal_strlit("required GDAL tool `");
                    reveal_strlit("` was not found in the GDAL installation at ");
                }
                string_of(&v)
            },
            TilerError::CommandFailed { cmd, status, stderr } => {
                let mut v = chars_of("command `");
                push_str(&mut v, cmd.as_str());
                push_str(&mut v, "` failed with status ");
                push_str(&mut v, status.as_str());
                push_str(&mut v, ":\n");
                push_str(&mut v, stderr.as_str());
                proof {
                    reveal_strlit("command `");
                    reveal_strlit("` failed with status ");
                    reveal_strlit(":\n");
                }
                string_of(&v)
            },
            TilerError::NoInputs => {
                proof {
                    reveal_strlit("no input rasters were supplied");
                }
                "no input rasters were supplied".to_string()
            },
            TilerError::InputMissing(p) => {
                let mut v = chars_of("input raster does not exist: ");
                push_str(&mut v, p.as_str());
                proof {
                    reveal_strlit("input raster does not exist: ");
                }
                string_of(&v)
            },
            TilerError::InspectParse { path, reason } => {
                let mut v = chars_of("could not parse gdalinfo output for ");
                push_str(&mut v, path.as_str());
                push_str(&mut v, ": ");
                push_str(&mut v, reason.as_str());
                proof {
                    reveal_strlit("could not parse gdalinfo output for ");
                    reveal_strlit(": ");
                }
                string_of(&v)
            },
            TilerError::BadZoomRange { min, max } => {
                let mut v = chars_of("invalid zoom range: min_zoom (");
                push_decimal(&mut v, *min as u64);
                push_str(&mut v, ") must be <= max_zoom (");
                push_decimal(&mut v, *max as u64);
                push_str(&mut v, ")");
                proof {
                    reveal_strlit("invalid zoom range: min_zoom (");
                    reveal_strlit(") must be <= max_zoom (");
                    reveal_strlit(")");
                }
                string_of(&v)
            },
            TilerError::Other(m) => m.clone(),
        }
    }
}

} // verus!
