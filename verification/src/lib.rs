//! Verified core of the tile map studio.
#![allow(unused_imports)]

pub mod text;
pub mod model;
pub mod decimal;
pub mod tokens;
pub mod crs;
pub mod paths;
pub mod pgconfig;
pub mod pgsql;
pub mod pgcmd;
pub mod pgimport;
pub mod errors;
pub mod gdalenv;
pub mod pipeline;
pub mod tileserver;
pub mod inspect;
pub mod validation;
pub mod ordering;
pub mod registry;
pub mod embed;
pub mod service;
pub mod studio;
pub mod catalog;
pub mod cli;
