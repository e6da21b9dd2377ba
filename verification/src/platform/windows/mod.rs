//! The Windows side: the `winws` engine as a service, its driver, elevation.
use vstd::prelude::*;

use crate::platform::bool_text;
use crate::text::{cat3, trim};

pub mod elevate;
pub mod runtime;
pub mod service;
pub mod strategy;

verus! {

use crate::platform::bool_word;
use crate::text::trimmed;

/// The Windows platform. It has no state of its own.
#[derive(Clone, Copy, PartialEq, Eq, Structural, Debug)]
pub struct WindowsPlatform;

impl WindowsPlatform {
    /// The platform.
    pub fn new() -> (r: Self)
        ensures
            r == WindowsPlatform,
    {
        WindowsPlatform
    }
}

/// Which files of the engine are there.
#[derive(Clone, Copy, PartialEq, Eq, Structural, Debug)]
pub struct EngineFiles {
    pub winws: bool,
    pub dll: bool,
    pub sys: bool,
}

/// Whether the engine is installed: all its files are there. Nothing is without a core.
pub fn engine_installed(files: Option<EngineFiles>) -> (r: bool)
    ensures
        r == (match files {
            Some(f) => f.winws && f.dll && f.sys,
            None => false,
        }),
{
    match files {
        Some(f) => f.winws && f.dll && f.sys,
        None => false,
    }
}

/// The readiness of the engine in one line.
pub fn engine_diag(files: Option<EngineFiles>, version: Option<&str>) -> (r: String)
    ensures
        r@ == (match files {
            Some(f) => "winws.exe="@ + bool_word(f.winws) + " WinDivert.dll="@ + bool_word(f.dll)
                + " WinDivert64.sys="@ + bool_word(f.sys) + " version="@ + (match version {
                Some(v) => v@,
                None => "нет"@,
            }),
            None => "ядро не найдено"@,
        }),
{
    match files {
        Some(f) => {
            let mut s = cat3(
                "winws.exe=",
                bool_text(f.winws),
                " WinDivert.dll=",
            );
            s.append(bool_text(f.dll));
            s.append(" WinDivert64.sys=");
            s.append(bool_text(f.sys));
            s.append(" version=");
            match version {
                Some(v) => {
                    s.append(v);
                },
                None => {
                    s.append("нет");
                },
            }
            s
        },
        None => "ядро не найдено".to_owned(),
    }
}

/// The version of Windows, from what `ver` has printed, else the general name.
pub fn os_version(out: Option<&str>, os: &str) -> (r: String)
    ensures
        r@ == (match out {
            Some(o) => if trimmed(o@).len() > 0 {
                trimmed(o@)
            } else {
                os@
            },
            None => os@,
        }),
{
    match out {
        Some(o) => {
            let t = trim(o);
            if !t.is_empty() {
                return t.to_owned();
            }
        },
        None => {},
    }
    os.to_owned()
}

} // verus!
