//! The updater: `multiplex --apply-update <package> <version> <app pid>`, started by the app from
//! its old copy just before it quits. What it accepts and what it opens afterwards are decided
//! here; waiting for the app, swapping the files and opening the result are the caller's.
use vstd::prelude::*;

use crate::paths::{components_of, extension, extension_of, path_starts_with, starts_with_path};
use crate::shell::file_name;
use crate::text::{chars_equal, chars_of};
use crate::update::{mac_bundle, mac_bundle_spec, parse_number, parse_number_of, parse_version, Installer, Version};

verus! {

/// The file, in the staging folder, that records a version whose install failed.
pub const FAILED_RECORD: &'static str = "failed-version";

/// How a package is installed: Windows' installer for a `.msi`, the macOS app zip otherwise.
pub open spec fn installer_for(package: Seq<char>) -> Installer {
    match file_name(package) {
        Some(name) => if extension(name) == Some("msi"@) { Installer::WindowsMsi } else { Installer::MacAppZip },
        None => Installer::MacAppZip,
    }
}

/// What the updater was asked to do: the package, the version it holds, the app's process id and
/// the installer, when the three words are well formed and the package is a file this app staged
/// (never a path someone else passed in).
pub open spec fn request_spec(arguments: Seq<Seq<char>>, staging: Option<Seq<char>>, package_is_file: bool)
    -> Option<(Seq<char>, Version, u32, Installer)> {
    if arguments.len() != 3 {
        None
    } else {
        match (parse_version(arguments[1]), parse_number(arguments[2], u32::MAX as nat), staging) {
            (Some(version), Some(pid), Some(dir)) => if path_starts_with(arguments[0], dir) && package_is_file {
                Some((arguments[0], version, pid as u32, installer_for(arguments[0])))
            } else {
                None
            },
            _ => None,
        }
    }
}

/// A request the updater accepted.
pub struct UpdaterRequest {
    pub package: String,
    pub version: Version,
    pub parent: u32,
    pub installer: Installer,
}

fn installer_of(package: &str) -> (r: Installer)
    ensures
        r == installer_for(package@),
{
    let text = chars_of(package);
    let parts = components_of(text.as_slice());
    let ghost pv = parts@.map_values(|c: Vec<char>| c@);
    if parts.len() == 0 {
        return Installer::MacAppZip;
    }
    let last = &parts[parts.len() - 1];
    proof {
        assert(pv.last() == last@);
    }
    let dots: Vec<char> = vec!['.', '.'];
    assert(dots@ =~= seq!['.', '.']);
    if chars_equal(last.as_slice(), dots.as_slice()) {
        return Installer::MacAppZip;
    }
    let msi = chars_of("msi");
    match extension_of(last.as_slice()) {
        Some(e) => if chars_equal(e.as_slice(), msi.as_slice()) {
            Installer::WindowsMsi
        } else {
            Installer::MacAppZip
        },
        None => Installer::MacAppZip,
    }
}

/// The request in the words after `--apply-update`, given the staging folder and whether the
/// package names an existing file.
pub fn updater_request(arguments: &Vec<String>, staging: Option<String>, package_is_file: bool) -> (r: Option<UpdaterRequest>)
    ensures
        match r {
            Some(q) => request_spec(arguments@.map_values(|a: String| a@), match staging {
                Some(s) => Some(s@),
                None => None,
            }, package_is_file) == Some((q.package@, q.version, q.parent, q.installer)),
            None => request_spec(arguments@.map_values(|a: String| a@), match staging {
                Some(s) => Some(s@),
                None => None,
            }, package_is_file) is None,
        },
{
    let ghost av = arguments@.map_values(|a: String| a@);
    if arguments.len() != 3 {
        return None;
    }
    proof {
        assert(av[0] == arguments@[0]@);
        assert(av[1] == arguments@[1]@);
        assert(av[2] == arguments@[2]@);
    }
    let version = match Version::parse(arguments[1].as_str()) {
        Some(v) => v,
        None => return None,
    };
    let pid = match parse_number_of(chars_of(arguments[2].as_str()).as_slice(), 0xffff_ffffu64) {
        Some(p) => p,
        None => return None,
    };
    let dir = match staging {
        Some(d) => d,
        None => return None,
    };
    let package = chars_of(arguments[0].as_str());
    if !starts_with_path(package.as_slice(), chars_of(dir.as_str()).as_slice()) || !package_is_file {
        return None;
    }
    let installer = installer_of(arguments[0].as_str());
    Some(UpdaterRequest { package: arguments[0].clone(), version, parent: pid as u32, installer })
}

/// What to open after an install: the `.app` bundle on macOS, the executable elsewhere.
pub fn installed_app(executable: &str, macos: bool) -> (r: Option<String>)
    ensures
        macos ==> match r {
            Some(b) => mac_bundle_spec(executable@) == Some(b@),
            None => mac_bundle_spec(executable@) is None,
        },
        !macos ==> (r matches Some(e) && e@ == executable@),
{
    if macos {
        mac_bundle(executable)
    } else {
        Some(executable.to_string())
    }
}

} // verus!
