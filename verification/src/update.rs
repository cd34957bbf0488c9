//! Updating the desktop app from GitHub Releases: which release to offer, which file this copy
//! updates from, how a published checksum file is read, and what a staged update must satisfy.
//!
//! What updates itself: the macOS app (the universal zip) and a Windows copy installed from the
//! per-user MSI. A portable Windows zip and Linux are told about the update and pointed at the
//! release page. Talking to GitHub, reading and writing files and starting the updater are the
//! caller's; every decision on what came back is made here.
use vstd::prelude::*;

use crate::paths::{components, components_of, extension, extension_of, join, joined, path_starts_with,
    piece_start, piece_start_of, starts_with_path};
use crate::text::{decimal_text, push_decimal, chars_equal, chars_of, is_white, slice_of,
    split_chars, split_on, string_of, trim_leading, trim_white, white, white_prefix, skip_white,
    lemma_white_prefix, trimmed_leading};

verus! {

pub const RELEASES_PAGE: &'static str = "https://github.com/millionrust/multiplex/releases";
/// Every download must come from this repository's release assets.
pub const DOWNLOAD_PREFIX: &'static str = "https://github.com/millionrust/multiplex/releases/download/";
/// The command line that hands a staged update to the updater.
pub const APPLY_UPDATE_COMMAND: &'static str = "--apply-update";
pub const MAX_RELEASES_BYTES: u64 = 4194304;
pub const MAX_CHECKSUM_BYTES: u64 = 16384;
pub const MAX_PACKAGE_BYTES: u64 = 629145600;

// ---------------------------------------------------------------------------------------------
// Versions.

#[derive(Clone, Copy, Debug, PartialEq, Eq, PartialOrd, Ord, Hash, Structural)]
pub struct Version(pub u64, pub u64, pub u64);

/// `a` is a later version than `b`: compared by major, then minor, then patch.
pub open spec fn newer(a: Version, b: Version) -> bool {
    a.0 > b.0 || (a.0 == b.0 && (a.1 > b.1 || (a.1 == b.1 && a.2 > b.2)))
}

/// The value of a decimal digit.
pub open spec fn decimal_digit(c: char) -> Option<nat> {
    if '0' <= c && c <= '9' {
        Some((c as u32 - '0' as u32) as nat)
    } else {
        None
    }
}

/// Every character of `s` is a decimal digit.
pub open spec fn all_digits(s: Seq<char>) -> bool {
    forall|i: int| 0 <= i < s.len() ==> (#[trigger] decimal_digit(s[i])) is Some
}

/// The number the decimal digits of `s` write.
pub open spec fn digits_value(s: Seq<char>) -> nat
    decreases s.len(),
{
    if s.len() == 0 {
        0
    } else {
        digits_value(s.drop_last()) * 10 + decimal_digit(s.last()).unwrap_or(0)
    }
}

/// `str::parse` for an unsigned number no larger than `max`: an optional `+`, then one or more
/// decimal digits, with a value that fits.
pub open spec fn parse_number(s: Seq<char>, max: nat) -> Option<nat> {
    let digits = if s.len() > 0 && s[0] == '+' { s.skip(1) } else { s };
    if digits.len() == 0 || !all_digits(digits) || digits_value(digits) > max {
        None
    } else {
        Some(digits_value(digits))
    }
}

/// `0.0.4` or `v0.0.4`: three dot-separated numbers, nothing else.
pub open spec fn parse_version(text: Seq<char>) -> Option<Version> {
    let t = if text.len() > 0 && text[0] == 'v' { text.skip(1) } else { text };
    let parts = split_on(t, '.');
    if parts.len() != 3 {
        None
    } else {
        match (parse_number(parts[0], u64::MAX as nat), parse_number(parts[1], u64::MAX as nat),
            parse_number(parts[2], u64::MAX as nat)) {
            (Some(a), Some(b), Some(c)) => Some(Version(a as u64, b as u64, c as u64)),
            _ => None,
        }
    }
}

proof fn lemma_digits_value_grows(s: Seq<char>, k: int)
    requires
        0 <= k <= s.len(),
    ensures
        digits_value(s.take(k)) <= digits_value(s),
    decreases s.len() - k,
{
    if k < s.len() {
        lemma_digits_value_grows(s, k + 1);
        assert(s.take(k + 1).drop_last() =~= s.take(k));
    } else {
        assert(s.take(k) =~= s);
    }
}

/// `s` as an unsigned number no larger than `max`.
pub fn parse_number_of(s: &[char], max: u64) -> (r: Option<u64>)
    ensures
        r matches Some(v) ==> parse_number(s@, max as nat) == Some(v as nat),
        r is None ==> parse_number(s@, max as nat) is None,
{
    let start: usize = if s.len() > 0 && s[0] == '+' { 1 } else { 0 };
    let ghost digits = if s@.len() > 0 && s@[0] == '+' { s@.skip(1) } else { s@ };
    proof {
        assert(digits =~= s@.skip(start as int));
    }
    if start == s.len() {
        assert(digits.len() == 0);
        return None;
    }
    let mut value: u64 = 0;
    let mut i: usize = start;
    proof {
        assert(digits.take(0) =~= Seq::<char>::empty());
    }
    while i < s.len()
        invariant
            start <= i <= s@.len(),
            digits =~= s@.skip(start as int),
            digits == (if s@.len() > 0 && s@[0] == '+' { s@.skip(1) } else { s@ }),
            all_digits(digits.take(i - start)),
            value as nat == digits_value(digits.take(i - start)),
            value <= max,
        decreases s@.len() - i,
    {
        let c = s[i];
        proof {
            assert(digits.take(i + 1 - start).drop_last() =~= digits.take(i - start));
            assert(digits.take(i + 1 - start).last() == c);
            assert(digits[i - start] == c);
        }
        if !('0' <= c && c <= '9') {
            proof {
                assert(decimal_digit(digits[i - start]) is None);
                assert(!all_digits(digits));
            }
            return None;
        }
        let d = (c as u32 - '0' as u32) as u64;
        proof {
            assert(decimal_digit(c) == Some(d as nat));
            assert(digits_value(digits.take(i + 1 - start)) == value * 10 + d);
        }
        if d > max || value > (max - d) / 10 {
            proof {
                assert(value * 10 + d > max) by (nonlinear_arith)
                    requires d > max || value > (max - d) / 10, d <= 9;
                lemma_digits_value_grows(digits, i + 1 - start);
            }
            return None;
        }
        proof {
            assert(value * 10 + d <= max) by (nonlinear_arith)
                requires value <= (max - d) / 10, d <= max;
            assert forall|j: int| 0 <= j < digits.take(i + 1 - start).len() implies
                (#[trigger] decimal_digit(digits.take(i + 1 - start)[j])) is Some by {
                if j < i - start {
                    assert(digits.take(i + 1 - start)[j] == digits.take(i - start)[j]);
                }
            }
        }
        value = value * 10 + d;
        i = i + 1;
    }
    proof {
        assert(digits.take(s@.len() - start) =~= digits);
    }
    Some(value)
}

impl Version {
    /// `0.0.4` or `v0.0.4`. Anything with a suffix such as `-rc1` is not offered.
    pub fn parse(text: &str) -> (r: Option<Version>)
        ensures
            r == parse_version(text@),
    {
        let chars = chars_of(text);
        let start: usize = if chars.len() > 0 && chars[0] == 'v' { 1 } else { 0 };
        let rest = slice_of(chars.as_slice(), start, chars.len());
        proof {
            assert(rest@ =~= (if text@.len() > 0 && text@[0] == 'v' { text@.skip(1) } else { text@ }));
        }
        let parts = split_chars(rest.as_slice(), '.');
        proof {
            assert(parts@.len() == split_on(rest@, '.').len());
        }
        if parts.len() != 3 {
            return None;
        }
        proof {
            assert(parts@[0]@ == split_on(rest@, '.')[0]);
            assert(parts@[1]@ == split_on(rest@, '.')[1]);
            assert(parts@[2]@ == split_on(rest@, '.')[2]);
        }
        let a = parse_number_of(parts[0].as_slice(), u64::MAX);
        let b = parse_number_of(parts[1].as_slice(), u64::MAX);
        let c = parse_number_of(parts[2].as_slice(), u64::MAX);
        match (a, b, c) {
            (Some(a), Some(b), Some(c)) => Some(Version(a, b, c)),
            _ => None,
        }
    }

    /// Whether this version is later than `other`.
    pub fn is_newer_than(&self, other: &Version) -> (r: bool)
        ensures
            r == newer(*self, *other),
    {
        self.0 > other.0 || (self.0 == other.0 && (self.1 > other.1 || (self.1 == other.1 && self.2 > other.2)))
    }

    /// `major.minor.patch`.
    pub fn text(&self) -> (r: String)
        ensures
            r@ == version_text(*self),
    {
        let mut out: Vec<char> = Vec::new();
        push_decimal(&mut out, self.0);
        out.push('.');
        push_decimal(&mut out, self.1);
        out.push('.');
        push_decimal(&mut out, self.2);
        string_of(out.as_slice())
    }
}

/// `major.minor.patch`.
pub open spec fn version_text(v: Version) -> Seq<char> {
    decimal_text(v.0 as nat) + seq!['.'] + decimal_text(v.1 as nat) + seq!['.'] + decimal_text(v.2 as nat)
}

// ---------------------------------------------------------------------------------------------
// Releases, packages and offers.

/// How a downloaded package is put in place.
#[derive(Clone, Copy, Debug, PartialEq, Eq, Structural)]
pub enum Installer {
    /// The universal zip, unpacked over the running `Multiplex.app`.
    MacAppZip,
    /// The per-user MSI, run with `msiexec`.
    WindowsMsi,
}

/// The release file this copy of the app updates from.
#[derive(Clone, Copy, Debug, PartialEq, Eq)]
pub struct Package {
    pub asset: &'static str,
    pub checksum: &'static str,
    pub installer: Installer,
}

impl View for Package {
    type V = (Seq<char>, Seq<char>, Installer);

    open spec fn view(&self) -> (Seq<char>, Seq<char>, Installer) {
        (self.asset@, self.checksum@, self.installer)
    }
}

pub open spec fn mac_package() -> (Seq<char>, Seq<char>, Installer) {
    ("Multiplex-macos-universal.zip"@, "Multiplex-macos-universal.zip.sha256"@, Installer::MacAppZip)
}

pub open spec fn windows_package(x86: bool) -> (Seq<char>, Seq<char>, Installer) {
    if x86 {
        ("Multiplex-windows-x86_64.msi"@, "Multiplex-windows-x86_64.msi.sha256"@, Installer::WindowsMsi)
    } else {
        ("Multiplex-windows-aarch64.msi"@, "Multiplex-windows-aarch64.msi.sha256"@, Installer::WindowsMsi)
    }
}

/// A file to download and its published size.
#[derive(Clone, Debug, PartialEq, Eq)]
pub struct Download {
    pub url: String,
    pub size: u64,
}

impl View for Download {
    type V = (Seq<char>, u64);

    open spec fn view(&self) -> (Seq<char>, u64) {
        (self.url@, self.size)
    }
}

/// A newer release, and what to download for this copy when it can update itself.
#[derive(Clone, Debug, PartialEq, Eq)]
pub struct Offer {
    pub version: Version,
    pub page: String,
    pub package: Option<(Package, Download, Download)>,
}

pub open spec fn package_view(p: Option<(Package, Download, Download)>)
    -> Option<((Seq<char>, Seq<char>, Installer), (Seq<char>, u64), (Seq<char>, u64))> {
    match p {
        Some((package, file, checksum)) => Some((package@, file@, checksum@)),
        None => None,
    }
}

impl View for Offer {
    type V = (Version, Seq<char>, Option<((Seq<char>, Seq<char>, Installer), (Seq<char>, u64), (Seq<char>, u64))>);

    open spec fn view(&self) -> Self::V {
        (self.version, self.page@, package_view(self.package))
    }
}

/// One asset of a release, as the releases API lists it.
#[derive(Clone, Debug, PartialEq, Eq)]
pub struct Asset {
    pub name: String,
    pub browser_download_url: String,
    pub size: u64,
}

/// One release, as the releases API lists it.
#[derive(Clone, Debug, PartialEq, Eq)]
pub struct Release {
    pub tag_name: String,
    pub draft: bool,
    pub html_url: String,
    pub assets: Vec<Asset>,
}

#[derive(Clone, Copy, Debug, PartialEq, Eq, Structural)]
pub enum UpdateError {
    Network,
    UnexpectedResponse,
    TooLarge,
    ChecksumMismatch,
    Storage,
}

/// `s` begins with `prefix`.
pub open spec fn has_prefix(s: Seq<char>, prefix: Seq<char>) -> bool {
    prefix.len() <= s.len() && s.take(prefix.len() as int) == prefix
}

/// The version a release stands for, when it is published and newer than `current`.
pub open spec fn candidate(release: Release, current: Version) -> Option<Version> {
    if release.draft {
        None
    } else {
        match parse_version(release.tag_name@) {
            Some(v) => if newer(v, current) { Some(v) } else { None },
            None => None,
        }
    }
}

/// The newest candidate among `releases`, the last of equals, with its index.
pub open spec fn newest(releases: Seq<Release>, current: Version) -> Option<(Version, int)>
    decreases releases.len(),
{
    if releases.len() == 0 {
        None
    } else {
        let before = newest(releases.drop_last(), current);
        match candidate(releases.last(), current) {
            Some(v) => match before {
                Some((b, i)) => if newer(b, v) { before } else { Some((v, releases.len() - 1)) },
                None => Some((v, releases.len() - 1)),
            },
            None => before,
        }
    }
}

/// The first asset called `name`, offered only when it downloads from this repository.
pub open spec fn asset_download(assets: Seq<Asset>, name: Seq<char>) -> Option<(Seq<char>, u64)>
    decreases assets.len(),
{
    if assets.len() == 0 {
        None
    } else if assets[0].name@ == name {
        if has_prefix(assets[0].browser_download_url@, DOWNLOAD_PREFIX@) {
            Some((assets[0].browser_download_url@, assets[0].size))
        } else {
            None
        }
    } else {
        asset_download(assets.drop_first(), name)
    }
}

/// The offer for the newest published release above `current`: its page (the repository's
/// releases page when the release names another), and the package and checksum files when this
/// copy updates itself and the release has both.
pub open spec fn choose_spec(releases: Seq<Release>, current: Version, package: Option<Package>)
    -> Option<(Version, Seq<char>, Option<((Seq<char>, Seq<char>, Installer), (Seq<char>, u64), (Seq<char>, u64))>)> {
    match newest(releases, current) {
        None => None,
        Some((version, i)) => {
            let release = releases[i];
            let page = if has_prefix(release.html_url@, RELEASES_PAGE@) { release.html_url@ } else { RELEASES_PAGE@ };
            let files = match package {
                None => None,
                Some(p) => match (asset_download(release.assets@, p.asset@), asset_download(release.assets@, p.checksum@)) {
                    (Some(file), Some(sum)) => Some((p@, file, sum)),
                    _ => None,
                },
            };
            Some((version, page, files))
        },
    }
}

fn has_prefix_of(s: &str, prefix: &str) -> (r: bool)
    ensures
        r == has_prefix(s@, prefix@),
{
    let a = chars_of(s);
    let b = chars_of(prefix);
    if b.len() > a.len() {
        return false;
    }
    let head = slice_of(a.as_slice(), 0, b.len());
    assert(head@ =~= a@.take(b@.len() as int));
    chars_equal(head.as_slice(), b.as_slice())
}

fn find_download(assets: &Vec<Asset>, name: &str) -> (r: Option<Download>)
    ensures
        match r {
            Some(d) => asset_download(assets@, name@) == Some(d@),
            None => asset_download(assets@, name@) is None,
        },
{
    let mut i: usize = 0;
    proof {
        assert(assets@.skip(0) =~= assets@);
    }
    while i < assets.len()
        invariant
            i <= assets@.len(),
            asset_download(assets@, name@) == asset_download(assets@.skip(i as int), name@),
        decreases assets@.len() - i,
    {
        let same = chars_equal(chars_of(assets[i].name.as_str()).as_slice(), chars_of(name).as_slice());
        if same {
            if has_prefix_of(assets[i].browser_download_url.as_str(), DOWNLOAD_PREFIX) {
                return Some(Download { url: assets[i].browser_download_url.clone(), size: assets[i].size });
            }
            return None;
        }
        proof {
            assert(assets@.skip(i as int).drop_first() =~= assets@.skip(i + 1));
        }
        i = i + 1;
    }
    None
}

fn candidate_of(release: &Release, current: &Version) -> (r: Option<Version>)
    ensures
        r == candidate(*release, *current),
{
    if release.draft {
        return None;
    }
    match Version::parse(release.tag_name.as_str()) {
        Some(v) => if v.is_newer_than(current) { Some(v) } else { None },
        None => None,
    }
}

/// The newest published release above `current` among `releases` (parsed from the releases
/// API's answer), or `None` when there is none. Prereleases count: every release so far is one.
pub fn choose_offer(releases: &Vec<Release>, current: Version, package: Option<Package>) -> (r: Option<Offer>)
    ensures
        match r {
            Some(o) => choose_spec(releases@, current, package) == Some(o@),
            None => choose_spec(releases@, current, package) is None,
        },
{
    let mut best: Option<(Version, usize)> = None;
    let mut i: usize = 0;
    while i < releases.len()
        invariant
            i <= releases@.len(),
            match best {
                Some((v, k)) => newest(releases@.take(i as int), current) == Some((v, k as int)) && k < i,
                None => newest(releases@.take(i as int), current) is None,
            },
        decreases releases@.len() - i,
    {
        proof {
            assert(releases@.take(i + 1).drop_last() =~= releases@.take(i as int));
            assert(releases@.take(i + 1).last() == releases@[i as int]);
        }
        match candidate_of(&releases[i], &current) {
            Some(v) => {
                let replace = match best {
                    Some((b, _)) => !b.is_newer_than(&v),
                    None => true,
                };
                if replace {
                    best = Some((v, i));
                }
            },
            None => {},
        }
        i = i + 1;
    }
    proof {
        assert(releases@.take(releases@.len() as int) =~= releases@);
    }
    let (version, k) = match best {
        Some(b) => b,
        None => return None,
    };
    let release = &releases[k];
    let page = if has_prefix_of(release.html_url.as_str(), RELEASES_PAGE) {
        release.html_url.clone()
    } else {
        RELEASES_PAGE.to_string()
    };
    let files = match package {
        None => None,
        Some(p) => match (find_download(&release.assets, p.asset), find_download(&release.assets, p.checksum)) {
            (Some(file), Some(sum)) => Some((p, file, sum)),
            _ => None,
        },
    };
    Some(Offer { version, page, package: files })
}

/// What `check` offers: the newest release as `choose_offer` finds it, except that a version whose
/// install failed here (`failed`) is offered as its release page only, not downloaded again.
pub open spec fn check_spec(releases: Seq<Release>, current: Version, package: Option<Package>, failed: Option<Version>)
    -> Option<(Version, Seq<char>, Option<((Seq<char>, Seq<char>, Installer), (Seq<char>, u64), (Seq<char>, u64))>)> {
    match choose_spec(releases, current, package) {
        Some((v, page, files)) => if failed == Some(v) { Some((v, page, None)) } else { Some((v, page, files)) },
        None => None,
    }
}

/// What to offer from the releases API's answer, given the version whose install failed last.
pub fn check(releases: &Vec<Release>, current: Version, package: Option<Package>, failed: Option<Version>) -> (r: Option<Offer>)
    ensures
        match r {
            Some(o) => check_spec(releases@, current, package, failed) == Some(o@),
            None => check_spec(releases@, current, package, failed) is None,
        },
{
    let mut offer = choose_offer(releases, current, package);
    match offer {
        Some(ref mut o) => {
            let same = match failed {
                Some(f) => f == o.version,
                None => false,
            };
            if same {
                o.package = None;
            }
        },
        None => {},
    }
    offer
}

// ---------------------------------------------------------------------------------------------
// Checksum files.

/// The value of a hexadecimal digit, either case.
pub open spec fn hex_value(c: char) -> Option<nat> {
    if '0' <= c && c <= '9' {
        Some((c as u32 - '0' as u32) as nat)
    } else if 'a' <= c && c <= 'f' {
        Some((c as u32 - 'a' as u32 + 10) as nat)
    } else if 'A' <= c && c <= 'F' {
        Some((c as u32 - 'A' as u32 + 10) as nat)
    } else {
        None
    }
}

/// `u8::from_str_radix` on two characters in base 16: two hex digits, or `+` and one.
pub open spec fn hex_pair(a: char, b: char) -> Option<u8> {
    match (hex_value(a), hex_value(b)) {
        (Some(x), Some(y)) => Some((x * 16 + y) as u8),
        (None, Some(y)) => if a == '+' { Some(y as u8) } else { None },
        _ => None,
    }
}

/// The bytes of 64 hex characters, two a byte, when every pair reads.
pub open spec fn hex_bytes(hex: Seq<char>, n: int) -> Option<Seq<u8>>
    decreases n,
{
    if n <= 0 {
        Some(Seq::empty())
    } else {
        match (hex_bytes(hex, n - 1), hex_pair(hex[2 * (n - 1)], hex[2 * (n - 1) + 1])) {
            (Some(bytes), Some(b)) => Some(bytes.push(b)),
            _ => None,
        }
    }
}

/// How many characters `s` starts with that are not white space.
pub open spec fn word_len(s: Seq<char>) -> nat
    decreases s.len(),
{
    if s.len() > 0 && !is_white(s[0]) {
        1 + word_len(s.drop_first())
    } else {
        0
    }
}

/// The first two white-space-separated fields of a line, when it has two.
pub open spec fn two_fields(line: Seq<char>) -> Option<(Seq<char>, Seq<char>)> {
    let s1 = white_prefix(line) as int;
    let e1 = s1 + word_len(line.skip(s1));
    let s2 = e1 + white_prefix(line.skip(e1));
    let e2 = s2 + word_len(line.skip(s2));
    if s1 >= line.len() || s2 >= line.len() {
        None
    } else {
        Some((line.subrange(s1, e1), line.subrange(s2, e2)))
    }
}

/// The digest one `<hex>  <name>` line gives for `asset`.
pub open spec fn line_digest(line: Seq<char>, asset: Seq<char>) -> Option<Seq<u8>> {
    match two_fields(line) {
        None => None,
        Some((hex, name)) => if trim_leading(name, '*') != asset || hex.len() != 64 {
            None
        } else {
            hex_bytes(hex, 32)
        },
    }
}

/// The first line that gives a digest for `asset`.
pub open spec fn first_digest(lines: Seq<Seq<char>>, asset: Seq<char>) -> Option<Seq<u8>>
    decreases lines.len(),
{
    if lines.len() == 0 {
        None
    } else {
        match line_digest(lines[0], asset) {
            Some(d) => Some(d),
            None => first_digest(lines.drop_first(), asset),
        }
    }
}

/// The digest a `.sha256` file gives for `asset`: `<hex>  <name>` lines, as `shasum` writes.
pub open spec fn expected_digest_spec(checksums: Seq<char>, asset: Seq<char>) -> Option<Seq<u8>> {
    first_digest(split_on(checksums, '\n'), asset)
}

proof fn lemma_word_len(s: Seq<char>)
    ensures
        word_len(s) <= s.len(),
        forall|k: int| 0 <= k < word_len(s) ==> !is_white(#[trigger] s[k]),
        word_len(s) < s.len() ==> is_white(s[word_len(s) as int]),
    decreases s.len(),
{
    if s.len() > 0 && !is_white(s[0]) {
        lemma_word_len(s.drop_first());
        assert forall|k: int| 0 <= k < word_len(s) implies !is_white(#[trigger] s[k]) by {
            if k > 0 {
                assert(s[k] == s.drop_first()[k - 1]);
            }
        }
    }
}

/// The index of the first white-space character at or after `from`, or the end.
fn word_end(s: &[char], from: usize) -> (r: usize)
    requires
        from <= s@.len(),
    ensures
        r == from + word_len(s@.skip(from as int)),
        r <= s@.len(),
{
    let mut i: usize = from;
    proof {
        lemma_word_len(s@.skip(from as int));
    }
    while i < s.len() && !white(s[i])
        invariant
            from <= i <= s@.len(),
            from + word_len(s@.skip(from as int)) == i + word_len(s@.skip(i as int)),
        decreases s@.len() - i,
    {
        proof {
            assert(s@.skip(i as int).drop_first() =~= s@.skip(i + 1));
        }
        i = i + 1;
    }
    proof {
        if i < s@.len() {
            assert(s@.skip(i as int)[0] == s@[i as int]);
        }
    }
    i
}

fn hex_value_of(c: char) -> (r: Option<u8>)
    ensures
        match r {
            Some(v) => hex_value(c) == Some(v as nat) && v < 16,
            None => hex_value(c) is None,
        },
{
    if '0' <= c && c <= '9' {
        Some((c as u32 - '0' as u32) as u8)
    } else if 'a' <= c && c <= 'f' {
        Some((c as u32 - 'a' as u32 + 10) as u8)
    } else if 'A' <= c && c <= 'F' {
        Some((c as u32 - 'A' as u32 + 10) as u8)
    } else {
        None
    }
}

fn hex_pair_of(a: char, b: char) -> (r: Option<u8>)
    ensures
        r == hex_pair(a, b),
{
    match (hex_value_of(a), hex_value_of(b)) {
        (Some(x), Some(y)) => Some(x * 16 + y),
        (None, Some(y)) => if a == '+' { Some(y) } else { None },
        _ => None,
    }
}

fn line_digest_of(line: &[char], asset: &[char]) -> (r: Option<[u8; 32]>)
    ensures
        match r {
            Some(d) => line_digest(line@, asset@) == Some(d@),
            None => line_digest(line@, asset@) is None,
        },
{
    let s1 = skip_white(line, 0);
    proof {
        assert(line@.skip(0) =~= line@);
    }
    let e1 = word_end(line, s1);
    let s2 = skip_white(line, e1);
    let e2 = word_end(line, s2);
    if s1 >= line.len() || s2 >= line.len() {
        return None;
    }
    let hex = slice_of(line, s1, e1);
    let name_field = slice_of(line, s2, e2);
    assert(two_fields(line@) == Some((hex@, name_field@)));
    let name = trimmed_leading(name_field.as_slice(), '*');
    if !chars_equal(name.as_slice(), asset) || hex.len() != 64 {
        return None;
    }
    let mut digest: [u8; 32] = [0u8; 32];
    let mut i: usize = 0;
    assert(line_digest(line@, asset@) == hex_bytes(hex@, 32));
    while i < 32
        invariant
            line_digest(line@, asset@) == hex_bytes(hex@, 32),
            hex@.len() == 64,
            i <= 32,
            hex_bytes(hex@, i as int) == Some(digest@.take(i as int)),
        decreases 32 - i,
    {
        match hex_pair_of(hex[2 * i], hex[2 * i + 1]) {
            Some(b) => {
                let ghost before = digest@;
                digest[i] = b;
                proof {
                    assert(digest@.take(i + 1) =~= before.take(i as int).push(b));
                }
            },
            None => {
                proof {
                    lemma_hex_bytes_none(hex@, i as int + 1, 32);
                    assert(hex_bytes(hex@, 32) is None);
                }
                return None;
            },
        }
        i = i + 1;
    }
    assert(digest@.take(32) =~= digest@);
    Some(digest)
}

proof fn lemma_hex_bytes_none(hex: Seq<char>, k: int, n: int)
    requires
        1 <= k <= n,
        hex_bytes(hex, k) is None,
    ensures
        hex_bytes(hex, n) is None,
    decreases n - k,
{
    if k < n {
        lemma_hex_bytes_none(hex, k + 1, n);
    }
}

/// The digest a `.sha256` file gives for `asset`: `<hex>  <name>` lines, as `shasum` writes;
/// the first line naming `asset` with 64 hex digits wins.
pub fn expected_digest(checksums: &str, asset: &str) -> (r: Option<[u8; 32]>)
    ensures
        match r {
            Some(d) => expected_digest_spec(checksums@, asset@) == Some(d@),
            None => expected_digest_spec(checksums@, asset@) is None,
        },
{
    let text = chars_of(checksums);
    let wanted = chars_of(asset);
    let lines = split_chars(text.as_slice(), '\n');
    let ghost lv = lines@.map_values(|l: Vec<char>| l@);
    let mut i: usize = 0;
    proof {
        assert(lv.skip(0) =~= lv);
    }
    while i < lines.len()
        invariant
            i <= lines@.len(),
            lv == lines@.map_values(|l: Vec<char>| l@),
            lv == split_on(checksums@, '\n'),
            wanted@ == asset@,
            expected_digest_spec(checksums@, asset@) == first_digest(lv.skip(i as int), asset@),
        decreases lines@.len() - i,
    {
        let found = line_digest_of(lines[i].as_slice(), wanted.as_slice());
        proof {
            assert(lv.skip(i as int)[0] == lines@[i as int]@);
            assert(lv.skip(i as int).drop_first() =~= lv.skip(i + 1));
        }
        match found {
            Some(d) => {
                return Some(d);
            },
            None => {},
        }
        i = i + 1;
    }
    None
}

// ---------------------------------------------------------------------------------------------
// Which package this copy updates from.

/// A file name with the extension `app`.
pub open spec fn is_app(piece: Seq<char>) -> bool {
    extension(piece) == Some("app"@)
}

/// The largest index at most `e` where a path component ends whose name has the extension `app`.
pub open spec fn bundle_end(s: Seq<char>, e: int) -> Option<int>
    decreases e + 1,
{
    if e < 0 || e > s.len() {
        None
    } else if (e == s.len() || s[e] == '/') && is_app(s.subrange(piece_start(s, e), e)) {
        Some(e)
    } else {
        bundle_end(s, e - 1)
    }
}

/// The `.app` bundle an executable runs from: the nearest of the path and its ancestors whose
/// name has the extension `app`, as `Path::ancestors` gives it (the path itself when that is
/// its last component).
pub open spec fn mac_bundle_spec(executable: Seq<char>) -> Option<Seq<char>> {
    match bundle_end(executable, executable.len() as int) {
        None => None,
        Some(e) => if components(executable.skip(e)).len() == 0 {
            Some(executable)
        } else {
            Some(executable.take(e))
        },
    }
}

/// The `.app` bundle an executable runs from, when it runs from one.
pub fn mac_bundle(executable: &str) -> (r: Option<String>)
    ensures
        match r {
            Some(b) => mac_bundle_spec(executable@) == Some(b@),
            None => mac_bundle_spec(executable@) is None,
        },
{
    let text = chars_of(executable);
    let app = chars_of("app");
    let mut e: usize = text.len();
    loop
        invariant
            e <= text@.len(),
            text@ == executable@,
            app@ == "app"@,
            bundle_end(text@, text@.len() as int) == bundle_end(text@, e as int),
        decreases e,
    {
        let boundary = e == text.len() || text[e] == '/';
        if boundary {
            let start = piece_start_of(text.as_slice(), e);
            let name = slice_of(text.as_slice(), start, e);
            let named = match extension_of(name.as_slice()) {
                Some(x) => chars_equal(x.as_slice(), app.as_slice()),
                None => false,
            };
            assert(named == is_app(text@.subrange(piece_start(text@, e as int), e as int)));
            if named {
                let rest = slice_of(text.as_slice(), e, text.len());
                proof {
                    assert(rest@ =~= text@.skip(e as int));
                }
                if components_of(rest.as_slice()).len() == 0 {
                    return Some(executable.to_string());
                }
                let bundle = slice_of(text.as_slice(), 0, e);
                proof {
                    assert(bundle@ =~= text@.take(e as int));
                }
                return Some(string_of(bundle.as_slice()));
            }
        }
        assert(bundle_end(text@, e as int) == bundle_end(text@, e - 1));
        if e == 0 {
            assert(bundle_end(text@, -1) is None);
            return None;
        }
        e = e - 1;
    }
}

/// The release file this copy updates from, for an operating system and architecture as Rust
/// names them, this executable, and the per-user data folder on Windows: the macOS zip for an
/// app inside a bundle, the MSI for a Windows copy the MSI installed, and nothing otherwise.
pub open spec fn package_for_spec(os: Seq<char>, arch: Seq<char>, executable: Seq<char>, local_data: Option<Seq<char>>)
    -> Option<(Seq<char>, Seq<char>, Installer)> {
    if os == "macos"@ {
        if mac_bundle_spec(executable) is Some { Some(mac_package()) } else { None }
    } else if os == "windows"@ && (arch == "x86_64"@ || arch == "aarch64"@) {
        match local_data {
            None => None,
            Some(data) => if path_starts_with(executable, join(join(data, "Programs"@), "Multiplex"@)) {
                Some(windows_package(arch == "x86_64"@))
            } else {
                None
            },
        }
    } else {
        None
    }
}

fn same_text(a: &str, b: &str) -> (r: bool)
    ensures
        r == (a@ == b@),
{
    chars_equal(chars_of(a).as_slice(), chars_of(b).as_slice())
}

/// What a copy at `executable` updates itself from, or `None` when the person has to do it:
/// Linux, a portable Windows copy, or an app that is not inside an installed bundle.
pub fn package_for(os: &str, arch: &str, executable: &str, local_data: Option<String>) -> (r: Option<Package>)
    ensures
        match r {
            Some(p) => package_for_spec(os@, arch@, executable@, match local_data { Some(d) => Some(d@), None => None }) == Some(p@),
            None => package_for_spec(os@, arch@, executable@, match local_data { Some(d) => Some(d@), None => None }) is None,
        },
{
    if same_text(os, "macos") {
        return match mac_bundle(executable) {
            Some(_) => Some(Package {
                asset: "Multiplex-macos-universal.zip",
                checksum: "Multiplex-macos-universal.zip.sha256",
                installer: Installer::MacAppZip,
            }),
            None => None,
        };
    }
    let x86 = same_text(arch, "x86_64");
    if !same_text(os, "windows") || !(x86 || same_text(arch, "aarch64")) {
        return None;
    }
    let data = match &local_data {
        Some(d) => chars_of(d.as_str()),
        None => return None,
    };
    let programs = joined(data.as_slice(), "Programs");
    let installed = joined(programs.as_slice(), "Multiplex");
    if !starts_with_path(chars_of(executable).as_slice(), installed.as_slice()) {
        return None;
    }
    if x86 {
        Some(Package {
            asset: "Multiplex-windows-x86_64.msi",
            checksum: "Multiplex-windows-x86_64.msi.sha256",
            installer: Installer::WindowsMsi,
        })
    } else {
        Some(Package {
            asset: "Multiplex-windows-aarch64.msi",
            checksum: "Multiplex-windows-aarch64.msi.sha256",
            installer: Installer::WindowsMsi,
        })
    }
}

// ---------------------------------------------------------------------------------------------
// Staging.

/// A downloaded, checked package waiting for a restart.
#[derive(Clone, Debug, PartialEq, Eq)]
pub struct Staged {
    pub version: Version,
    pub installer: Installer,
    pub path: String,
}

/// Where packages wait: `<app dir>/updates`.
pub fn staging_dir(app_dir: Option<String>) -> (r: Option<String>)
    ensures
        match r {
            Some(d) => app_dir matches Some(a) && d@ == join(a@, "updates"@),
            None => app_dir is None,
        },
{
    match app_dir {
        Some(a) => Some(string_of(joined(chars_of(a.as_str()).as_slice(), "updates").as_slice())),
        None => None,
    }
}

/// The staged update recorded in `dir`, kept only while it is newer than `current`, its file
/// lies inside `dir`, and the file is there (`present`).
pub fn staged(record: Option<Staged>, current: Version, dir: &str, present: bool) -> (r: Option<Staged>)
    ensures
        match r {
            Some(s) => record == Some(s) && newer(s.version, current) && path_starts_with(s.path@, dir@) && present,
            None => match record {
                Some(s) => !(newer(s.version, current) && path_starts_with(s.path@, dir@) && present),
                None => true,
            },
        },
{
    match record {
        Some(s) => {
            if s.version.is_newer_than(&current)
                && starts_with_path(chars_of(s.path.as_str()).as_slice(), chars_of(dir).as_slice()) && present {
                Some(s)
            } else {
                None
            }
        },
        None => None,
    }
}

/// `s` without white space at either end, as `str::trim` has it.
pub open spec fn trim_both(s: Seq<char>) -> Seq<char> {
    let t = trim_white(s);
    t.take(t.len() - white_suffix(t))
}

/// How many white-space characters `s` ends with.
pub open spec fn white_suffix(s: Seq<char>) -> nat
    decreases s.len(),
{
    if s.len() > 0 && is_white(s.last()) {
        1 + white_suffix(s.drop_last())
    } else {
        0
    }
}

/// The version a failed-install record names, when it names one.
pub fn failed_version(record: Option<String>) -> (r: Option<Version>)
    ensures
        r == match record {
            Some(t) => parse_version(trim_both(t@)),
            None => None,
        },
{
    let text = match record {
        Some(t) => chars_of(t.as_str()),
        None => return None,
    };
    let start = skip_white(text.as_slice(), 0);
    proof {
        assert(text@.skip(0) =~= text@);
        lemma_white_prefix(text@);
    }
    let ghost t = text@.skip(start as int);
    let mut end: usize = text.len();
    proof {
        assert(t.take(t.len() as int) =~= t);
    }
    while end > start && white(text[end - 1])
        invariant
            start <= end <= text@.len(),
            t == text@.skip(start as int),
            t.len() - white_suffix(t) == end - start - white_suffix(t.take(end - start)),
        decreases end,
    {
        proof {
            assert(t.take(end - start).drop_last() =~= t.take(end - start - 1));
        }
        end = end - 1;
    }
    let trimmed = slice_of(text.as_slice(), start, end);
    proof {
        assert(trimmed@ =~= t.take(t.len() - white_suffix(t)));
    }
    Version::parse(string_of(trimmed.as_slice()).as_str())
}

/// Whether this build looks for updates at all: never in development or test builds, and never
/// when updates are turned off.
pub fn updates_enabled(development_build: bool, turned_off: bool) -> (r: bool)
    ensures
        r == (!development_build && !turned_off),
{
    !development_build && !turned_off
}

impl Download {
    /// A copy of this download.
    pub fn duplicate(&self) -> (r: Download)
        ensures
            r@ == self@,
    {
        Download { url: self.url.clone(), size: self.size }
    }
}

/// The files to fetch for an offer, refused before anything is downloaded when the offer has
/// none or when their published sizes are out of bounds.
pub fn download_files(offer: &Offer) -> (r: Result<(Package, Download, Download), UpdateError>)
    ensures
        match r {
            Ok((p, f, c)) => package_view(offer.package) == Some((p@, f@, c@)) && f.size != 0
                && f.size <= MAX_PACKAGE_BYTES && c.size <= MAX_CHECKSUM_BYTES,
            Err(e) => match offer.package {
                None => e == UpdateError::UnexpectedResponse,
                Some((_, f, c)) => e == UpdateError::TooLarge && (f.size == 0 || f.size > MAX_PACKAGE_BYTES
                    || c.size > MAX_CHECKSUM_BYTES),
            },
        },
{
    match &offer.package {
        None => Err(UpdateError::UnexpectedResponse),
        Some((p, f, c)) => {
            if f.size == 0 || f.size > MAX_PACKAGE_BYTES || c.size > MAX_CHECKSUM_BYTES {
                Err(UpdateError::TooLarge)
            } else {
                Ok((*p, f.duplicate(), c.duplicate()))
            }
        },
    }
}

/// A finished download is kept only when it has the published size and the published digest.
pub fn accept_download(written: u64, size: u64, digest: &[u8], expected: &[u8; 32]) -> (r: Result<(), UpdateError>)
    ensures
        r is Ok <==> written == size && digest@ == expected@,
        r matches Err(e) ==> e == UpdateError::ChecksumMismatch,
{
    if written != size || digest.len() != 32 {
        return Err(UpdateError::ChecksumMismatch);
    }
    let mut i: usize = 0;
    while i < 32
        invariant
            digest@.len() == 32,
            i <= 32,
            forall|k: int| 0 <= k < i ==> digest@[k] == expected@[k],
        decreases 32 - i,
    {
        if digest[i] != expected[i] {
            return Err(UpdateError::ChecksumMismatch);
        }
        i = i + 1;
    }
    assert(digest@ =~= expected@);
    Ok(())
}

/// A body read up to one byte past `limit` is refused when it went past it.
pub fn within_limit(length: u64, limit: u64) -> (r: Result<(), UpdateError>)
    ensures
        r is Ok <==> length <= limit,
        r matches Err(e) ==> e == UpdateError::TooLarge,
{
    if length > limit {
        Err(UpdateError::TooLarge)
    } else {
        Ok(())
    }
}

} // verus!
