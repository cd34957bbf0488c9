use multiplex::updater::{installed_app, updater_request};
use multiplex::update_flow::{after_check, after_download, chrome_button, classify, Found, UpdateState, UpdateStatus};
use multiplex::update::{
    accept_download, check, choose_offer, download_files, expected_digest, failed_version, mac_bundle,
    package_for, staged, staging_dir, updates_enabled, within_limit, Asset, Download, Installer, Offer,
    Package, Release, Staged, UpdateError, Version, DOWNLOAD_PREFIX, RELEASES_PAGE,
};

const MAC: Package = Package {
    asset: "Multiplex-macos-universal.zip",
    checksum: "Multiplex-macos-universal.zip.sha256",
    installer: Installer::MacAppZip,
};

fn release(tag: &str, draft: bool, assets: &[&str]) -> Release {
    Release {
        tag_name: tag.to_owned(),
        draft,
        html_url: format!("{RELEASES_PAGE}/tag/{tag}"),
        assets: assets
            .iter()
            .map(|name| Asset {
                name: (*name).to_owned(),
                browser_download_url: format!("{DOWNLOAD_PREFIX}{tag}/{name}"),
                size: 10,
            })
            .collect(),
    }
}

#[test]
fn versions_parse_with_or_without_a_v_and_order_numerically() {
    assert_eq!(Version::parse("v0.0.10"), Some(Version(0, 0, 10)));
    assert_eq!(Version::parse("1.2.3"), Some(Version(1, 2, 3)));
    assert_eq!(Version::parse("0.1"), None);
    assert_eq!(Version::parse("0.1.0-rc1"), None);
    assert_eq!(Version::parse("0.1.0.0"), None);
    assert!(Version(0, 0, 10) > Version(0, 0, 9));
}

#[test]
fn version_numbers_read_as_the_standard_library_reads_them() {
    assert_eq!(Version::parse("+1.2.3"), Some(Version(1, 2, 3)));
    assert_eq!(Version::parse("vv1.2.3"), None);
    assert_eq!(Version::parse("1..3"), None);
    assert_eq!(Version::parse("18446744073709551615.0.0"), Some(Version(u64::MAX, 0, 0)));
    assert_eq!(Version::parse("18446744073709551616.0.0"), None);
    assert_eq!(Version::parse(""), None);
    assert!(Version(1, 0, 0).is_newer_than(&Version(0, 9, 9)));
    assert!(!Version(1, 0, 0).is_newer_than(&Version(1, 0, 0)));
    assert_eq!(Version(0, 10, 200).text(), "0.10.200");
}

#[test]
fn the_newest_published_release_above_this_one_is_offered() {
    let offer = choose_offer(
        &vec![
            release("v0.0.3", false, &[MAC.asset, MAC.checksum]),
            release("v0.0.5", true, &[MAC.asset, MAC.checksum]),
            release("v0.0.4", false, &[MAC.asset, MAC.checksum]),
            release("nightly", false, &[]),
        ],
        Version(0, 0, 3),
        Some(MAC),
    )
    .unwrap();
    assert_eq!(offer.version, Version(0, 0, 4));
    assert_eq!(offer.page, format!("{RELEASES_PAGE}/tag/v0.0.4"));
    let (_, file, checksum) = offer.package.unwrap();
    assert!(file.url.ends_with("/v0.0.4/Multiplex-macos-universal.zip"));
    assert!(checksum.url.ends_with(".zip.sha256"));
}

#[test]
fn nothing_is_offered_when_this_copy_is_current() {
    let offered = choose_offer(
        &vec![release("v0.0.3", false, &[MAC.asset, MAC.checksum])],
        Version(0, 0, 3),
        Some(MAC),
    );
    assert_eq!(offered, None);
}

#[test]
fn a_release_missing_this_platforms_files_is_offered_as_a_page_only() {
    let offer = choose_offer(&vec![release("v0.0.4", false, &[MAC.asset])], Version(0, 0, 3), Some(MAC)).unwrap();
    assert_eq!(offer.package, None);
}

#[test]
fn a_download_from_anywhere_but_this_repository_is_refused() {
    let mut hostile = release("v0.0.4", false, &[MAC.asset, MAC.checksum]);
    hostile.assets[0].browser_download_url = "https://example.com/Multiplex-macos-universal.zip".to_owned();
    let offer = choose_offer(&vec![hostile], Version(0, 0, 3), Some(MAC)).unwrap();
    assert_eq!(offer.package, None);
}

#[test]
fn a_release_page_elsewhere_is_replaced_by_this_repositorys() {
    let mut elsewhere = release("v0.0.4", false, &[]);
    elsewhere.html_url = "https://example.com/release".to_owned();
    let offer = choose_offer(&vec![elsewhere], Version(0, 0, 3), None).unwrap();
    assert_eq!(offer.page, RELEASES_PAGE);
    assert_eq!(offer.package, None);
}

#[test]
fn a_version_that_failed_to_install_is_offered_as_its_page() {
    let releases = vec![release("v0.0.4", false, &[MAC.asset, MAC.checksum])];
    let offer = check(&releases, Version(0, 0, 3), Some(MAC), Some(Version(0, 0, 4))).unwrap();
    assert_eq!(offer.package, None);
    let offer = check(&releases, Version(0, 0, 3), Some(MAC), Some(Version(0, 0, 2))).unwrap();
    assert!(offer.package.is_some());
}

#[test]
fn the_checksum_file_is_read_as_shasum_writes_it() {
    let hex = "ab".repeat(32);
    let text = format!(
        "{}  Multiplex-linux-x86_64.tar.gz\n{hex}  Multiplex-macos-universal.zip\n",
        "cd".repeat(32)
    );
    assert_eq!(
        expected_digest(&text, "Multiplex-macos-universal.zip"),
        Some([0xab; 32])
    );
    assert_eq!(expected_digest(&text, "missing.zip"), None);
    assert_eq!(expected_digest("zz  a.zip", "a.zip"), None);
}

#[test]
fn a_binary_mode_checksum_line_counts_too() {
    let text = format!("{} *a.zip\r\n", "0F".repeat(32));
    assert_eq!(expected_digest(&text, "a.zip"), Some([0x0f; 32]));
    let short = format!("{}  a.zip\n", "0f".repeat(31));
    assert_eq!(expected_digest(&short, "a.zip"), None);
}

#[test]
fn only_installed_copies_update_themselves() {
    let local = "C:/Users/me/AppData/Local";
    assert_eq!(
        package_for("windows", "x86_64", "C:/Users/me/AppData/Local/Programs/Multiplex/multiplex.exe", Some(local.to_owned()))
            .map(|package| package.asset),
        Some("Multiplex-windows-x86_64.msi")
    );
    assert_eq!(
        package_for("windows", "aarch64", "C:/Users/me/AppData/Local/Programs/Multiplex/multiplex.exe", Some(local.to_owned()))
            .map(|package| package.asset),
        Some("Multiplex-windows-aarch64.msi")
    );
    assert_eq!(package_for("windows", "x86_64", "D:/tools/Multiplex/multiplex.exe", Some(local.to_owned())), None);
    assert_eq!(
        package_for("macos", "aarch64", "/Applications/Multiplex.app/Contents/MacOS/multiplex", None),
        Some(MAC)
    );
    assert_eq!(package_for("macos", "aarch64", "/Users/me/multiplex/target/release/multiplex", None), None);
    assert_eq!(package_for("linux", "x86_64", "/usr/bin/multiplex", None), None);
}

#[test]
fn the_bundle_is_the_nearest_app_folder() {
    assert_eq!(
        mac_bundle("/Applications/Multiplex.app/Contents/MacOS/multiplex").as_deref(),
        Some("/Applications/Multiplex.app")
    );
    assert_eq!(mac_bundle("/A.app/B.app/Contents/x").as_deref(), Some("/A.app/B.app"));
    assert_eq!(mac_bundle("/Applications/Multiplex.app").as_deref(), Some("/Applications/Multiplex.app"));
    assert_eq!(mac_bundle("/tmp/.app/x"), None);
    assert_eq!(mac_bundle("/usr/bin/multiplex"), None);
}

#[test]
fn a_staged_update_is_kept_only_while_it_is_newer_and_present() {
    let dir = "/data/updates";
    let record = Staged {
        version: Version(0, 0, 99),
        installer: Installer::MacAppZip,
        path: format!("{dir}/0.0.99/Multiplex-macos-universal.zip"),
    };
    assert_eq!(staged(Some(record.clone()), Version(0, 0, 3), dir, true), Some(record.clone()));
    assert_eq!(staged(Some(record.clone()), Version(0, 0, 3), dir, false), None);
    let old = Staged { version: Version(0, 0, 0), ..record.clone() };
    assert_eq!(staged(Some(old), Version(0, 0, 3), dir, true), None);
    let elsewhere = Staged { path: "/tmp/elsewhere.zip".to_owned(), ..record };
    assert_eq!(staged(Some(elsewhere), Version(0, 0, 3), dir, true), None);
    assert_eq!(staged(None, Version(0, 0, 3), dir, true), None);
    assert_eq!(staging_dir(Some("/data".to_owned())).as_deref(), Some("/data/updates"));
    assert_eq!(staging_dir(None), None);
}

#[test]
fn a_failed_version_is_read_back() {
    assert_eq!(failed_version(None), None);
    assert_eq!(failed_version(Some("0.0.4\n".to_owned())), Some(Version(0, 0, 4)));
    assert_eq!(failed_version(Some("  v1.2.3 \t".to_owned())), Some(Version(1, 2, 3)));
    assert_eq!(failed_version(Some("garbage".to_owned())), None);
}

#[test]
fn downloads_are_bounded_and_checked() {
    let file = Download { url: "u".to_owned(), size: 10 };
    let sum = Download { url: "s".to_owned(), size: 100 };
    let offer = Offer { version: Version(0, 0, 4), page: "p".to_owned(), package: Some((MAC, file.clone(), sum.clone())) };
    assert_eq!(download_files(&offer).unwrap(), (MAC, file.clone(), sum.clone()));
    let empty = Offer { package: Some((MAC, Download { url: "u".to_owned(), size: 0 }, sum)), ..offer.clone() };
    assert_eq!(download_files(&empty).unwrap_err(), UpdateError::TooLarge);
    let none = Offer { package: None, ..offer };
    assert_eq!(download_files(&none).unwrap_err(), UpdateError::UnexpectedResponse);
    assert!(accept_download(10, 10, &[7; 32], &[7; 32]).is_ok());
    assert_eq!(accept_download(9, 10, &[7; 32], &[7; 32]).unwrap_err(), UpdateError::ChecksumMismatch);
    assert_eq!(accept_download(10, 10, &[8; 32], &[7; 32]).unwrap_err(), UpdateError::ChecksumMismatch);
    assert_eq!(within_limit(5, 4).unwrap_err(), UpdateError::TooLarge);
    assert!(within_limit(4, 4).is_ok());
    assert!(updates_enabled(false, false));
    assert!(!updates_enabled(true, false));
    assert!(!updates_enabled(false, true));
}

fn ready_record() -> Staged {
    Staged { version: Version(0, 3, 0), installer: Installer::MacAppZip, path: "/tmp/staged.zip".to_owned() }
}

fn offer_of(package: bool) -> Offer {
    Offer {
        version: Version(0, 3, 0),
        page: format!("{RELEASES_PAGE}/tag/v0.3.0"),
        package: if package {
            Some((
                MAC,
                Download { url: "https://example.invalid/a.zip".to_owned(), size: 10 },
                Download { url: "https://example.invalid/a.zip.sha256".to_owned(), size: 1 },
            ))
        } else {
            None
        },
    }
}

#[test]
fn a_window_opens_off_ready_or_idle() {
    assert!(matches!(UpdateState::open(false, Some(ready_record())).status, UpdateStatus::Off));
    assert!(matches!(UpdateState::open(true, Some(ready_record())).status, UpdateStatus::Ready(_)));
    assert!(matches!(UpdateState::open(true, None).status, UpdateStatus::Idle));
}

#[test]
fn a_check_never_starts_over_a_busy_state() {
    let mut idle = UpdateState::open(true, None);
    assert!(!idle.busy());
    assert!(idle.begin_check());
    assert!(matches!(idle.status, UpdateStatus::Checking));
    assert!(idle.busy());
    assert!(!idle.begin_check());
    let mut off = UpdateState::open(false, None);
    assert!(!off.begin_check());
    assert!(matches!(off.status, UpdateStatus::Off));
    let mut failed = UpdateState { status: UpdateStatus::Failed };
    assert!(failed.begin_check());
}

#[test]
fn an_installable_release_downloads_only_when_updates_are_automatic() {
    assert!(matches!(classify(Ok(Some(offer_of(true))), true), Ok(Found::Download(_))));
    assert!(matches!(classify(Ok(Some(offer_of(true))), false), Ok(Found::Manual(_))));
    assert!(matches!(classify(Ok(Some(offer_of(false))), true), Ok(Found::Manual(_))));
    assert!(matches!(classify(Ok(None), true), Ok(Found::Current)));
    assert!(matches!(classify(Err(UpdateError::Network), true), Err(UpdateError::Network)));
}

#[test]
fn a_check_moves_the_interface_along() {
    let (status, start) = after_check(Ok(Found::Download(offer_of(true))), Some("/tmp/stage".to_owned()));
    assert!(matches!(status, UpdateStatus::Downloading(Version(0, 3, 0))));
    assert_eq!(start.unwrap().1, "/tmp/stage");
    let (status, start) = after_check(Ok(Found::Download(offer_of(true))), None);
    assert!(matches!(status, UpdateStatus::Failed) && start.is_none());
    let (status, _) = after_check(Ok(Found::Manual(offer_of(false))), None);
    assert!(matches!(status, UpdateStatus::Manual { version: Version(0, 3, 0), .. }));
    assert!(matches!(after_check(Ok(Found::Current), None).0, UpdateStatus::UpToDate));
    assert!(matches!(after_check(Err(UpdateError::Network), None).0, UpdateStatus::Failed));
}

#[test]
fn a_package_that_did_not_arrive_whole_points_at_the_release_page() {
    let page = format!("{RELEASES_PAGE}/tag/v0.3.0");
    assert!(matches!(after_download(Ok(ready_record()), Version(0, 3, 0), page.clone()), UpdateStatus::Ready(_)));
    match after_download(Err(UpdateError::ChecksumMismatch), Version(0, 3, 0), page.clone()) {
        UpdateStatus::Manual { version, page: shown } => {
            assert_eq!(version, Version(0, 3, 0));
            assert_eq!(shown, page);
        },
        _ => panic!("expected the release page"),
    }
    assert!(matches!(after_download(Err(UpdateError::Storage), Version(0, 3, 0), page), UpdateStatus::Failed));
}

#[test]
fn the_top_bar_offers_a_restart_or_the_release_page() {
    assert_eq!(chrome_button(&UpdateStatus::Ready(ready_record())), Some(true));
    assert_eq!(
        chrome_button(&UpdateStatus::Manual { version: Version(0, 3, 0), page: String::new() }),
        Some(false)
    );
    assert_eq!(chrome_button(&UpdateStatus::Idle), None);
}

fn words(list: &[&str]) -> Vec<String> {
    list.iter().map(|word| word.to_string()).collect()
}

#[test]
fn the_updater_only_installs_a_package_this_app_staged() {
    let staging = Some("/data/updates".to_owned());
    let request = updater_request(
        &words(&["/data/updates/0.3.0/Multiplex-macos-universal.zip", "0.3.0", "4242"]),
        staging.clone(),
        true,
    )
    .unwrap();
    assert_eq!(request.version, Version(0, 3, 0));
    assert_eq!(request.parent, 4242);
    assert_eq!(request.installer, Installer::MacAppZip);
    let msi = updater_request(&words(&["/data/updates/0.3.0/Multiplex.msi", "v0.3.0", "7"]), staging.clone(), true)
        .unwrap();
    assert_eq!(msi.installer, Installer::WindowsMsi);
    // Someone else's path, a missing file, a bad version or pid, too few words, no staging folder.
    assert!(updater_request(&words(&["/tmp/evil.zip", "0.3.0", "1"]), staging.clone(), true).is_none());
    assert!(updater_request(&words(&["/data/updates-x/a.zip", "0.3.0", "1"]), staging.clone(), true).is_none());
    assert!(updater_request(&words(&["/data/updates/a.zip", "0.3.0", "1"]), staging.clone(), false).is_none());
    assert!(updater_request(&words(&["/data/updates/a.zip", "0.3", "1"]), staging.clone(), true).is_none());
    assert!(updater_request(&words(&["/data/updates/a.zip", "0.3.0", "4294967296"]), staging.clone(), true).is_none());
    assert!(updater_request(&words(&["/data/updates/a.zip", "0.3.0"]), staging, true).is_none());
    assert!(updater_request(&words(&["/data/updates/a.zip", "0.3.0", "1"]), None, true).is_none());
}

#[test]
fn after_an_install_the_bundle_or_the_executable_is_opened() {
    assert_eq!(
        installed_app("/Applications/Multiplex.app/Contents/MacOS/multiplex", true).as_deref(),
        Some("/Applications/Multiplex.app")
    );
    assert_eq!(installed_app("/usr/bin/multiplex", true), None);
    assert_eq!(installed_app("C:/Multiplex/multiplex.exe", false).as_deref(), Some("C:/Multiplex/multiplex.exe"));
}

#[test]
fn nothing_runs_without_the_three_arguments() {
    assert!(updater_request(&Vec::new(), Some("/data/updates".to_owned()), true).is_none());
    assert!(updater_request(&words(&["only-one"]), Some("/data/updates".to_owned()), true).is_none());
}

#[test]
fn a_version_text_parses_back_to_the_version() {
    for version in [Version(0, 0, 4), Version(1, 20, 300), Version(u64::MAX, 0, 10)] {
        assert_eq!(Version::parse(&version.text()), Some(version));
    }
    assert_eq!(Version(1, 20, 300).text(), "1.20.300");
}
