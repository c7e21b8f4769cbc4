use kpdf::platform::Platform;
use kpdf::updater::{
    check_for_updates, is_linux_installer, is_macos_app_zip, is_macos_dmg, is_windows_installer,
    normalize_version_label, parse_semver, resolve_update, select_asset_for_current_platform,
    select_linux_asset, select_macos_asset, select_windows_asset, GithubAsset, GithubRelease,
    UpdateCheck, UpdateError,
};

#[test]
fn normalize_version() {
    assert_eq!(normalize_version_label("v0.3.0"), "0.3.0");
    assert_eq!(normalize_version_label("V1.2.3"), "1.2.3");
    assert_eq!(normalize_version_label("refs/tags/v2.0.1"), "2.0.1");
    assert_eq!(normalize_version_label("0.4.0"), "0.4.0");
}

#[test]
fn select_assets_by_platform_patterns() {
    let assets = vec![
        GithubAsset {
            name: "macos-kPDF_0.3.1_aarch64.dmg".into(),
            browser_download_url: "https://example.com/macos.dmg".into(),
        },
        GithubAsset {
            name: "windows-kpdf_0.3.1_x64-setup.exe".into(),
            browser_download_url: "https://example.com/windows.exe".into(),
        },
        GithubAsset {
            name: "kpdf_0.3.1_amd64.deb".into(),
            browser_download_url: "https://example.com/linux.deb".into(),
        },
    ];

    assert!(select_macos_asset(&assets).is_some());
    assert!(select_windows_asset(&assets).is_some());
    assert!(select_linux_asset(&assets).is_some());
}

fn asset(name: &str, url: &str) -> GithubAsset {
    GithubAsset { name: name.to_string(), browser_download_url: url.to_string() }
}

fn release(tag: &str, assets: Vec<GithubAsset>) -> GithubRelease {
    GithubRelease {
        tag_name: tag.to_string(),
        html_url: "https://example.com/releases/latest".to_string(),
        assets,
    }
}

#[test]
fn normalize_version_trims_and_strips_repeated_marks() {
    assert_eq!(normalize_version_label("  vV1.0.0 \n"), "1.0.0");
    assert_eq!(normalize_version_label("refs/tags/ v3.1.4 "), "3.1.4");
    assert_eq!(normalize_version_label(""), "");
    assert_eq!(normalize_version_label("refs/heads/v1"), "refs/heads/v1");
}

#[test]
fn installer_predicates_match_names_case_insensitively() {
    assert!(is_macos_dmg("macOS-kPDF.DMG"));
    assert!(!is_macos_dmg("kPDF.dmg"));
    assert!(is_macos_app_zip("kpdf-macos.app.zip"));
    assert!(!is_macos_app_zip("kpdf-macos.zip"));
    assert!(is_windows_installer("kpdf-windows-x64.EXE"));
    assert!(!is_windows_installer("kpdf.exe"));
    assert!(is_linux_installer("kpdf.AppImage"));
    assert!(is_linux_installer("kpdf.rpm"));
    assert!(is_linux_installer("kpdf.tar.gz"));
    assert!(!is_linux_installer("kpdf.zip"));
}

#[test]
fn macos_prefers_dmg_then_app_zip() {
    let assets = vec![
        asset("macos-kpdf.app.zip", "https://example.com/zip"),
        asset("macos-kpdf.dmg", "https://example.com/dmg"),
    ];
    assert_eq!(select_macos_asset(&assets).unwrap().browser_download_url, "https://example.com/dmg");
    let zip_only = vec![asset("macos-kpdf.app.zip", "https://example.com/zip")];
    assert_eq!(select_macos_asset(&zip_only).unwrap().browser_download_url, "https://example.com/zip");
    assert!(select_macos_asset(&[asset("kpdf.deb", "x")]).is_none());
}

#[test]
fn asset_for_platform_follows_the_platform() {
    let assets = vec![
        asset("kpdf_0.3.1_amd64.deb", "https://example.com/linux.deb"),
        asset("windows-kpdf.exe", "https://example.com/windows.exe"),
    ];
    assert_eq!(
        select_asset_for_current_platform(Platform::Linux, &assets).unwrap().browser_download_url,
        "https://example.com/linux.deb"
    );
    assert_eq!(
        select_asset_for_current_platform(Platform::Windows, &assets).unwrap().browser_download_url,
        "https://example.com/windows.exe"
    );
    assert!(select_asset_for_current_platform(Platform::MacOs, &assets).is_none());
    assert!(select_asset_for_current_platform(Platform::Other, &assets).is_none());
}

#[test]
fn newer_release_offers_the_platform_download() {
    let r = release(
        "refs/tags/v0.4.0",
        vec![asset("macos-kPDF_0.4.0_aarch64.dmg", "https://example.com/macos.dmg")],
    );
    match check_for_updates("0.3.1", &r, Platform::MacOs) {
        Ok(UpdateCheck::UpdateAvailable(info)) => {
            assert_eq!(info.latest_version, "0.4.0");
            assert_eq!(info.download_url, "https://example.com/macos.dmg");
        }
        _ => panic!("an update was expected"),
    }
}

#[test]
fn newer_release_without_asset_offers_the_release_page() {
    let r = release("v1.0.0", vec![]);
    match check_for_updates("0.9.9", &r, Platform::Linux) {
        Ok(UpdateCheck::UpdateAvailable(info)) => {
            assert_eq!(info.download_url, "https://example.com/releases/latest");
        }
        _ => panic!("an update was expected"),
    }
}

#[test]
fn same_or_older_release_is_up_to_date() {
    let r = release("v0.3.1", vec![]);
    match check_for_updates("v0.3.1", &r, Platform::Linux) {
        Ok(UpdateCheck::UpToDate { latest_version }) => assert_eq!(latest_version, "0.3.1"),
        _ => panic!("up to date was expected"),
    }
    let older = release("0.2.9", vec![]);
    assert!(matches!(
        check_for_updates("0.3.0", &older, Platform::Linux),
        Ok(UpdateCheck::UpToDate { .. })
    ));
    let pre = release("1.0.0-beta.1", vec![]);
    assert!(matches!(
        check_for_updates("1.0.0", &pre, Platform::Linux),
        Ok(UpdateCheck::UpToDate { .. })
    ));
}

#[test]
fn invalid_versions_are_reported_latest_first() {
    let bad_latest = release("nightly", vec![]);
    match check_for_updates("garbage", &bad_latest, Platform::Linux) {
        Err(UpdateError::InvalidVersion { raw }) => assert_eq!(raw, "nightly"),
        _ => panic!("an invalid version was expected"),
    }
    let good_latest = release("v1.2.3", vec![]);
    match check_for_updates("v1.2", &good_latest, Platform::Linux) {
        Err(UpdateError::InvalidVersion { raw }) => assert_eq!(raw, "1.2"),
        _ => panic!("an invalid version was expected"),
    }
}

#[test]
fn parse_semver_reports_the_text() {
    assert!(parse_semver("1.2.3").is_ok());
    match parse_semver("1.2") {
        Err(UpdateError::InvalidVersion { raw }) => assert_eq!(raw, "1.2"),
        Ok(_) => panic!("1.2 is no semantic version"),
    }
}

#[test]
fn resolve_update_decides_by_the_comparison() {
    let r = release("v2.0.0", vec![asset("windows-kpdf.exe", "https://example.com/w.exe")]);
    assert!(matches!(
        resolve_update("2.0.0".to_string(), true, &r, Platform::Windows),
        UpdateCheck::UpToDate { .. }
    ));
    match resolve_update("2.0.0".to_string(), false, &r, Platform::Windows) {
        UpdateCheck::UpdateAvailable(info) => {
            assert_eq!(info.latest_version, "2.0.0");
            assert_eq!(info.download_url, "https://example.com/w.exe");
        }
        UpdateCheck::UpToDate { .. } => panic!("an update was expected"),
    }
}

#[test]
fn a_bare_version_survives_normalisation_in_every_dress() {
    let bare = "2.5.0-rc.1";
    assert_eq!(normalize_version_label(bare), bare);
    assert_eq!(normalize_version_label(&format!("v{bare}")), bare);
    assert_eq!(normalize_version_label(&format!("refs/tags/V{bare}")), bare);
    assert_eq!(normalize_version_label(&format!("  vV{bare}\n")), bare);
}

#[test]
fn normalisation_keeps_the_end_of_the_trimmed_text() {
    for raw in ["  vvV7.1 ", "refs/tags/ \tV0.2", "\u{3000}x1\u{3000}", "vvv", " refs/tags/ "] {
        let out = normalize_version_label(raw);
        assert!(raw.trim().ends_with(out.as_str()), "{raw:?} gave {out:?}");
        assert!(!out.starts_with('v') && !out.starts_with('V'), "{raw:?} gave {out:?}");
    }
}

#[test]
fn version_errors_say_which_text_is_no_version() {
    let e = UpdateError::InvalidVersion { raw: "nightly".to_string() };
    assert_eq!(e.message(), "invalid version: nightly");
}
