use pandora_site::classify::{
    classify, classify_name, unmatched_names, DownloadCategory, ReleaseAsset,
};

fn b(s: &str) -> Vec<u8> {
    s.as_bytes().to_vec()
}

fn asset(name: &str, url: &str) -> ReleaseAsset {
    ReleaseAsset {
        name: b(name),
        download_url: b(url),
    }
}

#[test]
fn dmg_classifies_as_mac_installer() {
    assert_eq!(
        classify_name(&b("Pandora.dmg")),
        Some(DownloadCategory::MacInstaller)
    );
}

#[test]
fn appimage_classifies_as_linux_appimage() {
    assert_eq!(
        classify_name(&b("Pandora.AppImage")),
        Some(DownloadCategory::LinuxAppImage)
    );
}

#[test]
fn deb_classifies_as_linux_debian_installer() {
    assert_eq!(
        classify_name(&b("Pandora.deb")),
        Some(DownloadCategory::LinuxDebianInstaller)
    );
}

#[test]
fn setup_exe_classifies_as_windows_installer() {
    assert_eq!(
        classify_name(&b("Pandora-Setup.exe")),
        Some(DownloadCategory::WindowsInstaller)
    );
}

#[test]
fn plain_exe_classifies_as_windows_portable() {
    assert_eq!(
        classify_name(&b("Pandora.exe")),
        Some(DownloadCategory::WindowsPortable)
    );
}

#[test]
fn macos_substring_classifies_as_mac_portable() {
    assert_eq!(
        classify_name(&b("Pandora-macOS-arm64")),
        Some(DownloadCategory::MacPortable)
    );
}

#[test]
fn linux_substring_classifies_as_linux_portable() {
    assert_eq!(
        classify_name(&b("Pandora-Linux-x86_64")),
        Some(DownloadCategory::LinuxPortable)
    );
}

#[test]
fn setup_exe_takes_precedence_over_plain_exe() {
    // Ends in ".exe" too, but the installer rule is tried first.
    assert_eq!(
        classify_name(&b("App-Setup.exe")),
        Some(DownloadCategory::WindowsInstaller)
    );
}

#[test]
fn unrecognized_names_classify_as_none() {
    assert_eq!(classify_name(&b("unknown.bin")), None);
    assert_eq!(classify_name(&b("README.md")), None);
    assert_eq!(classify_name(&b("")), None);
}

#[test]
fn all_rules_combine_in_one_asset_list() {
    let assets = vec![
        asset("Pandora-Setup.exe", "u1"),
        asset("Pandora.exe", "u2"),
        asset("Pandora.deb", "u3"),
        asset("Pandora.AppImage", "u4"),
        asset("Pandora-Linux-x86_64", "u5"),
        asset("Pandora.dmg", "u6"),
        asset("Pandora-macOS-arm64", "u7"),
    ];
    let map = classify(&assets);
    assert_eq!(map.get(DownloadCategory::WindowsInstaller), Some(&b("u1")));
    assert_eq!(map.get(DownloadCategory::WindowsPortable), Some(&b("u2")));
    assert_eq!(
        map.get(DownloadCategory::LinuxDebianInstaller),
        Some(&b("u3"))
    );
    assert_eq!(map.get(DownloadCategory::LinuxAppImage), Some(&b("u4")));
    assert_eq!(map.get(DownloadCategory::LinuxPortable), Some(&b("u5")));
    assert_eq!(map.get(DownloadCategory::MacInstaller), Some(&b("u6")));
    assert_eq!(map.get(DownloadCategory::MacPortable), Some(&b("u7")));
}

#[test]
fn unmatched_asset_is_dropped_silently() {
    let assets = vec![asset("unknown.bin", "u1"), asset("Pandora.dmg", "u2")];
    let map = classify(&assets);
    assert_eq!(map.get(DownloadCategory::MacInstaller), Some(&b("u2")));
    assert_eq!(map.get(DownloadCategory::WindowsInstaller), None);
    assert_eq!(map.get(DownloadCategory::WindowsPortable), None);
    assert_eq!(map.get(DownloadCategory::LinuxDebianInstaller), None);
    assert_eq!(map.get(DownloadCategory::LinuxAppImage), None);
    assert_eq!(map.get(DownloadCategory::LinuxPortable), None);
    assert_eq!(map.get(DownloadCategory::MacPortable), None);
}

#[test]
fn later_asset_wins_for_same_category() {
    let assets = vec![
        asset("Pandora-old.dmg", "https://example.invalid/old"),
        asset("Pandora-new.dmg", "https://example.invalid/new"),
    ];
    let map = classify(&assets);
    assert_eq!(
        map.get(DownloadCategory::MacInstaller),
        Some(&b("https://example.invalid/new"))
    );
}

#[test]
fn empty_asset_list_gives_empty_map() {
    let assets: Vec<ReleaseAsset> = Vec::new();
    let map = classify(&assets);
    assert_eq!(map.get(DownloadCategory::WindowsInstaller), None);
    assert_eq!(map.get(DownloadCategory::MacInstaller), None);
    assert_eq!(map.get(DownloadCategory::LinuxPortable), None);
}

#[test]
fn unmatched_names_are_collected_in_order() {
    let assets = vec![
        asset("first.bin", "u1"),
        asset("Pandora.dmg", "u2"),
        asset("second.bin", "u3"),
    ];
    let names = unmatched_names(&assets);
    assert_eq!(names, vec![b("first.bin"), b("second.bin")]);
}
