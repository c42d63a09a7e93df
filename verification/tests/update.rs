use codex_plus_core::json::parse_json;
use codex_plus_core::platform::{Arch, Platform};
use codex_plus_core::update::{
    bounded_release_summary, comparison_error_message, download_name, install_error_message,
    installer_launch, is_newer_version, launch_error_message, parse_version_tag,
    release_from_github_payload, release_from_latest_json_payload, safe_asset_name,
    select_update_asset, update_check, update_source, version_error_message, InstallError,
    InstallerLaunch, Release, ReleaseError, VersionError, DEFAULT_LATEST_RELEASE_API_URL,
    DEFAULT_RELEASES_PAGE_URL, DEFAULT_REPOSITORY, MAX_RELEASE_SUMMARY_CHARS,
};

#[test]
fn version_tags_are_read() {
    assert_eq!(parse_version_tag(" v1.2.49 ").unwrap(), vec![1, 2, 49]);
    assert_eq!(parse_version_tag("VvV3").unwrap(), vec![3]);
    assert_eq!(parse_version_tag("1.0-beta.2+x").unwrap(), vec![1, 0]);
    assert_eq!(parse_version_tag("007.1").unwrap(), vec![7, 1]);
    for bad in ["", "v", "v-1", ".1", "1.", "1.x", "1.0-a b", "１"] {
        assert_eq!(parse_version_tag(bad).unwrap_err(), VersionError::InvalidTag, "{bad}");
    }
    assert_eq!(parse_version_tag("1..2").unwrap_err(), VersionError::EmptyNumber);
    assert_eq!(
        parse_version_tag("1.18446744073709551616").unwrap_err(),
        VersionError::LargeNumber
    );
    assert_eq!(
        parse_version_tag("18446744073709551615").unwrap(),
        vec![u64::MAX]
    );
}

#[test]
fn versions_are_compared_number_by_number() {
    let newer = |a: &str, b: &str| is_newer_version(a, b).unwrap();
    assert!(newer("v1.2.50", "1.2.49"));
    assert!(newer("1.10", "1.9.9"));
    assert!(!newer("1.2", "1.2.0"));
    assert!(!newer("1.2.0", "1.2"));
    assert!(newer("1.2.0.1", "1.2"));
    assert!(!newer("1.2-rc1", "1.2"));
    for other in ["1.2", "v1.1.9", "1.2.0.1", "2", "1.2-beta"] {
        for tag in ["1.2", "v1.2.0", " V0.9"] {
            for longer in [
                format!("{tag}-rc.1"),
                format!("{tag}+build-7"),
                format!("{tag}.0"),
                format!("{tag}.0-rc+1"),
            ] {
                assert_eq!(newer(&longer, other), newer(tag, other));
                assert_eq!(newer(other, &longer), newer(other, tag));
            }
        }
    }
    assert_eq!(is_newer_version("x", "1").unwrap_err(), VersionError::InvalidTag);
    assert_eq!(is_newer_version("1", "y").unwrap_err(), VersionError::InvalidTag);
    assert_eq!(
        comparison_error_message(VersionError::InvalidTag, "x", "y"),
        "Invalid version tag: x"
    );
    assert_eq!(
        comparison_error_message(VersionError::InvalidTag, "1", "y"),
        "Invalid version tag: y"
    );
}

#[test]
fn summaries_are_bounded() {
    assert_eq!(bounded_release_summary(""), "");
    assert_eq!(bounded_release_summary("\r\n a \r\n\r\n\r\n b \r c"), "a\n\nb\nc");
    let lines = (0..13).map(|i| format!("l{i}")).collect::<Vec<_>>();
    assert_eq!(
        bounded_release_summary(&lines.join("\n")),
        format!("{}\n\n[Release notes truncated]", lines[..12].join("\n"))
    );
    assert_eq!(bounded_release_summary(&lines[..12].join("\n")), lines[..12].join("\n"));
    let long = "é".repeat(MAX_RELEASE_SUMMARY_CHARS);
    assert_eq!(bounded_release_summary(&long), long);
    assert_eq!(
        bounded_release_summary(&format!("{long}x")),
        format!("{long}\n\n[Release notes truncated]")
    );
    assert_eq!(
        bounded_release_summary(&format!("{long}\ny")),
        format!("{long}\n\n[Release notes truncated]")
    );
}

fn assets(names: &[&str]) -> Vec<(String, String)> {
    names
        .iter()
        .map(|name| (name.to_string(), format!("https://h/{name}")))
        .collect()
}

fn chosen(names: &[&str], platform: Platform, arch: Arch) -> Option<String> {
    select_update_asset(&assets(names), platform, arch).map(|asset| asset.name)
}

#[test]
fn assets_are_selected_for_platform_and_architecture() {
    let names = [
        "Codex++Plus-setup-x64.exe",
        "CodexPlusPlus-x64.msi",
        "CodexPlusPlus-arm64.msi",
        "CodexPlus-arm64.dmg",
        "CodexPlus-x64.dmg",
        "CodexPlus.pkg",
        "other.msi",
    ];
    let name = |s: &str| Some(s.to_string());
    assert_eq!(
        chosen(&names, Platform::Windows, Arch::X86_64),
        name("CodexPlusPlus-x64.msi")
    );
    assert_eq!(
        chosen(&names[..1], Platform::Windows, Arch::X86_64),
        name("Codex++Plus-setup-x64.exe")
    );
    assert_eq!(
        chosen(&names, Platform::Windows, Arch::Aarch64),
        name("CodexPlusPlus-arm64.msi")
    );
    assert_eq!(chosen(&names, Platform::Windows, Arch::Other), None);
    assert_eq!(
        chosen(&names, Platform::MacOs, Arch::Aarch64),
        name("CodexPlus-arm64.dmg")
    );
    assert_eq!(
        chosen(&names, Platform::MacOs, Arch::X86_64),
        name("CodexPlus-x64.dmg")
    );
    assert_eq!(chosen(&names, Platform::MacOs, Arch::Other), name("CodexPlus.pkg"));
    assert_eq!(chosen(&names, Platform::Other, Arch::X86_64), None);
    assert_eq!(
        select_update_asset(
            &[("codexplus.msi".to_string(), " ".to_string())],
            Platform::Windows,
            Arch::X86_64
        )
        .is_none(),
        true
    );
    assert_eq!(chosen(&["codexplus-tool.exe"], Platform::Windows, Arch::X86_64), None);
}

#[test]
fn releases_are_read_from_github() {
    let payload = parse_json(
        r#"{"tag_name":"v2","html_url":"u","body":"a\n\n\nb","draft":false,"assets":[
            {"name":"codexplus.msi","browser_download_url":"https://h/m"},{"name":1}]}"#,
    )
    .unwrap();
    let release =
        release_from_github_payload(&payload, Platform::Windows, Arch::X86_64).unwrap();
    assert_eq!(
        release,
        Release {
            version: "v2".to_string(),
            url: "u".to_string(),
            body: "a\n\nb".to_string(),
            asset_name: Some("codexplus.msi".to_string()),
            asset_url: Some("https://h/m".to_string()),
        }
    );
    let error = |text: &str| {
        release_from_github_payload(&parse_json(text).unwrap(), Platform::Other, Arch::Other)
            .unwrap_err()
    };
    let draft = error(r#"{"draft":true,"prerelease":true}"#);
    assert!(matches!(draft, ReleaseError::Draft));
    assert_eq!(draft.message(), "latest GitHub release is a draft");
    assert_eq!(
        error(r#"{"prerelease":true}"#).message(),
        "latest GitHub release is a prerelease"
    );
    assert_eq!(error("{}").message(), "release payload missing tag_name");
}

#[test]
fn releases_are_read_from_a_list() {
    let read = |text: &str| {
        release_from_latest_json_payload(
            &parse_json(text).unwrap(),
            Platform::MacOs,
            Arch::Aarch64,
        )
    };
    let release = read(
        r#"{"tag_name":"3","html_url":"u","notes":" n ","assets":[
            {"name":"CodexPlus.dmg","url":"https://h/d","browser_download_url":"x"}]}"#,
    )
    .unwrap();
    assert_eq!(release.version, "3");
    assert_eq!(release.url, "u");
    assert_eq!(release.body, " n ");
    assert_eq!(release.asset_url, Some("https://h/d".to_string()));
    assert_eq!(read(r#"{"version":1,"tag_name":"3"}"#).unwrap_err().message(), "latest.json missing version");
    assert_eq!(read(r#"{"version":"1","body":2,"notes":"n"}"#).unwrap().body, "");
}

fn release(version: &str, name: Option<&str>, url: Option<&str>) -> Release {
    Release {
        version: version.to_string(),
        url: String::new(),
        body: "notes".to_string(),
        asset_name: name.map(str::to_string),
        asset_url: url.map(str::to_string),
    }
}

#[test]
fn newer_releases_are_offered_and_installed() {
    let check = update_check(release("2", Some("n"), Some("u")), "1.9").unwrap();
    assert!(check.update_available);
    assert_eq!(check.current_version, "1.9");
    assert_eq!(check.latest_version, Some("2".to_string()));
    assert_eq!(check.release_summary, "notes");
    assert!(!update_check(release("1", None, None), "1.0").unwrap().update_available);
    assert_eq!(update_check(release("x", None, None), "1").unwrap_err(), VersionError::InvalidTag);

    assert_eq!(update_source(&release("2", None, Some("u")), "1").unwrap(), "u");
    let words = |version: &str, name: Option<&str>, error: InstallError| {
        install_error_message(error, &release(version, name, None), "1")
    };
    assert_eq!(
        update_source(&release("1", None, Some("u")), "1").unwrap_err(),
        InstallError::NotNewer
    );
    assert_eq!(
        words("1", None, InstallError::NotNewer),
        "Release 1 is not newer than the installed version 1"
    );
    assert_eq!(
        update_source(&release("2", None, None), "1").unwrap_err(),
        InstallError::NoAsset
    );
    assert_eq!(words("2", None, InstallError::NoAsset), "没有可下载的 Release asset");
    assert_eq!(
        words("2", Some("../x"), InstallError::IllegalName),
        "非法 Release asset 文件名: ../x"
    );
    assert_eq!(
        words("x", None, InstallError::Version(VersionError::InvalidTag)),
        "Invalid version tag: x"
    );
    assert_eq!(
        version_error_message(VersionError::EmptyNumber, ""),
        "".parse::<u64>().unwrap_err().to_string()
    );
    assert_eq!(
        version_error_message(VersionError::LargeNumber, ""),
        "99999999999999999999".parse::<u64>().unwrap_err().to_string()
    );
}

#[test]
fn asset_names_stay_in_the_directory() {
    let name = |s: &str| safe_asset_name(s, Platform::Other);
    assert_eq!(name("a.msi").unwrap(), "a.msi");
    assert_eq!(name("a b").unwrap(), "a b");
    for bad in ["", " ", ".", "..", "/", "a/b", "../a", "/a", "./a"] {
        assert_eq!(name(bad).unwrap_err(), InstallError::IllegalName, "{bad}");
    }
    assert_eq!(name("a\\b").unwrap(), "a\\b");
    assert!(safe_asset_name("a\\b", Platform::Windows).is_err());
    assert!(safe_asset_name("C:a", Platform::Windows).is_err());
    assert_eq!(
        download_name(&release("1", Some("a"), None), Platform::Windows).unwrap(),
        "a"
    );
    assert_eq!(
        download_name(&release("1", None, None), Platform::Windows).unwrap_err(),
        InstallError::NoAsset
    );
}

#[test]
fn file_names_are_those_of_the_standard_library() {
    let parts = ["", ".", "..", "a", "b.js", "/", "//", ".x", "c.", "d.e.js", " "];
    for first in parts {
        for second in parts {
            for third in parts {
                let text = format!("{first}{second}{third}");
                let path = std::path::Path::new(&text);
                let expected = if text.trim().is_empty() || path.components().count() != 1 {
                    None
                } else {
                    path.file_name().and_then(|name| name.to_str()).map(str::to_string)
                };
                assert_eq!(
                    safe_asset_name(&text, Platform::Other).ok(),
                    expected,
                    "{text:?}"
                );
            }
        }
    }
}

#[test]
fn installers_are_started_as_the_platform_does() {
    assert_eq!(installer_launch(Platform::Windows), InstallerLaunch::Run);
    assert_eq!(installer_launch(Platform::MacOs), InstallerLaunch::Open);
    assert_eq!(installer_launch(Platform::Other), InstallerLaunch::Unsupported);
    assert_eq!(launch_error_message(InstallerLaunch::Run, "x"), "启动安装包失败：x");
    assert_eq!(launch_error_message(InstallerLaunch::Open, "x"), "打开 DMG 失败：x");
    assert_eq!(
        launch_error_message(InstallerLaunch::Unsupported, "x"),
        "当前平台不支持启动安装包"
    );
    assert!(DEFAULT_LATEST_RELEASE_API_URL.contains(DEFAULT_REPOSITORY));
    assert!(DEFAULT_RELEASES_PAGE_URL.contains(DEFAULT_REPOSITORY));
}
