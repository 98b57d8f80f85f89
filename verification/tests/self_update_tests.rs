use winuxsh::self_update::{
    parse_version_tag, release_is_newer, request_headers_for_token, response_error_detail,
    safe_asset_name, select_installer_asset, select_portable_asset, GitHubAsset, ParsedUrl,
};

fn asset(name: &str) -> GitHubAsset {
    GitHubAsset {
        name: name.to_string(),
        browser_download_url: format!("https://example.invalid/{name}"),
    }
}

#[test]
fn selects_matching_installer_asset() {
    let assets = vec![
        asset("winuxsh-v0.8.1-win-x64.zip"),
        asset("winuxsh-v0.8.1-win-x64-setup.exe"),
        asset("winuxsh-v0.8.1-win-arm64-setup.exe"),
    ];
    assert_eq!(
        select_installer_asset(&assets, "x64").map(|asset| asset.name.as_str()),
        Some("winuxsh-v0.8.1-win-x64-setup.exe")
    );
    assert_eq!(
        select_installer_asset(&assets, "arm64").map(|asset| asset.name.as_str()),
        Some("winuxsh-v0.8.1-win-arm64-setup.exe")
    );
    assert_eq!(
        select_portable_asset(&assets, "x64").map(|asset| asset.name.as_str()),
        Some("winuxsh-v0.8.1-win-x64.zip")
    );
}

#[test]
fn sanitizes_download_file_names() {
    assert_eq!(safe_asset_name("../bad setup.exe"), ".._bad_setup.exe");
}

#[test]
fn request_headers_include_github_rest_defaults() {
    let headers = request_headers_for_token(None);
    assert!(headers.contains("User-Agent: winuxsh/"));
    assert!(headers.contains("Accept: application/vnd.github+json"));
    assert!(headers.contains("X-GitHub-Api-Version: 2022-11-28"));
    assert!(!headers.contains("Authorization:"));
}

#[test]
fn request_headers_can_include_clean_github_token() {
    let headers = request_headers_for_token(Some("  ghp_test  "));
    assert!(headers.contains("Authorization: Bearer ghp_test\r\n"));
}

#[test]
fn request_headers_skip_header_injection_tokens() {
    let headers = request_headers_for_token(Some("good\r\nX-Bad: yes"));
    assert!(!headers.contains("Authorization:"));
}

#[test]
fn response_error_detail_trims_and_limits_output() {
    let detail = response_error_detail(b"\n first line \nsecond line\nthird line\nfourth line");
    assert_eq!(detail, "first line second line third line");
}

#[test]
fn parses_https_url_for_winhttp() {
    let parsed =
        ParsedUrl::parse("https://api.github.com/repos/unixwin/winuxsh/releases/latest?x=1").unwrap();
    assert!(parsed.secure);
    assert_eq!(parsed.host, "api.github.com");
    assert_eq!(parsed.port, 443);
    assert_eq!(parsed.path, "/repos/unixwin/winuxsh/releases/latest?x=1");
}

#[test]
fn strips_url_fragment_before_winhttp_request() {
    let parsed = ParsedUrl::parse("https://example.com/downloads/app.exe?x=1#asset").unwrap();
    assert_eq!(parsed.host, "example.com");
    assert_eq!(parsed.path, "/downloads/app.exe?x=1");
}

#[test]
fn rejects_invalid_url_port() {
    assert!(ParsedUrl::parse("https://example.com:not-a-port/file").is_err());
}

#[test]
fn compares_release_tags_without_downgrading() {
    assert!(release_is_newer("v0.8.2", "v0.8.1"));
    assert!(!release_is_newer("v0.8.1", "v0.8.1"));
    assert!(!release_is_newer("v0.8.0", "v0.8.1"));
}

#[test]
fn version_tags_parse_with_or_without_v() {
    assert_eq!(parse_version_tag("v1.2.3"), Some((1, 2, 3)));
    assert_eq!(parse_version_tag("1.2.3"), Some((1, 2, 3)));
    assert_eq!(parse_version_tag("v1.2"), None);
}

#[test]
fn response_error_detail_decodes_invalid_bytes_lossily() {
    let detail = response_error_detail(b"line one\n\n  second \xff\nthird\nfourth");
    assert_eq!(detail, "line one second \u{fffd} third");
}

#[test]
fn request_headers_name_the_package_version() {
    let headers = request_headers_for_token(None);
    assert!(headers.starts_with("User-Agent: winuxsh/0.6.0\r\n"));
}
