use jabba_shim::download::{
    asset_name, check_digest, exe_suffix, find_asset, jabba_arch, jabba_os, noshim_file_name,
    normalize_repo, release_api_url, release_path, release_slug, verify_sha256, Asset,
    DownloadError,
};

const ABC_SHA256: &str = "ba7816bf8f01cfea414140de5dae2223b00361a396177a9cb410ff61f20015ad";

#[test]
fn repo_and_url() {
    assert_eq!(normalize_repo("  https://github.com/Jabba-Team/jabba//"), "https://github.com/Jabba-Team/jabba");
    assert_eq!(release_slug("https://github.com/Jabba-Team/jabba.git"), "Jabba-Team/jabba");
    assert_eq!(release_slug("http://github.com/a/b"), "a/b");
    assert_eq!(
        release_api_url("https://github.com/Jabba-Team/jabba", None),
        "https://api.github.com/repos/Jabba-Team/jabba/releases/latest"
    );
    assert_eq!(
        release_api_url("https://github.com/Jabba-Team/jabba", Some("latest")),
        "https://api.github.com/repos/Jabba-Team/jabba/releases/latest"
    );
    assert_eq!(
        release_api_url("https://github.com/Jabba-Team/jabba", Some(" v0.15.0 ")),
        "https://api.github.com/repos/Jabba-Team/jabba/releases/tags/0.15.0"
    );
    assert_eq!(release_path(Some(" latest")), "tags/latest");
    assert_eq!(release_path(Some("0.14.0")), "tags/0.14.0");
}

#[test]
fn platform_names() {
    assert_eq!(jabba_os("linux").unwrap(), "linux");
    assert_eq!(jabba_os("macos").unwrap(), "darwin");
    assert_eq!(jabba_os("windows").unwrap(), "windows");
    assert_eq!(jabba_os("freebsd"), Err(DownloadError::UnsupportedOs("freebsd".to_string())));
    assert_eq!(jabba_arch("x86_64").unwrap(), "amd64");
    assert_eq!(jabba_arch("aarch64").unwrap(), "arm64");
    assert_eq!(jabba_arch("x86").unwrap(), "386");
    assert_eq!(jabba_arch("arm").unwrap(), "arm");
    assert_eq!(jabba_arch("riscv64"), Err(DownloadError::UnsupportedArch("riscv64".to_string())));
    assert_eq!(exe_suffix(true), ".exe");
    assert_eq!(exe_suffix(false), "");
}

#[test]
fn asset_names() {
    assert_eq!(asset_name("0.13.0", "linux", "amd64", false), "jabba-0.13.0-linux-amd64");
    assert_eq!(asset_name("0.13.0", "windows", "386", true), "jabba-0.13.0-windows-386.exe");
    assert_eq!(noshim_file_name(true), "jabba-noshim.exe");
    assert_eq!(noshim_file_name(false), "jabba-noshim");
}

fn asset(name: &str) -> Asset {
    Asset { name: name.to_string(), digest: None, browser_download_url: format!("https://x/{name}") }
}

#[test]
fn asset_lookup() {
    let assets = vec![asset("a"), asset("b"), asset("b")];
    assert_eq!(find_asset(&assets, "b"), Some(1));
    assert_eq!(find_asset(&assets, "a"), Some(0));
    assert_eq!(find_asset(&assets, "c"), None);
    assert_eq!(find_asset(&Vec::new(), "a"), None);
}

#[test]
fn sha256_of_known_inputs() {
    assert_eq!(verify_sha256(b"abc", &format!("sha256:{ABC_SHA256}")), Ok(ABC_SHA256.to_string()));
    assert_eq!(
        verify_sha256(b"abc", &format!("sha256:{}", ABC_SHA256.to_uppercase())),
        Ok(ABC_SHA256.to_string())
    );
    let empty = "e3b0c44298fc1c149afbf4c8996fb92427ae41e4649b934ca495991b7852b855";
    assert_eq!(verify_sha256(b"", &format!("sha256:{empty}")), Ok(empty.to_string()));
}

#[test]
fn sha256_refusals() {
    assert_eq!(
        verify_sha256(b"abd", &format!("sha256:{ABC_SHA256}")),
        Err(DownloadError::HashMismatch {
            expected: ABC_SHA256.to_string(),
            actual: "a52d159f262b2c6ddb724a61840befc36eb30c88877a4030b65cbe86298449c9".to_string(),
        })
    );
    assert_eq!(
        verify_sha256(b"abc", "md5:900150983cd24fb0d6963f7d28e17f72"),
        Err(DownloadError::UnsupportedDigest("md5:900150983cd24fb0d6963f7d28e17f72".to_string()))
    );
}

#[test]
fn digest_check() {
    assert_eq!(check_digest("00ff", "sha256:00FF"), Ok(()));
    assert_eq!(
        check_digest("00ff", "sha256:00fe"),
        Err(DownloadError::HashMismatch { expected: "00fe".to_string(), actual: "00ff".to_string() })
    );
    assert_eq!(check_digest("00ff", "00ff"), Err(DownloadError::UnsupportedDigest("00ff".to_string())));
}
