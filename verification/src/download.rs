//! Fetching the `jabba` release that the shim bundles: which release and asset to take,
//! and checking the downloaded bytes against the advertised digest.

use sha2::Digest;
use vstd::prelude::*;
use vstd::string::StringExecFns;

use crate::sha256::sha256_of;
use crate::text::{
    ascii_lower_seq, chars_eq, chars_of, chars_range, eq_ignore_ascii_case, eq_ignore_ascii_case_spec,
    lemma_trim_edges, trim_end_spec,
    starts_with, strip_prefixes, strip_suffixes, string_of_range, trim, trim_end_matches,
    trim_spec, trim_start, trim_start_matches, trim_start_spec,
};

verus! {

/// The SHA-256 digest (FIPS 180-4) of all of `data`.
pub open spec fn sha256_spec(data: Seq<u8>) -> Seq<u8> {
    sha256_of(data)
}

/// `sha2::Sha256::digest`: claims that the result is the FIPS 180-4 SHA-256 digest of all
/// of `data` (`sha256_of`, 32 bytes).
#[verifier::external_body]
fn sha256(data: &[u8]) -> (r: Vec<u8>)
    ensures
        r@ == sha256_spec(data@),
        r@.len() == 32,
{
    sha2::Sha256::digest(data).to_vec()
}

/// The lower-case hexadecimal digit for `n < 16`.
pub open spec fn hex_digit(n: u8) -> char {
    if n < 10 {
        (48 + n) as char
    } else {
        (87 + n) as char
    }
}

/// Lower-case hexadecimal, two digits per byte, high nibble first.
pub open spec fn lower_hex(bytes: Seq<u8>) -> Seq<char>
    decreases bytes.len(),
{
    if bytes.len() == 0 {
        Seq::empty()
    } else {
        seq![hex_digit(bytes[0] / 16), hex_digit(bytes[0] % 16)] + lower_hex(bytes.drop_first())
    }
}

/// `hex::encode`: claims that the result is `lower_hex(bytes)`, two lower-case digits per
/// byte in order, as the crate's `HEX_CHARS_LOWER` table gives them.
#[verifier::external_body]
fn hex_encode(bytes: &[u8]) -> (r: String)
    ensures
        r@ == lower_hex(bytes@),
{
    hex::encode(bytes)
}

/// An asset of a release.
#[derive(Debug, PartialEq, Eq)]
pub struct Asset {
    pub name: String,
    /// `sha256:<hex>` digest, absent on older assets.
    pub digest: Option<String>,
    pub browser_download_url: String,
}

/// A release with its assets.
#[derive(Debug, PartialEq, Eq)]
pub struct Release {
    pub tag_name: String,
    pub assets: Vec<Asset>,
}

/// Why a download could not be done or was refused.
#[derive(Debug, PartialEq, Eq)]
pub enum DownloadError {
    /// `jabba` has no build for this operating system.
    UnsupportedOs(String),
    /// `jabba` has no build for this architecture.
    UnsupportedArch(String),
    /// The release has no asset of this name.
    NoAsset(String),
    /// The digest is not of the form `sha256:<hex>`.
    UnsupportedDigest(String),
    /// The downloaded bytes hash to `actual`, not to the advertised `expected`.
    HashMismatch { expected: String, actual: String },
}

/// A string holding `v`.
fn string_of(v: &Vec<char>) -> (r: String)
    ensures
        r@ == v@,
{
    let r = string_of_range(v.as_slice(), 0, v.len());
    assert(v@.subrange(0, v@.len() as int) =~= v@);
    r
}

/// The repository URL given on the command line, without leading whitespace and
/// trailing slashes.
pub open spec fn repo_spec(arg: Seq<char>) -> Seq<char> {
    strip_suffixes(trim_start_spec(arg), "/"@)
}

/// `arg.trim_start().trim_end_matches('/')`.
pub fn normalize_repo(arg: &str) -> (r: String)
    ensures
        r@ == repo_spec(arg@),
{
    let t = trim_start(arg);
    let v = trim_end_matches(chars_of(t.as_str()).as_slice(), chars_of("/").as_slice());
    string_of(&v)
}

/// The `OWNER/NAME` slug of a GitHub repository URL.
pub open spec fn slug_spec(repo: Seq<char>) -> Seq<char> {
    strip_prefixes(
        strip_prefixes(strip_suffixes(repo, ".git"@), "https://github.com/"@),
        "http://github.com/"@,
    )
}

/// The release part of the API path: `latest`, or `tags/<version>` for a requested version
/// trimmed and without leading `v`s.
pub open spec fn release_path_spec(requested: Option<Seq<char>>) -> Seq<char> {
    match requested {
        None => "latest"@,
        Some(v) => if v == "latest"@ {
            "latest"@
        } else {
            "tags/"@ + strip_prefixes(trim_spec(v), "v"@)
        },
    }
}

/// The GitHub API URL of the release to fetch.
pub open spec fn release_url_spec(repo: Seq<char>, requested: Option<Seq<char>>) -> Seq<char> {
    "https://api.github.com/repos/"@ + slug_spec(repo) + "/releases/"@ + release_path_spec(
        requested,
    )
}

/// The `OWNER/NAME` slug of a GitHub repository URL.
pub fn release_slug(repo: &str) -> (r: String)
    ensures
        r@ == slug_spec(repo@),
{
    let a = trim_end_matches(chars_of(repo).as_slice(), chars_of(".git").as_slice());
    let b = trim_start_matches(a.as_slice(), chars_of("https://github.com/").as_slice());
    let c = trim_start_matches(b.as_slice(), chars_of("http://github.com/").as_slice());
    string_of(&c)
}

/// The release part of the API path.
pub fn release_path(requested: Option<&str>) -> (r: String)
    ensures
        r@ == release_path_spec(
            match requested {
                Some(v) => Some(v@),
                None => None,
            },
        ),
{
    match requested {
        None => String::from_str("latest"),
        Some(v) => if chars_eq(chars_of(v).as_slice(), chars_of("latest").as_slice()) {
            String::from_str("latest")
        } else {
            let t = trim(v);
            let stripped = trim_start_matches(chars_of(t.as_str()).as_slice(), chars_of("v").as_slice());
            let mut r = String::from_str("tags/");
            r.append(string_of(&stripped).as_str());
            r
        },
    }
}

/// The GitHub API URL of the release (`requested`, or the latest one) of `repo`.
pub fn release_api_url(repo: &str, requested: Option<&str>) -> (r: String)
    ensures
        r@ == release_url_spec(
            repo@,
            match requested {
                Some(v) => Some(v@),
                None => None,
            },
        ),
{
    let mut r = String::from_str("https://api.github.com/repos/");
    r.append(release_slug(repo).as_str());
    r.append("/releases/");
    r.append(release_path(requested).as_str());
    r
}


/// `jabba`'s name for an operating system as Rust names it (`std::env::consts::OS`).
pub open spec fn jabba_os_spec(os: Seq<char>) -> Option<Seq<char>> {
    if os == "linux"@ {
        Some("linux"@)
    } else if os == "macos"@ {
        Some("darwin"@)
    } else if os == "windows"@ {
        Some("windows"@)
    } else {
        None
    }
}

/// `jabba`'s name for an architecture as Rust names it (`std::env::consts::ARCH`).
pub open spec fn jabba_arch_spec(arch: Seq<char>) -> Option<Seq<char>> {
    if arch == "x86_64"@ {
        Some("amd64"@)
    } else if arch == "aarch64"@ {
        Some("arm64"@)
    } else if arch == "x86"@ {
        Some("386"@)
    } else if arch == "arm"@ {
        Some("arm"@)
    } else {
        None
    }
}

/// Whether `a` holds exactly the characters of `b`.
fn str_eq(a: &str, b: &str) -> (r: bool)
    ensures
        r == (a@ == b@),
{
    chars_eq(chars_of(a).as_slice(), chars_of(b).as_slice())
}

/// `jabba`'s name for the operating system `os`, or `UnsupportedOs`.
pub fn jabba_os(os: &str) -> (r: Result<&'static str, DownloadError>)
    ensures
        match jabba_os_spec(os@) {
            Some(n) => r matches Ok(s) && s@ == n,
            None => r matches Err(DownloadError::UnsupportedOs(o)) && o@ == os@,
        },
{
    if str_eq(os, "linux") {
        Ok("linux")
    } else if str_eq(os, "macos") {
        Ok("darwin")
    } else if str_eq(os, "windows") {
        Ok("windows")
    } else {
        Err(DownloadError::UnsupportedOs(String::from_str(os)))
    }
}

/// `jabba`'s name for the architecture `arch`, or `UnsupportedArch`.
pub fn jabba_arch(arch: &str) -> (r: Result<&'static str, DownloadError>)
    ensures
        match jabba_arch_spec(arch@) {
            Some(n) => r matches Ok(s) && s@ == n,
            None => r matches Err(DownloadError::UnsupportedArch(a)) && a@ == arch@,
        },
{
    if str_eq(arch, "x86_64") {
        Ok("amd64")
    } else if str_eq(arch, "aarch64") {
        Ok("arm64")
    } else if str_eq(arch, "x86") {
        Ok("386")
    } else if str_eq(arch, "arm") {
        Ok("arm")
    } else {
        Err(DownloadError::UnsupportedArch(String::from_str(arch)))
    }
}

/// The suffix of executables: `.exe` on Windows, else nothing.
pub open spec fn exe_suffix_spec(windows: bool) -> Seq<char> {
    if windows {
        ".exe"@
    } else {
        ""@
    }
}

/// The suffix of executables: `.exe` on Windows, else nothing.
pub fn exe_suffix(windows: bool) -> (s: &'static str)
    ensures
        s@ == exe_suffix_spec(windows),
{
    if windows {
        ".exe"
    } else {
        ""
    }
}

/// The name of the release asset for a platform: `jabba-<tag>-<os>-<arch><ext>`.
pub open spec fn asset_name_spec(tag: Seq<char>, os: Seq<char>, arch: Seq<char>, windows: bool) -> Seq<
    char,
> {
    "jabba-"@ + tag + "-"@ + os + "-"@ + arch + exe_suffix_spec(windows)
}

/// The name of the release asset for a platform, `os` and `arch` as `jabba` names them.
pub fn asset_name(tag: &str, os: &str, arch: &str, windows: bool) -> (r: String)
    ensures
        r@ == asset_name_spec(tag@, os@, arch@, windows),
{
    let mut r = String::from_str("jabba-");
    r.append(tag);
    r.append("-");
    r.append(os);
    r.append("-");
    r.append(arch);
    r.append(exe_suffix(windows));
    r
}

/// The file that the downloaded `jabba` is saved as: `jabba-noshim<ext>`.
pub fn noshim_file_name(windows: bool) -> (r: String)
    ensures
        r@ == "jabba-noshim"@ + exe_suffix_spec(windows),
{
    let mut r = String::from_str("jabba-noshim");
    r.append(exe_suffix(windows));
    r
}

/// The index of the first asset named `name`, if any.
pub fn find_asset(assets: &Vec<Asset>, name: &str) -> (r: Option<usize>)
    ensures
        match r {
            Some(i) => i < assets@.len() && assets@[i as int].name@ == name@ && forall|j: int|
                0 <= j < i ==> (#[trigger] assets@[j]).name@ != name@,
            None => forall|j: int| 0 <= j < assets@.len() ==> (#[trigger] assets@[j]).name@ != name@,
        },
{
    let target = chars_of(name);
    let mut i: usize = 0;
    while i < assets.len()
        invariant
            i <= assets@.len(),
            target@ == name@,
            forall|j: int| 0 <= j < i ==> (#[trigger] assets@[j]).name@ != name@,
        decreases assets@.len() - i,
    {
        if chars_eq(chars_of(assets[i].name.as_str()).as_slice(), target.as_slice()) {
            return Some(i);
        }
        i += 1;
    }
    None
}

/// The outcome of checking a hex digest `actual` against an advertised `digest`: it must be
/// `sha256:` followed by `actual` in either case.
pub open spec fn digest_ok(actual: Seq<char>, digest: Seq<char>) -> bool {
    "sha256:"@.is_prefix_of(digest) && eq_ignore_ascii_case_spec(
        actual,
        digest.skip("sha256:"@.len() as int),
    )
}

/// Checks the hex digest `actual` of the downloaded bytes against the advertised `digest`.
pub fn check_digest(actual: &str, digest: &str) -> (r: Result<(), DownloadError>)
    ensures
        (r is Ok) == digest_ok(actual@, digest@),
        r matches Err(DownloadError::UnsupportedDigest(d)) ==> !"sha256:"@.is_prefix_of(digest@)
            && d@ == digest@,
        r matches Err(DownloadError::HashMismatch { expected, actual: a }) ==> "sha256:"@.is_prefix_of(
            digest@,
        ) && expected@ == digest@.skip("sha256:"@.len() as int) && a@ == actual@,
        r is Err ==> (r matches Err(DownloadError::UnsupportedDigest(_))) || (r matches Err(
            DownloadError::HashMismatch { .. },
        )),
{
    let d = chars_of(digest);
    let prefix = chars_of("sha256:");
    if !starts_with(d.as_slice(), prefix.as_slice()) {
        return Err(DownloadError::UnsupportedDigest(String::from_str(digest)));
    }
    let expected = chars_range(d.as_slice(), prefix.len(), d.len());
    assert(expected@ =~= d@.skip(prefix@.len() as int));
    if eq_ignore_ascii_case(chars_of(actual).as_slice(), expected.as_slice()) {
        Ok(())
    } else {
        Err(DownloadError::HashMismatch { expected: string_of(&expected), actual: String::from_str(actual) })
    }
}

/// Verifies `bytes` against the advertised `sha256:<hex>` digest; on success returns the
/// lower-case hex digest of the bytes.
pub fn verify_sha256(bytes: &[u8], digest: &str) -> (r: Result<String, DownloadError>)
    ensures
        (r is Ok) == digest_ok(lower_hex(sha256_spec(bytes@)), digest@),
        r matches Ok(h) ==> h@ == lower_hex(sha256_spec(bytes@)),
        r matches Err(DownloadError::UnsupportedDigest(d)) ==> !"sha256:"@.is_prefix_of(digest@)
            && d@ == digest@,
        r matches Err(DownloadError::HashMismatch { expected, actual }) ==> "sha256:"@.is_prefix_of(
            digest@,
        ) && expected@ == digest@.skip("sha256:"@.len() as int) && actual@ == lower_hex(
            sha256_spec(bytes@),
        ),
        r is Err ==> (r matches Err(DownloadError::UnsupportedDigest(_))) || (r matches Err(
            DownloadError::HashMismatch { .. },
        )),
{
    if !starts_with(chars_of(digest).as_slice(), chars_of("sha256:").as_slice()) {
        return Err(DownloadError::UnsupportedDigest(String::from_str(digest)));
    }
    let hash = sha256(bytes);
    let actual = hex_encode(hash.as_slice());
    match check_digest(actual.as_str(), digest) {
        Ok(()) => Ok(actual),
        Err(e) => Err(e),
    }
}


/// The digest of the downloaded bytes themselves is always accepted.
pub proof fn lemma_own_digest_accepted(hash: Seq<u8>)
    ensures
        digest_ok(lower_hex(hash), "sha256:"@ + lower_hex(hash)),
{
    let d = "sha256:"@ + lower_hex(hash);
    assert(d.subrange(0, "sha256:"@.len() as int) =~= "sha256:"@);
    assert(d.skip("sha256:"@.len() as int) =~= lower_hex(hash));
}

/// The correct GitHub digest of the downloaded bytes, the SHA-256 of all of them in hex, is
/// accepted, whatever their length.
pub proof fn lemma_full_digest_accepted(bytes: Seq<u8>)
    ensures
        digest_ok(lower_hex(sha256_spec(bytes)), "sha256:"@ + lower_hex(sha256_of(bytes))),
        sha256_spec(bytes).len() == 32,
{
    lemma_own_digest_accepted(sha256_of(bytes));
}

/// The advertised hex digits are compared without regard to ASCII case.
pub proof fn lemma_digest_case_insensitive(actual: Seq<char>, hex: Seq<char>)
    requires
        ascii_lower_seq(hex) == ascii_lower_seq(actual),
    ensures
        digest_ok(actual, "sha256:"@ + hex),
{
    let d = "sha256:"@ + hex;
    assert(d.subrange(0, "sha256:"@.len() as int) =~= "sha256:"@);
    assert(d.skip("sha256:"@.len() as int) =~= hex);
}

/// Asking for the `latest` release is asking for no particular version.
pub proof fn lemma_latest_is_default(repo: Seq<char>)
    ensures
        release_url_spec(repo, Some("latest"@)) == release_url_spec(repo, None),
{
}

/// A leading `v` of a requested (trimmed) version is ignored: `v0.15.0` and `0.15.0` name
/// the same release.
pub proof fn lemma_leading_v_ignored(repo: Seq<char>, version: Seq<char>)
    requires
        trim_spec(version) == version,
        version != "latest"@,
    ensures
        release_url_spec(repo, Some("v"@ + version)) == release_url_spec(repo, Some(version)),
{
    reveal_strlit("v");
    reveal_strlit("latest");
    let w = "v"@ + version;
    assert(w[0] == 'v');
    assert(w != "latest"@) by {
        if w == "latest"@ {
            assert("latest"@[0] == 'l');
        }
    }
    assert(trim_start_spec(w) == w);
    lemma_trim_edges(version);
    if version.len() > 0 {
        assert(w.last() == version.last());
    } else {
        assert(w.last() == 'v');
    }
    assert(trim_end_spec(w) == w);
    assert("v"@.is_prefix_of(w)) by {
        assert(w.subrange(0, 1) =~= "v"@);
    }
    assert(w.skip(1) =~= version);
}

/// Removing a pattern from the back as often as it is there leaves no trailing pattern.
pub proof fn lemma_no_trailing_pattern(s: Seq<char>, p: Seq<char>)
    requires
        p.len() > 0,
    ensures
        !p.is_suffix_of(strip_suffixes(s, p)),
    decreases s.len(),
{
    if p.is_suffix_of(s) {
        lemma_no_trailing_pattern(s.take(s.len() - p.len()), p);
    }
}

/// A normalised repository URL has no trailing `/`.
pub proof fn lemma_repo_has_no_trailing_slash(arg: Seq<char>)
    ensures
        !"/"@.is_suffix_of(repo_spec(arg)),
{
    reveal_strlit("/");
    lemma_no_trailing_pattern(trim_start_spec(arg), "/"@);
}

} // verus!
