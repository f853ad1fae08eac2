//! Status values exchanged between the game thread, the user interface and the
//! background tasks, and the decisions of the update check.

use vstd::prelude::*;
use vstd::string::StringSliceAdditionalSpecFns;
use std::time::Duration;
use vstd::utf8::encode_utf8;

verus! {

/// Whether the game thread is attached to a running game.
#[derive(Debug, Clone, Copy, PartialEq, Eq, Structural)]
pub enum GameStatus {
    Working,
    NotStarted,
}

impl GameStatus {
    /// The text shown for this status.
    pub open spec fn label(self) -> Seq<char> {
        match self {
            GameStatus::Working => "Working"@,
            GameStatus::NotStarted => "Not Started"@,
        }
    }

    pub fn to_string(&self) -> (r: String)
        ensures
            r@ == self.label(),
    {
        match self {
            GameStatus::Working => "Working".to_owned(),
            GameStatus::NotStarted => "Not Started".to_owned(),
        }
    }
}

/// A message from the game thread to the user interface.
#[derive(Clone, Copy)]
pub enum UiMessage {
    Status(GameStatus),
    FrameTime(Duration),
}

/// State of the connection to the radar server.
#[derive(Debug, Clone, Copy, PartialEq, Eq, Structural)]
pub enum RadarStatus {
    Connected,
    FailedToConnect,
    Disconnected,
    Disabled,
}

/// Progress of the player model extraction.
#[derive(Debug, Clone)]
pub enum ExtractStatus {
    Idle,
    Running,
    Progress { done: usize, total: usize },
    /// Finished; holds the path of the written agent index.
    Done(String),
    Error(String),
}

impl Default for ExtractStatus {
    fn default() -> (r: Self)
        ensures
            r is Idle,
    {
        ExtractStatus::Idle
    }
}

/// Result of asking the release server for the latest version.
#[derive(Debug, Clone, PartialEq)]
pub enum UpdateStatus {
    UpToDate,
    Available {
        version: String,
        /// The release notes page.
        html_url: String,
        /// Direct download link of the program binary, when the release has one.
        asset_url: Option<String>,
    },
    Error(String),
}

impl Default for UpdateStatus {
    fn default() -> (r: Self)
        ensures
            r is UpToDate,
    {
        UpdateStatus::UpToDate
    }
}

/// Progress of installing a downloaded update.
#[derive(Debug, Clone)]
pub enum ApplyStatus {
    Idle,
    Downloading,
    Done,
    Error(String),
}

impl Default for ApplyStatus {
    fn default() -> (r: Self)
        ensures
            r is Idle,
    {
        ApplyStatus::Idle
    }
}

/// A file attached to a release.
#[derive(Debug, Clone)]
pub struct ReleaseAsset {
    pub name: String,
    pub browser_download_url: String,
}

/// The fields of a release that the update check reads.
#[derive(Debug, Clone)]
pub struct Release {
    pub tag_name: String,
    pub html_url: String,
    pub assets: Vec<ReleaseAsset>,
}

/// Name of the release asset that holds the program binary.
pub const BINARY_ASSET_NAME: &'static str = "deadlocked";

/// `b` without its leading `v` characters.
pub open spec fn trim_leading_v(b: Seq<u8>) -> Seq<u8>
    decreases b.len(),
{
    if b.len() > 0 && b[0] == 118 {
        trim_leading_v(b.drop_first())
    } else {
        b
    }
}

/// The index of the first asset with the given name.
pub open spec fn first_asset_named(assets: Seq<ReleaseAsset>, name: Seq<char>) -> Option<int>
    decreases assets.len(),
{
    if assets.len() == 0 {
        None
    } else if assets.last().name@ == name {
        match first_asset_named(assets.drop_last(), name) {
            Some(i) => Some(i),
            None => Some(assets.len() - 1),
        }
    } else {
        first_asset_named(assets.drop_last(), name)
    }
}

/// What the update check reports for a release, given the running version.
pub open spec fn spec_release_status(release: Release, current_version: Seq<u8>) -> UpdateStatus {
    if trim_leading_v(encode_utf8(release.tag_name@)) == current_version {
        UpdateStatus::UpToDate
    } else {
        UpdateStatus::Available {
            version: release.tag_name,
            html_url: release.html_url,
            asset_url: match first_asset_named(release.assets@, BINARY_ASSET_NAME@) {
                Some(i) => Some(release.assets@[i].browser_download_url),
                None => None,
            },
        }
    }
}

/// The index of the first byte of `b` that is not `v`, counted from `from`.
fn skip_leading_v(b: &[u8]) -> (i: usize)
    ensures
        i <= b.len(),
        trim_leading_v(b@) == b@.subrange(i as int, b.len() as int),
{
    let mut i: usize = 0;
    assert(b@.subrange(0, b.len() as int) =~= b@);
    while i < b.len() && b[i] == 118
        invariant
            i <= b.len(),
            trim_leading_v(b@) == trim_leading_v(b@.subrange(i as int, b.len() as int)),
        decreases b.len() - i,
    {
        assert(b@.subrange(i as int, b.len() as int).drop_first() =~= b@.subrange(
            i + 1,
            b.len() as int,
        ));
        i += 1;
    }
    i
}

/// Whether `a` from index `start` on equals `b`.
fn tail_equals(a: &[u8], start: usize, b: &[u8]) -> (r: bool)
    requires
        start <= a.len(),
    ensures
        r == (a@.subrange(start as int, a.len() as int) == b@),
{
    if a.len() - start != b.len() {
        assert(a@.subrange(start as int, a.len() as int).len() != b@.len());
        return false;
    }
    let mut k: usize = 0;
    while k < b.len()
        invariant
            start <= a.len(),
            a.len() - start == b.len(),
            k <= b.len(),
            forall|j: int| 0 <= j < k ==> a@[start + j] == b@[j],
        decreases b.len() - k,
    {
        if a[start + k] != b[k] {
            assert(a@.subrange(start as int, a.len() as int)[k as int] != b@[k as int]);
            return false;
        }
        k += 1;
    }
    assert(a@.subrange(start as int, a.len() as int) =~= b@);
    true
}

/// The download link of the first asset with the given name.
pub fn asset_url(assets: &Vec<ReleaseAsset>, name: &str) -> (r: Option<String>)
    ensures
        r == (match first_asset_named(assets@, name@) {
            Some(i) => Some(assets@[i].browser_download_url),
            None => None,
        }),
        forall|i: int| #[trigger] first_asset_named(assets@, name@) == Some(i) ==> 0 <= i < assets@.len(),
{
    let mut found: Option<String> = None;
    let mut k: usize = 0;
    while k < assets.len()
        invariant
            k <= assets@.len(),
            found == (match first_asset_named(assets@.subrange(0, k as int), name@) {
                Some(i) => Some(assets@[i].browser_download_url),
                None => None,
            }),
            forall|i: int| #[trigger] first_asset_named(assets@.subrange(0, k as int), name@) == Some(i) ==> 0 <= i < k,
        decreases assets@.len() - k,
    {
        assert(assets@.subrange(0, k + 1).drop_last() =~= assets@.subrange(0, k as int));
        if found.is_none() && crate::text::str_eq(assets[k].name.as_str(), name) {
            found = Some(assets[k].browser_download_url.clone());
        }
        k += 1;
    }
    assert(assets@.subrange(0, assets@.len() as int) =~= assets@);
    found
}

/// Name of the release asset that holds the command-line model extractor.
pub const CLI_ASSET_NAME: &'static str = "cli-linux-x64.zip";

/// The download link of the model extractor in a release of it: its first
/// asset named `CLI_ASSET_NAME`.
pub fn vrf_cli_url(assets: &Vec<ReleaseAsset>) -> (r: Option<String>)
    ensures
        r == (match first_asset_named(assets@, CLI_ASSET_NAME@) {
            Some(i) => Some(assets@[i].browser_download_url),
            None => None,
        }),
{
    asset_url(assets, CLI_ASSET_NAME)
}

/// The status the update check reports for the latest release, given the
/// version of the running program: up to date when the release tag, without
/// its leading `v`s, is that version; otherwise the release is available, with
/// the download link of its first asset named like the program binary.
pub fn release_status(release: Release, current_version: &str) -> (r: UpdateStatus)
    ensures
        r == spec_release_status(release, current_version.spec_bytes()),
{
    let tag = release.tag_name.as_str().as_bytes();
    let start = skip_leading_v(tag);
    if tail_equals(tag, start, current_version.as_bytes()) {
        return UpdateStatus::UpToDate;
    }
    let found = asset_url(&release.assets, BINARY_ASSET_NAME);
    UpdateStatus::Available { version: release.tag_name, html_url: release.html_url, asset_url: found }
}

/// Whether downloaded bytes start like an ELF executable.
pub open spec fn is_elf(bytes: Seq<u8>) -> bool {
    bytes.len() >= 4 && bytes[0] == 0x7f && bytes[1] == 69 && bytes[2] == 76 && bytes[3] == 70
}

/// Whether downloaded bytes start with the ELF magic; an update is installed
/// only when they do.
pub fn is_elf_image(bytes: &[u8]) -> (r: bool)
    ensures
        r == is_elf(bytes@),
{
    bytes.len() >= 4 && bytes[0] == 0x7f && bytes[1] == 69 && bytes[2] == 76 && bytes[3] == 70
}

} // verus!
