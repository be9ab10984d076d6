//! Deciding whether a published release is an update, and the state of
//! installing one. Fetching releases and writing files is left to the caller.
use vstd::prelude::*;
use crate::text::push_char;

verus! {

/// A file attached to a release.
#[derive(Clone, Debug, PartialEq)]
pub struct Asset {
    pub name: String,
    pub browser_download_url: String,
}

/// A published release, newest first in a release listing.
#[derive(Clone, Debug, PartialEq)]
pub struct Release {
    pub prerelease: bool,
    pub tag_name: String,
    pub assets: Vec<Asset>,
}

/// How far installing an available update has come.
#[derive(Debug)]
pub enum UpdateStatus {
    UpdateAvailable(String),
    Downloading,
    Updating,
    RestartPending,
    UpdateError(String),
}

/// A release newer than the running version, and what is being done about it.
pub struct UpdateInfo {
    pub newer_release: Release,
    pub status: UpdateStatus,
}

/// Downloads that announce a larger size than this are refused.
pub const MAX_DOWNLOAD_BYTES: u64 = 128_000_000;

/// Whether `c` belongs to one of Unicode's number categories.
pub uninterp spec fn numeric_char(c: char) -> bool;

/// What `version_compare` makes of two version strings: `None` when either
/// does not parse as a version, else whether the first is the greater.
pub uninterp spec fn version_newer(candidate: Seq<char>, current: Seq<char>) -> Option<bool>;

/// Relies on `char::is_numeric`: whether the character has a Unicode number
/// category; the ASCII digits do.
#[verifier::external_body]
fn char_is_numeric(c: char) -> (r: bool)
    ensures
        r == numeric_char(c),
        '0' <= c <= '9' ==> r,
{
    c.is_numeric()
}

/// Relies on `str::ends_with` with a string pattern: whether `suffix` is a
/// suffix of `s`.
#[verifier::external_body]
fn has_suffix(s: &str, suffix: &str) -> (r: bool)
    ensures
        r == is_suffix(suffix@, s@),
{
    s.ends_with(suffix)
}

/// Relies on `version_compare::compare_to` with `Cmp::Gt`: parses both
/// strings as versions, fails when either does not parse, and otherwise
/// says whether `candidate` is greater than `current`.
#[verifier::external_body]
fn compare_newer(candidate: &str, current: &str) -> (r: Option<bool>)
    ensures
        r == version_newer(candidate@, current@),
{
    version_compare::compare_to(candidate, current, version_compare::Cmp::Gt).ok()
}

/// Whether `suffix` ends `s`.
pub open spec fn is_suffix(suffix: Seq<char>, s: Seq<char>) -> bool {
    suffix.len() <= s.len() && s.subrange(s.len() - suffix.len(), s.len() as int) == suffix
}

/// The characters of a release tag that make up its version number.
pub open spec fn is_version_char(c: char) -> bool {
    numeric_char(c) || c == '.'
}

/// A release tag reduced to its version number: the numeric characters and dots.
pub open spec fn tag_version(tag: Seq<char>) -> Seq<char> {
    tag.filter(|c: char| is_version_char(c))
}

/// Keeps the numeric characters and dots of a release tag, so that
/// `v1.3.rc4` reads as the version `1.3.4`.
pub fn tag_to_version_num(tag_name: &str) -> (r: String)
    ensures
        r@ == tag_version(tag_name@),
{
    let mut result = String::new();
    let n = tag_name.unicode_len();
    for i in 0..n
        invariant
            n == tag_name@.len(),
            result@ == tag_version(tag_name@.take(i as int)),
    {
        let c = tag_name.get_char(i);
        let keep = char_is_numeric(c) || c == '.';
        proof {
            let s = tag_name@.take(i + 1);
            assert(s.drop_last() == tag_name@.take(i as int));
            assert(s.last() == c);
            reveal(Seq::filter);
        }
        if keep {
            push_char(&mut result, c);
        }
    }
    assert(tag_name@.take(n as int) == tag_name@);
    result
}

/// Whether a release is considered at all.
pub open spec fn applicable(release: Release, allow_prerelease: bool) -> bool {
    allow_prerelease || !release.prerelease
}

/// `i` is the position of the first release that is considered.
pub open spec fn is_first_applicable(releases: Seq<Release>, allow_prerelease: bool, i: int) -> bool {
    &&& 0 <= i < releases.len()
    &&& applicable(releases[i], allow_prerelease)
    &&& forall|j: int| 0 <= j < i ==> !applicable(#[trigger] releases[j], allow_prerelease)
}

/// The release's tag names a version greater than `current`.
pub open spec fn offers_update(current: Seq<char>, release: Release) -> bool {
    version_newer(tag_version(release.tag_name@), current) == Some(true)
}

/// The position of the newest release to consider: the first of the
/// listing, skipping pre-releases unless they are allowed.
pub fn first_applicable_release(releases: &Vec<Release>, allow_prerelease: bool) -> (r: Option<usize>)
    ensures
        match r {
            Some(i) => is_first_applicable(releases@, allow_prerelease, i as int),
            None => forall|i: int|
                0 <= i < releases@.len() ==> !applicable(#[trigger] releases@[i], allow_prerelease),
        },
{
    let n = releases.len();
    for i in 0..n
        invariant
            n == releases.len(),
            forall|j: int| 0 <= j < i ==> !applicable(#[trigger] releases@[j], allow_prerelease),
    {
        if allow_prerelease || !releases[i].prerelease {
            return Some(i);
        }
    }
    None
}

proof fn lemma_first_applicable_unique(releases: Seq<Release>, allow_prerelease: bool, i: int, k: int)
    requires
        is_first_applicable(releases, allow_prerelease, i),
        is_first_applicable(releases, allow_prerelease, k),
    ensures
        i == k,
{
    if k < i {
        assert(!applicable(releases[k], allow_prerelease));
    } else if k > i {
        assert(!applicable(releases[i], allow_prerelease));
    }
}

/// The newest release to consider (see `first_applicable_release`), if its
/// version is greater than `current_version`.
pub fn find_potential_update_internal<'a>(
    current_version: &str,
    releases: &'a Vec<Release>,
    allow_prerelease: bool,
) -> (r: Option<&'a Release>)
    ensures
        r is Some <==> exists|i: int|
            is_first_applicable(releases@, allow_prerelease, i) && offers_update(
                current_version@,
                #[trigger] releases@[i],
            ),
        r matches Some(release) ==> exists|i: int|
            is_first_applicable(releases@, allow_prerelease, i) && release == #[trigger] releases@[i],
{
    let i = match first_applicable_release(releases, allow_prerelease) {
        Some(i) => i,
        None => return None,
    };
    let release = &releases[i];
    let version = tag_to_version_num(release.tag_name.as_str());
    let newer = compare_newer(version.as_str(), current_version);
    proof {
        assert forall|k: int| is_first_applicable(releases@, allow_prerelease, k) implies k == i by {
            lemma_first_applicable_unique(releases@, allow_prerelease, i as int, k);
        }
    }
    if newer == Some(true) {
        Some(release)
    } else {
        None
    }
}

/// The extension of the asset that holds the addon.
pub open spec fn dll_suffix() -> Seq<char> {
    seq!['.', 'd', 'l', 'l']
}

/// `i` is the position of the first asset that holds the addon.
pub open spec fn is_first_dll(assets: Seq<Asset>, i: int) -> bool {
    &&& 0 <= i < assets.len()
    &&& is_suffix(dll_suffix(), assets[i].name@)
    &&& forall|j: int| 0 <= j < i ==> !is_suffix(dll_suffix(), (#[trigger] assets[j]).name@)
}

/// The download link of the release's first `.dll` asset.
pub fn retrieve_download_url(release: &Release) -> (r: Option<String>)
    ensures
        r is None <==> forall|i: int|
            0 <= i < release.assets@.len() ==> !is_suffix(
                dll_suffix(),
                (#[trigger] release.assets@[i]).name@,
            ),
        r matches Some(url) ==> exists|i: int|
            is_first_dll(release.assets@, i) && url == (#[trigger] release.assets@[i]).browser_download_url,
{
    proof {
        reveal_strlit(".dll");
    }
    let n = release.assets.len();
    for i in 0..n
        invariant
            n == release.assets.len(),
            ".dll"@ == dll_suffix(),
            forall|j: int| 0 <= j < i ==> !is_suffix(dll_suffix(), (#[trigger] release.assets@[j]).name@),
    {
        let asset = &release.assets[i];
        if has_suffix(asset.name.as_str(), ".dll") {
            assert(is_first_dll(release.assets@, i as int));
            return Some(asset.browser_download_url.clone());
        }
    }
    None
}

impl Release {
    /// The same release: equal flags, tags and assets.
    pub open spec fn same_as(&self, other: &Release) -> bool {
        &&& self.prerelease == other.prerelease
        &&& self.tag_name == other.tag_name
        &&& self.assets@ == other.assets@
    }

    /// A copy of the release.
    pub fn duplicate(&self) -> (r: Release)
        ensures
            r.same_as(self),
    {
        let mut assets: Vec<Asset> = Vec::new();
        let n = self.assets.len();
        for i in 0..n
            invariant
                n == self.assets.len(),
                assets@ == self.assets@.take(i as int),
        {
            let a = &self.assets[i];
            assets.push(
                Asset { name: a.name.clone(), browser_download_url: a.browser_download_url.clone() },
            );
            assert(assets@ =~= self.assets@.take(i + 1));
        }
        assert(self.assets@.take(n as int) =~= self.assets@);
        Release { prerelease: self.prerelease, tag_name: self.tag_name.clone(), assets }
    }
}

impl UpdateInfo {
    /// An update to `newer_release`, available for download from `download_url`.
    pub fn new(newer_release: Release, download_url: String) -> (r: Self)
        ensures
            r.newer_release == newer_release,
            r.status == UpdateStatus::UpdateAvailable(download_url),
    {
        UpdateInfo { newer_release, status: UpdateStatus::UpdateAvailable(download_url) }
    }
}

/// The update to offer, given the listing of releases (newest first): the
/// release that `find_potential_update_internal` picks, if it has a `.dll`
/// asset, ready for download from that asset's link.
pub fn select_update(current_version: &str, releases: &Vec<Release>, allow_prerelease: bool) -> (r:
    Option<UpdateInfo>)
    ensures
        r is Some <==> exists|i: int|
            is_first_applicable(releases@, allow_prerelease, i) && offers_update(
                current_version@,
                #[trigger] releases@[i],
            ) && exists|j: int| is_first_dll(releases@[i].assets@, j),
        r matches Some(info) ==> exists|i: int, j: int|
            is_first_applicable(releases@, allow_prerelease, i) && info.newer_release.same_as(
                &#[trigger] releases@[i],
            ) && is_first_dll(releases@[i].assets@, j) && info.status
                == UpdateStatus::UpdateAvailable(#[trigger] releases@[i].assets@[j].browser_download_url),
{
    let release = match find_potential_update_internal(current_version, releases, allow_prerelease) {
        Some(x) => x,
        None => return None,
    };
    let ghost i = choose|i: int|
        is_first_applicable(releases@, allow_prerelease, i) && *release == #[trigger] releases@[i];
    proof {
        assert forall|k: int| is_first_applicable(releases@, allow_prerelease, k) implies k == i by {
            lemma_first_applicable_unique(releases@, allow_prerelease, i, k);
        }
    }
    let download_url = match retrieve_download_url(release) {
        Some(x) => x,
        None => {
            assert forall|j: int| !is_first_dll(releases@[i].assets@, j) by {
                if 0 <= j < releases@[i].assets@.len() {
                    assert(!is_suffix(dll_suffix(), releases@[i].assets@[j].name@));
                }
            }
            return None;
        },
    };
    Some(UpdateInfo::new(release.duplicate(), download_url))
}

/// Starts installing `update`: when it is still only available, it moves to
/// downloading and the download link is handed out; otherwise (already in
/// progress, done or failed) nothing changes.
pub fn start_install(update: &mut UpdateInfo) -> (r: Option<String>)
    ensures
        match old(update).status {
            UpdateStatus::UpdateAvailable(url) => {
                &&& r == Some(url)
                &&& final(update).status == UpdateStatus::Downloading
                &&& final(update).newer_release == old(update).newer_release
            },
            _ => r is None && *final(update) == *old(update),
        },
{
    let url = match &update.status {
        UpdateStatus::UpdateAvailable(url) => url.clone(),
        _ => return None,
    };
    update.status = UpdateStatus::Downloading;
    Some(url)
}

/// Whether every character is an ASCII digit.
pub open spec fn all_ascii_digits(s: Seq<char>) -> bool {
    forall|i: int| 0 <= i < s.len() ==> '0' <= #[trigger] s[i] <= '9'
}

/// The value of a string of decimal digits.
pub open spec fn decimal_value(s: Seq<char>) -> nat
    decreases s.len(),
{
    if s.len() == 0 {
        0
    } else {
        decimal_value(s.drop_last()) * 10 + (s.last() as int - '0' as int) as nat
    }
}

/// What reading `s` as a `u64` gives: an optional `+`, then one or more
/// decimal digits whose value fits.
pub open spec fn parsed_u64(s: Seq<char>) -> Option<u64> {
    let digits = if s.len() > 0 && s[0] == '+' {
        s.drop_first()
    } else {
        s
    };
    if digits.len() > 0 && all_ascii_digits(digits) && decimal_value(digits) <= u64::MAX {
        Some(decimal_value(digits) as u64)
    } else {
        None
    }
}

/// Relies on `str::parse::<u64>`: an optional `+` followed by decimal digits,
/// refused when empty, when another character occurs, or when the value
/// overflows.
#[verifier::external_body]
fn parse_u64(s: &str) -> (r: Option<u64>)
    ensures
        r == parsed_u64(s@),
{
    s.parse::<u64>().ok()
}

/// The size a download announces in its `Content-Length` header, when the
/// header is there, is a number and is not above `MAX_DOWNLOAD_BYTES`.
pub fn checked_content_length(header: Option<&str>) -> (r: Option<u64>)
    ensures
        r == match header {
            Some(h) => match parsed_u64(h@) {
                Some(len) => if len <= MAX_DOWNLOAD_BYTES {
                    Some(len)
                } else {
                    None
                },
                None => None,
            },
            None => None,
        },
{
    let header = match header {
        Some(x) => x,
        None => return None,
    };
    let len = match parse_u64(header) {
        Some(x) => x,
        None => return None,
    };
    if len > MAX_DOWNLOAD_BYTES {
        return None;
    }
    Some(len)
}

} // verus!
