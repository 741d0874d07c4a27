//! Classification of release assets into download categories.
//!
//! Each asset is mapped to at most one category, by its filename alone. The
//! rules are tried in a fixed order and the first match wins; when several
//! assets in one release map to the same category, the later one (in list
//! order) provides the link.

use vstd::prelude::*;
use crate::bytes::{clone_bytes, contains_seq, ends_with, seq_contains, seq_ends_with};

verus! {

/// One downloadable file attached to a published release.
#[derive(Clone, Debug, PartialEq, Eq)]
pub struct ReleaseAsset {
    pub name: Vec<u8>,
    pub download_url: Vec<u8>,
}

/// The full list of assets of the latest release, replaced wholesale on each
/// fetch.
#[derive(Clone, Debug, PartialEq, Eq)]
pub struct ReleaseSnapshot {
    pub assets: Vec<ReleaseAsset>,
}

impl View for ReleaseAsset {
    type V = (Seq<u8>, Seq<u8>);

    open spec fn view(&self) -> (Seq<u8>, Seq<u8>) {
        (self.name@, self.download_url@)
    }
}

/// The mathematical value of a list of assets: the sequence of
/// (name, download URL) pairs.
pub open spec fn assets_view(assets: Seq<ReleaseAsset>) -> Seq<(Seq<u8>, Seq<u8>)> {
    Seq::new(assets.len(), |i: int| assets[i]@)
}

impl View for ReleaseSnapshot {
    type V = Seq<(Seq<u8>, Seq<u8>)>;

    open spec fn view(&self) -> Seq<(Seq<u8>, Seq<u8>)> {
        assets_view(self.assets@)
    }
}

/// The fixed platform/installer buckets a download button can represent.
#[derive(Clone, Copy, PartialEq, Eq, Structural, Debug)]
pub enum DownloadCategory {
    WindowsInstaller,
    WindowsPortable,
    LinuxDebianInstaller,
    LinuxAppImage,
    LinuxPortable,
    MacInstaller,
    MacPortable,
}

/// The suffix ".dmg".
pub open spec fn pat_dmg() -> Seq<u8> {
    seq![('.' as u8), ('d' as u8), ('m' as u8), ('g' as u8)]
}

/// The suffix ".AppImage".
pub open spec fn pat_appimage() -> Seq<u8> {
    seq![('.' as u8), ('A' as u8), ('p' as u8), ('p' as u8), ('I' as u8), ('m' as u8), ('a' as u8), ('g' as u8), ('e' as u8)]
}

/// The suffix ".deb".
pub open spec fn pat_deb() -> Seq<u8> {
    seq![('.' as u8), ('d' as u8), ('e' as u8), ('b' as u8)]
}

/// The suffix "-Setup.exe".
pub open spec fn pat_setup_exe() -> Seq<u8> {
    seq![('-' as u8), ('S' as u8), ('e' as u8), ('t' as u8), ('u' as u8), ('p' as u8), ('.' as u8), ('e' as u8), ('x' as u8), ('e' as u8)]
}

/// The suffix ".exe".
pub open spec fn pat_exe() -> Seq<u8> {
    seq![('.' as u8), ('e' as u8), ('x' as u8), ('e' as u8)]
}

/// The substring "-macOS".
pub open spec fn pat_macos() -> Seq<u8> {
    seq![('-' as u8), ('m' as u8), ('a' as u8), ('c' as u8), ('O' as u8), ('S' as u8)]
}

/// The substring "-Linux".
pub open spec fn pat_linux() -> Seq<u8> {
    seq![('-' as u8), ('L' as u8), ('i' as u8), ('n' as u8), ('u' as u8), ('x' as u8)]
}

/// The category an asset filename falls in, or `None` when no rule matches.
/// The rules are tried in order; the first match decides.
pub open spec fn spec_classify(name: Seq<u8>) -> Option<DownloadCategory> {
    if seq_ends_with(name, pat_dmg()) {
        Some(DownloadCategory::MacInstaller)
    } else if seq_ends_with(name, pat_appimage()) {
        Some(DownloadCategory::LinuxAppImage)
    } else if seq_ends_with(name, pat_deb()) {
        Some(DownloadCategory::LinuxDebianInstaller)
    } else if seq_ends_with(name, pat_setup_exe()) {
        Some(DownloadCategory::WindowsInstaller)
    } else if seq_ends_with(name, pat_exe()) {
        Some(DownloadCategory::WindowsPortable)
    } else if seq_contains(name, pat_macos()) {
        Some(DownloadCategory::MacPortable)
    } else if seq_contains(name, pat_linux()) {
        Some(DownloadCategory::LinuxPortable)
    } else {
        None
    }
}

fn dmg_pattern() -> (v: Vec<u8>)
    ensures
        v@ == pat_dmg(),
{
    let v: Vec<u8> = vec![('.' as u8), ('d' as u8), ('m' as u8), ('g' as u8)];
    proof {
        assert(v@ =~= pat_dmg());
    }
    v
}

fn appimage_pattern() -> (v: Vec<u8>)
    ensures
        v@ == pat_appimage(),
{
    let v: Vec<u8> = vec![('.' as u8), ('A' as u8), ('p' as u8), ('p' as u8), ('I' as u8), ('m' as u8), ('a' as u8), ('g' as u8), ('e' as u8)];
    proof {
        assert(v@ =~= pat_appimage());
    }
    v
}

fn deb_pattern() -> (v: Vec<u8>)
    ensures
        v@ == pat_deb(),
{
    let v: Vec<u8> = vec![('.' as u8), ('d' as u8), ('e' as u8), ('b' as u8)];
    proof {
        assert(v@ =~= pat_deb());
    }
    v
}

fn setup_exe_pattern() -> (v: Vec<u8>)
    ensures
        v@ == pat_setup_exe(),
{
    let v: Vec<u8> = vec![('-' as u8), ('S' as u8), ('e' as u8), ('t' as u8), ('u' as u8), ('p' as u8), ('.' as u8), ('e' as u8), ('x' as u8), ('e' as u8)];
    proof {
        assert(v@ =~= pat_setup_exe());
    }
    v
}

fn exe_pattern() -> (v: Vec<u8>)
    ensures
        v@ == pat_exe(),
{
    let v: Vec<u8> = vec![('.' as u8), ('e' as u8), ('x' as u8), ('e' as u8)];
    proof {
        assert(v@ =~= pat_exe());
    }
    v
}

fn macos_pattern() -> (v: Vec<u8>)
    ensures
        v@ == pat_macos(),
{
    let v: Vec<u8> = vec![('-' as u8), ('m' as u8), ('a' as u8), ('c' as u8), ('O' as u8), ('S' as u8)];
    proof {
        assert(v@ =~= pat_macos());
    }
    v
}

fn linux_pattern() -> (v: Vec<u8>)
    ensures
        v@ == pat_linux(),
{
    let v: Vec<u8> = vec![('-' as u8), ('L' as u8), ('i' as u8), ('n' as u8), ('u' as u8), ('x' as u8)];
    proof {
        assert(v@ =~= pat_linux());
    }
    v
}

/// Classifies one asset filename.
pub fn classify_name(name: &Vec<u8>) -> (r: Option<DownloadCategory>)
    ensures
        r == spec_classify(name@),
{
    if ends_with(name, &dmg_pattern()) {
        Some(DownloadCategory::MacInstaller)
    } else if ends_with(name, &appimage_pattern()) {
        Some(DownloadCategory::LinuxAppImage)
    } else if ends_with(name, &deb_pattern()) {
        Some(DownloadCategory::LinuxDebianInstaller)
    } else if ends_with(name, &setup_exe_pattern()) {
        Some(DownloadCategory::WindowsInstaller)
    } else if ends_with(name, &exe_pattern()) {
        Some(DownloadCategory::WindowsPortable)
    } else if contains_seq(name, &macos_pattern()) {
        Some(DownloadCategory::MacPortable)
    } else if contains_seq(name, &linux_pattern()) {
        Some(DownloadCategory::LinuxPortable)
    } else {
        None
    }
}

/// A mapping from download category to the download URL of the matching
/// asset, with at most one URL per category.
pub struct CategoryLinkMap {
    pub windows_installer: Option<Vec<u8>>,
    pub windows_portable: Option<Vec<u8>>,
    pub linux_debian_installer: Option<Vec<u8>>,
    pub linux_app_image: Option<Vec<u8>>,
    pub linux_portable: Option<Vec<u8>>,
    pub mac_installer: Option<Vec<u8>>,
    pub mac_portable: Option<Vec<u8>>,
}

/// The view of an optional byte string.
pub open spec fn opt_view(o: Option<Vec<u8>>) -> Option<Seq<u8>> {
    match o {
        Some(v) => Some(v@),
        None => None,
    }
}

impl CategoryLinkMap {
    /// The URL stored for a category, as a mathematical value.
    pub open spec fn spec_get(self, c: DownloadCategory) -> Option<Seq<u8>> {
        match c {
            DownloadCategory::WindowsInstaller => opt_view(self.windows_installer),
            DownloadCategory::WindowsPortable => opt_view(self.windows_portable),
            DownloadCategory::LinuxDebianInstaller => opt_view(self.linux_debian_installer),
            DownloadCategory::LinuxAppImage => opt_view(self.linux_app_image),
            DownloadCategory::LinuxPortable => opt_view(self.linux_portable),
            DownloadCategory::MacInstaller => opt_view(self.mac_installer),
            DownloadCategory::MacPortable => opt_view(self.mac_portable),
        }
    }

    /// A map with no link in any category.
    pub fn empty() -> (m: CategoryLinkMap)
        ensures
            forall|c: DownloadCategory| #[trigger] m.spec_get(c) is None,
    {
        CategoryLinkMap {
            windows_installer: None,
            windows_portable: None,
            linux_debian_installer: None,
            linux_app_image: None,
            linux_portable: None,
            mac_installer: None,
            mac_portable: None,
        }
    }

    /// The URL stored for a category, if any.
    pub fn get(&self, c: DownloadCategory) -> (r: Option<&Vec<u8>>)
        ensures
            match r {
                Some(v) => self.spec_get(c) == Some(v@),
                None => self.spec_get(c) is None,
            },
    {
        let field = match c {
            DownloadCategory::WindowsInstaller => &self.windows_installer,
            DownloadCategory::WindowsPortable => &self.windows_portable,
            DownloadCategory::LinuxDebianInstaller => &self.linux_debian_installer,
            DownloadCategory::LinuxAppImage => &self.linux_app_image,
            DownloadCategory::LinuxPortable => &self.linux_portable,
            DownloadCategory::MacInstaller => &self.mac_installer,
            DownloadCategory::MacPortable => &self.mac_portable,
        };
        match field {
            Some(v) => Some(v),
            None => None,
        }
    }

    /// Stores a URL for a category, replacing any earlier one.
    pub fn insert(&mut self, c: DownloadCategory, url: Vec<u8>)
        ensures
            final(self).spec_get(c) == Some(url@),
            forall|d: DownloadCategory|
                d != c ==> #[trigger] final(self).spec_get(d) == old(self).spec_get(d),
    {
        match c {
            DownloadCategory::WindowsInstaller => {
                self.windows_installer = Some(url);
            },
            DownloadCategory::WindowsPortable => {
                self.windows_portable = Some(url);
            },
            DownloadCategory::LinuxDebianInstaller => {
                self.linux_debian_installer = Some(url);
            },
            DownloadCategory::LinuxAppImage => {
                self.linux_app_image = Some(url);
            },
            DownloadCategory::LinuxPortable => {
                self.linux_portable = Some(url);
            },
            DownloadCategory::MacInstaller => {
                self.mac_installer = Some(url);
            },
            DownloadCategory::MacPortable => {
                self.mac_portable = Some(url);
            },
        }
    }
}

/// The link a category receives from a list of assets: the download URL of
/// the last asset (in list order) whose name classifies to that category.
pub open spec fn spec_link_for(assets: Seq<ReleaseAsset>, c: DownloadCategory) -> Option<Seq<u8>>
    decreases assets.len(),
{
    if assets.len() == 0 {
        None
    } else if spec_classify(assets.last().name@) == Some(c) {
        Some(assets.last().download_url@)
    } else {
        spec_link_for(assets.drop_last(), c)
    }
}

/// Builds the category-to-link map for a list of release assets. Assets that
/// match no rule contribute nothing; later assets overwrite earlier ones that
/// map to the same category.
pub fn classify(assets: &Vec<ReleaseAsset>) -> (m: CategoryLinkMap)
    ensures
        forall|c: DownloadCategory| #[trigger] m.spec_get(c) == spec_link_for(assets@, c),
{
    let mut m = CategoryLinkMap::empty();
    let n: usize = assets.len();
    let mut i: usize = 0;
    while i < n
        invariant
            n == assets@.len(),
            i <= n,
            forall|c: DownloadCategory|
                #[trigger] m.spec_get(c) == spec_link_for(assets@.take(i as int), c),
        decreases n - i,
    {
        let asset = &assets[i];
        let category = classify_name(&asset.name);
        proof {
            assert(assets@.take(i + 1).drop_last() =~= assets@.take(i as int));
            assert(assets@.take(i + 1).last() == assets@[i as int]);
        }
        match category {
            Some(c) => {
                m.insert(c, clone_bytes(&asset.download_url));
            },
            None => {},
        }
        i = i + 1;
    }
    proof {
        assert(assets@.take(assets@.len() as int) =~= assets@);
    }
    m
}

/// The names in a list that match no classification rule, in list order.
pub open spec fn spec_unmatched(assets: Seq<ReleaseAsset>) -> Seq<Seq<u8>>
    decreases assets.len(),
{
    if assets.len() == 0 {
        Seq::empty()
    } else if spec_classify(assets.last().name@) is None {
        spec_unmatched(assets.drop_last()).push(assets.last().name@)
    } else {
        spec_unmatched(assets.drop_last())
    }
}

/// The view of a list of byte strings.
pub open spec fn names_view(names: Seq<Vec<u8>>) -> Seq<Seq<u8>> {
    Seq::new(names.len(), |i: int| names[i]@)
}

/// Collects the asset names that match no rule, in list order. Such assets
/// get no entry in the link map; the caller emits one diagnostic per name.
pub fn unmatched_names(assets: &Vec<ReleaseAsset>) -> (r: Vec<Vec<u8>>)
    ensures
        names_view(r@) == spec_unmatched(assets@),
{
    let mut r: Vec<Vec<u8>> = Vec::new();
    let n: usize = assets.len();
    let mut i: usize = 0;
    while i < n
        invariant
            n == assets@.len(),
            i <= n,
            names_view(r@) == spec_unmatched(assets@.take(i as int)),
        decreases n - i,
    {
        let asset = &assets[i];
        proof {
            assert(assets@.take(i + 1).drop_last() =~= assets@.take(i as int));
            assert(assets@.take(i + 1).last() == assets@[i as int]);
        }
        match classify_name(&asset.name) {
            None => {
                let name = clone_bytes(&asset.name);
                proof {
                    assert(names_view(r@.push(name)) =~= names_view(r@).push(name@));
                }
                r.push(name);
            },
            Some(_) => {},
        }
        i = i + 1;
    }
    proof {
        assert(assets@.take(assets@.len() as int) =~= assets@);
    }
    r
}

/// Law: a name ending in ".dmg" always classifies as `MacInstaller`.
pub proof fn lemma_dmg_is_mac_installer(name: Seq<u8>)
    requires
        seq_ends_with(name, pat_dmg()),
    ensures
        spec_classify(name) == Some(DownloadCategory::MacInstaller),
{
}

/// Law: a name ending in ".AppImage" always classifies as `LinuxAppImage`.
pub proof fn lemma_appimage_is_linux_appimage(name: Seq<u8>)
    requires
        seq_ends_with(name, pat_appimage()),
    ensures
        spec_classify(name) == Some(DownloadCategory::LinuxAppImage),
{
    if seq_ends_with(name, pat_dmg()) {
        assert(name[name.len() - 4 + 3] == pat_dmg()[3]);
        assert(name[name.len() - 9 + 8] == pat_appimage()[8]);
    }
}

/// Law: a name ending in ".deb" always classifies as `LinuxDebianInstaller`.
pub proof fn lemma_deb_is_linux_debian(name: Seq<u8>)
    requires
        seq_ends_with(name, pat_deb()),
    ensures
        spec_classify(name) == Some(DownloadCategory::LinuxDebianInstaller),
{
    assert(name[name.len() - 4 + 3] == pat_deb()[3]);
    if seq_ends_with(name, pat_dmg()) {
        assert(name[name.len() - 4 + 3] == pat_dmg()[3]);
    }
    if seq_ends_with(name, pat_appimage()) {
        assert(name[name.len() - 9 + 8] == pat_appimage()[8]);
    }
}

/// Law: a name ending in "-Setup.exe" always classifies as
/// `WindowsInstaller` — never as `WindowsPortable`, although it also ends in
/// ".exe". The installer rule is tried first.
pub proof fn lemma_setup_exe_is_windows_installer(name: Seq<u8>)
    requires
        seq_ends_with(name, pat_setup_exe()),
    ensures
        spec_classify(name) == Some(DownloadCategory::WindowsInstaller),
{
    assert(name[name.len() - 10 + 9] == pat_setup_exe()[9]);
    assert(name[name.len() - 10 + 8] == pat_setup_exe()[8]);
    if seq_ends_with(name, pat_dmg()) {
        assert(name[name.len() - 4 + 3] == pat_dmg()[3]);
    }
    if seq_ends_with(name, pat_appimage()) {
        assert(name[name.len() - 9 + 7] == pat_appimage()[7]);
    }
    if seq_ends_with(name, pat_deb()) {
        assert(name[name.len() - 4 + 3] == pat_deb()[3]);
    }
}

/// Law: a name ending in ".exe" but not in "-Setup.exe" classifies as
/// `WindowsPortable`.
pub proof fn lemma_plain_exe_is_windows_portable(name: Seq<u8>)
    requires
        seq_ends_with(name, pat_exe()),
        !seq_ends_with(name, pat_setup_exe()),
    ensures
        spec_classify(name) == Some(DownloadCategory::WindowsPortable),
{
    assert(name[name.len() - 4 + 3] == pat_exe()[3]);
    assert(name[name.len() - 4 + 2] == pat_exe()[2]);
    if seq_ends_with(name, pat_dmg()) {
        assert(name[name.len() - 4 + 3] == pat_dmg()[3]);
    }
    if seq_ends_with(name, pat_appimage()) {
        assert(name[name.len() - 9 + 7] == pat_appimage()[7]);
    }
    if seq_ends_with(name, pat_deb()) {
        assert(name[name.len() - 4 + 3] == pat_deb()[3]);
    }
}

/// Law: a name that contains "-macOS" classifies as `MacPortable`, provided
/// none of the suffix rules (tried earlier) matches it.
pub proof fn lemma_macos_substring_is_mac_portable(name: Seq<u8>)
    requires
        seq_contains(name, pat_macos()),
        !seq_ends_with(name, pat_dmg()),
        !seq_ends_with(name, pat_appimage()),
        !seq_ends_with(name, pat_deb()),
        !seq_ends_with(name, pat_setup_exe()),
        !seq_ends_with(name, pat_exe()),
    ensures
        spec_classify(name) == Some(DownloadCategory::MacPortable),
{
}

/// Law: a name that contains "-Linux" classifies as `LinuxPortable`,
/// provided no earlier rule matches it.
pub proof fn lemma_linux_substring_is_linux_portable(name: Seq<u8>)
    requires
        seq_contains(name, pat_linux()),
        !seq_ends_with(name, pat_dmg()),
        !seq_ends_with(name, pat_appimage()),
        !seq_ends_with(name, pat_deb()),
        !seq_ends_with(name, pat_setup_exe()),
        !seq_ends_with(name, pat_exe()),
        !seq_contains(name, pat_macos()),
    ensures
        spec_classify(name) == Some(DownloadCategory::LinuxPortable),
{
}

/// Law: an asset that matches no rule is dropped: appending it to a list
/// changes no category's link.
pub proof fn lemma_unmatched_is_dropped(assets: Seq<ReleaseAsset>, a: ReleaseAsset, c: DownloadCategory)
    requires
        spec_classify(a.name@) is None,
    ensures
        spec_link_for(assets.push(a), c) == spec_link_for(assets, c),
{
    assert(assets.push(a).last() == a);
    assert(assets.push(a).drop_last() =~= assets);
}

/// Law: when no asset in the list classifies to a category, that category
/// has no link.
pub proof fn lemma_no_match_no_link(assets: Seq<ReleaseAsset>, c: DownloadCategory)
    requires
        forall|k: int| 0 <= k < assets.len() ==> #[trigger] spec_classify(assets[k].name@) != Some(c),
    ensures
        spec_link_for(assets, c) is None,
    decreases assets.len(),
{
    if assets.len() > 0 {
        assert(spec_classify(assets[assets.len() - 1].name@) != Some(c));
        lemma_no_match_no_link(assets.drop_last(), c);
    }
}

/// Law: when several assets classify to the same category, the link is the
/// later one's — the last matching asset, in list order, wins.
pub proof fn lemma_last_match_wins(assets: Seq<ReleaseAsset>, j: int, c: DownloadCategory)
    requires
        0 <= j < assets.len(),
        spec_classify(assets[j].name@) == Some(c),
        forall|k: int| j < k < assets.len() ==> #[trigger] spec_classify(assets[k].name@) != Some(c),
    ensures
        spec_link_for(assets, c) == Some(assets[j].download_url@),
    decreases assets.len(),
{
    if j == assets.len() - 1 {
        assert(assets.last() == assets[j]);
    } else {
        assert(spec_classify(assets[assets.len() - 1].name@) != Some(c));
        lemma_last_match_wins(assets.drop_last(), j, c);
    }
}

} // verus!
