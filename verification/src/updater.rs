//! Deciding, from a published release, whether a newer viewer is available and
//! which download suits the running platform.

use vstd::prelude::*;

use crate::platform::Platform;
use crate::strings::{
    ascii_lower, ascii_lower_vec, chars_of, contains_exec, ends_with_exec, contains_seq, ends_with, push_char, starts_with, starts_with_exec, trim,
    trim_bounds, trim_start, trim_end, is_white_space, lemma_trim_start_shape, lemma_trim_edges,
    lemma_trim_keeps, lemma_trim_start_skip, lemma_trim_end_cut,
};

verus! {

broadcast use vstd::string::group_string_axioms;

/// A newer release and where to get it.
#[derive(Clone, Debug)]
pub struct UpdateInfo {
    pub latest_version: String,
    pub download_url: String,
}

/// Outcome of comparing the running version with the latest release.
#[derive(Clone, Debug)]
pub enum UpdateCheck {
    UpToDate { latest_version: String },
    UpdateAvailable(UpdateInfo),
}

/// One downloadable file of a release.
#[derive(Clone, Debug)]
pub struct GithubAsset {
    pub name: String,
    pub browser_download_url: String,
}

/// The parts of a published release that the update check reads.
#[derive(Clone, Debug)]
pub struct GithubRelease {
    pub tag_name: String,
    pub html_url: String,
    pub assets: Vec<GithubAsset>,
}

/// Why an update check could not decide.
#[derive(Clone, Debug)]
pub enum UpdateError {
    /// The text (after normalisation) is no semantic version.
    InvalidVersion { raw: String },
}

impl UpdateError {
    /// The message shown for the failure: `invalid version: ` and the text
    /// that is no version.
    pub fn message(&self) -> (r: String)
        ensures
            match self {
                UpdateError::InvalidVersion { raw } => r@ == "invalid version: "@ + raw@,
            },
    {
        match self {
            UpdateError::InvalidVersion { raw } => {
                let mut r = "invalid version: ".to_string();
                r.append(raw.as_str());
                r
            },
        }
    }
}

pub open spec fn refs_tags_prefix() -> Seq<char> {
    seq!['r', 'e', 'f', 's', '/', 't', 'a', 'g', 's', '/']
}

/// The sequence without its leading `v` / `V` characters.
pub open spec fn strip_version_marks(s: Seq<char>) -> Seq<char>
    decreases s.len(),
{
    if s.len() > 0 && (s[0] == 'v' || s[0] == 'V') {
        strip_version_marks(s.drop_first())
    } else {
        s
    }
}

/// A release tag or version text reduced to the bare version: trimmed, without
/// a leading `refs/tags/`, without leading `v`/`V` marks.
pub open spec fn normalized_version_label(raw: Seq<char>) -> Seq<char> {
    let trimmed = trim(raw);
    let no_ref = trim(
        if starts_with(trimmed, refs_tags_prefix()) {
            trimmed.skip(refs_tags_prefix().len() as int)
        } else {
            trimmed
        },
    );
    strip_version_marks(no_ref)
}

proof fn lemma_strip_skip(s: Seq<char>, i: int)
    requires
        0 <= i <= s.len(),
        forall|k: int| 0 <= k < i ==> (#[trigger] s[k] == 'v' || s[k] == 'V'),
    ensures
        strip_version_marks(s) == strip_version_marks(s.subrange(i, s.len() as int)),
    decreases i,
{
    if i > 0 {
        lemma_strip_skip(s.drop_first(), i - 1);
        assert(s.drop_first().subrange(i - 1, s.drop_first().len() as int) =~= s.subrange(
            i,
            s.len() as int,
        ));
    } else {
        assert(s.subrange(0, s.len() as int) =~= s);
    }
}

/// A version text with nothing for normalisation to take away: no white
/// space around it, no leading `v`/`V`, no leading `refs/tags/`.
pub open spec fn is_bare_version(s: Seq<char>) -> bool {
    &&& trim(s) == s
    &&& !(s.len() > 0 && (s[0] == 'v' || s[0] == 'V'))
    &&& !starts_with(s, refs_tags_prefix())
}

proof fn lemma_strip_shape(s: Seq<char>)
    ensures
        strip_version_marks(s).is_suffix_of(s),
        strip_version_marks(s).len() > 0 ==> strip_version_marks(s)[0] != 'v'
            && strip_version_marks(s)[0] != 'V',
    decreases s.len(),
{
    if s.len() > 0 && (s[0] == 'v' || s[0] == 'V') {
        let d = s.drop_first();
        lemma_strip_shape(d);
        let t = strip_version_marks(d);
        assert(t =~= s.subrange(s.len() - t.len(), s.len() as int)) by {
            assert forall|i: int| 0 <= i < t.len() implies t[i] == s[s.len() - t.len() + i] by {
                assert(t[i] == d[d.len() - t.len() + i]);
            }
        }
    } else {
        assert(s =~= s.subrange(0, s.len() as int));
    }
}

proof fn lemma_suffix_of_suffix(a: Seq<char>, b: Seq<char>, c: Seq<char>)
    requires
        a.is_suffix_of(b),
        b.is_suffix_of(c),
    ensures
        a.is_suffix_of(c),
{
    assert forall|i: int| 0 <= i < a.len() implies a[i] == c[c.len() - a.len() + i] by {
        assert(a[i] == b[b.len() - a.len() + i]);
        assert(b[b.len() - a.len() + i] == c[c.len() - b.len() + (b.len() - a.len() + i)]);
    }
    assert(a =~= c.subrange(c.len() - a.len(), c.len() as int));
}

proof fn lemma_not_refs_tags(s: Seq<char>)
    requires
        s.len() > 0,
        s[0] != 'r',
    ensures
        !starts_with(s, refs_tags_prefix()),
{
    if starts_with(s, refs_tags_prefix()) {
        assert(s.subrange(0, 10)[0] == refs_tags_prefix()[0]);
    }
}

/// A bare version comes out of normalisation unchanged, and so it does when it
/// is written with a `v` before it, as a `refs/tags/V` tag, or with white space
/// and `vV` around it.
pub proof fn law_bare_version_survives_normalisation(s: Seq<char>)
    requires
        is_bare_version(s),
    ensures
        normalized_version_label(s) == s,
        normalized_version_label(seq!['v'] + s) == s,
        normalized_version_label(refs_tags_prefix() + seq!['V'] + s) == s,
        normalized_version_label(seq![' ', ' ', 'v', 'V'] + s + seq!['\n']) == s,
{
    lemma_trim_edges(s);
    // the text itself
    lemma_trim_keeps(s);
    // with a `v` before it
    let x1 = seq!['v'] + s;
    assert(x1[0] == 'v');
    assert(x1.last() == if s.len() > 0 { s.last() } else { 'v' });
    lemma_trim_keeps(x1);
    lemma_not_refs_tags(x1);
    assert(x1.drop_first() =~= s);
    assert(strip_version_marks(x1) == strip_version_marks(s));
    // as a `refs/tags/V` tag
    let y = seq!['V'] + s;
    let x2 = refs_tags_prefix() + y;
    assert(x2 =~= refs_tags_prefix() + seq!['V'] + s);
    assert(x2[0] == 'r');
    assert(x2.last() == if s.len() > 0 { s.last() } else { 'V' });
    lemma_trim_keeps(x2);
    assert(x2.subrange(0, 10) =~= refs_tags_prefix());
    assert(starts_with(x2, refs_tags_prefix()));
    assert(x2.skip(refs_tags_prefix().len() as int) =~= y);
    assert(y[0] == 'V');
    assert(y.last() == if s.len() > 0 { s.last() } else { 'V' });
    lemma_trim_keeps(y);
    assert(y.drop_first() =~= s);
    assert(strip_version_marks(y) == strip_version_marks(s));
    // with white space and `vV` around it
    let x3 = seq![' ', ' ', 'v', 'V'] + s + seq!['\n'];
    let z = x3.subrange(2, x3.len() as int);
    assert(is_white_space(x3[0]) && is_white_space(x3[1]));
    lemma_trim_start_skip(x3, 2);
    assert(z[0] == 'v');
    assert(trim_start(z) == z);
    let w = seq!['v', 'V'] + s;
    assert(z.subrange(0, z.len() - 1) =~= w);
    assert(is_white_space(z[z.len() - 1]));
    lemma_trim_end_cut(z, z.len() - 1);
    assert(w[0] == 'v');
    assert(w.last() == if s.len() > 0 { s.last() } else { 'V' });
    lemma_trim_keeps(w);
    assert(trim(x3) == w);
    lemma_not_refs_tags(w);
    assert(w.drop_first() =~= y);
    assert(strip_version_marks(w) == strip_version_marks(y));
}

/// Whatever the input, normalisation gives back the end of the trimmed text,
/// and what it gives back does not begin with `v` or `V`.
pub proof fn law_normalised_is_a_suffix(raw: Seq<char>)
    ensures
        normalized_version_label(raw).is_suffix_of(trim(raw)),
        normalized_version_label(raw).len() > 0 ==> normalized_version_label(raw)[0] != 'v'
            && normalized_version_label(raw)[0] != 'V',
{
    let t = trim(raw);
    lemma_trim_edges(raw);
    let x = if starts_with(t, refs_tags_prefix()) {
        t.skip(refs_tags_prefix().len() as int)
    } else {
        t
    };
    assert(x.is_suffix_of(t)) by {
        if starts_with(t, refs_tags_prefix()) {
            assert(x =~= t.subrange(t.len() - x.len(), t.len() as int));
        } else {
            assert(x =~= t.subrange(0, t.len() as int));
        }
    }
    let u = trim_start(x);
    lemma_trim_start_shape(x);
    if u.len() > 0 {
        assert(u.last() == x[x.len() - 1]);
        assert(x.last() == t.last());
    }
    assert(trim_end(u) == u);
    lemma_suffix_of_suffix(u, x, t);
    lemma_strip_shape(u);
    lemma_suffix_of_suffix(strip_version_marks(u), u, t);
}

/// Reduces a release tag or version text to the bare version
/// (`"refs/tags/v2.0.1"` becomes `"2.0.1"`).
pub fn normalize_version_label(raw: &str) -> (r: String)
    ensures
        r@ == normalized_version_label(raw@),
{
    let chars = chars_of(raw);
    let (s0, e0) = trim_bounds(chars.as_slice());
    let mut trimmed: Vec<char> = Vec::new();
    let mut k = s0;
    while k < e0
        invariant
            s0 <= k <= e0 <= chars@.len(),
            trimmed@ == chars@.subrange(s0 as int, k as int),
        decreases e0 - k,
    {
        trimmed.push(chars[k]);
        k += 1;
        assert(trimmed@ =~= chars@.subrange(s0 as int, k as int));
    }
    let prefix: [char; 10] = ['r', 'e', 'f', 's', '/', 't', 'a', 'g', 's', '/'];
    assert(prefix@ =~= refs_tags_prefix());
    let has_ref = starts_with_exec(trimmed.as_slice(), prefix.as_slice());
    let mut rest: Vec<char> = Vec::new();
    let mut k: usize = if has_ref {
        10
    } else {
        0
    };
    let start = k;
    while k < trimmed.len()
        invariant
            start <= k <= trimmed@.len(),
            start <= trimmed@.len(),
            rest@ == trimmed@.subrange(start as int, k as int),
        decreases trimmed@.len() - k,
    {
        rest.push(trimmed[k]);
        k += 1;
        assert(rest@ =~= trimmed@.subrange(start as int, k as int));
    }
    assert(rest@ =~= (if has_ref {
        trimmed@.skip(10)
    } else {
        trimmed@
    }));
    let (s1, e1) = trim_bounds(rest.as_slice());
    let mut i = s1;
    while i < e1 && (rest[i] == 'v' || rest[i] == 'V')
        invariant
            s1 <= i <= e1 <= rest@.len(),
            forall|m: int| s1 <= m < i ==> (#[trigger] rest@[m] == 'v' || rest@[m] == 'V'),
        decreases e1 - i,
    {
        i += 1;
    }
    let ghost no_ref = rest@.subrange(s1 as int, e1 as int);
    proof {
        assert forall|m: int| 0 <= m < i - s1 implies (#[trigger] no_ref[m] == 'v' || no_ref[m]
            == 'V') by {
            assert(no_ref[m] == rest@[m + s1]);
        }
        lemma_strip_skip(no_ref, i - s1);
        assert(no_ref.subrange(i - s1, no_ref.len() as int) =~= rest@.subrange(
            i as int,
            e1 as int,
        ));
    }
    let mut r = String::new();
    let mut j = i;
    while j < e1
        invariant
            i <= j <= e1 <= rest@.len(),
            r@ == rest@.subrange(i as int, j as int),
        decreases e1 - j,
    {
        push_char(&mut r, rest[j]);
        j += 1;
        assert(r@ =~= rest@.subrange(i as int, j as int));
    }
    r
}

pub open spec fn macos_word() -> Seq<char> {
    seq!['m', 'a', 'c', 'o', 's']
}

pub open spec fn macos_dash() -> Seq<char> {
    seq!['m', 'a', 'c', 'o', 's', '-']
}

pub open spec fn windows_word() -> Seq<char> {
    seq!['w', 'i', 'n', 'd', 'o', 'w', 's']
}

pub open spec fn windows_dash() -> Seq<char> {
    seq!['w', 'i', 'n', 'd', 'o', 'w', 's', '-']
}

pub open spec fn dmg_ext() -> Seq<char> {
    seq!['.', 'd', 'm', 'g']
}

pub open spec fn app_zip_ext() -> Seq<char> {
    seq!['.', 'a', 'p', 'p', '.', 'z', 'i', 'p']
}

pub open spec fn exe_ext() -> Seq<char> {
    seq!['.', 'e', 'x', 'e']
}

pub open spec fn appimage_ext() -> Seq<char> {
    seq!['.', 'a', 'p', 'p', 'i', 'm', 'a', 'g', 'e']
}

pub open spec fn deb_ext() -> Seq<char> {
    seq!['.', 'd', 'e', 'b']
}

pub open spec fn rpm_ext() -> Seq<char> {
    seq!['.', 'r', 'p', 'm']
}

pub open spec fn tar_gz_ext() -> Seq<char> {
    seq!['.', 't', 'a', 'r', '.', 'g', 'z']
}

proof fn lemma_prefix_mention(l: Seq<char>, dash: Seq<char>, word: Seq<char>)
    requires
        starts_with(l, dash),
        word.len() <= dash.len(),
        word == dash.take(word.len() as int),
    ensures
        contains_seq(l, word),
{
    assert(l.subrange(0, word.len() as int) =~= word) by {
        assert forall|k: int| 0 <= k < word.len() implies l.subrange(0, word.len() as int)[k] == word[k] by {
            assert(l.subrange(0, dash.len() as int)[k] == dash[k]);
        }
    }
    assert(crate::strings::occurs_at(l, word, 0));
}

/// Which release files suit which platform, by name, read case-insensitively:
/// a macOS disk image or zipped application names `macos` anywhere and ends
/// in `.dmg` or `.app.zip`; a Windows installer names `windows` anywhere and
/// ends in `.exe`; a Linux package ends in `.appimage`, `.deb`, `.rpm` or
/// `.tar.gz`.
pub proof fn law_release_file_kinds(name: Seq<char>)
    ensures
        spec_is_macos_dmg(name) <==> contains_seq(ascii_lower(name), seq!['m', 'a', 'c', 'o', 's'])
            && ends_with(ascii_lower(name), seq!['.', 'd', 'm', 'g']),
        spec_is_macos_app_zip(name) <==> contains_seq(
            ascii_lower(name),
            seq!['m', 'a', 'c', 'o', 's'],
        ) && ends_with(ascii_lower(name), seq!['.', 'a', 'p', 'p', '.', 'z', 'i', 'p']),
        spec_is_windows_installer(name) <==> contains_seq(
            ascii_lower(name),
            seq!['w', 'i', 'n', 'd', 'o', 'w', 's'],
        ) && ends_with(ascii_lower(name), seq!['.', 'e', 'x', 'e']),
        spec_is_linux_installer(name) <==> ends_with(
            ascii_lower(name),
            seq!['.', 'a', 'p', 'p', 'i', 'm', 'a', 'g', 'e'],
        ) || ends_with(ascii_lower(name), seq!['.', 'd', 'e', 'b']) || ends_with(
            ascii_lower(name),
            seq!['.', 'r', 'p', 'm'],
        ) || ends_with(ascii_lower(name), seq!['.', 't', 'a', 'r', '.', 'g', 'z']),
{
    let l = ascii_lower(name);
    assert(macos_word() =~= seq!['m', 'a', 'c', 'o', 's']);
    assert(windows_word() =~= seq!['w', 'i', 'n', 'd', 'o', 'w', 's']);
    assert(dmg_ext() =~= seq!['.', 'd', 'm', 'g']);
    assert(app_zip_ext() =~= seq!['.', 'a', 'p', 'p', '.', 'z', 'i', 'p']);
    assert(exe_ext() =~= seq!['.', 'e', 'x', 'e']);
    assert(appimage_ext() =~= seq!['.', 'a', 'p', 'p', 'i', 'm', 'a', 'g', 'e']);
    assert(deb_ext() =~= seq!['.', 'd', 'e', 'b']);
    assert(rpm_ext() =~= seq!['.', 'r', 'p', 'm']);
    assert(tar_gz_ext() =~= seq!['.', 't', 'a', 'r', '.', 'g', 'z']);
    if starts_with(l, macos_dash()) {
        assert(macos_word() =~= macos_dash().take(5));
        lemma_prefix_mention(l, macos_dash(), macos_word());
    }
    if starts_with(l, windows_dash()) {
        assert(windows_word() =~= windows_dash().take(7));
        lemma_prefix_mention(l, windows_dash(), windows_word());
    }
}

/// Named for macOS (case-insensitively) and a disk image.
pub open spec fn spec_is_macos_dmg(name: Seq<char>) -> bool {
    let l = ascii_lower(name);
    (starts_with(l, macos_dash()) || contains_seq(l, macos_word())) && ends_with(l, dmg_ext())
}

/// Named for macOS (case-insensitively) and a zipped application bundle.
pub open spec fn spec_is_macos_app_zip(name: Seq<char>) -> bool {
    let l = ascii_lower(name);
    (starts_with(l, macos_dash()) || contains_seq(l, macos_word())) && ends_with(l, app_zip_ext())
}

/// Named for Windows (case-insensitively) and an executable installer.
pub open spec fn spec_is_windows_installer(name: Seq<char>) -> bool {
    let l = ascii_lower(name);
    (starts_with(l, windows_dash()) || contains_seq(l, windows_word())) && ends_with(l, exe_ext())
}

/// A Linux package or bundle, by its (case-insensitive) extension.
pub open spec fn spec_is_linux_installer(name: Seq<char>) -> bool {
    let l = ascii_lower(name);
    ends_with(l, appimage_ext()) || ends_with(l, deb_ext()) || ends_with(l, rpm_ext()) || ends_with(
        l,
        tar_gz_ext(),
    )
}

pub fn is_macos_dmg(name: &str) -> (r: bool)
    ensures
        r == spec_is_macos_dmg(name@),
{
    let l = ascii_lower_vec(chars_of(name).as_slice());
    let dash: [char; 6] = ['m', 'a', 'c', 'o', 's', '-'];
    let word: [char; 5] = ['m', 'a', 'c', 'o', 's'];
    let ext: [char; 4] = ['.', 'd', 'm', 'g'];
    assert(dash@ =~= macos_dash());
    assert(word@ =~= macos_word());
    assert(ext@ =~= dmg_ext());
    (starts_with_exec(l.as_slice(), dash.as_slice()) || contains_exec(l.as_slice(), word.as_slice()))
        && ends_with_exec(l.as_slice(), ext.as_slice())
}

pub fn is_macos_app_zip(name: &str) -> (r: bool)
    ensures
        r == spec_is_macos_app_zip(name@),
{
    let l = ascii_lower_vec(chars_of(name).as_slice());
    let dash: [char; 6] = ['m', 'a', 'c', 'o', 's', '-'];
    let word: [char; 5] = ['m', 'a', 'c', 'o', 's'];
    let ext: [char; 8] = ['.', 'a', 'p', 'p', '.', 'z', 'i', 'p'];
    assert(dash@ =~= macos_dash());
    assert(word@ =~= macos_word());
    assert(ext@ =~= app_zip_ext());
    (starts_with_exec(l.as_slice(), dash.as_slice()) || contains_exec(l.as_slice(), word.as_slice()))
        && ends_with_exec(l.as_slice(), ext.as_slice())
}

pub fn is_windows_installer(name: &str) -> (r: bool)
    ensures
        r == spec_is_windows_installer(name@),
{
    let l = ascii_lower_vec(chars_of(name).as_slice());
    let dash: [char; 8] = ['w', 'i', 'n', 'd', 'o', 'w', 's', '-'];
    let word: [char; 7] = ['w', 'i', 'n', 'd', 'o', 'w', 's'];
    let ext: [char; 4] = ['.', 'e', 'x', 'e'];
    assert(dash@ =~= windows_dash());
    assert(word@ =~= windows_word());
    assert(ext@ =~= exe_ext());
    (starts_with_exec(l.as_slice(), dash.as_slice()) || contains_exec(l.as_slice(), word.as_slice()))
        && ends_with_exec(l.as_slice(), ext.as_slice())
}

pub fn is_linux_installer(name: &str) -> (r: bool)
    ensures
        r == spec_is_linux_installer(name@),
{
    let l = ascii_lower_vec(chars_of(name).as_slice());
    let appimage: [char; 9] = ['.', 'a', 'p', 'p', 'i', 'm', 'a', 'g', 'e'];
    let deb: [char; 4] = ['.', 'd', 'e', 'b'];
    let rpm: [char; 4] = ['.', 'r', 'p', 'm'];
    let tar_gz: [char; 7] = ['.', 't', 'a', 'r', '.', 'g', 'z'];
    assert(appimage@ =~= appimage_ext());
    assert(deb@ =~= deb_ext());
    assert(rpm@ =~= rpm_ext());
    assert(tar_gz@ =~= tar_gz_ext());
    ends_with_exec(l.as_slice(), appimage.as_slice()) || ends_with_exec(l.as_slice(), deb.as_slice())
        || ends_with_exec(l.as_slice(), rpm.as_slice()) || ends_with_exec(
        l.as_slice(),
        tar_gz.as_slice(),
    )
}

/// The kinds of download file the viewer looks for.
#[derive(Clone, Copy, Debug, PartialEq, Eq, Structural)]
pub enum AssetKind {
    MacosDmg,
    MacosAppZip,
    WindowsInstaller,
    LinuxInstaller,
}

pub open spec fn asset_is(kind: AssetKind, name: Seq<char>) -> bool {
    match kind {
        AssetKind::MacosDmg => spec_is_macos_dmg(name),
        AssetKind::MacosAppZip => spec_is_macos_app_zip(name),
        AssetKind::WindowsInstaller => spec_is_windows_installer(name),
        AssetKind::LinuxInstaller => spec_is_linux_installer(name),
    }
}

/// Index of the first asset of the given kind, scanning from position `from`.
pub open spec fn first_asset_from(assets: Seq<GithubAsset>, kind: AssetKind, from: int) -> Option<int>
    decreases assets.len() - from,
{
    if from < 0 || from >= assets.len() {
        None
    } else if asset_is(kind, assets[from].name@) {
        Some(from)
    } else {
        first_asset_from(assets, kind, from + 1)
    }
}

/// Index of the first asset of the given kind.
pub open spec fn first_asset(assets: Seq<GithubAsset>, kind: AssetKind) -> Option<int> {
    first_asset_from(assets, kind, 0)
}

/// Index of the asset preferred on the platform: on macOS a disk image, else a
/// zipped application; on Windows an installer; on other Unixes a package.
pub open spec fn platform_asset(assets: Seq<GithubAsset>, platform: Platform) -> Option<int> {
    match platform {
        Platform::MacOs => match first_asset(assets, AssetKind::MacosDmg) {
            Some(i) => Some(i),
            None => first_asset(assets, AssetKind::MacosAppZip),
        },
        Platform::Windows => first_asset(assets, AssetKind::WindowsInstaller),
        Platform::Linux => first_asset(assets, AssetKind::LinuxInstaller),
        Platform::OtherUnix => first_asset(assets, AssetKind::LinuxInstaller),
        Platform::Other => None,
    }
}

proof fn lemma_first_asset_found(assets: Seq<GithubAsset>, kind: AssetKind, from: int)
    requires
        0 <= from,
    ensures
        match first_asset_from(assets, kind, from) {
            Some(i) => from <= i < assets.len() && asset_is(kind, assets[i].name@) && forall|k: int|
                from <= k < i ==> !asset_is(kind, #[trigger] assets[k].name@),
            None => forall|k: int| from <= k < assets.len() ==> !asset_is(kind, #[trigger] assets[k].name@),
        },
    decreases assets.len() - from,
{
    if from < assets.len() && !asset_is(kind, assets[from].name@) {
        lemma_first_asset_found(assets, kind, from + 1);
    }
}

/// The download offered on macOS: the first disk image among the assets when
/// there is one; else the first zipped application when there is one; else
/// none. On Windows the first installer, on Linux and other Unixes the first
/// package, each when there is one.
pub proof fn law_platform_download_choice(assets: Seq<GithubAsset>)
    ensures
        (exists|k: int| 0 <= k < assets.len() && spec_is_macos_dmg(#[trigger] assets[k].name@))
            ==> (platform_asset(assets, Platform::MacOs) matches Some(i) && 0 <= i < assets.len()
            && spec_is_macos_dmg(assets[i].name@) && forall|k: int|
            0 <= k < i ==> !spec_is_macos_dmg(#[trigger] assets[k].name@)),
        (forall|k: int| 0 <= k < assets.len() ==> !spec_is_macos_dmg(#[trigger] assets[k].name@))
            ==> match platform_asset(assets, Platform::MacOs) {
            Some(i) => 0 <= i < assets.len() && spec_is_macos_app_zip(assets[i].name@) && forall|k: int|
                0 <= k < i ==> !spec_is_macos_app_zip(#[trigger] assets[k].name@),
            None => forall|k: int| 0 <= k < assets.len() ==> !spec_is_macos_app_zip(#[trigger] assets[k].name@),
        },
        match platform_asset(assets, Platform::Windows) {
            Some(i) => 0 <= i < assets.len() && spec_is_windows_installer(assets[i].name@) && forall|k: int|
                0 <= k < i ==> !spec_is_windows_installer(#[trigger] assets[k].name@),
            None => forall|k: int| 0 <= k < assets.len() ==> !spec_is_windows_installer(#[trigger] assets[k].name@),
        },
        match platform_asset(assets, Platform::Linux) {
            Some(i) => 0 <= i < assets.len() && spec_is_linux_installer(assets[i].name@) && forall|k: int|
                0 <= k < i ==> !spec_is_linux_installer(#[trigger] assets[k].name@),
            None => forall|k: int| 0 <= k < assets.len() ==> !spec_is_linux_installer(#[trigger] assets[k].name@),
        },
        platform_asset(assets, Platform::OtherUnix) == platform_asset(assets, Platform::Linux),
        platform_asset(assets, Platform::Other) is None,
{
    lemma_first_asset_found(assets, AssetKind::MacosDmg, 0);
    lemma_first_asset_found(assets, AssetKind::MacosAppZip, 0);
    lemma_first_asset_found(assets, AssetKind::WindowsInstaller, 0);
    lemma_first_asset_found(assets, AssetKind::LinuxInstaller, 0);
}

/// Whether `r` is the asset at index `i` of `assets`, or nothing when `i` is.
pub open spec fn picks(assets: Seq<GithubAsset>, i: Option<int>, r: Option<&GithubAsset>) -> bool {
    match i {
        Some(i) => r is Some && *r->0 == assets[i],
        None => r is None,
    }
}

fn is_asset_kind(kind: AssetKind, name: &str) -> (r: bool)
    ensures
        r == asset_is(kind, name@),
{
    match kind {
        AssetKind::MacosDmg => is_macos_dmg(name),
        AssetKind::MacosAppZip => is_macos_app_zip(name),
        AssetKind::WindowsInstaller => is_windows_installer(name),
        AssetKind::LinuxInstaller => is_linux_installer(name),
    }
}

proof fn lemma_first_asset_none_before(assets: Seq<GithubAsset>, kind: AssetKind, from: int, i: int)
    requires
        0 <= from <= i <= assets.len(),
        forall|k: int| from <= k < i ==> !asset_is(kind, #[trigger] assets[k].name@),
    ensures
        first_asset_from(assets, kind, from) == first_asset_from(assets, kind, i),
    decreases i - from,
{
    if from < i {
        lemma_first_asset_none_before(assets, kind, from + 1, i);
    }
}

fn find_asset(assets: &[GithubAsset], kind: AssetKind) -> (r: Option<usize>)
    ensures
        match r {
            Some(i) => first_asset(assets@, kind) == Some(i as int) && i < assets@.len(),
            None => first_asset(assets@, kind) is None,
        },
{
    let mut i: usize = 0;
    while i < assets.len()
        invariant
            i <= assets@.len(),
            forall|k: int| 0 <= k < i ==> !asset_is(kind, #[trigger] assets@[k].name@),
        decreases assets@.len() - i,
    {
        if is_asset_kind(kind, assets[i].name.as_str()) {
            proof {
                lemma_first_asset_none_before(assets@, kind, 0, i as int);
            }
            return Some(i);
        }
        i += 1;
    }
    proof {
        lemma_first_asset_none_before(assets@, kind, 0, i as int);
    }
    None
}

/// The first macOS disk image, else the first zipped macOS application.
pub fn select_macos_asset(assets: &[GithubAsset]) -> (r: Option<&GithubAsset>)
    ensures
        picks(assets@, platform_asset(assets@, Platform::MacOs), r),
{
    match find_asset(assets, AssetKind::MacosDmg) {
        Some(i) => Some(&assets[i]),
        None => match find_asset(assets, AssetKind::MacosAppZip) {
            Some(i) => Some(&assets[i]),
            None => None,
        },
    }
}

/// The first Windows installer.
pub fn select_windows_asset(assets: &[GithubAsset]) -> (r: Option<&GithubAsset>)
    ensures
        picks(assets@, platform_asset(assets@, Platform::Windows), r),
{
    match find_asset(assets, AssetKind::WindowsInstaller) {
        Some(i) => Some(&assets[i]),
        None => None,
    }
}

/// The first Linux package or bundle.
pub fn select_linux_asset(assets: &[GithubAsset]) -> (r: Option<&GithubAsset>)
    ensures
        picks(assets@, platform_asset(assets@, Platform::Linux), r),
{
    match find_asset(assets, AssetKind::LinuxInstaller) {
        Some(i) => Some(&assets[i]),
        None => None,
    }
}

/// The download that suits the platform, if the release has one.
pub fn select_asset_for_current_platform(platform: Platform, assets: &[GithubAsset]) -> (r: Option<
    &GithubAsset,
>)
    ensures
        picks(assets@, platform_asset(assets@, platform), r),
{
    match platform {
        Platform::MacOs => select_macos_asset(assets),
        Platform::Windows => select_windows_asset(assets),
        Platform::Linux => select_linux_asset(assets),
        Platform::OtherUnix => select_linux_asset(assets),
        Platform::Other => None,
    }
}

#[verifier::external_type_specification]
#[verifier::external_body]
pub struct ExSemverVersion(semver::Version);

/// A parsed semantic version. Only [`parse_semver`] makes one, so the parsed
/// value it carries always agrees with its plain fields.
pub struct SemVer {
    major: u64,
    minor: u64,
    patch: u64,
    pre: String,
    build: String,
    version: semver::Version,
}

/// The fields of a semantic version as plain values.
pub struct SemVerView {
    pub major: u64,
    pub minor: u64,
    pub patch: u64,
    pub pre: Seq<char>,
    pub build: Seq<char>,
}

impl View for SemVer {
    type V = SemVerView;

    closed spec fn view(&self) -> SemVerView {
        SemVerView {
            major: self.major,
            minor: self.minor,
            patch: self.patch,
            pre: self.pre@,
            build: self.build@,
        }
    }
}

/// What `semver::Version::parse` makes of a text: its fields, or nothing when
/// the text is no semantic version.
pub uninterp spec fn semver_parsed(raw: Seq<char>) -> Option<SemVerView>;

/// Whether one version orders at or before the other under
/// `<semver::Version as PartialOrd>::le`.
pub uninterp spec fn semver_le(a: SemVerView, b: SemVerView) -> bool;

/// Ordering by the numeric core `major.minor.patch` alone.
pub open spec fn core_le(a: SemVerView, b: SemVerView) -> bool {
    a.major < b.major || (a.major == b.major && (a.minor < b.minor || (a.minor == b.minor
        && a.patch <= b.patch)))
}

pub open spec fn same_core(a: SemVerView, b: SemVerView) -> bool {
    a.major == b.major && a.minor == b.minor && a.patch == b.patch
}

/// Parses with `semver::Version::parse`; the result is named `semver_parsed`.
#[verifier::external_body]
fn semver_parse(raw: &str) -> (r: Option<SemVer>)
    ensures
        match r {
            Some(v) => semver_parsed(raw@) == Some(v@),
            None => semver_parsed(raw@) is None,
        },
{
    match semver::Version::parse(raw) {
        Ok(v) => Some(
            SemVer {
                major: v.major,
                minor: v.minor,
                patch: v.patch,
                pre: v.pre.as_str().to_string(),
                build: v.build.as_str().to_string(),
                version: v,
            },
        ),
        Err(_) => None,
    }
}

/// Compares with `<semver::Version as PartialOrd>::le`, named `semver_le`. As
/// the crate documents, versions whose cores differ order by the core, and
/// a version orders at or before an equal one.
#[verifier::external_body]
fn semver_version_le(a: &SemVer, b: &SemVer) -> (r: bool)
    ensures
        r == semver_le(a@, b@),
        !same_core(a@, b@) ==> r == core_le(a@, b@),
        a@ == b@ ==> r,
{
    a.version <= b.version
}

/// Parses a semantic version, or says which text was none.
pub fn parse_semver(raw: &str) -> (r: Result<SemVer, UpdateError>)
    ensures
        match r {
            Ok(v) => semver_parsed(raw@) == Some(v@),
            Err(UpdateError::InvalidVersion { raw: text }) => semver_parsed(raw@) is None
                && text@ == raw@,
        },
{
    match semver_parse(raw) {
        Some(v) => Ok(v),
        None => Err(UpdateError::InvalidVersion { raw: raw.to_string() }),
    }
}

/// The download address offered for an update: the suitable asset's, else the
/// release page.
pub open spec fn update_download_url(release: GithubRelease, platform: Platform) -> Seq<char> {
    match platform_asset(release.assets@, platform) {
        Some(i) => release.assets@[i].browser_download_url@,
        None => release.html_url@,
    }
}

/// Turns the outcome of the version comparison into the answer: up to date when
/// the latest release orders at or before the running version, else the
/// release's version with the download that suits the platform.
pub fn resolve_update(
    latest_version: String,
    latest_le_current: bool,
    release: &GithubRelease,
    platform: Platform,
) -> (r: UpdateCheck)
    ensures
        match r {
            UpdateCheck::UpToDate { latest_version: v } => latest_le_current && v@
                == latest_version@,
            UpdateCheck::UpdateAvailable(info) => !latest_le_current && info.latest_version@
                == latest_version@ && info.download_url@ == update_download_url(*release, platform),
        },
{
    if latest_le_current {
        return UpdateCheck::UpToDate { latest_version };
    }
    let download_url = match select_asset_for_current_platform(platform, release.assets.as_slice()) {
        Some(asset) => asset.browser_download_url.clone(),
        None => release.html_url.clone(),
    };
    UpdateCheck::UpdateAvailable(UpdateInfo { latest_version, download_url })
}

/// Compares the running version with the latest published release. Both are
/// normalised first; the latest release's version is parsed before the running
/// one, and the first that is no semantic version is reported.
pub fn check_for_updates(current_version: &str, release: &GithubRelease, platform: Platform) -> (r:
    Result<UpdateCheck, UpdateError>)
    ensures
        ({
            let latest = normalized_version_label(release.tag_name@);
            let current = normalized_version_label(current_version@);
            match r {
                Err(UpdateError::InvalidVersion { raw }) => (semver_parsed(latest) is None && raw@
                    == latest) || (semver_parsed(latest) is Some && semver_parsed(current) is None
                    && raw@ == current),
                Ok(UpdateCheck::UpToDate { latest_version }) => semver_parsed(latest) is Some
                    && semver_parsed(current) is Some && semver_le(
                    semver_parsed(latest)->0,
                    semver_parsed(current)->0,
                ) && latest_version@ == latest,
                Ok(UpdateCheck::UpdateAvailable(info)) => semver_parsed(latest) is Some
                    && semver_parsed(current) is Some && !semver_le(
                    semver_parsed(latest)->0,
                    semver_parsed(current)->0,
                ) && info.latest_version@ == latest && info.download_url@ == update_download_url(
                    *release,
                    platform,
                ),
            }
        }),
{
    let latest_version = normalize_version_label(release.tag_name.as_str());
    let latest = match parse_semver(latest_version.as_str()) {
        Ok(v) => v,
        Err(e) => return Err(e),
    };
    let current_label = normalize_version_label(current_version);
    let current = match parse_semver(current_label.as_str()) {
        Ok(v) => v,
        Err(e) => return Err(e),
    };
    let le = semver_version_le(&latest, &current);
    Ok(resolve_update(latest_version, le, release, platform))
}

} // verus!
