//! What holds of releases, versions and installers, whatever the release is.
use crate::file_name;
use crate::json;
use crate::json::{Json, JsonModel};
use crate::memory_text;
use crate::number;
use crate::platform::{Arch, Platform};
use crate::text::{self, CharClass};
use crate::update;
use crate::update::{InstallError, Release, ReleaseAsset, ReleaseError, VersionError};
use vstd::prelude::*;

verus! {

// ---------------------------------------------------------------------------------------
// Installers
// ---------------------------------------------------------------------------------------

/// Whether a name, in lower case, names the processors of Intel.
pub open spec fn says_intel(name: Seq<char>) -> bool {
    let n = text::lowered(name);
    text::occurs(n, "x64"@) || text::occurs(n, "x86_64"@) || text::occurs(n, "amd64"@)
}

/// Whether a name, in lower case, names the processors of ARM.
pub open spec fn says_arm(name: Seq<char>) -> bool {
    let n = text::lowered(name);
    text::occurs(n, "arm64"@) || text::occurs(n, "aarch64"@)
}

/// Whether a name, in lower case, ends so.
pub open spec fn has_ending(name: Seq<char>, ending: Seq<char>) -> bool {
    text::ends(text::lowered(name), ending)
}

/// Whether a name, in lower case and apart from all but letters and digits, holds `codexplus`.
pub open spec fn says_codex_plus(name: Seq<char>) -> bool {
    text::occurs(
        text::lowered(name).filter(|c: char| text::is_ascii_alphanumeric(c)),
        "codexplus"@,
    )
}

/// Whether a file of this name is an installer of Codex++ for the machine. On macOS it is a disk
/// image or a package, on Windows a package or a program that installs; it does not name the
/// processors of another machine; and there is none for any other system, nor for other
/// processors on Windows.
pub open spec fn runs_on(name: Seq<char>, platform: Platform, arch: Arch) -> bool {
    &&& says_codex_plus(name)
    &&& arch == Arch::X86_64 ==> !says_arm(name)
    &&& arch == Arch::Aarch64 ==> !says_intel(name)
    &&& arch == Arch::Other ==> platform == Platform::MacOs && !says_arm(name) && !says_intel(name)
    &&& match platform {
        Platform::MacOs => has_ending(name, ".dmg"@) || has_ending(name, ".pkg"@),
        Platform::Windows => has_ending(name, ".msi"@) || (has_ending(name, ".exe"@) && (
        text::occurs(text::lowered(name), "setup"@) || text::occurs(
            text::lowered(name),
            "install"@,
        ))),
        Platform::Other => false,
    }
}

/// Whether an asset, by its name and address, may be offered: both say something, and it is an
/// installer for the machine.
pub open spec fn may_be_offered(
    asset: (String, String),
    platform: Platform,
    arch: Arch,
) -> bool {
    text::trimmed(asset.0@).len() > 0 && text::trimmed(asset.1@).len() > 0 && runs_on(
        asset.0@,
        platform,
        arch,
    )
}

/// Whether one asset is preferred to another: on Windows, a package to a program.
pub open spec fn is_preferred(a: (String, String), b: (String, String), platform: Platform) -> bool {
    platform == Platform::Windows && has_ending(a.0@, ".msi"@) && !has_ending(b.0@, ".msi"@)
}

proof fn lemma_lowered_twice(s: Seq<char>)
    ensures
        text::lowered(text::lowered(s)) == text::lowered(s),
{
    assert(text::lowered(text::lowered(s)) =~= text::lowered(s));
}

proof fn lemma_longer_occurs(s: Seq<char>, long: Seq<char>, short: Seq<char>)
    requires
        text::occurs(s, long),
        short.len() <= long.len(),
        long.take(short.len() as int) == short,
    ensures
        text::occurs(s, short),
{
    let i = choose|i: int| #[trigger] text::occurs_at(s, long, i);
    assert(s.subrange(i, i + short.len()) =~= s.subrange(i, i + long.len()).take(
        short.len() as int,
    ));
    assert(text::occurs_at(s, short, i));
}

/// The rank of an asset says whether it may be offered, and whether it is a package.
proof fn lemma_rank(asset: (String, String), platform: Platform, arch: Arch)
    ensures
        ({
            let rank = update::asset_rank((asset.0@, asset.1@), platform, arch);
            &&& (rank is Some) == may_be_offered(asset, platform, arch)
            &&& rank is Some ==> rank->0 == (if platform == Platform::Windows && !has_ending(
                asset.0@,
                ".msi"@,
            ) {
                1u8
            } else {
                0u8
            })
        }),
{
    let name = text::lowered(asset.0@);
    lemma_lowered_twice(asset.0@);
    let compact = update::compact_name(name);
    reveal_strlit("codexplusplus");
    reveal_strlit("codexplus");
    reveal_strlit("installer");
    reveal_strlit("install");
    assert("codexplusplus"@.take(9) =~= "codexplus"@);
    assert("installer"@.take(7) =~= "install"@);
    if text::occurs(compact, "codexplusplus"@) {
        lemma_longer_occurs(compact, "codexplusplus"@, "codexplus"@);
    }
    if text::occurs(name, "installer"@) {
        lemma_longer_occurs(name, "installer"@, "install"@);
    }
}

/// The asset that is offered is one of those that were given, with its own address, and may be
/// offered; none that may be offered is preferred to it, and it is the first of those that it is
/// not preferred to. One is offered wherever one may be. So what is offered on a machine never
/// names the processors of another.
pub proof fn law_offered_installer_suits_the_machine(
    assets: &[(String, String)],
    platform: Platform,
    arch: Arch,
    r: Option<ReleaseAsset>,
)
    requires
        call_ensures(update::select_update_asset, (assets, platform, arch), r),
    ensures
        match r {
            Some(a) => exists|i: int|
                #![trigger assets@[i]]
                0 <= i < assets@.len() && a.name@ == assets@[i].0@ && a.browser_download_url@
                    == assets@[i].1@ && may_be_offered(assets@[i], platform, arch) && forall|j: int|
                    0 <= j < assets@.len() && may_be_offered(#[trigger] assets@[j], platform, arch)
                        ==> !is_preferred(assets@[j], assets@[i], platform) && (j < i
                        ==> is_preferred(assets@[i], assets@[j], platform)),
            None => forall|j: int|
                0 <= j < assets@.len() ==> !may_be_offered(#[trigger] assets@[j], platform, arch),
        },
        r is Some && arch == Arch::X86_64 ==> !says_arm(r->0.name@),
        r is Some && arch == Arch::Aarch64 ==> !says_intel(r->0.name@),
{
    let model = update::pair_texts(assets@);
    update::law_offer_is_best(model, platform, arch);
    assert forall|j: int| 0 <= j < assets@.len() implies #[trigger] may_be_offered(
        assets@[j],
        platform,
        arch,
    ) == (update::asset_rank(model[j], platform, arch) is Some) by {
        lemma_rank(assets@[j], platform, arch);
        assert(model[j] == (assets@[j].0@, assets@[j].1@));
    }
    match r {
        Some(a) => {
            assert(exists|i: int| update::is_choice(model, platform, arch, i));
            let i = choose|i: int| update::is_choice(model, platform, arch, i);
            assert(model[i] == (assets@[i].0@, assets@[i].1@));
            assert(update::asset_texts(r) == Some(model[i]));
            lemma_rank(assets@[i], platform, arch);
            assert forall|j: int|
                0 <= j < assets@.len() && may_be_offered(
                    #[trigger] assets@[j],
                    platform,
                    arch,
                ) implies !is_preferred(assets@[j], assets@[i], platform) && (j < i
                ==> is_preferred(assets@[i], assets@[j], platform)) by {
                lemma_rank(assets@[j], platform, arch);
                assert(model[j] == (assets@[j].0@, assets@[j].1@));
                assert(update::asset_rank(model[j], platform, arch) is Some);
            }
            assert(may_be_offered(assets@[i], platform, arch));
        },
        None => {
            assert forall|j: int| 0 <= j < assets@.len() implies !may_be_offered(
                #[trigger] assets@[j],
                platform,
                arch,
            ) by {
                assert(model[j] == (assets@[j].0@, assets@[j].1@));
                assert(update::asset_rank(model[j], platform, arch) is None);
            }
        },
    }
}

// ---------------------------------------------------------------------------------------
// Versions
// ---------------------------------------------------------------------------------------

/// The numerals of numbers.
pub open spec fn numerals(numbers: Seq<u64>) -> Seq<Seq<char>> {
    numbers.map_values(|n: u64| number::decimal(n as nat))
}

/// The tag of a version: its numbers with a dot between each two.
pub open spec fn tag_of(numbers: Seq<u64>) -> Seq<char> {
    text::joined(numerals(numbers), seq!['.'])
}

/// A tag holds digits and dots alone, begins and ends with a digit, and its pieces between the
/// dots are the numerals.
proof fn lemma_tag(numbers: Seq<u64>)
    requires
        numbers.len() > 0,
    ensures
        update::is_version_core(tag_of(numbers)),
        text::is_ascii_digit(tag_of(numbers)[0]),
        text::is_ascii_digit(tag_of(numbers).last()),
        text::pieces(tag_of(numbers), CharClass::Dot) == numerals(numbers),
        update::version_numbers(numerals(numbers)) == Ok::<Seq<u64>, VersionError>(numbers),
    decreases numbers.len(),
{
    let front = numbers.drop_last();
    let parts = numerals(numbers);
    let last = number::decimal(numbers.last() as nat);
    number::law_decimal_reads_back(numbers.last() as nat);
    assert(parts.last() == last);
    assert(parts.drop_last() =~= numerals(front));
    assert(text::is_ascii_digit(last[0]));
    assert(text::is_ascii_digit(last[last.len() - 1]));
    let tag = tag_of(numbers);
    if front.len() == 0 {
        assert(tag == last);
        assert forall|i: int| 0 <= i < last.len() implies !CharClass::Dot.has(#[trigger] last[i]) by {
            assert(text::is_ascii_digit(last[i]));
        }
        text::lemma_single_piece(last, CharClass::Dot);
        assert(text::pieces(tag, CharClass::Dot) =~= parts);
        assert(numerals(front) =~= Seq::<Seq<char>>::empty());
        assert(update::version_numbers(numerals(front)) == Ok::<Seq<u64>, VersionError>(
            Seq::empty(),
        ));
        assert(Seq::<u64>::empty().push(numbers.last()) =~= numbers);
    } else {
        lemma_tag(front);
        let before = tag_of(front);
        assert(tag =~= before.push('.') + last);
        assert forall|i: int| 0 <= i < last.len() implies !CharClass::Dot.has(#[trigger] last[i]) by {
            assert(text::is_ascii_digit(last[i]));
        }
        text::lemma_last_piece(before, '.', last, CharClass::Dot);
        assert(parts =~= numerals(front).push(last));
        assert(front.push(numbers.last()) =~= numbers);
        assert forall|i: int| 0 <= i < tag.len() implies text::is_ascii_digit(#[trigger] tag[i])
            || tag[i] == '.' by {
            if i < before.len() {
                assert(tag[i] == before[i]);
            } else if i > before.len() {
                assert(tag[i] == last[i - before.len() - 1]);
            }
        }
        assert(tag[0] == before[0]);
    }
}

/// The tag of a version is read as its numbers, with the letter `v` before it and white space
/// around it or without them.
pub proof fn law_version_tag_reads_back(numbers: Seq<u64>)
    requires
        numbers.len() > 0,
    ensures
        update::version_of(tag_of(numbers)) == Ok::<Seq<u64>, VersionError>(numbers),
        update::version_of(seq!['v'] + tag_of(numbers)) == Ok::<Seq<u64>, VersionError>(numbers),
        update::version_of(seq![' ', 'V'] + tag_of(numbers) + seq!['\n']) == Ok::<
            Seq<u64>,
            VersionError,
        >(numbers),
{
    let tag = tag_of(numbers);
    lemma_tag(numbers);
    assert forall|i: int| 0 <= i < tag.len() implies (#[trigger] tag[i]) != '-' && tag[i] != '+' by {
        assert(text::is_ascii_digit(tag[i]) || tag[i] == '.');
    }
    update::lemma_whole_core(tag);
    assert(tag.take(tag.len() as int) =~= tag);
    assert(text::is_bare(tag));
    text::lemma_bare(tag);
    let marked = seq!['v'] + tag;
    assert(marked.last() == tag.last());
    assert(text::is_bare(marked));
    text::lemma_bare(marked);
    assert(marked.skip(1) =~= tag);
    let spaced = seq![' ', 'V'] + tag + seq!['\n'];
    let inner = seq!['V'] + tag;
    assert(inner.last() == tag.last());
    assert(spaced.skip(1) =~= inner.push('\n'));
    assert(inner.push('\n')[0] == 'V');
    assert(text::trimmed_start(inner.push('\n'), CharClass::Whitespace) == inner.push('\n'));
    assert(text::trimmed_start(spaced, CharClass::Whitespace) == inner.push('\n'));
    assert(inner.push('\n').drop_last() =~= inner);
    assert(text::trimmed_end(inner, CharClass::Whitespace) == inner);
    assert(inner.skip(1) =~= tag);
}

/// The first number in which two versions differ decides which is newer, and of two versions
/// neither of which is newer, all numbers are the same, a missing one being zero.
pub proof fn law_first_difference_decides(
    same: Seq<u64>,
    a: u64,
    rest: Seq<u64>,
    b: u64,
    other: Seq<u64>,
    i: int,
)
    requires
        a > b,
        0 <= i,
    ensures
        update::is_newer(same.push(a) + rest, same.push(b) + other),
        !update::is_newer(same.push(b) + other, same.push(a) + rest),
        !update::is_newer(rest, other) && !update::is_newer(other, rest) ==> update::number_at(
            rest,
            i,
        ) == update::number_at(other, i),
{
    let x = same.push(a) + rest;
    let y = same.push(b) + other;
    let n = same.len() as int;
    assert(update::number_at(x, n) == a && update::number_at(y, n) == b);
    assert forall|j: int| 0 <= j < n implies update::number_at(x, j) == update::number_at(y, j) by {
        assert(x[j] == same[j] && y[j] == same[j]);
    }
    assert(update::larger_at(x, y, n));
    update::law_newer_is_asymmetric(x, y);
    if !update::is_newer(rest, other) && !update::is_newer(other, rest) {
        lemma_no_difference(rest, other, i);
    }
}

proof fn lemma_no_difference(a: Seq<u64>, b: Seq<u64>, i: int)
    requires
        !update::is_newer(a, b),
        !update::is_newer(b, a),
        0 <= i,
    ensures
        update::number_at(a, i) == update::number_at(b, i),
    decreases i,
{
    assert forall|j: int| 0 <= j < i implies update::number_at(a, j) == update::number_at(b, j) by {
        lemma_no_difference(a, b, j);
    }
    assert(!update::larger_at(a, b, i));
    assert(!update::larger_at(b, a, i));
}

/// A number of a version is the one in its place, and zero where the version has none there.
pub proof fn law_missing_numbers_are_zero(version: Seq<u64>, i: int)
    ensures
        0 <= i < version.len() ==> update::number_at(version, i) == version[i],
        i >= version.len() ==> update::number_at(version, i) == 0,
{
}

/// Only a release that is newer than what is installed is installed, and from its own address.
pub proof fn law_only_newer_releases_are_installed(
    release: Release,
    installed: &str,
    r: Result<String, InstallError>,
)
    requires
        call_ensures(update::update_source, (&release, installed), r),
    ensures
        r is Ok ==> ({
            &&& update::version_of(release.version@) is Ok
            &&& update::version_of(installed@) is Ok
            &&& update::is_newer(
                update::version_of(release.version@)->Ok_0,
                update::version_of(installed@)->Ok_0,
            )
            &&& release.asset_url is Some
            &&& release.asset_url->0@ == r->Ok_0@
        }),
        r is Err && update::version_of(release.version@) is Ok && update::version_of(installed@) is Ok
            && update::is_newer(
            update::version_of(release.version@)->Ok_0,
            update::version_of(installed@)->Ok_0,
        ) ==> release.asset_url is None,
{
}

// ---------------------------------------------------------------------------------------
// Releases
// ---------------------------------------------------------------------------------------

/// Whether an item of a list of assets says this name and this address, the address at the first
/// of two keys that is there.
pub open spec fn says_asset(
    item: JsonModel,
    name: Seq<char>,
    url: Seq<char>,
    key: Seq<char>,
    other: Seq<char>,
) -> bool {
    &&& item.text_at("name"@) == Some(name)
    &&& item.get(key) is Some ==> item.text_at(key) == Some(url)
    &&& item.get(key) is None ==> item.text_at(other) == Some(url)
}

/// Every described asset stands in the list, with the name and the address of one item, and every
/// item that has both is described.
proof fn lemma_described(items: Seq<JsonModel>, github: bool)
    ensures
        forall|k: int|
            0 <= k < update::described_assets(items, github).len() ==> exists|i: int|
                #![trigger items[i]]
                0 <= i < items.len() && ({
                    let a = #[trigger] update::described_assets(items, github)[k];
                    if github {
                        items[i].text_at("name"@) == Some(a.0) && items[i].text_at(
                            "browser_download_url"@,
                        ) == Some(a.1)
                    } else {
                        says_asset(items[i], a.0, a.1, "url"@, "browser_download_url"@)
                    }
                }),
    decreases items.len(),
{
    if items.len() > 0 {
        let front = items.drop_last();
        lemma_described(front, github);
        let before = update::described_assets(front, github);
        let all = update::described_assets(items, github);
        assert forall|k: int| 0 <= k < all.len() implies exists|i: int|
            #![trigger items[i]]
            0 <= i < items.len() && ({
                let a = #[trigger] all[k];
                if github {
                    items[i].text_at("name"@) == Some(a.0) && items[i].text_at(
                        "browser_download_url"@,
                    ) == Some(a.1)
                } else {
                    says_asset(items[i], a.0, a.1, "url"@, "browser_download_url"@)
                }
            }) by {
            if k < before.len() {
                let a = before[k];
                assert(all[k] == a);
                let i = choose|i: int|
                    #![trigger front[i]]
                    0 <= i < front.len() && (if github {
                        front[i].text_at("name"@) == Some(a.0) && front[i].text_at(
                            "browser_download_url"@,
                        ) == Some(a.1)
                    } else {
                        says_asset(front[i], a.0, a.1, "url"@, "browser_download_url"@)
                    });
                assert(items[i] == front[i]);
            } else {
                assert(items[items.len() - 1] == items.last());
            }
        }
    }
}

/// The assets of two lists are those of one after those of the other, and an item gives one asset
/// where it has a name and an address that are texts, and none else.
pub proof fn law_assets_are_read_in_order(
    a: Seq<JsonModel>,
    b: Seq<JsonModel>,
    item: JsonModel,
    github: bool,
)
    ensures
        update::described_assets(a + b, github) == update::described_assets(a, github)
            + update::described_assets(b, github),
        ({
            let url = if github || item.get("url"@) is None {
                item.text_at("browser_download_url"@)
            } else {
                item.text_at("url"@)
            };
            update::described_assets(seq![item], github) == (if item.text_at("name"@) is Some && url
                is Some {
                seq![(item.text_at("name"@)->0, url->0)]
            } else {
                Seq::empty()
            })
        }),
    decreases b.len(),
{
    assert(seq![item].drop_last() =~= Seq::<JsonModel>::empty());
    assert(update::described_assets(seq![item].drop_last(), github) =~= Seq::empty());
    assert(seq![item].last() == item);
    let one = update::described_assets(seq![item], github);
    if one.len() > 0 {
        assert(one =~= seq![one[0]]);
    }
    if b.len() > 0 {
        assert((a + b).drop_last() =~= a + b.drop_last());
        law_assets_are_read_in_order(a, b.drop_last(), item, github);
        assert(update::described_assets(a + b, github) =~= update::described_assets(a, github)
            + update::described_assets(b, github));
    } else {
        assert(a + b =~= a);
        assert(update::described_assets(a, github) + update::described_assets(b, github)
            =~= update::described_assets(a, github));
    }
}

proof fn lemma_chosen_is_described(
    assets: Seq<(Seq<char>, Seq<char>)>,
    platform: Platform,
    arch: Arch,
)
    ensures
        update::chosen_asset(assets, platform, arch) matches Some(a) ==> exists|k: int|
            0 <= k < assets.len() && #[trigger] assets[k] == a,
{
    update::law_offer_is_best(assets, platform, arch);
}

/// A release that GitHub describes is taken where it is neither a draft nor a preview and has a
/// tag, which is its version; its address and its notes are those that it has; and the name and
/// the address of the installer are those of one and the same asset in its list.
pub proof fn law_github_release_is_taken_as_described(
    payload: Json,
    platform: Platform,
    arch: Arch,
    r: Result<Release, ReleaseError>,
)
    requires
        call_ensures(update::release_from_github_payload, (&payload, platform, arch), r),
    ensures
        r is Ok <==> payload@.get("draft"@) != Some(JsonModel::Bool(true)) && payload@.get(
            "prerelease"@,
        ) != Some(JsonModel::Bool(true)) && payload@.text_at("tag_name"@) is Some,
        match r {
            Ok(release) => {
                let items = payload@.items_at("assets"@);
                &&& Some(release.version@) == payload@.text_at("tag_name"@)
                &&& payload@.text_at("html_url"@) is Some ==> release.url@ == payload@.text_at(
                    "html_url"@,
                )->0
                &&& payload@.text_at("html_url"@) is None ==> release.url@.len() == 0
                &&& payload@.text_at("body"@) is Some ==> release.body@ == update::summary_of(
                    payload@.text_at("body"@)->0,
                )
                &&& release.asset_name is Some == release.asset_url is Some
                &&& release.asset_name is Some ==> exists|i: int|
                    0 <= i < items.len() && (#[trigger] items[i]).text_at("name"@) == Some(
                        release.asset_name->0@,
                    ) && items[i].text_at("browser_download_url"@) == Some(
                        release.asset_url->0@,
                    )
            },
            Err(ReleaseError::Draft) => payload@.get("draft"@) == Some(JsonModel::Bool(true)),
            Err(ReleaseError::Prerelease) => payload@.get("prerelease"@) == Some(
                JsonModel::Bool(true),
            ),
            Err(ReleaseError::MissingTagName) => payload@.text_at("tag_name"@) is None,
            Err(_) => false,
        },
{
    let items = payload@.items_at("assets"@);
    let described = update::described_assets(items, true);
    lemma_described(items, true);
    lemma_chosen_is_described(described, platform, arch);
    if let Ok(release) = r {
        if release.asset_name is Some {
            let a = update::chosen_asset(described, platform, arch)->0;
            let k = choose|k: int| 0 <= k < described.len() && #[trigger] described[k] == a;
            assert(described[k] == a);
        }
    }
}

/// A release of the list is taken where it has a version, or else a tag; and so for its address
/// and its notes, each at the first of its keys that is there. The name and the address of the
/// installer are those of one and the same asset.
pub proof fn law_listed_release_is_taken_as_described(
    payload: Json,
    platform: Platform,
    arch: Arch,
    r: Result<Release, ReleaseError>,
)
    requires
        call_ensures(update::release_from_latest_json_payload, (&payload, platform, arch), r),
    ensures
        ({
            let p = payload@;
            let version = if p.get("version"@) is Some {
                p.text_at("version"@)
            } else {
                p.text_at("tag_name"@)
            };
            let url = if p.get("url"@) is Some {
                p.text_at("url"@)
            } else {
                p.text_at("html_url"@)
            };
            let body = if p.get("body"@) is Some {
                p.text_at("body"@)
            } else if p.get("release_summary"@) is Some {
                p.text_at("release_summary"@)
            } else {
                p.text_at("notes"@)
            };
            let items = p.items_at("assets"@);
            match r {
                Ok(release) => {
                    &&& version == Some(release.version@)
                    &&& url is Some ==> release.url@ == url->0
                    &&& url is None ==> release.url@.len() == 0
                    &&& body is Some ==> release.body@ == body->0
                    &&& body is None ==> release.body@.len() == 0
                    &&& release.asset_name is Some == release.asset_url is Some
                    &&& release.asset_name is Some ==> exists|i: int|
                        0 <= i < items.len() && says_asset(
                            #[trigger] items[i],
                            release.asset_name->0@,
                            release.asset_url->0@,
                            "url"@,
                            "browser_download_url"@,
                        )
                },
                Err(_) => version is None,
            }
        }),
{
    let items = payload@.items_at("assets"@);
    let described = update::described_assets(items, false);
    lemma_described(items, false);
    lemma_chosen_is_described(described, platform, arch);
    if let Ok(release) = r {
        if release.asset_name is Some {
            let a = update::chosen_asset(described, platform, arch)->0;
            let k = choose|k: int| 0 <= k < described.len() && #[trigger] described[k] == a;
            assert(described[k] == a);
        }
    }
}

/// A plain file name is the name under which the asset is stored: one that is not blank, holds no
/// separator, is neither `.` nor `..`, and on Windows does not begin with a drive. A slash is a
/// separator everywhere, a backslash on Windows.
pub proof fn law_plain_names_are_kept(name: Seq<char>, platform: Platform)
    requires
        text::trimmed(name).len() > 0,
        name != seq!['.'],
        name != seq!['.', '.'],
        platform == Platform::Windows ==> !(name.len() >= 2 && name[1] == ':' && (('a' <= name[0]
            <= 'z') || ('A' <= name[0] <= 'Z'))),
        forall|i: int|
            0 <= i < name.len() ==> (#[trigger] name[i]) != '/' && (platform == Platform::Windows
                ==> name[i] != '\\'),
    ensures
        update::safe_name(name, platform) == Some(name),
{
    let class = file_name::separators(platform);
    if name.len() == 0 {
        assert(text::trimmed(name).len() == 0);
    }
    text::lemma_single_piece(name, class);
}

/// No name under which an asset is stored leads out of the directory: it holds no slash, and on
/// Windows no backslash, and is neither `.` nor `..`.
pub proof fn law_stored_names_hold_no_separator(name: Seq<char>, platform: Platform)
    ensures
        update::safe_name(name, platform) matches Some(file) ==> {
            &&& file.len() > 0
            &&& file != seq!['.']
            &&& file != seq!['.', '.']
            &&& forall|i: int|
                0 <= i < file.len() ==> (#[trigger] file[i]) != '/' && (platform
                    == Platform::Windows ==> file[i] != '\\')
        },
{
    if update::safe_name(name, platform) is Some {
        update::law_asset_stays_in_directory(name, platform);
        let file = update::safe_name(name, platform)->0;
        assert forall|i: int| 0 <= i < file.len() implies (#[trigger] file[i]) != '/' && (platform
            == Platform::Windows ==> file[i] != '\\') by {
            assert(!file_name::separators(platform).has(file[i]));
        }
    }
}

proof fn lemma_version_numbers(parts: Seq<Seq<char>>)
    ensures
        update::version_numbers(parts) matches Ok(numbers) ==> numbers.len() == parts.len()
            && forall|i: int|
            0 <= i < parts.len() ==> (#[trigger] parts[i]).len() > 0 && number::digits_value(parts[i])
                == numbers[i],
    decreases parts.len(),
{
    if parts.len() > 0 {
        let front = parts.drop_last();
        lemma_version_numbers(front);
        if let Ok(numbers) = update::version_numbers(parts) {
            let before = update::version_numbers(front)->Ok_0;
            assert forall|i: int| 0 <= i < parts.len() implies (#[trigger] parts[i]).len() > 0
                && number::digits_value(parts[i]) == numbers[i] by {
                if i < front.len() {
                    assert(front[i] == parts[i]);
                    assert(numbers[i] == before[i]);
                }
            }
        }
    }
}

proof fn lemma_core_ends(s: Seq<char>)
    ensures
        update::core_length(s) < s.len() ==> s[update::core_length(s)] == '-'
            || s[update::core_length(s)] == '+',
        0 <= update::core_length(s) <= s.len(),
    decreases s.len(),
{
    if s.len() > 0 && s[0] != '-' && s[0] != '+' {
        lemma_core_ends(s.skip(1));
        let n = update::core_length(s.skip(1));
        if n < s.skip(1).len() {
            assert(s.skip(1)[n] == s[n + 1]);
        }
    }
}

/// Only what has the form of a version is read as one: apart from white space around it and the
/// letter `v` before it, a tag is digits and dots, beginning and ending with a digit, and then
/// nothing, or a `-` or `+` and no white space. The numbers are those that stand between the
/// dots.
pub proof fn law_only_versions_are_read(tag: Seq<char>)
    requires
        update::version_of(tag) is Ok,
    ensures
        ({
            let bare = text::trimmed_start(text::trimmed(tag), CharClass::VersionMark);
            let numbers = update::version_of(tag)->Ok_0;
            exists|n: int|
                0 < n <= bare.len() && ({
                    let core = #[trigger] bare.take(n);
                    let parts = text::pieces(core, CharClass::Dot);
                    &&& '0' <= bare[0] <= '9'
                    &&& '0' <= bare[n - 1] <= '9'
                    &&& forall|i: int|
                        0 <= i < n ==> ('0' <= #[trigger] bare[i] <= '9') || bare[i] == '.'
                    &&& n < bare.len() ==> bare[n] == '-' || bare[n] == '+'
                    &&& forall|i: int| n <= i < bare.len() ==> !text::is_space(#[trigger] bare[i])
                    &&& numbers.len() == parts.len()
                    &&& forall|i: int|
                        0 <= i < parts.len() ==> (#[trigger] parts[i]).len() > 0
                            && number::digits_value(parts[i]) == numbers[i]
                })
        }),
{
    let bare = text::trimmed_start(text::trimmed(tag), CharClass::VersionMark);
    let n = update::core_length(bare);
    lemma_core_ends(bare);
    let core = bare.take(n);
    lemma_version_numbers(text::pieces(core, CharClass::Dot));
    assert forall|i: int| 0 <= i < n implies ('0' <= #[trigger] bare[i] <= '9') || bare[i]
        == '.' by {
        assert(core[i] == bare[i]);
    }
    assert(core[0] == bare[0] && core[n - 1] == bare[n - 1]);
    assert forall|i: int| n <= i < bare.len() implies !text::is_space(#[trigger] bare[i]) by {
        assert(bare.skip(n)[i - n] == bare[i]);
    }
}

// ---------------------------------------------------------------------------------------
// Release notes
// ---------------------------------------------------------------------------------------

proof fn lemma_unified_solid(s: Seq<char>)
    ensures
        memory_text::solid(text::unified_newlines(s)) == memory_text::solid(s),
    decreases s.len(),
{
    if s.len() > 0 {
        let n: int = if s[0] == '\r' && s.len() > 1 && s[1] == '\n' {
            2
        } else {
            1
        };
        lemma_unified_solid(s.skip(n));
        let front = s.take(n);
        let unified = if s[0] == '\r' {
            seq!['\n']
        } else {
            seq![s[0]]
        };
        memory_text::lemma_solid_add(front, s.skip(n));
        assert(front + s.skip(n) =~= s);
        memory_text::lemma_solid_add(unified, text::unified_newlines(s.skip(n)));
        if s[0] == '\r' {
            memory_text::lemma_solid_space(front);
            memory_text::lemma_solid_space(unified);
        } else {
            assert(front =~= unified);
        }
    }
}

proof fn lemma_pieces_solid(s: Seq<char>)
    ensures
        memory_text::solid_all(text::pieces(s, CharClass::Newline)) == memory_text::solid(s),
    decreases s.len(),
{
    if s.len() == 0 {
        memory_text::lemma_solid_all_one(Seq::<char>::empty());
        assert(s =~= Seq::<char>::empty());
    } else {
        let front = s.drop_last();
        let last = s.last();
        lemma_pieces_solid(front);
        text::lemma_pieces_nonempty(front, CharClass::Newline);
        let before = text::pieces(front, CharClass::Newline);
        memory_text::lemma_solid_add(front, seq![last]);
        assert(front + seq![last] =~= s);
        if last == '\n' {
            memory_text::lemma_solid_space(seq![last]);
            memory_text::lemma_solid_space(Seq::<char>::empty());
            assert(before.push(Seq::<char>::empty()).drop_last() =~= before);
            assert(memory_text::solid_all(text::pieces(s, CharClass::Newline))
                =~= memory_text::solid(s));
        } else {
            let grown = before.last().push(last);
            let changed = before.drop_last().push(grown);
            assert(changed.drop_last() =~= before.drop_last());
            memory_text::lemma_solid_add(before.last(), seq![last]);
            assert(before.last() + seq![last] =~= grown);
            assert(memory_text::solid_all(changed) =~= memory_text::solid(s));
        }
    }
}

proof fn lemma_lines_solid(s: Seq<char>)
    ensures
        memory_text::solid_all(text::lines(s)) == memory_text::solid(s),
{
    lemma_pieces_solid(s);
    text::lemma_pieces_nonempty(s, CharClass::Newline);
    let parts = text::pieces(s, CharClass::Newline);
    if parts.last().len() == 0 {
        memory_text::lemma_solid_space(parts.last());
        assert(memory_text::solid_all(parts) =~= memory_text::solid_all(parts.drop_last()));
    }
}

proof fn lemma_kept_solid(lines: Seq<Seq<char>>)
    ensures
        memory_text::solid_all(update::kept_lines(lines)) == memory_text::solid_all(lines),
    decreases lines.len(),
{
    if lines.len() > 0 {
        let front = lines.drop_last();
        lemma_kept_solid(front);
        let before = update::kept_lines(front);
        let line = text::trimmed(lines.last());
        memory_text::lemma_trimmed_solid(lines.last());
        assert(before.push(line).drop_last() =~= before);
        assert(memory_text::solid_all(update::kept_lines(lines)) =~= memory_text::solid_all(lines));
    }
}

proof fn lemma_joined_solid(parts: Seq<Seq<char>>)
    ensures
        memory_text::solid(text::joined(parts, seq!['\n'])) == memory_text::solid_all(parts),
    decreases parts.len(),
{
    if parts.len() == 0 {
        memory_text::lemma_solid_space(Seq::<char>::empty());
    } else if parts.len() == 1 {
        memory_text::lemma_solid_all_one(parts[0]);
        assert(parts =~= seq![parts[0]]);
    } else {
        let front = parts.drop_last();
        lemma_joined_solid(front);
        let before = text::joined(front, seq!['\n']);
        memory_text::lemma_solid_add(before, seq!['\n']);
        memory_text::lemma_solid_add(before + seq!['\n'], parts.last());
        memory_text::lemma_solid_space(seq!['\n']);
        assert(memory_text::solid(text::joined(parts, seq!['\n'])) =~= memory_text::solid_all(parts));
    }
}

/// The lines of release notes, trimmed, one line feed between each two, without blank lines at
/// the start and with one in place of several.
pub open spec fn tidy_notes(body: Seq<char>) -> Seq<char> {
    text::joined(
        update::kept_lines(text::lines(text::unified_newlines(body))),
        seq!['\n'],
    )
}

/// Release notes of up to twelve lines and fewer than 1200 characters are shown in full: nothing
/// but white space is lost of them, and nothing is added. Of longer notes the first twelve lines
/// are shown, as far as 1200 characters, and behind them the note that they were cut. The lines
/// that are counted are those of the notes, but for white space.
pub proof fn law_short_notes_are_shown_in_full(body: Seq<char>)
    ensures
        memory_text::solid(tidy_notes(body)) == memory_text::solid(body),
        ({
            let lines = update::kept_lines(text::lines(text::unified_newlines(body)));
            let shown = update::summary_of(body);
            if lines.len() <= 12 && tidy_notes(body).len() < 1200 {
                memory_text::solid(shown) == memory_text::solid(body)
            } else if lines.len() > 12 || tidy_notes(body).len() > 1200 {
                exists|part: Seq<char>|
                    #![trigger memory_text::solid(part)]
                    part.len() <= 1200 && shown == part + "\n\n[Release notes truncated]"@
                        && memory_text::solid(part).is_prefix_of(memory_text::solid(body)) && (
                    lines.len() <= 12 ==> memory_text::solid(part) == memory_text::solid(
                        tidy_notes(body).take(1200),
                    )) && (lines.len() > 12 && text::joined(lines.take(12), seq!['\n']).len()
                        <= 1200 ==> memory_text::solid(part) == memory_text::solid_all(
                        lines.take(12),
                    ))
            } else {
                true
            }
        }),
{
    let unified = text::unified_newlines(body);
    let lines = text::lines(unified);
    let kept = update::kept_lines(lines);
    lemma_unified_solid(body);
    lemma_lines_solid(unified);
    lemma_kept_solid(lines);
    lemma_joined_solid(kept);
    let whole = text::joined(kept, seq!['\n']);
    let notes = update::shown_notes(kept);
    let n = notes.len() as int;
    if kept.len() <= 12 {
        assert(notes == whole);
    } else {
        text::lemma_joined_prefix(kept, seq!['\n'], 12);
    }
    assert(notes == whole.take(n)) by {
        if kept.len() <= 12 {
            assert(whole.take(n) =~= whole);
        }
    }
    let clipped = text::clipped(notes, 1200);
    let m = clipped.len() as int;
    assert(clipped =~= whole.take(m));
    memory_text::lemma_trimmed_end_solid(clipped);
    memory_text::lemma_solid_add(whole.take(m), whole.skip(m));
    assert(whole.take(m) + whole.skip(m) =~= whole);
    let part = text::trimmed_end(clipped, CharClass::Whitespace);
    text::lemma_trimmed_end(clipped, CharClass::Whitespace);
    assert(memory_text::solid(part).is_prefix_of(memory_text::solid(body)));
    if kept.len() <= 12 && whole.len() < 1200 {
        assert(clipped =~= whole);
        assert(!update::notes_exceed(kept));
    }
    if kept.len() > 12 {
        lemma_joined_solid(kept.take(12));
        assert(notes.len() <= 1200 ==> clipped =~= notes);
    } else if whole.len() > 1200 {
        assert(clipped =~= whole.take(1200));
    }
}

/// The lines of release notes that are kept are trimmed; the first is not blank, and no two blank
/// ones follow each other.
pub proof fn law_kept_lines_are_tidy(lines: Seq<Seq<char>>)
    ensures
        ({
            let kept = update::kept_lines(lines);
            &&& kept.len() > 0 ==> kept[0].len() > 0
            &&& forall|i: int|
                0 <= i < kept.len() ==> (#[trigger] kept[i]).len() == 0 || text::is_bare(kept[i])
            &&& forall|i: int|
                0 < i < kept.len() ==> (#[trigger] kept[i]).len() > 0 || kept[i - 1].len() > 0
        }),
    decreases lines.len(),
{
    if lines.len() > 0 {
        let front = lines.drop_last();
        law_kept_lines_are_tidy(front);
        text::lemma_bare(lines.last());
        let before = update::kept_lines(front);
        let kept = update::kept_lines(lines);
        assert forall|i: int| 0 <= i < kept.len() implies (#[trigger] kept[i]).len() == 0
            || text::is_bare(kept[i]) by {
            if i < before.len() {
                assert(kept[i] == before[i]);
            }
        }
        assert forall|i: int| 0 < i < kept.len() implies (#[trigger] kept[i]).len() > 0 || kept[i
            - 1].len() > 0 by {
            if i < before.len() {
                assert(kept[i] == before[i] && kept[i - 1] == before[i - 1]);
            } else {
                assert(kept[i - 1] == before[before.len() - 1]);
            }
        }
    }
}

// ---------------------------------------------------------------------------------------
// Reports
// ---------------------------------------------------------------------------------------

/// What is reported of a release is what it says, and an update is there where its version is
/// newer than the one that runs. Where one of the two versions cannot be read, that is the error.
pub proof fn law_release_is_reported_as_it_is(
    release: Release,
    current: &str,
    r: Result<update::UpdateCheck, VersionError>,
)
    requires
        call_ensures(update::update_check, (release, current), r),
    ensures
        ({
            let offered = update::version_of(release.version@);
            let running = update::version_of(current@);
            if offered is Err {
                r is Err && r->Err_0 == offered->Err_0
            } else if running is Err {
                r is Err && r->Err_0 == running->Err_0
            } else {
                &&& r is Ok
                &&& r->Ok_0.update_available <==> update::is_newer(offered->Ok_0, running->Ok_0)
                &&& r->Ok_0.current_version@ == current@
                &&& r->Ok_0.latest_version is Some
                &&& r->Ok_0.latest_version->0@ == release.version@
                &&& r->Ok_0.release_summary@ == release.body@
                &&& r->Ok_0.asset_name == release.asset_name
                &&& r->Ok_0.asset_url == release.asset_url
            }
        }),
{
}

/// Why a release is not installed: a version that cannot be read comes first, then that the
/// release is not newer, then that it has no installer.
pub proof fn law_release_is_refused_for_the_first_reason(
    release: Release,
    installed: &str,
    r: Result<String, InstallError>,
)
    requires
        call_ensures(update::update_source, (&release, installed), r),
    ensures
        ({
            let offered = update::version_of(release.version@);
            let running = update::version_of(installed@);
            if offered is Err {
                r == Err::<String, InstallError>(InstallError::Version(offered->Err_0))
            } else if running is Err {
                r == Err::<String, InstallError>(InstallError::Version(running->Err_0))
            } else if !update::is_newer(offered->Ok_0, running->Ok_0) {
                r == Err::<String, InstallError>(InstallError::NotNewer)
            } else if release.asset_url is None {
                r == Err::<String, InstallError>(InstallError::NoAsset)
            } else {
                r is Ok && r->Ok_0@ == release.asset_url->0@
            }
        }),
{
}

/// An installer is stored under its own name, where that is a plain one; where there is no
/// installer, or its name is blank, none is stored.
pub proof fn law_installer_is_stored_under_its_name(
    release: Release,
    platform: Platform,
    r: Result<String, InstallError>,
)
    requires
        call_ensures(update::download_name, (&release, platform), r),
    ensures
        release.asset_name is None ==> r == Err::<String, InstallError>(InstallError::NoAsset),
        release.asset_name is Some && text::is_blank(release.asset_name->0@) ==> r == Err::<
            String,
            InstallError,
        >(InstallError::IllegalName),
        release.asset_name is Some && !text::is_blank(release.asset_name->0@) ==> (match
            file_name::sole_component(release.asset_name->0@, platform) {
            Some(name) => r is Ok && r->Ok_0@ == name,
            None => r == Err::<String, InstallError>(InstallError::IllegalName),
        }),
{
}

/// The words for versions that cannot be compared name the first that cannot be read.
pub proof fn law_unreadable_version_is_named(
    error: VersionError,
    candidate: &str,
    current: &str,
    r: String,
)
    requires
        call_ensures(update::comparison_error_message, (error, candidate, current), r),
    ensures
        error == VersionError::InvalidTag && update::version_of(candidate@) is Err ==> r@
            == "Invalid version tag: "@ + candidate@,
        error == VersionError::InvalidTag && update::version_of(candidate@) is Ok ==> r@
            == "Invalid version tag: "@ + current@,
        error == VersionError::EmptyNumber ==> r@ == "cannot parse integer from empty string"@,
        error == VersionError::LargeNumber ==> r@ == "number too large to fit in target type"@,
{
}

/// The words for a release that is not installed name its version and the one that is installed,
/// or the name of its installer.
pub proof fn law_refused_release_is_named(
    error: InstallError,
    release: Release,
    installed: &str,
    r: String,
)
    requires
        call_ensures(update::install_error_message, (error, &release, installed), r),
    ensures
        error is NotNewer ==> r@ == "Release "@ + release.version@
            + " is not newer than the installed version "@ + installed@,
        error is NoAsset ==> r@ == "没有可下载的 Release asset"@,
        error is IllegalName && release.asset_name is Some ==> r@
            == "非法 Release asset 文件名: "@ + release.asset_name->0@,
        error == InstallError::Version(VersionError::InvalidTag) && update::version_of(
            release.version@,
        ) is Err ==> r@ == "Invalid version tag: "@ + release.version@,
{
}

/// An installer is run on Windows and opened on macOS, and elsewhere not started; what is said
/// where that fails gives the reason.
pub proof fn law_installers_are_started_by_the_system(
    platform: Platform,
    launch: update::InstallerLaunch,
    reason: &str,
    r: String,
)
    requires
        call_ensures(update::installer_launch, (platform,), launch),
        call_ensures(update::launch_error_message, (launch, reason), r),
    ensures
        platform == Platform::Windows ==> launch is Run && r@ == "启动安装包失败："@ + reason@,
        platform == Platform::MacOs ==> launch is Open && r@ == "打开 DMG 失败："@ + reason@,
        platform == Platform::Other ==> launch is Unsupported && r@
            == "当前平台不支持启动安装包"@,
{
}

} // verus!
