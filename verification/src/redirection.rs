use vstd::prelude::*;

use vstd::string::StringSliceAdditionalSpecFns;

use crate::opts::{self, UrlSet};
use crate::unreal::{text_of, FString};
use crate::url::{ParsedUrl, UrlModel};

verus! {

/// Hosts whose requests are sent to the backend in `UrlSet::Default` mode.
pub open spec fn spec_redirected_domains() -> Seq<&'static str> {
    seq![
        "ol.epicgames.com",
        "ol.epicgames.net",
        "on.epicgames.com",
        "game-social.epicgames.com",
        "ak.epicgames.com",
        "epicgames.dev",
        "superawesome.com",
    ]
}

/// Path prefixes sent to the backend in `UrlSet::Hybrid` mode.
pub open spec fn spec_redirected_paths() -> Seq<&'static str> {
    seq![
        "/fortnite/api/v2/versioncheck/",
        "/fortnite/api/game/v2/profile/",
        "/content/api/pages/",
    ]
}

/// Path prefixes sent to the backend in `UrlSet::Dev` mode.
pub open spec fn spec_redirected_paths_dev() -> Seq<&'static str> {
    seq!["/fortnite/api/game/v2/profile/", "/content/api/pages/"]
}

fn redirected_domains() -> (r: Vec<&'static str>)
    ensures
        r@ == spec_redirected_domains(),
{
    let mut r: Vec<&'static str> = Vec::new();
    r.push("ol.epicgames.com");
    r.push("ol.epicgames.net");
    r.push("on.epicgames.com");
    r.push("game-social.epicgames.com");
    r.push("ak.epicgames.com");
    r.push("epicgames.dev");
    r.push("superawesome.com");
    assert(r@ =~= spec_redirected_domains());
    r
}

fn redirected_paths() -> (r: Vec<&'static str>)
    ensures
        r@ == spec_redirected_paths(),
{
    let mut r: Vec<&'static str> = Vec::new();
    r.push("/fortnite/api/v2/versioncheck/");
    r.push("/fortnite/api/game/v2/profile/");
    r.push("/content/api/pages/");
    assert(r@ =~= spec_redirected_paths());
    r
}

fn redirected_paths_dev() -> (r: Vec<&'static str>)
    ensures
        r@ == spec_redirected_paths_dev(),
{
    let mut r: Vec<&'static str> = Vec::new();
    r.push("/fortnite/api/game/v2/profile/");
    r.push("/content/api/pages/");
    assert(r@ =~= spec_redirected_paths_dev());
    r
}

/// The text of a string (at least one character) ends with the bytes of `suffix`.
pub open spec fn text_ends_with(m: Option<Seq<u16>>, suffix: Seq<u8>) -> bool {
    let t = text_of(m);
    &&& m is Some
    &&& t.len() >= 1
    &&& suffix.len() <= t.len()
    &&& t.skip(t.len() - suffix.len()) == widen(suffix)
}

/// Bytes as UTF-16 units (the identity on ASCII).
pub open spec fn widen(s: Seq<u8>) -> Seq<u16> {
    s.map_values(|b: u8| b as u16)
}

/// The text of a string (at least one character) starts with the bytes of `prefix`.
pub open spec fn text_starts_with(m: Option<Seq<u16>>, prefix: Seq<u8>) -> bool {
    let t = text_of(m);
    &&& m is Some
    &&& t.len() >= 1
    &&& prefix.len() <= t.len()
    &&& t.take(prefix.len() as int) == widen(prefix)
}

/// Whether a request with these URL pieces is sent to the backend in mode `set`.
pub open spec fn spec_should_redirect(set: UrlSet, m: UrlModel) -> bool {
    match set {
        UrlSet::Default => exists|i: int|
            0 <= i < spec_redirected_domains().len() && text_ends_with(
                m.domain,
                #[trigger] spec_redirected_domains()[i].spec_bytes(),
            ),
        UrlSet::Hybrid => exists|i: int|
            0 <= i < spec_redirected_paths().len() && text_starts_with(
                m.path,
                #[trigger] spec_redirected_paths()[i].spec_bytes(),
            ),
        UrlSet::Dev => exists|i: int|
            0 <= i < spec_redirected_paths_dev().len() && text_starts_with(
                m.path,
                #[trigger] spec_redirected_paths_dev()[i].spec_bytes(),
            ),
        UrlSet::All => true,
    }
}

/// Whether the configured mode sends this request to the backend.
pub fn should_redirect(url: &ParsedUrl) -> (r: bool)
    requires
        url.wf(),
    ensures
        r == spec_should_redirect(opts::URL_SET, url@),
{
    redirect_in_mode(opts::URL_SET, url)
}

/// Whether mode `set` sends this request to the backend.
pub fn redirect_in_mode(set: UrlSet, url: &ParsedUrl) -> (r: bool)
    requires
        url.wf(),
    ensures
        r == spec_should_redirect(set, url@),
{
    match set {
        UrlSet::Default => any_suffix(&url.domain, &redirected_domains()),
        UrlSet::Hybrid => any_prefix(&url.path, &redirected_paths()),
        UrlSet::Dev => any_prefix(&url.path, &redirected_paths_dev()),
        UrlSet::All => true,
    }
}

fn any_suffix(domain: &FString, list: &Vec<&'static str>) -> (r: bool)
    requires
        domain.wf(),
    ensures
        r == exists|i: int|
            0 <= i < list@.len() && text_ends_with(domain@, #[trigger] list@[i].spec_bytes()),
{
    let mut i: usize = 0;
    while i < list.len()
        invariant
            i <= list@.len(),
            domain.wf(),
            forall|j: int| 0 <= j < i ==> !text_ends_with(domain@, #[trigger] list@[j].spec_bytes()),
        decreases list@.len() - i,
    {
        if domain_ends_with(domain, list[i]) {
            return true;
        }
        i = i + 1;
    }
    false
}

fn any_prefix(path: &FString, list: &Vec<&'static str>) -> (r: bool)
    requires
        path.wf(),
    ensures
        r == exists|i: int|
            0 <= i < list@.len() && text_starts_with(path@, #[trigger] list@[i].spec_bytes()),
{
    let mut i: usize = 0;
    while i < list.len()
        invariant
            i <= list@.len(),
            path.wf(),
            forall|j: int| 0 <= j < i ==> !text_starts_with(path@, #[trigger] list@[j].spec_bytes()),
        decreases list@.len() - i,
    {
        if path_starts_with(path, list[i]) {
            return true;
        }
        i = i + 1;
    }
    false
}

/// Whether the text of `domain` ends with `suffix`.
fn domain_ends_with(domain: &FString, suffix: &str) -> (r: bool)
    requires
        domain.wf(),
    ensures
        r == text_ends_with(domain@, suffix.spec_bytes()),
{
    let v = match &domain.string {
        None => {
            return false;
        },
        Some(v) => v,
    };
    if domain.length <= 1 {
        return false;
    }
    let domain_len = (domain.length - 1) as usize;
    let suffix_bytes = suffix.as_bytes();
    if domain_len < suffix_bytes.len() {
        return false;
    }
    let ghost t = text_of(domain@);
    assert(t =~= v@.take(domain_len as int));
    let offset = domain_len - suffix_bytes.len();
    let mut i: usize = 0;
    while i < suffix_bytes.len()
        invariant
            i <= suffix_bytes@.len(),
            offset + suffix_bytes@.len() == domain_len,
            domain_len < v@.len(),
            t =~= v@.take(domain_len as int),
            t == text_of(domain@),
            suffix_bytes@ == suffix.spec_bytes(),
            forall|k: int| offset <= k < offset + i ==> #[trigger] t[k] == suffix_bytes@[k - offset] as u16,
        decreases suffix_bytes@.len() - i,
    {
        if v[offset + i] != suffix_bytes[i] as u16 {
            assert(t.skip(t.len() - suffix_bytes@.len())[i as int] != widen(suffix_bytes@)[i as int]);
            return false;
        }
        i = i + 1;
    }
    assert(t.skip(t.len() - suffix_bytes@.len()) =~= widen(suffix_bytes@));
    true
}

/// Whether the text of `path` starts with `prefix`.
fn path_starts_with(path: &FString, prefix: &str) -> (r: bool)
    requires
        path.wf(),
    ensures
        r == text_starts_with(path@, prefix.spec_bytes()),
{
    let v = match &path.string {
        None => {
            return false;
        },
        Some(v) => v,
    };
    if path.length <= 1 {
        return false;
    }
    let path_len = (path.length - 1) as usize;
    let prefix_bytes = prefix.as_bytes();
    if path_len < prefix_bytes.len() {
        return false;
    }
    let ghost t = text_of(path@);
    assert(t =~= v@.take(path_len as int));
    let mut i: usize = 0;
    while i < prefix_bytes.len()
        invariant
            i <= prefix_bytes@.len(),
            prefix_bytes@.len() <= path_len,
            path_len < v@.len(),
            t =~= v@.take(path_len as int),
            t == text_of(path@),
            prefix_bytes@ == prefix.spec_bytes(),
            forall|k: int| 0 <= k < i ==> #[trigger] t[k] == prefix_bytes@[k] as u16,
        decreases prefix_bytes@.len() - i,
    {
        if v[i] != prefix_bytes[i] as u16 {
            assert(t.take(prefix_bytes@.len() as int)[i as int] != widen(prefix_bytes@)[i as int]);
            return false;
        }
        i = i + 1;
    }
    assert(t.take(prefix_bytes@.len() as int) =~= widen(prefix_bytes@));
    true
}


/// In `All` mode every request is redirected.
pub proof fn law_all_mode_redirects_every_request(m: UrlModel)
    ensures
        spec_should_redirect(UrlSet::All, m),
{
}

/// In `Dev` mode only paths that `Hybrid` mode redirects too are redirected.
pub proof fn law_dev_paths_are_hybrid_paths(m: UrlModel)
    ensures
        spec_should_redirect(UrlSet::Dev, m) ==> spec_should_redirect(UrlSet::Hybrid, m),
{
    if spec_should_redirect(UrlSet::Dev, m) {
        let i = choose|i: int|
            0 <= i < spec_redirected_paths_dev().len() && text_starts_with(
                m.path,
                #[trigger] spec_redirected_paths_dev()[i].spec_bytes(),
            );
        let j = if i == 0 {
            1int
        } else {
            2int
        };
        assert(spec_redirected_paths_dev()[i] == spec_redirected_paths()[j]);
        assert(text_starts_with(m.path, spec_redirected_paths()[j].spec_bytes()));
    }
}


/// In `Default` mode a request goes to the backend exactly when its host
/// ends with one of Epic's domains: `ol.epicgames.com`, `ol.epicgames.net`,
/// `on.epicgames.com`, `game-social.epicgames.com`, `ak.epicgames.com`,
/// `epicgames.dev` or `superawesome.com`.
pub proof fn law_default_mode_domains(m: UrlModel)
    ensures
        spec_should_redirect(UrlSet::Default, m) <==> {
            ||| text_ends_with(m.domain, "ol.epicgames.com".spec_bytes())
            ||| text_ends_with(m.domain, "ol.epicgames.net".spec_bytes())
            ||| text_ends_with(m.domain, "on.epicgames.com".spec_bytes())
            ||| text_ends_with(m.domain, "game-social.epicgames.com".spec_bytes())
            ||| text_ends_with(m.domain, "ak.epicgames.com".spec_bytes())
            ||| text_ends_with(m.domain, "epicgames.dev".spec_bytes())
            ||| text_ends_with(m.domain, "superawesome.com".spec_bytes())
        },
{
    let d = spec_redirected_domains();
    assert(d[0] == "ol.epicgames.com");
    assert(d[1] == "ol.epicgames.net");
    assert(d[2] == "on.epicgames.com");
    assert(d[3] == "game-social.epicgames.com");
    assert(d[4] == "ak.epicgames.com");
    assert(d[5] == "epicgames.dev");
    assert(d[6] == "superawesome.com");
}

/// In `Hybrid` mode a request goes to the backend exactly when its path
/// starts with the version check, profile or content prefix.
pub proof fn law_hybrid_mode_paths(m: UrlModel)
    ensures
        spec_should_redirect(UrlSet::Hybrid, m) <==> {
            ||| text_starts_with(m.path, "/fortnite/api/v2/versioncheck/".spec_bytes())
            ||| text_starts_with(m.path, "/fortnite/api/game/v2/profile/".spec_bytes())
            ||| text_starts_with(m.path, "/content/api/pages/".spec_bytes())
        },
{
    let d = spec_redirected_paths();
    assert(d[0] == "/fortnite/api/v2/versioncheck/");
    assert(d[1] == "/fortnite/api/game/v2/profile/");
    assert(d[2] == "/content/api/pages/");
}

/// In `Dev` mode a request goes to the backend exactly when its path starts
/// with the profile or content prefix.
pub proof fn law_dev_mode_paths(m: UrlModel)
    ensures
        spec_should_redirect(UrlSet::Dev, m) <==> {
            ||| text_starts_with(m.path, "/fortnite/api/game/v2/profile/".spec_bytes())
            ||| text_starts_with(m.path, "/content/api/pages/".spec_bytes())
        },
{
    let d = spec_redirected_paths_dev();
    assert(d[0] == "/fortnite/api/game/v2/profile/");
    assert(d[1] == "/content/api/pages/");
}

} // verus!
