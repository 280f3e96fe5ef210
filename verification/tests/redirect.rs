use eclipse_redirect::hooks::{
    init_hooks, redirect_request, InitAction, InitEvent, InitPhase, RequestAction,
};
use eclipse_redirect::opts::{self, UrlSet};
use eclipse_redirect::redirection::{redirect_in_mode, should_redirect};
use eclipse_redirect::unreal::FString;
use eclipse_redirect::url::ParsedUrl;

fn fstr(s: &str) -> FString {
    let mut v: Vec<u16> = s.encode_utf16().collect();
    v.push(0);
    let n = v.len() as u32;
    FString { string: Some(v), length: n, max_size: n }
}

fn text(f: &FString) -> String {
    let v = f.string.as_ref().unwrap();
    String::from_utf16_lossy(&v[..f.length as usize - 1])
}

fn parsed(s: &str) -> ParsedUrl {
    ParsedUrl::parse(&fstr(s))
}

#[test]
fn default_mode_matches_epic_domains() {
    assert!(redirect_in_mode(UrlSet::Default, &parsed("https://account-public-service-prod.ol.epicgames.com/x")));
    assert!(redirect_in_mode(UrlSet::Default, &parsed("https://epicgames.dev/x")));
    assert!(redirect_in_mode(UrlSet::Default, &parsed("https://superawesome.com:443/x")));
    assert!(!redirect_in_mode(UrlSet::Default, &parsed("https://www.google.com/x")));
    assert!(!redirect_in_mode(UrlSet::Default, &parsed("https://epicgames.com/x")));
}

#[test]
fn hybrid_and_dev_modes_match_path_prefixes() {
    let version = parsed("https://x.com/fortnite/api/v2/versioncheck/Windows?v=1");
    let profile = parsed("https://x.com/fortnite/api/game/v2/profile/abc/client/QueryProfile");
    let other = parsed("https://x.com/account/api/oauth/token");
    assert!(redirect_in_mode(UrlSet::Hybrid, &version));
    assert!(redirect_in_mode(UrlSet::Hybrid, &profile));
    assert!(!redirect_in_mode(UrlSet::Hybrid, &other));
    assert!(!redirect_in_mode(UrlSet::Dev, &version));
    assert!(redirect_in_mode(UrlSet::Dev, &profile));
    assert!(!redirect_in_mode(UrlSet::Dev, &other));
    let content = parsed("https://x.com/content/api/pages/fortnite-game");
    assert!(redirect_in_mode(UrlSet::Hybrid, &content));
    assert!(redirect_in_mode(UrlSet::Dev, &content));
}

#[test]
fn hybrid_and_dev_leave_other_epic_paths_alone() {
    for url in [
        "https://x.com/affiliate/api/public/affiliates/slug/abc",
        "https://x.com/socialban/api/public/v1/abc",
        "https://x.com/fortnite/api/cloudstorage/system",
    ] {
        assert!(!redirect_in_mode(UrlSet::Hybrid, &parsed(url)));
        assert!(!redirect_in_mode(UrlSet::Dev, &parsed(url)));
    }
}

#[test]
fn rewritten_url_capacity_is_its_length() {
    match redirect_request(&fstr("https://ol.epicgames.com/a?b"), &fstr("http://127.0.0.1:3551")) {
        RequestAction::Rewrite(f) => {
            assert_eq!(f.max_size, f.length);
            assert_eq!(text(&f), "http://127.0.0.1:3551/a?b");
        }
        _ => panic!("expected a rewrite"),
    }
}

#[test]
fn all_mode_matches_everything() {
    assert!(redirect_in_mode(UrlSet::All, &parsed("https://www.google.com/x")));
    assert!(redirect_in_mode(UrlSet::All, &ParsedUrl::new()));
}

#[test]
fn configured_mode_is_all() {
    assert!(opts::URL_SET == UrlSet::All);
    assert!(should_redirect(&parsed("https://anything.example/")));
}

#[test]
fn request_is_rewritten_to_backend() {
    let backend = fstr(opts::BACKEND);
    let url = fstr("https://fortnite-public-service-prod11.ol.epicgames.com/fortnite/api/game/v2/profile/x?profileId=athena");
    match redirect_request(&url, &backend) {
        RequestAction::Rewrite(u) => assert_eq!(
            text(&u),
            "http://127.0.0.1:3551/fortnite/api/game/v2/profile/x?profileId=athena"
        ),
        _ => panic!("expected a rewrite"),
    }
}

#[test]
fn empty_urls_are_reported() {
    let backend = fstr(opts::BACKEND);
    assert!(matches!(redirect_request(&FString::new(), &backend), RequestAction::EmptyUrl));
    assert!(matches!(redirect_request(&fstr(""), &backend), RequestAction::EmptyUrl));
}

#[test]
fn rebuild_that_comes_out_empty_fails() {
    // an empty backend takes away scheme, separator and host; ":" has nothing else
    let backend = fstr("");
    assert!(matches!(redirect_request(&fstr(":"), &backend), RequestAction::RebuildFailed));
    // with a path left, the rebuild is not empty
    match redirect_request(&fstr("x:/p"), &backend) {
        RequestAction::Rewrite(u) => assert_eq!(text(&u), "/p"),
        _ => panic!("expected a rewrite"),
    }
}

#[test]
fn init_runs_main_then_eos() {
    let (p, a) = init_hooks(InitPhase::Start, InitEvent::Started);
    assert!(a == InitAction::HookMain);
    assert!(p == InitPhase::HookingMain { attempts: 1 });
    let (p, a) = init_hooks(p, InitEvent::MainHooked(true));
    assert!(a == InitAction::LoadEos { main_hooked: true });
    let (p, a) = init_hooks(p, InitEvent::EosLoaded(0x7FF0_0000));
    assert!(a == InitAction::HookEos(0x7FF0_0000));
    let (p, a) = init_hooks(p, InitEvent::EosHooked);
    assert!(a == InitAction::Finish { exit_patches_skipped: false });
    assert!(p == InitPhase::Done);
}

#[test]
fn init_tries_the_main_module_three_times() {
    let (mut p, _) = init_hooks(InitPhase::Start, InitEvent::Started);
    let mut tries = 1;
    loop {
        let (next, a) = init_hooks(p, InitEvent::MainHooked(false));
        p = next;
        if a == InitAction::HookMain {
            tries += 1;
        } else {
            assert!(a == InitAction::LoadEos { main_hooked: false });
            break;
        }
    }
    assert_eq!(tries, 3);
    let (p, a) = init_hooks(p, InitEvent::EosLoaded(0));
    assert!(a == InitAction::Finish { exit_patches_skipped: opts::B_HAS_PUSH_WIDGET });
    assert!(p == InitPhase::Done);
}

#[test]
fn init_ignores_events_out_of_turn() {
    let (p, a) = init_hooks(InitPhase::Start, InitEvent::EosHooked);
    assert!(p == InitPhase::Start && a == InitAction::Nothing);
    let (p, a) = init_hooks(InitPhase::Done, InitEvent::Started);
    assert!(p == InitPhase::Done && a == InitAction::Nothing);
    let (p, a) = init_hooks(InitPhase::PatchingExits, InitEvent::ExitsPatched);
    assert!(p == InitPhase::Done && a == InitAction::Finish { exit_patches_skipped: false });
}
