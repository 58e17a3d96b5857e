use riteed::banner::{
    banner_action_kind, should_offer_reload, should_present_dirty_reload_prompt, visible_banner_state,
    BannerActionKind, BannerFacts, VisibleBannerState,
};

fn facts() -> BannerFacts {
    BannerFacts {
        compare_active: false,
        review_stale: false,
        content_changed_unacknowledged: false,
        missing_unacknowledged: false,
        unwritable: false,
        has_path: true,
        autosave_paused_message: None,
    }
}

#[test]
fn each_banner_has_its_action() {
    assert_eq!(banner_action_kind(VisibleBannerState::External), Some(BannerActionKind::Reload));
    assert_eq!(banner_action_kind(VisibleBannerState::Missing), Some(BannerActionKind::Save));
    assert_eq!(banner_action_kind(VisibleBannerState::AutosavePaused), Some(BannerActionKind::Save));
    assert_eq!(banner_action_kind(VisibleBannerState::ReadOnly), Some(BannerActionKind::SaveAs));
    assert_eq!(
        banner_action_kind(VisibleBannerState::ReviewStale),
        Some(BannerActionKind::RefreshReview)
    );
    assert_eq!(banner_action_kind(VisibleBannerState::Hidden), None);
}

#[test]
fn a_compare_hides_every_banner() {
    let mut f = facts();
    f.compare_active = true;
    f.review_stale = true;
    f.content_changed_unacknowledged = true;
    assert_eq!(visible_banner_state(&f, true, true, true), (VisibleBannerState::Hidden, None, None));
}

#[test]
fn banners_follow_their_priority() {
    let mut f = facts();
    f.content_changed_unacknowledged = true;
    f.unwritable = true;
    assert_eq!(visible_banner_state(&f, true, true, false).0, VisibleBannerState::External);
    assert_eq!(visible_banner_state(&f, false, true, false).0, VisibleBannerState::ReadOnly);
    f.review_stale = true;
    assert_eq!(visible_banner_state(&f, true, true, false).0, VisibleBannerState::ReviewStale);

    let mut missing = facts();
    missing.missing_unacknowledged = true;
    assert_eq!(visible_banner_state(&missing, false, true, false).0, VisibleBannerState::Missing);
    assert_eq!(visible_banner_state(&missing, false, false, false).0, VisibleBannerState::Hidden);

    let mut unsaved = facts();
    unsaved.unwritable = true;
    unsaved.has_path = false;
    assert_eq!(visible_banner_state(&unsaved, false, true, false).0, VisibleBannerState::Hidden);
}

#[test]
fn a_paused_autosave_shows_its_message() {
    let mut f = facts();
    f.autosave_paused_message = Some(String::from("Disk full"));
    let (state, title, action) = visible_banner_state(&f, false, true, true);
    assert_eq!(state, VisibleBannerState::AutosavePaused);
    assert_eq!(title.as_deref(), Some("Disk full"));
    assert!(action.is_some());
    assert_eq!(visible_banner_state(&f, false, true, false).0, VisibleBannerState::Hidden);
}

#[test]
fn reload_offers_and_prompts() {
    assert!(should_offer_reload(true, true, false, false));
    assert!(should_offer_reload(true, true, true, true));
    assert!(!should_offer_reload(true, true, true, false));
    assert!(!should_offer_reload(false, true, false, false));
    assert!(!should_offer_reload(true, false, false, false));

    assert!(should_present_dirty_reload_prompt(true, true, false, false, false, false));
    assert!(!should_present_dirty_reload_prompt(false, true, false, false, false, false));
    assert!(!should_present_dirty_reload_prompt(true, false, false, false, false, false));
    assert!(!should_present_dirty_reload_prompt(true, true, true, false, false, false));
    assert!(!should_present_dirty_reload_prompt(true, true, false, true, false, false));
    assert!(!should_present_dirty_reload_prompt(true, true, false, false, true, false));
    assert!(!should_present_dirty_reload_prompt(true, true, false, false, false, true));
}
