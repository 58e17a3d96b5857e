//! Which banner an editor tab shows above its text, and what its button does.
use vstd::prelude::*;

use crate::i18n::{context_message, plain_message, translate, Message, MessageView};

verus! {

/// The banner an editor tab shows.
#[derive(Clone, Copy, Debug, PartialEq, Eq, Structural)]
pub enum VisibleBannerState {
    /// No banner.
    Hidden,
    External,
    Missing,
    ReadOnly,
    AutosavePaused,
    ReviewStale,
}

/// What the button of a banner does.
#[derive(Clone, Copy, Debug, PartialEq, Eq, Structural)]
pub enum BannerActionKind {
    Reload,
    Save,
    SaveAs,
    RefreshReview,
}

/// The action of each banner: reload a file changed on disk, save a missing
/// file or one whose autosave is paused, save a read-only file elsewhere,
/// refresh a stale review; no banner, no action.
pub open spec fn spec_banner_action(visible: VisibleBannerState) -> Option<BannerActionKind> {
    match visible {
        VisibleBannerState::External => Some(BannerActionKind::Reload),
        VisibleBannerState::Missing => Some(BannerActionKind::Save),
        VisibleBannerState::AutosavePaused => Some(BannerActionKind::Save),
        VisibleBannerState::ReadOnly => Some(BannerActionKind::SaveAs),
        VisibleBannerState::ReviewStale => Some(BannerActionKind::RefreshReview),
        VisibleBannerState::Hidden => None,
    }
}

/// The action of the banner shown (see `spec_banner_action`).
pub fn banner_action_kind(visible: VisibleBannerState) -> (action: Option<BannerActionKind>)
    ensures
        action == spec_banner_action(visible),
{
    match visible {
        VisibleBannerState::External => Some(BannerActionKind::Reload),
        VisibleBannerState::Missing | VisibleBannerState::AutosavePaused => Some(BannerActionKind::Save),
        VisibleBannerState::ReadOnly => Some(BannerActionKind::SaveAs),
        VisibleBannerState::ReviewStale => Some(BannerActionKind::RefreshReview),
        VisibleBannerState::Hidden => None,
    }
}

/// What an editor tab's banner depends on: whether a compare or a stale
/// review is shown, an unacknowledged change or disappearance of the file on
/// disk, whether the file has a path and cannot be written, and the message
/// of a paused autosave.
pub struct BannerFacts {
    pub compare_active: bool,
    pub review_stale: bool,
    pub content_changed_unacknowledged: bool,
    pub missing_unacknowledged: bool,
    pub unwritable: bool,
    pub has_path: bool,
    pub autosave_paused_message: Option<String>,
}

/// The banner shown: none during a compare; else a stale review; else a
/// file changed on disk, when a reload can be offered; else a missing file,
/// in the selected tab; else a read-only file that has a path; else a paused
/// autosave, when autosave is on; else none.
pub open spec fn spec_visible_banner(
    facts: BannerFacts,
    should_offer_reload: bool,
    is_selected: bool,
    autosave_enabled: bool,
) -> VisibleBannerState {
    if facts.compare_active {
        VisibleBannerState::Hidden
    } else if facts.review_stale {
        VisibleBannerState::ReviewStale
    } else if facts.content_changed_unacknowledged && should_offer_reload {
        VisibleBannerState::External
    } else if facts.missing_unacknowledged && is_selected {
        VisibleBannerState::Missing
    } else if facts.unwritable && facts.has_path {
        VisibleBannerState::ReadOnly
    } else if autosave_enabled && facts.autosave_paused_message is Some {
        VisibleBannerState::AutosavePaused
    } else {
        VisibleBannerState::Hidden
    }
}

/// The message of a banner's title: a stale review, a file changed on disk
/// or missing from it, a read-only file; none without a banner, and none for
/// a paused autosave, whose title is its own message.
pub open spec fn spec_banner_title_message(visible: VisibleBannerState) -> Option<MessageView> {
    match visible {
        VisibleBannerState::ReviewStale => Some(plain_message("This review is out of date."@)),
        VisibleBannerState::External => Some(context_message("external banner"@, "This File Changed on Disk."@)),
        VisibleBannerState::Missing => Some(context_message("external banner"@, "This File Is Missing on Disk."@)),
        VisibleBannerState::ReadOnly => Some(context_message("save safety banner"@, "This File Is Read-Only."@)),
        _ => None,
    }
}

/// The message of a banner's button label: refresh the review, reload or save
/// a file changed or missing on disk, save a read-only file elsewhere, save a
/// file whose autosave is paused; none without a banner.
pub open spec fn spec_banner_action_message(visible: VisibleBannerState) -> Option<MessageView> {
    match visible {
        VisibleBannerState::ReviewStale => Some(plain_message("Refresh Review"@)),
        VisibleBannerState::External => Some(context_message("external action"@, "Reload"@)),
        VisibleBannerState::Missing => Some(context_message("external action"@, "Save"@)),
        VisibleBannerState::ReadOnly => Some(context_message("save safety action"@, "Save As"@)),
        VisibleBannerState::AutosavePaused => Some(context_message("save safety action"@, "Save"@)),
        VisibleBannerState::Hidden => None,
    }
}

/// An optional message that is well formed and shows as `view`.
pub open spec fn message_is(message: Option<Message>, view: Option<MessageView>) -> bool {
    match view {
        Some(v) => message matches Some(m) && m.wf() && m@ == v,
        None => message is None,
    }
}

/// The messages of a banner's title and button label (see
/// `spec_banner_title_message` and `spec_banner_action_message`).
pub fn banner_messages(visible: VisibleBannerState) -> (messages: (Option<Message>, Option<Message>))
    ensures
        message_is(messages.0, spec_banner_title_message(visible)),
        message_is(messages.1, spec_banner_action_message(visible)),
{
    proof {
        reveal_strlit("This review is out of date.");
        reveal_strlit("Refresh Review");
        reveal_strlit("external banner");
        reveal_strlit("This File Changed on Disk.");
        reveal_strlit("external action");
        reveal_strlit("Reload");
        reveal_strlit("This File Is Missing on Disk.");
        reveal_strlit("Save");
        reveal_strlit("save safety banner");
        reveal_strlit("This File Is Read-Only.");
        reveal_strlit("save safety action");
        reveal_strlit("Save As");
    }
    let (title, action): (Option<(Option<&'static str>, &'static str)>, Option<(Option<&'static str>, &'static str)>) =
        match visible {
        VisibleBannerState::ReviewStale => (Some((None, "This review is out of date.")), Some((None, "Refresh Review"))),
        VisibleBannerState::External => (
            Some((Some("external banner"), "This File Changed on Disk.")),
            Some((Some("external action"), "Reload")),
        ),
        VisibleBannerState::Missing => (
            Some((Some("external banner"), "This File Is Missing on Disk.")),
            Some((Some("external action"), "Save")),
        ),
        VisibleBannerState::ReadOnly => (
            Some((Some("save safety banner"), "This File Is Read-Only.")),
            Some((Some("save safety action"), "Save As")),
        ),
        VisibleBannerState::AutosavePaused => (None, Some((Some("save safety action"), "Save"))),
        VisibleBannerState::Hidden => (None, None),
    };
    let title = match title {
        Some((context, msgid)) => Some(Message { context, msgid, plural: None, count: 0 }),
        None => None,
    };
    let action = match action {
        Some((context, msgid)) => Some(Message { context, msgid, plural: None, count: 0 }),
        None => None,
    };
    (title, action)
}

/// The banner shown (see `spec_visible_banner`).
fn visible_banner(
    facts: &BannerFacts,
    should_offer_reload: bool,
    is_selected: bool,
    autosave_enabled: bool,
) -> (visible: VisibleBannerState)
    ensures
        visible == spec_visible_banner(*facts, should_offer_reload, is_selected, autosave_enabled),
{
    if facts.compare_active {
        VisibleBannerState::Hidden
    } else if facts.review_stale {
        VisibleBannerState::ReviewStale
    } else if facts.content_changed_unacknowledged && should_offer_reload {
        VisibleBannerState::External
    } else if facts.missing_unacknowledged && is_selected {
        VisibleBannerState::Missing
    } else if facts.unwritable && facts.has_path {
        VisibleBannerState::ReadOnly
    } else if autosave_enabled && facts.autosave_paused_message.is_some() {
        VisibleBannerState::AutosavePaused
    } else {
        VisibleBannerState::Hidden
    }
}

/// The banner to show with its title and button label (see
/// `spec_visible_banner`). Every banner has both: the title of a paused
/// autosave is its message; the other title and every label are the
/// messages of `banner_messages` translated.
pub fn visible_banner_state(
    facts: &BannerFacts,
    should_offer_reload: bool,
    is_selected: bool,
    autosave_enabled: bool,
) -> (banner: (VisibleBannerState, Option<String>, Option<String>))
    ensures
        banner.0 == spec_visible_banner(*facts, should_offer_reload, is_selected, autosave_enabled),
        banner.1 is Some <==> banner.0 != VisibleBannerState::Hidden,
        banner.2 is Some <==> banner.0 != VisibleBannerState::Hidden,
        banner.0 == VisibleBannerState::AutosavePaused ==> banner.1->0@ == facts.autosave_paused_message->0@,
{
    let visible = visible_banner(facts, should_offer_reload, is_selected, autosave_enabled);
    let (title_message, action_message) = banner_messages(visible);
    let title = match title_message {
        Some(message) => Some(translate(&message)),
        None => match visible {
            VisibleBannerState::AutosavePaused => match &facts.autosave_paused_message {
                Some(message) => Some(message.clone()),
                None => None,
            },
            _ => None,
        },
    };
    let label = match action_message {
        Some(message) => Some(translate(&message)),
        None => None,
    };
    (visible, title, label)
}

/// A reload is offered in the selected tab of the active window, unless the
/// text has unsaved edits that did not defer the reload.
pub fn should_offer_reload(is_selected: bool, window_active: bool, is_dirty: bool, reload_deferred_by_edit: bool) -> (offer:
    bool)
    ensures
        offer == (is_selected && window_active && (!is_dirty || reload_deferred_by_edit)),
{
    is_selected && window_active && (!is_dirty || reload_deferred_by_edit)
}

/// The prompt to reload a file changed on disk over unsaved edits is shown
/// when the text is dirty, the change is unacknowledged, no prompt is shown
/// yet, nothing is loading, the reload was not deferred by an edit, and no
/// compare is shown.
pub fn should_present_dirty_reload_prompt(
    is_dirty: bool,
    content_changed_unacknowledged: bool,
    external_prompt_active: bool,
    loading: bool,
    reload_deferred_by_edit: bool,
    compare_active: bool,
) -> (present: bool)
    ensures
        present == (is_dirty && content_changed_unacknowledged && !external_prompt_active && !loading
            && !reload_deferred_by_edit && !compare_active),
{
    is_dirty && content_changed_unacknowledged && !external_prompt_active && !loading
        && !reload_deferred_by_edit && !compare_active
}

/// A banner's button always has an action, and a banner is shown exactly
/// when there is one.
pub proof fn lemma_banner_has_action(
    facts: BannerFacts,
    should_offer_reload: bool,
    is_selected: bool,
    autosave_enabled: bool,
)
    ensures
        (spec_banner_action(spec_visible_banner(facts, should_offer_reload, is_selected, autosave_enabled))
            is Some) <==> spec_visible_banner(facts, should_offer_reload, is_selected, autosave_enabled)
            != VisibleBannerState::Hidden,
        facts.compare_active ==> spec_visible_banner(facts, should_offer_reload, is_selected, autosave_enabled)
            == VisibleBannerState::Hidden,
{
}

} // verus!
