//! Message translation through GNU gettext, and the count substitution the
//! translated templates need.
use vstd::prelude::*;

use crate::text::{decimal_string, replace_all, spec_decimal, spec_replace};

verus! {

/// A message id or context that contains no NUL character (the C API cannot take one).
pub open spec fn no_nul(s: Seq<char>) -> bool {
    forall|i: int| 0 <= i < s.len() ==> s[i] != '\0'
}

/// Calls `gettextrs::gettext`: the translation of `msgid` in the current
/// locale and text domain, or `msgid` itself when there is none. What comes
/// back depends on the process's locale and catalogs, so nothing is stated of
/// it; the call also panics if a catalog holds a translation that is not UTF-8.
#[verifier::external_body]
fn gettext(msgid: &str) -> String
    requires
        no_nul(msgid@),
{
    gettextrs::gettext(msgid)
}

/// Calls `gettextrs::ngettext`: the translation of the singular or plural form
/// chosen for `n` in the current locale (untranslated: `msgid` when `n == 1`,
/// else `msgid_plural`). Locale-dependent, so nothing is stated of the result.
#[verifier::external_body]
fn ngettext(msgid: &str, msgid_plural: &str, n: u32) -> String
    requires
        no_nul(msgid@),
        no_nul(msgid_plural@),
{
    gettextrs::ngettext(msgid, msgid_plural, n)
}

/// Calls `gettextrs::pgettext`: like `gettext`, within the message context
/// `msgctxt`. Locale-dependent, so nothing is stated of the result.
#[verifier::external_body]
fn pgettext(msgctxt: &str, msgid: &str) -> String
    requires
        no_nul(msgctxt@),
        no_nul(msgid@),
{
    gettextrs::pgettext(msgctxt, msgid)
}

/// Calls `gettextrs::npgettext`: like `ngettext`, within the message context
/// `msgctxt`. Locale-dependent, so nothing is stated of the result.
#[verifier::external_body]
fn npgettext(msgctxt: &str, msgid: &str, msgid_plural: &str, n: u32) -> String
    requires
        no_nul(msgctxt@),
        no_nul(msgid@),
        no_nul(msgid_plural@),
{
    gettextrs::npgettext(msgctxt, msgid, msgid_plural, n)
}

/// The placeholder that a count replaces in a message template.
pub open spec fn count_placeholder() -> Seq<char> {
    seq!['%', 'd']
}

/// `template` with every `%d` replaced by the decimal `count`.
pub open spec fn spec_format_count(template: Seq<char>, count: nat) -> Seq<char> {
    spec_replace(template, count_placeholder(), spec_decimal(count))
}

/// Fills a message template: replaces each `%d` with `count` in decimal.
pub fn format_count(template: &str, count: usize) -> (text: String)
    ensures
        text@ == spec_format_count(template@, count as nat),
{
    let digits = decimal_string(count);
    proof {
        reveal_strlit("%d");
        assert("%d"@ =~= count_placeholder());
    }
    replace_all(template, "%d", digits.as_str())
}

/// The count gettext selects a plural form with: `value`, or `u32::MAX` when
/// `value` does not fit.
pub open spec fn spec_plural_count(value: usize) -> u32 {
    if value <= u32::MAX {
        value as u32
    } else {
        u32::MAX
    }
}

/// The count gettext selects a plural form with (see `spec_plural_count`).
pub fn plural_count(value: usize) -> (n: u32)
    ensures
        n == spec_plural_count(value),
{
    if value <= u32::MAX as usize {
        value as u32
    } else {
        u32::MAX
    }
}

/// A message for gettext: an optional context, the message id and, for a
/// message with plural forms, the plural id and the count that selects the
/// form.
#[derive(Clone, Copy, Debug)]
pub struct Message {
    pub context: Option<&'static str>,
    pub msgid: &'static str,
    pub plural: Option<&'static str>,
    pub count: u32,
}

/// What a message hands to gettext, as text.
pub struct MessageView {
    pub context: Option<Seq<char>>,
    pub msgid: Seq<char>,
    pub plural: Option<Seq<char>>,
    pub count: u32,
}

impl View for Message {
    type V = MessageView;

    open spec fn view(&self) -> MessageView {
        MessageView {
            context: match self.context {
                Some(c) => Some(c@),
                None => None,
            },
            msgid: self.msgid@,
            plural: match self.plural {
                Some(p) => Some(p@),
                None => None,
            },
            count: self.count,
        }
    }
}

/// A message without context or plural forms.
pub open spec fn plain_message(msgid: Seq<char>) -> MessageView {
    MessageView { context: None, msgid, plural: None, count: 0 }
}

/// A message in a context, without plural forms.
pub open spec fn context_message(context: Seq<char>, msgid: Seq<char>) -> MessageView {
    MessageView { context: Some(context), msgid, plural: None, count: 0 }
}

/// A message with plural forms, in an optional context, whose form `count` selects.
pub open spec fn plural_message(
    context: Option<Seq<char>>,
    msgid: Seq<char>,
    plural: Seq<char>,
    count: u32,
) -> MessageView {
    MessageView { context, msgid, plural: Some(plural), count }
}

impl Message {
    /// None of its texts holds a NUL character.
    pub open spec fn wf(&self) -> bool {
        &&& no_nul(self.msgid@)
        &&& (self.context matches Some(c) ==> no_nul(c@))
        &&& (self.plural matches Some(p) ==> no_nul(p@))
    }
}

/// The translation of `message` in the current locale: `pgettext` when it has
/// a context, `ngettext` or `npgettext` with its count when it has a plural
/// id. What the translation is depends on the locale.
pub fn translate(message: &Message) -> String
    requires
        message.wf(),
{
    match (message.context, message.plural) {
        (None, None) => gettext(message.msgid),
        (Some(context), None) => pgettext(context, message.msgid),
        (None, Some(plural)) => ngettext(message.msgid, plural, message.count),
        (Some(context), Some(plural)) => npgettext(context, message.msgid, plural, message.count),
    }
}

} // verus!
