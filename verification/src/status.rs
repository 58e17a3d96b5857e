//! The status line of a compare: what it reports and its text.
use vstd::prelude::*;

use crate::i18n::{
    context_message, format_count, plain_message, plural_count, plural_message, spec_format_count,
    spec_plural_count, translate, Message,
};
use crate::model::{DiffRowModel, count_changed, kinds_of};
use crate::text::{decimal_string, push_char, replace_all, spec_decimal, spec_replace};

verus! {

/// The hunk to select after a recompute: none without hunks or for a model
/// too large to compare; else the previous one (the first when there was
/// none), moved to the last hunk if fewer remain.
pub fn current_hunk_after_recompute(previous: Option<usize>, hunk_count: usize, too_large: bool) -> (hunk: Option<usize>)
    ensures
        hunk == if hunk_count == 0 || too_large {
            None::<usize>
        } else {
            let p: usize = match previous {
                Some(p) => p,
                None => 0,
            };
            Some(if p < hunk_count {
                p
            } else {
                (hunk_count - 1) as usize
            })
        },
{
    if hunk_count == 0 || too_large {
        return None;
    }
    let previous = match previous {
        Some(previous) => previous,
        None => 0,
    };
    Some(if previous < hunk_count - 1 {
        previous
    } else {
        hunk_count - 1
    })
}

/// What the status line of a compare reports.
#[derive(Clone, Copy, Debug, PartialEq, Eq, Structural)]
pub enum CompareStatus {
    TooLarge,
    OnlyTrimmedWhitespaceHidden,
    NoDifferences,
    Changes { changed_lines: usize, current_hunk: Option<usize>, hunk_count: usize },
}

/// What the status line reports for `model`: that it is too large; else,
/// without hunks, that no differences exist or that only trimmed whitespace
/// differs; else the changed rows, the selected hunk and the hunk count.
pub fn compare_status(
    model: &DiffRowModel,
    current_hunk: Option<usize>,
    hidden_trim_whitespace_differences: bool,
) -> (status: CompareStatus)
    ensures
        status == if model.too_large {
            CompareStatus::TooLarge
        } else if model.hunks@.len() == 0 {
            if hidden_trim_whitespace_differences {
                CompareStatus::OnlyTrimmedWhitespaceHidden
            } else {
                CompareStatus::NoDifferences
            }
        } else {
            CompareStatus::Changes {
                changed_lines: count_changed(kinds_of(model.rows@)) as usize,
                current_hunk,
                hunk_count: model.hunks@.len() as usize,
            }
        },
{
    if model.too_large {
        return CompareStatus::TooLarge;
    }
    let hunk_count = model.hunks.len();
    if hunk_count == 0 {
        if hidden_trim_whitespace_differences {
            return CompareStatus::OnlyTrimmedWhitespaceHidden;
        }
        return CompareStatus::NoDifferences;
    }
    let changed_lines = model.changed_row_count();
    CompareStatus::Changes { changed_lines, current_hunk, hunk_count }
}

/// `template` with `%1$d`, `%2$d` and `%3$d` replaced by the decimal numbers
/// `first`, `second` and `third`, in that order.
pub open spec fn spec_format_position(template: Seq<char>, first: nat, second: nat, third: nat) -> Seq<char> {
    spec_replace(
        spec_replace(
            spec_replace(template, seq!['%', '1', '$', 'd'], spec_decimal(first)),
            seq!['%', '2', '$', 'd'],
            spec_decimal(second),
        ),
        seq!['%', '3', '$', 'd'],
        spec_decimal(third),
    )
}

/// Fills a status template with the changed rows, the 1-based selected hunk
/// and the hunk count (see `spec_format_position`).
pub fn format_position(template: &str, changed_lines: usize, position: usize, hunk_count: usize) -> (text: String)
    ensures
        text@ == spec_format_position(template@, changed_lines as nat, position as nat, hunk_count as nat),
{
    proof {
        reveal_strlit("%1$d");
        reveal_strlit("%2$d");
        reveal_strlit("%3$d");
        assert("%1$d"@ =~= seq!['%', '1', '$', 'd']);
        assert("%2$d"@ =~= seq!['%', '2', '$', 'd']);
        assert("%3$d"@ =~= seq!['%', '3', '$', 'd']);
    }
    let first = decimal_string(changed_lines);
    let second = decimal_string(position);
    let third = decimal_string(hunk_count);
    let text = replace_all(template, "%1$d", first.as_str());
    let text = replace_all(text.as_str(), "%2$d", second.as_str());
    replace_all(text.as_str(), "%3$d", third.as_str())
}

/// The message of the status text for changed rows: "N changed lines", with
/// " - K/M" when a hunk is selected; its form is selected by `changed_lines`.
pub fn changes_message(changed_lines: usize, current_hunk: Option<usize>) -> (message: Message)
    ensures
        message.wf(),
        message@ == (match current_hunk {
            Some(_) => plural_message(
                None,
                "%1$d changed line - %2$d/%3$d"@,
                "%1$d changed lines - %2$d/%3$d"@,
                spec_plural_count(changed_lines),
            ),
            None => plural_message(
                None,
                "%d changed line"@,
                "%d changed lines"@,
                spec_plural_count(changed_lines),
            ),
        }),
{
    proof {
        reveal_strlit("%1$d changed line - %2$d/%3$d");
        reveal_strlit("%1$d changed lines - %2$d/%3$d");
        reveal_strlit("%d changed line");
        reveal_strlit("%d changed lines");
    }
    let count = plural_count(changed_lines);
    match current_hunk {
        Some(_) => Message {
            context: None,
            msgid: "%1$d changed line - %2$d/%3$d",
            plural: Some("%1$d changed lines - %2$d/%3$d"),
            count,
        },
        None => Message { context: None, msgid: "%d changed line", plural: Some("%d changed lines"), count },
    }
}

/// The status text for changed rows: `changes_message` translated, with the
/// changed rows, and the 1-based selected hunk and the hunk count when one is
/// selected, filled in by `format_count` or `format_position`. Its words
/// depend on the locale.
pub fn compare_status_text(changed_lines: usize, current_hunk: Option<usize>, hunk_count: usize) -> (text: String)
    requires
        current_hunk matches Some(h) ==> h < usize::MAX,
    ensures
        match current_hunk {
            Some(h) => {
                let position = (h + 1) as nat;
                exists|template: Seq<char>|
                    text@ == spec_format_position(template, changed_lines as nat, position, hunk_count as nat)
            },
            None => exists|template: Seq<char>| text@ == spec_format_count(template, changed_lines as nat),
        },
{
    let template = translate(&changes_message(changed_lines, current_hunk));
    match current_hunk {
        Some(current) => {
            let text = format_position(template.as_str(), changed_lines, current + 1, hunk_count);
            assert(text@ == spec_format_position(template@, changed_lines as nat, (current + 1) as nat, hunk_count as nat));
            text
        },
        None => {
            let text = format_count(template.as_str(), changed_lines);
            assert(text@ == spec_format_count(template@, changed_lines as nat));
            text
        },
    }
}

/// The message of a status without changes: that the texts are too large to
/// compare, that only leading or trailing whitespace differences are hidden,
/// or that no differences were found; `None` for changes.
pub fn fixed_status_message(status: CompareStatus) -> (message: Option<Message>)
    ensures
        match status {
            CompareStatus::TooLarge => message matches Some(m) && m.wf() && m@ == plain_message(
                "Too large to compare differences."@,
            ),
            CompareStatus::OnlyTrimmedWhitespaceHidden => message matches Some(m) && m.wf() && m@
                == plain_message("Only leading or trailing whitespace differences are hidden."@),
            CompareStatus::NoDifferences => message matches Some(m) && m.wf() && m@ == plain_message(
                "No differences were found."@,
            ),
            CompareStatus::Changes { .. } => message is None,
        },
{
    proof {
        reveal_strlit("Too large to compare differences.");
        reveal_strlit("Only leading or trailing whitespace differences are hidden.");
        reveal_strlit("No differences were found.");
    }
    let msgid = match status {
        CompareStatus::TooLarge => "Too large to compare differences.",
        CompareStatus::OnlyTrimmedWhitespaceHidden => "Only leading or trailing whitespace differences are hidden.",
        CompareStatus::NoDifferences => "No differences were found.",
        CompareStatus::Changes { .. } => return None,
    };
    Some(Message { context: None, msgid, plural: None, count: 0 })
}

/// The status line's text for `status`, translated: `fixed_status_message`
/// translated, or for changes the text of `compare_status_text`, where the
/// counts fill the locale's template.
pub fn status_text(status: CompareStatus) -> (text: String)
    requires
        status matches CompareStatus::Changes { current_hunk: Some(h), .. } ==> h < usize::MAX,
    ensures
        match status {
            CompareStatus::Changes { changed_lines, current_hunk: Some(h), hunk_count } => {
                let position = (h + 1) as nat;
                exists|template: Seq<char>|
                    text@ == spec_format_position(template, changed_lines as nat, position, hunk_count as nat)
            },
            CompareStatus::Changes { changed_lines, current_hunk: None, .. } => exists|template: Seq<char>|
                text@ == spec_format_count(template, changed_lines as nat),
            _ => true,
        },
{
    match status {
        CompareStatus::Changes { changed_lines, current_hunk, hunk_count } => compare_status_text(
            changed_lines,
            current_hunk,
            hunk_count,
        ),
        _ => translate(&fixed_status_message(status).unwrap()),
    }
}

/// A label followed by an ellipsis.
pub fn ellipsis_label(label: String) -> (text: String)
    ensures
        text@ == label@.push('…'),
{
    let mut label = label;
    push_char(&mut label, '…');
    label
}

/// The status text while the reference text loads: `loading_message`
/// translated, followed by an ellipsis.
pub fn loading_status_text() -> (text: String)
    ensures
        text@.len() > 0,
        text@.last() == '…',
{
    ellipsis_label(translate(&loading_message()))
}

/// The message of the label shown while the reference text loads.
pub fn loading_message() -> (message: Message)
    ensures
        message.wf(),
        message@ == context_message("compare status"@, "Loading Reference"@),
{
    proof {
        reveal_strlit("compare status");
        reveal_strlit("Loading Reference");
    }
    Message { context: Some("compare status"), msgid: "Loading Reference", plural: None, count: 0 }
}

} // verus!
