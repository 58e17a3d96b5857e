//! The errors the editor reports to the user, with a translated title and body.
use vstd::prelude::*;
use vstd::string::StringExecFns;

use crate::i18n::{context_message, plain_message, translate, Message, MessageView};

verus! {

/// An error reported to the user. Paths are held as the text the user sees.
#[derive(Clone, Debug)]
pub enum AppError {
    Cancelled,
    Internal(String),
    MissingSavePath,
    NonLocalFile,
    DecodeFailed(String),
    FileSizeUnavailable(String),
    FileTooBig(String),
    SaveTooBig(String),
    ReadFailed(String, String),
    WriteFailed(String, String),
    HelpLaunchFailed(String),
}

/// The separator between an explanation and the path it concerns.
pub open spec fn paragraph_break() -> Seq<char> {
    seq!['\n', '\n']
}

/// `text` ends with a paragraph break and then `path`.
pub open spec fn ends_with_path(text: Seq<char>, path: Seq<char>) -> bool {
    let tail = paragraph_break() + path;
    text.len() >= tail.len() && text.subrange(text.len() - tail.len(), text.len() as int) == tail
}

/// `explanation`, a paragraph break, then `path`.
fn with_path(explanation: String, path: &str) -> (text: String)
    ensures
        text@ == explanation@ + paragraph_break() + path@,
{
    proof {
        reveal_strlit("\n\n");
        assert("\n\n"@ =~= paragraph_break());
    }
    explanation.concat("\n\n").concat(path)
}

/// The message of an error's title: what failed (opening or saving a file,
/// building the window, opening help) or that the action was cancelled.
pub open spec fn spec_title_message(error: AppError) -> MessageView {
    match error {
        AppError::Cancelled => context_message("error title"@, "Action Cancelled"@),
        AppError::Internal(_) => plain_message("Unable to Build the Window"@),
        AppError::MissingSavePath => plain_message("No Save Location Is Available"@),
        AppError::NonLocalFile => plain_message("Only Local Files Are Supported"@),
        AppError::DecodeFailed(_) => plain_message("Unable to Open the File"@),
        AppError::ReadFailed(_, _) => plain_message("Unable to Open the File"@),
        AppError::FileSizeUnavailable(_) => plain_message("Unable to Open the File"@),
        AppError::FileTooBig(_) => plain_message("Unable to Open the File"@),
        AppError::SaveTooBig(_) => plain_message("Unable to Save the File"@),
        AppError::WriteFailed(_, _) => plain_message("Unable to Save the File"@),
        AppError::HelpLaunchFailed(_) => context_message("error title"@, "Unable to Open Help"@),
    }
}

/// The message of an error's body, for the errors whose body is translated:
/// a sentence for a cancelled action, a missing save location and a non-local
/// file; the explanation put before the path for a decode failure, an unknown
/// file size, a file too large to open and a document too large to save.
pub open spec fn spec_body_message(error: AppError) -> Option<MessageView> {
    match error {
        AppError::Cancelled => Some(plain_message("The Requested Action Was Cancelled."@)),
        AppError::MissingSavePath => Some(plain_message("Choose a Save Location Before Saving This Document."@)),
        AppError::NonLocalFile => Some(
            plain_message("Riteed Only Supports Local Plain Text Files in This Version."@),
        ),
        AppError::DecodeFailed(_) => Some(
            plain_message(
                "Automatic text decoding was not reliable for this file. Choose a text encoding manually and try again."@,
            ),
        ),
        AppError::FileSizeUnavailable(_) => Some(
            plain_message("Riteed could not determine the file size and did not open the file."@),
        ),
        AppError::FileTooBig(_) => Some(plain_message("The file is too large to open safely."@)),
        AppError::SaveTooBig(_) => Some(plain_message("The document is too large to save safely."@)),
        _ => None,
    }
}

impl AppError {
    /// The message of the title (see `spec_title_message`).
    pub fn title_message(&self) -> (message: Message)
        ensures
            message.wf(),
            message@ == spec_title_message(*self),
    {
        proof {
            reveal_strlit("error title");
            reveal_strlit("Action Cancelled");
            reveal_strlit("Unable to Build the Window");
            reveal_strlit("No Save Location Is Available");
            reveal_strlit("Only Local Files Are Supported");
            reveal_strlit("Unable to Open the File");
            reveal_strlit("Unable to Save the File");
            reveal_strlit("Unable to Open Help");
        }
        let (context, msgid) = match self {
            AppError::Cancelled => (Some("error title"), "Action Cancelled"),
            AppError::Internal(_) => (None, "Unable to Build the Window"),
            AppError::MissingSavePath => (None, "No Save Location Is Available"),
            AppError::NonLocalFile => (None, "Only Local Files Are Supported"),
            AppError::DecodeFailed(_)
            | AppError::ReadFailed(_, _)
            | AppError::FileSizeUnavailable(_)
            | AppError::FileTooBig(_) => (None, "Unable to Open the File"),
            AppError::SaveTooBig(_) | AppError::WriteFailed(_, _) => (None, "Unable to Save the File"),
            AppError::HelpLaunchFailed(_) => (Some("error title"), "Unable to Open Help"),
        };
        Message { context, msgid, plural: None, count: 0 }
    }

    /// The title of the error dialog: `title_message` translated. Its text
    /// depends on the locale.
    pub fn title(&self) -> String {
        translate(&self.title_message())
    }

    /// The message of the body, where the body is translated (see
    /// `spec_body_message`); `None` for the other errors.
    pub fn body_message(&self) -> (message: Option<Message>)
        ensures
            match spec_body_message(*self) {
                Some(view) => message matches Some(m) && m.wf() && m@ == view,
                None => message is None,
            },
    {
        proof {
            reveal_strlit("The Requested Action Was Cancelled.");
            reveal_strlit("Choose a Save Location Before Saving This Document.");
            reveal_strlit("Riteed Only Supports Local Plain Text Files in This Version.");
            reveal_strlit(
                "Automatic text decoding was not reliable for this file. Choose a text encoding manually and try again.",
            );
            reveal_strlit("Riteed could not determine the file size and did not open the file.");
            reveal_strlit("The file is too large to open safely.");
            reveal_strlit("The document is too large to save safely.");
        }
        let msgid = match self {
            AppError::Cancelled => "The Requested Action Was Cancelled.",
            AppError::MissingSavePath => "Choose a Save Location Before Saving This Document.",
            AppError::NonLocalFile => "Riteed Only Supports Local Plain Text Files in This Version.",
            AppError::DecodeFailed(_) => 
                "Automatic text decoding was not reliable for this file. Choose a text encoding manually and try again.",
            AppError::FileSizeUnavailable(_) => "Riteed could not determine the file size and did not open the file.",
            AppError::FileTooBig(_) => "The file is too large to open safely.",
            AppError::SaveTooBig(_) => "The document is too large to save safely.",
            _ => return None,
        };
        Some(Message { context: None, msgid, plural: None, count: 0 })
    }

    /// The body of the error dialog: the message itself for internal and
    /// help errors; the path, a paragraph break and the message for read and
    /// write failures; `body_message` translated, followed by a paragraph
    /// break and the path, for the other file errors; `body_message`
    /// translated otherwise.
    pub fn body(&self) -> (body: String)
        ensures
            match self {
                AppError::Internal(message) => body@ == message@,
                AppError::HelpLaunchFailed(message) => body@ == message@,
                AppError::ReadFailed(path, message) => body@ == path@ + paragraph_break() + message@,
                AppError::WriteFailed(path, message) => body@ == path@ + paragraph_break() + message@,
                AppError::DecodeFailed(path) => ends_with_path(body@, path@),
                AppError::FileSizeUnavailable(path) => ends_with_path(body@, path@),
                AppError::FileTooBig(path) => ends_with_path(body@, path@),
                AppError::SaveTooBig(path) => ends_with_path(body@, path@),
                _ => true,
            },
    {
        let explanation = self.body_message();
        let body = match self {
            AppError::Internal(message) | AppError::HelpLaunchFailed(message) => message.clone(),
            AppError::ReadFailed(path, message) | AppError::WriteFailed(path, message) => with_path(
                path.clone(),
                message.as_str(),
            ),
            AppError::Cancelled | AppError::MissingSavePath | AppError::NonLocalFile => translate(
                &explanation.unwrap(),
            ),
            AppError::DecodeFailed(path)
            | AppError::FileSizeUnavailable(path)
            | AppError::FileTooBig(path)
            | AppError::SaveTooBig(path) => with_path(translate(&explanation.unwrap()), path.as_str()),
        };
        proof {
            let b = body@;
            match self {
                AppError::DecodeFailed(path) | AppError::FileSizeUnavailable(path)
                | AppError::FileTooBig(path) | AppError::SaveTooBig(path) => {
                    let tail = paragraph_break() + path@;
                    assert(b.subrange(b.len() - tail.len(), b.len() as int) =~= tail);
                },
                _ => {},
            }
        }
        body
    }
}

} // verus!
