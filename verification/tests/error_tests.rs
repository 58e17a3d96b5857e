use riteed::error::AppError;

#[test]
fn titles_and_bodies_are_non_empty() {
    let errors = [
        AppError::Cancelled,
        AppError::Internal(String::from("internal")),
        AppError::MissingSavePath,
        AppError::NonLocalFile,
        AppError::DecodeFailed("notes.txt".into()),
        AppError::FileSizeUnavailable("notes.txt".into()),
        AppError::FileTooBig("notes.txt".into()),
        AppError::SaveTooBig("notes.txt".into()),
        AppError::ReadFailed("notes.txt".into(), String::from("read")),
        AppError::WriteFailed("notes.txt".into(), String::from("write")),
        AppError::HelpLaunchFailed(String::from("help")),
    ];

    for error in errors {
        assert!(!error.title().is_empty());
        assert!(!error.body().is_empty());
    }
}

#[test]
fn read_and_write_failures_put_the_path_first() {
    assert_eq!(AppError::ReadFailed("a.txt".into(), "denied".into()).body(), "a.txt\n\ndenied");
    assert_eq!(AppError::WriteFailed("b.txt".into(), "full".into()).body(), "b.txt\n\nfull");
    assert_eq!(AppError::Internal("boom".into()).body(), "boom");
    assert_eq!(AppError::HelpLaunchFailed("no help".into()).body(), "no help");
}

#[test]
fn file_errors_end_with_their_path() {
    let body = AppError::FileTooBig("big.log".into()).body();
    assert_eq!(body, "The file is too large to open safely.\n\nbig.log");
    assert!(AppError::DecodeFailed("x.bin".into()).body().ends_with("\n\nx.bin"));
    assert_eq!(AppError::FileTooBig("big.log".into()).title(), "Unable to Open the File");
    assert_eq!(AppError::SaveTooBig("s".into()).title(), "Unable to Save the File");
    assert_eq!(AppError::Cancelled.title(), "Action Cancelled");
}
