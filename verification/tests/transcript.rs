//! Tests of the transcript interface types.

use hyrax::transcript::TranscriptError;

#[test]
fn test_transcript_error_message() {
    let err = TranscriptError::TranscriptMatchError;
    assert_eq!(
        err.message(),
        "The challenges generated don't match challenges given!"
    );
    assert_eq!(err, TranscriptError::TranscriptMatchError);
}
