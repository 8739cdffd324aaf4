use soar_cli::download::{
    check_response, on_response, range_header, total_length, DownloadDecision, ResponseHead,
};

fn head(status: u16, content_length: Option<u64>, total_length: Option<u64>) -> ResponseHead {
    ResponseHead { status, content_length, total_length }
}

fn apply(staged: &[u8], decision: DownloadDecision, body: &[u8]) -> Vec<u8> {
    match decision {
        DownloadDecision::Append { .. } => [staged, body].concat(),
        DownloadDecision::Restart { .. } => body.to_vec(),
        DownloadDecision::Discard => Vec::new(),
        DownloadDecision::Complete | DownloadDecision::Fail { .. } => staged.to_vec(),
    }
}

#[test]
fn range_header_names_the_first_missing_byte() {
    assert_eq!(range_header(0), "bytes=0-");
    assert_eq!(range_header(5242880), "bytes=5242880-");
    assert_eq!(range_header(u64::MAX), "bytes=18446744073709551615-");
}

#[test]
fn a_partial_response_is_appended() {
    assert_eq!(
        on_response(100, head(206, Some(900), None)),
        DownloadDecision::Append { total: Some(1000) }
    );
    assert_eq!(on_response(100, head(206, None, None)), DownloadDecision::Append { total: None });
    assert_eq!(
        on_response(u64::MAX, head(206, Some(5), None)),
        DownloadDecision::Append { total: Some(u64::MAX) }
    );
}

#[test]
fn a_full_response_restarts_the_download() {
    assert_eq!(on_response(100, head(200, Some(1000), None)), DownloadDecision::Restart { total: Some(1000) });
    assert_eq!(on_response(0, head(200, None, None)), DownloadDecision::Restart { total: None });
}

#[test]
fn a_staging_file_larger_than_the_artifact_restarts_the_download() {
    assert_eq!(on_response(2000, head(416, None, Some(1000))), DownloadDecision::Discard);
    assert_eq!(on_response(2000, head(416, Some(0), None)), DownloadDecision::Discard);
    assert_eq!(on_response(2000, head(200, Some(1000), None)), DownloadDecision::Restart { total: Some(1000) });
}

#[test]
fn a_complete_staging_file_is_kept() {
    assert_eq!(on_response(1000, head(416, None, Some(1000))), DownloadDecision::Complete);
}

#[test]
fn other_statuses_fail_with_the_status() {
    assert_eq!(on_response(0, head(404, None, None)), DownloadDecision::Fail { status: 404 });
    assert_eq!(on_response(10, head(500, Some(3), None)), DownloadDecision::Fail { status: 500 });
    assert_eq!(on_response(0, head(416, None, None)), DownloadDecision::Fail { status: 416 });
    assert_eq!(on_response(0, head(301, None, None)), DownloadDecision::Fail { status: 301 });
    assert_eq!(on_response(0, head(199, None, None)), DownloadDecision::Fail { status: 199 });
    assert_eq!(on_response(0, head(300, None, None)), DownloadDecision::Fail { status: 300 });
}

#[test]
fn whole_object_responses() {
    assert_eq!(check_response(head(200, Some(7), None)), Ok(Some(7)));
    assert_eq!(check_response(head(204, None, None)), Ok(None));
    assert_eq!(check_response(head(299, None, None)), Ok(None));
    assert_eq!(check_response(head(404, Some(7), None)), Err(404));
    assert_eq!(check_response(head(503, None, None)), Err(503));
}

#[test]
fn a_resumed_download_ends_with_the_bytes_of_the_artifact() {
    let artifact: Vec<u8> = (0..10_000u32).map(|i| (i % 251) as u8).collect();
    for cut in [0usize, 1, 4096, 9_999] {
        let staged = &artifact[..cut];
        let rest = &artifact[cut..];
        let honoured = on_response(cut as u64, head(206, Some(rest.len() as u64), None));
        assert_eq!(apply(staged, honoured, rest), artifact);
        assert_eq!(honoured, DownloadDecision::Append { total: Some(artifact.len() as u64) });
        let ignored = on_response(cut as u64, head(200, Some(artifact.len() as u64), None));
        assert_eq!(apply(staged, ignored, &artifact), artifact);
    }
}

#[test]
fn the_total_length_of_a_content_range() {
    assert_eq!(total_length("bytes 100-999/1000"), Some(1000));
    assert_eq!(total_length("bytes */1000"), Some(1000));
    assert_eq!(total_length("bytes 0-0/1"), Some(1));
    assert_eq!(total_length("bytes 100-999/*"), None);
    assert_eq!(total_length("bytes 100-999"), None);
    assert_eq!(total_length("bytes 1/2/3"), Some(3));
    assert_eq!(total_length("/"), None);
    assert_eq!(total_length(""), None);
    assert_eq!(total_length("bytes */ 1000"), None);
}
