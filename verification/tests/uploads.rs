//! Uploads: files, bundles, parts, repetitions and errors.
use gaffer::multipart::{MultipartAction, MultipartEvent, MultipartUpload};
use gaffer::transfer::{
    assemble_parts, backoff_delay, bad_response_error, decide, empty_response_error,
    parse_error_body, part_range, plan_upload, server_error_from_response, summarize,
    transport_error, unreadable_body_error, uploaded_part, Attempt, Decision,
    ServerUploadResponse, SessionRef, UploadStep, UploadedPart,
};
use gaffer::upload::{
    content_type_for, enumerate_files, pack_small_bundles, Found, PathListing, UploadConfig,
    UploadError, UploadFile, MAX_MPU_BYTES, MAX_RETRIES, MPU_PART_CONCURRENCY,
    SMALL_BUNDLE_TOTAL_THRESHOLD, SMALL_FILE_THRESHOLD,
};

const MB: u64 = 1024 * 1024;

fn cfg() -> UploadConfig {
    UploadConfig {
        token: "gfr_test".to_string(),
        api_url: Some("http://localhost".to_string()),
        commit_sha: None,
        branch: None,
        test_framework: None,
        test_suite: None,
        timeout_secs: 30,
        max_file_size_mb: 100,
        debug: false,
    }
}

fn single(name: &str, size: u64) -> PathListing {
    PathListing::File { path: format!("/tmp/{}", name), name: Some(name.to_string()), size }
}

fn kind_of<T>(r: Result<T, UploadError>) -> &'static str {
    match r {
        Ok(_) => panic!("expected an error"),
        Err(e) => e.kind(),
    }
}

#[test]
fn content_type_for_infers_report_types() {
    assert_eq!(content_type_for("index.html"), "text/html");
    assert_eq!(content_type_for("report.htm"), "text/html");
    assert_eq!(content_type_for("junit.xml"), "application/xml");
    assert_eq!(content_type_for("results.trx"), "application/xml");
    assert_eq!(content_type_for("data.json"), "application/json");
    assert_eq!(content_type_for("lcov.info"), "text/plain");
}

#[test]
fn content_type_for_infers_html_report_assets() {
    assert_eq!(content_type_for("assets/index-X8b7Z_4p.css"), "text/css");
    assert_eq!(content_type_for("assets/index-D_ryMEPs.js"), "application/javascript");
    assert_eq!(content_type_for("trace/screenshot.png"), "image/png");
    assert_eq!(content_type_for("fonts/codicon.woff2"), "font/woff2");
    assert_eq!(content_type_for("data/retry1-video.webm"), "video/webm");
    assert_eq!(content_type_for("site.webmanifest"), "application/manifest+json");
}

#[test]
fn content_type_for_is_case_insensitive_and_uses_last_extension() {
    assert_eq!(content_type_for("REPORT.HTML"), "text/html");
    assert_eq!(content_type_for("html.meta.json.gz"), "application/gzip");
}

#[test]
fn content_type_for_falls_back_to_octet_stream() {
    assert_eq!(content_type_for("trace.bin"), "application/octet-stream");
    assert_eq!(content_type_for("Makefile"), "application/octet-stream");
}

#[test]
fn enumerate_single_file() {
    let files = enumerate_files(&vec![single("report.xml", 4)], 100).ok().unwrap();
    assert_eq!(files.len(), 1);
    assert_eq!(files[0].relative_path, "report.xml");
    assert_eq!(files[0].size, 4);
}

#[test]
fn enumerate_directory_preserves_relative_paths() {
    let listing = PathListing::Directory {
        path: "/tmp/d".to_string(),
        found: vec![
            Found::NotAFile,
            Found::File {
                path: "/tmp/d/a.xml".to_string(),
                relative: Some("a.xml".to_string()),
                name: Some("a.xml".to_string()),
                size: 1,
            },
            Found::NotAFile,
            Found::File {
                path: "/tmp/d/nested/b.json".to_string(),
                relative: Some("nested/b.json".to_string()),
                name: Some("b.json".to_string()),
                size: 1,
            },
        ],
    };
    let files = enumerate_files(&vec![listing], 100).ok().unwrap();
    assert_eq!(files.len(), 2);
    assert_eq!(files[0].relative_path, "a.xml");
    assert_eq!(files[1].relative_path, "nested/b.json");
    assert_eq!(files[1].absolute_path, "/tmp/d/nested/b.json");
}

#[test]
fn enumerate_rejects_oversized_file() {
    match enumerate_files(&vec![single("big.bin", 200 * 1024)], 0) {
        Err(UploadError::UserError { kind, .. }) => assert_eq!(kind, "file_too_large"),
        _ => panic!("expected user error"),
    }
}

#[test]
fn enumerate_stops_at_the_first_fault() {
    let missing =
        PathListing::Unreachable { path: "/x".to_string(), reason: "not found".to_string() };
    let e = enumerate_files(&vec![single("a", 1), missing], 100).err().unwrap();
    assert_eq!(e.kind(), "path_not_found");
    assert_eq!(e.message(), "Cannot access /x: not found");
    let other = PathListing::Other { path: "/dev/x".to_string() };
    assert_eq!(kind_of(enumerate_files(&vec![other], 100)), "path_unsupported");
    let broken = PathListing::Directory {
        path: "/d".to_string(),
        found: vec![Found::Broken { reason: "loop".to_string() }],
    };
    assert_eq!(kind_of(enumerate_files(&vec![broken], 100)), "path_walk_failed");
    let unreadable = PathListing::Directory {
        path: "/d".to_string(),
        found: vec![Found::Unreadable { path: "/d/a".to_string(), reason: "denied".to_string() }],
    };
    assert_eq!(kind_of(enumerate_files(&vec![unreadable], 100)), "path_walk_failed");
}

#[test]
fn tags_omits_unset_fields() {
    let mut c = cfg();
    c.commit_sha = Some("abc".to_string());
    let v = c.tags();
    assert_eq!(v["commitSha"], "abc");
    assert!(v.get("branch").is_none());
}

#[test]
fn tags_hold_what_is_set() {
    let mut c = cfg();
    c.branch = Some("main".to_string());
    c.test_framework = Some("playwright".to_string());
    c.test_suite = Some("e2e".to_string());
    let v = c.tags();
    assert_eq!(v["branch"], "main");
    assert_eq!(v.as_object().unwrap().len(), 3);
    assert_eq!(c.api_url(), "http://localhost");
    c.api_url = None;
    assert_eq!(c.api_url(), "https://app.gaffer.sh");
}

fn sized(size: u64) -> UploadFile {
    UploadFile { absolute_path: String::new(), relative_path: format!("f{}", size), size }
}

#[test]
fn pack_small_bundles_keeps_under_threshold() {
    let files = vec![sized(150 * MB), sized(150 * MB), sized(10 * MB)];
    let bundles = pack_small_bundles(files);
    assert!(bundles.iter().all(|b| {
        let sz: u64 = b.iter().map(|f| f.size).sum();
        sz < SMALL_BUNDLE_TOTAL_THRESHOLD
    }));
    assert_eq!(bundles.len(), 2);
}

#[test]
fn bundles_hold_every_file_once() {
    let sizes: Vec<u64> = (1..40).map(|i| (i * 7 % 89) * MB).collect();
    let bundles = pack_small_bundles(sizes.iter().map(|s| sized(*s)).collect());
    let mut packed: Vec<u64> = bundles.iter().flatten().map(|f| f.size).collect();
    packed.sort();
    let mut expected = sizes.clone();
    expected.sort();
    assert_eq!(packed, expected);
    assert_eq!(bundles[0][0].size, 88 * MB);
    assert!(bundles.iter().all(|b| !b.is_empty()));
    assert!(pack_small_bundles(vec![]).is_empty());
}

#[test]
fn upload_error_exit_codes() {
    assert_eq!(UploadError::user("k", "x").exit_code(), 1);
    assert_eq!(UploadError::server("k", "x").exit_code(), 2);
    assert_eq!(UploadError::unexpected("k", "x").exit_code(), 3);
}

#[test]
fn details_do_not_change_the_blame() {
    let e = UploadError::server("k", "x").with_status(500).with_session("s").with_ray("r");
    assert_eq!(e.exit_code(), 2);
    match e {
        UploadError::ServerError { status, upload_session_id, cf_ray_id, .. } => {
            assert_eq!(status, Some(500));
            assert_eq!(upload_session_id.as_deref(), Some("s"));
            assert_eq!(cf_ray_id.as_deref(), Some("r"));
        }
        _ => panic!("expected server error"),
    }
    let u = UploadError::user("k", "x").with_status(500);
    assert_eq!(u.exit_code(), 1);
    assert_eq!(u.message(), "x");
}

#[test]
fn small_uploads_take_one_request() {
    let plan = plan_upload("gfr_test", &vec![single("report.xml", 1024)], 100).ok().unwrap();
    assert_eq!(plan.total_files, 1);
    assert_eq!(plan.total_bytes, 1024);
    assert_eq!(plan.steps.len(), 1);
    assert!(matches!(&plan.steps[0], UploadStep::Bundle(files) if files.len() == 1));
}

#[test]
fn large_files_go_in_parts_and_the_rest_in_bundles() {
    let listings =
        vec![single("a.zip", 100 * MB), single("b.xml", 10), single("c.xml", 20 * MB)];
    let plan = plan_upload("t", &listings, 8 * 1024).ok().unwrap();
    assert_eq!(plan.total_files, 3);
    let mut bundled: Vec<u64> = Vec::new();
    let mut parted: Vec<u64> = Vec::new();
    for step in &plan.steps {
        match step {
            UploadStep::Bundle(files) => bundled.extend(files.iter().map(|f| f.size)),
            UploadStep::Multipart(file) => parted.push(file.size),
        }
    }
    assert_eq!(bundled, vec![20 * MB, 10]);
    assert_eq!(parted, vec![100 * MB]);
    assert!(parted[0] >= SMALL_FILE_THRESHOLD);
}

#[test]
fn uploads_are_refused_early() {
    assert_eq!(kind_of(plan_upload("", &vec![single("a", 1)], 100)), "missing_token");
    assert_eq!(kind_of(plan_upload("t", &vec![], 100)), "no_files");
    let huge = vec![single("a", MAX_MPU_BYTES + 1)];
    assert_eq!(kind_of(plan_upload("t", &huge, 10 * 1024)), "file_too_large");
    assert!(plan_upload("t", &vec![single("a", MAX_MPU_BYTES)], 10 * 1024).is_ok());
}

#[test]
fn parts_cover_the_file() {
    let total = 100 * MB;
    let mut covered = 0;
    for n in 1..=2 {
        let r = part_range(n, 50 * MB, total).ok().unwrap();
        assert_eq!(r.offset, covered);
        covered += r.len;
    }
    assert_eq!(covered, total);
    let last = part_range(3, 40 * MB, total).ok().unwrap();
    assert_eq!((last.offset, last.len), (80 * MB, 20 * MB));
    assert!(part_range(4, 40 * MB, total).is_err());
    assert!(part_range(u64::MAX, u64::MAX, 1).is_err());
}

#[test]
fn parts_are_handed_back_in_order() {
    let part = |n: u64| uploaded_part(n, &format!("etag-{}", n));
    let parts: Vec<UploadedPart> = vec![part(3), part(1), part(2)];
    let done = assemble_parts(parts, 3).ok().unwrap();
    let numbers: Vec<u32> = done.iter().map(|p| p.part_number).collect();
    assert_eq!(numbers, vec![1, 2, 3]);
    assert_eq!(done[1].etag, "etag-2");
    let e = assemble_parts(vec![part(1)], 2).err().unwrap();
    assert_eq!(e.kind(), "part_count_mismatch");
    assert_eq!(e.message(), "Expected 2 parts but collected 1 — refusing to /complete");
}

#[test]
fn only_server_and_network_failures_are_repeated() {
    assert!(matches!(decide(0, &Attempt::Answered(200)), Decision::Accept));
    assert!(matches!(decide(0, &Attempt::Answered(404)), Decision::GiveUp));
    assert!(matches!(decide(0, &Attempt::Answered(429)), Decision::GiveUp));
    assert!(matches!(
        decide(0, &Attempt::Answered(503)),
        Decision::Repeat { delay_ms } if delay_ms == 1000
    ));
    assert!(matches!(
        decide(2, &Attempt::Failed { retriable: true }),
        Decision::Repeat { delay_ms } if delay_ms == 4000
    ));
    assert!(matches!(decide(0, &Attempt::Failed { retriable: false }), Decision::GiveUp));
    assert!(matches!(decide(MAX_RETRIES, &Attempt::Answered(500)), Decision::GiveUp));
    assert_eq!(backoff_delay(1), 2000);
}

#[test]
fn error_bodies_are_read() {
    let (message, session) =
        parse_error_body(r#"{"statusMessage":"nope","data":{"uploadSessionId":"s1"}}"#);
    assert_eq!(message, "nope");
    assert_eq!(session.as_deref(), Some("s1"));
    let (message, session) = parse_error_body(r#"{"message":"m","uploadSessionId":"s2"}"#);
    assert_eq!(message, "m");
    assert_eq!(session.as_deref(), Some("s2"));
    let (message, session) = parse_error_body("plain text");
    assert_eq!(message, "plain text");
    assert_eq!(session, None);
}

#[test]
fn refusals_carry_their_details() {
    let body = r#"{"statusMessage":"too many","data":{"uploadSessionId":"s1"}}"#;
    let e = server_error_from_response("Upload", 503, &Some("ray-1".to_string()), body);
    assert_eq!(e.exit_code(), 2);
    assert!(e.message().contains("503"));
    assert!(e.message().contains("too many"));
    match e {
        UploadError::ServerError { status, upload_session_id, cf_ray_id, .. } => {
            assert_eq!(status, Some(503));
            assert_eq!(upload_session_id.as_deref(), Some("s1"));
            assert_eq!(cf_ray_id.as_deref(), Some("ray-1"));
        }
        _ => panic!("expected server error"),
    }
    let refused = server_error_from_response("Upload", 401, &None, "who are you");
    assert!(refused.message().contains("who are you"));
}

#[test]
fn transport_failures_are_told_apart() {
    let built = transport_error(true, "bad url");
    assert_eq!((built.kind(), built.exit_code()), ("request_build", 3));
    let network = transport_error(false, "refused");
    assert_eq!((network.kind(), network.exit_code()), ("network", 2));
    assert_eq!(network.message(), "HTTP request failed: refused");
}

#[test]
fn empty_answers_are_errors() {
    assert_eq!(empty_response_error(200, " \n").unwrap().kind(), "empty_response");
    assert!(empty_response_error(200, "{}").is_none());
    let bad = bad_response_error("expected value", "<html>");
    assert_eq!((bad.kind(), bad.exit_code()), ("bad_response", 3));
    assert_eq!(bad.message(), "Server returned unparseable JSON: expected value (body: <html>)");
    assert_eq!(unreadable_body_error(200, "reset").message(), "Failed to read response body: reset");
}

#[test]
fn the_first_answer_names_the_session() {
    let answer = |id: &str| ServerUploadResponse {
        upload_session: SessionRef {
            id: id.to_string(),
            project_id: Some("proj_abc".to_string()),
            processing_status: None,
        },
        test_run: None,
    };
    let outcome = summarize(vec![answer("upl_small"), answer("other")], 1, 1024, 7);
    assert_eq!(outcome.upload_session_id, "upl_small");
    assert_eq!(outcome.project_id.as_deref(), Some("proj_abc"));
    assert_eq!(outcome.responses.len(), 2);
    assert_eq!(outcome.files_uploaded, 1);
    assert_eq!(summarize(vec![], 0, 0, 0).upload_session_id, "");
}

/// Runs an upload in parts. The parts in `refused` fail, and the server refuses to put the parts
/// together where `complete` is false. Gives the result, how many parts were on their way at most,
/// and how often the upload was called off.
fn run_parts(num_parts: u64, refused: &[u64], complete: bool) -> (MultipartUpload, bool, usize, u32) {
    let mut upload = MultipartUpload::begin("upl_mpu", num_parts);
    let mut waiting: Vec<u64> = Vec::new();
    let mut most = 0;
    let mut aborted = 0;
    loop {
        match upload.action() {
            MultipartAction::Start(number) => {
                waiting.push(number);
                most = most.max(waiting.len());
                upload.record(MultipartEvent::Started);
            }
            MultipartAction::Wait => {
                let number = waiting.pop().unwrap();
                upload.record(if refused.contains(&number) {
                    MultipartEvent::PartFailed {
                        number,
                        error: UploadError::server("server_error", &format!("part {}", number)),
                    }
                } else {
                    MultipartEvent::PartAccepted { number, etag: format!("etag-{}", number) }
                });
            }
            MultipartAction::Complete => {
                let parts = upload.parts_in_order().ok().unwrap();
                let numbers: Vec<u64> = parts.iter().map(|p| p.part_number as u64).collect();
                assert_eq!(numbers, (1..=num_parts).collect::<Vec<u64>>());
                assert!(parts.iter().all(|p| p.etag == format!("etag-{}", p.part_number)));
                upload.record(if complete {
                    MultipartEvent::CompleteAccepted
                } else {
                    MultipartEvent::CompleteFailed(UploadError::server("server_error", "complete"))
                });
            }
            MultipartAction::Abort => {
                aborted += 1;
                upload.record(MultipartEvent::Aborted);
            }
            MultipartAction::Succeed => return (upload, true, most, aborted),
            MultipartAction::Fail => return (upload, false, most, aborted),
        }
    }
}

#[test]
fn parts_are_sent_a_few_at_a_time() {
    let (upload, arrived, most, aborted) = run_parts(20, &[], true);
    assert!(arrived);
    assert_eq!(most, MPU_PART_CONCURRENCY);
    assert_eq!(aborted, 0);
    assert!(upload.into_failure().is_none());
    assert!(run_parts(0, &[], true).1);
}

#[test]
fn a_refused_part_calls_the_upload_off() {
    let (upload, arrived, most, aborted) = run_parts(12, &[5, 9], true);
    assert!(!arrived);
    assert!(most <= MPU_PART_CONCURRENCY);
    assert_eq!(aborted, 1);
    match upload.into_failure() {
        Some(UploadError::ServerError { upload_session_id, message, .. }) => {
            assert_eq!(upload_session_id.as_deref(), Some("upl_mpu"));
            assert_eq!(message, "part 9");
        }
        _ => panic!("expected server error"),
    }
}

#[test]
fn a_refused_completion_calls_the_upload_off() {
    let (upload, arrived, _, aborted) = run_parts(2, &[], false);
    assert!(!arrived);
    assert_eq!(aborted, 1);
    assert_eq!(upload.into_failure().unwrap().message(), "complete");
}

#[test]
fn unexpected_events_change_nothing() {
    let mut upload = MultipartUpload::begin("s", 1);
    upload.record(MultipartEvent::Aborted);
    upload.record(MultipartEvent::CompleteAccepted);
    upload.record(MultipartEvent::PartAccepted { number: 1, etag: "e".to_string() });
    assert!(matches!(upload.action(), MultipartAction::Start(1)));
    assert_eq!(kind_of(upload.parts_in_order()), "part_count_mismatch");
}

#[test]
fn addresses_lie_below_the_dashboard() {
    let mut c = cfg();
    c.api_url = Some("http://h//".to_string());
    assert_eq!(c.endpoint("/api/upload"), "http://h/api/upload");
    c.api_url = None;
    assert_eq!(c.endpoint("/api/upload"), "https://app.gaffer.sh/api/upload");
}
