use paperback::update::ReleaseAsset;
use paperback::update::UpdateOutcome;
use paperback::update::UpdateStatus;
use paperback::update::VersionCheck;
use paperback::update::check_versions;
use paperback::update::evaluate_release;
use paperback::update::normalize_version_string;
use paperback::update::pick_download_url;
use paperback::update::sanitize_for_c;
use paperback::update::update_result_from_outcome;

fn assets() -> Vec<ReleaseAsset> {
    vec![
        ReleaseAsset {
            name: String::from("Paperback.ZIP"),
            browser_download_url: String::from("https://host/z"),
        },
        ReleaseAsset {
            name: String::from("paperback_setup.exe"),
            browser_download_url: String::from("https://host/s"),
        },
    ]
}

#[test]
fn test_pick_download_url_is_case_insensitive() {
    let assets = assets();
    assert_eq!(pick_download_url(false, &assets).as_deref(), Some("https://host/z"));
    assert_eq!(pick_download_url(true, &assets).as_deref(), Some("https://host/s"));
    assert_eq!(pick_download_url(true, &Vec::new()), None);
}

#[test]
fn test_normalize_version_string() {
    assert_eq!(normalize_version_string(" v1.2.3 "), "1.2.3");
    assert_eq!(normalize_version_string("V2.0.0"), "2.0.0");
    assert_eq!(normalize_version_string("3.1.4"), "3.1.4");
}

#[test]
fn test_check_versions() {
    assert_eq!(check_versions("1.0.0", "v2.0.0"), VersionCheck::Outdated);
    assert_eq!(check_versions("2.0.0", "v1.5.0"), VersionCheck::UpToDate);
    assert_eq!(check_versions("2.0.0", "2.0.0"), VersionCheck::UpToDate);
    assert_eq!(check_versions("garbage", "1.0.0"), VersionCheck::CurrentInvalid);
    assert_eq!(check_versions("1.0.0", "not-a-version"), VersionCheck::LatestInvalid);
    assert_eq!(check_versions("", "1.0.0"), VersionCheck::CurrentInvalid);
}

#[test]
fn test_evaluate_release_outcomes() {
    let up = evaluate_release(
        VersionCheck::UpToDate,
        String::from("v2.0.0"),
        None,
        Vec::new(),
        false,
    );
    assert!(matches!(up, UpdateOutcome::UpToDate { .. }));
    let available = evaluate_release(
        VersionCheck::Outdated,
        String::from("v2.0.0"),
        Some(String::from("notes")),
        assets(),
        false,
    );
    match available {
        UpdateOutcome::Available { latest_version, release_notes, download_url } => {
            assert_eq!(latest_version, "v2.0.0");
            assert_eq!(release_notes, "notes");
            assert_eq!(download_url, "https://host/z");
        },
        other => panic!("unexpected outcome: {:?}", other),
    }
    let none = evaluate_release(
        VersionCheck::Outdated,
        String::from("v2.0.0"),
        None,
        Vec::new(),
        false,
    );
    assert!(matches!(none, UpdateOutcome::NoDownload { .. }));
    let invalid = evaluate_release(
        VersionCheck::CurrentInvalid,
        String::from("v2.0.0"),
        None,
        Vec::new(),
        false,
    );
    assert!(matches!(invalid, UpdateOutcome::InvalidInput { .. }));
}

#[test]
fn test_update_result_shaping() {
    let r = update_result_from_outcome(UpdateOutcome::Available {
        latest_version: String::from("v9"),
        release_notes: String::from("n"),
        download_url: String::from("u"),
    });
    assert_eq!(r.status, UpdateStatus::Available);
    assert_eq!(r.latest_version, "v9");
    assert_eq!(r.download_url, "u");
    assert_eq!(r.release_notes, "n");
    assert_eq!(r.error_message, "");
    let r = update_result_from_outcome(UpdateOutcome::HttpError { status: 503 });
    assert_eq!(r.status, UpdateStatus::HttpError);
    assert_eq!(r.http_status, 503);
    assert_eq!(r.error_message, "GitHub returned HTTP status 503.");
    let r = update_result_from_outcome(UpdateOutcome::NetworkError {
        message: String::from("down"),
    });
    assert_eq!(r.status, UpdateStatus::NetworkError);
    assert_eq!(r.error_message, "down");
}

#[test]
fn test_sanitize_for_c() {
    assert_eq!(sanitize_for_c("a\0b"), "a b");
    assert_eq!(sanitize_for_c("clean"), "clean");
}
