use downzer::modes::{select_http_method, select_mode, web_unit_succeeded, HttpMethod, Mode, ModeResult};
use downzer::sound::{get_available_sounds, validate_custom_sound, SoundError};
use downzer::task::Stats;

#[test]
fn mode_names_in_any_case() {
    assert_eq!(select_mode("Download"), Some(Mode::Download));
    assert_eq!(select_mode("WEB"), Some(Mode::WebRequest));
    assert_eq!(select_mode("webrequest"), Some(Mode::WebRequest));
    assert_eq!(select_mode("Port"), Some(Mode::PortScan));
    assert_eq!(select_mode("smtp"), Some(Mode::Network));
    assert_eq!(select_mode("gopher"), None);
}

#[test]
fn method_defaults_to_get() {
    assert_eq!(select_http_method(None), Some(HttpMethod::Get));
    assert_eq!(select_http_method(Some("post")), Some(HttpMethod::Post));
    assert_eq!(select_http_method(Some("Options")), Some(HttpMethod::Options));
    assert_eq!(select_http_method(Some("FETCH")), None);
}

#[test]
fn web_pass_needs_success_status() {
    assert!(web_unit_succeeded(Some(200)));
    assert!(!web_unit_succeeded(Some(404)));
    assert!(!web_unit_succeeded(None));
}

#[test]
fn summaries() {
    let stats = Stats { downloaded: 3, total_bytes: 9, ignored: 1, errors: 2, not_found: 4 };
    let d = ModeResult::for_download(10, &stats, None);
    assert_eq!((d.mode.as_str(), d.total, d.successful, d.failed), ("download", 10, 3, 6));
    let w = ModeResult::for_web(4, &vec![true, false, true, true], Some("x".to_string()));
    assert_eq!((w.mode.as_str(), w.total, w.successful, w.failed), ("webrequest", 4, 3, 1));
    assert_eq!(w.custom_data, Some("x".to_string()));
}

#[test]
fn built_in_sounds() {
    let sounds = get_available_sounds();
    assert_eq!(sounds.len(), 12);
    assert_eq!(sounds[0], "woodensaw");
    assert_eq!(sounds[11], "thuddry");
}

#[test]
fn custom_sound_checks() {
    assert_eq!(validate_custom_sound(true, "wav"), Ok(()));
    assert_eq!(validate_custom_sound(true, "FLAC"), Ok(()));
    assert_eq!(validate_custom_sound(true, "txt"), Err(SoundError::UnsupportedFormat("txt".to_string())));
    assert_eq!(validate_custom_sound(true, ""), Err(SoundError::UnsupportedFormat(String::new())));
    assert_eq!(validate_custom_sound(false, "wav"), Err(SoundError::NotFound));
}
