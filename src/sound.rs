//! Notification sounds: the built-in names and the check of a custom file.
use vstd::prelude::*;

use crate::text::{lowercase_str, lowercased, str_eq};

verus! {

/// The built-in notification sounds.
#[derive(Debug, Clone, PartialEq, Eq, Structural)]
pub enum SoundType {
    Woodensaw,
    ChatMessage,
    Tutick,
    Click,
    Tap,
    Tap2,
    Coin,
    Stepsand,
    Glass,
    Signal,
    Complete,
    Thuddry,
}

/// The names of the built-in sounds, in menu order.
pub open spec fn sound_names() -> Seq<Seq<char>> {
    seq![
        "woodensaw"@,
        "chatmessage"@,
        "tutick"@,
        "click"@,
        "tap"@,
        "tap2"@,
        "coin"@,
        "stepsand"@,
        "glass"@,
        "signal"@,
        "complete"@,
        "thuddry"@,
    ]
}

pub fn get_available_sounds() -> (r: Vec<String>)
    ensures
        r@.map_values(|s: String| s@) == sound_names(),
{
    let mut r: Vec<String> = Vec::new();
    r.push(String::from_str("woodensaw"));
    r.push(String::from_str("chatmessage"));
    r.push(String::from_str("tutick"));
    r.push(String::from_str("click"));
    r.push(String::from_str("tap"));
    r.push(String::from_str("tap2"));
    r.push(String::from_str("coin"));
    r.push(String::from_str("stepsand"));
    r.push(String::from_str("glass"));
    r.push(String::from_str("signal"));
    r.push(String::from_str("complete"));
    r.push(String::from_str("thuddry"));
    assert(r@.map_values(|s: String| s@) =~= sound_names());
    r
}

/// Why a custom sound file is refused.
#[derive(Debug, Clone, PartialEq, Eq)]
pub enum SoundError {
    /// No file at the path.
    NotFound,
    /// The extension is not one of the supported audio formats; it is kept.
    UnsupportedFormat(String),
}

/// Whether a lowercased extension names a supported audio format.
pub open spec fn is_audio_extension(ext: Seq<char>) -> bool {
    ext == "wav"@ || ext == "mp3"@ || ext == "ogg"@ || ext == "flac"@ || ext == "m4a"@
}

/// Whether a lowercased extension names a supported audio format.
pub fn audio_extension_supported(ext: &str) -> (r: bool)
    ensures
        r == is_audio_extension(ext@),
{
    str_eq(ext, "wav") || str_eq(ext, "mp3") || str_eq(ext, "ogg") || str_eq(ext, "flac")
        || str_eq(ext, "m4a")
}

/// Checks a custom sound file from whether it exists and from its extension
/// (empty when it has none): a missing file is refused first, then an
/// extension that is not a supported format in any letter case.
pub fn validate_custom_sound(exists: bool, ext: &str) -> (r: Result<(), SoundError>)
    ensures
        !exists ==> r == Err::<(), SoundError>(SoundError::NotFound),
        exists && is_audio_extension(lowercased(ext@)) ==> r is Ok,
        exists && !is_audio_extension(lowercased(ext@)) ==> (r matches Err(
            SoundError::UnsupportedFormat(e),
        ) && e@ == ext@),
{
    if !exists {
        return Err(SoundError::NotFound);
    }
    let lowered = lowercase_str(ext);
    if audio_extension_supported(lowered.as_str()) {
        Ok(())
    } else {
        Err(SoundError::UnsupportedFormat(String::from_str(ext)))
    }
}

} // verus!
