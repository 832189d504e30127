//! The menu-bar icon: its menu items, what choosing one does, the update
//! check dialogs and the icon image.
use vstd::prelude::*;
use vstd::string::*;
use crate::text::{chars_of, owned, push_char, str_eq};

verus! {

/// What choosing a menu item asks for.
pub enum MenuAction {
    /// Show and focus the main window.
    Show,
    /// Copy the last transcript to the clipboard.
    CopyLastTranscript,
    /// Show the main window and open the settings.
    OpenSettings,
    /// Check for a newer version.
    CheckForUpdates,
    /// Quit the application.
    Quit,
    /// Record from the input device with this name.
    SelectMicrophone(String),
    /// Nothing.
    Ignore,
}

/// The menu item that selects the microphone `device_name`.
pub fn microphone_item_id(device_name: &str) -> (r: String)
    ensures
        r@ == "mic_"@ + device_name@,
{
    let mut r = owned("mic_");
    r.append(device_name);
    r
}

/// Whether `s` begins with `prefix`.
pub open spec fn starts_with(s: Seq<char>, prefix: Seq<char>) -> bool {
    s.len() >= prefix.len() && s.take(prefix.len() as int) == prefix
}

/// What the menu item with identifier `id` does.
pub fn menu_action(id: &str) -> (r: MenuAction)
    ensures
        id@ == "show"@ ==> r is Show,
        id@ == "copy"@ ==> r is CopyLastTranscript,
        id@ == "settings"@ ==> r is OpenSettings,
        id@ == "update"@ ==> r is CheckForUpdates,
        id@ == "quit"@ ==> r is Quit,
        id@ != "show"@ && id@ != "copy"@ && id@ != "settings"@ && id@ != "update"@ && id@
            != "quit"@ ==> if starts_with(id@, "mic_"@) {
            r matches MenuAction::SelectMicrophone(name) && name@ == id@.skip(4)
        } else {
            r is Ignore
        },
{
    proof {
        reveal_strlit("show");
        reveal_strlit("copy");
        reveal_strlit("settings");
        reveal_strlit("update");
        reveal_strlit("quit");
        assert("show"@.len() == 4 && "copy"@.len() == 4 && "quit"@.len() == 4);
        assert("settings"@.len() == 8 && "update"@.len() == 6);
        assert("show"@[0] == 's' && "copy"@[0] == 'c' && "quit"@[0] == 'q');
    }
    if str_eq(id, "show") {
        return MenuAction::Show;
    } else if str_eq(id, "copy") {
        return MenuAction::CopyLastTranscript;
    } else if str_eq(id, "settings") {
        return MenuAction::OpenSettings;
    } else if str_eq(id, "update") {
        return MenuAction::CheckForUpdates;
    } else if str_eq(id, "quit") {
        return MenuAction::Quit;
    }
    proof {
        reveal_strlit("mic_");
    }
    let cs = chars_of(id);
    if cs.len() >= 4 && cs[0] == 'm' && cs[1] == 'i' && cs[2] == 'c' && cs[3] == '_' {
        assert(id@.take(4) =~= "mic_"@);
        let mut name = String::new();
        let mut i: usize = 4;
        while i < cs.len()
            invariant
                4 <= i <= cs.len(),
                cs@ == id@,
                name@ == id@.subrange(4, i as int),
            decreases cs.len() - i,
        {
            push_char(&mut name, cs[i]);
            assert(id@.subrange(4, i + 1) =~= id@.subrange(4, i as int).push(cs[i as int]));
            i = i + 1;
        }
        assert(id@.subrange(4, cs.len() as int) =~= id@.skip(4));
        MenuAction::SelectMicrophone(name)
    } else {
        assert(!starts_with(id@, "mic_"@) || (id@.take(4)[0] == 'm' && id@.take(4)[1] == 'i'
            && id@.take(4)[2] == 'c' && id@.take(4)[3] == '_'));
        MenuAction::Ignore
    }
}

/// Choosing the item made for a microphone selects that microphone.
pub proof fn lemma_microphone_item_selects(device_name: Seq<char>)
    ensures
        starts_with("mic_"@ + device_name, "mic_"@),
        ("mic_"@ + device_name).skip(4) == device_name,
        "mic_"@ + device_name != "show"@,
        "mic_"@ + device_name != "copy"@,
        "mic_"@ + device_name != "settings"@,
        "mic_"@ + device_name != "update"@,
        "mic_"@ + device_name != "quit"@,
{
    reveal_strlit("mic_");
    reveal_strlit("show");
    reveal_strlit("copy");
    reveal_strlit("settings");
    reveal_strlit("update");
    reveal_strlit("quit");
    let id = "mic_"@ + device_name;
    assert(id.take(4) =~= "mic_"@);
    assert(id.skip(4) =~= device_name);
    assert(id[0] == 'm');
    assert("show"@[0] == 's' && "copy"@[0] == 'c' && "settings"@[0] == 's');
    assert("update"@[0] == 'u' && "quit"@[0] == 'q');
}

/// What an update check found.
pub enum UpdateCheck {
    /// A newer version is available.
    Available(String),
    /// The installed version is the latest.
    UpToDate,
    /// The check failed with this message.
    CheckFailed(String),
    /// The updater could not start, with this message.
    UpdaterUnavailable(String),
}

/// A dialog to show: its title, its message and whether it reports an error.
pub struct DialogMessage {
    pub title: String,
    pub message: String,
    pub is_error: bool,
}

/// The dialog that reports the outcome of an update check.
pub fn update_dialog(outcome: UpdateCheck) -> (d: DialogMessage)
    ensures
        match outcome {
            UpdateCheck::Available(v) => d.title@ == "Update Available"@ && d.message@ == "Version "@
                + v@ + " is available."@ && !d.is_error,
            UpdateCheck::UpToDate => d.title@ == "No Updates"@ && d.message@
                == "You are on the latest version."@ && !d.is_error,
            UpdateCheck::CheckFailed(e) => d.title@ == "Update Check Failed"@ && d.message@
                == "Error: "@ + e@ && d.is_error,
            UpdateCheck::UpdaterUnavailable(e) => d.title@ == "Updater Error"@ && d.message@
                == "Failed to initialize updater: "@ + e@ && d.is_error,
        },
{
    match outcome {
        UpdateCheck::Available(v) => {
            let mut message = owned("Version ");
            message.append(v.as_str());
            message.append(" is available.");
            DialogMessage { title: owned("Update Available"), message, is_error: false }
        },
        UpdateCheck::UpToDate => DialogMessage {
            title: owned("No Updates"),
            message: owned("You are on the latest version."),
            is_error: false,
        },
        UpdateCheck::CheckFailed(e) => {
            let mut message = owned("Error: ");
            message.append(e.as_str());
            DialogMessage { title: owned("Update Check Failed"), message, is_error: true }
        },
        UpdateCheck::UpdaterUnavailable(e) => {
            let mut message = owned("Failed to initialize updater: ");
            message.append(e.as_str());
            DialogMessage { title: owned("Updater Error"), message, is_error: true }
        },
    }
}

/// What `image::load_from_memory` followed by `to_rgba8` makes of encoded
/// image bytes: the RGBA pixel buffer with its width and height, or nothing
/// when the bytes do not decode.
pub uninterp spec fn decoded_rgba(bytes: Seq<u8>) -> Option<(Seq<u8>, u32, u32)>;

/// `image::load_from_memory` (format guessed from the bytes), the result
/// converted by `to_rgba8` into its raw buffer and dimensions. The buffer
/// of an `ImageBuffer` holds at least four bytes per pixel.
#[verifier::external_body]
fn load_rgba(bytes: &[u8]) -> (r: Option<(Vec<u8>, u32, u32)>)
    ensures
        match r {
            Some((pixels, w, h)) => decoded_rgba(bytes@) == Some((pixels@, w, h)) && pixels@.len()
                >= 4 * w * h,
            None => decoded_rgba(bytes@) is None,
        },
{
    match image::load_from_memory(bytes) {
        Ok(img) => {
            let rgba = img.to_rgba8();
            let (w, h) = rgba.dimensions();
            Some((rgba.into_raw(), w, h))
        },
        Err(_) => None,
    }
}

/// An RGBA image for the menu-bar icon.
pub struct IconImage {
    pub rgba: Vec<u8>,
    pub width: u32,
    pub height: u32,
}

/// Decodes the menu-bar icon from its encoded bytes.
pub fn tray_icon(bytes: &[u8]) -> (r: Option<IconImage>)
    ensures
        match r {
            Some(icon) => decoded_rgba(bytes@) == Some((icon.rgba@, icon.width, icon.height))
                && icon.rgba@.len() >= 4 * icon.width * icon.height,
            None => decoded_rgba(bytes@) is None,
        },
{
    match load_rgba(bytes) {
        Some((rgba, width, height)) => Some(IconImage { rgba, width, height }),
        None => None,
    }
}

} // verus!
