//! The decisions of the screenshot action: which files are images, which
//! image is the newest, when a watched image counts as new, and what the
//! action sends when no instruction was spoken.
use vstd::prelude::*;
use crate::text::{
    chars_of, find, find_chars, find_from, is_blank, lowercase, matches_at, push_str, replace_all, replace_chars, slice_range,
    str_eq, str_to_string, string_of, to_lowercase, trim,
};
use crate::actions::DEFAULT_QUICK_TAP_THRESHOLD_MS;
use crate::settings::{NativeRegionCaptureMode, ScreenshotCaptureMethod};

verus! {

/// The position of the last `c` in `s`, or -1.
pub open spec fn last_index_of(s: Seq<char>, c: char) -> int
    decreases s.len(),
{
    if s.len() == 0 {
        -1
    } else if s.last() == c {
        s.len() - 1
    } else {
        last_index_of(s.drop_last(), c)
    }
}

/// The extension of a file name: what follows its last dot, when that dot
/// is not the first character (`..` has none).
pub open spec fn file_extension(name: Seq<char>) -> Option<Seq<char>> {
    let i = last_index_of(name, '.');
    if name == ".."@ || i <= 0 {
        None
    } else {
        Some(name.skip(i + 1))
    }
}

/// The extensions, in lower case, that the action takes for images.
pub open spec fn image_extension(e: Seq<char>) -> bool {
    e == "png"@ || e == "jpg"@ || e == "jpeg"@ || e == "gif"@ || e == "webp"@ || e == "bmp"@
}

/// A file name is an image's when its extension, lowercased, is one of the
/// image extensions.
pub open spec fn is_image_name(name: Seq<char>) -> bool {
    match file_extension(name) {
        Some(e) => image_extension(lowercase(e)),
        None => false,
    }
}

proof fn lemma_last_index(s: Seq<char>, c: char, i: int)
    requires
        -1 <= i < s.len(),
        forall|j: int| i < j < s.len() ==> #[trigger] s[j] != c,
        i >= 0 ==> s[i] == c,
    ensures
        last_index_of(s, c) == i,
    decreases s.len(),
{
    if s.len() > 0 && i < s.len() - 1 {
        let d = s.drop_last();
        assert forall|j: int| i < j < d.len() implies #[trigger] d[j] != c by {
            assert(d[j] == s[j]);
        }
        if i >= 0 {
            assert(d[i] == s[i]);
        }
        lemma_last_index(d, c, i);
    }
}

/// The extension of a file name.
pub fn file_extension_of(name: &str) -> (r: Option<String>)
    ensures
        match r {
            Some(e) => file_extension(name@) == Some(e@),
            None => file_extension(name@) is None,
        },
{
    let v = chars_of(name);
    if str_eq(name, "..") {
        return None;
    }
    let mut i: usize = v.len();
    while i > 0
        invariant
            0 <= i <= v.len(),
            v@ == name@,
            name@ != ".."@,
            forall|j: int| i <= j < v.len() ==> #[trigger] v@[j] != '.',
        decreases i,
    {
        if v[i - 1] == '.' {
            proof {
                lemma_last_index(name@, '.', i - 1);
            }
            if i - 1 == 0 {
                return None;
            }
            let ext = crate::text::slice_range(v.as_slice(), i, v.len());
            assert(ext@ =~= name@.skip(i as int));
            return Some(string_of(ext.as_slice()));
        }
        i = i - 1;
    }
    proof {
        lemma_last_index(name@, '.', -1);
    }
    None
}

fn image_extension_exec(e: &str) -> (r: bool)
    ensures
        r == image_extension(e@),
{
    str_eq(e, "png") || str_eq(e, "jpg") || str_eq(e, "jpeg") || str_eq(e, "gif") || str_eq(e, "webp")
        || str_eq(e, "bmp")
}

/// Whether a file name is an image's.
pub fn is_image_file_name(name: &str) -> (r: bool)
    ensures
        r == is_image_name(name@),
{
    match file_extension_of(name) {
        Some(e) => {
            let l = to_lowercase(e.as_str());
            image_extension_exec(l.as_str())
        },
        None => false,
    }
}

/// The newest of the images found, by modification time: the first of
/// those with the latest time (a later one replaces it only when strictly
/// newer).
pub fn newest_index(modified: &Vec<u128>) -> (r: Option<usize>)
    ensures
        modified@.len() == 0 ==> r is None,
        modified@.len() > 0 ==> (r matches Some(i) && i < modified@.len() && (forall|j: int|
            0 <= j < modified@.len() ==> #[trigger] modified@[j] <= modified@[i as int]) && (forall|j: int|
            0 <= j < i ==> #[trigger] modified@[j] < modified@[i as int])),
{
    if modified.len() == 0 {
        return None;
    }
    let mut best: usize = 0;
    let mut i: usize = 1;
    while i < modified.len()
        invariant
            1 <= i <= modified.len(),
            best < i,
            forall|j: int| 0 <= j < i ==> #[trigger] modified@[j] <= modified@[best as int],
            forall|j: int| 0 <= j < best ==> #[trigger] modified@[j] < modified@[best as int],
        decreases modified.len() - i,
    {
        if modified[i] > modified[best] {
            best = i;
        }
        i = i + 1;
    }
    Some(best)
}

/// An image counts as new when it was not there before the capture and was
/// written after the capture started.
pub open spec fn is_new_image(known_old: bool, modified_after_start: bool) -> bool {
    !known_old && modified_after_start
}

/// What happened while waiting for the screenshot.
pub enum WatchEvent {
    /// The time ran out; `newest_found` says whether the folder holds an
    /// image at all (looked up only when falling back is allowed).
    Deadline { newest_found: bool },
    /// The watcher reported an image file.
    Reported { exists: bool, known_old: bool, modified_after_start: bool },
    /// Half a second passed quietly; the newest image of the folder, if
    /// any, as (known before, written after the start).
    Quiet { newest: Option<(bool, bool)> },
    /// The watcher stopped.
    Disconnected,
}

/// What to do next while waiting for the screenshot.
pub enum WatchStep {
    /// Send the reported image.
    TakeReported,
    /// Send the newest image of the folder.
    TakeNewest,
    /// Keep waiting.
    Wait,
    /// Give up with this error.
    Fail(String),
}

/// The decision of one round of the wait for a new screenshot.
pub fn watch_step(event: WatchEvent, allow_fallback_to_old: bool) -> (r: WatchStep)
    ensures
        match event {
            WatchEvent::Deadline { newest_found } => if allow_fallback_to_old && newest_found {
                r is TakeNewest
            } else {
                r is Fail && r->Fail_0@ == "Screenshot timeout: no new image detected"@
            },
            WatchEvent::Reported { exists, known_old, modified_after_start } => if exists && is_new_image(
                known_old,
                modified_after_start,
            ) {
                r is TakeReported
            } else {
                r is Wait
            },
            WatchEvent::Quiet { newest } => match newest {
                Some(n) => if is_new_image(n.0, n.1) {
                    r is TakeNewest
                } else {
                    r is Wait
                },
                None => r is Wait,
            },
            WatchEvent::Disconnected => r is Fail && r->Fail_0@ == "File watcher disconnected"@,
        },
{
    match event {
        WatchEvent::Deadline { newest_found } => {
            if allow_fallback_to_old && newest_found {
                WatchStep::TakeNewest
            } else {
                WatchStep::Fail(str_to_string("Screenshot timeout: no new image detected"))
            }
        },
        WatchEvent::Reported { exists, known_old, modified_after_start } => {
            if exists && !known_old && modified_after_start {
                WatchStep::TakeReported
            } else {
                WatchStep::Wait
            }
        },
        WatchEvent::Quiet { newest } => match newest {
            Some((known_old, modified_after_start)) => {
                if !known_old && modified_after_start {
                    WatchStep::TakeNewest
                } else {
                    WatchStep::Wait
                }
            },
            None => WatchStep::Wait,
        },
        WatchEvent::Disconnected => WatchStep::Fail(str_to_string("File watcher disconnected")),
    }
}

/// The error for an unusable screenshot folder, if any.
pub fn screenshot_folder_error(exists: bool, is_dir: bool, folder: &str) -> (r: Option<String>)
    ensures
        !exists ==> (r matches Some(e) && e@ == "Screenshot folder not found: "@ + folder@),
        exists && !is_dir ==> (r matches Some(e) && e@ == "Screenshot path is not a folder: "@ + folder@),
        exists && is_dir ==> r is None,
{
    if !exists {
        let mut v = chars_of("Screenshot folder not found: ");
        push_str(&mut v, folder);
        return Some(string_of(v.as_slice()));
    }
    if !is_dir {
        let mut v = chars_of("Screenshot path is not a folder: ");
        push_str(&mut v, folder);
        return Some(string_of(v.as_slice()));
    }
    None
}

/// The instruction sent with a screenshot: the spoken one, or the default
/// prompt when nothing was said and that is allowed.
pub fn screenshot_instruction(voice_text: String, allow_no_voice: bool, default_prompt: &str) -> (r: String)
    ensures
        r@ == if trim(voice_text@).len() == 0 && allow_no_voice {
            default_prompt@
        } else {
            voice_text@
        },
{
    if is_blank(voice_text.as_str()) && allow_no_voice {
        str_to_string(default_prompt)
    } else {
        voice_text
    }
}


/// Where `find_from` finds `p`, `p` is there.
proof fn lemma_found_fits(h: Seq<char>, p: Seq<char>, k: int)
    requires
        find_from(h, p, k) is Some,
    ensures
        0 <= find_from(h, p, k)->0,
        find_from(h, p, k)->0 + p.len() <= h.len(),
    decreases h.len() + 1 - k,
{
    if !(k < 0 || k + p.len() > h.len()) && !matches_at(h, p, k) {
        lemma_found_fits(h, p, k + 1);
    }
}

/// The name of the first `%NAME%` of a path: the text between its first
/// `%` and the next one; none without a closing `%`.
pub open spec fn next_env_var(path: Seq<char>) -> Option<Seq<char>> {
    match find(path, seq!['%']) {
        None => None,
        Some(start) => match find(path.skip(start + 1), seq!['%']) {
            None => None,
            Some(end) => Some(path.subrange(start + 1, start + 1 + end)),
        },
    }
}

/// The variable a path asks for next, if any (the name between its first
/// two `%`).
pub fn next_env_var_name(path: &str) -> (r: Option<String>)
    ensures
        match r {
            Some(n) => next_env_var(path@) == Some(n@),
            None => next_env_var(path@) is None,
        },
{
    let v = chars_of(path);
    let mut pct: Vec<char> = Vec::new();
    pct.push('%');
    assert(pct@ =~= seq!['%']);
    let start = match find_chars(v.as_slice(), pct.as_slice()) {
        None => return None,
        Some(s) => s,
    };
    proof {
        assert(find(v@, pct@) == Some(start as int));
        lemma_found_fits(v@, pct@, 0);
        assert(start + 1 <= v@.len());
    }
    let n = v.len();
    let tail = slice_range(v.as_slice(), start + 1, n);
    assert(tail@ =~= path@.skip(start + 1));
    let end = match find_chars(tail.as_slice(), pct.as_slice()) {
        None => return None,
        Some(e) => e,
    };
    proof {
        lemma_found_fits(tail@, pct@, 0);
    }
    let name = slice_range(v.as_slice(), start + 1, start + 1 + end);
    Some(string_of(name.as_slice()))
}

/// `path` with every `%name%` replaced by `value`.
pub open spec fn with_env_var(path: Seq<char>, name: Seq<char>, value: Seq<char>) -> Seq<char> {
    replace_all(path, seq!['%'] + name + seq!['%'], value)
}

/// Puts a variable's value in place of every `%name%` of a path.
pub fn substitute_env_var(path: &str, name: &str, value: &str) -> (r: String)
    ensures
        r@ == with_env_var(path@, name@, value@),
{
    let mut pat: Vec<char> = Vec::new();
    pat.push('%');
    push_str(&mut pat, name);
    pat.push('%');
    assert(pat@ =~= seq!['%'] + name@ + seq!['%']);
    let v = chars_of(path);
    let val = chars_of(value);
    let out = replace_chars(v.as_slice(), pat.as_slice(), val.as_slice());
    string_of(out.as_slice())
}


/// The settings of the screenshot action.
pub struct ScreenshotSettings {
    pub capture_method: ScreenshotCaptureMethod,
    pub native_region_capture_mode: NativeRegionCaptureMode,
    /// The command line of the external capture program.
    pub capture_command: String,
    /// The folder watched for new images.
    pub folder: String,
    /// Only images written after the action started count.
    pub require_recent: bool,
    pub timeout_seconds: u32,
    pub include_subfolders: bool,
    /// A screenshot may be sent without a spoken instruction.
    pub allow_no_voice: bool,
    pub quick_tap_threshold_ms: u32,
    /// The instruction sent when nothing was said.
    pub no_voice_default_prompt: String,
}

/// The folder watched by default: ShareX's screenshots folder under the
/// user's profile directory, or relative to the working directory when the
/// profile directory is unknown.
pub open spec fn default_folder(user_profile: Option<Seq<char>>) -> Seq<char> {
    match user_profile {
        Some(home) => home + "\\Documents\\ShareX\\Screenshots"@,
        None => "Documents\\ShareX\\Screenshots"@,
    }
}

/// The folder watched by default, given the user's profile directory.
pub fn default_screenshot_folder(user_profile: Option<&str>) -> (r: String)
    ensures
        r@ == default_folder(match user_profile {
            Some(h) => Some(h@),
            None => None,
        }),
{
    match user_profile {
        Some(home) => {
            let mut v = chars_of(home);
            push_str(&mut v, "\\Documents\\ShareX\\Screenshots");
            string_of(v.as_slice())
        },
        None => str_to_string("Documents\\ShareX\\Screenshots"),
    }
}

/// The settings at start: native capture over the live desktop, ShareX's
/// folder watched with its subfolders for images newer than the action,
/// five seconds to wait, and a spoken instruction optional.
pub fn default_screenshot_settings(user_profile: Option<&str>) -> (r: ScreenshotSettings)
    ensures
        r.capture_method == ScreenshotCaptureMethod::Native,
        r.native_region_capture_mode == NativeRegionCaptureMode::LiveDesktop,
        r.capture_command@ == "& \"C:\\Program Files\\ShareX\\ShareX.exe\" -RectangleRegion"@,
        r.folder@ == default_folder(match user_profile {
            Some(h) => Some(h@),
            None => None,
        }),
        r.require_recent,
        r.timeout_seconds == 5,
        r.include_subfolders,
        r.allow_no_voice,
        r.quick_tap_threshold_ms == DEFAULT_QUICK_TAP_THRESHOLD_MS,
        r.no_voice_default_prompt@ == "Look at this picture and provide a helpful response."@,
{
    ScreenshotSettings {
        capture_method: ScreenshotCaptureMethod::Native,
        native_region_capture_mode: NativeRegionCaptureMode::LiveDesktop,
        capture_command: str_to_string("& \"C:\\Program Files\\ShareX\\ShareX.exe\" -RectangleRegion"),
        folder: default_screenshot_folder(user_profile),
        require_recent: true,
        timeout_seconds: 5,
        include_subfolders: true,
        allow_no_voice: true,
        quick_tap_threshold_ms: DEFAULT_QUICK_TAP_THRESHOLD_MS,
        no_voice_default_prompt: str_to_string("Look at this picture and provide a helpful response."),
    }
}

} // verus!
