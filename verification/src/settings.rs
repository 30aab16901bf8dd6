//! Application settings, their validation, the texts written to enable
//! launch at login, and how the virtual camera's state is reported.
use vstd::prelude::*;

use crate::text::{
    append_str, chars_of, contains_seq, is_control, is_control_char, lowercase, string_from_chars,
    to_lowercase, trim, trimmed, utf8_lossy, utf8_lossy_of,
};

verus! {

/// The colour scheme of the user interface.
#[derive(Debug, Clone, Copy, PartialEq, Eq, Structural)]
pub enum Appearance {
    Dark,
    Light,
    System,
}

/// The capture resolution the user asks for.
#[derive(Debug, Clone, Copy, PartialEq, Eq, Structural)]
pub enum PreferredQuality {
    Automatic,
    Hd,
    FullHd,
    UltraHd,
}

/// What the virtual camera shows while its source camera is gone.
#[derive(Debug, Clone, Copy, PartialEq, Eq, Structural)]
pub enum DisconnectBehavior {
    BlackFrame,
    FreezeLastFrame,
    TestPattern,
}

/// Whether video work may use hardware acceleration.
#[derive(Debug, Clone, Copy, PartialEq, Eq, Structural)]
pub enum HardwareAcceleration {
    Automatic,
    Enabled,
    Disabled,
}

impl Default for Appearance {
    fn default() -> (r: Self)
        ensures
            r == Appearance::System,
    {
        Appearance::System
    }
}

impl Default for PreferredQuality {
    fn default() -> (r: Self)
        ensures
            r == PreferredQuality::Automatic,
    {
        PreferredQuality::Automatic
    }
}

impl Default for DisconnectBehavior {
    fn default() -> (r: Self)
        ensures
            r == DisconnectBehavior::BlackFrame,
    {
        DisconnectBehavior::BlackFrame
    }
}

impl Default for HardwareAcceleration {
    fn default() -> (r: Self)
        ensures
            r == HardwareAcceleration::Automatic,
    {
        HardwareAcceleration::Automatic
    }
}

/// The longest virtual camera name, in characters.
pub const MAX_VIRTUAL_CAMERA_NAME_CHARS: usize = 64;

/// The bit pattern of the IEEE-754 double `1.0`.
pub const MIN_FRAME_RATE_BITS: u64 = 0x3FF0_0000_0000_0000;

/// The bit pattern of the IEEE-754 double `240.0`.
pub const MAX_FRAME_RATE_BITS: u64 = 0x406E_0000_0000_0000;

/// Whether the double with bit pattern `bits` is a finite number from 1 to
/// 240. Non-negative doubles are ordered as their bit patterns are; negative
/// numbers, infinities and NaNs all lie outside these bounds.
pub open spec fn frame_rate_bits_in_range(bits: u64) -> bool {
    MIN_FRAME_RATE_BITS <= bits && bits <= MAX_FRAME_RATE_BITS
}

/// The settings that the user interface edits.
///
/// `preferred_frame_rate` holds a rate in frames per second as the bit
/// pattern of an IEEE-754 double (`f64::to_bits`), so that its range can be
/// checked exactly.
#[derive(Debug, Clone)]
pub struct AppSettings {
    pub appearance: Appearance,
    pub launch_at_login: bool,
    pub keep_running_when_closed: bool,
    pub restore_previous_session: bool,
    pub default_camera: Option<String>,
    pub preferred_quality: PreferredQuality,
    pub preferred_frame_rate: Option<u64>,
    pub disconnect_behavior: DisconnectBehavior,
    pub virtual_camera_name: String,
    pub hardware_acceleration: HardwareAcceleration,
}

impl Default for AppSettings {
    fn default() -> (s: Self)
        ensures
            s.appearance == Appearance::System,
            !s.launch_at_login,
            s.keep_running_when_closed,
            s.restore_previous_session,
            s.default_camera is None,
            s.preferred_quality == PreferredQuality::Automatic,
            s.preferred_frame_rate is None,
            s.disconnect_behavior == DisconnectBehavior::BlackFrame,
            s.virtual_camera_name@ == "Camux Camera"@,
            s.hardware_acceleration == HardwareAcceleration::Automatic,
    {
        AppSettings {
            appearance: Appearance::System,
            launch_at_login: false,
            keep_running_when_closed: true,
            restore_previous_session: true,
            default_camera: None,
            preferred_quality: PreferredQuality::Automatic,
            preferred_frame_rate: None,
            disconnect_behavior: DisconnectBehavior::BlackFrame,
            virtual_camera_name: "Camux Camera".to_owned(),
            hardware_acceleration: HardwareAcceleration::Automatic,
        }
    }
}

/// The validation failures of `AppSettings::validate`, in the order in which
/// they are tested.
pub open spec fn name_error(name: Seq<char>) -> Option<Seq<char>> {
    if name.len() == 0 {
        Some("Virtual camera name cannot be empty"@)
    } else if name.len() > MAX_VIRTUAL_CAMERA_NAME_CHARS {
        Some("Virtual camera name cannot be longer than 64 characters"@)
    } else if exists|k: int| 0 <= k < name.len() && is_control_char(#[trigger] name[k]) {
        Some("Virtual camera name cannot contain control characters"@)
    } else {
        None
    }
}

/// The default camera once an empty choice is read as no choice.
pub open spec fn normalized_default_camera(camera: Option<String>) -> Option<String> {
    match camera {
        Some(c) => if c@.len() == 0 {
            None
        } else {
            Some(c)
        },
        None => None,
    }
}

/// Whether the preferred frame rate is absent or a finite rate from 1 to 240.
pub open spec fn frame_rate_acceptable(rate: Option<u64>) -> bool {
    match rate {
        Some(bits) => frame_rate_bits_in_range(bits),
        None => true,
    }
}

/// Whether `s` is what a successful validation leaves: a trimmed, valid name,
/// no empty default camera and an acceptable frame rate.
pub open spec fn settings_valid(s: AppSettings) -> bool {
    &&& trimmed(s.virtual_camera_name@) == s.virtual_camera_name@
    &&& name_error(s.virtual_camera_name@) is None
    &&& normalized_default_camera(s.default_camera) == s.default_camera
    &&& frame_rate_acceptable(s.preferred_frame_rate)
}

/// Whether `after` equals `before` in every field that validation never
/// changes.
pub open spec fn same_choices(before: AppSettings, after: AppSettings) -> bool {
    &&& after.appearance == before.appearance
    &&& after.launch_at_login == before.launch_at_login
    &&& after.keep_running_when_closed == before.keep_running_when_closed
    &&& after.restore_previous_session == before.restore_previous_session
    &&& after.preferred_quality == before.preferred_quality
    &&& after.preferred_frame_rate == before.preferred_frame_rate
    &&& after.disconnect_behavior == before.disconnect_behavior
    &&& after.hardware_acceleration == before.hardware_acceleration
}

fn has_control_char(v: &Vec<char>) -> (r: bool)
    ensures
        r == exists|k: int| 0 <= k < v@.len() && is_control_char(#[trigger] v@[k]),
{
    let mut i: usize = 0;
    while i < v.len()
        invariant
            i <= v.len(),
            forall|k: int| 0 <= k < i ==> !is_control_char(#[trigger] v@[k]),
        decreases v.len() - i,
    {
        if is_control(v[i]) {
            return true;
        }
        i = i + 1;
    }
    false
}

impl AppSettings {
    /// Normalizes and checks the settings: the virtual camera name is
    /// trimmed and must be non-empty, at most 64 characters long and free of
    /// control characters; an empty default camera becomes none; a
    /// preferred frame rate must be finite and from 1 to 240.
    ///
    /// The name is trimmed even when a check fails, and the default camera is
    /// normalized once the name has passed.
    pub fn validate(&mut self) -> (r: Result<(), String>)
        ensures
            final(self).virtual_camera_name@ == trimmed(old(self).virtual_camera_name@),
            same_choices(*old(self), *final(self)),
            match name_error(trimmed(old(self).virtual_camera_name@)) {
                Some(message) => {
                    &&& r matches Err(e) && e@ == message
                    &&& final(self).default_camera == old(self).default_camera
                },
                None => {
                    &&& final(self).default_camera == normalized_default_camera(
                        old(self).default_camera,
                    )
                    &&& if frame_rate_acceptable(old(self).preferred_frame_rate) {
                        r is Ok
                    } else {
                        r matches Err(e) && e@
                            == "Preferred frame rate must be between 1 and 240 fps"@
                    }
                },
            },
            r is Ok <==> settings_valid(*final(self)),
    {
        self.virtual_camera_name = trim(self.virtual_camera_name.as_str());
        let name = chars_of(self.virtual_camera_name.as_str());
        proof {
            lemma_trimmed_idempotent(old(self).virtual_camera_name@);
        }
        if name.len() == 0 {
            return Err("Virtual camera name cannot be empty".to_owned());
        }
        if name.len() > MAX_VIRTUAL_CAMERA_NAME_CHARS {
            return Err("Virtual camera name cannot be longer than 64 characters".to_owned());
        }
        if has_control_char(&name) {
            return Err("Virtual camera name cannot contain control characters".to_owned());
        }
        let clear = match &self.default_camera {
            Some(camera) => camera.as_str().is_empty(),
            None => false,
        };
        if clear {
            self.default_camera = None;
        }
        match self.preferred_frame_rate {
            Some(bits) => {
                if bits < MIN_FRAME_RATE_BITS || bits > MAX_FRAME_RATE_BITS {
                    return Err("Preferred frame rate must be between 1 and 240 fps".to_owned());
                }
            },
            None => {},
        }
        Ok(())
    }
}

/// Trimming twice gives what trimming once gives.
pub proof fn lemma_trimmed_idempotent(s: Seq<char>)
    ensures
        trimmed(trimmed(s)) == trimmed(s),
{
    lemma_trimmed_start_no_leading(s);
    lemma_trimmed_end_no_trailing(crate::text::trimmed_start(s));
    let t = trimmed(s);
    lemma_trimmed_end_keeps_start(crate::text::trimmed_start(s));
    lemma_trimmed_start_fixed(t);
    lemma_trimmed_end_fixed(t);
}

proof fn lemma_trimmed_start_no_leading(s: Seq<char>)
    ensures
        crate::text::trimmed_start(s).len() > 0 ==> !crate::text::is_white_space(
            crate::text::trimmed_start(s)[0],
        ),
    decreases s.len(),
{
    if s.len() > 0 && crate::text::is_white_space(s[0]) {
        lemma_trimmed_start_no_leading(s.drop_first());
    }
}

proof fn lemma_trimmed_end_no_trailing(s: Seq<char>)
    ensures
        crate::text::trimmed_end(s).len() > 0 ==> !crate::text::is_white_space(
            crate::text::trimmed_end(s).last(),
        ),
    decreases s.len(),
{
    if s.len() > 0 && crate::text::is_white_space(s.last()) {
        lemma_trimmed_end_no_trailing(s.drop_last());
    }
}

/// Removing trailing whitespace from a text that starts with a
/// non-whitespace character keeps that first character.
proof fn lemma_trimmed_end_keeps_start(s: Seq<char>)
    requires
        s.len() > 0 ==> !crate::text::is_white_space(s[0]),
    ensures
        crate::text::trimmed_end(s).len() > 0 ==> crate::text::trimmed_end(s)[0] == s[0],
        crate::text::trimmed_end(s).len() <= s.len(),
    decreases s.len(),
{
    if s.len() > 0 && crate::text::is_white_space(s.last()) {
        lemma_trimmed_end_keeps_start(s.drop_last());
    }
}

proof fn lemma_trimmed_start_fixed(s: Seq<char>)
    requires
        s.len() > 0 ==> !crate::text::is_white_space(s[0]),
    ensures
        crate::text::trimmed_start(s) == s,
{
}

proof fn lemma_trimmed_end_fixed(s: Seq<char>)
    requires
        s.len() > 0 ==> !crate::text::is_white_space(s.last()),
    ensures
        crate::text::trimmed_end(s) == s,
{
}


/// Validation is idempotent: settings that passed validation pass it again,
/// and its normalizations leave them as they are.
pub proof fn validation_is_idempotent(s: AppSettings)
    requires
        settings_valid(s),
    ensures
        trimmed(s.virtual_camera_name@) == s.virtual_camera_name@,
        name_error(trimmed(s.virtual_camera_name@)) is None,
        normalized_default_camera(s.default_camera) == s.default_camera,
        frame_rate_acceptable(s.preferred_frame_rate),
{
}

/// The default settings pass validation, so resetting the settings cannot
/// fail on them.
pub proof fn default_settings_are_valid(s: AppSettings)
    requires
        s.virtual_camera_name@ == "Camux Camera"@,
        s.default_camera is None,
        s.preferred_frame_rate is None,
    ensures
        settings_valid(s),
{
    reveal_strlit("Camux Camera");
    let name = s.virtual_camera_name@;
    lemma_trimmed_start_fixed(name);
    lemma_trimmed_end_fixed(name);
    assert(!exists|k: int| 0 <= k < name.len() && is_control_char(#[trigger] name[k]));
}

/// What replacing the settings does next.
#[derive(Debug, Clone, Copy, PartialEq, Eq, Structural)]
pub enum ReplaceAction {
    /// Check the new settings, normalizing them as `AppSettings::validate`
    /// does.
    Validate,
    /// Switch launch at login on or off.
    ConfigureLaunchAtLogin(bool),
    /// Write the new settings to the settings file.
    WriteSettings,
    /// Switch launch at login back, since the settings could not be written.
    RestoreLaunchAtLogin(bool),
    /// Keep the new settings: the replacement succeeded.
    Commit,
    /// Report the failure of the validation, switch or write that failed.
    Fail,
}

/// What happened since the replacement's last step.
#[derive(Debug, Clone, Copy, PartialEq, Eq, Structural)]
pub enum ReplaceEvent {
    /// A replacement was asked for.
    Started,
    /// The new settings were found valid, or not.
    Validated { succeeded: bool },
    /// Launch at login was switched, or could not be.
    LaunchAtLoginConfigured { succeeded: bool },
    /// The settings file was written, or could not be.
    SettingsWritten { succeeded: bool },
    /// Launch at login was switched back, whatever came of it.
    LaunchAtLoginRestored,
}

/// The next step of replacing settings whose launch at login is `previous`
/// by settings whose launch at login is `next`, after `event`.
pub open spec fn replace_step_spec(previous: bool, next: bool, event: ReplaceEvent) -> ReplaceAction {
    match event {
        ReplaceEvent::Started => ReplaceAction::Validate,
        ReplaceEvent::Validated { succeeded } => if !succeeded {
            ReplaceAction::Fail
        } else if previous != next {
            ReplaceAction::ConfigureLaunchAtLogin(next)
        } else {
            ReplaceAction::WriteSettings
        },
        ReplaceEvent::LaunchAtLoginConfigured { succeeded } => if succeeded {
            ReplaceAction::WriteSettings
        } else {
            ReplaceAction::Fail
        },
        ReplaceEvent::SettingsWritten { succeeded } => if succeeded {
            ReplaceAction::Commit
        } else if previous != next {
            ReplaceAction::RestoreLaunchAtLogin(previous)
        } else {
            ReplaceAction::Fail
        },
        ReplaceEvent::LaunchAtLoginRestored => ReplaceAction::Fail,
    }
}

/// The next step of replacing settings whose launch at login is `previous`
/// by settings whose launch at login is `next`, after `event`. The new
/// settings are validated first; launch at login is switched only when it
/// changes, and before the file is written; when the write fails it is
/// switched back, and the write's failure is reported.
pub fn replace_step(previous: bool, next: bool, event: ReplaceEvent) -> (r: ReplaceAction)
    ensures
        r == replace_step_spec(previous, next, event),
{
    match event {
        ReplaceEvent::Started => ReplaceAction::Validate,
        ReplaceEvent::Validated { succeeded } => if !succeeded {
            ReplaceAction::Fail
        } else if previous != next {
            ReplaceAction::ConfigureLaunchAtLogin(next)
        } else {
            ReplaceAction::WriteSettings
        },
        ReplaceEvent::LaunchAtLoginConfigured { succeeded } => if succeeded {
            ReplaceAction::WriteSettings
        } else {
            ReplaceAction::Fail
        },
        ReplaceEvent::SettingsWritten { succeeded } => if succeeded {
            ReplaceAction::Commit
        } else if previous != next {
            ReplaceAction::RestoreLaunchAtLogin(previous)
        } else {
            ReplaceAction::Fail
        },
        ReplaceEvent::LaunchAtLoginRestored => ReplaceAction::Fail,
    }
}

/// The event that performing `action` brings about, given whether the
/// validation, the switch of launch at login and the write succeed; nothing
/// once the replacement has ended.
pub open spec fn replace_event_after(action: ReplaceAction, valid: bool, configured: bool, written: bool) -> Option<ReplaceEvent> {
    match action {
        ReplaceAction::Validate => Some(ReplaceEvent::Validated { succeeded: valid }),
        ReplaceAction::ConfigureLaunchAtLogin(_) => Some(ReplaceEvent::LaunchAtLoginConfigured { succeeded: configured }),
        ReplaceAction::WriteSettings => Some(ReplaceEvent::SettingsWritten { succeeded: written }),
        ReplaceAction::RestoreLaunchAtLogin(_) => Some(ReplaceEvent::LaunchAtLoginRestored),
        ReplaceAction::Commit => None,
        ReplaceAction::Fail => None,
    }
}

/// The actions of a replacement run from `event` on, for at most `steps`
/// more steps after the first: each action is `replace_step`'s answer to the
/// event that the previous one brought about.
pub open spec fn replace_run(
    previous: bool,
    next: bool,
    valid: bool,
    configured: bool,
    written: bool,
    event: ReplaceEvent,
    steps: nat,
) -> Seq<ReplaceAction>
    decreases steps,
{
    let action = replace_step_spec(previous, next, event);
    match replace_event_after(action, valid, configured, written) {
        Some(following) => if steps > 0 {
            seq![action] + replace_run(previous, next, valid, configured, written, following, (steps - 1) as nat)
        } else {
            seq![action]
        },
        None => seq![action],
    }
}

/// Replacing settings, whatever the validation, the switch of launch at
/// login and the write come to: the run ends within five steps; the new
/// settings are kept (Commit) exactly when they are valid, the switch, if
/// any, succeeded and the write succeeded, and only as the last step;
/// invalid settings change nothing; launch at login is switched only when
/// it changes, and before the write; a failed switch ends the run without a
/// write; a failed write after a switch switches launch at login back.
pub proof fn replacing_settings_runs(previous: bool, next: bool, valid: bool, configured: bool, written: bool)
    ensures
        ({
            let run = replace_run(previous, next, valid, configured, written, ReplaceEvent::Started, 5);
            &&& run == if !valid {
                seq![ReplaceAction::Validate, ReplaceAction::Fail]
            } else if previous == next {
                if written {
                    seq![ReplaceAction::Validate, ReplaceAction::WriteSettings, ReplaceAction::Commit]
                } else {
                    seq![ReplaceAction::Validate, ReplaceAction::WriteSettings, ReplaceAction::Fail]
                }
            } else if !configured {
                seq![ReplaceAction::Validate, ReplaceAction::ConfigureLaunchAtLogin(next), ReplaceAction::Fail]
            } else if written {
                seq![
                    ReplaceAction::Validate,
                    ReplaceAction::ConfigureLaunchAtLogin(next),
                    ReplaceAction::WriteSettings,
                    ReplaceAction::Commit,
                ]
            } else {
                seq![
                    ReplaceAction::Validate,
                    ReplaceAction::ConfigureLaunchAtLogin(next),
                    ReplaceAction::WriteSettings,
                    ReplaceAction::RestoreLaunchAtLogin(previous),
                    ReplaceAction::Fail,
                ]
            }
            &&& replace_event_after(run.last(), valid, configured, written) is None
            &&& (run.last() == ReplaceAction::Commit <==> valid && (previous == next || configured) && written)
            &&& forall|k: int| 0 <= k < run.len() - 1 ==> #[trigger] run[k] != ReplaceAction::Commit
                && run[k] != ReplaceAction::Fail
        }),
{
    reveal_with_fuel(replace_run, 6);
    let run = replace_run(previous, next, valid, configured, written, ReplaceEvent::Started, 5);
    assert(run.len() <= 5);
}

/// How `escape_xml` writes one character.
pub open spec fn xml_escape_char(c: char) -> Seq<char> {
    if c == '&' {
        seq!['&', 'a', 'm', 'p', ';']
    } else if c == '<' {
        seq!['&', 'l', 't', ';']
    } else if c == '>' {
        seq!['&', 'g', 't', ';']
    } else if c == '"' {
        seq!['&', 'q', 'u', 'o', 't', ';']
    } else if c == '\'' {
        seq!['&', 'a', 'p', 'o', 's', ';']
    } else {
        seq![c]
    }
}

/// `s` with the five XML special characters replaced by entities.
pub open spec fn xml_escaped(s: Seq<char>) -> Seq<char>
    decreases s.len(),
{
    if s.len() == 0 {
        Seq::empty()
    } else {
        xml_escaped(s.drop_last()) + xml_escape_char(s.last())
    }
}

/// Whether `s` begins with `p`.
pub open spec fn starts_with(s: Seq<char>, p: Seq<char>) -> bool {
    p.len() <= s.len() && forall|i: int| 0 <= i < p.len() ==> s[i] == p[i]
}

/// The character whose entity `s` begins with, if it begins with one of the
/// five entities that `escape_xml` writes.
pub open spec fn xml_entity_at_start(s: Seq<char>) -> Option<char> {
    if starts_with(s, xml_escape_char('&')) {
        Some('&')
    } else if starts_with(s, xml_escape_char('<')) {
        Some('<')
    } else if starts_with(s, xml_escape_char('>')) {
        Some('>')
    } else if starts_with(s, xml_escape_char('"')) {
        Some('"')
    } else if starts_with(s, xml_escape_char('\'')) {
        Some('\'')
    } else {
        None
    }
}

/// What an XML reader makes of `s`: read from the left, each of the five
/// entities stands for its character and every other character for itself.
pub open spec fn xml_unescaped(s: Seq<char>) -> Seq<char>
    decreases s.len(),
{
    if s.len() == 0 {
        Seq::empty()
    } else {
        match xml_entity_at_start(s) {
            Some(c) => {
                let n = xml_escape_char(c).len();
                // always true of an entity found at the start; it shows
                // that the text read next is shorter
                if 0 < n <= s.len() {
                    seq![c] + xml_unescaped(s.skip(n as int))
                } else {
                    Seq::empty()
                }
            },
            None => seq![s[0]] + xml_unescaped(s.drop_first()),
        }
    }
}

/// Whether every `&` in `s` begins one of the five entities.
pub open spec fn ampersands_begin_entities(s: Seq<char>) -> bool {
    forall|k: int|
        #![trigger s[k]]
        0 <= k < s.len() && s[k] == '&' ==> xml_entity_at_start(s.skip(k)) is Some
}

/// Escaping can be read off from the front as well as from the back.
proof fn lemma_xml_escaped_front(s: Seq<char>)
    requires
        s.len() > 0,
    ensures
        xml_escaped(s) == xml_escape_char(s[0]) + xml_escaped(s.drop_first()),
    decreases s.len(),
{
    if s.len() == 1 {
        assert(s.drop_last() =~= Seq::<char>::empty());
        assert(s.drop_first() =~= Seq::<char>::empty());
        assert(xml_escaped(s) =~= xml_escape_char(s[0]) + xml_escaped(s.drop_first()));
    } else {
        let d = s.drop_last();
        lemma_xml_escaped_front(d);
        assert(d.drop_first() =~= s.drop_first().drop_last());
        assert(s.drop_first().last() == s.last());
        assert(d[0] == s[0]);
        assert(xml_escaped(s) =~= xml_escape_char(s[0]) + xml_escaped(s.drop_first()));
    }
}

/// Reading one escaped character back gives that character.
proof fn lemma_xml_unescape_one(c: char, rest: Seq<char>)
    ensures
        xml_unescaped(xml_escape_char(c) + rest) == seq![c] + xml_unescaped(rest),
{
    let e = xml_escape_char(c);
    let s = e + rest;
    assert(s.skip(e.len() as int) =~= rest);
    if c == '&' || c == '<' || c == '>' || c == '"' || c == '\'' {
        assert(s[0] == e[0] && s[1] == e[1] && s[2] == e[2] && s[3] == e[3]);
        assert(xml_entity_at_start(s) == Some(c));
    } else {
        assert(s[0] == c);
        assert(xml_entity_at_start(s) is None);
        assert(s.drop_first() =~= rest);
    }
}

/// Reading back what `escape_xml` wrote gives the original text.
pub proof fn lemma_xml_unescape_escaped(s: Seq<char>)
    ensures
        xml_unescaped(xml_escaped(s)) == s,
    decreases s.len(),
{
    if s.len() == 0 {
        assert(xml_escaped(s) =~= Seq::<char>::empty());
    } else {
        lemma_xml_escaped_front(s);
        lemma_xml_unescape_one(s[0], xml_escaped(s.drop_first()));
        lemma_xml_unescape_escaped(s.drop_first());
        assert(seq![s[0]] + s.drop_first() =~= s);
    }
}

/// A text that begins with an entity still does after more is appended.
proof fn lemma_entity_start_extends(s: Seq<char>, t: Seq<char>)
    requires
        xml_entity_at_start(s) is Some,
    ensures
        xml_entity_at_start(s + t) == xml_entity_at_start(s),
{
    let u = s + t;
    assert forall|p: Seq<char>| #[trigger] starts_with(s, p) implies starts_with(u, p) by {
        assert forall|i: int| 0 <= i < p.len() implies u[i] == p[i] by {
            assert(u[i] == s[i]);
        }
    }
    assert forall|p: Seq<char>| p.len() <= s.len() && #[trigger] starts_with(u, p) implies starts_with(s, p) by {
        assert forall|i: int| 0 <= i < p.len() implies s[i] == p[i] by {
            assert(u[i] == s[i]);
        }
    }
}

/// Every `&` in escaped text begins one of the five entities.
pub proof fn lemma_xml_escaped_ampersands(s: Seq<char>)
    ensures
        ampersands_begin_entities(xml_escaped(s)),
    decreases s.len(),
{
    if s.len() > 0 {
        let d = s.drop_last();
        lemma_xml_escaped_ampersands(d);
        let a = xml_escaped(d);
        let e = xml_escape_char(s.last());
        let r = xml_escaped(s);
        assert(r == a + e);
        assert forall|k: int|
            #![trigger r[k]]
            0 <= k < r.len() && r[k] == '&' implies xml_entity_at_start(r.skip(k)) is Some by {
            if k < a.len() {
                assert(a[k] == '&');
                lemma_entity_start_extends(a.skip(k), e);
                assert(r.skip(k) =~= a.skip(k) + e);
            } else {
                let c = s.last();
                assert(e[k - a.len()] == '&');
                assert(r.skip(k) =~= e.skip(k - a.len()));
                assert(k == a.len());
                assert(r.skip(k) =~= e);
                assert(xml_entity_at_start(e) == Some(c));
            }
        }
    }
}

/// Whether `c` may not stand unescaped in an XML attribute or text.
pub open spec fn is_xml_markup(c: char) -> bool {
    c == '<' || c == '>' || c == '"' || c == '\''
}

/// Escapes `value` for the text of an XML element: `&`, `<`, `>`, `"` and
/// `'` become entities. The result holds none of `<`, `>`, `"` and `'`,
/// every `&` in it begins one of the five entities, and reading it back
/// gives `value`.
pub fn escape_xml(value: &str) -> (r: String)
    ensures
        r@ == xml_escaped(value@),
        forall|k: int| 0 <= k < r@.len() ==> !is_xml_markup(#[trigger] r@[k]),
        ampersands_begin_entities(r@),
        xml_unescaped(r@) == value@,
{
    let v = chars_of(value);
    let mut out: Vec<char> = Vec::new();
    let mut i: usize = 0;
    while i < v.len()
        invariant
            i <= v.len(),
            v@ == value@,
            out@ == xml_escaped(v@.take(i as int)),
            forall|k: int| 0 <= k < out@.len() ==> !is_xml_markup(#[trigger] out@[k]),
        decreases v.len() - i,
    {
        let c = v[i];
        assert(v@.take(i + 1).drop_last() == v@.take(i as int));
        let ghost before = out@;
        if c == '&' {
            out.push('&');
            out.push('a');
            out.push('m');
            out.push('p');
            out.push(';');
        } else if c == '<' {
            out.push('&');
            out.push('l');
            out.push('t');
            out.push(';');
        } else if c == '>' {
            out.push('&');
            out.push('g');
            out.push('t');
            out.push(';');
        } else if c == '"' {
            out.push('&');
            out.push('q');
            out.push('u');
            out.push('o');
            out.push('t');
            out.push(';');
        } else if c == '\'' {
            out.push('&');
            out.push('a');
            out.push('p');
            out.push('o');
            out.push('s');
            out.push(';');
        } else {
            out.push(c);
        }
        assert(out@ == before + xml_escape_char(c));
        i = i + 1;
    }
    assert(v@.take(v@.len() as int) == v@);
    proof {
        lemma_xml_escaped_ampersands(value@);
        lemma_xml_unescape_escaped(value@);
    }
    string_from_chars(&out)
}

/// How `quote_desktop_exec` writes one character inside the quotes.
pub open spec fn exec_escape_char(c: char) -> Seq<char> {
    if c == '\\' {
        seq!['\\', '\\']
    } else if c == '"' {
        seq!['\\', '"']
    } else {
        seq![c]
    }
}

/// `s` with every backslash and double quote preceded by a backslash.
pub open spec fn exec_escaped(s: Seq<char>) -> Seq<char>
    decreases s.len(),
{
    if s.len() == 0 {
        Seq::empty()
    } else {
        exec_escaped(s.drop_last()) + exec_escape_char(s.last())
    }
}

/// Quotes `value` as a single argument of a desktop entry's `Exec` key:
/// backslashes and double quotes are escaped and the whole is put in double
/// quotes.
pub fn quote_desktop_exec(value: &str) -> (r: String)
    ensures
        r@ == seq!['"'] + exec_escaped(value@) + seq!['"'],
{
    let v = chars_of(value);
    let mut out: Vec<char> = Vec::new();
    out.push('"');
    let mut i: usize = 0;
    while i < v.len()
        invariant
            i <= v.len(),
            v@ == value@,
            out@ == seq!['"'] + exec_escaped(v@.take(i as int)),
        decreases v.len() - i,
    {
        let c = v[i];
        assert(v@.take(i + 1).drop_last() == v@.take(i as int));
        if c == '\\' {
            out.push('\\');
            out.push('\\');
        } else if c == '"' {
            out.push('\\');
            out.push('"');
        } else {
            out.push(c);
        }
        i = i + 1;
    }
    assert(v@.take(v@.len() as int) == v@);
    out.push('"');
    string_from_chars(&out)
}

/// The launch agent property list that starts `executable` at login on
/// macOS.
pub fn launch_agent_plist(executable: &str) -> (r: String)
    ensures
        r@ == "<?xml version=\"1.0\" encoding=\"UTF-8\"?>\n<!DOCTYPE plist PUBLIC \"-//Apple//DTD PLIST 1.0//EN\" \"http://www.apple.com/DTDs/PropertyList-1.0.dtd\">\n<plist version=\"1.0\"><dict><key>Label</key><string>dev.danfq.camux</string><key>ProgramArguments</key><array><string>"@
            + xml_escaped(executable@)
            + "</string></array><key>RunAtLoad</key><true/></dict></plist>\n"@,
{
    let escaped = escape_xml(executable);
    let mut out: Vec<char> = Vec::new();
    append_str(
        &mut out,
        "<?xml version=\"1.0\" encoding=\"UTF-8\"?>\n<!DOCTYPE plist PUBLIC \"-//Apple//DTD PLIST 1.0//EN\" \"http://www.apple.com/DTDs/PropertyList-1.0.dtd\">\n<plist version=\"1.0\"><dict><key>Label</key><string>dev.danfq.camux</string><key>ProgramArguments</key><array><string>",
    );
    append_str(&mut out, escaped.as_str());
    append_str(&mut out, "</string></array><key>RunAtLoad</key><true/></dict></plist>\n");
    string_from_chars(&out)
}

/// The autostart desktop entry that starts `executable` at login on Linux.
pub fn desktop_entry(executable: &str) -> (r: String)
    ensures
        r@ == "[Desktop Entry]\nType=Application\nName=Camux\nComment=Webcam splitter\nExec="@
            + seq!['"'] + exec_escaped(executable@) + seq!['"']
            + "\nTerminal=false\nX-GNOME-Autostart-enabled=true\n"@,
{
    let quoted = quote_desktop_exec(executable);
    let mut out: Vec<char> = Vec::new();
    append_str(&mut out, "[Desktop Entry]\nType=Application\nName=Camux\nComment=Webcam splitter\nExec=");
    append_str(&mut out, quoted.as_str());
    append_str(&mut out, "\nTerminal=false\nX-GNOME-Autostart-enabled=true\n");
    string_from_chars(&out)
}

/// The message shown when installing the multi-reader driver failed, given
/// the bytes that the installer wrote to its error stream, read as UTF-8
/// with invalid sequences replaced.
pub fn driver_install_error(stderr: &[u8]) -> (r: String)
    ensures
        r@ == install_failure_message_spec(utf8_lossy_of(stderr@)),
{
    let text = utf8_lossy(stderr);
    install_failure_message(text.as_str())
}

/// The message for a failed driver installation whose error stream reads
/// `stderr`: the reason it gives, or a hint at missing rights where it
/// gives none.
pub open spec fn install_failure_message_spec(stderr: Seq<char>) -> Seq<char> {
    if trimmed(stderr).len() == 0 {
        "Could not install the Camux multi-reader driver; administrator access may be required"@
    } else {
        "Could not install the Camux multi-reader driver: "@ + trimmed(stderr)
    }
}

/// The message for a failed driver installation, given the text of the
/// installer's error stream.
pub fn install_failure_message(stderr: &str) -> (r: String)
    ensures
        trimmed(stderr@).len() == 0 ==> r@
            == "Could not install the Camux multi-reader driver; administrator access may be required"@,
        trimmed(stderr@).len() > 0 ==> r@ == "Could not install the Camux multi-reader driver: "@
            + trimmed(stderr@),
        r@ == install_failure_message_spec(stderr@),
{
    let reason = trim(stderr);
    if reason.as_str().is_empty() {
        "Could not install the Camux multi-reader driver; administrator access may be required".to_owned()
    } else {
        let mut out: Vec<char> = Vec::new();
        append_str(&mut out, "Could not install the Camux multi-reader driver: ");
        append_str(&mut out, reason.as_str());
        string_from_chars(&out)
    }
}

/// Whether the virtual camera can be used.
#[derive(Debug, Clone, Copy, PartialEq, Eq, Structural)]
pub enum VirtualCameraState {
    Ready,
    NeedsRepair,
    NotInstalled,
}

/// The virtual camera's state and a sentence that explains it.
#[derive(Debug, Clone)]
pub struct VirtualCameraStatus {
    pub state: VirtualCameraState,
    pub detail: String,
}

/// The version that the multi-reader build of the loopback driver reports.
pub open spec fn multi_reader_driver_version() -> Seq<char> {
    "0.15.4-camux1"@
}

/// Whether the video device named `device_name` is the Camux camera called
/// `name`: the device's name, with its surrounding whitespace removed, equals
/// `name` up to case, or it mentions Camux.
pub open spec fn names_camux_camera(name: Seq<char>, device_name: Seq<char>) -> bool {
    let listed = lowercase(trimmed(device_name));
    listed == lowercase(name) || contains_seq(listed, "camux"@)
}

/// What the Linux status check reports, given the camera's name, the names
/// of the video devices, the loaded driver's version and whether a loopback
/// module is loaded.
pub open spec fn linux_status_spec(
    name: Seq<char>,
    device_names: Seq<Seq<char>>,
    driver_version: Seq<char>,
    module_loaded: bool,
) -> (VirtualCameraState, Seq<char>) {
    if exists|i: int| 0 <= i < device_names.len() && names_camux_camera(name, #[trigger] device_names[i]) {
        if trimmed(driver_version) != multi_reader_driver_version() {
            (
                VirtualCameraState::NeedsRepair,
                name
                    + " uses a driver that cannot be shared between apps; repair it to install Camux multi-reader support"@,
            )
        } else {
            (VirtualCameraState::Ready, name + " is available to multiple apps at the same time"@)
        }
    } else if module_loaded {
        (VirtualCameraState::NeedsRepair, "v4l2loopback is loaded, but the Camux camera is unavailable"@)
    } else {
        (VirtualCameraState::NotInstalled, "v4l2loopback is not installed or loaded"@)
    }
}

/// The Linux status: when some video device's name, trimmed and in lower
/// case, equals the configured name in lower case or mentions camux, the
/// camera is Ready when the trimmed driver version is the multi-reader one
/// and needs repair otherwise, both explained with the camera's name; when
/// no device is such, it needs repair if a loopback module is loaded and is
/// not installed if none is.
pub proof fn linux_status_law(
    name: Seq<char>,
    device_names: Seq<Seq<char>>,
    driver_version: Seq<char>,
    module_loaded: bool,
)
    ensures
        linux_status_spec(name, device_names, driver_version, module_loaded) == if exists|i: int|
            0 <= i < device_names.len() && (lowercase(trimmed(#[trigger] device_names[i])) == lowercase(name)
                || contains_seq(lowercase(trimmed(device_names[i])), "camux"@)) {
            if trimmed(driver_version) == "0.15.4-camux1"@ {
                (VirtualCameraState::Ready, name + " is available to multiple apps at the same time"@)
            } else {
                (
                    VirtualCameraState::NeedsRepair,
                    name
                        + " uses a driver that cannot be shared between apps; repair it to install Camux multi-reader support"@,
                )
            }
        } else if module_loaded {
            (VirtualCameraState::NeedsRepair, "v4l2loopback is loaded, but the Camux camera is unavailable"@)
        } else {
            (VirtualCameraState::NotInstalled, "v4l2loopback is not installed or loaded"@)
        },
{
    let named = exists|i: int| 0 <= i < device_names.len() && names_camux_camera(name, #[trigger] device_names[i]);
    let direct = exists|i: int|
        0 <= i < device_names.len() && (lowercase(trimmed(#[trigger] device_names[i])) == lowercase(name)
            || contains_seq(lowercase(trimmed(device_names[i])), "camux"@));
    if named {
        let i = choose|i: int| 0 <= i < device_names.len() && names_camux_camera(name, #[trigger] device_names[i]);
        assert(lowercase(trimmed(device_names[i])) == lowercase(name) || contains_seq(lowercase(trimmed(device_names[i])), "camux"@));
    }
    if direct {
        let i = choose|i: int|
            0 <= i < device_names.len() && (lowercase(trimmed(#[trigger] device_names[i])) == lowercase(name)
                || contains_seq(lowercase(trimmed(device_names[i])), "camux"@));
        assert(names_camux_camera(name, device_names[i]));
    }
}

fn names_camux_camera_exec(name: &str, expected: &String, device_name: &String) -> (r: bool)
    requires
        expected@ == lowercase(name@),
    ensures
        r == names_camux_camera(name@, device_name@),
{
    let trimmed_name = trim(device_name.as_str());
    let listed = to_lowercase(trimmed_name.as_str());
    if listed == *expected {
        return true;
    }
    let hay = chars_of(listed.as_str());
    let needle = chars_of("camux");
    crate::text::contains_chars(&hay, &needle)
}

/// Whether one of `device_names` names the Camux camera called `name`.
fn lists_camux_camera(name: &str, device_names: &Vec<String>) -> (r: bool)
    ensures
        r == exists|i: int|
            0 <= i < device_names@.len() && names_camux_camera(name@, (#[trigger] device_names@[i])@),
{
    let expected = to_lowercase(name);
    let ghost names = device_names@.map_values(|d: String| d@);
    let mut i: usize = 0;
    while i < device_names.len()
        invariant
            i <= device_names.len(),
            names == device_names@.map_values(|d: String| d@),
            expected@ == lowercase(name@),
            forall|j: int| 0 <= j < i ==> !names_camux_camera(name@, (#[trigger] device_names@[j])@),
        decreases device_names.len() - i,
    {
        if names_camux_camera_exec(name, &expected, &device_names[i]) {
            return true;
        }
        i = i + 1;
    }
    false
}

/// Reports the state of the Linux virtual camera called `name`, given the
/// names that the video devices report, the version of the Camux loopback
/// module (empty when it cannot be read) and whether any loopback module is
/// loaded.
pub fn linux_virtual_camera_status(
    name: &str,
    device_names: &Vec<String>,
    driver_version: &str,
    module_loaded: bool,
) -> (s: VirtualCameraStatus)
    ensures
        (s.state, s.detail@) == linux_status_spec(
            name@,
            device_names@.map_values(|d: String| d@),
            driver_version@,
            module_loaded,
        ),
{
    let found = lists_camux_camera(name, device_names);
    proof {
        let names = device_names@.map_values(|d: String| d@);
        if found {
            let i = choose|i: int| 0 <= i < device_names@.len() && names_camux_camera(name@, (#[trigger] device_names@[i])@);
            assert(names_camux_camera(name@, names[i]));
        } else {
            assert forall|i: int| 0 <= i < names.len() implies !names_camux_camera(name@, #[trigger] names[i]) by {
                assert(names[i] == device_names@[i]@);
            }
        }
    }
    if found {
        let version = trim(driver_version);
        let multi_reader = "0.15.4-camux1".to_owned();
        if !(version == multi_reader) {
            let mut out: Vec<char> = Vec::new();
            append_str(&mut out, name);
            append_str(
                &mut out,
                " uses a driver that cannot be shared between apps; repair it to install Camux multi-reader support",
            );
            return VirtualCameraStatus {
                state: VirtualCameraState::NeedsRepair,
                detail: string_from_chars(&out),
            };
        }
        let mut out: Vec<char> = Vec::new();
        append_str(&mut out, name);
        append_str(&mut out, " is available to multiple apps at the same time");
        return VirtualCameraStatus { state: VirtualCameraState::Ready, detail: string_from_chars(&out) };
    }
    if module_loaded {
        VirtualCameraStatus {
            state: VirtualCameraState::NeedsRepair,
            detail: "v4l2loopback is loaded, but the Camux camera is unavailable".to_owned(),
        }
    } else {
        VirtualCameraStatus {
            state: VirtualCameraState::NotInstalled,
            detail: "v4l2loopback is not installed or loaded".to_owned(),
        }
    }
}

/// Reports the state of the macOS virtual camera called `name`, given
/// whether its plug-in is installed.
pub fn macos_virtual_camera_status(name: &str, plugin_installed: bool) -> (s: VirtualCameraStatus)
    ensures
        plugin_installed ==> s.state == VirtualCameraState::Ready && s.detail@ == name@
            + " is available to other apps"@,
        !plugin_installed ==> s.state == VirtualCameraState::NotInstalled && s.detail@
            == "The Camux virtual camera is not installed"@,
{
    if plugin_installed {
        let mut out: Vec<char> = Vec::new();
        append_str(&mut out, name);
        append_str(&mut out, " is available to other apps");
        VirtualCameraStatus { state: VirtualCameraState::Ready, detail: string_from_chars(&out) }
    } else {
        VirtualCameraStatus {
            state: VirtualCameraState::NotInstalled,
            detail: "The Camux virtual camera is not installed".to_owned(),
        }
    }
}

/// The status reported where no virtual camera is supported.
pub fn unsupported_virtual_camera_status() -> (s: VirtualCameraStatus)
    ensures
        s.state == VirtualCameraState::NotInstalled,
        s.detail@ == "Virtual cameras are unsupported on this platform"@,
{
    VirtualCameraStatus {
        state: VirtualCameraState::NotInstalled,
        detail: "Virtual cameras are unsupported on this platform".to_owned(),
    }
}

} // verus!
