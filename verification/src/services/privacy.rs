use vstd::prelude::*;
use crate::text;
use crate::services::settings::{get_bool, spec_get_bool, spec_set, Json, JsonV};

verus! {

/// The privacy switches kept in the settings document.
pub struct PrivacyService;

impl PrivacyService {
    /// Whether location access is allowed (off by default).
    pub fn location(settings: &Json) -> (r: bool)
        ensures
            r == spec_get_bool(settings@, "privacy.location"@, false),
    {
        get_bool(settings, "privacy.location", false)
    }
    /// The settings with location access set.
    pub fn set_location(settings: Json, value: bool) -> (r: Json)
        ensures
            r@ == spec_set(settings@, "privacy.location"@, JsonV::Bool(value)),
    {
        crate::services::settings::set(settings, "privacy.location", Json::Bool(value))
    }
    /// Whether camera access is allowed (on by default).
    pub fn camera(settings: &Json) -> (r: bool)
        ensures
            r == spec_get_bool(settings@, "privacy.camera"@, true),
    {
        get_bool(settings, "privacy.camera", true)
    }
    /// The settings with camera access set.
    pub fn set_camera(settings: Json, value: bool) -> (r: Json)
        ensures
            r@ == spec_set(settings@, "privacy.camera"@, JsonV::Bool(value)),
    {
        crate::services::settings::set(settings, "privacy.camera", Json::Bool(value))
    }
    /// Whether microphone access is allowed (on by default).
    pub fn microphone(settings: &Json) -> (r: bool)
        ensures
            r == spec_get_bool(settings@, "privacy.microphone"@, true),
    {
        get_bool(settings, "privacy.microphone", true)
    }
    /// The settings with microphone access set.
    pub fn set_microphone(settings: Json, value: bool) -> (r: Json)
        ensures
            r@ == spec_set(settings@, "privacy.microphone"@, JsonV::Bool(value)),
    {
        crate::services::settings::set(settings, "privacy.microphone", Json::Bool(value))
    }
    /// Whether telemetry is sent (off by default).
    pub fn telemetry(settings: &Json) -> (r: bool)
        ensures
            r == spec_get_bool(settings@, "privacy.telemetry"@, false),
    {
        get_bool(settings, "privacy.telemetry", false)
    }
    /// The settings with telemetry set.
    pub fn set_telemetry(settings: Json, value: bool) -> (r: Json)
        ensures
            r@ == spec_set(settings@, "privacy.telemetry"@, JsonV::Bool(value)),
    {
        crate::services::settings::set(settings, "privacy.telemetry", Json::Bool(value))
    }
    /// Whether the screen locks (on by default).
    pub fn screen_lock(settings: &Json) -> (r: bool)
        ensures
            r == spec_get_bool(settings@, "privacy.screen_lock"@, true),
    {
        get_bool(settings, "privacy.screen_lock", true)
    }
    /// Whether the history is kept (on by default).
    pub fn history(settings: &Json) -> (r: bool)
        ensures
            r == spec_get_bool(settings@, "privacy.history"@, true),
    {
        get_bool(settings, "privacy.history", true)
    }
    /// Whether crash reports are sent (off by default).
    pub fn crash_reports(settings: &Json) -> (r: bool)
        ensures
            r == spec_get_bool(settings@, "privacy.crash_reports"@, false),
    {
        get_bool(settings, "privacy.crash_reports", false)
    }

    /// The two commands that switch the firewall: the `ufw` service, then
    /// `ufw` itself; through `pkexec` unless running as root. The switch
    /// worked when both did.
    pub fn set_firewall(value: bool, is_root: bool) -> (r: (Vec<String>, Vec<String>))
        ensures
            text::string_views(r.0@) == (if is_root { seq![] } else { seq!["pkexec"@] }) + seq![
                "systemctl"@,
                if value { "enable"@ } else { "disable"@ },
                "ufw.service"@,
            ],
            text::string_views(r.1@) == (if is_root { seq![] } else { seq!["pkexec"@] }) + seq![
                "ufw"@,
                "--force"@,
                if value { "enable"@ } else { "disable"@ },
            ],
    {
        let action = if value { "enable" } else { "disable" };
        let mut a: Vec<String> = Vec::new();
        let mut b: Vec<String> = Vec::new();
        if !is_root {
            a.push("pkexec".to_string());
            b.push("pkexec".to_string());
        }
        let ghost a0 = text::string_views(a@);
        let ghost b0 = text::string_views(b@);
        a.push("systemctl".to_string());
        a.push(action.to_string());
        a.push("ufw.service".to_string());
        b.push("ufw".to_string());
        b.push("--force".to_string());
        b.push(action.to_string());
        assert(text::string_views(a@) =~= a0 + seq!["systemctl"@, action@, "ufw.service"@]);
        assert(text::string_views(b@) =~= b0 + seq!["ufw"@, "--force"@, action@]);
        (a, b)
    }
}

} // verus!
