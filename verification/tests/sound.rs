use churros::services::audio::{AudioDevice, AudioService};

const STATUS: &str = "PipeWire 'pipewire-0' [1.0.5, user@churros]\n\
 └─ Clients:\n\
        33. WirePlumber\n\
\n\
Audio\n\
 ├─ Devices:\n\
 │      45. Built-in Audio                      [alsa]\n\
\n\
 ├─ Sinks:\n\
 │  *   52. Built-in Audio Analog Stereo        [vol: 0.40]\n\
 │      60. HDMI Output                         [vol: 1.00 MUTED]\n\
\n\
 ├─ Sources:\n\
 │  *   53. Built-in Audio Analog Stereo        [vol: 1.00]\n\
 │  \n\
 └─ Streams:\n";

#[test]
fn outputs_come_from_the_sinks_section() {
    let outs = AudioService::outputs(STATUS);
    assert_eq!(outs.len(), 2);
    assert_eq!(outs[0].id, 52);
    assert_eq!(outs[0].name, "Built-in Audio Analog Stereo");
    assert!(outs[0].default);
    assert_eq!(outs[1].id, 60);
    assert_eq!(outs[1].name, "HDMI Output");
    assert!(!outs[1].default);
}

#[test]
fn inputs_come_from_the_sources_section() {
    let ins = AudioService::inputs(STATUS);
    assert_eq!(ins.len(), 1);
    assert_eq!(ins[0].id, 53);
    assert!(ins[0].default);
}

#[test]
fn lines_that_are_not_devices_are_skipped() {
    let out = "Sinks:\n  12.NoSpace\n  x. Letters\n  7. Good one [vol: 0.5]\n  8.  \n";
    let outs = AudioService::outputs(out);
    assert_eq!(outs.len(), 1);
    assert_eq!(outs[0].id, 7);
    assert_eq!(outs[0].name, "Good one");
    assert!(AudioService::outputs("").is_empty());
    let big = AudioService::outputs("Sinks:\n 99999999999. Huge\n");
    assert_eq!(big[0].id, 0);
}

#[test]
fn mute_state_and_commands() {
    assert!(AudioService::output_muted("Volume: 0.40 [MUTED]"));
    assert!(!AudioService::input_muted("Volume: 0.40"));
    assert_eq!(AudioService::set_output_mute(true), vec!["wpctl", "set-mute", "@DEFAULT_AUDIO_SINK@", "1"]);
    assert_eq!(AudioService::set_input_mute(false), vec!["wpctl", "set-mute", "@DEFAULT_AUDIO_SOURCE@", "0"]);
    let d = AudioDevice { id: 52, name: "x".to_string(), default: false };
    assert_eq!(AudioService::set_output(&d), vec!["wpctl", "set-default", "52"]);
    assert_eq!(AudioService::set_input(&d), vec!["wpctl", "set-default", "52"]);
}

#[test]
fn sinks_end_at_a_margin_only_line() {
    let out = "Audio\n ├─ Devices:\n │      42. Built-in Audio [alsa]\n │  \n ├─ Sinks:\n │  *   50. Speakers [vol: 0.40]\n │  \n ├─ Sources:\n │  *   51. Microphone [vol: 1.00]\n │  \n";
    let outs = AudioService::outputs(out);
    assert_eq!(outs.len(), 1);
    assert_eq!(outs[0].id, 50);
    assert_eq!(outs[0].name, "Speakers");
    assert!(outs[0].default);
}
