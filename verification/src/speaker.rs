//! Thin device-control commands and the reading of their output.
//!
//! Each control is a pair: the exact shell script sent to the device (over
//! the remote-call channel), and the verified interpretation of the
//! command's captured output.  Running the script is the caller's work.
use vstd::prelude::*;

use crate::shell::CommandResult;
use crate::strings::{contains_sub, str_contains, trim_str, trimmed};

verus! {

/// The device-control command set.
pub struct SpeakerManager;

impl SpeakerManager {
    /// The script that prints the active boot partition.
    pub fn get_boot_command() -> (s: String)
        ensures
            s@ == "echo $(fw_env -g boot_part)"@,
    {
        String::from_str("echo $(fw_env -g boot_part)")
    }

    /// The boot partition a finished `get_boot` run reported.
    pub fn get_boot(res: &CommandResult) -> (r: String)
        ensures
            r@ == trimmed(res@.stdout),
    {
        trim_str(res.stdout.as_str())
    }

    /// The script that sets the boot partition and echoes it back.
    pub fn set_boot_command(boot_part: &str) -> (s: String)
        ensures
            s@ == "fw_env -s boot_part "@ + boot_part@
                + " >/dev/null 2>&1 && echo $(fw_env -g boot_part)"@,
    {
        let mut s = String::from_str("fw_env -s boot_part ");
        s.append(boot_part);
        s.append(" >/dev/null 2>&1 && echo $(fw_env -g boot_part)");
        proof {
            assert(s@ =~= "fw_env -s boot_part "@ + boot_part@
                + " >/dev/null 2>&1 && echo $(fw_env -g boot_part)"@);
        }
        s
    }

    /// Whether a `set_boot` run confirmed the requested partition.
    pub fn set_boot(boot_part: &str, res: &CommandResult) -> (r: bool)
        ensures
            r == contains_sub(res@.stdout, boot_part@),
    {
        str_contains(res.stdout.as_str(), boot_part)
    }

    /// The script that prints the device model.
    pub fn get_device_model_command() -> (s: String)
        ensures
            s@ == "echo $(micocfg_model)"@,
    {
        String::from_str("echo $(micocfg_model)")
    }

    /// The model a finished `get_device_model` run reported.
    pub fn get_device_model(res: &CommandResult) -> (r: String)
        ensures
            r@ == trimmed(res@.stdout),
    {
        trim_str(res.stdout.as_str())
    }

    /// The script that prints the device serial number.
    pub fn get_device_sn_command() -> (s: String)
        ensures
            s@ == "echo $(micocfg_sn)"@,
    {
        String::from_str("echo $(micocfg_sn)")
    }

    /// The serial number a finished `get_device_sn` run reported.
    pub fn get_device_sn(res: &CommandResult) -> (r: String)
        ensures
            r@ == trimmed(res@.stdout),
    {
        trim_str(res.stdout.as_str())
    }

    /// The script that prints the play status code.
    pub fn get_play_status_command() -> (s: String)
        ensures
            s@ == "mphelper mute_stat"@,
    {
        String::from_str("mphelper mute_stat")
    }

    /// The status a finished `get_play_status` run reported: a `1` anywhere
    /// means playing, else a `2` means paused, else idle.
    pub fn get_play_status(res: &CommandResult) -> (r: String)
        ensures
            contains_sub(res@.stdout, "1"@) ==> r@ == "playing"@,
            !contains_sub(res@.stdout, "1"@) && contains_sub(res@.stdout, "2"@) ==> r@
                == "paused"@,
            !contains_sub(res@.stdout, "1"@) && !contains_sub(res@.stdout, "2"@) ==> r@ == "idle"@,
    {
        if str_contains(res.stdout.as_str(), "1") {
            String::from_str("playing")
        } else if str_contains(res.stdout.as_str(), "2") {
            String::from_str("paused")
        } else {
            String::from_str("idle")
        }
    }

    /// The script that resumes playback.
    pub fn play_command() -> (s: String)
        ensures
            s@ == "mphelper play"@,
    {
        String::from_str("mphelper play")
    }

    /// Whether a control run answered with an explicit success code.
    pub fn play(res: &CommandResult) -> (r: bool)
        ensures
            r == contains_sub(res@.stdout, "\"code\": 0"@),
    {
        str_contains(res.stdout.as_str(), "\"code\": 0")
    }

    /// The script that pauses playback.
    pub fn pause_command() -> (s: String)
        ensures
            s@ == "mphelper pause"@,
    {
        String::from_str("mphelper pause")
    }

    /// Whether the pause run answered with an explicit success code.
    pub fn pause(res: &CommandResult) -> (r: bool)
        ensures
            r == contains_sub(res@.stdout, "\"code\": 0"@),
    {
        str_contains(res.stdout.as_str(), "\"code\": 0")
    }

    /// The script that speaks `text` through the device's own voice.
    pub fn play_text_command(text: &str) -> (s: String)
        ensures
            s@ == "/usr/sbin/tts_play.sh '"@ + text@ + "'"@,
    {
        let mut s = String::from_str("/usr/sbin/tts_play.sh '");
        s.append(text);
        s.append("'");
        proof {
            assert(s@ =~= "/usr/sbin/tts_play.sh '"@ + text@ + "'"@);
        }
        s
    }

    /// Whether the speech run answered with an explicit success code.
    pub fn play_text(res: &CommandResult) -> (r: bool)
        ensures
            r == contains_sub(res@.stdout, "\"code\": 0"@),
    {
        str_contains(res.stdout.as_str(), "\"code\": 0")
    }

    /// The script that plays the audio at `url`.
    pub fn play_url_command(url: &str) -> (s: String)
        ensures
            s@ == "ubus call mediaplayer player_play_url '{\"url\":\""@ + url@
                + "\",\"type\": 1}'"@,
    {
        let mut s = String::from_str("ubus call mediaplayer player_play_url '{\"url\":\"");
        s.append(url);
        s.append("\",\"type\": 1}'");
        proof {
            assert(s@ =~= "ubus call mediaplayer player_play_url '{\"url\":\""@ + url@
                + "\",\"type\": 1}'"@);
        }
        s
    }

    /// Whether the play-url run answered with an explicit success code.
    pub fn play_url(res: &CommandResult) -> (r: bool)
        ensures
            r == contains_sub(res@.stdout, "\"code\": 0"@),
    {
        str_contains(res.stdout.as_str(), "\"code\": 0")
    }

    /// The script that probes the microphone mute flag.
    pub fn get_mic_status_command() -> (s: String)
        ensures
            s@ == "[ ! -f /tmp/mipns/mute ] && echo on || echo off"@,
    {
        String::from_str("[ ! -f /tmp/mipns/mute ] && echo on || echo off")
    }

    /// The microphone status a finished run reported.
    pub fn get_mic_status(res: &CommandResult) -> (r: String)
        ensures
            contains_sub(res@.stdout, "on"@) ==> r@ == "on"@,
            !contains_sub(res@.stdout, "on"@) ==> r@ == "off"@,
    {
        if str_contains(res.stdout.as_str(), "on") {
            String::from_str("on")
        } else {
            String::from_str("off")
        }
    }

    /// The script that turns the microphone on.
    pub fn mic_on_command() -> (s: String)
        ensures
            s@ == "ubus -t1 -S call pnshelper event_notify '{\"src\":3, \"event\":7}' 2>&1"@,
    {
        String::from_str("ubus -t1 -S call pnshelper event_notify '{\"src\":3, \"event\":7}' 2>&1")
    }

    /// Whether the mic-on run answered with a (compact) success code.
    pub fn mic_on(res: &CommandResult) -> (r: bool)
        ensures
            r == contains_sub(res@.stdout, "\"code\":0"@),
    {
        str_contains(res.stdout.as_str(), "\"code\":0")
    }

    /// The script that turns the microphone off.
    pub fn mic_off_command() -> (s: String)
        ensures
            s@ == "ubus -t1 -S call pnshelper event_notify '{\"src\":3, \"event\":8}' 2>&1"@,
    {
        String::from_str("ubus -t1 -S call pnshelper event_notify '{\"src\":3, \"event\":8}' 2>&1")
    }

    /// Whether the mic-off run answered with a (compact) success code.
    pub fn mic_off(res: &CommandResult) -> (r: bool)
        ensures
            r == contains_sub(res@.stdout, "\"code\":0"@),
    {
        str_contains(res.stdout.as_str(), "\"code\":0")
    }

    /// The script that puts `text` to the built-in assistant.
    pub fn ask_xiaoai_command(text: &str) -> (s: String)
        ensures
            s@ == "ubus call mibrain ai_service '{\"tts\":1,\"nlp\":1,\"nlp_text\":\""@ + text@
                + "\"}'"@,
    {
        let mut s = String::from_str(
            "ubus call mibrain ai_service '{\"tts\":1,\"nlp\":1,\"nlp_text\":\"",
        );
        s.append(text);
        s.append("\"}'");
        proof {
            assert(s@ =~= "ubus call mibrain ai_service '{\"tts\":1,\"nlp\":1,\"nlp_text\":\""@
                + text@ + "\"}'"@);
        }
        s
    }

    /// Whether the ask run answered with an explicit success code.
    pub fn ask_xiaoai(res: &CommandResult) -> (r: bool)
        ensures
            r == contains_sub(res@.stdout, "\"code\": 0"@),
    {
        str_contains(res.stdout.as_str(), "\"code\": 0")
    }

    /// The script that aborts the built-in assistant.
    pub fn abort_xiaoai_command() -> (s: String)
        ensures
            s@ == "/etc/init.d/mico_aivs_lab restart >/dev/null 2>&1"@,
    {
        String::from_str("/etc/init.d/mico_aivs_lab restart >/dev/null 2>&1")
    }

    /// Whether the abort run exited cleanly.
    pub fn abort_xiaoai(res: &CommandResult) -> (r: bool)
        ensures
            r == (res@.exit_code == 0),
    {
        res.exit_code == 0
    }

    /// The script that wakes the assistant up (`flag` true) or silences it
    /// by toggling the microphone (`flag` false).
    pub fn wake_up_command(flag: bool) -> (s: String)
        ensures
            flag ==> s@ == "ubus call pnshelper event_notify '{\"src\":1,\"event\":0}'"@,
            !flag ==> s@ == concat_wake_off_script(),
    {
        if flag {
            String::from_str("ubus call pnshelper event_notify '{\"src\":1,\"event\":0}'")
        } else {
            let mut s = String::from_str(
                "ubus call pnshelper event_notify '{\"src\":3, \"event\":7}'\n",
            );
            s.append("sleep 0.1\n");
            s.append("ubus call pnshelper event_notify '{\"src\":3, \"event\":8}'");
            proof {
                assert(s@ =~= concat_wake_off_script());
            }
            s
        }
    }

    /// Whether the wake run answered with an explicit success code.
    pub fn wake_up(res: &CommandResult) -> (r: bool)
        ensures
            r == contains_sub(res@.stdout, "\"code\": 0"@),
    {
        str_contains(res.stdout.as_str(), "\"code\": 0")
    }
}

/// The three-line script that silences the assistant.
pub open spec fn concat_wake_off_script() -> Seq<char> {
    "ubus call pnshelper event_notify '{\"src\":3, \"event\":7}'\n"@ + "sleep 0.1\n"@
        + "ubus call pnshelper event_notify '{\"src\":3, \"event\":8}'"@
}

} // verus!
