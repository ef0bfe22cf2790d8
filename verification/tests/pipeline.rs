use open_xiaoai::audio::config::{aplay_args, arecord_args, config_from_json, config_to_json,
    default_config, AudioConfig};
use open_xiaoai::audio::play::{AudioPlayer, PlayerSession};
use open_xiaoai::audio::record::{AudioRecorder, Chunker};
use open_xiaoai::handler::MessageHandler;
use open_xiaoai::json::json_to_text;
use open_xiaoai::num::{digits_to_u64, i64_to_string, parse_int_str, u64_to_string};
use open_xiaoai::shell::CommandResult;
use open_xiaoai::speaker::SpeakerManager;
use open_xiaoai::monitor::file::{FileMonitor, FileMonitorEvent};
use open_xiaoai::monitor::kws::{KwsMonitor, KwsMonitorEvent};
use open_xiaoai::monitor::playing::{PlayingMonitor, PlayingMonitorEvent};
use open_xiaoai::util::pick_one;
use open_xiaoai::data::Response;
use open_xiaoai::monitor::kws::reply_script;
use open_xiaoai::strings::non_blank_lines;

fn res(stdout: &str, exit_code: i32) -> CommandResult {
    CommandResult::new(String::from(stdout), String::new(), exit_code)
}

#[test]
fn chunker_exact_buffer_in_arbitrary_reads() {
    // Feeding exactly one target's worth of bytes, split arbitrarily,
    // produces exactly one chunk with every byte once and in order.
    let mut c = Chunker::new(8);
    assert_eq!(c.feed(&[1, 2, 3]), None);
    assert_eq!(c.feed(&[]), None);
    assert_eq!(c.feed(&[4, 5, 6, 7]), None);
    let out = c.feed(&[8]).expect("the eighth byte completes the chunk");
    assert_eq!(out, vec![1, 2, 3, 4, 5, 6, 7, 8]);
    assert_eq!(c.acc.len(), 0);
}

#[test]
fn chunker_two_chunks_and_five_left() {
    // target*2 + 5 bytes across reads: two full chunks come out and five
    // bytes stay behind; a third short read only tops up the remainder.
    let target = 8usize;
    let mut c = Chunker::new(target);
    let bytes: Vec<u8> = (0..(2 * target as u8 + 5)).collect();
    let first = c.feed(&bytes[..8]).expect("the first read fills a chunk");
    assert_eq!(first, vec![0, 1, 2, 3, 4, 5, 6, 7]);
    assert_eq!(c.acc.len(), 0);
    let second = c.feed(&bytes[8..21]).expect("the second read fills a chunk");
    assert_eq!(second, vec![8, 9, 10, 11, 12, 13, 14, 15]);
    assert_eq!(c.acc, vec![16, 17, 18, 19, 20]);
    // A short third read: still below the target, everything retained.
    assert_eq!(c.feed(&[21, 22]), None);
    assert_eq!(c.acc, vec![16, 17, 18, 19, 20, 21, 22]);
}

#[test]
fn player_stop_when_never_started_is_noop() {
    let mut p = AudioPlayer::new();
    assert!(!p.is_playing());
    assert_eq!(p.stop(), None);
    assert_eq!(p.stop(), None);
    assert_eq!(p.play_sink(), None);
}

#[test]
fn player_restart_releases_first_session() {
    let mut p = AudioPlayer::new();
    let first = PlayerSession { process: 1, stdin_pipe: 2, sender: 3, writer_task: 4 };
    p.start(first);
    assert!(p.is_playing());
    assert_eq!(p.play_sink(), Some(3));
    // Starting again first takes the old session out for teardown; only a
    // stopped player accepts the new session.
    let torn = p.stop().expect("the live session comes out for teardown");
    assert_eq!(torn.process, 1);
    assert_eq!(torn.writer_task, 4);
    assert!(!p.is_playing());
    let second = PlayerSession { process: 5, stdin_pipe: 6, sender: 7, writer_task: 8 };
    p.start(second);
    assert_eq!(p.play_sink(), Some(7));
}

#[test]
fn recorder_start_is_noop_while_recording() {
    let mut r = AudioRecorder::new();
    assert!(!r.is_recording());
    assert!(r.start_recording(11, 12));
    assert!(r.is_recording());
    // A second start changes nothing: no duplicate subprocess.
    assert!(!r.start_recording(13, 14));
    assert_eq!(r.process, Some(11));
    let (task, process) = r.stop_recording();
    assert_eq!((task, process), (Some(12), Some(11)));
    assert!(!r.is_recording());
    // Stopping when idle stays a no-op.
    assert_eq!(r.stop_recording(), (None, None));
}

#[test]
fn command_lines_are_exact() {
    let c = default_config();
    let aplay: Vec<String> = aplay_args(&c);
    assert_eq!(aplay, vec![
        "--quiet", "-t", "raw", "-f", "S16_LE", "-r", "24000", "-c", "1", "--buffer-size",
        "1440", "--period-size", "360", "-",
    ]);
    let arecord: Vec<String> = arecord_args(&c);
    assert_eq!(arecord, vec![
        "--quiet", "-t", "raw", "-D", "noop", "-f", "S16_LE", "-r", "24000", "-c", "1",
        "--buffer-size", "1440", "--period-size", "360",
    ]);
}

#[test]
fn config_json_round_trips() {
    let c = AudioConfig {
        pcm: String::from("hw:0,0"),
        channels: 2,
        bits_per_sample: 24,
        sample_rate: 48000,
        period_size: 120,
        buffer_size: 480,
    };
    let doc = config_to_json(&c);
    assert_eq!(
        json_to_text(&doc),
        "{\"pcm\":\"hw:0,0\",\"channels\":2,\"bits_per_sample\":24,\"sample_rate\":48000,\
         \"period_size\":120,\"buffer_size\":480}",
    );
    let back = config_from_json(doc).expect("canonical config must decode");
    assert_eq!(back, c);
}

#[test]
fn config_rejects_out_of_range_fields() {
    let c = AudioConfig {
        pcm: String::from("x"),
        channels: 1,
        bits_per_sample: 16,
        sample_rate: 1,
        period_size: 1,
        buffer_size: 1,
    };
    let mut doc = config_to_json(&c);
    if let open_xiaoai::json::JsonValue::Obj(ref mut fields) = doc {
        fields[1].1 = open_xiaoai::json::JsonValue::Num(String::from("70000"));
    }
    assert!(config_from_json(doc).is_none());
}

#[test]
fn decimal_text_is_exact() {
    assert_eq!(u64_to_string(0), "0");
    assert_eq!(u64_to_string(90210), "90210");
    assert_eq!(i64_to_string(-1), "-1");
    assert_eq!(i64_to_string(i64::MIN), "-9223372036854775808");
    assert_eq!(digits_to_u64("007"), None);
    assert_eq!(digits_to_u64(""), None);
    assert_eq!(digits_to_u64("18446744073709551615"), Some(u64::MAX));
    assert_eq!(digits_to_u64("18446744073709551616"), None);
    assert_eq!(parse_int_str("-0"), None);
    assert_eq!(parse_int_str("12x"), None);
    assert_eq!(parse_int_str("-9223372036854775809"), None);
    assert_eq!(parse_int_str("-9223372036854775808"), Some(i64::MIN));
}

#[test]
fn handler_slot_and_request_outcome() {
    let mut h = MessageHandler::new();
    assert_eq!(h.on(), Err(String::from("handler is not initialized")));
    h.set_handler(21);
    assert_eq!(h.on(), Ok(21));
    h.set_handler(22);
    assert_eq!(h.on(), Ok(22));

    // A handler success echoes the request id over the handler's response.
    let ok = MessageHandler::on_request("req-3", Ok(Response::success()));
    assert_eq!(ok.id, "req-3");
    assert_eq!(ok.code, Some(0));
    // A handler failure becomes a negative-status response with the text.
    let err = MessageHandler::on_request("req-3", Err(String::from("command not found")));
    assert_eq!(err.id, "req-3");
    assert_eq!(err.code, Some(-1));
    assert_eq!(err.msg.as_deref(), Some("command not found"));
    assert!(err.data.is_none());
}

#[test]
fn speaker_scripts_and_readings() {
    assert_eq!(SpeakerManager::get_boot_command(), "echo $(fw_env -g boot_part)");
    assert_eq!(SpeakerManager::get_boot(&res(" boot0 \n", 0)), "boot0");
    assert_eq!(
        SpeakerManager::set_boot_command("boot1"),
        "fw_env -s boot_part boot1 >/dev/null 2>&1 && echo $(fw_env -g boot_part)",
    );
    assert!(SpeakerManager::set_boot("boot1", &res("boot1\n", 0)));
    assert!(!SpeakerManager::set_boot("boot1", &res("boot0\n", 0)));
    assert_eq!(SpeakerManager::get_play_status(&res("status: 1", 0)), "playing");
    assert_eq!(SpeakerManager::get_play_status(&res("status: 2", 0)), "paused");
    assert_eq!(SpeakerManager::get_play_status(&res("status: 0", 0)), "idle");
    assert!(SpeakerManager::play(&res("{\"code\": 0}", 0)));
    assert!(!SpeakerManager::play(&res("{\"code\": 1}", 0)));
    assert!(SpeakerManager::mic_on(&res("{\"code\":0}", 0)));
    assert!(!SpeakerManager::mic_on(&res("{\"code\": 0}", 0)));
    assert_eq!(SpeakerManager::get_mic_status(&res("on\n", 0)), "on");
    assert_eq!(SpeakerManager::get_mic_status(&res("mute\n", 0)), "off");
    assert!(SpeakerManager::abort_xiaoai(&res("", 0)));
    assert!(!SpeakerManager::abort_xiaoai(&res("", 1)));
    assert_eq!(
        SpeakerManager::play_text_command("hello"),
        "/usr/sbin/tts_play.sh 'hello'",
    );
    assert_eq!(
        SpeakerManager::wake_up_command(true),
        "ubus call pnshelper event_notify '{\"src\":1,\"event\":0}'",
    );
}

#[test]
fn file_monitor_decisions() {
    // A shrink means the file was replaced: restart at zero and report it.
    assert_eq!(FileMonitor::position_after(10, 50), (0, true));
    assert_eq!(FileMonitor::position_after(50, 50), (50, false));
    assert_eq!(FileMonitor::position_after(60, 50), (50, false));
    match FileMonitor::line_event("  hello \n") {
        Some(FileMonitorEvent::NewLine(t)) => assert_eq!(t, "hello"),
        other => panic!("expected a line event, got {:?}", other),
    }
    assert_eq!(FileMonitor::line_event("   \n"), None);
}

#[test]
fn kws_line_parsing_and_dedup() {
    let (t, kw) = KwsMonitor::parse_line("17 hello world").unwrap();
    assert_eq!(t, 17);
    assert_eq!(kw, "hello");
    assert!(KwsMonitor::parse_line("nope").is_none());
    assert!(KwsMonitor::parse_line("x hello").is_none());
    assert_eq!(KwsMonitor::step(17, 17, String::from("hello")), None);
    assert_eq!(
        KwsMonitor::step(16, 17, String::from("__STARTED__")),
        Some(KwsMonitorEvent::Started),
    );
    assert_eq!(
        KwsMonitor::step(16, 17, String::from("hello")),
        Some(KwsMonitorEvent::Keyword(String::from("hello"))),
    );
}

#[test]
fn playing_monitor_maps_and_reports_changes() {
    assert_eq!(PlayingMonitor::status_of(&res("1", 0)), PlayingMonitorEvent::Playing);
    assert_eq!(PlayingMonitor::status_of(&res("2", 0)), PlayingMonitorEvent::Paused);
    assert_eq!(PlayingMonitor::status_of(&res("x", 0)), PlayingMonitorEvent::Idle);
    assert!(PlayingMonitor::should_report(
        &PlayingMonitorEvent::Idle,
        &PlayingMonitorEvent::Playing,
    ));
    assert!(!PlayingMonitor::should_report(
        &PlayingMonitorEvent::Paused,
        &PlayingMonitorEvent::Paused,
    ));
}

#[test]
fn pick_one_returns_an_element() {
    let only = [String::from("reply.wav")];
    assert_eq!(pick_one(&only), "reply.wav");
    let several = [1u32, 2, 3];
    assert!(several.contains(pick_one(&several)));
}

#[test]
fn reply_lines_and_script_choice() {
    let content = "first.wav\n\n   \nsecond one\n";
    assert_eq!(non_blank_lines(content), vec!["first.wav", "second one"]);
    assert_eq!(non_blank_lines(""), Vec::<String>::new());
    assert_eq!(
        reply_script("file:///usr/share/beep.wav"),
        "miplayer -f 'file:///usr/share/beep.wav'",
    );
    assert_eq!(reply_script("hello there"), "/usr/sbin/tts_play.sh 'hello there'");
}

#[test]
fn chunk_sizes_follow_the_format() {
    let c = default_config();
    // 1440 frames of 16-bit samples: 2880 bytes per emitted chunk.
    assert_eq!(open_xiaoai::audio::config::chunk_target(&c), 2880);
    assert_eq!(open_xiaoai::audio::config::period_bytes(&c), 720);
}
