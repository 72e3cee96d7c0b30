use hc12_sdr::bitrate::BitRate;
use hc12_sdr::bits::byte_from_bits;
use hc12_sdr::constants::{SDR_CENTER_FREQUENCY, SDR_SAMPLE_RATE};
use hc12_sdr::rtlsdr::{
    convert_iq, next_action, outcome_for, running_after, BlockOutcome, CaptureAction,
    RTLSDRCommand, SourceMode, QUEUE_CAPACITY, RAW_FULL_SCALE, READ_LEN, RETRY_PAUSE_MS,
    SIMULATION_PAUSE_MS,
};
use hc12_sdr::sample::IqSample;
use hc12_sdr::sdr::{SdrConfig, TRANSFER_BUFFERS, TRANSFER_BUFFER_LEN};
use hc12_sdr::visualizer::{is_printable_text, SignalVisualizer};

#[test]
fn norm_sqr_is_sum_of_squares() {
    assert_eq!(IqSample { re: 3, im: -4 }.norm_sqr(), 25);
    assert_eq!(IqSample { re: 0, im: 0 }.norm_sqr(), 0);
    assert_eq!(IqSample { re: i16::MIN, im: i16::MIN }.norm_sqr(), 1 << 31);
    assert_eq!(IqSample { re: i16::MAX, im: i16::MAX }.norm_sqr(), 2 * 32767 * 32767);
}

#[test]
fn raw_bytes_become_centred_samples() {
    let samples = convert_iq(&[0, 255, 127, 128, 200, 100]);
    assert_eq!(
        samples,
        vec![
            IqSample { re: -255, im: 255 },
            IqSample { re: -1, im: 1 },
            IqSample { re: 145, im: -55 },
        ]
    );
    assert_eq!(RAW_FULL_SCALE, 255);
}

#[test]
fn an_unpaired_last_byte_is_dropped() {
    assert_eq!(convert_iq(&[10, 20, 30]), vec![IqSample { re: -235, im: -215 }]);
    assert_eq!(convert_iq(&[10]), Vec::<IqSample>::new());
    assert_eq!(convert_iq(&[]), Vec::<IqSample>::new());
}

#[test]
fn commands_compare_by_value() {
    assert_eq!(RTLSDRCommand::SetFrequency(433_400_000), RTLSDRCommand::SetFrequency(433_400_000));
    assert_ne!(RTLSDRCommand::SetFrequency(1), RTLSDRCommand::SetSampleRate(1));
    assert_ne!(RTLSDRCommand::Stop, RTLSDRCommand::SetSampleRate(0));
}

fn config(gain_db: i32) -> SdrConfig {
    SdrConfig { device_index: 0, center_frequency: 433_400_000, sample_rate_hz: 2_048_000, gain_db }
}

#[test]
fn negative_gain_asks_for_automatic_gain() {
    assert_eq!(config(-1).tuner_gain_tenths(), None);
    assert_eq!(config(i32::MIN).tuner_gain_tenths(), None);
}

#[test]
fn manual_gain_is_given_in_tenths() {
    assert_eq!(config(0).tuner_gain_tenths(), Some(0));
    assert_eq!(config(30).tuner_gain_tenths(), Some(300));
    assert_eq!(config(i32::MAX).tuner_gain_tenths(), Some(21_474_836_470));
}

#[test]
fn bit_rates_have_their_values() {
    assert_eq!(BitRate::Rate5000.as_value(), 5000);
    assert_eq!(BitRate::Rate15000.as_value(), 15000);
    assert_eq!(BitRate::Rate58000.as_value(), 58000);
    assert_eq!(BitRate::Rate236000.as_value(), 236000);
}

#[test]
fn bit_rates_have_their_labels() {
    assert_eq!(BitRate::Rate5000.as_string(), "5000");
    assert_eq!(BitRate::Rate15000.as_string(), "15000");
    assert_eq!(BitRate::Rate58000.as_string(), "58000");
    assert_eq!(BitRate::Rate236000.as_string(), "236000");
}

#[test]
fn labels_spell_the_values() {
    for rate in [BitRate::Rate5000, BitRate::Rate15000, BitRate::Rate58000, BitRate::Rate236000] {
        assert_eq!(rate.as_string(), format!("{}", rate.as_value()));
    }
}

#[test]
fn visualizer_starts_with_the_receiver_defaults() {
    let visualizer = SignalVisualizer::new();
    assert_eq!(visualizer.history_size(), 2048);
    assert_eq!(visualizer.sample_rate(), SDR_SAMPLE_RATE);
    assert_eq!(visualizer.sample_rate(), 2_048_000);
    assert_eq!(visualizer.center_frequency(), SDR_CENTER_FREQUENCY);
    let other = SignalVisualizer::default();
    assert_eq!(other.history_size(), 2048);
}

#[test]
fn plots_take_every_nth_sample() {
    let visualizer = SignalVisualizer::new();
    assert_eq!(visualizer.step_for(0), 1);
    assert_eq!(visualizer.step_for(1), 1);
    assert_eq!(visualizer.step_for(2048), 1);
    assert_eq!(visualizer.step_for(4095), 1);
    assert_eq!(visualizer.step_for(4096), 2);
    assert_eq!(visualizer.step_for(262_144), 128);
}

#[test]
fn plots_show_no_more_than_the_history() {
    let visualizer = SignalVisualizer::new();
    assert_eq!(visualizer.points_for(0), 0);
    assert_eq!(visualizer.points_for(100), 100);
    assert_eq!(visualizer.points_for(2048), 2048);
    assert_eq!(visualizer.points_for(4095), 2048);
    assert_eq!(visualizer.points_for(4097), 2048);
    assert_eq!(visualizer.points_for(6143), 2048);
}

#[test]
fn a_byte_is_read_least_significant_bit_first() {
    let bits = [true, false, false, false, false, false, true, false, true, true];
    assert_eq!(byte_from_bits(&bits, 0), 0x41);
    assert_eq!(byte_from_bits(&bits, 1), 0xA0);
    assert_eq!(byte_from_bits(&bits, 2), 0xD0);
    assert_eq!(byte_from_bits(&[true; 8], 0), 0xFF);
    assert_eq!(byte_from_bits(&[false; 8], 0), 0x00);
}

#[test]
fn a_stop_request_ends_the_loop_in_either_mode() {
    for mode in [SourceMode::Device, SourceMode::Simulation] {
        let action = next_action(mode, Some(RTLSDRCommand::Stop));
        assert_eq!(action, CaptureAction::Stop);
        assert!(!running_after(mode, action));
    }
}

#[test]
fn a_device_is_tuned_before_the_next_block() {
    assert_eq!(
        next_action(SourceMode::Device, Some(RTLSDRCommand::SetFrequency(433_400_000))),
        CaptureAction::TuneAndProduce(433_400_000)
    );
    assert_eq!(
        next_action(SourceMode::Device, Some(RTLSDRCommand::SetSampleRate(1_024_000))),
        CaptureAction::ResampleAndProduce(1_024_000)
    );
    assert_eq!(next_action(SourceMode::Device, None), CaptureAction::Produce);
}

#[test]
fn a_simulated_source_has_nothing_to_tune() {
    assert_eq!(
        next_action(SourceMode::Simulation, Some(RTLSDRCommand::SetFrequency(433_400_000))),
        CaptureAction::Produce
    );
    assert_eq!(
        next_action(SourceMode::Simulation, Some(RTLSDRCommand::SetSampleRate(1_024_000))),
        CaptureAction::Produce
    );
    assert_eq!(next_action(SourceMode::Simulation, None), CaptureAction::Produce);
}

#[test]
fn only_a_device_that_has_not_been_stopped_is_running() {
    assert!(running_after(SourceMode::Device, CaptureAction::Produce));
    assert!(running_after(SourceMode::Device, CaptureAction::TuneAndProduce(1)));
    assert!(running_after(SourceMode::Device, CaptureAction::ResampleAndProduce(1)));
    assert!(!running_after(SourceMode::Device, CaptureAction::Stop));
    assert!(!running_after(SourceMode::Simulation, CaptureAction::Produce));
    assert!(!running_after(SourceMode::Simulation, CaptureAction::Stop));
}

#[test]
fn every_block_is_forwarded_and_a_failed_read_is_retried() {
    assert_eq!(outcome_for(SourceMode::Device, true), BlockOutcome::Forward { pause_ms: 0 });
    assert_eq!(outcome_for(SourceMode::Simulation, true), BlockOutcome::Forward { pause_ms: 100 });
    assert_eq!(outcome_for(SourceMode::Device, false), BlockOutcome::Retry { pause_ms: 10 });
    assert_eq!(outcome_for(SourceMode::Simulation, false), BlockOutcome::Retry { pause_ms: 10 });
    assert_eq!(SIMULATION_PAUSE_MS, 100);
    assert_eq!(RETRY_PAUSE_MS, 10);
    assert_eq!(READ_LEN, 262_144);
    assert_eq!(QUEUE_CAPACITY, 8);
}

#[test]
fn streaming_reads_use_twelve_buffers_of_thirty_two_kibibytes() {
    assert_eq!(TRANSFER_BUFFERS, 12);
    assert_eq!(TRANSFER_BUFFER_LEN, 32_768);
}

#[test]
fn a_spectrum_needs_sixty_four_samples() {
    let visualizer = SignalVisualizer::new();
    assert_eq!(visualizer.spectrum_size(0), None);
    assert_eq!(visualizer.spectrum_size(63), None);
    assert_eq!(visualizer.spectrum_size(64), Some(64));
}

#[test]
fn a_spectrum_takes_the_next_power_of_two_up_to_the_history() {
    let visualizer = SignalVisualizer::new();
    assert_eq!(visualizer.spectrum_size(65), Some(128));
    assert_eq!(visualizer.spectrum_size(1000), Some(1024));
    assert_eq!(visualizer.spectrum_size(1024), Some(1024));
    assert_eq!(visualizer.spectrum_size(1025), Some(2048));
    assert_eq!(visualizer.spectrum_size(2048), Some(2048));
    assert_eq!(visualizer.spectrum_size(2049), Some(2048));
    assert_eq!(visualizer.spectrum_size(262_144), Some(2048));
    assert_eq!(visualizer.spectrum_size(usize::MAX), Some(2048));
    for len in 64..5000usize {
        assert_eq!(visualizer.spectrum_size(len), Some(len.next_power_of_two().min(2048)));
    }
}

#[test]
fn text_is_visible_ascii_and_white_space() {
    assert!(is_printable_text(b"HC-12 says: hello, world!"));
    assert!(is_printable_text(b"two\tlines\r\nand a form feed\x0C"));
    assert!(is_printable_text(b" "));
    assert!(is_printable_text(b"~!"));
}

#[test]
fn anything_else_is_not_text() {
    assert!(!is_printable_text(b""));
    assert!(!is_printable_text(b"bell\x07"));
    assert!(!is_printable_text(b"\x00"));
    assert!(!is_printable_text(b"del\x7F"));
    assert!(!is_printable_text(b"vertical tab\x0B"));
    assert!(!is_printable_text("caf\u{e9}".as_bytes()));
    assert!(!is_printable_text(&[0x41, 0xFF]));
}

#[test]
fn text_agrees_with_the_character_classes() {
    for byte in 0..=255u8 {
        let expected = byte.is_ascii_graphic() || byte.is_ascii_whitespace();
        assert_eq!(is_printable_text(&[b'a', byte]), expected, "{byte}");
    }
}
