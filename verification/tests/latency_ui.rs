use deskstream::latency::{FrameLatencyInfo, LogLevel, Logger, UI};

fn three_streams() -> UI {
    UI::new(vec![
        "frame".to_string(),
        "packet".to_string(),
        "main_loop".to_string(),
    ])
}

#[test]
fn measurements_are_relative_to_start() {
    let mut fli = FrameLatencyInfo::new(1000);
    fli.measure("capture".to_string(), 1250);
    fli.measure("encode".to_string(), 2000);
    assert_eq!(fli.measurements.len(), 2);
    assert_eq!(fli.measurements[0].label, "capture");
    assert_eq!(fli.measurements[0].micros, 250);
    assert_eq!(fli.measurements[1].micros, 1000);
    assert_eq!(fli.total(), 1250);
}

#[test]
fn total_of_empty_record_is_zero() {
    let fli = FrameLatencyInfo::new(5);
    assert_eq!(fli.total(), 0);
}

#[test]
fn window_keeps_the_newest_400_records() {
    let mut ui = three_streams();
    for k in 0..401u64 {
        let mut fli = FrameLatencyInfo::new(0);
        fli.measure("tick".to_string(), k);
        ui.add_frame_latency_info("frame", fli);
    }
    let frame_entries = &ui.infos[0].entries;
    assert_eq!(frame_entries.len(), 400);
    // the oldest record (total 0) was dropped, the newest kept
    assert_eq!(frame_entries[0].measurements[0].micros, 1);
    assert_eq!(frame_entries[399].measurements[0].micros, 400);
    // the other streams are untouched
    assert!(ui.infos[1].entries.is_empty());
    assert!(ui.infos[2].entries.is_empty());
}

#[test]
fn find_worst_picks_the_greatest_total() {
    let mut ui = three_streams();
    for total in [30u64, 90, 60] {
        let mut fli = FrameLatencyInfo::new(0);
        fli.measure("only".to_string(), total);
        ui.add_frame_latency_info("packet", fli);
    }
    let worst = ui.find_worst("packet");
    assert_eq!(worst.total(), 90);
}

#[test]
fn logger_keeps_info_and_above() {
    let logger = Logger::new();
    assert!(logger.enabled(LogLevel::Error));
    assert!(logger.enabled(LogLevel::Warn));
    assert!(logger.enabled(LogLevel::Info));
    assert!(!logger.enabled(LogLevel::Debug));
    assert!(!logger.enabled(LogLevel::Trace));
}

#[test]
fn log_appends_lines_in_order() {
    let logger = Logger::new();
    let mut ui = three_streams();
    logger.log(&mut ui, LogLevel::Info, "waiting for a display client");
    logger.log(&mut ui, LogLevel::Trace, "dropped");
    logger.log(&mut ui, LogLevel::Error, "boom");
    assert_eq!(ui.log, "waiting for a display client\nboom\n");
}
