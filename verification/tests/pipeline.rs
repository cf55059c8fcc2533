use pico_dvi::dvi::timing::DviTiming;
use pico_dvi::dvi::{produce_line, DviInst, DviOut, IrqAction, LineSource};
use pico_dvi::render::palette::Palette1bpp;
use pico_dvi::render::scheduler::{LineAction, LineScheduler};
use pico_dvi::render::swapcell::SwapCell;
use pico_dvi::render::{end_display_list, init_display_swapcell, start_display_list, DisplayList};
use pico_dvi::render::{LineBuf, ScanRender};

fn publish(cell: &mut SwapCell<DisplayList>, rows: u32) {
    let (mut rb, mut sb) = start_display_list(cell).unwrap();
    rb.begin_stripe(rows);
    rb.blit(&[10, 11, 12, 13, 14, 15, 16, 17], 1);
    rb.end_stripe();
    sb.begin_stripe(rows);
    sb.pal_1bpp(8, &Palette1bpp::new(0, 1));
    sb.end_stripe();
    end_display_list(cell, rb, sb);
}

#[test]
fn scheduler_assigns_rows_to_the_queue_then_the_mailbox() {
    let mut cell = SwapCell::new();
    init_display_swapcell(&mut cell, 8);
    publish(&mut cell, 6);
    let mut s: LineScheduler<4> = LineScheduler::new(4, 2);
    let r = s.schedule_next_line(&mut cell, 0, true);
    assert!(r.swapped);
    assert!(r.action == LineAction::Queued);
    assert_eq!(r.slot, 0);
    let r = s.schedule_next_line(&mut cell, 1, true);
    assert!(!r.swapped);
    assert!(r.action == LineAction::Queued);
    // The queue is given two rows at most.
    let r = s.schedule_next_line(&mut cell, 2, true);
    assert!(r.action == LineAction::Mailbox);
    assert_eq!(r.slot, 2);
    let r = s.schedule_next_line(&mut cell, 3, false);
    assert!(r.action == LineAction::Dropped);
    // Buffer 0 is still pending from row 0.
    let r = s.schedule_next_line(&mut cell, 4, true);
    assert!(r.action == LineAction::Skipped);
    assert_eq!(r.slot, 0);
    assert!(!s.is_line_available(0));
    assert!(!s.is_line_available(1));
    assert!(!s.is_line_available(3));

    let mut lines = [LineBuf::zero(); 4];
    assert_eq!(s.take_queued(), Some(0));
    s.render_line(0, &mut lines[0]);
    // Row 4 was skipped: its buffer holds row 0 but is not assigned.
    assert_eq!(lines[0].words()[0], 10);
    assert!(!s.is_line_available(4));
    assert_eq!(s.take_queued(), Some(1));
    s.render_line(1, &mut lines[1]);
    assert_eq!(lines[1].words()[0], 11);
    assert!(s.is_line_available(1));
    assert_eq!(s.take_queued(), None);
    s.render_line(2, &mut lines[2]);
    assert_eq!(lines[2].words()[0], 12);
    assert!(s.is_line_available(2));
    assert!(!s.is_line_available(3));
    // Row 5 goes to buffer 1, which is free again.
    let r = s.schedule_next_line(&mut cell, 5, false);
    assert!(r.action == LineAction::Queued);
    assert_eq!(s.take_queued(), Some(1));
    s.render_line(1, &mut lines[1]);
    assert_eq!(lines[1].words()[0], 15);
}

#[test]
fn scheduler_scans_rows_that_are_available() {
    let mut cell = SwapCell::new();
    init_display_swapcell(&mut cell, 8);
    publish(&mut cell, 2);
    let mut s: LineScheduler<8> = LineScheduler::new(3, 7);
    let mut lines = [LineBuf::zero(); 3];
    assert!(s.schedule_next_line(&mut cell, 0, false).swapped);
    s.schedule_next_line(&mut cell, 1, false);
    // Past the last row: the buffer is assigned, but nothing is rendered.
    let r = s.schedule_next_line(&mut cell, 2, false);
    assert!(r.action == LineAction::Queued);
    for slot in 0..3 {
        assert_eq!(s.take_queued(), Some(slot));
        lines[slot as usize] = LineBuf::from_words(&[99]);
        s.render_line(slot, &mut lines[slot as usize]);
    }
    assert_eq!(lines[0].words()[0], 10);
    assert_eq!(lines[1].words()[0], 11);
    assert_eq!(lines[2].words()[0], 99);
    let mut video = vec![7u32; 5];
    s.scan_line(&lines[0], &mut video, true);
    // 10 = 0b1010: pixel pairs (0,1), (0,1), (0,0), (0,0).
    assert_eq!(video, vec![0x0001_0000, 0x0001_0000, 0, 0, 7]);
    let mut video = vec![7u32; 5];
    s.scan_line(&lines[1], &mut video, false);
    assert_eq!(video, vec![7; 5]);
    s.scan_line(&lines[2], &mut video, true);
    assert_eq!(video, vec![7; 5]);
    // The next frame shows the same list.
    assert!(!s.schedule_next_line(&mut cell, 0, false).swapped);
    assert_eq!(s.take_queued(), Some(0));
    s.render_line(0, &mut lines[0]);
    s.scan_line(&lines[0], &mut video, true);
    assert_eq!(video, vec![0x0001_0000, 0x0001_0000, 0, 0, 7]);
}

#[test]
fn a_new_frame_gives_up_rows_of_the_old_one() {
    let mut cell = SwapCell::new();
    init_display_swapcell(&mut cell, 8);
    publish(&mut cell, 4);
    let mut s: LineScheduler<4> = LineScheduler::new(2, 3);
    s.schedule_next_line(&mut cell, 0, false);
    s.schedule_next_line(&mut cell, 1, false);
    // Row 0 of the next frame arrives before anything was rendered.
    let r = s.schedule_next_line(&mut cell, 0, false);
    assert!(r.action == LineAction::Skipped);
    let mut line = LineBuf::from_words(&[5]);
    assert_eq!(s.take_queued(), Some(0));
    s.render_line(0, &mut line);
    assert_eq!(line.words()[0], 5);
    assert!(!s.is_line_available(0));
}

fn small() -> DviTiming {
    DviTiming {
        h_sync_polarity: false,
        h_front_porch: 16,
        h_sync_width: 96,
        h_back_porch: 48,
        h_active_pixels: 32,
        v_sync_polarity: false,
        v_front_porch: 1,
        v_sync_width: 1,
        v_back_porch: 1,
        v_active_lines: 4,
        bit_clk_khz: 252_000,
    }
}

#[test]
fn interrupt_handler_sets_up_buffers() {
    let t = small();
    let mut out = DviOut::new();
    let inst = DviInst::new(t, &mut out);
    let err = inst.line_words(&out, LineSource::ErrLine);
    assert_eq!(err.len(), 11);
    assert_eq!(err[0], 0x3000 | 16);
    assert_eq!(err[1], 0x7c00_7c00);
    assert_eq!(err[2], 0x2000 | 16);
    assert!(err[3..].iter().all(|w| *w == 0x7c00_7c00));
    for buf_ix in 0..2 {
        let line = inst.line_words(&out, LineSource::VideoLine { buf_ix });
        assert_eq!(line.len(), 17);
        assert_eq!(line[0], 0x2000 | 32);
        assert!(line[1..].iter().all(|w| *w == u32::MAX));
    }
    assert_eq!(
        inst.line_words(&out, LineSource::SyncPulse { vsync: true }),
        &DviTiming::make_sync_pulse(&t, true)
    );
    assert_eq!(
        inst.line_words(&out, LineSource::SyncLineOnly { vsync: false }),
        &DviTiming::make_sync_line_only(&t, false)
    );
}

fn step(inst: &mut DviInst, out: &mut DviOut) -> (IrqAction, IrqAction) {
    let a = inst.on_irq(out);
    let b = inst.on_irq(out);
    (a, b)
}

#[test]
fn interrupt_handler_follows_the_frame() {
    let t = small();
    let mut out = DviOut::new();
    let mut inst = DviInst::new(t, &mut out);
    let mut cell = SwapCell::new();
    let mut scan_render = ScanRender::new();
    let mut line_buf = LineBuf::zero();
    let mut queued = Vec::new();
    let mut sources = Vec::new();
    // One frame of seven lines, starting at line 1.
    for _ in 0..7 {
        let (pulse, active) = step(&mut inst, &mut out);
        assert_eq!(pulse.channel, 0);
        assert_eq!(active.channel, 1);
        assert!(pulse.queued.is_none());
        sources.push((pulse.source, active.source));
        if let Some(y) = active.queued {
            queued.push(y);
            assert_eq!(produce_line(&mut out, &mut scan_render, &mut cell, &mut line_buf), Some(false));
        }
        assert_eq!(produce_line(&mut out, &mut scan_render, &mut cell, &mut line_buf), None);
    }
    assert_eq!(queued, vec![0, 1, 2, 3]);
    let want = [
        // line 1: sync
        (LineSource::SyncPulse { vsync: true }, LineSource::SyncLineOnly { vsync: true }),
        // line 2: back porch
        (LineSource::SyncPulse { vsync: false }, LineSource::SyncLineOnly { vsync: false }),
        // lines 3 to 6: picture
        (LineSource::SyncPulse { vsync: false }, LineSource::VideoLine { buf_ix: 0 }),
        (LineSource::SyncPulse { vsync: false }, LineSource::VideoLine { buf_ix: 1 }),
        (LineSource::SyncPulse { vsync: false }, LineSource::VideoLine { buf_ix: 0 }),
        (LineSource::SyncPulse { vsync: false }, LineSource::VideoLine { buf_ix: 1 }),
        // line 0: front porch
        (LineSource::SyncPulse { vsync: false }, LineSource::SyncLineOnly { vsync: false }),
    ];
    for (got, want) in sources.iter().zip(want.iter()) {
        assert!(got.0 == want.0 && got.1 == want.1);
    }
    // The black picture reached the buffers.
    let line = inst.line_words(&out, LineSource::VideoLine { buf_ix: 0 });
    assert_eq!(line[0], 0x2000 | 32);
    assert!(line[1..].iter().all(|w| *w == 0));
}

#[test]
fn a_line_that_is_late_is_replaced() {
    let t = small();
    let mut out = DviOut::new();
    let mut inst = DviInst::new(t, &mut out);
    let mut cell = SwapCell::new();
    let mut scan_render = ScanRender::new();
    let mut line_buf = LineBuf::zero();
    // Lines 1 and 2: rows 0 and 1 are queued, nothing is produced.
    let (_, a) = step(&mut inst, &mut out);
    assert!(a.queued.is_none());
    let (_, a) = step(&mut inst, &mut out);
    assert_eq!(a.queued, Some(0));
    // Line 3 shows row 0, which is still lent; row 1 is queued.
    let (_, a) = step(&mut inst, &mut out);
    assert!(a.source == LineSource::ErrLine);
    assert_eq!(a.queued, Some(1));
    // Line 4 shows row 1, also lent; row 2 finds buffer 0 lent: a miss.
    let (_, a) = step(&mut inst, &mut out);
    assert!(a.source == LineSource::ErrLine);
    assert_eq!(a.queued, None);
    // Both rows are produced now, too late for row 2.
    assert!(produce_line(&mut out, &mut scan_render, &mut cell, &mut line_buf).is_some());
    assert!(produce_line(&mut out, &mut scan_render, &mut cell, &mut line_buf).is_some());
    assert!(produce_line(&mut out, &mut scan_render, &mut cell, &mut line_buf).is_none());
    // Line 5 shows row 2, which was missed; row 3 is queued.
    let (_, a) = step(&mut inst, &mut out);
    assert!(a.source == LineSource::ErrLine);
    assert_eq!(a.queued, Some(3));
    assert!(produce_line(&mut out, &mut scan_render, &mut cell, &mut line_buf).is_some());
    // Line 6 shows row 3.
    let (_, a) = step(&mut inst, &mut out);
    assert!(a.source == LineSource::VideoLine { buf_ix: 1 });
}

#[test]
fn second_core_renders_what_is_queued() {
    let mut cell = SwapCell::new();
    init_display_swapcell(&mut cell, 8);
    publish(&mut cell, 3);
    let mut s: LineScheduler<4> = LineScheduler::new(3, 3);
    let mut lines = vec![LineBuf::zero(); 3];
    assert_eq!(s.render_queued(&mut lines), None);
    for y in 0..3 {
        assert!(s.schedule_next_line(&mut cell, y, false).action == LineAction::Queued);
    }
    assert_eq!(s.render_queued(&mut lines), Some(0));
    assert!(s.is_line_available(0));
    assert!(!s.is_line_available(1));
    assert_eq!(s.render_queued(&mut lines), Some(1));
    assert_eq!(s.render_queued(&mut lines), Some(2));
    assert_eq!(s.render_queued(&mut lines), None);
    let first: Vec<u32> = lines.iter().map(|l| l.words()[0]).collect();
    assert_eq!(first, vec![10, 11, 12]);
}

#[test]
fn a_line_is_produced_in_two_halves() {
    let mut cell = SwapCell::new();
    init_display_swapcell(&mut cell, 8);
    publish(&mut cell, 2);
    let mut whole = ScanRender::new();
    let mut line = LineBuf::zero();
    let mut want = [7u32; 6];
    assert!(whole.render_scanline(&mut cell, &mut line, &mut want, 0));

    let mut cell = SwapCell::new();
    init_display_swapcell(&mut cell, 8);
    publish(&mut cell, 2);
    let mut halves = ScanRender::new();
    let mut line = LineBuf::zero();
    let mut pixels = [7u32; 6];
    assert!(halves.begin_line(&mut cell, 0));
    assert_eq!(pixels, [7; 6]);
    assert!(halves.render_row(&mut line, &mut pixels));
    assert_eq!(pixels, want);
    assert_ne!(pixels, [7; 6]);
    // The second row follows without a new frame, and then no more.
    assert!(!halves.begin_line(&mut cell, 1));
    assert!(halves.render_row(&mut line, &mut pixels));
    assert!(!halves.begin_line(&mut cell, 2));
    let before = pixels;
    assert!(!halves.render_row(&mut line, &mut pixels));
    assert_eq!(pixels, before);
    // A row number that does not grow starts the frame again.
    assert!(!halves.begin_line(&mut cell, 2));
    assert!(halves.render_row(&mut line, &mut pixels));
    assert_eq!(pixels, want);
}

#[test]
fn a_line_from_elsewhere_goes_behind_the_command() {
    let mut out = DviOut::new();
    let mut inst = DviInst::new(small(), &mut out);
    // Run until a line is asked for.
    let mut queued = None;
    for _ in 0..40 {
        let (_, a) = step(&mut inst, &mut out);
        if a.queued.is_some() {
            queued = a.queued;
            break;
        }
    }
    let y = queued.unwrap();
    let (line_ix, guard) = out.get_line().unwrap();
    assert_eq!(line_ix, y);
    let buf_ix = guard.index();
    let before = inst.line_words(&out, LineSource::VideoLine { buf_ix }).to_vec();
    let pixels: Vec<u32> = (100..100 + before.len() as u32 + 3).collect();
    // A line that is too short leaves the rest as it is.
    out.store(&guard, &pixels[..2]);
    let after = inst.line_words(&out, LineSource::VideoLine { buf_ix }).to_vec();
    assert_eq!(after[0], before[0]);
    assert_eq!(after[1..3], [100, 101]);
    assert_eq!(after[3..], before[3..]);
    // A line that is too long is cut.
    out.store(&guard, &pixels);
    let after = inst.line_words(&out, LineSource::VideoLine { buf_ix }).to_vec();
    assert_eq!(after.len(), before.len());
    assert_eq!(after[0], before[0]);
    assert_eq!(after[1..], pixels[..before.len() - 1]);
    out.release(guard);
}
