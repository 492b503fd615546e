use gridcaster::buffer::{Cell, Color, Directive, FrameBuffer};

fn color_changes(dirs: &[Directive]) -> usize {
    dirs.iter()
        .filter(|d| matches!(d, Directive::SetForeground(_) | Directive::SetBackground(_)))
        .count()
}

#[test]
fn new_surface_is_blank() {
    let fb = FrameBuffer::new(4, 3);
    for y in 0..3 {
        for x in 0..4 {
            let c = fb.get_cell(x, y).unwrap();
            assert_eq!(c, Cell { glyph: ' ', fg: Color::Reset, bg: Color::Reset });
        }
    }
    assert!(fb.get_cell(4, 0).is_none());
    assert!(fb.get_cell(0, 3).is_none());
}

#[test]
fn out_of_range_set_is_a_no_op_and_corrupts_nothing() {
    let mut fb = FrameBuffer::new(4, 3);
    fb.set(1, 1, 'x', Color::Rgb(1, 2, 3), Color::Reset);
    let before = fb.render();
    fb.set(4, 0, 'z', Color::Rgb(9, 9, 9), Color::Reset);
    fb.set(0, 3, 'z', Color::Rgb(9, 9, 9), Color::Reset);
    fb.set(usize::MAX, usize::MAX, 'z', Color::Rgb(9, 9, 9), Color::Reset);
    let after = fb.render();
    assert_eq!(before, after);
    assert_eq!(
        fb.get_cell(1, 1).unwrap(),
        Cell { glyph: 'x', fg: Color::Rgb(1, 2, 3), bg: Color::Reset }
    );
}

#[test]
fn resize_then_clear_makes_every_cell_addressable() {
    let mut fb = FrameBuffer::new(2, 2);
    fb.resize(5, 4);
    fb.clear();
    for y in 0..4 {
        for x in 0..5 {
            fb.set(x, y, 'o', Color::Rgb(7, 7, 7), Color::Reset);
            let c = fb.get_cell(x, y).unwrap();
            assert_eq!(c.glyph, 'o');
        }
    }
    // Dimensions stayed what resize set them to.
    assert!(fb.get_cell(4, 3).is_some());
    assert!(fb.get_cell(5, 0).is_none());
    assert!(fb.get_cell(0, 4).is_none());
}

#[test]
fn resize_to_same_size_keeps_contents() {
    let mut fb = FrameBuffer::new(3, 3);
    fb.set(2, 2, 'k', Color::AnsiValue(5), Color::Reset);
    fb.resize(3, 3);
    assert_eq!(fb.get_cell(2, 2).unwrap().glyph, 'k');
}

#[test]
fn clear_paints_two_tone_ceiling_and_floor() {
    let mut fb = FrameBuffer::new(3, 4);
    fb.set(1, 1, 'w', Color::Rgb(1, 1, 1), Color::Rgb(2, 2, 2));
    fb.clear();
    for y in 0..4 {
        for x in 0..3 {
            let c = fb.get_cell(x, y).unwrap();
            assert_eq!(c.glyph, ' ');
            assert_eq!(c.fg, Color::Reset);
            if y < 2 {
                assert_eq!(c.bg, Color::AnsiValue(234));
            } else {
                assert_eq!(c.bg, Color::AnsiValue(238));
            }
        }
    }
}

#[test]
fn uniform_single_row_frame_flushes_exactly_two_color_changes() {
    for width in [1usize, 2, 7, 80, 500] {
        let mut fb = FrameBuffer::new(width, 1);
        for x in 0..width {
            fb.set(x, 0, '#', Color::Rgb(10, 20, 30), Color::AnsiValue(100));
        }
        let dirs = fb.render();
        assert_eq!(color_changes(&dirs), 2, "width {}", width);
    }
}

#[test]
fn flush_emits_rows_with_resets_between_them() {
    let mut fb = FrameBuffer::new(2, 2);
    for y in 0..2 {
        for x in 0..2 {
            fb.set(x, y, 'a', Color::Rgb(1, 1, 1), Color::Reset);
        }
    }
    let dirs = fb.render();
    assert_eq!(dirs[0], Directive::HideCursor);
    assert_eq!(dirs[1], Directive::MoveHome);
    let newlines = dirs.iter().filter(|d| matches!(d, Directive::NewLine)).count();
    assert_eq!(newlines, 1);
    let prints = dirs.iter().filter(|d| matches!(d, Directive::Print(_))).count();
    assert_eq!(prints, 4);
    // The one row break is preceded by a full color reset.
    let nl_at = dirs.iter().position(|d| matches!(d, Directive::NewLine)).unwrap();
    assert_eq!(dirs[nl_at - 2], Directive::SetForeground(Color::Reset));
    assert_eq!(dirs[nl_at - 1], Directive::SetBackground(Color::Reset));
}

#[test]
fn coalescing_splits_runs_only_at_color_boundaries() {
    let mut fb = FrameBuffer::new(4, 1);
    fb.set(0, 0, 'a', Color::Rgb(1, 1, 1), Color::Reset);
    fb.set(1, 0, 'b', Color::Rgb(1, 1, 1), Color::Reset);
    fb.set(2, 0, 'c', Color::Rgb(2, 2, 2), Color::Reset);
    fb.set(3, 0, 'd', Color::Rgb(2, 2, 2), Color::Reset);
    let dirs = fb.render();
    // One foreground change per run of equal colors; Reset background
    // matches the sink's initial state and costs nothing.
    assert_eq!(color_changes(&dirs), 2);
}

#[test]
fn draw_text_writes_a_row_of_glyphs() {
    let mut fb = FrameBuffer::new(10, 2);
    fb.clear();
    let text: Vec<char> = " FPS: 60 ".chars().collect();
    fb.draw_text(0, 0, &text, Color::Rgb(255, 255, 255), Color::AnsiValue(236));
    for (k, ch) in text.iter().enumerate() {
        let c = fb.get_cell(k, 0).unwrap();
        assert_eq!(c.glyph, *ch);
        assert_eq!(c.fg, Color::Rgb(255, 255, 255));
        assert_eq!(c.bg, Color::AnsiValue(236));
    }
    // The row below is untouched.
    assert_eq!(fb.get_cell(0, 1).unwrap().bg, Color::AnsiValue(238));
}
