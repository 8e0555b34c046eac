use plotter::bounds::finite_bounds;
use plotter::canvas::{Canvas, Mode};
use plotter::error::DrawError;
use plotter::frame::{Extent, Frame, Scale};
use plotter::render::{plot, plot_counts, plot_dots, render, Shade, Shades, MARK};

fn measured(values: &[f64]) -> Extent {
    let bits: Vec<u64> = values.iter().map(|v| v.to_bits()).collect();
    let bounds = finite_bounds(&bits).unwrap();
    let min = f64::from_bits(bounds.min);
    let max = f64::from_bits(bounds.max);
    Extent { bounds, span: (max - min).to_bits(), unit_top: (min + 1.0).to_bits() }
}

fn offset(scale: Scale, v: f64) -> usize {
    let fraction = (v - f64::from_bits(scale.min)) / f64::from_bits(scale.range);
    (scale.extent as f64 * fraction).round() as usize
}

fn square(size: usize) -> Frame {
    Frame::new_over(size, size, measured(&[0.0, 1.0]), measured(&[0.0, 1.0])).ok().unwrap()
}

fn lines(canvas: &Canvas) -> Vec<String> {
    (0..canvas.height())
        .map(|row| String::from_utf8(canvas.line(row).unwrap()).unwrap())
        .collect()
}

#[test]
fn the_mark_is_a_star() {
    assert_eq!(MARK, b'*');
}

#[test]
fn a_dot_marks_the_cell_of_its_point() {
    let frame = square(5);
    let mut canvas = Canvas::new(5, 5).unwrap();
    plot_dots(&frame, &mut canvas, &vec![(0, 0), (2, 1), (4, 4)]);
    assert_eq!(lines(&canvas), vec!["    *", "     ", "     ", "  *  ", "*    "]);
}

#[test]
fn two_points_in_one_cell_leave_one_mark() {
    let frame = square(5);
    let mut once = Canvas::new(5, 5).unwrap();
    plot_dots(&frame, &mut once, &vec![(2, 2)]);
    let mut twice = Canvas::new(5, 5).unwrap();
    plot_dots(&frame, &mut twice, &vec![(2, 2), (2, 2)]);
    let mut often = Canvas::new(5, 5).unwrap();
    plot_dots(&frame, &mut often, &vec![(2, 2); 40]);
    assert_eq!(lines(&once), lines(&twice));
    assert_eq!(lines(&once), lines(&often));
    assert_eq!(twice.glyph(2, 2), Some(MARK));
    let marks = lines(&twice).concat().bytes().filter(|glyph| *glyph == MARK).count();
    assert_eq!(marks, 1);
}

#[test]
fn plotting_dots_again_changes_nothing() {
    let frame = square(5);
    let points = vec![(1, 1), (3, 2), (1, 1)];
    let mut canvas = Canvas::new(5, 5).unwrap();
    plot_dots(&frame, &mut canvas, &points);
    let first = lines(&canvas);
    plot_dots(&frame, &mut canvas, &points);
    assert_eq!(lines(&canvas), first);
}

#[test]
fn points_off_the_grid_are_dropped() {
    let frame = square(4);
    let mut canvas = Canvas::new(4, 4).unwrap();
    let points = vec![(4, 0), (0, 4), (usize::MAX, 1), (1, usize::MAX), (9, 9)];
    plot_dots(&frame, &mut canvas, &points);
    assert_eq!(lines(&canvas), vec!["    "; 4]);
    plot_counts(&frame, &mut canvas, &points, &Shades::standard());
    assert_eq!(lines(&canvas), vec!["    "; 4]);
}

#[test]
fn no_points_leave_the_canvas_as_it_was() {
    let frame = square(4);
    let mut canvas = Canvas::new(4, 4).unwrap();
    *canvas.cell(1, 1).unwrap() = b'q';
    plot_dots(&frame, &mut canvas, &vec![]);
    assert_eq!(lines(&canvas), vec!["    ", " q  ", "    ", "    "]);
    plot_counts(&frame, &mut canvas, &vec![], &Shades::standard());
    assert_eq!(lines(&canvas), vec!["    ", " q  ", "    ", "    "]);
}

#[test]
fn the_standard_scale_doubles_from_level_to_level() {
    let shades = Shades::standard();
    let wanted: [(usize, u8); 12] = [
        (1, b'.'),
        (2, b':'),
        (3, b':'),
        (4, b'o'),
        (7, b'o'),
        (8, b'O'),
        (15, b'O'),
        (16, b'@'),
        (17, b'@'),
        (1000, b'@'),
        (usize::MAX, b'@'),
        (0, b'.'),
    ];
    for (count, glyph) in wanted {
        assert_eq!(shades.glyph_for(count), glyph, "count {}", count);
    }
    assert_eq!(shades.level(1), 0);
    assert_eq!(shades.level(5), 2);
    assert_eq!(shades.level(16), 4);
}

#[test]
fn a_denser_cell_never_gets_a_lighter_glyph() {
    let shades = Shades::standard();
    for fewer in 1..70usize {
        for more in fewer..140usize {
            assert!(shades.level(fewer) <= shades.level(more), "{} {}", fewer, more);
        }
        assert!(shades.level(fewer) <= shades.level(2 * fewer));
    }
}

#[test]
fn a_scale_must_be_graded() {
    let shade = |from: usize, glyph: u8| Shade { from, glyph };
    assert!(Shades::new(vec![]).is_none());
    assert!(Shades::new(vec![shade(2, b'a')]).is_none());
    assert!(Shades::new(vec![shade(0, b'a')]).is_none());
    assert!(Shades::new(vec![shade(1, b'a'), shade(1, b'b')]).is_none());
    assert!(Shades::new(vec![shade(1, b'a'), shade(5, b'b'), shade(3, b'c')]).is_none());
    assert!(Shades::new(vec![shade(1, b'a'), shade(3, b'b'), shade(3, b'c')]).is_none());
    assert!(Shades::new(vec![shade(1, b'a')]).is_some());
    let own = Shades::new(vec![shade(1, b'a'), shade(3, b'b'), shade(10, b'c')]).unwrap();
    assert_eq!(own.glyph_for(1), b'a');
    assert_eq!(own.glyph_for(2), b'a');
    assert_eq!(own.glyph_for(3), b'b');
    assert_eq!(own.glyph_for(9), b'b');
    assert_eq!(own.glyph_for(10), b'c');
    assert_eq!(own.glyph_for(11), b'c');
}

#[test]
fn counts_pick_the_glyph_of_each_cell() {
    let frame = square(5);
    let mut points = vec![(0, 0)];
    points.extend(vec![(1, 1); 2]);
    points.extend(vec![(2, 2); 4]);
    points.extend(vec![(3, 3); 9]);
    points.extend(vec![(4, 4); 16]);
    points.extend(vec![(4, 0); 3]);
    let mut canvas = Canvas::new(5, 5).unwrap();
    plot_counts(&frame, &mut canvas, &points, &Shades::standard());
    assert_eq!(lines(&canvas), vec!["    @", "   O ", "  o  ", " :   ", ".   :"]);
}

#[test]
fn counts_do_not_depend_on_the_order_of_the_points() {
    let frame = square(5);
    let forward = vec![(1, 1), (2, 2), (1, 1), (3, 0), (1, 1), (1, 1), (2, 2)];
    let mut backward = forward.clone();
    backward.reverse();
    let mut one = Canvas::new(5, 5).unwrap();
    plot_counts(&frame, &mut one, &forward, &Shades::standard());
    let mut other = Canvas::new(5, 5).unwrap();
    plot_counts(&frame, &mut other, &backward, &Shades::standard());
    assert_eq!(lines(&one), lines(&other));
    assert_eq!(one.glyph(3, 1), Some(b'o'));
    assert_eq!(one.glyph(2, 2), Some(b':'));
    assert_eq!(one.glyph(4, 3), Some(b'.'));
}

#[test]
fn the_mode_picks_the_way_of_plotting() {
    let frame = square(4);
    let points = vec![(1, 1), (1, 1), (1, 1), (1, 1)];
    let mut dots = Canvas::new(4, 4).unwrap();
    plot(&frame, &mut dots, &points, Mode::Dot, &Shades::standard());
    assert_eq!(dots.glyph(2, 1), Some(b'*'));
    let mut counts = Canvas::new(4, 4).unwrap();
    plot(&frame, &mut counts, &points, Mode::Count, &Shades::standard());
    assert_eq!(counts.glyph(2, 1), Some(b'o'));
}

#[test]
fn points_are_drawn_over_the_axes() {
    let frame = Frame::new_over(7, 5, measured(&[-1.0, 1.0]), measured(&[-1.0, 1.0])).ok().unwrap();
    let points = vec![(3, 2), (0, 2), (3, 4)];
    let canvas = render(&frame, 3, 2, &points, Mode::Dot, &Shades::standard()).ok().unwrap();
    assert_eq!(
        lines(&canvas),
        vec!["   *   ", "   |   ", "*--*-+-", "   |   ", "   |   "]
    );
    let counted = render(&frame, 3, 2, &points, Mode::Count, &Shades::standard()).ok().unwrap();
    assert_eq!(
        lines(&counted),
        vec!["   .   ", "   |   ", ".--.-+-", "   |   ", "   |   "]
    );
}

#[test]
fn a_plot_of_three_points_from_end_to_end() {
    let xs = [0.0, 1.0, 2.0];
    let ys = [0.0, 1.0, 4.0];
    let frame = Frame::new_over(10, 10, measured(&xs), measured(&ys)).ok().unwrap();
    let across = offset(frame.x_scale(), f64::from_bits(frame.vertical_anchor().at));
    let up = offset(frame.y_scale(), f64::from_bits(frame.horizontal_anchor().at));
    assert_eq!((across, up), (0, 0));
    let points: Vec<(usize, usize)> = xs
        .iter()
        .zip(ys.iter())
        .map(|(x, y)| (offset(frame.x_scale(), *x), offset(frame.y_scale(), *y)))
        .collect();
    assert_eq!(points, vec![(0, 0), (4, 2), (8, 8)]);
    let canvas = render(&frame, across, up, &points, Mode::Dot, &Shades::standard()).ok().unwrap();
    assert_eq!(
        lines(&canvas),
        vec![
            "+         ",
            "|       * ",
            "|         ",
            "|         ",
            "|         ",
            "+         ",
            "|         ",
            "|   *     ",
            "|         ",
            "*----+----",
        ]
    );
}

#[test]
fn render_reports_an_axis_that_has_no_place() {
    let frame = square(6);
    let none: Vec<(usize, usize)> = vec![];
    assert!(matches!(
        render(&frame, 0, 6, &none, Mode::Dot, &Shades::standard()),
        Err(DrawError::NoSuchRow { up: 6 })
    ));
    assert!(matches!(
        render(&frame, 6, 0, &none, Mode::Count, &Shades::standard()),
        Err(DrawError::NoSuchCell { row: 0, column: 6 })
    ));
    assert!(render(&frame, 5, 5, &none, Mode::Count, &Shades::standard()).is_ok());
}
