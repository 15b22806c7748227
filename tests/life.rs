use conway::{
    check_neighbor, count_neighbors, histo, histogram_rows, init, life, render, Button, Cell,
    Generation, Input, Point, Session,
};

fn seed(rows: &[&str]) -> Generation {
    let rows: Vec<Vec<char>> = rows.iter().map(|r| r.chars().collect()).collect();
    init(&rows)
}

fn positions(gen: &Generation) -> Vec<(i32, i32)> {
    let mut v: Vec<(i32, i32)> = gen.cells().iter().map(|c| (c.point.x, c.point.y)).collect();
    v.sort();
    v
}

#[test]
fn point_and_cell_new() {
    let p = Point::new(3, -4);
    assert_eq!((p.x, p.y), (3, -4));
    let c = Cell::new(p, 7);
    assert_eq!(c.point, p);
    assert_eq!(c.age, 7);
}

#[test]
fn seed_marks_non_space_characters() {
    let gen = seed(&["# x", "", "  o"]);
    assert_eq!(positions(&gen), vec![(0, 0), (2, 0), (2, 2)]);
    assert_eq!(gen.tick(), 0);
    assert_eq!(gen.births(), 0);
    assert_eq!(gen.deaths(), 0);
    assert_eq!(gen.age_at(2, 2), Some(0));
    assert_eq!(gen.age_at(1, 0), None);
    assert_eq!(gen.len(), 3);
}

#[test]
fn neighbors_are_counted_around_a_point() {
    let gen = seed(&["##", "# "]);
    assert_eq!(count_neighbors(Point::new(1, 1), gen.cells()), 3);
    assert_eq!(count_neighbors(Point::new(0, 0), gen.cells()), 2);
    assert_eq!(count_neighbors(Point::new(5, 5), gen.cells()), 0);
    assert_eq!(check_neighbor(Point::new(0, 1), gen.cells(), 4), 5);
    assert_eq!(check_neighbor(Point::new(1, 1), gen.cells(), 4), 4);
}

#[test]
fn survivors_age_and_three_neighbours_give_birth() {
    let gen = seed(&["##", "# "]);
    let next = life(&gen);
    assert_eq!(positions(&next), vec![(0, 0), (0, 1), (1, 0), (1, 1)]);
    assert_eq!(next.age_at(0, 0), Some(1));
    assert_eq!(next.age_at(1, 0), Some(1));
    assert_eq!(next.age_at(0, 1), Some(1));
    assert_eq!(next.age_at(1, 1), Some(0));
    assert_eq!(next.births(), 1);
    assert_eq!(next.deaths(), 0);
    assert_eq!(next.tick(), 1);
}

#[test]
fn lonely_and_crowded_cells_die() {
    let lonely = life(&seed(&["#"]));
    assert_eq!(lonely.len(), 0);
    assert_eq!(lonely.deaths(), 1);
    assert_eq!(lonely.births(), 0);

    // the centre of a plus has four neighbours and dies; the arms survive
    // and the four corners are born
    let plus = life(&seed(&[" # ", "###", " # "]));
    assert_eq!(plus.age_at(1, 1), None);
    assert_eq!(plus.deaths(), 1);
    assert_eq!(plus.births(), 4);
    assert_eq!(plus.age_at(0, 0), Some(0));
    assert_eq!(plus.age_at(1, 0), Some(1));
}

#[test]
fn block_is_a_still_life() {
    let gen = seed(&["##", "##"]);
    let next = life(&gen);
    assert_eq!(positions(&next), positions(&gen));
    assert_eq!(next.tick(), 1);
    assert_eq!(next.births(), 0);
    assert_eq!(next.deaths(), 0);
    assert_eq!(next.age_at(1, 1), Some(1));
}

#[test]
fn blinker_returns_after_two_steps() {
    let gen = seed(&["", "###"]);
    let one = life(&gen);
    assert_eq!(positions(&one), vec![(1, 0), (1, 1), (1, 2)]);
    let two = life(&one);
    assert_eq!(positions(&two), positions(&gen));
    assert_eq!(two.tick(), 2);
    assert_eq!(two.births(), 4);
    assert_eq!(two.deaths(), 4);
    assert_eq!(two.age_at(1, 1), Some(2));
    assert_eq!(two.age_at(0, 1), Some(0));
}

#[test]
fn empty_generation_stays_empty() {
    let gen = init(&Vec::new());
    assert!(gen.can_advance());
    let next = life(&gen);
    assert_eq!(next.len(), 0);
    assert_eq!(next.tick(), 1);
    assert_eq!(next.births(), 0);
    assert_eq!(next.deaths(), 0);
}

#[test]
fn counters_follow_births_and_deaths() {
    let gen = seed(&["#  #", " ## ", "#   "]);
    let next = life(&gen);
    let before = positions(&gen);
    let after = positions(&next);
    let born = after.iter().filter(|p| !before.contains(p)).count() as u64;
    let died = before.iter().filter(|p| !after.contains(p)).count() as u64;
    assert_eq!(next.births() - gen.births(), born);
    assert_eq!(next.deaths() - gen.deaths(), died);
}

fn aged_block(steps: usize) -> Generation {
    let mut gen = seed(&["##", "##"]);
    for _ in 0..steps {
        gen = life(&gen);
    }
    gen
}

#[test]
fn histogram_counts_every_cell() {
    let gen = life(&seed(&["##", "# "]));
    let h = histo(&gen, 10);
    assert_eq!(h.len(), 11);
    assert_eq!(h[0], 1);
    assert_eq!(h[1], 3);
    assert_eq!(h.iter().sum::<usize>(), gen.len());
}

#[test]
fn histogram_caps_old_cells() {
    let gen = aged_block(12);
    let h = histo(&gen, 10);
    assert_eq!(h[10], 4);
    assert_eq!(h.iter().sum::<usize>(), 4);
    let h0 = histo(&gen, 0);
    assert_eq!(h0, vec![4]);
}

#[test]
fn histogram_of_nothing_has_empty_buckets() {
    let h = histo(&init(&Vec::new()), 3);
    assert_eq!(h, vec![0, 0, 0, 0]);
}

#[test]
fn viewport_moves_cells_on_screen() {
    let gen = seed(&["", "", "", "", "   #"]);
    let g = render(&gen, Point::new(1, 1), 80, 24);
    assert_eq!(g.len(), 1);
    assert_eq!((g[0].x, g[0].y, g[0].ch), (4, 5, '0'));
    let g = render(&gen, Point::new(-1, -1), 80, 24);
    assert_eq!((g[0].x, g[0].y), (2, 3));
    let g = render(&gen, Point::new(-1, -1), 3, 3);
    assert!(g.is_empty());
}

#[test]
fn old_cells_show_a_plus() {
    let gen = aged_block(10);
    let g = render(&gen, Point::new(0, 0), 10, 10);
    assert_eq!(g.len(), 4);
    assert!(g.iter().all(|x| x.ch == '+'));
    let gen = aged_block(9);
    let g = render(&gen, Point::new(0, 0), 10, 10);
    assert!(g.iter().all(|x| x.ch == '9'));
}

#[test]
fn histogram_bars_scale_to_the_widest() {
    let rows = histogram_rows(&vec![50, 10, 1, 0], 40);
    assert_eq!(rows.len(), 4);
    assert_eq!((rows[0].y, rows[0].age, rows[0].count, rows[0].bar), (27, 0, 50, 25));
    assert_eq!(rows[1].bar, 5);
    assert_eq!(rows[2].bar, 1);
    assert_eq!(rows[3].bar, 0);
    assert_eq!(rows[3].y, 30);
    let rows = histogram_rows(&vec![3, 7], 5);
    assert_eq!((rows[0].bar, rows[1].bar), (3, 7));
    assert_eq!((rows[0].y, rows[1].y), (0, 0));
    assert!(histogram_rows(&vec![0; 11], 0).is_empty());
    assert_eq!(histogram_rows(&vec![0; 20], 30).len(), 13);
}

#[test]
fn keys_drive_the_session() {
    let mut s = Session::new();
    assert!(s.end_frame());
    s.handle(Input::Key('s'));
    assert!(s.advance && !s.playing);
    s.end_frame();
    assert!(!s.advance);
    s.handle(Input::Key(' '));
    assert!(s.playing && s.advance);
    assert!(!s.end_frame());
    assert!(s.advance);
    s.handle(Input::Key(' '));
    assert!(!s.playing && !s.advance);
    s.handle(Input::Key('h'));
    assert!(s.show_histogram);
    s.handle(Input::Key('x'));
    assert!(!s.quit);
    s.handle(Input::Key('q'));
    assert!(s.quit);
}

#[test]
fn dragging_pans_the_view() {
    let mut s = Session::new();
    s.handle(Input::Drag(Button::Left, 5, 5));
    assert_eq!(s.offset, Point::new(0, 0));
    s.handle(Input::Down(Button::Left, 10, 10));
    assert_eq!(s.drag_anchor, Some(Point::new(10, 10)));
    s.handle(Input::Drag(Button::Left, 13, 8));
    assert_eq!(s.offset, Point::new(3, -2));
    s.handle(Input::Drag(Button::Right, 20, 20));
    assert_eq!(s.offset, Point::new(3, -2));
    s.handle(Input::Up(Button::Left, 13, 8));
    assert_eq!(s.drag_anchor, None);
    s.handle(Input::Drag(Button::Left, 0, 0));
    assert_eq!(s.offset, Point::new(3, -2));
}

#[test]
fn frames_advance_only_when_asked() {
    let mut s = Session::new();
    let gen = s.frame(seed(&["###"]));
    assert_eq!(gen.tick(), 0);
    s.handle(Input::Key('s'));
    let gen = s.frame(gen);
    assert_eq!(gen.tick(), 1);
    assert_eq!(positions(&gen), vec![(1, -1), (1, 0), (1, 1)]);
}
