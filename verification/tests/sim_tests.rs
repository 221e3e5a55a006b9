use cavegrid::camera::follow_axis;
use cavegrid::sim::{Algorithm, App};

#[test]
fn follow_axis_exact_values() {
    // Cursor beyond the far edge: origin lands so the cursor sits on it.
    assert_eq!(follow_axis(5, 0, 3, 10), 3);
    // Cursor before the viewport: origin lands on the cursor.
    assert_eq!(follow_axis(0, 5, 3, 10), 0);
    // Cursor at the last column: origin clamps to world minus view.
    assert_eq!(follow_axis(9, 0, 3, 10), 7);
    // Cursor already visible: origin stays.
    assert_eq!(follow_axis(4, 3, 3, 10), 3);
    // Viewport at least the world: origin pins to 0.
    assert_eq!(follow_axis(2, 1, 5, 4), 0);
}

#[test]
fn follow_cursor_keeps_cursor_visible() {
    let mut app = App::default();
    app.set_view(10, 5);
    app.cursor_x = 70;
    app.cursor_y = 40;
    app.follow_cursor();
    assert!(app.cam_x <= app.cursor_x && app.cursor_x < app.cam_x + app.view_w);
    assert!(app.cam_y <= app.cursor_y && app.cursor_y < app.cam_y + app.view_h);
    assert!(app.cam_x + app.view_w <= app.grid.w);
    assert!(app.cam_y + app.view_h <= app.grid.h);

    app.cursor_x = 0;
    app.cursor_y = 0;
    app.follow_cursor();
    assert_eq!((app.cam_x, app.cam_y), (0, 0));
}

#[test]
fn set_view_clamps_to_world() {
    let mut app = App::default();
    app.set_view(0, 0);
    assert_eq!((app.view_w, app.view_h), (1, 1));
    app.set_view(500, 500);
    assert_eq!((app.view_w, app.view_h), (80, 42));
    app.set_view(10, 5);
    assert_eq!((app.view_w, app.view_h), (10, 5));
}

#[test]
fn default_app_state() {
    let app = App::default();
    assert_eq!((app.grid.w, app.grid.h), (80, 42));
    assert_eq!((app.cursor_x, app.cursor_y), (0, 0));
    assert_eq!((app.cam_x, app.cam_y), (0, 0));
    assert_eq!((app.view_w, app.view_h), (1, 1));
    assert_eq!(app.seed, 1);
    assert_eq!(app.algo, Algorithm::Paint);
    assert!(!app.running);
    assert!(!app.exit);
    assert_eq!(app.grid.get(40, 20), Some(false));
}

#[test]
fn cursor_moves_saturate_at_world_edges() {
    let mut app = App::default();
    app.move_left();
    app.move_up();
    assert_eq!((app.cursor_x, app.cursor_y), (0, 0));
    for _ in 0..100 {
        app.move_right();
        app.move_down();
    }
    assert_eq!((app.cursor_x, app.cursor_y), (79, 41));
}

#[test]
fn mode_switch_pauses() {
    let mut app = App::default();
    app.toggle_run();
    assert!(app.running);
    app.select_life();
    assert!(!app.running);
    assert_eq!(app.algo, Algorithm::Life);
    app.toggle_run();
    assert!(app.running);
    app.select_drunk_walk();
    assert!(!app.running);
    assert_eq!(app.algo, Algorithm::DrunkWalk);
    app.toggle_run();
    app.select_paint();
    assert_eq!(app.algo, Algorithm::Paint);
    assert!(app.running, "switching to paint leaves the run state alone");
}

#[test]
fn toggle_cell_flips_under_cursor() {
    let mut app = App::default();
    app.move_right();
    app.move_down();
    app.toggle_cell();
    assert_eq!(app.grid.get(1, 1), Some(true));
    app.toggle_cell();
    assert_eq!(app.grid.get(1, 1), Some(false));
}

#[test]
fn step_active_paint_is_noop() {
    let mut app = App::default();
    app.toggle_cell();
    app.step_active();
    assert_eq!(app.grid.get(0, 0), Some(true));
    assert_eq!(app.seed, 1);
}

#[test]
fn step_active_life_steps_grid() {
    // A lone cell dies of loneliness on the next generation.
    let mut app = App::default();
    app.toggle_cell();
    app.select_life();
    app.step_active();
    assert_eq!(app.grid.get(0, 0), Some(false));
}

#[test]
fn step_active_drunk_walk_reseeds_and_recenters() {
    let mut app = App::default();
    app.set_view(10, 5);
    app.select_drunk_walk();
    app.step_active();
    assert_eq!(app.seed, 2);
    assert_eq!(app.cursor_x, 80 / 2 + 10 / 2);
    assert_eq!(app.cursor_y, 42 / 2 + 5 / 2);
    assert!(app.cam_x <= app.cursor_x && app.cursor_x < app.cam_x + app.view_w);
    // round(80 * 42 * 2/5) = 1344 cells are open afterwards.
    let mut open = 0usize;
    for y in 0..app.grid.h {
        for x in 0..app.grid.w {
            if app.grid.get(x, y) == Some(false) {
                open += 1;
            }
        }
    }
    assert_eq!(open, 1344);
}

#[test]
fn regen_new_seed_steps_counter() {
    let mut app = App::default();
    app.regen_new_seed(45, 100);
    assert_eq!(app.seed, 2);
    let mut other = App::default();
    other.seed = 2;
    other.regen_random(45, 100);
    for y in 0..42 {
        for x in 0..80 {
            assert_eq!(app.grid.get(x, y), other.grid.get(x, y));
        }
    }
}

#[test]
fn request_exit_sets_flag() {
    let mut app = App::default();
    app.request_exit();
    assert!(app.exit);
}
