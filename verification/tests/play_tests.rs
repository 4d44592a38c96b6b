use biplanevsaliens::bullet::{Bullet, BulletInstance, BULLET_LIFETIME, DEAD_CLICKS};
use biplanevsaliens::controls::{process_keyboard, Controls, Key, KeyEvent};
use biplanevsaliens::enemy_ship::{
    possible_locations_for_enemy, select_spawn_positions, EnemyShip, EnemyShipInstance,
};
use biplanevsaliens::game::{
    fire_ready, game_over, find_sdl_gl_driver, Screen, ScreenChange, FIRE_COOLDOWN, MAX_LANDED,
};
use biplanevsaliens::player_shape::{CameraQueue, Flight, PlayerShape, CRASH_TICKS, LIVES};
use biplanevsaliens::landscape::{AIR_STRIP, LAND};
use biplanevsaliens::draw_text::{DrawText, GlyphDraw};
use biplanevsaliens::start_screen::StartScreen;

type V = (f32, f32, f32);

#[test]
fn keys_hold_and_release_controls() {
    let mut c = Controls::new();
    let quit = process_keyboard(
        &vec![
            KeyEvent::KeyDown(Key::Left),
            KeyEvent::KeyDown(Key::LShift),
            KeyEvent::KeyDown(Key::Space),
            KeyEvent::KeyDown(Key::Up),
        ],
        &mut c,
    );
    assert!(!quit);
    assert!(c.left && !c.right && c.faster && !c.slower && c.fire && c.pitch_down && !c.pitch_up);
    let quit = process_keyboard(
        &vec![
            KeyEvent::KeyDown(Key::Right),
            KeyEvent::KeyDown(Key::Z),
            KeyEvent::KeyUp(Key::Space),
            KeyEvent::KeyDown(Key::Down),
            KeyEvent::Other,
        ],
        &mut c,
    );
    assert!(!quit);
    assert!(!c.left && c.right && !c.faster && c.slower && !c.fire && !c.pitch_down && c.pitch_up);
    process_keyboard(
        &vec![KeyEvent::KeyUp(Key::Right), KeyEvent::KeyUp(Key::Z), KeyEvent::KeyUp(Key::Down)],
        &mut c,
    );
    assert!(!c.right && !c.slower && !c.pitch_up);
}

#[test]
fn quit_on_close_or_escape() {
    let mut c = Controls::new();
    assert!(process_keyboard(&vec![KeyEvent::Quit], &mut c));
    assert!(process_keyboard(&vec![KeyEvent::KeyUp(Key::Left), KeyEvent::KeyDown(Key::Escape)], &mut c));
    assert!(!process_keyboard(&vec![KeyEvent::KeyUp(Key::Escape)], &mut c));
    assert!(!process_keyboard(&vec![], &mut c));
}

#[test]
fn opposite_controls_never_both_held() {
    let mut c = Controls::new();
    let keys = [Key::Left, Key::Right, Key::LShift, Key::Z, Key::Up, Key::Down];
    for (i, k) in keys.iter().enumerate() {
        for j in 0..keys.len() {
            let events = vec![KeyEvent::KeyDown(*k), KeyEvent::KeyDown(keys[j]), KeyEvent::KeyUp(keys[(i + j) % 6])];
            process_keyboard(&events, &mut c);
            assert!(!(c.left && c.right));
            assert!(!(c.faster && c.slower));
            assert!(!(c.pitch_down && c.pitch_up));
        }
    }
}

#[test]
fn bullets_expire_after_their_lifetime() {
    let mut b: Bullet<V, u32> = Bullet::new(7, (1.0, 1.0, 0.0));
    b.new_instance((0.0, 0.0, 1.0), (1.0, 2.0, 3.0));
    b.new_instance((0.0, 1.0, 0.0), (4.0, 5.0, 6.0));
    b.instances[0].clicks = BULLET_LIFETIME - 1;
    b.update_bullets();
    assert_eq!(b.instances.len(), 2);
    assert_eq!(b.instances[0].clicks, BULLET_LIFETIME);
    assert_eq!(b.instances[1].clicks, 1);
    b.update_bullets();
    assert_eq!(b.instances.len(), 1);
    assert_eq!(b.instances[0].position, (4.0, 5.0, 6.0));
    assert_eq!(b.instances[0].clicks, 2);
    b.instances[0].dead();
    assert_eq!(b.instances[0].clicks, DEAD_CLICKS);
    b.update_bullets();
    assert!(b.instances.is_empty());
    assert_eq!(b.resources, 7);
}

#[test]
fn bullets_keep_their_order() {
    let mut b: Bullet<V, ()> = Bullet::new((), (0.0, 0.0, 0.0));
    for i in 0..5 {
        b.new_instance((0.0, 0.0, 0.0), (i as f32, 0.0, 0.0));
    }
    b.instances[1].dead();
    b.instances[3].dead();
    b.update_bullets();
    let xs: Vec<f32> = b.instances.iter().map(|i| i.position.0).collect();
    assert_eq!(xs, vec![0.0, 2.0, 4.0]);
}

#[test]
fn enemies_count_age_and_drop() {
    let down = (0.0f32, -1.0f32, 0.0f32);
    let mut e: EnemyShip<V, ()> = EnemyShip::new(());
    assert_eq!(e.new_instance((1.0, 5.0, 1.0), down), 1);
    assert_eq!(e.new_instance((2.0, 5.0, 2.0), down), 2);
    assert_eq!(e.new_instance((3.0, 5.0, 3.0), down), 3);
    e.instances[1].landed(true);
    e.instances[2].landed(false);
    assert!(e.instances[1].landed);
    assert_eq!(e.instances[2].clicks, DEAD_CLICKS);
    assert_eq!(e.enemy_update(), 2);
    assert_eq!(e.landed, 1);
    assert_eq!(e.alive, 2);
    e.instances[0].clicks = 2999;
    e.update_enemy(&vec![false, false, false]);
    // ship 0 reached 3000 and stays, ship 2 was spent
    assert_eq!(e.instances.len(), 2);
    assert_eq!(e.instances[0].clicks, 3000);
    assert_eq!(e.instances[1].clicks, 0);
    e.update_enemy(&vec![false, true]);
    assert!(e.instances.is_empty());
    e.reset();
    assert_eq!((e.alive, e.landed, e.instances.len()), (0, 0, 0));
}

#[test]
fn landed_ships_do_not_age() {
    let mut e: EnemyShip<i32, ()> = EnemyShip::new(());
    e.new_instance(1, -1);
    e.instances[0].landed(true);
    e.instances[0].clicks = 3000;
    e.update_enemy(&vec![false]);
    assert_eq!(e.instances.len(), 1);
    assert_eq!(e.instances[0].clicks, 3000);
}

#[test]
fn bullet_hits_near_or_landed_ship() {
    let mut ship = EnemyShipInstance::new(0, -1);
    let mut bullet = BulletInstance { position: 0, direction: 1, clicks: 5 };
    assert!(!ship.hit_by_bullet(&mut bullet, true, false));
    assert_eq!(bullet.clicks, 5);
    assert!(ship.hit_by_bullet(&mut bullet, true, true));
    assert_eq!((ship.clicks, bullet.clicks), (DEAD_CLICKS, DEAD_CLICKS));
    let mut landed = EnemyShipInstance::new(0, -1);
    landed.landed(true);
    let mut bullet = BulletInstance { position: 0, direction: 1, clicks: 5 };
    assert!(landed.hit_by_bullet(&mut bullet, true, false));
}

#[test]
fn spawn_tops_the_fleet_up_to_three() {
    let mut e: EnemyShip<i32, ()> = EnemyShip::new(());
    e.spawn_from(vec![10, 20, 30, 40], -1);
    let xs: Vec<i32> = e.instances.iter().map(|s| s.position).collect();
    assert_eq!(xs, vec![40, 30, 20]);
    e.spawn_from(vec![50, 60], -1);
    assert_eq!(e.instances.len(), 4);
    assert_eq!(e.instances[3].position, 60);
    let mut one: EnemyShip<i32, ()> = EnemyShip::new(());
    one.spawn_from(vec![7], -1);
    assert_eq!(one.instances.len(), 1);
    one.spawn_from(vec![], -1);
    assert_eq!(one.instances.len(), 1);
}

#[test]
fn spawn_places_follow_the_draws() {
    let r = select_spawn_positions(0, &vec![1, 2, 3, 4], &vec![2, 1, 5, 0]);
    assert_eq!(r, vec![0, 1, 3]);
    let r = possible_locations_for_enemy(9, &vec![1, 2, 3, 4, 5, 6]);
    assert_eq!(r[0], 9);
    assert!(r.len() >= 1 && r.len() <= 7);
    let mut last = 0;
    for p in &r[1..] {
        assert!(*p > last);
        last = *p;
    }
}

#[derive(Clone, Debug, PartialEq)]
struct TestFlight {
    position: i32,
    refuels: u32,
}

impl Flight for TestFlight {
    fn refuel(&mut self) {
        self.refuels += 1;
    }
}

#[test]
fn landing_on_the_strip_refuels() {
    let mut p = PlayerShape::new(TestFlight { position: 0, refuels: 0 });
    assert_eq!((p.lives, p.score, p.player_crashed), (LIVES, 0, 0));
    assert!(p.hit(AIR_STRIP, true, true));
    assert_eq!(p.flight.refuels, 1);
    assert_eq!(p.lives, LIVES);
    assert!(!p.hit(AIR_STRIP, false, true));
    assert_eq!(p.lives, LIVES - 1);
    assert_eq!(p.player_crashed, CRASH_TICKS);
    assert!(!p.hit(LAND, true, true));
    assert!(!p.hit(AIR_STRIP, true, false));
    assert_eq!(p.lives, LIVES - 3);
    assert_eq!(p.flight.refuels, 1);
}

#[test]
fn crashed_player_waits_then_restarts() {
    let mut p = PlayerShape::new(TestFlight { position: 7, refuels: 0 });
    assert!(p.player_ok());
    p.flight.position = 50;
    p.start_being_dead();
    for _ in 0..CRASH_TICKS - 1 {
        assert!(!p.player_ok());
        assert_eq!(p.flight.position, 50);
        assert_eq!(p.lives, LIVES - 1);
    }
    assert!(!p.player_ok());
    assert_eq!(p.flight, TestFlight { position: 7, refuels: 0 });
    assert!(p.player_ok());
    p.score = 12;
    p.flight.position = 9;
    p.game_reset_player();
    assert_eq!((p.lives, p.score), (LIVES, 0));
    assert_eq!(p.flight.position, 7);
}

#[test]
fn reset_puts_the_plane_back_at_the_start() {
    let mut p = PlayerShape::new(TestFlight { position: 3, refuels: 0 });
    p.flight = TestFlight { position: 40, refuels: 2 };
    p.score = 5;
    p.reset_player();
    assert_eq!(p.flight, TestFlight { position: 3, refuels: 0 });
    assert_eq!((p.lives, p.score, p.player_crashed), (LIVES, 5, 0));
}

#[test]
fn camera_follows_queued_directions() {
    let mut c = CameraQueue::new(0);
    c.update_camera(5);
    assert_eq!(c.get_for_camera(), 5);
    for d in 1..=45 {
        c.queue_camera_for_later(d);
    }
    c.update_camera(99);
    assert_eq!(c.get_for_camera(), 1);
    assert_eq!(c.camera_queue.len(), 40);
    assert_eq!(c.camera_queue[0], 6);
    c.update_camera(99);
    assert_eq!(c.get_for_camera(), 6);
    assert_eq!(c.camera_queue.len(), 39);
}

#[test]
fn text_layout_picks_glyphs() {
    let t = DrawText::new((), 1, 2);
    let message: Vec<char> = "AB a!_`".chars().collect();
    let draws = t.layout_text(&message);
    assert_eq!(
        draws,
        vec![
            GlyphDraw { letter: 0, first: 186 },
            GlyphDraw { letter: 1, first: 192 },
            GlyphDraw { letter: 3, first: 378 },
            GlyphDraw { letter: 4, first: 0 },
            GlyphDraw { letter: 5, first: 366 },
            GlyphDraw { letter: 6, first: 372 },
        ]
    );
    assert!(t.layout_text(&vec![' ', '\n']).is_empty());
    // a character whose low byte is a space is not drawn
    assert!(t.layout_text(&vec!['\u{120}']).is_empty());
}

#[test]
fn screens_and_game_over() {
    assert!(Screen::Playing.after_quit() == Some(Screen::GameOver));
    assert!(Screen::Start.after_quit().is_none());
    assert!(Screen::GameOver.after_quit().is_none());
    assert!(!game_over(30, 3));
    assert!(game_over(31, 3));
    assert!(game_over(0, 0));
    assert!(!game_over(29, 1));
}

#[test]
fn game_ends_only_above_the_landing_limit() {
    assert!(!game_over(MAX_LANDED, 1));
    assert!(game_over(MAX_LANDED + 1, 1));
    assert!(game_over(0, -1));
}

#[test]
fn screens_follow_the_frame_decisions() {
    let change = |screen: ScreenChange| (screen.screen, screen.fire, screen.new_game);
    // the start screen waits for its text to finish
    assert_eq!(change(Screen::Start.advance(false, true, true)), (Screen::Start, true, false));
    assert_eq!(change(Screen::Start.advance(true, true, false)), (Screen::Playing, false, false));
    // the game over screen waits for fire, which starts a new game
    assert_eq!(change(Screen::GameOver.advance(true, false, true)), (Screen::GameOver, false, false));
    assert_eq!(change(Screen::GameOver.advance(false, true, false)), (Screen::Playing, false, true));
    // play goes on until the game is over
    assert_eq!(change(Screen::Playing.advance(true, true, false)), (Screen::Playing, true, false));
    assert_eq!(change(Screen::Playing.advance(false, true, true)), (Screen::GameOver, false, false));
}

#[test]
fn each_alien_shot_scores_a_point() {
    let mut p = PlayerShape::new(TestFlight { position: 1, refuels: 0 });
    p.add_point();
    p.add_point();
    assert_eq!((p.score, p.lives, p.player_crashed), (2, LIVES, 0));
    assert_eq!(p.flight, TestFlight { position: 1, refuels: 0 });
}

#[test]
fn volleys_are_spaced_out() {
    let mut fire_every = 0;
    assert!(fire_ready(&mut fire_every, true));
    assert_eq!(fire_every, -FIRE_COOLDOWN);
    for _ in 0..FIRE_COOLDOWN {
        assert!(!fire_ready(&mut fire_every, true));
    }
    assert!(fire_ready(&mut fire_every, true));
    let mut idle = -5;
    assert!(!fire_ready(&mut idle, false));
    assert_eq!(idle, -4);
}

#[test]
fn finds_the_opengl_driver() {
    assert_eq!(find_sdl_gl_driver(&vec!["software", "opengl", "opengl"]), Some(1));
    assert_eq!(find_sdl_gl_driver(&vec!["opengles2", "software"]), None);
    assert_eq!(find_sdl_gl_driver(&vec![]), None);
}

#[test]
fn start_screen_scrolls_until_done() {
    let mut s = StartScreen::new("a", "b");
    assert_eq!(s.instructions.len(), 4);
    assert_eq!(s.instructions[1], "on land game over.");
    assert!(!s.finished(false));
    assert!(s.finished(true));
    for _ in 0..1601 {
        s.update();
    }
    assert_eq!(s.bernie_x, 1601);
    assert!(s.finished(false));
}

#[test]
fn random_spawn_places_keep_some_tiles_and_drop_others() {
    let tiles: Vec<i32> = (1..=300).collect();
    let r = possible_locations_for_enemy(0, &tiles);
    assert_eq!(r[0], 0);
    // each tile is kept with a chance of two in three
    assert!(r.len() > 1, "no tile was kept");
    assert!(r.len() < 301, "every tile was kept");
}
