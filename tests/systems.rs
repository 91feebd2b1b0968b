use ecs::renderer::{Drawable, Event, Renderer, SpriteRenderer};
use ecs::scheduler::{Dispatch, Scheduler, System};
use ecs::world::World;
use std::cell::RefCell;
use std::rc::Rc;

struct Logger {
    runs: u64,
    name: &'static str,
    fail: bool,
    log: Rc<RefCell<Vec<String>>>,
}

impl System<u32, u32> for Logger {
    fn runs(&self) -> u64 {
        self.runs
    }

    fn init(&mut self, _world: &mut World<u32>) -> Result<(), String> {
        self.runs += 1;
        self.log.borrow_mut().push(format!("init {}", self.name));
        if self.fail {
            Err(format!("{} failed", self.name))
        } else {
            Ok(())
        }
    }

    fn update(&mut self, event: &u32, _world: &mut World<u32>) -> Result<(), String> {
        self.runs += 1;
        self.log.borrow_mut().push(format!("{} {}", self.name, event));
        if self.fail {
            Err(format!("{} failed", self.name))
        } else {
            Ok(())
        }
    }
}

fn logger(name: &'static str, fail: bool, log: &Rc<RefCell<Vec<String>>>) -> Logger {
    Logger { runs: 0, name, fail, log: log.clone() }
}

#[test]
fn systems_update_in_registration_order() {
    let log = Rc::new(RefCell::new(Vec::new()));
    let mut s = Scheduler::new();
    s.register(logger("s1", false, &log));
    s.register(logger("s2", false, &log));
    let mut w: World<u32> = World::new();
    assert!(s.dispatch(&7, &mut w).is_ok());
    assert_eq!(*log.borrow(), vec!["s1 7".to_string(), "s2 7".to_string()]);
    assert_eq!(s.len(), 2);
}

#[test]
fn failing_system_stops_the_dispatch() {
    let log = Rc::new(RefCell::new(Vec::new()));
    let mut s = Scheduler::new();
    s.register(logger("s1", true, &log));
    s.register(logger("s2", false, &log));
    let mut w: World<u32> = World::new();
    let err = s.dispatch(&1, &mut w).unwrap_err();
    assert_eq!(err.index, 0);
    assert_eq!(err.message, "s1 failed");
    assert_eq!(*log.borrow(), vec!["s1 1".to_string()]);
    let err = s.dispatch(&2, &mut w).unwrap_err();
    assert_eq!(err.index, 0);
    assert_eq!(log.borrow().len(), 2);
}

#[test]
fn init_all_stops_at_first_failure() {
    let log = Rc::new(RefCell::new(Vec::new()));
    let mut s = Scheduler::new();
    s.register(logger("a", false, &log));
    s.register(logger("b", true, &log));
    s.register(logger("c", false, &log));
    let mut w: World<u32> = World::new();
    let err = s.init_all(&mut w).unwrap_err();
    assert_eq!(err.index, 1);
    assert_eq!(*log.borrow(), vec!["init a".to_string(), "init b".to_string()]);
}

#[test]
fn dispatch_machine_walks_in_order() {
    let mut d = Dispatch::start(3);
    assert_eq!(d.next_system(), Some(0));
    d.record(true);
    assert_eq!(d.next_system(), Some(1));
    d.record(false);
    assert_eq!(d.next_system(), None);
    assert_eq!(d.failure(), Some(1));
    let empty = Dispatch::start(0);
    assert_eq!(empty.next_system(), None);
    assert_eq!(empty.failure(), None);
}

const CAMERA: u64 = 0;
const TRANS: u64 = 1;
const SPRITE: u64 = 2;
const ACTIVE: u64 = 3;

/// Component values are layers; draws are logged as (entity, camera).
struct Recorder {
    drawn: Vec<(u32, u32)>,
    fail_on: Option<u32>,
}

impl Drawable<i64> for Recorder {
    fn layer_of(&self, world: &World<i64>, entity: u32) -> i64 {
        *world.get(entity, SPRITE).unwrap_or(&0)
    }

    fn drawn(&self) -> Vec<(u32, u32)> {
        self.drawn.clone()
    }

    fn layer(&self, world: &World<i64>, entity: u32) -> i64 {
        *world.get(entity, SPRITE).unwrap_or(&0)
    }

    fn draw(&mut self, entity: u32, camera: u32, _world: &World<i64>) -> Result<(), String> {
        if self.fail_on == Some(entity) {
            return Err("backend".to_string());
        }
        self.drawn.push((entity, camera));
        Ok(())
    }
}

fn sprite_world() -> World<i64> {
    let mut w: World<i64> = World::new();
    let e1 = w.create();
    let e2 = w.create();
    let e3 = w.create();
    for (e, layer) in [(e1, 5), (e2, 1), (e3, 5)] {
        w.attach(e, SPRITE, layer).unwrap();
        w.attach(e, TRANS, 0).unwrap();
        w.attach(e, ACTIVE, 0).unwrap();
    }
    w
}

fn sprites() -> SpriteRenderer {
    SpriteRenderer { camera: CAMERA, transform: TRANS, sprite: SPRITE, active: ACTIVE }
}

#[test]
fn sprites_are_drawn_by_layer_then_identifier() {
    let mut w = sprite_world();
    let cam = w.create();
    w.attach(cam, CAMERA, 0).unwrap();
    w.attach(cam, TRANS, 0).unwrap();
    w.attach(cam, ACTIVE, 0).unwrap();
    let mut rec = Recorder { drawn: Vec::new(), fail_on: None };
    assert_eq!(sprites().find_camera(&w), Some(cam));
    assert_eq!(sprites().draw(&w, &mut rec), Ok(3));
    assert_eq!(rec.drawn, vec![(1, cam), (0, cam), (2, cam)]);
}

#[test]
fn nothing_is_drawn_without_a_camera() {
    let w = sprite_world();
    let mut rec = Recorder { drawn: Vec::new(), fail_on: None };
    assert_eq!(sprites().find_camera(&w), None);
    assert_eq!(sprites().draw(&w, &mut rec), Ok(0));
    assert!(rec.drawn.is_empty());
}

#[test]
fn renderer_draws_only_on_draw_events() {
    let mut w = sprite_world();
    let cam = w.create();
    w.attach(cam, CAMERA, 0).unwrap();
    w.attach(cam, TRANS, 0).unwrap();
    w.attach(cam, ACTIVE, 0).unwrap();
    let mut s = Scheduler::new();
    s.register(Renderer {
        sprites: sprites(),
        drawable: Recorder { drawn: Vec::new(), fail_on: Some(0) },
        runs: 0,
    });
    assert!(s.dispatch(&Event::Tick { elapsed_nanos: 16 }, &mut w).is_ok());
    assert!(s.dispatch(&Event::Input { payload: vec![1] }, &mut w).is_ok());
    let err = s.dispatch(&Event::Draw, &mut w).unwrap_err();
    assert_eq!(err.index, 0);
    assert_eq!(err.message, "backend");
}

#[test]
fn inactive_camera_and_sprites_are_skipped() {
    let mut w = sprite_world();
    let cam = w.create();
    w.attach(cam, CAMERA, 0).unwrap();
    w.attach(cam, TRANS, 0).unwrap();
    let mut rec = Recorder { drawn: Vec::new(), fail_on: None };
    assert_eq!(sprites().find_camera(&w), None);
    assert_eq!(sprites().draw(&w, &mut rec), Ok(0));
    w.attach(cam, ACTIVE, 0).unwrap();
    w.detach(0, ACTIVE);
    assert_eq!(sprites().draw(&w, &mut rec), Ok(2));
    assert_eq!(rec.drawn, vec![(1, cam), (2, cam)]);
}

#[test]
fn failed_draw_skips_later_sprites() {
    let mut w = sprite_world();
    let cam = w.create();
    w.attach(cam, CAMERA, 0).unwrap();
    w.attach(cam, TRANS, 0).unwrap();
    w.attach(cam, ACTIVE, 0).unwrap();
    let mut rec = Recorder { drawn: Vec::new(), fail_on: Some(0) };
    assert_eq!(sprites().draw(&w, &mut rec), Err("backend".to_string()));
    assert_eq!(rec.drawn, vec![(1, cam)]);
}
