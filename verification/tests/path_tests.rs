use raytracer::path::{Event, Path, Step, MAX_DEPTH};

#[test]
fn the_depth_limit_is_fifty() {
    assert_eq!(MAX_DEPTH, 50);
}

#[test]
fn a_new_path_has_no_bounce() {
    assert_eq!(Path::new().depth(), 0);
}

#[test]
fn a_ray_that_misses_gets_the_background() {
    let mut path = Path::new();
    assert_eq!(path.advance(Event::Miss), Step::Background);
    assert_eq!(path.depth(), 0);
}

#[test]
fn an_absorbed_ray_is_black() {
    let mut path = Path::new();
    assert_eq!(path.advance(Event::Absorbed), Step::Black);
    assert_eq!(path.depth(), 0);
}

#[test]
fn a_scattered_ray_goes_one_bounce_deeper() {
    let mut path = Path::new();
    assert_eq!(path.advance(Event::Scattered), Step::Bounce);
    assert_eq!(path.depth(), 1);
    assert_eq!(path.advance(Event::Scattered), Step::Bounce);
    assert_eq!(path.depth(), 2);
}

#[test]
fn a_miss_after_bounces_gets_the_background_at_that_depth() {
    let mut path = Path::new();
    for _ in 0..7 {
        assert_eq!(path.advance(Event::Scattered), Step::Bounce);
    }
    assert_eq!(path.advance(Event::Miss), Step::Background);
    assert_eq!(path.depth(), 7);
}

#[test]
fn the_fiftieth_scatter_still_bounces() {
    let mut path = Path::new();
    for k in 0..49 {
        assert_eq!(path.depth(), k);
        assert_eq!(path.advance(Event::Scattered), Step::Bounce);
    }
    assert_eq!(path.depth(), 49);
    assert_eq!(path.advance(Event::Scattered), Step::Bounce);
    assert_eq!(path.depth(), 50);
}

#[test]
fn a_scatter_at_the_limit_is_black() {
    let mut path = Path::new();
    for _ in 0..50 {
        assert_eq!(path.advance(Event::Scattered), Step::Bounce);
    }
    assert_eq!(path.advance(Event::Scattered), Step::Black);
    assert_eq!(path.depth(), 50);
}

#[test]
fn a_miss_at_the_limit_still_gets_the_background() {
    let mut path = Path::new();
    for _ in 0..50 {
        path.advance(Event::Scattered);
    }
    assert_eq!(path.advance(Event::Miss), Step::Background);
    assert_eq!(path.advance(Event::Absorbed), Step::Black);
    assert_eq!(path.depth(), 50);
}

#[test]
fn facing_mirrors_end_in_black_after_fifty_bounces() {
    let mut path = Path::new();
    let mut bounces = 0;
    let mut segments = 0;
    let end = loop {
        segments += 1;
        assert!(segments <= 51);
        match path.advance(Event::Scattered) {
            Step::Bounce => bounces += 1,
            other => break other,
        }
        assert!(path.depth() <= MAX_DEPTH);
    };
    assert_eq!(end, Step::Black);
    assert_eq!(bounces, 50);
    assert_eq!(segments, 51);
}

#[test]
fn the_depth_never_passes_the_limit() {
    let events = [Event::Scattered, Event::Scattered, Event::Absorbed, Event::Scattered, Event::Miss];
    let mut path = Path::new();
    for k in 0..1000 {
        path.advance(events[k % events.len()]);
        assert!(path.depth() <= MAX_DEPTH);
    }
    assert_eq!(path.depth(), MAX_DEPTH);
}

#[test]
fn a_copy_of_a_path_goes_its_own_way() {
    let mut path = Path::new();
    path.advance(Event::Scattered);
    let mut branch = path;
    branch.advance(Event::Scattered);
    assert_eq!(path.depth(), 1);
    assert_eq!(branch.depth(), 2);
}
