use rstracer::calibration::{Calibration, PixelVector};
use rstracer::canvas::CanvasVector;
use rstracer::movement::{movement_axes, needs_normalising, Direction, MovementAxes};
use rstracer::scene::{closest_root, light_terms, LightTerms};
use rstracer::state::{Event, State};

#[test]
fn opposing_keys_give_no_level_movement() {
    let mut d = Direction::empty();
    d.forward = true;
    d.backward = true;
    let a = movement_axes(d);
    assert_eq!(a, MovementAxes { forward: 0, right: 0, up: 0 });
    assert!(!needs_normalising(a));
}

#[test]
fn up_and_forward_keep_full_vertical_step() {
    let mut d = Direction::empty();
    d.forward = true;
    d.up = true;
    let a = movement_axes(d);
    assert_eq!(a, MovementAxes { forward: 1, right: 0, up: 1 });
    assert!(needs_normalising(a));
}

#[test]
fn diagonal_and_down_keys() {
    let mut d = Direction::empty();
    d.backward = true;
    d.left = true;
    d.down = true;
    assert_eq!(movement_axes(d), MovementAxes { forward: -1, right: -1, up: -1 });
    assert!(needs_normalising(movement_axes(d)));
    assert!(!needs_normalising(movement_axes(Direction::empty())));
}

#[test]
fn closest_root_picks_smallest_in_range() {
    let roots = vec![Some((50, 30)), None, Some((20, 5)), Some((25, 40))];
    assert_eq!(closest_root(&roots, 10, 100), Some((2, 20)));
    assert_eq!(closest_root(&roots, 20, 100), Some((3, 25)));
    assert_eq!(closest_root(&roots, 10, 20), None);
    assert_eq!(closest_root(&roots, 5, 21), Some((2, 20)));
}

#[test]
fn closest_root_ties_keep_first_sphere() {
    let roots = vec![Some((70, 30)), Some((30, 90)), Some((30, 30))];
    assert_eq!(closest_root(&roots, 0, 100), Some((0, 30)));
}

#[test]
fn closest_root_bounds_are_exclusive() {
    let roots = vec![Some((10, 10)), Some((100, 100)), Some((50, 60))];
    assert_eq!(closest_root(&roots, 10, 100), Some((2, 50)));
    assert_eq!(closest_root(&Vec::new(), 0, 100), None);
}

#[test]
fn occluded_light_keeps_diffuse_only() {
    assert_eq!(light_terms(true, true), LightTerms { diffuse: true, specular: false });
    assert_eq!(light_terms(false, true), LightTerms { diffuse: true, specular: true });
    assert_eq!(light_terms(false, false), LightTerms { diffuse: true, specular: false });
}

#[test]
fn state_transitions() {
    assert_eq!(State::Initialising.next(Event::Initialised), Some(State::Calibrating { second_stage: false }));
    assert_eq!(State::Calibrating { second_stage: true }.next(Event::Calibrated), Some(State::Running));
    assert_eq!(State::Calibrating { second_stage: false }.next(Event::Calibrated), None);
    assert_eq!(State::Running.next(Event::Exited), Some(State::Exiting));
    assert_eq!(State::Running.next(Event::Initialised), None);
    let mut s = State::Initialising;
    assert!(s.transit(Event::Initialised));
    assert!(!s.transit(Event::Initialised));
    assert!(s.is_running());
    assert!(s.transit(Event::Exited));
    assert!(!s.is_running());
}

#[test]
fn calibration_maps_pixels_to_cells() {
    let c = Calibration::from_corners(
        PixelVector { x: 100, y: 50 },
        PixelVector { x: 500, y: 250 },
        CanvasVector::new(200, 100),
    )
    .unwrap();
    assert_eq!(c.cell_size, PixelVector { x: 2, y: 2 });
    assert_eq!(c.pixel_to_cell(PixelVector { x: 106, y: 53 }), CanvasVector::new(2, 1));
    assert_eq!(c.mouse_cell(PixelVector { x: 0, y: 1000 }), CanvasVector::new(0, 66));
    assert!(Calibration::from_corners(
        PixelVector { x: 100, y: 50 },
        PixelVector { x: 50, y: 250 },
        CanvasVector::new(200, 100),
    )
    .is_none());
}
