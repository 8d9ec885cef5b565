use raytracing::config::{Config, ConfigError, Scene};
use raytracing::hit::front_face;
use raytracing::rank::ONE;
use raytracing::screen::{encode, pack, pixel_count, valid_color, CameraCheck, CameraError};
use raytracing::tracer::{row_seed, trace, Bounce, Event, Fate, Path, Step};

struct Script {
    events: Vec<Event>,
    at: usize,
}

impl Bounce for Script {
    fn seen(&self) -> Vec<Event> {
        (0..self.at).map(|i| self.events[i % self.events.len()]).collect()
    }

    fn bounce(&mut self) -> Event {
        let event = self.events[self.at % self.events.len()];
        self.at += 1;
        event
    }
}

fn play(events: Vec<Event>, max_depth: u32) -> (Fate, u32, usize) {
    let mut script = Script { events, at: 0 };
    let (fate, scattered) = trace(&mut script, max_depth);
    (fate, scattered, script.at)
}

#[test]
fn first_miss_escapes_unattenuated() {
    assert_eq!(Path::new(100).advance(Event::Missed), Step::Done(Fate::Escaped));
    assert_eq!(play(vec![Event::Missed], 100), (Fate::Escaped, 0, 1));
    assert!(Fate::Escaped.carries_light());
}

#[test]
fn absorbed_path_is_dark() {
    assert_eq!(Path::new(100).advance(Event::Absorbed), Step::Done(Fate::Absorbed));
    assert_eq!(
        play(vec![Event::Scattered, Event::Scattered, Event::Absorbed], 100),
        (Fate::Absorbed, 2, 3)
    );
    assert!(!Fate::Absorbed.carries_light());
}

#[test]
fn scattering_uses_one_bounce() {
    assert_eq!(Path::new(100).advance(Event::Scattered), Step::Trace(Path { bounces: 99 }));
    assert_eq!(Path { bounces: 2 }.advance(Event::Scattered), Step::Trace(Path { bounces: 1 }));
    assert_eq!(Path { bounces: 1 }.advance(Event::Scattered), Step::Done(Fate::Exhausted));
}

#[test]
fn path_out_of_bounces_is_dark() {
    assert_eq!(play(vec![Event::Scattered], 5), (Fate::Exhausted, 5, 5));
    assert_eq!(play(vec![Event::Scattered], 1), (Fate::Exhausted, 1, 1));
    assert!(!Fate::Exhausted.carries_light());
}

#[test]
fn walker_is_asked_until_the_path_ends_and_no_further() {
    let events = vec![Event::Scattered, Event::Scattered, Event::Absorbed, Event::Missed];
    let mut script = Script { events: events.clone(), at: 0 };
    assert_eq!(trace(&mut script, 10), (Fate::Absorbed, 2));
    assert_eq!(script.seen(), events[..3].to_vec());
    // The next path goes on where the walker stands.
    assert_eq!(trace(&mut script, 10), (Fate::Escaped, 0));
    assert_eq!(script.seen(), events);
    assert_eq!(trace(&mut script, 2), (Fate::Exhausted, 2));
    assert_eq!(script.seen().len(), 6);
}

#[test]
fn path_escapes_after_some_bounces() {
    let events = vec![Event::Scattered, Event::Scattered, Event::Scattered, Event::Missed];
    assert_eq!(play(events.clone(), 4), (Fate::Escaped, 3, 4));
    assert_eq!(play(events, 3), (Fate::Exhausted, 3, 3));
}

#[test]
fn row_seed_is_seed_plus_one_times_row() {
    assert_eq!(row_seed(0, 0), 0);
    assert_eq!(row_seed(0, 5), 5);
    assert_eq!(row_seed(41, 10), 420);
    assert_eq!(row_seed(u64::MAX, 10), 0);
    assert_eq!(row_seed(u64::MAX - 1, 3), 3u64.wrapping_mul(u64::MAX));
    assert_eq!(row_seed(1 << 63, 2), 2);
    assert_eq!(row_seed(7, 11), row_seed(7, 11));
}

#[test]
fn pixel_is_packed_as_0rgb() {
    assert_eq!(pack(0, 0, 0), 0);
    assert_eq!(pack(255, 255, 255), 0x00ff_ffff);
    assert_eq!(pack(0x12, 0x34, 0x56), 0x0012_3456);
    assert_eq!(pack(1, 0, 0), 65536);
    assert_eq!(pack(0, 1, 0), 256);
    assert_eq!(pack(0, 0, 1), 1);
}

#[test]
fn frame_is_packed_pixel_by_pixel() {
    assert_eq!(encode(&vec![]), Vec::<u32>::new());
    assert_eq!(
        encode(&vec![(255, 0, 0), (0, 255, 0), (0, 0, 255), (1, 2, 3)]),
        vec![0xff0000, 0x00ff00, 0x0000ff, 0x010203]
    );
}

#[test]
fn pixels_are_counted_unless_too_many() {
    assert_eq!(pixel_count(1024, 576), Some(589_824));
    assert_eq!(pixel_count(0, 576), Some(0));
    assert_eq!(pixel_count(usize::MAX, 1), Some(usize::MAX));
    assert_eq!(pixel_count(usize::MAX, 2), None);
}

#[test]
fn colour_is_showable_between_zero_and_one() {
    let half = ONE - (1 << 52);
    assert!(valid_color(0, 0, 0));
    assert!(valid_color(ONE, ONE, ONE));
    assert!(valid_color(half, 0, ONE));
    assert!(!valid_color(ONE + 1, 0, 0));
    assert!(!valid_color(0, -2, 0));
    assert!(!valid_color(0, 0, i64::MAX));
    assert!(!valid_color(i64::MIN, 0, 0));
}

#[test]
fn ray_meets_front_where_it_runs_against_the_normal() {
    assert!(front_face(-2));
    assert!(front_face(-ONE));
    assert!(!front_face(0));
    assert!(!front_face(ONE));
    assert!(!front_face(i64::MIN));
    assert!(!front_face(i64::MAX));
}

fn good_camera() -> CameraCheck {
    CameraCheck {
        has_origin: true,
        has_look_at: true,
        view_up_length: 10,
        view_length: 20,
        cross_length: 5,
        aperture: 0,
        vfov_degrees: 60,
        aspect_ratio: 2,
        focus_dist: None,
    }
}

#[test]
fn good_camera_passes() {
    assert_eq!(good_camera().verify(), Ok(()));
    assert_eq!(CameraCheck { focus_dist: Some(1), ..good_camera() }.verify(), Ok(()));
    assert_eq!(CameraCheck { aperture: 3, ..good_camera() }.verify(), Ok(()));
}

#[test]
fn each_camera_fault_is_reported() {
    let good = good_camera();
    let cases = [
        (CameraCheck { has_origin: false, ..good }, CameraError::NoOrigin),
        (CameraCheck { has_look_at: false, ..good }, CameraError::NoLookAt),
        (CameraCheck { view_up_length: 0, ..good }, CameraError::ZeroViewUp),
        (CameraCheck { view_length: 0, ..good }, CameraError::SameOriginAndLookAt),
        (CameraCheck { cross_length: 0, ..good }, CameraError::ParallelViewUp),
        (CameraCheck { aperture: -1, ..good }, CameraError::NegativeAperture),
        (CameraCheck { vfov_degrees: 0, ..good }, CameraError::FovNotPositive),
        (CameraCheck { vfov_degrees: -4, ..good }, CameraError::FovNotPositive),
        (CameraCheck { aspect_ratio: 0, ..good }, CameraError::AspectRatioNotPositive),
        (CameraCheck { focus_dist: Some(0), ..good }, CameraError::FocusDistNotPositive),
        (CameraCheck { focus_dist: Some(-2), ..good }, CameraError::FocusDistNotPositive),
        (CameraCheck { aperture: i64::MAX, ..good }, CameraError::NegativeAperture),
        (CameraCheck { vfov_degrees: i64::MAX, ..good }, CameraError::FovNotPositive),
        (CameraCheck { aspect_ratio: i64::MIN, ..good }, CameraError::AspectRatioNotPositive),
        (CameraCheck { focus_dist: Some(i64::MAX), ..good }, CameraError::FocusDistNotPositive),
    ];
    for (check, fault) in cases {
        assert_eq!(check.verify(), Err(fault));
    }
}

#[test]
fn first_camera_fault_wins() {
    let all_wrong = CameraCheck {
        has_origin: false,
        has_look_at: false,
        view_up_length: 0,
        view_length: 0,
        cross_length: 0,
        aperture: -1,
        vfov_degrees: 0,
        aspect_ratio: 0,
        focus_dist: Some(0),
    };
    assert_eq!(all_wrong.verify(), Err(CameraError::NoOrigin));
    let check = CameraCheck { has_origin: true, has_look_at: true, ..all_wrong };
    assert_eq!(check.verify(), Err(CameraError::ZeroViewUp));
    let check = CameraCheck { view_up_length: 1, view_length: 1, cross_length: 1, ..check };
    assert_eq!(check.verify(), Err(CameraError::NegativeAperture));
    assert_eq!(CameraError::NegativeAperture.message(), "Camera's aperture is less than 0.");
    assert_eq!(CameraError::NoOrigin.message(), "Camera's origin wasn't provided.");
}

#[test]
fn default_config_is_the_documented_one() {
    let config = Config::default();
    assert_eq!((config.width, config.height), (1024, 576));
    assert_eq!((config.samples, config.max_depth), (100, 100));
    assert!(config.antialias);
    assert_eq!(config.seed, None);
    assert_eq!(config.scene, Scene::Random);
    assert_eq!(config.delay_nanos, 33_333_333);
}

#[test]
fn config_is_made_of_valid_values() {
    let config = Config::new(640, 480, 2, 16, 50, Some(9), "PerlinMarbled").unwrap();
    assert_eq!((config.width, config.height), (640, 480));
    assert_eq!((config.samples, config.max_depth), (16, 50));
    assert!(!config.antialias);
    assert_eq!(config.seed, Some(9));
    assert_eq!(config.scene, Scene::PerlinMarbled);
    assert!(Config::new(1, 1, 0, 1, 1, None, "Balls").unwrap().antialias);
}

#[test]
fn config_rejects_zero_sizes_and_unknown_scenes() {
    assert!(matches!(Config::new(0, 0, 0, 0, 0, None, "x"), Err(ConfigError::ZeroWidth)));
    assert!(matches!(Config::new(1, 0, 0, 0, 0, None, "x"), Err(ConfigError::ZeroHeight)));
    assert!(matches!(Config::new(1, 1, 0, 0, 0, None, "x"), Err(ConfigError::ZeroSamples)));
    assert!(matches!(Config::new(1, 1, 0, 1, 0, None, "x"), Err(ConfigError::ZeroDepth)));
    match Config::new(1, 1, 0, 1, 1, None, "balls") {
        Err(ConfigError::UnknownScene(e)) => assert_eq!(e.input, "balls"),
        _ => panic!("an unknown scene was accepted"),
    }
}
