use roveros::mapping_config::{
    MappingConfig, MappingDeviceConfig, ObjectDetectionConfig, VisionConfig,
};
use roveros::mobility_config::{BodyConfig, MobilityConfig, MotorConfig};

fn sample_mapping() -> MappingConfig {
    MappingConfig {
        version: String::from("1.0"),
        devices: vec![(
            String::from("front_cam"),
            MappingDeviceConfig {
                name: String::from("front"),
                lens: String::from("wide"),
                vision: VisionConfig {
                    capture_resolution: (1920, 1080),
                    capture_framerate: 30_000,
                    limit_perception_distance: 10_500,
                    limit_perception_angle: 90_000,
                },
                object_detection: ObjectDetectionConfig {
                    detection_enabled: true,
                    tracking_enabled: false,
                    max_detection_range: 15_250,
                    objects: vec![String::from("person"), String::from("car")],
                    confidence_threshold: 800,
                    detection_outputs: vec![String::from("main")],
                    skeleton_tracking_enabled: false,
                    skeleton_tracking_keypoint_count: 17,
                },
            },
        )],
    }
}

fn sample_mobility() -> MobilityConfig {
    MobilityConfig {
        version: String::from("2.1"),
        body: BodyConfig {
            max_speed: 1_500,
            max_acceleration: 2_000,
            min_turn_radius: 500,
            max_standup_speed: 300,
            max_roll_angle: 30_000,
            max_pitch_angle: 25_500,
        },
        motors: vec![
            (String::from("fl"), MotorConfig { name: String::from("front_left") }),
            (String::from("fr"), MotorConfig { name: String::from("front_right") }),
        ],
    }
}

#[test]
fn mapping_renders_canonical_text() {
    let text = sample_mapping().to_toml();
    let expected = "version = \"1.0\"\n\
        [devices.front_cam]\n\
        name = \"front\"\n\
        lens = \"wide\"\n\
        [devices.front_cam.vision]\n\
        capture_resolution = [1920, 1080]\n\
        capture_framerate = 30.000\n\
        limit_perception_distance = 10.500\n\
        limit_perception_angle = 90.000\n\
        [devices.front_cam.object_detection]\n\
        detection_enabled = true\n\
        tracking_enabled = false\n\
        max_detection_range = 15.250\n\
        objects = [\"person\", \"car\"]\n\
        confidence_threshold = 0.800\n\
        detection_outputs = [\"main\"]\n\
        skeleton_tracking_enabled = false\n\
        skeleton_tracking_keypoint_count = 17\n";
    assert_eq!(text, expected);
}

#[test]
fn mapping_round_trips() {
    let config = sample_mapping();
    let text = config.to_toml();
    let back = MappingConfig::from_toml(&text).unwrap();
    assert_eq!(back, config);
}

#[test]
fn mapping_round_trips_with_no_devices() {
    let config = MappingConfig { version: String::from("0.9"), devices: Vec::new() };
    let back = MappingConfig::from_toml(&config.to_toml()).unwrap();
    assert_eq!(back, config);
}

#[test]
fn mapping_rejects_malformed_texts() {
    assert!(MappingConfig::from_toml("").is_err());
    assert!(MappingConfig::from_toml("not a config").is_err());
    assert!(MappingConfig::from_toml("version = 1\n").is_err());
    assert!(MappingConfig::from_toml("version = \"1.0\"\n[devices.]\n").is_err());
    assert!(MappingConfig::from_toml("version = \"1.0\"\n[devices.a]\nname = \"x\"\n").is_err());
    // a repeated device key is refused
    let one = sample_mapping().to_toml();
    let mut doubled = one.clone();
    let devices_part = &one["version = \"1.0\"\n".len()..];
    doubled.push_str(devices_part);
    assert!(MappingConfig::from_toml(&doubled).is_err());
}

#[test]
fn mapping_lookup_and_names() {
    let config = sample_mapping();
    let dev = config.get_device("front_cam").unwrap();
    assert_eq!(dev.name, "front");
    assert_eq!(dev.vision.capture_resolution, (1920, 1080));
    assert!(config.get_device("rear_cam").is_none());
    let names = config.device_names();
    assert_eq!(names.len(), 1);
    assert_eq!(names[0], "front_cam");
}

#[test]
fn mapping_canonical_text_is_real_toml() {
    let text = sample_mapping().to_toml();
    let table: toml::Table = text.parse().unwrap();
    assert_eq!(table["version"].as_str().unwrap(), "1.0");
    let dev = &table["devices"]["front_cam"];
    assert_eq!(dev["name"].as_str().unwrap(), "front");
    assert_eq!(dev["lens"].as_str().unwrap(), "wide");
    assert_eq!(dev["vision"]["capture_resolution"][0].as_integer().unwrap(), 1920);
    assert_eq!(dev["vision"]["capture_resolution"][1].as_integer().unwrap(), 1080);
    assert_eq!(dev["vision"]["capture_framerate"].as_float().unwrap(), 30.0);
    assert_eq!(dev["vision"]["limit_perception_distance"].as_float().unwrap(), 10.5);
    assert_eq!(dev["object_detection"]["detection_enabled"].as_bool().unwrap(), true);
    assert_eq!(dev["object_detection"]["objects"][1].as_str().unwrap(), "car");
    assert_eq!(dev["object_detection"]["confidence_threshold"].as_float().unwrap(), 0.8);
    assert_eq!(
        dev["object_detection"]["skeleton_tracking_keypoint_count"].as_integer().unwrap(),
        17
    );
}

#[test]
fn mobility_renders_canonical_text() {
    let text = sample_mobility().to_toml();
    let expected = "version = \"2.1\"\n\
        [body]\n\
        max_speed = 1.500\n\
        max_acceleration = 2.000\n\
        min_turn_radius = 0.500\n\
        max_standup_speed = 0.300\n\
        max_roll_angle = 30.000\n\
        max_pitch_angle = 25.500\n\
        [motors.fl]\n\
        name = \"front_left\"\n\
        [motors.fr]\n\
        name = \"front_right\"\n";
    assert_eq!(text, expected);
}

#[test]
fn mobility_round_trips() {
    let config = sample_mobility();
    let back = MobilityConfig::from_toml(&config.to_toml()).unwrap();
    assert_eq!(back, config);
}

#[test]
fn mobility_rejects_malformed_texts() {
    assert!(MobilityConfig::from_toml("").is_err());
    assert!(MobilityConfig::from_toml("version = \"2.1\"\n").is_err());
    assert!(MobilityConfig::from_toml("version = \"2.1\"\n[body]\nmax_speed = fast\n").is_err());
}

#[test]
fn mobility_lookup_and_names() {
    let config = sample_mobility();
    assert_eq!(config.get_motor("fr").unwrap().name, "front_right");
    assert!(config.get_motor("rear").is_none());
    let names = config.motor_names();
    assert_eq!(names.len(), 2);
    assert_eq!(names[0], "fl");
    assert_eq!(names[1], "fr");
}

#[test]
fn mobility_canonical_text_is_real_toml() {
    let text = sample_mobility().to_toml();
    let table: toml::Table = text.parse().unwrap();
    assert_eq!(table["version"].as_str().unwrap(), "2.1");
    assert_eq!(table["body"]["max_speed"].as_float().unwrap(), 1.5);
    assert_eq!(table["body"]["max_pitch_angle"].as_float().unwrap(), 25.5);
    assert_eq!(table["motors"]["fl"]["name"].as_str().unwrap(), "front_left");
}

#[test]
fn mobility_accepts_plain_toml_spelling() {
    // short fractions, and no newline after the last line
    let text = "version = \"1\"\n[body]\nmax_speed = 1.0\nmax_acceleration = 2.0\n\
        min_turn_radius = 0.5\nmax_standup_speed = 0.2\nmax_roll_angle = 30.0\n\
        max_pitch_angle = 25.0\n[motors.m1]\nname = \"front\"";
    let c = MobilityConfig::from_toml(text).unwrap();
    assert_eq!(c.version, "1");
    assert_eq!(c.body.max_speed, 1_000);
    assert_eq!(c.body.max_acceleration, 2_000);
    assert_eq!(c.body.min_turn_radius, 500);
    assert_eq!(c.body.max_standup_speed, 200);
    assert_eq!(c.body.max_roll_angle, 30_000);
    assert_eq!(c.body.max_pitch_angle, 25_000);
    assert_eq!(c.motors.len(), 1);
    assert_eq!(c.motors[0].0, "m1");
    assert_eq!(c.motors[0].1.name, "front");
}

#[test]
fn mapping_accepts_comments_blank_lines_and_loose_floats() {
    let text = "# the vision rig\n\nversion = \"1.0\"\n\n[devices.cam]\nname = \"front\"\n\
        lens = \"wide\"\n# vision parameters\n[devices.cam.vision]\n\
        capture_resolution = [640, 480]\ncapture_framerate = 30\n\
        limit_perception_distance = 10.5\nlimit_perception_angle = 90.25\n\n\
        [devices.cam.object_detection]\ndetection_enabled = true\ntracking_enabled = false\n\
        max_detection_range = 15.2\nobjects = [\"person\"]\nconfidence_threshold = 0.8\n\
        detection_outputs = [\"main\"]\nskeleton_tracking_enabled = false\n\
        skeleton_tracking_keypoint_count = 17";
    let c = MappingConfig::from_toml(text).unwrap();
    assert_eq!(c.version, "1.0");
    let dev = c.get_device("cam").unwrap();
    assert_eq!(dev.vision.capture_resolution, (640, 480));
    // an integer-written float reads as a whole value
    assert_eq!(dev.vision.capture_framerate, 30_000);
    assert_eq!(dev.vision.limit_perception_distance, 10_500);
    assert_eq!(dev.vision.limit_perception_angle, 90_250);
    assert_eq!(dev.object_detection.max_detection_range, 15_200);
    assert_eq!(dev.object_detection.confidence_threshold, 800);
    assert_eq!(dev.object_detection.skeleton_tracking_keypoint_count, 17);
}

#[test]
fn fraction_digits_beyond_thousandths_are_truncated() {
    let text = "version = \"1\"\n[body]\nmax_speed = 1.23456\nmax_acceleration = 2.0\n\
        min_turn_radius = 0.5\nmax_standup_speed = 0.2\nmax_roll_angle = 30.0\n\
        max_pitch_angle = 25.0\n";
    let c = MobilityConfig::from_toml(text).unwrap();
    assert_eq!(c.body.max_speed, 1_234);
    assert!(c.motors.is_empty());
}

#[test]
fn trailing_comment_after_last_line_is_accepted() {
    let text = "version = \"1\"\n[body]\nmax_speed = 1.0\nmax_acceleration = 2.0\n\
        min_turn_radius = 0.5\nmax_standup_speed = 0.2\nmax_roll_angle = 30.0\n\
        max_pitch_angle = 25.0\n# no motors fitted yet\n";
    let c = MobilityConfig::from_toml(text).unwrap();
    assert!(c.motors.is_empty());
}

#[test]
fn a_float_with_a_bare_point_is_still_refused() {
    let text = "version = \"1\"\n[body]\nmax_speed = 1.\nmax_acceleration = 2.0\n\
        min_turn_radius = 0.5\nmax_standup_speed = 0.2\nmax_roll_angle = 30.0\n\
        max_pitch_angle = 25.0\n";
    assert!(MobilityConfig::from_toml(text).is_err());
}
