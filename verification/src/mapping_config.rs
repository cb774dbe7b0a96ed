//! The mapping configuration: a version string and a table of devices, each
//! with vision and object-detection parameters. The file format is the
//! canonical table-per-device text; `from_toml` scans it and `to_toml`
//! renders it, and scanning what was rendered provably returns the same
//! configuration. Fractional parameters (framerates, distances, angles,
//! thresholds) are carried as fixed-point thousandths.

use vstd::prelude::*;

use crate::toml_text::{
    bool_line, bool_line_sp, bool_rep, dec_rep, key_ok, lemma_bool_line_rt, lemma_num_line_rt,
    lemma_pair_line_rt, lemma_piece_at, lemma_quoted_line_rt, lemma_milli_line_rt,
    lemma_scan_key_rt, lemma_strlist_line_rt, line_of, milli_line, milli_line_sp, milli_rep,
    num_line, num_line_sp, pair_line, pair_line_sp, pair_rep, push_bool_line, push_milli_line,
    push_num_line, push_pair_line, push_quoted_line, push_strlist_line, quoted, quoted_line,
    quoted_line_sp, scan_barekey, scan_key, str_ok, strlist_line, strlist_line_sp, strlist_rep,
    expect_lit, expect_sp, is_key_char, str_eq, lemma_split_two, skip_trivia,
    lemma_skip_trivia_stays, advance_trivia,
};

verus! {

/// The input was not a well-formed configuration text.
#[derive(Clone, Copy, Debug, PartialEq, Eq, Structural)]
pub struct ParseError {}

/// Vision parameters of one device. Fractional values are in thousandths.
#[derive(Clone, Copy, Debug, PartialEq, Eq)]
pub struct VisionConfig {
    /// Capture width and height in pixels.
    pub capture_resolution: (u32, u32),
    /// Frames per second, in thousandths.
    pub capture_framerate: u64,
    /// Perception distance limit in thousandths of a meter.
    pub limit_perception_distance: u64,
    /// Perception angle limit in thousandths of a degree.
    pub limit_perception_angle: u64,
}

/// Object-detection parameters of one device.
#[derive(Debug, Clone, PartialEq, Eq)]
pub struct ObjectDetectionConfig {
    pub detection_enabled: bool,
    pub tracking_enabled: bool,
    /// Detection range in thousandths of a meter.
    pub max_detection_range: u64,
    /// Object types to detect.
    pub objects: Vec<String>,
    /// Confidence threshold in thousandths.
    pub confidence_threshold: u64,
    /// Output channels for detections.
    pub detection_outputs: Vec<String>,
    pub skeleton_tracking_enabled: bool,
    /// Keypoints to track per skeleton.
    pub skeleton_tracking_keypoint_count: usize,
}

/// One mapped device.
#[derive(Debug, Clone, PartialEq, Eq)]
pub struct MappingDeviceConfig {
    pub name: String,
    pub lens: String,
    pub vision: VisionConfig,
    pub object_detection: ObjectDetectionConfig,
}

/// The whole mapping configuration: devices keyed by table name, in file
/// order, with unique keys.
#[derive(Debug, Clone, PartialEq, Eq)]
pub struct MappingConfig {
    pub version: String,
    pub devices: Vec<(String, MappingDeviceConfig)>,
}

/// Mathematical value of an object-detection table.
pub ghost struct OdModel {
    pub detection_enabled: bool,
    pub tracking_enabled: bool,
    pub max_detection_range: u64,
    pub objects: Seq<Seq<char>>,
    pub confidence_threshold: u64,
    pub detection_outputs: Seq<Seq<char>>,
    pub skeleton_tracking_enabled: bool,
    pub skeleton_tracking_keypoint_count: u64,
}

/// Mathematical value of one device.
pub ghost struct DeviceModel {
    pub name: Seq<char>,
    pub lens: Seq<char>,
    pub vision: VisionConfig,
    pub object_detection: OdModel,
}

/// Mathematical value of the whole configuration.
pub ghost struct MappingModel {
    pub version: Seq<char>,
    pub devices: Seq<(Seq<char>, DeviceModel)>,
}

impl ObjectDetectionConfig {
    /// The mathematical value this struct holds.
    pub open spec fn model(&self) -> OdModel {
        OdModel {
            detection_enabled: self.detection_enabled,
            tracking_enabled: self.tracking_enabled,
            max_detection_range: self.max_detection_range,
            objects: self.objects@.map_values(|t: String| t@),
            confidence_threshold: self.confidence_threshold,
            detection_outputs: self.detection_outputs@.map_values(|t: String| t@),
            skeleton_tracking_enabled: self.skeleton_tracking_enabled,
            skeleton_tracking_keypoint_count: self.skeleton_tracking_keypoint_count as u64,
        }
    }
}

impl MappingDeviceConfig {
    /// The mathematical value this struct holds.
    pub open spec fn model(&self) -> DeviceModel {
        DeviceModel {
            name: self.name@,
            lens: self.lens@,
            vision: self.vision,
            object_detection: self.object_detection.model(),
        }
    }
}

impl MappingConfig {
    /// The mathematical value this struct holds.
    pub open spec fn model(&self) -> MappingModel {
        MappingModel {
            version: self.version@,
            devices: self.devices@.map_values(
                |p: (String, MappingDeviceConfig)| (p.0@, p.1.model()),
            ),
        }
    }

    /// A configuration the canonical text can carry.
    pub open spec fn wf(&self) -> bool {
        mapping_wf(self.model())
    }
}

/// A device whose strings the format can carry verbatim.
pub open spec fn device_wf(d: DeviceModel) -> bool {
    &&& str_ok(d.name)
    &&& str_ok(d.lens)
    &&& forall|k: int|
        0 <= k < d.object_detection.objects.len() ==> str_ok(#[trigger] d.object_detection.objects[k])
    &&& forall|k: int|
        0 <= k < d.object_detection.detection_outputs.len() ==> str_ok(
            #[trigger] d.object_detection.detection_outputs[k],
        )
    &&& d.object_detection.skeleton_tracking_keypoint_count <= usize::MAX as u64
}

/// A configuration the canonical text can carry: plain strings, bare table
/// keys, and no two devices under the same key.
pub open spec fn mapping_wf(m: MappingModel) -> bool {
    &&& str_ok(m.version)
    &&& forall|k: int| 0 <= k < m.devices.len() ==> key_ok((#[trigger] m.devices[k]).0)
    &&& forall|k: int| 0 <= k < m.devices.len() ==> device_wf((#[trigger] m.devices[k]).1)
    &&& forall|a: int, b: int|
        0 <= a < b < m.devices.len() ==> m.devices[a].0 != m.devices[b].0
}

/// The canonical text of the vision table body.
pub open spec fn vision_rep(v: VisionConfig) -> Seq<char> {
    line_of("capture_resolution = "@, pair_rep(
        v.capture_resolution.0 as nat,
        v.capture_resolution.1 as nat,
    )) + line_of("capture_framerate = "@, milli_rep(v.capture_framerate as nat)) + line_of(
        "limit_perception_distance = "@,
        milli_rep(v.limit_perception_distance as nat),
    ) + line_of("limit_perception_angle = "@, milli_rep(v.limit_perception_angle as nat))
}

/// The first half of the object-detection table body.
pub open spec fn od_rep_head(d: OdModel) -> Seq<char> {
    line_of("detection_enabled = "@, bool_rep(d.detection_enabled)) + line_of(
        "tracking_enabled = "@,
        bool_rep(d.tracking_enabled),
    ) + line_of("max_detection_range = "@, milli_rep(d.max_detection_range as nat)) + line_of(
        "objects = "@,
        strlist_rep(d.objects),
    )
}

/// The second half of the object-detection table body.
pub open spec fn od_rep_tail(d: OdModel) -> Seq<char> {
    line_of("confidence_threshold = "@, milli_rep(d.confidence_threshold as nat)) + line_of(
        "detection_outputs = "@,
        strlist_rep(d.detection_outputs),
    ) + line_of("skeleton_tracking_enabled = "@, bool_rep(d.skeleton_tracking_enabled)) + line_of(
        "skeleton_tracking_keypoint_count = "@,
        dec_rep(d.skeleton_tracking_keypoint_count as nat),
    )
}

/// The canonical text of the object-detection table body.
pub open spec fn od_rep(d: OdModel) -> Seq<char> {
    od_rep_head(d) + od_rep_tail(d)
}

/// A device's own header and its name and lens lines.
pub open spec fn device_rep_head(key: Seq<char>, d: DeviceModel) -> Seq<char> {
    "[devices."@ + key + "]\n"@ + line_of("name = "@, quoted(d.name)) + line_of(
        "lens = "@,
        quoted(d.lens),
    )
}

/// A device's vision table with its header.
pub open spec fn device_rep_vision(key: Seq<char>, d: DeviceModel) -> Seq<char> {
    "[devices."@ + key + ".vision]\n"@ + vision_rep(d.vision)
}

/// A device's object-detection table with its header.
pub open spec fn device_rep_od(key: Seq<char>, d: DeviceModel) -> Seq<char> {
    "[devices."@ + key + ".object_detection]\n"@ + od_rep(d.object_detection)
}

/// The canonical text of one device's tables.
pub open spec fn device_rep(key: Seq<char>, d: DeviceModel) -> Seq<char> {
    device_rep_head(key, d) + device_rep_vision(key, d) + device_rep_od(key, d)
}

/// The canonical text of the device tables, in order.
pub open spec fn devices_rep(devs: Seq<(Seq<char>, DeviceModel)>) -> Seq<char>
    decreases devs.len(),
{
    if devs.len() == 0 {
        Seq::empty()
    } else {
        device_rep(devs[0].0, devs[0].1) + devices_rep(devs.skip(1))
    }
}

/// The canonical text of a whole mapping configuration.
pub open spec fn mapping_rep(m: MappingModel) -> Seq<char> {
    line_of("version = "@, quoted(m.version)) + devices_rep(m.devices)
}

/// Scan the vision table body.
pub open spec fn scan_vision_sp(s: Seq<char>, i: nat) -> Option<(VisionConfig, nat)> {
    match pair_line_sp(s, i, "capture_resolution = "@) {
        None => None,
        Some((res, j1)) => match milli_line_sp(s, j1, "capture_framerate = "@) {
            None => None,
            Some((fr, j2)) => match milli_line_sp(s, j2, "limit_perception_distance = "@) {
                None => None,
                Some((dist, j3)) => match milli_line_sp(s, j3, "limit_perception_angle = "@) {
                    None => None,
                    Some((ang, j4)) => Some(
                        (
                            VisionConfig {
                                capture_resolution: res,
                                capture_framerate: fr,
                                limit_perception_distance: dist,
                                limit_perception_angle: ang,
                            },
                            j4,
                        ),
                    ),
                },
            },
        },
    }
}

/// Scan the object-detection table body.
pub open spec fn scan_od_sp(s: Seq<char>, i: nat) -> Option<(OdModel, nat)> {
    match bool_line_sp(s, i, "detection_enabled = "@) {
        None => None,
        Some((de, j1)) => match bool_line_sp(s, j1, "tracking_enabled = "@) {
            None => None,
            Some((te, j2)) => match milli_line_sp(s, j2, "max_detection_range = "@) {
                None => None,
                Some((range, j3)) => match strlist_line_sp(s, j3, "objects = "@) {
                    None => None,
                    Some((objs, j4)) => match milli_line_sp(s, j4, "confidence_threshold = "@) {
                        None => None,
                        Some((conf, j5)) => match strlist_line_sp(s, j5, "detection_outputs = "@) {
                            None => None,
                            Some((outs, j6)) => match bool_line_sp(
                                s,
                                j6,
                                "skeleton_tracking_enabled = "@,
                            ) {
                                None => None,
                                Some((ste, j7)) => match num_line_sp(
                                    s,
                                    j7,
                                    "skeleton_tracking_keypoint_count = "@,
                                ) {
                                    None => None,
                                    Some((kp, j8)) => {
                                        if kp <= usize::MAX as u64 {
                                            Some(
                                                (
                                                    OdModel {
                                                        detection_enabled: de,
                                                        tracking_enabled: te,
                                                        max_detection_range: range,
                                                        objects: objs,
                                                        confidence_threshold: conf,
                                                        detection_outputs: outs,
                                                        skeleton_tracking_enabled: ste,
                                                        skeleton_tracking_keypoint_count: kp,
                                                    },
                                                    j8,
                                                ),
                                            )
                                        } else {
                                            None
                                        }
                                    },
                                },
                            },
                        },
                    },
                },
            },
        },
    }
}

/// Scan one device: its header, its name and lens lines, and its two tables,
/// whose headers must repeat the device's key.
pub open spec fn scan_device_sp(s: Seq<char>, i: nat) -> Option<((Seq<char>, DeviceModel), nat)> {
    match expect_sp(s, i, "[devices."@) {
        None => None,
        Some(j0) => {
            let (key, j1) = scan_key(s, j0);
            if key.len() == 0 {
                None
            } else {
                match expect_sp(s, j1, "]\n"@) {
                    None => None,
                    Some(j2) => match quoted_line_sp(s, j2, "name = "@) {
                        None => None,
                        Some((name, j3)) => match quoted_line_sp(s, j3, "lens = "@) {
                            None => None,
                            Some((lens, j4)) => match expect_sp(s, skip_trivia(s, j4), "[devices."@) {
                                None => None,
                                Some(j5) => match expect_sp(s, j5, key) {
                                    None => None,
                                    Some(j6) => match expect_sp(s, j6, ".vision]\n"@) {
                                        None => None,
                                        Some(j7) => match scan_vision_sp(s, j7) {
                                            None => None,
                                            Some((vis, j8)) => match expect_sp(
                                                s,
                                                skip_trivia(s, j8),
                                                "[devices."@,
                                            ) {
                                                None => None,
                                                Some(j9) => match expect_sp(s, j9, key) {
                                                    None => None,
                                                    Some(j10) => match expect_sp(
                                                        s,
                                                        j10,
                                                        ".object_detection]\n"@,
                                                    ) {
                                                        None => None,
                                                        Some(j11) => match scan_od_sp(s, j11) {
                                                            None => None,
                                                            Some((od, j12)) => Some(
                                                                (
                                                                    (
                                                                        key,
                                                                        DeviceModel {
                                                                            name: name,
                                                                            lens: lens,
                                                                            vision: vis,
                                                                            object_detection: od,
                                                                        },
                                                                    ),
                                                                    j12,
                                                                ),
                                                            ),
                                                        },
                                                    },
                                                },
                                            },
                                        },
                                    },
                                },
                            },
                        },
                    },
                }
            }
        },
    }
}

/// Does the table already hold this key?
pub open spec fn keys_contain(devs: Seq<(Seq<char>, DeviceModel)>, k: Seq<char>) -> bool {
    exists|x: int| 0 <= x < devs.len() && (#[trigger] devs[x]).0 == k
}

/// The device under a key, front to back.
pub open spec fn lookup_device(devs: Seq<(Seq<char>, DeviceModel)>, k: Seq<char>) -> Option<
    DeviceModel,
>
    decreases devs.len(),
{
    if devs.len() == 0 {
        None
    } else if devs[0].0 == k {
        Some(devs[0].1)
    } else {
        lookup_device(devs.skip(1), k)
    }
}

/// Scan device tables until the end of the text, refusing a repeated key.
pub open spec fn scan_devices_sp(
    s: Seq<char>,
    i: nat,
    acc: Seq<(Seq<char>, DeviceModel)>,
) -> Option<(Seq<(Seq<char>, DeviceModel)>, nat)>
    decreases s.len() - i,
{
    let i2 = skip_trivia(s, i);
    if i2 == s.len() {
        Some((acc, i2))
    } else if i2 > s.len() {
        None
    } else {
        match scan_device_sp(s, i2) {
            None => None,
            Some(((k, d), j)) => {
                if keys_contain(acc, k) {
                    None
                } else if i < j && j <= s.len() {
                    scan_devices_sp(s, j, acc.push((k, d)))
                } else {
                    None
                }
            },
        }
    }
}

/// Scan a whole mapping configuration: the version line, then devices to the
/// end of the text.
pub open spec fn scan_mapping_sp(s: Seq<char>) -> Option<MappingModel> {
    match quoted_line_sp(s, 0, "version = "@) {
        None => None,
        Some((v, j)) => match scan_devices_sp(s, j, Seq::empty()) {
            None => None,
            Some((devs, _end)) => Some(MappingModel { version: v, devices: devs }),
        },
    }
}

/// Does the device table already hold this key?
fn contains_key(devs: &Vec<(String, MappingDeviceConfig)>, k: &String) -> (r: bool)
    ensures
        r == keys_contain(
            devs@.map_values(|p: (String, MappingDeviceConfig)| (p.0@, p.1.model())),
            k@,
        ),
{
    let ghost models = devs@.map_values(|p: (String, MappingDeviceConfig)| (p.0@, p.1.model()));
    let mut x: usize = 0;
    while x < devs.len()
        invariant
            0 <= x <= devs@.len(),
            models == devs@.map_values(|p: (String, MappingDeviceConfig)| (p.0@, p.1.model())),
            models.len() == devs@.len(),
            forall|t: int| 0 <= t < x ==> (#[trigger] models[t]).0 != k@,
        decreases devs@.len() - x,
    {
        if str_eq(devs[x].0.as_str(), k.as_str()) {
            assert(models[x as int].0 == k@);
            return true;
        }
        x = x + 1;
    }
    proof {
        if keys_contain(models, k@) {
            let w = choose|w: int| 0 <= w < models.len() && (#[trigger] models[w]).0 == k@;
            assert(models[w].0 != k@);
        }
    }
    false
}

/// Scan the vision table body.
pub fn scan_vision(s: &str, i: usize) -> (r: Option<(VisionConfig, usize)>)
    ensures
        (r is Some) == (scan_vision_sp(s@, i as nat) is Some),
        r matches Some((v, j)) ==> scan_vision_sp(s@, i as nat) == Some((v, j as nat)) && i <= j
            <= s@.len(),
{
    let (res, j1) = match pair_line(s, i, "capture_resolution = ") {
        None => {
            return None;
        },
        Some(p) => p,
    };
    let (fr, j2) = match milli_line(s, j1, "capture_framerate = ") {
        None => {
            return None;
        },
        Some(p) => p,
    };
    let (dist, j3) = match milli_line(s, j2, "limit_perception_distance = ") {
        None => {
            return None;
        },
        Some(p) => p,
    };
    let (ang, j4) = match milli_line(s, j3, "limit_perception_angle = ") {
        None => {
            return None;
        },
        Some(p) => p,
    };
    Some(
        (
            VisionConfig {
                capture_resolution: res,
                capture_framerate: fr,
                limit_perception_distance: dist,
                limit_perception_angle: ang,
            },
            j4,
        ),
    )
}

/// Scan the object-detection table body.
pub fn scan_od(s: &str, i: usize) -> (r: Option<(ObjectDetectionConfig, usize)>)
    ensures
        (r is Some) == (scan_od_sp(s@, i as nat) is Some),
        r matches Some((d, j)) ==> scan_od_sp(s@, i as nat) == Some((d.model(), j as nat)) && i
            <= j <= s@.len(),
{
    let (de, j1) = match bool_line(s, i, "detection_enabled = ") {
        None => {
            return None;
        },
        Some(p) => p,
    };
    let (te, j2) = match bool_line(s, j1, "tracking_enabled = ") {
        None => {
            return None;
        },
        Some(p) => p,
    };
    let (range, j3) = match milli_line(s, j2, "max_detection_range = ") {
        None => {
            return None;
        },
        Some(p) => p,
    };
    let (objs, j4) = match strlist_line(s, j3, "objects = ") {
        None => {
            return None;
        },
        Some(p) => p,
    };
    let (conf, j5) = match milli_line(s, j4, "confidence_threshold = ") {
        None => {
            return None;
        },
        Some(p) => p,
    };
    let (outs, j6) = match strlist_line(s, j5, "detection_outputs = ") {
        None => {
            return None;
        },
        Some(p) => p,
    };
    let (ste, j7) = match bool_line(s, j6, "skeleton_tracking_enabled = ") {
        None => {
            return None;
        },
        Some(p) => p,
    };
    let (kp, j8) = match num_line(s, j7, "skeleton_tracking_keypoint_count = ") {
        None => {
            return None;
        },
        Some(p) => p,
    };
    if kp > usize::MAX as u64 {
        return None;
    }
    Some(
        (
            ObjectDetectionConfig {
                detection_enabled: de,
                tracking_enabled: te,
                max_detection_range: range,
                objects: objs,
                confidence_threshold: conf,
                detection_outputs: outs,
                skeleton_tracking_enabled: ste,
                skeleton_tracking_keypoint_count: kp as usize,
            },
            j8,
        ),
    )
}

/// Scan one device's header and tables.
pub fn scan_device(s: &str, i: usize) -> (r: Option<((String, MappingDeviceConfig), usize)>)
    ensures
        (r is Some) == (scan_device_sp(s@, i as nat) is Some),
        r matches Some(((k, d), j)) ==> scan_device_sp(s@, i as nat) == Some(
            ((k@, d.model()), j as nat),
        ) && i < j <= s@.len(),
{
    proof {
        reveal_strlit("[devices.");
    }
    let j0 = match expect_lit(s, i, "[devices.") {
        None => {
            return None;
        },
        Some(j) => j,
    };
    let (key, j1) = scan_barekey(s, j0);
    if key.as_str().unicode_len() == 0 {
        return None;
    }
    let j2 = match expect_lit(s, j1, "]\n") {
        None => {
            return None;
        },
        Some(j) => j,
    };
    let (name, j3) = match quoted_line(s, j2, "name = ") {
        None => {
            return None;
        },
        Some(p) => p,
    };
    let (lens, j4) = match quoted_line(s, j3, "lens = ") {
        None => {
            return None;
        },
        Some(p) => p,
    };
    let i5 = advance_trivia(s, j4);
    let j5 = match expect_lit(s, i5, "[devices.") {
        None => {
            return None;
        },
        Some(j) => j,
    };
    let j6 = match expect_lit(s, j5, key.as_str()) {
        None => {
            return None;
        },
        Some(j) => j,
    };
    let j7 = match expect_lit(s, j6, ".vision]\n") {
        None => {
            return None;
        },
        Some(j) => j,
    };
    let (vis, j8) = match scan_vision(s, j7) {
        None => {
            return None;
        },
        Some(p) => p,
    };
    let i9 = advance_trivia(s, j8);
    let j9 = match expect_lit(s, i9, "[devices.") {
        None => {
            return None;
        },
        Some(j) => j,
    };
    let j10 = match expect_lit(s, j9, key.as_str()) {
        None => {
            return None;
        },
        Some(j) => j,
    };
    let j11 = match expect_lit(s, j10, ".object_detection]\n") {
        None => {
            return None;
        },
        Some(j) => j,
    };
    let (od, j12) = match scan_od(s, j11) {
        None => {
            return None;
        },
        Some(p) => p,
    };
    Some(((key, MappingDeviceConfig { name, lens, vision: vis, object_detection: od }), j12))
}

impl MappingConfig {
    /// Parse a configuration text. Succeeds exactly on the texts the grammar
    /// admits; every other input is a `ParseError` and none panics.
    pub fn from_toml(toml_str: &str) -> (r: Result<MappingConfig, ParseError>)
        ensures
            (r is Ok) == (scan_mapping_sp(toml_str@) is Some),
            r matches Ok(c) ==> Some(c.model()) == scan_mapping_sp(toml_str@),
    {
        let n = toml_str.unicode_len();
        let (version, j) = match quoted_line(toml_str, 0, "version = ") {
            None => {
                return Err(ParseError {});
            },
            Some(p) => p,
        };
        let mut devices: Vec<(String, MappingDeviceConfig)> = Vec::new();
        let mut i: usize = j;
        proof {
            assert(devices@.map_values(|p: (String, MappingDeviceConfig)| (p.0@, p.1.model()))
                =~= Seq::<(Seq<char>, DeviceModel)>::empty());
        }
        loop
            invariant
                i <= n,
                n == toml_str@.len(),
                quoted_line_sp(toml_str@, 0, "version = "@) == Some((version@, j as nat)),
                scan_devices_sp(toml_str@, j as nat, Seq::empty()) == scan_devices_sp(
                    toml_str@,
                    i as nat,
                    devices@.map_values(|p: (String, MappingDeviceConfig)| (p.0@, p.1.model())),
                ),
            decreases n - i,
        {
            let ghost pre = devices@.map_values(
                |p: (String, MappingDeviceConfig)| (p.0@, p.1.model()),
            );
            let i2 = advance_trivia(toml_str, i);
            if i2 == n {
                return Ok(MappingConfig { version, devices });
            }
            let ((key, dev), j2) = match scan_device(toml_str, i2) {
                None => {
                    return Err(ParseError {});
                },
                Some(p) => p,
            };
            if contains_key(&devices, &key) {
                return Err(ParseError {});
            }
            devices.push((key, dev));
            proof {
                assert(devices@.map_values(
                    |p: (String, MappingDeviceConfig)| (p.0@, p.1.model()),
                ) =~= pre.push((devices@.last().0@, devices@.last().1.model())));
            }
            i = j2;
        }
    }

    /// The device registered under this name, if any.
    pub fn get_device(&self, device_name: &str) -> (r: Option<&MappingDeviceConfig>)
        ensures
            (r is Some) == (lookup_device(self.model().devices, device_name@) is Some),
            r matches Some(d) ==> lookup_device(self.model().devices, device_name@) == Some(
                d.model(),
            ),
    {
        let ghost models = self.model().devices;
        proof {
            assert(models.skip(0) =~= models);
        }
        let mut x: usize = 0;
        while x < self.devices.len()
            invariant
                0 <= x <= self.devices@.len(),
                models == self.model().devices,
                models.len() == self.devices@.len(),
                lookup_device(models, device_name@) == lookup_device(
                    models.skip(x as int),
                    device_name@,
                ),
            decreases self.devices@.len() - x,
        {
            proof {
                assert(models.skip(x as int)[0] == models[x as int]);
                assert(models.skip(x as int).skip(1) =~= models.skip(x as int + 1));
            }
            let p = &self.devices[x];
            if str_eq(p.0.as_str(), device_name) {
                return Some(&p.1);
            }
            x = x + 1;
        }
        proof {
            assert(models.skip(models.len() as int) =~= Seq::<(Seq<char>, DeviceModel)>::empty());
        }
        None
    }

    /// All device table keys, in file order.
    pub fn device_names(&self) -> (r: Vec<&String>)
        ensures
            r@.len() == self.model().devices.len(),
            forall|k: int|
                0 <= k < r@.len() ==> (#[trigger] r@[k])@ == self.model().devices[k].0,
    {
        let mut out: Vec<&String> = Vec::new();
        let mut x: usize = 0;
        while x < self.devices.len()
            invariant
                0 <= x <= self.devices@.len(),
                out@.len() == x,
                forall|k: int|
                    0 <= k < x ==> (#[trigger] out@[k])@ == self.model().devices[k].0,
            decreases self.devices@.len() - x,
        {
            let p = &self.devices[x];
            out.push(&p.0);
            x = x + 1;
        }
        out
    }
}

/// Append the vision table body.
fn push_vision(out: &mut String, v: &VisionConfig)
    ensures
        final(out)@ == old(out)@ + vision_rep(*v),
{
    push_pair_line(out, "capture_resolution = ", v.capture_resolution.0, v.capture_resolution.1);
    push_milli_line(out, "capture_framerate = ", v.capture_framerate);
    push_milli_line(out, "limit_perception_distance = ", v.limit_perception_distance);
    push_milli_line(out, "limit_perception_angle = ", v.limit_perception_angle);
    proof {
        assert(out@ =~= old(out)@ + vision_rep(*v));
    }
}

/// Append the object-detection table body.
fn push_od(out: &mut String, d: &ObjectDetectionConfig)
    ensures
        final(out)@ == old(out)@ + od_rep(d.model()),
{
    push_bool_line(out, "detection_enabled = ", d.detection_enabled);
    push_bool_line(out, "tracking_enabled = ", d.tracking_enabled);
    push_milli_line(out, "max_detection_range = ", d.max_detection_range);
    push_strlist_line(out, "objects = ", &d.objects);
    push_milli_line(out, "confidence_threshold = ", d.confidence_threshold);
    push_strlist_line(out, "detection_outputs = ", &d.detection_outputs);
    push_bool_line(out, "skeleton_tracking_enabled = ", d.skeleton_tracking_enabled);
    push_num_line(
        out,
        "skeleton_tracking_keypoint_count = ",
        d.skeleton_tracking_keypoint_count as u64,
    );
    proof {
        assert(out@ =~= old(out)@ + od_rep(d.model()));
    }
}

/// Append one device's header and tables.
fn push_device(out: &mut String, key: &String, d: &MappingDeviceConfig)
    ensures
        final(out)@ == old(out)@ + device_rep(key@, d.model()),
{
    out.append("[devices.");
    out.append(key.as_str());
    out.append("]\n");
    push_quoted_line(out, "name = ", d.name.as_str());
    push_quoted_line(out, "lens = ", d.lens.as_str());
    out.append("[devices.");
    out.append(key.as_str());
    out.append(".vision]\n");
    push_vision(out, &d.vision);
    out.append("[devices.");
    out.append(key.as_str());
    out.append(".object_detection]\n");
    push_od(out, &d.object_detection);
    proof {
        assert(out@ =~= old(out)@ + device_rep(key@, d.model()));
    }
}

/// Rendering the devices one further: the text of the first `x + 1` device
/// tables is the text of the first `x` followed by the next device's text.
#[verifier::rlimit(80)]
proof fn lemma_devices_rep_snoc(devs: Seq<(Seq<char>, DeviceModel)>, x: int)
    requires
        0 <= x < devs.len(),
    ensures
        devices_rep(devs.take(x + 1)) == devices_rep(devs.take(x)) + device_rep(
            devs[x].0,
            devs[x].1,
        ),
    decreases x,
{
    if x == 0 {
        assert(devs.take(1)[0] == devs[0]);
        assert(devs.take(1).skip(1) =~= Seq::<(Seq<char>, DeviceModel)>::empty());
        assert(devs.take(0) =~= Seq::<(Seq<char>, DeviceModel)>::empty());
        assert(devices_rep(devs.take(1)) == device_rep(devs[0].0, devs[0].1) + devices_rep(
            devs.take(1).skip(1),
        ));
        assert(devices_rep(Seq::<(Seq<char>, DeviceModel)>::empty()) =~= Seq::<char>::empty());
        assert(device_rep(devs[0].0, devs[0].1) + Seq::<char>::empty() =~= device_rep(
            devs[0].0,
            devs[0].1,
        ));
        assert(Seq::<char>::empty() + device_rep(devs[0].0, devs[0].1) =~= device_rep(
            devs[0].0,
            devs[0].1,
        ));
    } else {
        lemma_devices_rep_snoc(devs.skip(1), x - 1);
        assert(devs.take(x + 1)[0] == devs[0]);
        assert(devs.take(x)[0] == devs[0]);
        assert(devs.take(x + 1).skip(1) =~= devs.skip(1).take(x));
        assert(devs.take(x).skip(1) =~= devs.skip(1).take(x - 1));
        assert(devs.skip(1)[x - 1] == devs[x]);
        assert(devices_rep(devs.take(x + 1)) == device_rep(devs[0].0, devs[0].1) + devices_rep(
            devs.skip(1).take(x),
        ));
        assert(devices_rep(devs.take(x)) == device_rep(devs[0].0, devs[0].1) + devices_rep(
            devs.skip(1).take(x - 1),
        ));
        assert(device_rep(devs[0].0, devs[0].1) + (devices_rep(devs.skip(1).take(x - 1))
            + device_rep(devs[x].0, devs[x].1)) =~= (device_rep(devs[0].0, devs[0].1)
            + devices_rep(devs.skip(1).take(x - 1))) + device_rep(devs[x].0, devs[x].1));
    }
}

impl MappingConfig {
    /// Render the canonical configuration text.
    pub fn to_toml(&self) -> (r: String)
        ensures
            r@ == mapping_rep(self.model()),
    {
        let ghost models = self.model().devices;
        let mut out = String::new();
        push_quoted_line(&mut out, "version = ", self.version.as_str());
        proof {
            assert(models.take(0) =~= Seq::<(Seq<char>, DeviceModel)>::empty());
            assert(out@ =~= Seq::<char>::empty() + line_of("version = "@, quoted(self.version@))
                + devices_rep(models.take(0)));
        }
        let mut x: usize = 0;
        while x < self.devices.len()
            invariant
                0 <= x <= self.devices@.len(),
                models == self.model().devices,
                models.len() == self.devices@.len(),
                out@ == Seq::<char>::empty() + line_of("version = "@, quoted(self.version@))
                    + devices_rep(models.take(x as int)),
            decreases self.devices@.len() - x,
        {
            let p = &self.devices[x];
            push_device(&mut out, &p.0, &p.1);
            proof {
                lemma_devices_rep_snoc(models, x as int);
                assert(out@ =~= Seq::<char>::empty() + line_of(
                    "version = "@,
                    quoted(self.version@),
                ) + devices_rep(models.take(x as int + 1)));
            }
            x = x + 1;
        }
        proof {
            assert(models.take(models.len() as int) =~= models);
            assert(out@ =~= mapping_rep(self.model()));
        }
        out
    }
}

/// Round trip of the vision table body.
#[verifier::rlimit(80)]
pub proof fn lemma_vision_rt(s: Seq<char>, i: nat, v: VisionConfig)
    requires
        i + vision_rep(v).len() <= s.len(),
        s.subrange(i as int, (i + vision_rep(v).len()) as int) == vision_rep(v),
    ensures
        scan_vision_sp(s, i) == Some((v, (i + vision_rep(v).len()) as nat)),
{
    reveal_strlit("capture_resolution = ");
    reveal_strlit("capture_framerate = ");
    reveal_strlit("limit_perception_distance = ");
    reveal_strlit("limit_perception_angle = ");
    let rep = vision_rep(v);
    let p1 = line_of(
        "capture_resolution = "@,
        pair_rep(v.capture_resolution.0 as nat, v.capture_resolution.1 as nat),
    );
    let p2 = line_of("capture_framerate = "@, milli_rep(v.capture_framerate as nat));
    let p3 = line_of(
        "limit_perception_distance = "@,
        milli_rep(v.limit_perception_distance as nat),
    );
    let p4 = line_of("limit_perception_angle = "@, milli_rep(v.limit_perception_angle as nat));
    let o2 = p1.len();
    let o3 = p1.len() + p2.len();
    let o4 = p1.len() + p2.len() + p3.len();
    assert(rep.subrange(0, o2 as int) =~= p1);
    lemma_piece_at(s, i, rep, 0, p1);
    lemma_pair_line_rt(
        s,
        i,
        "capture_resolution = "@,
        v.capture_resolution.0,
        v.capture_resolution.1,
    );
    assert(rep.subrange(o2 as int, o3 as int) =~= p2);
    lemma_piece_at(s, i, rep, o2, p2);
    lemma_milli_line_rt(s, (i + o2) as nat, "capture_framerate = "@, v.capture_framerate);
    assert(rep.subrange(o3 as int, o4 as int) =~= p3);
    lemma_piece_at(s, i, rep, o3, p3);
    lemma_milli_line_rt(
        s,
        (i + o3) as nat,
        "limit_perception_distance = "@,
        v.limit_perception_distance,
    );
    assert(rep.subrange(o4 as int, rep.len() as int) =~= p4);
    lemma_piece_at(s, i, rep, o4, p4);
    lemma_milli_line_rt(
        s,
        (i + o4) as nat,
        "limit_perception_angle = "@,
        v.limit_perception_angle,
    );
}

/// Round trip of the first half of the object-detection table body.
#[verifier::rlimit(100)]
#[verifier::spinoff_prover]
proof fn lemma_od_head_rt(s: Seq<char>, i: nat, d: OdModel)
    requires
        forall|k: int| 0 <= k < d.objects.len() ==> str_ok(#[trigger] d.objects[k]),
        i + od_rep_head(d).len() <= s.len(),
        s.subrange(i as int, (i + od_rep_head(d).len()) as int) == od_rep_head(d),
    ensures
        ({
            let p1 = line_of("detection_enabled = "@, bool_rep(d.detection_enabled));
            let p2 = line_of("tracking_enabled = "@, bool_rep(d.tracking_enabled));
            let p3 = line_of("max_detection_range = "@, milli_rep(d.max_detection_range as nat));
            &&& bool_line_sp(s, i, "detection_enabled = "@) == Some(
                (d.detection_enabled, (i + p1.len()) as nat),
            )
            &&& bool_line_sp(s, (i + p1.len()) as nat, "tracking_enabled = "@) == Some(
                (d.tracking_enabled, (i + p1.len() + p2.len()) as nat),
            )
            &&& milli_line_sp(s, (i + p1.len() + p2.len()) as nat, "max_detection_range = "@)
                == Some((d.max_detection_range, (i + p1.len() + p2.len() + p3.len()) as nat))
            &&& strlist_line_sp(
                s,
                (i + p1.len() + p2.len() + p3.len()) as nat,
                "objects = "@,
            ) == Some((d.objects, (i + od_rep_head(d).len()) as nat))
        }),
{
    reveal_strlit("detection_enabled = ");
    reveal_strlit("tracking_enabled = ");
    reveal_strlit("max_detection_range = ");
    reveal_strlit("objects = ");
    let g1 = od_rep_head(d);
    let p1 = line_of("detection_enabled = "@, bool_rep(d.detection_enabled));
    let p2 = line_of("tracking_enabled = "@, bool_rep(d.tracking_enabled));
    let p3 = line_of("max_detection_range = "@, milli_rep(d.max_detection_range as nat));
    let p4 = line_of("objects = "@, strlist_rep(d.objects));
    let o2 = p1.len();
    let o3 = o2 + p2.len();
    let o4 = o3 + p3.len();
    assert(g1.subrange(0, o2 as int) =~= p1);
    lemma_piece_at(s, i, g1, 0, p1);
    lemma_bool_line_rt(s, i, "detection_enabled = "@, d.detection_enabled);
    assert(g1.subrange(o2 as int, o3 as int) =~= p2);
    lemma_piece_at(s, i, g1, o2, p2);
    lemma_bool_line_rt(s, (i + o2) as nat, "tracking_enabled = "@, d.tracking_enabled);
    assert(g1.subrange(o3 as int, o4 as int) =~= p3);
    lemma_piece_at(s, i, g1, o3, p3);
    lemma_milli_line_rt(s, (i + o3) as nat, "max_detection_range = "@, d.max_detection_range);
    assert(g1.subrange(o4 as int, g1.len() as int) =~= p4);
    lemma_piece_at(s, i, g1, o4, p4);
    lemma_strlist_line_rt(s, (i + o4) as nat, "objects = "@, d.objects);
}

/// Round trip of the second half of the object-detection table body.
#[verifier::rlimit(100)]
#[verifier::spinoff_prover]
proof fn lemma_od_tail_rt(s: Seq<char>, b: nat, d: OdModel)
    requires
        forall|k: int|
            0 <= k < d.detection_outputs.len() ==> str_ok(#[trigger] d.detection_outputs[k]),
        b + od_rep_tail(d).len() <= s.len(),
        s.subrange(b as int, (b + od_rep_tail(d).len()) as int) == od_rep_tail(d),
    ensures
        ({
            let p5 = line_of("confidence_threshold = "@, milli_rep(d.confidence_threshold as nat));
            let p6 = line_of("detection_outputs = "@, strlist_rep(d.detection_outputs));
            let p7 = line_of(
                "skeleton_tracking_enabled = "@,
                bool_rep(d.skeleton_tracking_enabled),
            );
            &&& milli_line_sp(s, b, "confidence_threshold = "@) == Some(
                (d.confidence_threshold, (b + p5.len()) as nat),
            )
            &&& strlist_line_sp(s, (b + p5.len()) as nat, "detection_outputs = "@) == Some(
                (d.detection_outputs, (b + p5.len() + p6.len()) as nat),
            )
            &&& bool_line_sp(
                s,
                (b + p5.len() + p6.len()) as nat,
                "skeleton_tracking_enabled = "@,
            ) == Some(
                (d.skeleton_tracking_enabled, (b + p5.len() + p6.len() + p7.len()) as nat),
            )
            &&& num_line_sp(
                s,
                (b + p5.len() + p6.len() + p7.len()) as nat,
                "skeleton_tracking_keypoint_count = "@,
            ) == Some(
                (d.skeleton_tracking_keypoint_count, (b + od_rep_tail(d).len()) as nat),
            )
        }),
{
    reveal_strlit("confidence_threshold = ");
    reveal_strlit("detection_outputs = ");
    reveal_strlit("skeleton_tracking_enabled = ");
    reveal_strlit("skeleton_tracking_keypoint_count = ");
    let g2 = od_rep_tail(d);
    let p5 = line_of("confidence_threshold = "@, milli_rep(d.confidence_threshold as nat));
    let p6 = line_of("detection_outputs = "@, strlist_rep(d.detection_outputs));
    let p7 = line_of("skeleton_tracking_enabled = "@, bool_rep(d.skeleton_tracking_enabled));
    let p8 = line_of(
        "skeleton_tracking_keypoint_count = "@,
        dec_rep(d.skeleton_tracking_keypoint_count as nat),
    );
    let q2 = p5.len();
    let q3 = q2 + p6.len();
    let q4 = q3 + p7.len();
    assert(g2.subrange(0, q2 as int) =~= p5);
    lemma_piece_at(s, b, g2, 0, p5);
    lemma_milli_line_rt(s, b, "confidence_threshold = "@, d.confidence_threshold);
    assert(g2.subrange(q2 as int, q3 as int) =~= p6);
    lemma_piece_at(s, b, g2, q2, p6);
    lemma_strlist_line_rt(s, (b + q2) as nat, "detection_outputs = "@, d.detection_outputs);
    assert(g2.subrange(q3 as int, q4 as int) =~= p7);
    lemma_piece_at(s, b, g2, q3, p7);
    lemma_bool_line_rt(
        s,
        (b + q3) as nat,
        "skeleton_tracking_enabled = "@,
        d.skeleton_tracking_enabled,
    );
    assert(g2.subrange(q4 as int, g2.len() as int) =~= p8);
    lemma_piece_at(s, b, g2, q4, p8);
    lemma_num_line_rt(
        s,
        (b + q4) as nat,
        "skeleton_tracking_keypoint_count = "@,
        d.skeleton_tracking_keypoint_count,
    );
}

/// Round trip of the object-detection table body.
#[verifier::rlimit(100)]
#[verifier::spinoff_prover]
pub proof fn lemma_od_rt(s: Seq<char>, i: nat, d: OdModel)
    requires
        forall|k: int| 0 <= k < d.objects.len() ==> str_ok(#[trigger] d.objects[k]),
        forall|k: int|
            0 <= k < d.detection_outputs.len() ==> str_ok(#[trigger] d.detection_outputs[k]),
        d.skeleton_tracking_keypoint_count <= usize::MAX as u64,
        i + od_rep(d).len() <= s.len(),
        s.subrange(i as int, (i + od_rep(d).len()) as int) == od_rep(d),
    ensures
        scan_od_sp(s, i) == Some((d, (i + od_rep(d).len()) as nat)),
{
    let rep = od_rep(d);
    let g1 = od_rep_head(d);
    let g2 = od_rep_tail(d);
    assert(rep.subrange(0, g1.len() as int) =~= g1);
    lemma_piece_at(s, i, rep, 0, g1);
    assert(rep.subrange(g1.len() as int, rep.len() as int) =~= g2);
    lemma_piece_at(s, i, rep, g1.len(), g2);
    lemma_od_head_rt(s, i, d);
    lemma_od_tail_rt(s, (i + g1.len()) as nat, d);
}

/// The header, name and lens lines of a device, scanned from their text.
#[verifier::rlimit(100)]
#[verifier::spinoff_prover]
proof fn lemma_device_head_rt(s: Seq<char>, i: nat, key: Seq<char>, d: DeviceModel)
    requires
        key_ok(key),
        str_ok(d.name),
        str_ok(d.lens),
        i + device_rep_head(key, d).len() <= s.len(),
        s.subrange(i as int, (i + device_rep_head(key, d).len()) as int) == device_rep_head(
            key,
            d,
        ),
    ensures
        expect_sp(s, i, "[devices."@) == Some((i + "[devices."@.len()) as nat),
        scan_key(s, (i + "[devices."@.len()) as nat) == (
            key,
            (i + "[devices."@.len() + key.len()) as nat,
        ),
        expect_sp(s, (i + "[devices."@.len() + key.len()) as nat, "]\n"@) == Some(
            (i + "[devices."@.len() + key.len() + "]\n"@.len()) as nat,
        ),
        quoted_line_sp(
            s,
            (i + "[devices."@.len() + key.len() + "]\n"@.len()) as nat,
            "name = "@,
        ) == Some(
            (
                d.name,
                (i + "[devices."@.len() + key.len() + "]\n"@.len() + line_of(
                    "name = "@,
                    quoted(d.name),
                ).len()) as nat,
            ),
        ),
        quoted_line_sp(
            s,
            (i + "[devices."@.len() + key.len() + "]\n"@.len() + line_of(
                "name = "@,
                quoted(d.name),
            ).len()) as nat,
            "lens = "@,
        ) == Some((d.lens, (i + device_rep_head(key, d).len()) as nat)),
{
    reveal_strlit("]\n");
    reveal_strlit("name = ");
    reveal_strlit("lens = ");
    let g1 = device_rep_head(key, d);
    let h = "[devices."@;
    let p3 = "]\n"@;
    let pn = line_of("name = "@, quoted(d.name));
    let pl = line_of("lens = "@, quoted(d.lens));
    let o1 = h.len();
    let o2 = o1 + key.len();
    let o3 = o2 + p3.len();
    let o4 = o3 + pn.len();
    assert(g1.subrange(0, o1 as int) =~= h);
    lemma_piece_at(s, i, g1, 0, h);
    assert(g1.subrange(o1 as int, o2 as int) =~= key);
    lemma_piece_at(s, i, g1, o1, key);
    assert(g1.subrange(o2 as int, o3 as int) =~= p3);
    lemma_piece_at(s, i, g1, o2, p3);
    assert(p3 =~= seq![']', '\n']);
    assert(s.subrange((i + o2) as int, (i + o3) as int)[0] == s[(i + o2) as int]);
    assert(s[(i + o2) as int] == ']');
    assert(!is_key_char(']'));
    lemma_scan_key_rt(s, (i + o1) as nat, key);
    assert(g1.subrange(o3 as int, o4 as int) =~= pn);
    lemma_piece_at(s, i, g1, o3, pn);
    lemma_quoted_line_rt(s, (i + o3) as nat, "name = "@, d.name);
    assert(g1.subrange(o4 as int, g1.len() as int) =~= pl);
    lemma_piece_at(s, i, g1, o4, pl);
    lemma_quoted_line_rt(s, (i + o4) as nat, "lens = "@, d.lens);
}

/// A device's vision table, scanned from its text.
#[verifier::rlimit(100)]
#[verifier::spinoff_prover]
proof fn lemma_device_vision_rt(s: Seq<char>, b: nat, key: Seq<char>, d: DeviceModel)
    requires
        b + device_rep_vision(key, d).len() <= s.len(),
        s.subrange(b as int, (b + device_rep_vision(key, d).len()) as int) == device_rep_vision(
            key,
            d,
        ),
    ensures
        expect_sp(s, b, "[devices."@) == Some((b + "[devices."@.len()) as nat),
        expect_sp(s, (b + "[devices."@.len()) as nat, key) == Some(
            (b + "[devices."@.len() + key.len()) as nat,
        ),
        expect_sp(
            s,
            (b + "[devices."@.len() + key.len()) as nat,
            ".vision]\n"@,
        ) == Some((b + "[devices."@.len() + key.len() + ".vision]\n"@.len()) as nat),
        scan_vision_sp(
            s,
            (b + "[devices."@.len() + key.len() + ".vision]\n"@.len()) as nat,
        ) == Some((d.vision, (b + device_rep_vision(key, d).len()) as nat)),
{
    let g2 = device_rep_vision(key, d);
    let h = "[devices."@;
    let pv = ".vision]\n"@;
    let v1 = h.len();
    let v2 = v1 + key.len();
    let v3 = v2 + pv.len();
    assert(g2.subrange(0, v1 as int) =~= h);
    lemma_piece_at(s, b, g2, 0, h);
    assert(g2.subrange(v1 as int, v2 as int) =~= key);
    lemma_piece_at(s, b, g2, v1, key);
    assert(g2.subrange(v2 as int, v3 as int) =~= pv);
    lemma_piece_at(s, b, g2, v2, pv);
    assert(g2.subrange(v3 as int, g2.len() as int) =~= vision_rep(d.vision));
    lemma_piece_at(s, b, g2, v3, vision_rep(d.vision));
    lemma_vision_rt(s, (b + v3) as nat, d.vision);
}

/// A device's object-detection table, scanned from its text.
#[verifier::rlimit(100)]
#[verifier::spinoff_prover]
proof fn lemma_device_od_rt(s: Seq<char>, b: nat, key: Seq<char>, d: DeviceModel)
    requires
        device_wf(d),
        b + device_rep_od(key, d).len() <= s.len(),
        s.subrange(b as int, (b + device_rep_od(key, d).len()) as int) == device_rep_od(key, d),
    ensures
        expect_sp(s, b, "[devices."@) == Some((b + "[devices."@.len()) as nat),
        expect_sp(s, (b + "[devices."@.len()) as nat, key) == Some(
            (b + "[devices."@.len() + key.len()) as nat,
        ),
        expect_sp(
            s,
            (b + "[devices."@.len() + key.len()) as nat,
            ".object_detection]\n"@,
        ) == Some(
            (b + "[devices."@.len() + key.len() + ".object_detection]\n"@.len()) as nat,
        ),
        scan_od_sp(
            s,
            (b + "[devices."@.len() + key.len() + ".object_detection]\n"@.len()) as nat,
        ) == Some((d.object_detection, (b + device_rep_od(key, d).len()) as nat)),
{
    let g3 = device_rep_od(key, d);
    let h = "[devices."@;
    let po = ".object_detection]\n"@;
    let v1 = h.len();
    let w2 = v1 + key.len();
    let w3 = w2 + po.len();
    assert(g3.subrange(0, v1 as int) =~= h);
    lemma_piece_at(s, b, g3, 0, h);
    assert(g3.subrange(v1 as int, w2 as int) =~= key);
    lemma_piece_at(s, b, g3, v1, key);
    assert(g3.subrange(w2 as int, w3 as int) =~= po);
    lemma_piece_at(s, b, g3, w2, po);
    assert(g3.subrange(w3 as int, g3.len() as int) =~= od_rep(d.object_detection));
    lemma_piece_at(s, b, g3, w3, od_rep(d.object_detection));
    lemma_od_rt(s, (b + w3) as nat, d.object_detection);
}

/// Round trip of one device's tables.
#[verifier::rlimit(100)]
#[verifier::spinoff_prover]
pub proof fn lemma_device_rt(s: Seq<char>, i: nat, key: Seq<char>, d: DeviceModel)
    requires
        key_ok(key),
        device_wf(d),
        i + device_rep(key, d).len() <= s.len(),
        s.subrange(i as int, (i + device_rep(key, d).len()) as int) == device_rep(key, d),
    ensures
        scan_device_sp(s, i) == Some(((key, d), (i + device_rep(key, d).len()) as nat)),
{
    reveal_strlit("[devices.");
    let rep = device_rep(key, d);
    let g1 = device_rep_head(key, d);
    let g2 = device_rep_vision(key, d);
    let g3 = device_rep_od(key, d);
    assert(rep.subrange(0, g1.len() as int) =~= g1);
    lemma_piece_at(s, i, rep, 0, g1);
    assert(rep.subrange(g1.len() as int, (g1.len() + g2.len()) as int) =~= g2);
    lemma_piece_at(s, i, rep, g1.len(), g2);
    assert(rep.subrange((g1.len() + g2.len()) as int, rep.len() as int) =~= g3);
    lemma_piece_at(s, i, rep, (g1.len() + g2.len()) as nat, g3);
    lemma_device_head_rt(s, i, key, d);
    let b2 = (i + g1.len()) as nat;
    let b3 = (i + g1.len() + g2.len()) as nat;
    assert(s.subrange(b2 as int, (b2 + g2.len()) as int)[0] == s[b2 as int]);
    assert(g2[0] == '[');
    lemma_skip_trivia_stays(s, b2);
    assert(s.subrange(b3 as int, (b3 + g3.len()) as int)[0] == s[b3 as int]);
    assert(g3[0] == '[');
    lemma_skip_trivia_stays(s, b3);
    lemma_device_vision_rt(s, b2, key, d);
    lemma_device_od_rt(s, b3, key, d);
}

#[verifier::rlimit(100)]
#[verifier::spinoff_prover]
pub proof fn lemma_devices_rt(
    s: Seq<char>,
    i: nat,
    devs: Seq<(Seq<char>, DeviceModel)>,
    acc: Seq<(Seq<char>, DeviceModel)>,
)
    requires
        forall|k: int| 0 <= k < devs.len() ==> key_ok((#[trigger] devs[k]).0),
        forall|k: int| 0 <= k < devs.len() ==> device_wf((#[trigger] devs[k]).1),
        forall|a: int, b: int| 0 <= a < b < devs.len() ==> devs[a].0 != devs[b].0,
        forall|k: int| 0 <= k < devs.len() ==> !keys_contain(acc, (#[trigger] devs[k]).0),
        i + devices_rep(devs).len() == s.len(),
        s.subrange(i as int, s.len() as int) == devices_rep(devs),
    ensures
        scan_devices_sp(s, i, acc) == Some((acc + devs, s.len() as nat)),
    decreases devs.len(),
{
    reveal_strlit("[devices.");
    if devs.len() == 0 {
        assert(i == s.len());
        lemma_skip_trivia_stays(s, i);
        assert(acc + devs =~= acc);
    } else {
        let rep = devices_rep(devs);
        let d0 = device_rep(devs[0].0, devs[0].1);
        assert(s.subrange(i as int, s.len() as int)[0] == s[i as int]);
        assert(d0[0] == '[');
        assert(s[i as int] == '[');
        lemma_skip_trivia_stays(s, i);
        let rest = devs.skip(1);
        assert(rep == d0 + devices_rep(rest));
        lemma_split_two(s, i, d0, devices_rep(rest));
        lemma_device_rt(s, i, devs[0].0, devs[0].1);
        let j = (i + d0.len()) as nat;
        assert(d0.len() >= "[devices."@.len());
        assert("[devices."@.len() == 9);
        assert(!keys_contain(acc, devs[0].0));
        assert(s.subrange(j as int, s.len() as int) == devices_rep(rest));
        let acc2 = acc.push(devs[0]);
        assert(forall|k: int| 0 <= k < rest.len() ==> rest[k] == devs[k + 1]);
        assert forall|k: int| 0 <= k < rest.len() implies !keys_contain(
            acc2,
            (#[trigger] rest[k]).0,
        ) by {
            if keys_contain(acc2, rest[k].0) {
                let w = choose|w: int|
                    0 <= w < acc2.len() && (#[trigger] acc2[w]).0 == rest[k].0;
                if w < acc.len() {
                    assert(acc[w] == acc2[w]);
                    assert(keys_contain(acc, devs[k + 1].0));
                } else {
                    assert(acc2[w] == devs[0]);
                    assert(devs[0].0 == devs[k + 1].0);
                }
            }
        }
        lemma_devices_rt(s, j, rest, acc2);
        assert(acc.push(devs[0]) + rest =~= acc + devs);
    }
}

/// The round trip of a whole mapping configuration: scanning the canonical
/// text of any well-formed configuration yields exactly that configuration.
#[verifier::rlimit(100)]
#[verifier::spinoff_prover]
pub proof fn lemma_mapping_round_trip(m: MappingModel)
    requires
        mapping_wf(m),
    ensures
        scan_mapping_sp(mapping_rep(m)) == Some(m),
{
    reveal_strlit("version = ");
    let s = mapping_rep(m);
    let vl = line_of("version = "@, quoted(m.version));
    assert(s.subrange(0, s.len() as int) =~= s);
    assert(s == vl + devices_rep(m.devices));
    lemma_split_two(s, 0, vl, devices_rep(m.devices));
    lemma_quoted_line_rt(s, 0, "version = "@, m.version);
    assert forall|k: int| 0 <= k < m.devices.len() implies !keys_contain(
        Seq::<(Seq<char>, DeviceModel)>::empty(),
        (#[trigger] m.devices[k]).0,
    ) by {
        if keys_contain(Seq::<(Seq<char>, DeviceModel)>::empty(), m.devices[k].0) {
            let w = choose|w: int|
                0 <= w < Seq::<(Seq<char>, DeviceModel)>::empty().len() && (#[trigger] Seq::<
                    (Seq<char>, DeviceModel),
                >::empty()[w]).0 == m.devices[k].0;
        }
    }
    lemma_devices_rt(s, vl.len(), m.devices, Seq::empty());
    assert(Seq::<(Seq<char>, DeviceModel)>::empty() + m.devices =~= m.devices);
    assert(scan_mapping_sp(s) == Some(MappingModel { version: m.version, devices: m.devices }));
    assert(MappingModel { version: m.version, devices: m.devices } == m);
}

} // verus!
