//! The mobility configuration: a version string, one body table of motion
//! limits, and a table of motors. The format, scanning and rendering follow
//! the same canonical text as the mapping configuration, and the same round
//! trip holds. Fractional limits are carried as fixed-point thousandths.

use vstd::prelude::*;

use crate::mapping_config::ParseError;
use crate::toml_text::{
    advance_trivia, expect_lit, expect_sp, is_key_char, key_ok, lemma_milli_line_rt,
    lemma_piece_at, lemma_quoted_line_rt, lemma_scan_key_rt, lemma_skip_trivia_stays,
    lemma_split_two, line_of, milli_line, milli_line_sp, milli_rep, push_milli_line,
    push_quoted_line, quoted, quoted_line, quoted_line_sp, scan_barekey, scan_key, skip_trivia,
    str_eq, str_ok,
};

verus! {

/// Motion limits of the body. All fractional values are in thousandths.
#[derive(Clone, Copy, Debug, PartialEq, Eq, Structural)]
pub struct BodyConfig {
    /// Top speed in thousandths of a meter per second.
    pub max_speed: u64,
    /// Top acceleration in thousandths of a meter per second squared.
    pub max_acceleration: u64,
    /// Tightest turn radius in thousandths of a meter.
    pub min_turn_radius: u64,
    /// Top stand-up speed in thousandths of a meter per second.
    pub max_standup_speed: u64,
    /// Roll limit in thousandths of a degree.
    pub max_roll_angle: u64,
    /// Pitch limit in thousandths of a degree.
    pub max_pitch_angle: u64,
}

/// One motor.
#[derive(Debug, Clone, PartialEq, Eq)]
pub struct MotorConfig {
    pub name: String,
}

/// The whole mobility configuration: motors keyed by table name, in file
/// order, with unique keys.
#[derive(Debug, Clone, PartialEq, Eq)]
pub struct MobilityConfig {
    pub version: String,
    pub body: BodyConfig,
    pub motors: Vec<(String, MotorConfig)>,
}

/// Mathematical value of one motor.
pub ghost struct MotorModel {
    pub name: Seq<char>,
}

/// Mathematical value of the whole configuration.
pub ghost struct MobilityModel {
    pub version: Seq<char>,
    pub body: BodyConfig,
    pub motors: Seq<(Seq<char>, MotorModel)>,
}

impl MotorConfig {
    /// The mathematical value this struct holds.
    pub open spec fn model(&self) -> MotorModel {
        MotorModel { name: self.name@ }
    }
}

impl MobilityConfig {
    /// The mathematical value this struct holds.
    pub open spec fn model(&self) -> MobilityModel {
        MobilityModel {
            version: self.version@,
            body: self.body,
            motors: self.motors@.map_values(|p: (String, MotorConfig)| (p.0@, p.1.model())),
        }
    }

    /// A configuration the canonical text can carry.
    pub open spec fn wf(&self) -> bool {
        mobility_wf(self.model())
    }
}

/// A configuration the canonical text can carry: plain strings, bare table
/// keys, and no two motors under the same key.
pub open spec fn mobility_wf(m: MobilityModel) -> bool {
    &&& str_ok(m.version)
    &&& forall|k: int| 0 <= k < m.motors.len() ==> key_ok((#[trigger] m.motors[k]).0)
    &&& forall|k: int| 0 <= k < m.motors.len() ==> str_ok((#[trigger] m.motors[k]).1.name)
    &&& forall|a: int, b: int| 0 <= a < b < m.motors.len() ==> m.motors[a].0 != m.motors[b].0
}

/// The first half of the body table lines.
pub open spec fn body_rep_head(b: BodyConfig) -> Seq<char> {
    line_of("max_speed = "@, milli_rep(b.max_speed as nat)) + line_of(
        "max_acceleration = "@,
        milli_rep(b.max_acceleration as nat),
    ) + line_of("min_turn_radius = "@, milli_rep(b.min_turn_radius as nat))
}

/// The second half of the body table lines.
pub open spec fn body_rep_tail(b: BodyConfig) -> Seq<char> {
    line_of("max_standup_speed = "@, milli_rep(b.max_standup_speed as nat)) + line_of(
        "max_roll_angle = "@,
        milli_rep(b.max_roll_angle as nat),
    ) + line_of("max_pitch_angle = "@, milli_rep(b.max_pitch_angle as nat))
}

/// The canonical text of the body table.
pub open spec fn body_rep(b: BodyConfig) -> Seq<char> {
    "[body]\n"@ + body_rep_head(b) + body_rep_tail(b)
}

/// The canonical text of one motor's table.
pub open spec fn motor_rep(key: Seq<char>, m: MotorModel) -> Seq<char> {
    "[motors."@ + key + "]\n"@ + line_of("name = "@, quoted(m.name))
}

/// The canonical text of the motor tables, in order.
pub open spec fn motors_rep(motors: Seq<(Seq<char>, MotorModel)>) -> Seq<char>
    decreases motors.len(),
{
    if motors.len() == 0 {
        Seq::empty()
    } else {
        motor_rep(motors[0].0, motors[0].1) + motors_rep(motors.skip(1))
    }
}

/// The canonical text of a whole mobility configuration.
pub open spec fn mobility_rep(m: MobilityModel) -> Seq<char> {
    line_of("version = "@, quoted(m.version)) + body_rep(m.body) + motors_rep(m.motors)
}

/// Scan the body table.
pub open spec fn scan_body_sp(s: Seq<char>, i: nat) -> Option<(BodyConfig, nat)> {
    match expect_sp(s, skip_trivia(s, i), "[body]\n"@) {
        None => None,
        Some(j0) => match milli_line_sp(s, j0, "max_speed = "@) {
            None => None,
            Some((sp, j1)) => match milli_line_sp(s, j1, "max_acceleration = "@) {
                None => None,
                Some((acc, j2)) => match milli_line_sp(s, j2, "min_turn_radius = "@) {
                    None => None,
                    Some((tr, j3)) => match milli_line_sp(s, j3, "max_standup_speed = "@) {
                        None => None,
                        Some((su, j4)) => match milli_line_sp(s, j4, "max_roll_angle = "@) {
                            None => None,
                            Some((roll, j5)) => match milli_line_sp(s, j5, "max_pitch_angle = "@) {
                                None => None,
                                Some((pitch, j6)) => Some(
                                    (
                                        BodyConfig {
                                            max_speed: sp,
                                            max_acceleration: acc,
                                            min_turn_radius: tr,
                                            max_standup_speed: su,
                                            max_roll_angle: roll,
                                            max_pitch_angle: pitch,
                                        },
                                        j6,
                                    ),
                                ),
                            },
                        },
                    },
                },
            },
        },
    }
}

/// Scan one motor's table.
pub open spec fn scan_motor_sp(s: Seq<char>, i: nat) -> Option<((Seq<char>, MotorModel), nat)> {
    match expect_sp(s, i, "[motors."@) {
        None => None,
        Some(j0) => {
            let (key, j1) = scan_key(s, j0);
            if key.len() == 0 {
                None
            } else {
                match expect_sp(s, j1, "]\n"@) {
                    None => None,
                    Some(j2) => match quoted_line_sp(s, j2, "name = "@) {
                        None => None,
                        Some((name, j3)) => Some(((key, MotorModel { name }), j3)),
                    },
                }
            }
        },
    }
}

/// Does the motor table already hold this key?
pub open spec fn motor_keys_contain(motors: Seq<(Seq<char>, MotorModel)>, k: Seq<char>) -> bool {
    exists|x: int| 0 <= x < motors.len() && (#[trigger] motors[x]).0 == k
}

/// The motor under a key, front to back.
pub open spec fn lookup_motor(motors: Seq<(Seq<char>, MotorModel)>, k: Seq<char>) -> Option<
    MotorModel,
>
    decreases motors.len(),
{
    if motors.len() == 0 {
        None
    } else if motors[0].0 == k {
        Some(motors[0].1)
    } else {
        lookup_motor(motors.skip(1), k)
    }
}

/// Scan motor tables until the end of the text, refusing a repeated key.
pub open spec fn scan_motors_sp(
    s: Seq<char>,
    i: nat,
    acc: Seq<(Seq<char>, MotorModel)>,
) -> Option<(Seq<(Seq<char>, MotorModel)>, nat)>
    decreases s.len() - i,
{
    let i2 = skip_trivia(s, i);
    if i2 == s.len() {
        Some((acc, i2))
    } else if i2 > s.len() {
        None
    } else {
        match scan_motor_sp(s, i2) {
            None => None,
            Some(((k, m), j)) => {
                if motor_keys_contain(acc, k) {
                    None
                } else if i < j && j <= s.len() {
                    scan_motors_sp(s, j, acc.push((k, m)))
                } else {
                    None
                }
            },
        }
    }
}

/// Scan a whole mobility configuration.
pub open spec fn scan_mobility_sp(s: Seq<char>) -> Option<MobilityModel> {
    match quoted_line_sp(s, 0, "version = "@) {
        None => None,
        Some((v, j)) => match scan_body_sp(s, j) {
            None => None,
            Some((body, j2)) => match scan_motors_sp(s, j2, Seq::empty()) {
                None => None,
                Some((motors, _end)) => Some(MobilityModel { version: v, body, motors }),
            },
        },
    }
}

/// Round trip of the body table.
#[verifier::rlimit(100)]
#[verifier::spinoff_prover]
pub proof fn lemma_body_rt(s: Seq<char>, i: nat, b: BodyConfig)
    requires
        i + body_rep(b).len() <= s.len(),
        s.subrange(i as int, (i + body_rep(b).len()) as int) == body_rep(b),
    ensures
        scan_body_sp(s, i) == Some((b, (i + body_rep(b).len()) as nat)),
{
    reveal_strlit("[body]\n");
    reveal_strlit("max_speed = ");
    reveal_strlit("max_acceleration = ");
    reveal_strlit("min_turn_radius = ");
    reveal_strlit("max_standup_speed = ");
    reveal_strlit("max_roll_angle = ");
    reveal_strlit("max_pitch_angle = ");
    let rep = body_rep(b);
    let h = "[body]\n"@;
    let g1 = body_rep_head(b);
    let g2 = body_rep_tail(b);
    assert(s.subrange(i as int, (i + rep.len()) as int)[0] == s[i as int]);
    assert(rep[0] == '[');
    lemma_skip_trivia_stays(s, i);
    assert(rep.subrange(0, h.len() as int) =~= h);
    lemma_piece_at(s, i, rep, 0, h);
    assert(rep.subrange(h.len() as int, (h.len() + g1.len()) as int) =~= g1);
    lemma_piece_at(s, i, rep, h.len(), g1);
    assert(rep.subrange((h.len() + g1.len()) as int, rep.len() as int) =~= g2);
    lemma_piece_at(s, i, rep, (h.len() + g1.len()) as nat, g2);
    let b1 = (i + h.len()) as nat;
    let p1 = line_of("max_speed = "@, milli_rep(b.max_speed as nat));
    let p2 = line_of("max_acceleration = "@, milli_rep(b.max_acceleration as nat));
    let p3 = line_of("min_turn_radius = "@, milli_rep(b.min_turn_radius as nat));
    assert(g1.subrange(0, p1.len() as int) =~= p1);
    lemma_piece_at(s, b1, g1, 0, p1);
    lemma_milli_line_rt(s, b1, "max_speed = "@, b.max_speed);
    assert(g1.subrange(p1.len() as int, (p1.len() + p2.len()) as int) =~= p2);
    lemma_piece_at(s, b1, g1, p1.len(), p2);
    lemma_milli_line_rt(s, (b1 + p1.len()) as nat, "max_acceleration = "@, b.max_acceleration);
    assert(g1.subrange((p1.len() + p2.len()) as int, g1.len() as int) =~= p3);
    lemma_piece_at(s, b1, g1, (p1.len() + p2.len()) as nat, p3);
    lemma_milli_line_rt(
        s,
        (b1 + p1.len() + p2.len()) as nat,
        "min_turn_radius = "@,
        b.min_turn_radius,
    );
    let b2 = (b1 + g1.len()) as nat;
    let p4 = line_of("max_standup_speed = "@, milli_rep(b.max_standup_speed as nat));
    let p5 = line_of("max_roll_angle = "@, milli_rep(b.max_roll_angle as nat));
    let p6 = line_of("max_pitch_angle = "@, milli_rep(b.max_pitch_angle as nat));
    assert(g2.subrange(0, p4.len() as int) =~= p4);
    lemma_piece_at(s, b2, g2, 0, p4);
    lemma_milli_line_rt(s, b2, "max_standup_speed = "@, b.max_standup_speed);
    assert(g2.subrange(p4.len() as int, (p4.len() + p5.len()) as int) =~= p5);
    lemma_piece_at(s, b2, g2, p4.len(), p5);
    lemma_milli_line_rt(s, (b2 + p4.len()) as nat, "max_roll_angle = "@, b.max_roll_angle);
    assert(g2.subrange((p4.len() + p5.len()) as int, g2.len() as int) =~= p6);
    lemma_piece_at(s, b2, g2, (p4.len() + p5.len()) as nat, p6);
    lemma_milli_line_rt(
        s,
        (b2 + p4.len() + p5.len()) as nat,
        "max_pitch_angle = "@,
        b.max_pitch_angle,
    );
}

/// Round trip of one motor's table.
#[verifier::rlimit(100)]
#[verifier::spinoff_prover]
pub proof fn lemma_motor_rt(s: Seq<char>, i: nat, key: Seq<char>, m: MotorModel)
    requires
        key_ok(key),
        str_ok(m.name),
        i + motor_rep(key, m).len() <= s.len(),
        s.subrange(i as int, (i + motor_rep(key, m).len()) as int) == motor_rep(key, m),
    ensures
        scan_motor_sp(s, i) == Some(((key, m), (i + motor_rep(key, m).len()) as nat)),
{
    reveal_strlit("]\n");
    reveal_strlit("name = ");
    let rep = motor_rep(key, m);
    let h = "[motors."@;
    let p3 = "]\n"@;
    let pn = line_of("name = "@, quoted(m.name));
    let o1 = h.len();
    let o2 = o1 + key.len();
    let o3 = o2 + p3.len();
    assert(rep.subrange(0, o1 as int) =~= h);
    lemma_piece_at(s, i, rep, 0, h);
    assert(rep.subrange(o1 as int, o2 as int) =~= key);
    lemma_piece_at(s, i, rep, o1, key);
    assert(rep.subrange(o2 as int, o3 as int) =~= p3);
    lemma_piece_at(s, i, rep, o2, p3);
    assert(p3 =~= seq![']', '\n']);
    assert(s.subrange((i + o2) as int, (i + o3) as int)[0] == s[(i + o2) as int]);
    assert(s[(i + o2) as int] == ']');
    assert(!is_key_char(']'));
    lemma_scan_key_rt(s, (i + o1) as nat, key);
    assert(rep.subrange(o3 as int, rep.len() as int) =~= pn);
    lemma_piece_at(s, i, rep, o3, pn);
    lemma_quoted_line_rt(s, (i + o3) as nat, "name = "@, m.name);
}

/// Round trip of the motor tables running to the end of the text.
#[verifier::rlimit(100)]
#[verifier::spinoff_prover]
pub proof fn lemma_motors_rt(
    s: Seq<char>,
    i: nat,
    motors: Seq<(Seq<char>, MotorModel)>,
    acc: Seq<(Seq<char>, MotorModel)>,
)
    requires
        forall|k: int| 0 <= k < motors.len() ==> key_ok((#[trigger] motors[k]).0),
        forall|k: int| 0 <= k < motors.len() ==> str_ok((#[trigger] motors[k]).1.name),
        forall|a: int, b: int| 0 <= a < b < motors.len() ==> motors[a].0 != motors[b].0,
        forall|k: int| 0 <= k < motors.len() ==> !motor_keys_contain(acc, (#[trigger] motors[k]).0),
        i + motors_rep(motors).len() == s.len(),
        s.subrange(i as int, s.len() as int) == motors_rep(motors),
    ensures
        scan_motors_sp(s, i, acc) == Some((acc + motors, s.len() as nat)),
    decreases motors.len(),
{
    reveal_strlit("[motors.");
    if motors.len() == 0 {
        assert(i == s.len());
        lemma_skip_trivia_stays(s, i);
        assert(acc + motors =~= acc);
    } else {
        let m0 = motor_rep(motors[0].0, motors[0].1);
        let rest = motors.skip(1);
        assert(s.subrange(i as int, s.len() as int)[0] == s[i as int]);
        assert(m0[0] == '[');
        assert(s[i as int] == '[');
        lemma_skip_trivia_stays(s, i);
        assert(motors_rep(motors) == m0 + motors_rep(rest));
        lemma_split_two(s, i, m0, motors_rep(rest));
        lemma_motor_rt(s, i, motors[0].0, motors[0].1);
        let j = (i + m0.len()) as nat;
        assert(m0.len() >= "[motors."@.len());
        assert("[motors."@.len() == 8);
        assert(!motor_keys_contain(acc, motors[0].0));
        let acc2 = acc.push(motors[0]);
        assert(forall|k: int| 0 <= k < rest.len() ==> rest[k] == motors[k + 1]);
        assert forall|k: int| 0 <= k < rest.len() implies !motor_keys_contain(
            acc2,
            (#[trigger] rest[k]).0,
        ) by {
            if motor_keys_contain(acc2, rest[k].0) {
                let w = choose|w: int|
                    0 <= w < acc2.len() && (#[trigger] acc2[w]).0 == rest[k].0;
                if w < acc.len() {
                    assert(acc[w] == acc2[w]);
                    assert(motor_keys_contain(acc, motors[k + 1].0));
                } else {
                    assert(acc2[w] == motors[0]);
                    assert(motors[0].0 == motors[k + 1].0);
                }
            }
        }
        lemma_motors_rt(s, j, rest, acc2);
        assert(acc.push(motors[0]) + rest =~= acc + motors);
    }
}

/// The round trip of a whole mobility configuration: scanning the canonical
/// text of any well-formed configuration yields exactly that configuration.
#[verifier::rlimit(100)]
#[verifier::spinoff_prover]
pub proof fn lemma_mobility_round_trip(m: MobilityModel)
    requires
        mobility_wf(m),
    ensures
        scan_mobility_sp(mobility_rep(m)) == Some(m),
{
    reveal_strlit("version = ");
    let s = mobility_rep(m);
    let vl = line_of("version = "@, quoted(m.version));
    let br = body_rep(m.body);
    assert(s.subrange(0, s.len() as int) =~= s);
    assert(s == vl + (br + motors_rep(m.motors)));
    lemma_split_two(s, 0, vl, br + motors_rep(m.motors));
    lemma_quoted_line_rt(s, 0, "version = "@, m.version);
    lemma_split_two(s, vl.len(), br, motors_rep(m.motors));
    lemma_body_rt(s, vl.len(), m.body);
    assert forall|k: int| 0 <= k < m.motors.len() implies !motor_keys_contain(
        Seq::<(Seq<char>, MotorModel)>::empty(),
        (#[trigger] m.motors[k]).0,
    ) by {
        if motor_keys_contain(Seq::<(Seq<char>, MotorModel)>::empty(), m.motors[k].0) {
            let w = choose|w: int|
                0 <= w < Seq::<(Seq<char>, MotorModel)>::empty().len() && (#[trigger] Seq::<
                    (Seq<char>, MotorModel),
                >::empty()[w]).0 == m.motors[k].0;
        }
    }
    lemma_motors_rt(s, (vl.len() + br.len()) as nat, m.motors, Seq::empty());
    assert(Seq::<(Seq<char>, MotorModel)>::empty() + m.motors =~= m.motors);
    assert(scan_mobility_sp(s) == Some(
        MobilityModel { version: m.version, body: m.body, motors: m.motors },
    ));
    assert(MobilityModel { version: m.version, body: m.body, motors: m.motors } == m);
}

/// Does the motor table already hold this key?
fn motors_contain_key(motors: &Vec<(String, MotorConfig)>, k: &String) -> (r: bool)
    ensures
        r == motor_keys_contain(
            motors@.map_values(|p: (String, MotorConfig)| (p.0@, p.1.model())),
            k@,
        ),
{
    let ghost models = motors@.map_values(|p: (String, MotorConfig)| (p.0@, p.1.model()));
    let mut x: usize = 0;
    while x < motors.len()
        invariant
            0 <= x <= motors@.len(),
            models == motors@.map_values(|p: (String, MotorConfig)| (p.0@, p.1.model())),
            models.len() == motors@.len(),
            forall|t: int| 0 <= t < x ==> (#[trigger] models[t]).0 != k@,
        decreases motors@.len() - x,
    {
        if str_eq(motors[x].0.as_str(), k.as_str()) {
            assert(models[x as int].0 == k@);
            return true;
        }
        x = x + 1;
    }
    proof {
        if motor_keys_contain(models, k@) {
            let w = choose|w: int| 0 <= w < models.len() && (#[trigger] models[w]).0 == k@;
            assert(models[w].0 != k@);
        }
    }
    false
}

/// Scan the body table.
pub fn scan_body(s: &str, i: usize) -> (r: Option<(BodyConfig, usize)>)
    ensures
        (r is Some) == (scan_body_sp(s@, i as nat) is Some),
        r matches Some((b, j)) ==> scan_body_sp(s@, i as nat) == Some((b, j as nat)) && i <= j
            <= s@.len(),
{
    let i2 = advance_trivia(s, i);
    let j0 = match expect_lit(s, i2, "[body]\n") {
        None => {
            return None;
        },
        Some(j) => j,
    };
    let (sp, j1) = match milli_line(s, j0, "max_speed = ") {
        None => {
            return None;
        },
        Some(p) => p,
    };
    let (acc, j2) = match milli_line(s, j1, "max_acceleration = ") {
        None => {
            return None;
        },
        Some(p) => p,
    };
    let (tr, j3) = match milli_line(s, j2, "min_turn_radius = ") {
        None => {
            return None;
        },
        Some(p) => p,
    };
    let (su, j4) = match milli_line(s, j3, "max_standup_speed = ") {
        None => {
            return None;
        },
        Some(p) => p,
    };
    let (roll, j5) = match milli_line(s, j4, "max_roll_angle = ") {
        None => {
            return None;
        },
        Some(p) => p,
    };
    let (pitch, j6) = match milli_line(s, j5, "max_pitch_angle = ") {
        None => {
            return None;
        },
        Some(p) => p,
    };
    Some(
        (
            BodyConfig {
                max_speed: sp,
                max_acceleration: acc,
                min_turn_radius: tr,
                max_standup_speed: su,
                max_roll_angle: roll,
                max_pitch_angle: pitch,
            },
            j6,
        ),
    )
}

/// Scan one motor's table.
pub fn scan_motor(s: &str, i: usize) -> (r: Option<((String, MotorConfig), usize)>)
    ensures
        (r is Some) == (scan_motor_sp(s@, i as nat) is Some),
        r matches Some(((k, m), j)) ==> scan_motor_sp(s@, i as nat) == Some(
            ((k@, m.model()), j as nat),
        ) && i < j <= s@.len(),
{
    proof {
        reveal_strlit("[motors.");
    }
    let j0 = match expect_lit(s, i, "[motors.") {
        None => {
            return None;
        },
        Some(j) => j,
    };
    let (key, j1) = scan_barekey(s, j0);
    if key.as_str().unicode_len() == 0 {
        return None;
    }
    let j2 = match expect_lit(s, j1, "]\n") {
        None => {
            return None;
        },
        Some(j) => j,
    };
    let (name, j3) = match quoted_line(s, j2, "name = ") {
        None => {
            return None;
        },
        Some(p) => p,
    };
    Some(((key, MotorConfig { name }), j3))
}

impl MobilityConfig {
    /// Parse a configuration text. Succeeds exactly on the texts the grammar
    /// admits; every other input is a `ParseError` and none panics.
    pub fn from_toml(toml_str: &str) -> (r: Result<MobilityConfig, ParseError>)
        ensures
            (r is Ok) == (scan_mobility_sp(toml_str@) is Some),
            r matches Ok(c) ==> Some(c.model()) == scan_mobility_sp(toml_str@),
    {
        let n = toml_str.unicode_len();
        let (version, j) = match quoted_line(toml_str, 0, "version = ") {
            None => {
                return Err(ParseError {});
            },
            Some(p) => p,
        };
        let (body, j2) = match scan_body(toml_str, j) {
            None => {
                return Err(ParseError {});
            },
            Some(p) => p,
        };
        let mut motors: Vec<(String, MotorConfig)> = Vec::new();
        let mut i: usize = j2;
        proof {
            assert(motors@.map_values(|p: (String, MotorConfig)| (p.0@, p.1.model())) =~= Seq::<
                (Seq<char>, MotorModel),
            >::empty());
        }
        loop
            invariant
                i <= n,
                n == toml_str@.len(),
                quoted_line_sp(toml_str@, 0, "version = "@) == Some((version@, j as nat)),
                scan_body_sp(toml_str@, j as nat) == Some((body, j2 as nat)),
                scan_motors_sp(toml_str@, j2 as nat, Seq::empty()) == scan_motors_sp(
                    toml_str@,
                    i as nat,
                    motors@.map_values(|p: (String, MotorConfig)| (p.0@, p.1.model())),
                ),
            decreases n - i,
        {
            let ghost pre = motors@.map_values(|p: (String, MotorConfig)| (p.0@, p.1.model()));
            let i2 = advance_trivia(toml_str, i);
            if i2 == n {
                return Ok(MobilityConfig { version, body, motors });
            }
            let ((key, motor), j3) = match scan_motor(toml_str, i2) {
                None => {
                    return Err(ParseError {});
                },
                Some(p) => p,
            };
            if motors_contain_key(&motors, &key) {
                return Err(ParseError {});
            }
            motors.push((key, motor));
            proof {
                assert(motors@.map_values(|p: (String, MotorConfig)| (p.0@, p.1.model()))
                    =~= pre.push((motors@.last().0@, motors@.last().1.model())));
            }
            i = j3;
        }
    }

    /// Render the canonical configuration text.
    pub fn to_toml(&self) -> (r: String)
        ensures
            r@ == mobility_rep(self.model()),
    {
        let ghost models = self.model().motors;
        let mut out = String::new();
        push_quoted_line(&mut out, "version = ", self.version.as_str());
        out.append("[body]\n");
        push_milli_line(&mut out, "max_speed = ", self.body.max_speed);
        push_milli_line(&mut out, "max_acceleration = ", self.body.max_acceleration);
        push_milli_line(&mut out, "min_turn_radius = ", self.body.min_turn_radius);
        push_milli_line(&mut out, "max_standup_speed = ", self.body.max_standup_speed);
        push_milli_line(&mut out, "max_roll_angle = ", self.body.max_roll_angle);
        push_milli_line(&mut out, "max_pitch_angle = ", self.body.max_pitch_angle);
        proof {
            assert(models.take(0) =~= Seq::<(Seq<char>, MotorModel)>::empty());
            assert(out@ =~= Seq::<char>::empty() + line_of(
                "version = "@,
                quoted(self.version@),
            ) + body_rep(self.body) + motors_rep(models.take(0)));
        }
        let mut x: usize = 0;
        while x < self.motors.len()
            invariant
                0 <= x <= self.motors@.len(),
                models == self.model().motors,
                models.len() == self.motors@.len(),
                out@ == Seq::<char>::empty() + line_of("version = "@, quoted(self.version@))
                    + body_rep(self.body) + motors_rep(models.take(x as int)),
            decreases self.motors@.len() - x,
        {
            let p = &self.motors[x];
            out.append("[motors.");
            out.append(p.0.as_str());
            out.append("]\n");
            push_quoted_line(&mut out, "name = ", p.1.name.as_str());
            proof {
                lemma_motors_rep_snoc(models, x as int);
                assert(out@ =~= Seq::<char>::empty() + line_of(
                    "version = "@,
                    quoted(self.version@),
                ) + body_rep(self.body) + motors_rep(models.take(x as int + 1)));
            }
            x = x + 1;
        }
        proof {
            assert(models.take(models.len() as int) =~= models);
            assert(out@ =~= mobility_rep(self.model()));
        }
        out
    }

    /// The motor registered under this name, if any.
    pub fn get_motor(&self, motor_name: &str) -> (r: Option<&MotorConfig>)
        ensures
            (r is Some) == (lookup_motor(self.model().motors, motor_name@) is Some),
            r matches Some(m) ==> lookup_motor(self.model().motors, motor_name@) == Some(
                m.model(),
            ),
    {
        let ghost models = self.model().motors;
        proof {
            assert(models.skip(0) =~= models);
        }
        let mut x: usize = 0;
        while x < self.motors.len()
            invariant
                0 <= x <= self.motors@.len(),
                models == self.model().motors,
                models.len() == self.motors@.len(),
                lookup_motor(models, motor_name@) == lookup_motor(
                    models.skip(x as int),
                    motor_name@,
                ),
            decreases self.motors@.len() - x,
        {
            proof {
                assert(models.skip(x as int)[0] == models[x as int]);
                assert(models.skip(x as int).skip(1) =~= models.skip(x as int + 1));
            }
            let p = &self.motors[x];
            if str_eq(p.0.as_str(), motor_name) {
                return Some(&p.1);
            }
            x = x + 1;
        }
        proof {
            assert(models.skip(models.len() as int) =~= Seq::<(Seq<char>, MotorModel)>::empty());
        }
        None
    }

    /// All motor table keys, in file order.
    pub fn motor_names(&self) -> (r: Vec<&String>)
        ensures
            r@.len() == self.model().motors.len(),
            forall|k: int| 0 <= k < r@.len() ==> (#[trigger] r@[k])@ == self.model().motors[k].0,
    {
        let mut out: Vec<&String> = Vec::new();
        let mut x: usize = 0;
        while x < self.motors.len()
            invariant
                0 <= x <= self.motors@.len(),
                out@.len() == x,
                forall|k: int| 0 <= k < x ==> (#[trigger] out@[k])@ == self.model().motors[k].0,
            decreases self.motors@.len() - x,
        {
            let p = &self.motors[x];
            out.push(&p.0);
            x = x + 1;
        }
        out
    }
}

/// Rendering the motors one further.
proof fn lemma_motors_rep_snoc(motors: Seq<(Seq<char>, MotorModel)>, x: int)
    requires
        0 <= x < motors.len(),
    ensures
        motors_rep(motors.take(x + 1)) == motors_rep(motors.take(x)) + motor_rep(
            motors[x].0,
            motors[x].1,
        ),
    decreases x,
{
    if x == 0 {
        assert(motors.take(1)[0] == motors[0]);
        assert(motors.take(1).skip(1) =~= Seq::<(Seq<char>, MotorModel)>::empty());
        assert(motors.take(0) =~= Seq::<(Seq<char>, MotorModel)>::empty());
        assert(motors_rep(Seq::<(Seq<char>, MotorModel)>::empty()) =~= Seq::<char>::empty());
        assert(motor_rep(motors[0].0, motors[0].1) + Seq::<char>::empty() =~= motor_rep(
            motors[0].0,
            motors[0].1,
        ));
        assert(Seq::<char>::empty() + motor_rep(motors[0].0, motors[0].1) =~= motor_rep(
            motors[0].0,
            motors[0].1,
        ));
    } else {
        lemma_motors_rep_snoc(motors.skip(1), x - 1);
        assert(motors.take(x + 1)[0] == motors[0]);
        assert(motors.take(x)[0] == motors[0]);
        assert(motors.take(x + 1).skip(1) =~= motors.skip(1).take(x));
        assert(motors.take(x).skip(1) =~= motors.skip(1).take(x - 1));
        assert(motors.skip(1)[x - 1] == motors[x]);
        assert(motors_rep(motors.take(x + 1)) == motor_rep(motors[0].0, motors[0].1)
            + motors_rep(motors.skip(1).take(x)));
        assert(motors_rep(motors.take(x)) == motor_rep(motors[0].0, motors[0].1) + motors_rep(
            motors.skip(1).take(x - 1),
        ));
        assert(motor_rep(motors[0].0, motors[0].1) + (motors_rep(motors.skip(1).take(x - 1))
            + motor_rep(motors[x].0, motors[x].1)) =~= (motor_rep(motors[0].0, motors[0].1)
            + motors_rep(motors.skip(1).take(x - 1))) + motor_rep(motors[x].0, motors[x].1));
    }
}

} // verus!
